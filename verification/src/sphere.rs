//! The one geometric primitive: a sphere, intersected by quadratic
//! root-finding.
//!
//! A sphere centered at C with radius r is the set of points P with
//! (P - C) . (P - C) = r^2. Substituting the ray P(t) = A + t b gives a
//! quadratic in t with a = b . b, half_b = (A - C) . b and
//! c = (A - C) . (A - C) - r^2; the discriminant half_b^2 - a c decides
//! whether the ray meets the sphere, and the smaller root is preferred so
//! the nearest valid intersection always wins.

use vstd::prelude::*;

use crate::fx::{fmul, fquot, fsqrt, fx_div, fx_mul, fx_sqrt, SCALE};
use crate::hittable::{HitRecord, Hittable, T_LIMIT};
use crate::material::MaterialKind;
use crate::point3::Point3;
use crate::ray::{Ray, RAY_DIR_LIMIT, RAY_POS_LIMIT};
use crate::vec3::{lemma_dot_abs_bound, lemma_dot_self_nonneg, V3};

verus! {

#[derive(Clone, Copy, Debug, PartialEq, Eq, Structural)]
pub struct Sphere {
    pub center: Point3,
    pub radius: i128,
    pub material: MaterialKind,
}

impl Sphere {
    /// A sphere the renderer can trace: center inside the supported volume,
    /// a nonzero radius of bounded magnitude (negative radii are legal and
    /// flip the outward normal, modelling hollow shells), and a well-formed
    /// material.
    pub open spec fn wf(self) -> bool {
        &&& self.center@.in_range(RAY_POS_LIMIT as int)
        &&& self.radius != 0
        &&& -(RAY_POS_LIMIT as int) <= self.radius <= RAY_POS_LIMIT as int
        &&& self.material.wf()
    }

    pub fn new(center: Point3, radius: i128, material: MaterialKind) -> (s: Self)
        requires
            center@.in_range(RAY_POS_LIMIT as int),
            radius != 0,
            -RAY_POS_LIMIT <= radius <= RAY_POS_LIMIT,
            material.wf(),
        ensures
            s.center == center,
            s.radius == radius,
            s.material == material,
            s.wf(),
    {
        Self { center, radius, material }
    }

    /// Offset from the sphere's center to the ray's origin.
    pub open spec fn oc_spec(self, ray: Ray) -> V3 {
        ray.origin@.minus(self.center@)
    }

    /// Quadratic coefficient a: the squared length of the direction.
    pub open spec fn a_spec(self, ray: Ray) -> int {
        ray.direction@.len_sq()
    }

    /// Quadratic coefficient half b.
    pub open spec fn half_b_spec(self, ray: Ray) -> int {
        self.oc_spec(ray).dotv(ray.direction@)
    }

    /// Quadratic coefficient c.
    pub open spec fn c_spec(self, ray: Ray) -> int {
        self.oc_spec(ray).len_sq() - fmul(self.radius as int, self.radius as int)
    }

    pub open spec fn disc_spec(self, ray: Ray) -> int {
        fmul(self.half_b_spec(ray), self.half_b_spec(ray)) - fmul(
            self.a_spec(ray),
            self.c_spec(ray),
        )
    }

    /// The nearer root of the quadratic.
    pub open spec fn root1_spec(self, ray: Ray) -> int {
        fquot(-self.half_b_spec(ray) - fsqrt(self.disc_spec(ray)), self.a_spec(ray))
    }

    /// The farther root of the quadratic.
    pub open spec fn root2_spec(self, ray: Ray) -> int {
        fquot(-self.half_b_spec(ray) + fsqrt(self.disc_spec(ray)), self.a_spec(ray))
    }

    /// The accepted parametric distance, if any: a direction too short to
    /// measure on the grid cannot hit, a negative discriminant misses, and
    /// of the two roots the nearer is preferred, each tested against the
    /// search interval.
    pub open spec fn hit_t(self, ray: Ray, t_min: int, t_max: int) -> Option<int> {
        if self.a_spec(ray) <= 0 {
            None
        } else if self.disc_spec(ray) < 0 {
            None
        } else {
            let r1 = self.root1_spec(ray);
            if t_min <= r1 <= t_max {
                Some(r1)
            } else {
                let r2 = self.root2_spec(ray);
                if t_min <= r2 <= t_max {
                    Some(r2)
                } else {
                    None
                }
            }
        }
    }

    /// Outward normal at the contact point for distance `t`: the offset
    /// from the center scaled by the signed radius, so a negative radius
    /// flips it inward.
    pub open spec fn outward_normal_spec(self, ray: Ray, t: int) -> V3 {
        ray.at_spec(t).minus(self.center@).sdiv(self.radius as int)
    }

    /// The accepted hit: the distance of `hit_t` whose contact point stays
    /// inside the supported volume with a normal of plausible magnitude;
    /// a root so degraded by rounding that either guard fails is reported
    /// as a miss.
    pub open spec fn hit_spec(self, ray: Ray, t_min: int, t_max: int) -> Option<int> {
        match self.hit_t(ray, t_min, t_max) {
            Option::None => Option::None,
            Option::Some(t) => {
                if ray.at_spec(t).in_range(RAY_POS_LIMIT as int) && self.outward_normal_spec(
                    ray,
                    t,
                ).in_range(4 * (SCALE as int)) {
                    Option::Some(t)
                } else {
                    Option::None
                }
            },
        }
    }

    /// Whether the ray meets this sphere within [t_min, t_max]; on a hit the
    /// record holds the distance, the contact point, the normal oriented
    /// against the ray, and this sphere's material.
    pub fn hit(&self, ray: Ray, t_min: i128, t_max: i128, record: &mut HitRecord) -> (did: bool)
        requires
            self.wf(),
            ray.wf(),
            0 <= t_min <= t_max <= T_LIMIT,
            old(record).wf(),
        ensures
            did == self.hit_spec(ray, t_min as int, t_max as int) is Some,
            did ==> self.hit_spec(ray, t_min as int, t_max as int) == Some(
                final(record).t as int,
            ),
            did ==> final(record).point@ == ray.at_spec(final(record).t as int),
            did ==> final(record).is_front_face == (ray.direction@.dotv(
                self.outward_normal_spec(ray, final(record).t as int),
            ) < 0),
            did ==> final(record).normal@ == (if final(record).is_front_face {
                self.outward_normal_spec(ray, final(record).t as int)
            } else {
                self.outward_normal_spec(ray, final(record).t as int).negv()
            }),
            did ==> final(record).material == self.material,
            did && ray.direction@.dot_unscaled(
                self.outward_normal_spec(ray, final(record).t as int),
            ) != 0 ==> ray.direction@.dotv(final(record).normal@) < 0,
            did ==> t_min <= final(record).t <= t_max,
            !did ==> *final(record) == *old(record),
            final(record).wf(),
    {
        let oc = ray.origin.sub(self.center);
        proof {
            lemma_dot_self_nonneg(ray.direction@);
            lemma_dot_abs_bound(ray.direction@, ray.direction@, RAY_DIR_LIMIT as int);
            lemma_dot_abs_bound(oc@, ray.direction@, RAY_DIR_LIMIT as int);
            lemma_dot_abs_bound(oc@, oc@, 0x20000000);
            crate::fx::lemma_fmul_abs_bound(
                self.radius as int,
                self.radius as int,
                RAY_POS_LIMIT as int,
                RAY_POS_LIMIT as int,
            );
        }
        let a = ray.direction.len_squared();
        let half_b = oc.dot(ray.direction);
        let c = oc.len_squared() - fx_mul(self.radius, self.radius);

        // A direction below the measurable grid cannot be intersected.
        if a <= 0 {
            return false;
        }
        proof {
            crate::fx::lemma_fmul_abs_bound(
                half_b as int,
                half_b as int,
                0x100000000000000,
                0x100000000000000,
            );
            crate::fx::lemma_fmul_abs_bound(
                a as int,
                c as int,
                0x100000000000000,
                0x100000000000,
            );
        }
        let discriminant = fx_mul(half_b, half_b) - fx_mul(a, c);
        if discriminant < 0 {
            return false;
        }
        let sqrtd = fx_sqrt(discriminant);

        // Find the nearest root that lies in the acceptable range.
        let mut root = fx_div(-half_b - sqrtd, a);
        if root < t_min || t_max < root {
            root = fx_div(-half_b + sqrtd, a);
            if root < t_min || t_max < root {
                return false;
            }
        }

        let point = ray.at(root);
        // Rounding can in principle drive a contact point out of the
        // supported volume; such a hit is reported as a miss.
        if !point.check_range(RAY_POS_LIMIT) {
            return false;
        }
        let outward_normal = point.sub(self.center).div_scalar(self.radius);
        if !outward_normal.check_range(4 * SCALE) {
            return false;
        }
        record.t = root;
        record.point = point;
        record.set_face_normal(ray, outward_normal);
        record.material = self.material;
        true
    }
}

/// Quantization slack of an accepted root: how far from zero the computed
/// quadratic, scaled by its leading coefficient, may sit at that root. Every
/// term carries a floor error of less than one grid unit, amplified by the
/// magnitudes it multiplies.
pub open spec fn surface_residual_bound(a: int, sq: int) -> int {
    let s1 = SCALE as int;
    s1 * s1 * s1 + 2 * sq * (s1 * s1) + 2 * sq * s1 * a + a * a
}

/// The algebra behind the residual bound: with every floor remainder named
/// (`e1`, `e2` from the discriminant products, `w` from the square root,
/// `rho` from the root division), the scaled quadratic at the root equals a
/// small combination of those remainders.
proof fn lemma_quadratic_residual(
    a: int,
    hb: int,
    c: int,
    d: int,
    sq: int,
    w: int,
    e1: int,
    e2: int,
    nn: int,
    t: int,
    rho: int,
)
    requires
        a >= 1,
        sq >= 0,
        0 <= e1 < SCALE as int,
        0 <= e2 < SCALE as int,
        0 <= w <= 2 * sq,
        0 <= rho < a,
        (SCALE as int) * d == hb * hb - e1 - (a * c - e2),
        sq * sq == d * (SCALE as int) - w,
        nn == a * t + rho,
        nn == (-hb - sq) * (SCALE as int) || nn == (-hb + sq) * (SCALE as int),
    ensures
        -surface_residual_bound(a, sq) <= a * (a * t * t + 2 * hb * t * (SCALE as int) + c * (
        SCALE as int) * (SCALE as int)) <= surface_residual_bound(a, sq),
{
    let s1 = SCALE as int;
    vstd::arithmetic::mul::lemma_mul_is_distributive_add(
        a,
        a * t * t + 2 * hb * t * s1,
        c * s1 * s1,
    );
    vstd::arithmetic::mul::lemma_mul_is_distributive_add(a, a * t * t, 2 * hb * t * s1);
    assert(a * (a * t * t) == (a * t) * (a * t)) by (nonlinear_arith);
    assert(a * (2 * hb * t * s1) == 2 * hb * s1 * (a * t)) by (nonlinear_arith);
    assert(a * (c * s1 * s1) == (a * c) * (s1 * s1)) by (nonlinear_arith);
    assert(a * (a * t * t + 2 * hb * t * s1 + c * s1 * s1) == (a * t) * (a * t) + 2 * hb * s1 * (a
        * t) + (a * c) * (s1 * s1));
    assert((a * t) * (a * t) == nn * nn - 2 * nn * rho + rho * rho) by (nonlinear_arith)
        requires
            a * t == nn - rho;
    assert(2 * hb * s1 * (a * t) == 2 * hb * s1 * nn - 2 * hb * s1 * rho) by (nonlinear_arith)
        requires
            a * t == nn - rho;
    assert(s1 * s1 * (sq * sq - hb * hb) + (a * c) * (s1 * s1) == s1 * s1 * (e2 - e1 - w))
        by (nonlinear_arith)
        requires
            sq * sq == d * s1 - w,
            s1 * d == hb * hb - e1 - (a * c - e2);
    if nn == (-hb - sq) * s1 {
        assert(nn * nn + 2 * hb * s1 * nn == s1 * s1 * (sq * sq - hb * hb)) by (nonlinear_arith)
            requires
                nn == (-hb - sq) * s1;
        assert(-(2 * nn * rho) - 2 * hb * s1 * rho == 2 * sq * s1 * rho) by (nonlinear_arith)
            requires
                nn == (-hb - sq) * s1;
        assert(a * (a * t * t + 2 * hb * t * s1 + c * s1 * s1) == s1 * s1 * (e2 - e1 - w) + 2 * sq
            * s1 * rho + rho * rho);
    } else {
        assert(nn * nn + 2 * hb * s1 * nn == s1 * s1 * (sq * sq - hb * hb)) by (nonlinear_arith)
            requires
                nn == (-hb + sq) * s1;
        assert(-(2 * nn * rho) - 2 * hb * s1 * rho == -(2 * sq * s1 * rho)) by (nonlinear_arith)
            requires
                nn == (-hb + sq) * s1;
        assert(a * (a * t * t + 2 * hb * t * s1 + c * s1 * s1) == s1 * s1 * (e2 - e1 - w) - 2 * sq
            * s1 * rho + rho * rho);
    }
    assert(-(s1 * s1 * s1 + 2 * sq * (s1 * s1) + 2 * sq * s1 * a + a * a) <= s1 * s1 * (e2 - e1
        - w) + 2 * sq * s1 * rho + rho * rho <= s1 * s1 * s1 + 2 * sq * (s1 * s1) + 2 * sq * s1 * a
        + a * a) by (nonlinear_arith)
        requires
            s1 == 65536,
            0 <= e1 < s1,
            0 <= e2 < s1,
            0 <= w <= 2 * sq,
            0 <= rho < a,
            sq >= 0,
            a >= 1;
    assert(-(s1 * s1 * s1 + 2 * sq * (s1 * s1) + 2 * sq * s1 * a + a * a) <= s1 * s1 * (e2 - e1
        - w) - 2 * sq * s1 * rho + rho * rho <= s1 * s1 * s1 + 2 * sq * (s1 * s1) + 2 * sq * s1 * a
        + a * a) by (nonlinear_arith)
        requires
            s1 == 65536,
            0 <= e1 < s1,
            0 <= e2 < s1,
            0 <= w <= 2 * sq,
            0 <= rho < a,
            sq >= 0,
            a >= 1;
}

/// Grid form of the on-surface law, at the level of the quadratic: a
/// distance accepted by `hit_t` is a root of the computed quadratic up to
/// the quantization slack, so the contact point it parameterizes sits on
/// the sphere to the accuracy the grid arithmetic carries.
pub proof fn lemma_hit_root_on_quadratic(s: Sphere, ray: Ray, t_min: int, t_max: int, t: int)
    requires
        s.hit_t(ray, t_min, t_max) == Some(t),
    ensures
        ({
            let a = s.a_spec(ray);
            let hb = s.half_b_spec(ray);
            let c = s.c_spec(ray);
            let sq = fsqrt(s.disc_spec(ray));
            -surface_residual_bound(a, sq) <= a * (a * t * t + 2 * hb * t * (SCALE as int) + c * (
            SCALE as int) * (SCALE as int)) <= surface_residual_bound(a, sq)
        }),
{
    let s1 = SCALE as int;
    let a = s.a_spec(ray);
    let hb = s.half_b_spec(ray);
    let c = s.c_spec(ray);
    let d = s.disc_spec(ray);
    let sq = fsqrt(d);
    crate::vec3::lemma_dot_self_nonneg(ray.direction@);
    vstd::arithmetic::div_mod::lemma_fundamental_div_mod(hb * hb, s1);
    vstd::arithmetic::div_mod::lemma_mod_division_less_than_divisor(hb * hb, s1);
    vstd::arithmetic::div_mod::lemma_fundamental_div_mod(a * c, s1);
    vstd::arithmetic::div_mod::lemma_mod_division_less_than_divisor(a * c, s1);
    let e1 = (hb * hb) % s1;
    let e2 = (a * c) % s1;
    crate::fx::lemma_sqrt_floor_bounds(d * s1);
    let w = d * s1 - sq * sq;
    let nn = if t == s.root1_spec(ray) {
        (-hb - sq) * s1
    } else {
        (-hb + sq) * s1
    };
    vstd::arithmetic::div_mod::lemma_fundamental_div_mod(nn, a);
    vstd::arithmetic::div_mod::lemma_mod_division_less_than_divisor(nn, a);
    let rho = nn % a;
    assert(w <= 2 * sq) by (nonlinear_arith)
        requires
            d * s1 < (sq + 1) * (sq + 1),
            w == d * s1 - sq * sq,
            sq >= 0;
    assert(nn == a * t + rho);
    lemma_quadratic_residual(a, hb, c, d, sq, w, e1, e2, nn, t, rho);
}

/// Grid form of the on-surface law: the contact point of an accepted hit
/// lies at the sphere's radius, up to quantization. Scaled by the leading
/// coefficient and three powers of the unit, the difference between the
/// squared contact distance and the squared radius is bounded by a slack
/// whose every term is one floor loss times the magnitude it multiplies —
/// so, relative to the scales involved, the point sits on the surface to
/// within a few grid units.
pub proof fn lemma_hit_point_on_sphere(s: Sphere, ray: Ray, t_min: int, t_max: int, t: int)
    requires
        0 <= t_min,
        s.hit_spec(ray, t_min, t_max) == Some(t),
    ensures
        ({
            let s1 = SCALE as int;
            let a = s.a_spec(ray);
            let sq = fsqrt(s.disc_spec(ray));
            let m = ray.at_spec(t).minus(s.center@);
            let mm = vstd::math::abs(m.x) + vstd::math::abs(m.y) + vstd::math::abs(m.z);
            let slack = s1 * surface_residual_bound(a, sq) + a * (2 * (s1 * s1 * s1) + 2 * (s1
                * s1) * t + s1 * (t * t) + 2 * (s1 * s1) * mm + 9 * (s1 * s1));
            -slack <= a * ((s1 * s1 * s1) * (m.len_sq() - fmul(
                s.radius as int,
                s.radius as int,
            ))) <= slack
        }),
{
    let a = s.a_spec(ray);
    let hb = s.half_b_spec(ray);
    let c = s.c_spec(ray);
    let sq = fsqrt(s.disc_spec(ray));
    let rr = fmul(s.radius as int, s.radius as int);
    let d1 = ray.direction@.x;
    let d2 = ray.direction@.y;
    let d3 = ray.direction@.z;
    let oc1 = ray.origin@.x - s.center@.x;
    let oc2 = ray.origin@.y - s.center@.y;
    let oc3 = ray.origin@.z - s.center@.z;
    let m = ray.at_spec(t).minus(s.center@);
    let sum_d = d1 * d1 + d2 * d2 + d3 * d3;
    let sum_ocd = oc1 * d1 + oc2 * d2 + oc3 * d3;
    let sum_oc = oc1 * oc1 + oc2 * oc2 + oc3 * oc3;
    let sum_m = m.x * m.x + m.y * m.y + m.z * m.z;
    assert(0 <= t);
    lemma_hit_root_on_quadratic(s, ray, t_min, t_max, t);

    // floor remainders of the three aggregate products
    vstd::arithmetic::div_mod::lemma_fundamental_div_mod(sum_d, 65536);
    vstd::arithmetic::div_mod::lemma_mod_division_less_than_divisor(sum_d, 65536);
    let alpha = sum_d % 65536;
    vstd::arithmetic::div_mod::lemma_fundamental_div_mod(sum_ocd, 65536);
    vstd::arithmetic::div_mod::lemma_mod_division_less_than_divisor(sum_ocd, 65536);
    let beta = sum_ocd % 65536;
    vstd::arithmetic::div_mod::lemma_fundamental_div_mod(sum_oc, 65536);
    vstd::arithmetic::div_mod::lemma_mod_division_less_than_divisor(sum_oc, 65536);
    let gamma = sum_oc % 65536;
    let cc = sum_oc / 65536;
    assert(c == cc - rr);
    vstd::arithmetic::div_mod::lemma_fundamental_div_mod(sum_m, 65536);
    vstd::arithmetic::div_mod::lemma_mod_division_less_than_divisor(sum_m, 65536);
    let lam = sum_m % 65536;
    let dist = m.len_sq();
    assert(sum_m == 65536 * dist + lam);

    // floor remainders of the three point components
    vstd::arithmetic::div_mod::lemma_fundamental_div_mod(t * d1, 65536);
    vstd::arithmetic::div_mod::lemma_mod_division_less_than_divisor(t * d1, 65536);
    vstd::arithmetic::div_mod::lemma_fundamental_div_mod(t * d2, 65536);
    vstd::arithmetic::div_mod::lemma_mod_division_less_than_divisor(t * d2, 65536);
    vstd::arithmetic::div_mod::lemma_fundamental_div_mod(t * d3, 65536);
    vstd::arithmetic::div_mod::lemma_mod_division_less_than_divisor(t * d3, 65536);
    let rho1 = (t * d1) % 65536;
    let rho2 = (t * d2) % 65536;
    let rho3 = (t * d3) % 65536;
    let x1 = 65536 * oc1 + t * d1;
    let x2 = 65536 * oc2 + t * d2;
    let x3 = 65536 * oc3 + t * d3;
    assert(65536 * m.x == x1 - rho1 && 65536 * m.y == x2 - rho2 && 65536 * m.z == x3 - rho3);

    // squares, component by component
    lemma_point_component_square(oc1, d1, t, m.x, x1, rho1);
    lemma_point_component_square(oc2, d2, t, m.y, x2, rho2);
    lemma_point_component_square(oc3, d3, t, m.z, x3, rho3);

    // regroup the sums
    assert(t * (oc1 * d1) + t * (oc2 * d2) + t * (oc3 * d3) == t * sum_ocd) by (nonlinear_arith)
        requires
            sum_ocd == oc1 * d1 + oc2 * d2 + oc3 * d3;
    assert(t * t * (d1 * d1) + t * t * (d2 * d2) + t * t * (d3 * d3) == t * t * sum_d)
        by (nonlinear_arith)
        requires
            sum_d == d1 * d1 + d2 * d2 + d3 * d3;

    // substitute the aggregate floors
    assert(t * sum_ocd == 65536 * (t * hb) + t * beta) by (nonlinear_arith)
        requires
            sum_ocd == 65536 * hb + beta;
    assert(t * t * sum_d == 65536 * (a * t * t) + alpha * (t * t)) by (nonlinear_arith)
        requires
            sum_d == 65536 * a + alpha;
    assert(65536 * (a * t * t + 2 * hb * t * 65536 + c * 65536 * 65536) == 65536 * (a * t * t)
        + 131072 * 65536 * (t * hb) + 65536 * 65536 * 65536 * c) by (nonlinear_arith);

    // the assembled identity: scaled squared distance against the quadratic
    let qi = a * t * t + 2 * hb * t * 65536 + c * 65536 * 65536;
    let tt = 65536 * 65536 * gamma + 131072 * (t * beta) + alpha * (t * t) - 2 * x1 * rho1 - 2 * x2
        * rho2 - 2 * x3 * rho3 + rho1 * rho1 + rho2 * rho2 + rho3 * rho3 - 65536 * 65536 * lam;
    assert(65536 * 65536 * sum_m == 65536 * 65536 * sum_oc + 131072 * (t * sum_ocd) + t * t * sum_d
        - 2 * x1 * rho1 - 2 * x2 * rho2 - 2 * x3 * rho3 + rho1 * rho1 + rho2 * rho2 + rho3
        * rho3);
    assert(65536 * 65536 * sum_oc == 65536 * 65536 * 65536 * cc + 65536 * 65536 * gamma)
        by (nonlinear_arith)
        requires
            sum_oc == 65536 * cc + gamma;
    assert(131072 * (t * sum_ocd) == 131072 * 65536 * (t * hb) + 131072 * (t * beta))
        by (nonlinear_arith)
        requires
            t * sum_ocd == 65536 * (t * hb) + t * beta;
    assert(65536 * 65536 * sum_m == 65536 * 65536 * 65536 * dist + 65536 * 65536 * lam)
        by (nonlinear_arith)
        requires
            sum_m == 65536 * dist + lam;
    assert((65536 * 65536 * 65536) * (dist - rr) == 65536 * qi + tt) by (nonlinear_arith)
        requires
            65536 * 65536 * sum_m == 65536 * 65536 * sum_oc + 131072 * (t * sum_ocd) + t * t
                * sum_d - 2 * x1 * rho1 - 2 * x2 * rho2 - 2 * x3 * rho3 + rho1 * rho1 + rho2
                * rho2 + rho3 * rho3,
            65536 * 65536 * sum_oc == 65536 * 65536 * 65536 * cc + 65536 * 65536 * gamma,
            131072 * (t * sum_ocd) == 131072 * 65536 * (t * hb) + 131072 * (t * beta),
            t * t * sum_d == 65536 * (a * t * t) + alpha * (t * t),
            65536 * (a * t * t + 2 * hb * t * 65536 + c * 65536 * 65536) == 65536 * (a * t * t)
                + 131072 * 65536 * (t * hb) + 65536 * 65536 * 65536 * c,
            cc == c + rr,
            65536 * 65536 * sum_m == 65536 * 65536 * 65536 * dist + 65536 * 65536 * lam,
            qi == a * t * t + 2 * hb * t * 65536 + c * 65536 * 65536,
            tt == 65536 * 65536 * gamma + 131072 * (t * beta) + alpha * (t * t) - 2 * x1 * rho1 - 2
                * x2 * rho2 - 2 * x3 * rho3 + rho1 * rho1 + rho2 * rho2 + rho3 * rho3 - 65536
                * 65536 * lam;

    // bound every slack term
    let a1 = vstd::math::abs(m.x) as int;
    let a2 = vstd::math::abs(m.y) as int;
    let a3 = vstd::math::abs(m.z) as int;
    lemma_component_slack_bound(m.x, x1, rho1, a1);
    lemma_component_slack_bound(m.y, x2, rho2, a2);
    lemma_component_slack_bound(m.z, x3, rho3, a3);
    assert(0 <= t * beta <= 65536 * t) by (nonlinear_arith)
        requires
            0 <= beta < 65536,
            0 <= t;
    assert(0 <= alpha * (t * t) <= 65536 * (t * t)) by (nonlinear_arith)
        requires
            0 <= alpha < 65536;
    let mm = a1 + a2 + a3;
    let tb = 2 * (65536 * 65536 * 65536) + 2 * (65536 * 65536) * t + 65536 * (t * t) + 2 * (65536
        * 65536) * mm + 9 * (65536 * 65536);
    assert(0 <= 65536 * 65536 * gamma < 65536 * 65536 * 65536);
    assert(0 <= 65536 * 65536 * lam < 65536 * 65536 * 65536);
    assert(0 <= 131072 * (t * beta) <= 2 * (65536 * 65536) * t);
    assert(-tb <= tt <= tb) by (nonlinear_arith)
        requires
            tt == 65536 * 65536 * gamma + 131072 * (t * beta) + alpha * (t * t) - 2 * x1 * rho1 - 2
                * x2 * rho2 - 2 * x3 * rho3 + rho1 * rho1 + rho2 * rho2 + rho3 * rho3 - 65536
                * 65536 * lam,
            tb == 2 * (65536 * 65536 * 65536) + 2 * (65536 * 65536) * t + 65536 * (t * t) + 2 * (
            65536 * 65536) * mm + 9 * (65536 * 65536),
            mm == a1 + a2 + a3,
            0 <= gamma < 65536,
            0 <= lam < 65536,
            0 <= 131072 * (t * beta) <= 2 * (65536 * 65536) * t,
            0 <= alpha * (t * t) <= 65536 * (t * t),
            -(2 * (65536 * 65536) * a1 + 3 * (65536 * 65536)) <= -(2 * x1 * rho1) + rho1 * rho1
                <= 2 * (65536 * 65536) * a1 + 3 * (65536 * 65536),
            -(2 * (65536 * 65536) * a2 + 3 * (65536 * 65536)) <= -(2 * x2 * rho2) + rho2 * rho2
                <= 2 * (65536 * 65536) * a2 + 3 * (65536 * 65536),
            -(2 * (65536 * 65536) * a3 + 3 * (65536 * 65536)) <= -(2 * x3 * rho3) + rho3 * rho3
                <= 2 * (65536 * 65536) * a3 + 3 * (65536 * 65536);

    // multiply through by the leading coefficient
    assert(a * ((65536 * 65536 * 65536) * (dist - rr)) == 65536 * (a * qi) + a * tt)
        by (nonlinear_arith)
        requires
            (65536 * 65536 * 65536) * (dist - rr) == 65536 * qi + tt;
    assert(-(a * tb) <= a * tt <= a * tb) by (nonlinear_arith)
        requires
            -tb <= tt <= tb,
            a >= 1;
    assert(-(65536 * surface_residual_bound(a, sq)) <= 65536 * (a * qi) <= 65536
        * surface_residual_bound(a, sq));
}

/// One component of the contact point, squared: the floor remainders of its
/// construction, spelled out against the exact products.
proof fn lemma_point_component_square(oc: int, d: int, t: int, m: int, x: int, rho: int)
    requires
        x == 65536 * oc + t * d,
        65536 * m == x - rho,
    ensures
        65536 * 65536 * (m * m) == 65536 * 65536 * (oc * oc) + 131072 * (t * (oc * d)) + t * t * (d
            * d) - 2 * x * rho + rho * rho,
{
    assert((65536 * m) * (65536 * m) == x * x - 2 * x * rho + rho * rho) by (nonlinear_arith)
        requires
            65536 * m == x - rho;
    assert(x * x == 65536 * 65536 * (oc * oc) + 131072 * (t * (oc * d)) + t * t * (d * d))
        by (nonlinear_arith)
        requires
            x == 65536 * oc + t * d;
    assert((65536 * m) * (65536 * m) == 65536 * 65536 * (m * m)) by (nonlinear_arith);
}

/// The floor-loss term of one component stays within two squared units
/// times the component's magnitude, plus a constant.
proof fn lemma_component_slack_bound(m: int, x: int, rho: int, am: int)
    requires
        65536 * m == x - rho,
        0 <= rho < 65536,
        -am <= m <= am,
    ensures
        -(2 * (65536 * 65536) * am + 3 * (65536 * 65536)) <= -(2 * x * rho) + rho * rho <= 2 * (
        65536 * 65536) * am + 3 * (65536 * 65536),
{
    assert(-(2 * (65536 * 65536) * am + 3 * (65536 * 65536)) <= -(2 * x * rho) + rho * rho <= 2 * (
    65536 * 65536) * am + 3 * (65536 * 65536)) by (nonlinear_arith)
        requires
            65536 * m == x - rho,
            0 <= rho < 65536,
            -am <= m <= am;
}

/// Narrowing the upper end of the search interval keeps exactly the hits
/// whose distance still fits: the root selection is unchanged, only the
/// acceptance test tightens.
pub proof fn lemma_hit_spec_narrow(s: Sphere, ray: Ray, t_min: int, t1: int, t_max: int)
    requires
        t1 <= t_max,
    ensures
        s.hit_spec(ray, t_min, t1) == (match s.hit_spec(ray, t_min, t_max) {
            Option::Some(t) => if t <= t1 {
                Option::Some(t)
            } else {
                Option::None::<int>
            },
            Option::None => Option::None::<int>,
        }),
{
    if s.a_spec(ray) > 0 && s.disc_spec(ray) >= 0 {
        let a = s.a_spec(ray);
        let hb = s.half_b_spec(ray);
        let d = s.disc_spec(ray);
        crate::fx::lemma_sqrt_floor_bounds(d * (SCALE as int));
        let sq = fsqrt(d);
        vstd::arithmetic::div_mod::lemma_div_is_ordered(
            (-hb - sq) * (SCALE as int),
            (-hb + sq) * (SCALE as int),
            a,
        );
    }
}

impl Hittable for Sphere {
    open spec fn wf_spec(&self) -> bool {
        self.wf()
    }

    fn hit(&self, ray: Ray, t_min: i128, t_max: i128, record: &mut HitRecord) -> (did: bool) {
        Sphere::hit(self, ray, t_min, t_max, record)
    }
}

} // verus!
