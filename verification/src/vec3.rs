//! Three-component vectors over the fixed-point scalars of `fx`.
//!
//! `Vec3` is the executable type; its view is the spec-level model `V3`,
//! whose components are mathematical integers. Every geometric operation of
//! the renderer is defined once on `V3` and mirrored exactly by an executable
//! method on `Vec3`.

use vstd::prelude::*;

use crate::fx::{
    fdiv, floor_div, fmul, fquot, fsqrt, fx_div, fx_mul, fx_sqrt, lemma_mul_abs_bound,
    lemma_sqrt_floor_bounds, sqrt_floor, SCALE,
};

verus! {

/// Magnitude limit accepted by the vector operations; far beyond any value a
/// render produces, and small enough that no intermediate product can leave
/// `i128`.
pub const VLIM: i128 = 0x100000000000000;

/// Spec-level vector model: three unbounded fixed-point components.
pub struct V3 {
    pub x: int,
    pub y: int,
    pub z: int,
}

impl V3 {
    pub open spec fn zero() -> V3 {
        V3 { x: 0, y: 0, z: 0 }
    }

    pub open spec fn plus(self, o: V3) -> V3 {
        V3 { x: self.x + o.x, y: self.y + o.y, z: self.z + o.z }
    }

    pub open spec fn minus(self, o: V3) -> V3 {
        V3 { x: self.x - o.x, y: self.y - o.y, z: self.z - o.z }
    }

    pub open spec fn negv(self) -> V3 {
        V3 { x: -self.x, y: -self.y, z: -self.z }
    }

    /// Scalar times vector, component by component.
    pub open spec fn smul(self, k: int) -> V3 {
        V3 { x: fmul(k, self.x), y: fmul(k, self.y), z: fmul(k, self.z) }
    }

    /// Componentwise (Hadamard) product; this is how colors attenuate.
    pub open spec fn cmul(self, o: V3) -> V3 {
        V3 { x: fmul(self.x, o.x), y: fmul(self.y, o.y), z: fmul(self.z, o.z) }
    }

    /// Vector divided by a nonzero scalar.
    pub open spec fn sdiv(self, k: int) -> V3 {
        V3 { x: fquot(self.x, k), y: fquot(self.y, k), z: fquot(self.z, k) }
    }

    /// Sum of the component products, before rescaling.
    pub open spec fn dot_unscaled(self, o: V3) -> int {
        self.x * o.x + self.y * o.y + self.z * o.z
    }

    pub open spec fn dotv(self, o: V3) -> int {
        self.dot_unscaled(o) / (SCALE as int)
    }

    pub open spec fn crossv(self, o: V3) -> V3 {
        V3 {
            x: fmul(self.y, o.z) - fmul(self.z, o.y),
            y: fmul(self.z, o.x) - fmul(self.x, o.z),
            z: fmul(self.x, o.y) - fmul(self.y, o.x),
        }
    }

    pub open spec fn len_sq(self) -> int {
        self.dotv(self)
    }

    pub open spec fn lenv(self) -> int {
        fsqrt(self.len_sq())
    }

    /// Direction scaled to unit length; the zero vector (whose length rounds
    /// to zero on the grid) maps to the zero vector rather than failing.
    pub open spec fn unitv(self) -> V3 {
        if self.lenv() == 0 {
            V3::zero()
        } else {
            self.sdiv(self.lenv())
        }
    }

    /// Mirror reflection about a surface normal.
    pub open spec fn reflectv(self, n: V3) -> V3 {
        self.minus(n.smul(2 * self.dotv(n)))
    }

    /// Refraction of the unit direction `self` at a surface with normal `n`
    /// and ratio of refraction indices `ratio`: the perpendicular part is the
    /// scaled sum with the cosine-weighted normal, and the parallel part
    /// restores unit length.
    pub open spec fn refractv(self, n: V3, ratio: int) -> V3 {
        let d = self.negv().dotv(n);
        let cos = if d > SCALE as int {
            SCALE as int
        } else {
            d
        };
        let perp = (self.plus(n.smul(cos))).smul(ratio);
        let dd = (SCALE as int) - perp.len_sq();
        let m = if dd < 0 {
            -dd
        } else {
            dd
        };
        perp.plus(n.smul(-fsqrt(m)))
    }

    pub open spec fn is_zero(self) -> bool {
        self.x == 0 && self.y == 0 && self.z == 0
    }

    pub open spec fn in_range(self, c: int) -> bool {
        &&& -c <= self.x <= c
        &&& -c <= self.y <= c
        &&& -c <= self.z <= c
    }

    pub open spec fn in_lim(self) -> bool {
        self.in_range(VLIM as int)
    }
}

#[derive(Clone, Copy, Debug, PartialEq, Eq, Structural)]
pub struct Vec3 {
    pub x: i128,
    pub y: i128,
    pub z: i128,
}

impl View for Vec3 {
    type V = V3;

    open spec fn view(&self) -> V3 {
        V3 { x: self.x as int, y: self.y as int, z: self.z as int }
    }
}

/// The capabilities every vector value offers; implemented by `Vec3` through
/// its contracted inherent methods.
pub trait Vec3Properties: Sized {
    fn new(x: i128, y: i128, z: i128) -> Self;

    fn len(self) -> i128;

    fn len_squared(self) -> i128;

    fn dot(self, other: Self) -> i128;

    fn cross(self, other: Self) -> Self;

    fn unit_vector(self) -> Self;
}

impl Vec3 {
    pub fn new(x: i128, y: i128, z: i128) -> (v: Vec3)
        ensures
            v@ == (V3 { x: x as int, y: y as int, z: z as int }),
    {
        Vec3 { x, y, z }
    }

    pub fn add(self, other: Vec3) -> (r: Vec3)
        requires
            self@.in_lim(),
            other@.in_lim(),
        ensures
            r@ == self@.plus(other@),
    {
        Vec3 { x: self.x + other.x, y: self.y + other.y, z: self.z + other.z }
    }

    pub fn sub(self, other: Vec3) -> (r: Vec3)
        requires
            self@.in_lim(),
            other@.in_lim(),
        ensures
            r@ == self@.minus(other@),
    {
        Vec3 { x: self.x - other.x, y: self.y - other.y, z: self.z - other.z }
    }

    pub fn neg(self) -> (r: Vec3)
        requires
            self@.in_lim(),
        ensures
            r@ == self@.negv(),
    {
        Vec3 { x: -self.x, y: -self.y, z: -self.z }
    }

    /// Scalar times vector.
    pub fn mul_scalar(self, k: i128) -> (r: Vec3)
        requires
            self@.in_lim(),
            -VLIM <= k <= VLIM,
        ensures
            r@ == self@.smul(k as int),
    {
        Vec3 { x: fx_mul(k, self.x), y: fx_mul(k, self.y), z: fx_mul(k, self.z) }
    }

    /// Componentwise product.
    pub fn mul_vec(self, other: Vec3) -> (r: Vec3)
        requires
            self@.in_lim(),
            other@.in_lim(),
        ensures
            r@ == self@.cmul(other@),
    {
        Vec3 {
            x: fx_mul(self.x, other.x),
            y: fx_mul(self.y, other.y),
            z: fx_mul(self.z, other.z),
        }
    }

    /// Vector divided by a nonzero scalar.
    pub fn div_scalar(self, k: i128) -> (r: Vec3)
        requires
            self@.in_lim(),
            k != 0,
            -VLIM <= k <= VLIM,
        ensures
            r@ == self@.sdiv(k as int),
    {
        Vec3 { x: fx_div(self.x, k), y: fx_div(self.y, k), z: fx_div(self.z, k) }
    }

    pub fn add_assign(&mut self, other: Vec3)
        requires
            old(self)@.in_lim(),
            other@.in_lim(),
        ensures
            final(self)@ == old(self)@.plus(other@),
    {
        *self = self.add(other);
    }

    pub fn mul_assign(&mut self, k: i128)
        requires
            old(self)@.in_lim(),
            -VLIM <= k <= VLIM,
        ensures
            final(self)@ == old(self)@.smul(k as int),
    {
        let v = *self;
        *self = Vec3 { x: fx_mul(k, v.x), y: fx_mul(k, v.y), z: fx_mul(k, v.z) };
    }

    pub fn div_assign(&mut self, k: i128)
        requires
            old(self)@.in_lim(),
            k != 0,
            -VLIM <= k <= VLIM,
        ensures
            final(self)@ == old(self)@.sdiv(k as int),
    {
        let v = *self;
        *self = v.div_scalar(k);
    }

    /// Component read by position: 0 is x, 1 is y, 2 is z.
    pub fn index(self, i: u8) -> (r: i128)
        requires
            i < 3,
        ensures
            i == 0 ==> r == self@.x,
            i == 1 ==> r == self@.y,
            i == 2 ==> r == self@.z,
    {
        match i {
            0 => self.x,
            1 => self.y,
            _ => self.z,
        }
    }

    /// Component write by position: 0 is x, 1 is y, 2 is z.
    pub fn set_index(&mut self, i: u8, v: i128)
        requires
            i < 3,
        ensures
            i == 0 ==> final(self)@ == (V3 { x: v as int, ..old(self)@ }),
            i == 1 ==> final(self)@ == (V3 { y: v as int, ..old(self)@ }),
            i == 2 ==> final(self)@ == (V3 { z: v as int, ..old(self)@ }),
    {
        match i {
            0 => self.x = v,
            1 => self.y = v,
            _ => self.z = v,
        }
    }

    /// Whether every component lies within the symmetric bound `c`.
    pub fn check_range(self, c: i128) -> (r: bool)
        requires
            c >= 0,
        ensures
            r == self@.in_range(c as int),
    {
        self.x >= -c && self.x <= c && self.y >= -c && self.y <= c && self.z >= -c && self.z <= c
    }

    /// Whether every component vanishes on the fixed-point grid; the grid
    /// analogue of a near-zero test against a tiny epsilon.
    pub fn is_near_zero(self) -> (r: bool)
        ensures
            r == self@.is_zero(),
    {
        self.x == 0 && self.y == 0 && self.z == 0
    }

    pub fn dot(self, other: Vec3) -> (r: i128)
        requires
            self@.in_lim(),
            other@.in_lim(),
        ensures
            r == self@.dotv(other@),
    {
        proof {
            lemma_mul_abs_bound(self.x as int, other.x as int, VLIM as int, VLIM as int);
            lemma_mul_abs_bound(self.y as int, other.y as int, VLIM as int, VLIM as int);
            lemma_mul_abs_bound(self.z as int, other.z as int, VLIM as int, VLIM as int);
        }
        floor_div(self.x * other.x + self.y * other.y + self.z * other.z, SCALE)
    }

    pub fn cross(self, other: Vec3) -> (r: Vec3)
        requires
            self@.in_lim(),
            other@.in_lim(),
        ensures
            r@ == self@.crossv(other@),
    {
        proof {
            crate::fx::lemma_fmul_abs_bound(self.y as int, other.z as int, VLIM as int, VLIM as int);
            crate::fx::lemma_fmul_abs_bound(self.z as int, other.y as int, VLIM as int, VLIM as int);
            crate::fx::lemma_fmul_abs_bound(self.z as int, other.x as int, VLIM as int, VLIM as int);
            crate::fx::lemma_fmul_abs_bound(self.x as int, other.z as int, VLIM as int, VLIM as int);
            crate::fx::lemma_fmul_abs_bound(self.x as int, other.y as int, VLIM as int, VLIM as int);
            crate::fx::lemma_fmul_abs_bound(self.y as int, other.x as int, VLIM as int, VLIM as int);
        }
        Vec3 {
            x: fx_mul(self.y, other.z) - fx_mul(self.z, other.y),
            y: fx_mul(self.z, other.x) - fx_mul(self.x, other.z),
            z: fx_mul(self.x, other.y) - fx_mul(self.y, other.x),
        }
    }

    pub fn len_squared(self) -> (r: i128)
        requires
            self@.in_lim(),
        ensures
            r == self@.len_sq(),
            r >= 0,
    {
        proof {
            lemma_dot_self_nonneg(self@);
        }
        self.dot(self)
    }

    pub fn len(self) -> (r: i128)
        requires
            self@.in_lim(),
        ensures
            r == self@.lenv(),
            0 <= r < 0x8000000000000000,
    {
        proof {
            lemma_dot_abs_bound(self@, self@, VLIM as int);
        }
        let ls = self.len_squared();
        fx_sqrt(ls)
    }

    pub fn unit_vector(self) -> (r: Vec3)
        requires
            self@.in_lim(),
        ensures
            r@ == self@.unitv(),
    {
        let l = self.len();
        if l == 0 {
            Vec3 { x: 0, y: 0, z: 0 }
        } else {
            Vec3 { x: fx_div(self.x, l), y: fx_div(self.y, l), z: fx_div(self.z, l) }
        }
    }

    /// Mirror reflection of `self` about the normal `n`; both are expected
    /// at unit scale (a couple of units at most).
    pub fn reflect(self, n: Vec3) -> (r: Vec3)
        requires
            self@.in_range(0x20000),
            n@.in_range(0x40000),
        ensures
            r@ == self@.reflectv(n@),
            r@.in_range(0x2000000),
    {
        proof {
            lemma_dot_abs_bound(self@, n@, 0x40000);
        }
        let d = self.dot(n);
        proof {
            lemma_smul_in_range(n@, 2 * d, 0x40000, 0x600002);
        }
        self.sub(n.mul_scalar(2 * d))
    }

    /// Refraction of the unit direction `self` about the normal `n` with
    /// ratio of refraction indices `ratio` (at most 16); both vectors are
    /// expected at unit scale.
    pub fn refract(self, n: Vec3, ratio: i128) -> (r: Vec3)
        requires
            self@.in_range(0x20000),
            n@.in_range(0x40000),
            0 <= ratio <= 0x100000,
        ensures
            r@ == self@.refractv(n@, ratio as int),
            r@.in_range(0x80000000),
    {
        let nu = self.neg();
        let d = nu.dot(n);
        proof {
            lemma_dot_abs_bound(nu@, n@, 0x40000);
        }
        let cos = if d > SCALE {
            SCALE
        } else {
            d
        };
        proof {
            lemma_smul_in_range(n@, cos as int, 0x40000, 0x300001);
        }
        let t1 = self.add(n.mul_scalar(cos));
        proof {
            lemma_smul_in_range(t1@, ratio as int, 0xC20005, 0x100000);
        }
        let perp = t1.mul_scalar(ratio);
        proof {
            lemma_dot_abs_bound(perp@, perp@, 0xC200051);
        }
        let pls = perp.len_squared();
        let dd = SCALE - pls;
        let m = if dd < 0 {
            -dd
        } else {
            dd
        };
        let s = fx_sqrt(m);
        proof {
            lemma_sqrt_floor_bounds(m as int * SCALE as int);
            assert(s <= 0x18000000) by (nonlinear_arith)
                requires
                    s >= 0,
                    s as int * s as int <= m as int * SCALE as int,
                    m as int * SCALE as int <= 0x200000000000000;
            lemma_smul_in_range(n@, -(s as int), 0x40000, 0x18000000);
        }
        perp.add(n.mul_scalar(-s))
    }
}

// The trait declares no contracts, so these forwarders are total: arguments
// outside the inherent methods' domains yield zero instead.
impl Vec3Properties for Vec3 {
    fn new(x: i128, y: i128, z: i128) -> Self {
        Vec3::new(x, y, z)
    }

    fn len(self) -> i128 {
        if self.x >= -VLIM && self.x <= VLIM && self.y >= -VLIM && self.y <= VLIM && self.z
            >= -VLIM && self.z <= VLIM {
            Vec3::len(self)
        } else {
            0
        }
    }

    fn len_squared(self) -> i128 {
        if self.x >= -VLIM && self.x <= VLIM && self.y >= -VLIM && self.y <= VLIM && self.z
            >= -VLIM && self.z <= VLIM {
            Vec3::len_squared(self)
        } else {
            0
        }
    }

    fn dot(self, other: Self) -> i128 {
        if self.x >= -VLIM && self.x <= VLIM && self.y >= -VLIM && self.y <= VLIM && self.z
            >= -VLIM && self.z <= VLIM && other.x >= -VLIM && other.x <= VLIM && other.y >= -VLIM
            && other.y <= VLIM && other.z >= -VLIM && other.z <= VLIM {
            Vec3::dot(self, other)
        } else {
            0
        }
    }

    fn cross(self, other: Self) -> Self {
        if self.x >= -VLIM && self.x <= VLIM && self.y >= -VLIM && self.y <= VLIM && self.z
            >= -VLIM && self.z <= VLIM && other.x >= -VLIM && other.x <= VLIM && other.y >= -VLIM
            && other.y <= VLIM && other.z >= -VLIM && other.z <= VLIM {
            Vec3::cross(self, other)
        } else {
            Vec3 { x: 0, y: 0, z: 0 }
        }
    }

    fn unit_vector(self) -> Self {
        if self.x >= -VLIM && self.x <= VLIM && self.y >= -VLIM && self.y <= VLIM && self.z
            >= -VLIM && self.z <= VLIM {
            Vec3::unit_vector(self)
        } else {
            Vec3 { x: 0, y: 0, z: 0 }
        }
    }
}

impl Vec3 {
    /// A point drawn from the unit ball, by bounded rejection sampling over
    /// the enclosing cube; if every draw is rejected the center is returned,
    /// itself a legal sample.
    pub fn random_in_unit_sphere() -> (r: Vec3)
        ensures
            r@.in_range(SCALE as int),
            r@.len_sq() < SCALE as int,
    {
        let mut k: u8 = 0;
        while k < 32
            decreases 32 - k,
        {
            let p = Vec3::new(
                crate::rng::random_symmetric(),
                crate::rng::random_symmetric(),
                crate::rng::random_symmetric(),
            );
            if p.len_squared() < SCALE {
                return p;
            }
            k = k + 1;
        }
        Vec3::new(0, 0, 0)
    }

    /// A direction of unit length drawn from the unit ball: the
    /// normalization of some in-ball point.
    pub fn random_unit_vector() -> (r: Vec3)
        ensures
            r@.in_range(2 * (SCALE as int)),
            exists|p: V3|
                (#[trigger] p.in_range(SCALE as int)) && p.dotv(p) < SCALE as int && r@
                    == p.unitv(),
    {
        let p = Vec3::random_in_unit_sphere();
        proof {
            lemma_unitv_in_range(p@);
        }
        let r = p.unit_vector();
        proof {
            assert(p@.in_range(SCALE as int) && p@.dotv(p@) < SCALE as int && r@ == p@.unitv());
        }
        r
    }

    /// A point drawn from the unit disk in the x-y plane, by bounded
    /// rejection sampling; the center is the fallback sample.
    pub fn random_in_unit_disk() -> (r: Vec3)
        ensures
            r@.in_range(SCALE as int),
            r@.len_sq() < SCALE as int,
            r@.z == 0,
    {
        let mut k: u8 = 0;
        while k < 32
            decreases 32 - k,
        {
            let p = Vec3::new(crate::rng::random_symmetric(), crate::rng::random_symmetric(), 0);
            if p.len_squared() < SCALE {
                return p;
            }
            k = k + 1;
        }
        Vec3::new(0, 0, 0)
    }
}

/// Every component of a normalized vector is bounded by twice the unit
/// scale, whatever the vector.
pub proof fn lemma_unitv_in_range(v: V3)
    ensures
        v.unitv().in_range(2 * (SCALE as int)),
{
    lemma_dot_self_nonneg(v);
    let sum = v.x * v.x + v.y * v.y + v.z * v.z;
    let ls = v.len_sq();
    let l = v.lenv();
    if l != 0 {
        lemma_sqrt_floor_bounds(ls * (SCALE as int));
        vstd::arithmetic::div_mod::lemma_fundamental_div_mod(sum, SCALE as int);
        assert(ls >= 1) by (nonlinear_arith)
            requires
                l >= 1,
                ls >= 0,
                l * l <= ls * 65536;
        assert(l >= 256) by (nonlinear_arith)
            requires
                l >= 1,
                ls >= 1,
                65536 <= ls * 65536 < (l + 1) * (l + 1);
        assert(v.y * v.y >= 0 && v.z * v.z >= 0 && v.x * v.x >= 0) by (nonlinear_arith);
        lemma_unitv_component(v.x, sum, ls, l);
        lemma_unitv_component(v.y, sum, ls, l);
        lemma_unitv_component(v.z, sum, ls, l);
    }
}

/// One component of the normalization quotient is bounded by twice the unit
/// scale.
proof fn lemma_unitv_component(c: int, sum: int, ls: int, l: int)
    requires
        c * c <= sum,
        sum < 65536 * ls + 65536,
        ls * 65536 < (l + 1) * (l + 1),
        l >= 256,
    ensures
        -131072 <= fquot(c, l) <= 131072,
{
    assert(-(2 * l) <= c <= 2 * l) by (nonlinear_arith)
        requires
            c * c <= sum,
            sum < 65536 * ls + 65536,
            ls * 65536 < (l + 1) * (l + 1),
            l >= 256;
    vstd::arithmetic::div_mod::lemma_div_multiples_vanish(131072, l);
    vstd::arithmetic::div_mod::lemma_div_multiples_vanish(-131072, l);
    vstd::arithmetic::div_mod::lemma_div_is_ordered(c * 65536, l * 131072, l);
    vstd::arithmetic::div_mod::lemma_div_is_ordered(l * -131072, c * 65536, l);
    assert(c * 65536 <= l * 131072 && l * -131072 <= c * 65536) by (nonlinear_arith)
        requires
            -(2 * l) <= c <= 2 * l,
            l >= 1;
}

/// A vector's dot product with itself is nonnegative.
pub proof fn lemma_dot_self_nonneg(v: V3)
    ensures
        v.len_sq() >= 0,
        v.dotv(v) >= 0,
{
    assert(v.x * v.x + v.y * v.y + v.z * v.z >= 0) by (nonlinear_arith);
    vstd::arithmetic::div_mod::lemma_div_pos_is_pos(
        v.x * v.x + v.y * v.y + v.z * v.z,
        SCALE as int,
    );
}

/// Componentwise bound on a dot product from componentwise bounds on its
/// arguments.
pub proof fn lemma_dot_abs_bound(a: V3, b: V3, c: int)
    requires
        a.in_range(c),
        b.in_range(c),
        c >= 0,
    ensures
        -((3 * (c * c)) / (SCALE as int)) - 1 <= a.dotv(b) <= (3 * (c * c)) / (SCALE as int),
{
    lemma_mul_abs_bound(a.x, b.x, c, c);
    lemma_mul_abs_bound(a.y, b.y, c, c);
    lemma_mul_abs_bound(a.z, b.z, c, c);
    assert(c * c >= 0) by (nonlinear_arith);
    crate::fx::lemma_div_floor_bound(
        a.x * b.x + a.y * b.y + a.z * b.z,
        3 * (c * c),
        SCALE as int,
    );
}

/// Componentwise bound on a scalar quotient from a bound on the vector.
pub proof fn lemma_sdiv_in_range(v: V3, k: int, cv: int)
    requires
        k > 0,
        v.in_range(cv),
        cv >= 0,
    ensures
        v.sdiv(k).in_range((cv * (SCALE as int)) / k + 1),
{
    crate::fx::lemma_div_floor_bound(v.x * (SCALE as int), cv * (SCALE as int), k);
    crate::fx::lemma_div_floor_bound(v.y * (SCALE as int), cv * (SCALE as int), k);
    crate::fx::lemma_div_floor_bound(v.z * (SCALE as int), cv * (SCALE as int), k);
}

/// Componentwise bound on a cross product from bounds on its arguments.
pub proof fn lemma_crossv_in_range(a: V3, b: V3, ca: int, cb: int)
    requires
        a.in_range(ca),
        b.in_range(cb),
        ca >= 0,
        cb >= 0,
    ensures
        a.crossv(b).in_range(2 * ((ca * cb) / (SCALE as int)) + 2),
{
    crate::fx::lemma_fmul_abs_bound(a.y, b.z, ca, cb);
    crate::fx::lemma_fmul_abs_bound(a.z, b.y, ca, cb);
    crate::fx::lemma_fmul_abs_bound(a.z, b.x, ca, cb);
    crate::fx::lemma_fmul_abs_bound(a.x, b.z, ca, cb);
    crate::fx::lemma_fmul_abs_bound(a.x, b.y, ca, cb);
    crate::fx::lemma_fmul_abs_bound(a.y, b.x, ca, cb);
}

/// Componentwise bound on a scalar product from bounds on vector and scalar.
pub proof fn lemma_smul_in_range(v: V3, k: int, cv: int, ck: int)
    requires
        v.in_range(cv),
        -ck <= k <= ck,
        cv >= 0,
        ck >= 0,
    ensures
        v.smul(k).in_range((ck * cv) / (SCALE as int) + 1),
{
    crate::fx::lemma_fmul_abs_bound(k, v.x, ck, cv);
    crate::fx::lemma_fmul_abs_bound(k, v.y, ck, cv);
    crate::fx::lemma_fmul_abs_bound(k, v.z, ck, cv);
}

} // verus!
