//! Transparent material: Fresnel-weighted choice between reflection and
//! refraction, absorbing no energy.

use vstd::prelude::*;

use crate::color::Color;
use crate::fx::{
    fmul, fquot, fsqrt, fx_div, fx_mul, fx_sqrt, lemma_fquot_bounded_by_unit, lemma_mul_abs_bound,
    lemma_sqrt_floor_bounds, SCALE,
};
use crate::hittable::HitRecord;
use crate::material::Material;
use crate::point3::Vec3;
use crate::ray::Ray;
use crate::vec3::{lemma_dot_abs_bound, lemma_unitv_in_range, V3};

verus! {

#[derive(Debug, Clone, Copy, PartialEq, Eq, Structural)]
pub struct Dielectric {
    pub refraction_index: i128,
}

/// Fifth power, evaluated by squaring: x^5 = (x^2)^2 * x.
pub open spec fn pow5_spec(x: int) -> int {
    fmul(fmul(fmul(x, x), fmul(x, x)), x)
}

/// Schlick's approximation of the Fresnel reflectance.
pub open spec fn reflectance_spec(cosine: int, refraction_index: int) -> int {
    let r0a = fquot((SCALE as int) - refraction_index, (SCALE as int) + refraction_index);
    let r0 = fmul(r0a, r0a);
    r0 + fmul((SCALE as int) - r0, pow5_spec((SCALE as int) - cosine))
}

/// Cosine of the angle between the reversed unit direction and the normal,
/// capped at 1.
pub open spec fn cos_spec(uv: V3, n: V3) -> int {
    let d = uv.negv().dotv(n);
    if d > SCALE as int {
        SCALE as int
    } else {
        d
    }
}

/// Whether refraction is possible: the sine stays representable and
/// Snell's law has a solution (`ratio * sin <= 1`).
pub open spec fn can_refract_spec(cosine: int, ratio: int) -> bool {
    let d2 = (SCALE as int) - fmul(cosine, cosine);
    d2 >= 0 && fmul(ratio, fsqrt(d2)) <= SCALE as int
}

/// The outgoing direction a dielectric produces for a given reflectance
/// draw `chance`: refract whenever Snell's law allows it and the Fresnel
/// reflectance does not exceed the draw, otherwise reflect.
pub open spec fn dielectric_direction_spec(
    d: Dielectric,
    ray_in: Ray,
    rec: HitRecord,
    chance: int,
) -> V3 {
    let uv = ray_in.direction@.unitv();
    let ratio = d.ratio_spec(rec.is_front_face);
    let cos = cos_spec(uv, rec.normal@);
    if can_refract_spec(cos, ratio) && reflectance_spec(cos, ratio) <= chance {
        uv.refractv(rec.normal@, ratio)
    } else {
        uv.reflectv(rec.normal@)
    }
}

/// Schlick's approximation, executable form.
pub fn reflectance(cosine: i128, refraction_index: i128) -> (r: i128)
    requires
        -0x400000 <= cosine <= SCALE,
        0 <= refraction_index <= 0x100000,
    ensures
        r == reflectance_spec(cosine as int, refraction_index as int),
{
    proof {
        lemma_fquot_bounded_by_unit(
            (SCALE as int) - refraction_index,
            (SCALE as int) + refraction_index,
        );
    }
    let r0a = fx_div(SCALE - refraction_index, SCALE + refraction_index);
    let r0 = fx_mul(r0a, r0a);
    proof {
        assert(r0a as int * r0a as int >= 0) by (nonlinear_arith);
        vstd::arithmetic::div_mod::lemma_div_pos_is_pos(r0a as int * r0a as int, SCALE as int);
        crate::fx::lemma_fmul_abs_bound(r0a as int, r0a as int, SCALE as int, SCALE as int);
    }
    let x = SCALE - cosine;
    let x2 = fx_mul(x, x);
    proof {
        crate::fx::lemma_fmul_abs_bound(x as int, x as int, 0x800000, 0x800000);
    }
    let x4 = fx_mul(x2, x2);
    proof {
        crate::fx::lemma_fmul_abs_bound(x2 as int, x2 as int, 0x40000000, 0x40000000);
    }
    let x5 = fx_mul(x4, x);
    proof {
        crate::fx::lemma_fmul_abs_bound(x4 as int, x as int, 0x100000000000, 0x800000);
        crate::fx::lemma_fmul_abs_bound(
            (SCALE as int) - r0,
            x5 as int,
            0x10000,
            0x8000000000000,
        );
    }
    r0 + fx_mul(SCALE - r0, x5)
}

impl Dielectric {
    /// A physical index of refraction: at least 1, at most 16.
    pub open spec fn wf(self) -> bool {
        SCALE as int <= self.refraction_index <= 0x100000
    }

    pub fn new(refraction_index: i128) -> (m: Self)
        requires
            SCALE <= refraction_index <= 0x100000,
        ensures
            m.refraction_index == refraction_index,
            m.wf(),
    {
        Self { refraction_index }
    }

    /// Ratio of refraction indices along the crossing direction: entering
    /// the medium divides by the index, leaving multiplies by it.
    pub open spec fn ratio_spec(self, front_face: bool) -> int {
        if front_face {
            fquot(SCALE as int, self.refraction_index as int)
        } else {
            self.refraction_index as int
        }
    }

    /// The dielectric rule, pinned for a given reflectance draw `chance`:
    /// refract whenever Snell's law allows it and the Fresnel reflectance
    /// does not exceed the draw, otherwise reflect. Attenuation is always
    /// white.
    pub fn scatter_sampled(
        &self,
        ray_in: Ray,
        record: &HitRecord,
        chance: i128,
        attenuation: &mut Color,
        scattered: &mut Ray,
    ) -> (did: bool)
        requires
            self.wf(),
            ray_in.wf(),
            record.wf(),
            0 <= chance < SCALE,
        ensures
            did,
            final(attenuation)@ == (V3 {
                x: SCALE as int,
                y: SCALE as int,
                z: SCALE as int,
            }),
            final(scattered).origin@ == record.point@,
            final(scattered).direction@ == dielectric_direction_spec(
                *self,
                ray_in,
                *record,
                chance as int,
            ),
            final(scattered).wf(),
    {
        *attenuation = Color::new(SCALE, SCALE, SCALE);
        let refraction_ratio = if record.is_front_face {
            proof {
                lemma_fquot_bounded_by_unit(SCALE as int, self.refraction_index as int);
                vstd::arithmetic::div_mod::lemma_div_pos_is_pos(
                    (SCALE as int) * (SCALE as int),
                    self.refraction_index as int,
                );
            }
            fx_div(SCALE, self.refraction_index)
        } else {
            self.refraction_index
        };
        proof {
            lemma_unitv_in_range(ray_in.direction@);
        }
        let unit_direction = ray_in.direction.unit_vector();
        let nu = unit_direction.neg();
        proof {
            lemma_dot_abs_bound(nu@, record.normal@, 0x40000);
        }
        let d = nu.dot(record.normal);
        let cos_theta = if d > SCALE {
            SCALE
        } else {
            d
        };
        let cc = fx_mul(cos_theta, cos_theta);
        proof {
            assert(cos_theta as int * cos_theta as int >= 0) by (nonlinear_arith);
            vstd::arithmetic::div_mod::lemma_div_pos_is_pos(
                cos_theta as int * cos_theta as int,
                SCALE as int,
            );
            crate::fx::lemma_fmul_abs_bound(cos_theta as int, cos_theta as int, 0x400000, 0x400000);
        }
        let d2 = SCALE - cc;
        let can_refract = if d2 >= 0 {
            let sin_theta = fx_sqrt(d2);
            proof {
                lemma_sqrt_floor_bounds(d2 as int * SCALE as int);
                assert(sin_theta <= SCALE) by (nonlinear_arith)
                    requires
                        sin_theta >= 0,
                        sin_theta as int * sin_theta as int <= d2 as int * SCALE as int,
                        d2 as int * SCALE as int <= 0x100000000,
                ;
            }
            fx_mul(refraction_ratio, sin_theta) <= SCALE
        } else {
            false
        };
        let direction = if can_refract && reflectance(cos_theta, refraction_ratio) <= chance {
            unit_direction.refract(record.normal, refraction_ratio)
        } else {
            unit_direction.reflect(record.normal)
        };
        *scattered = Ray::new(record.point, direction);
        true
    }
}

/// With a refraction index of exactly 1 there is no total internal
/// reflection: for any cosine a unit geometry can produce, Snell's law has
/// a solution, so the refraction branch is always available.
pub proof fn lemma_unity_index_never_reflects_internally(cosine: int)
    requires
        -(SCALE as int) <= cosine <= SCALE as int,
    ensures
        can_refract_spec(cosine, SCALE as int),
{
    crate::fx::lemma_mul_abs_bound(cosine, cosine, SCALE as int, SCALE as int);
    assert(cosine * cosine >= 0) by (nonlinear_arith);
    vstd::arithmetic::div_mod::lemma_div_pos_is_pos(cosine * cosine, SCALE as int);
    vstd::arithmetic::div_mod::lemma_div_is_ordered(
        cosine * cosine,
        (SCALE as int) * (SCALE as int),
        SCALE as int,
    );
    let d2 = (SCALE as int) - fmul(cosine, cosine);
    crate::fx::lemma_sqrt_floor_bounds(d2 * (SCALE as int));
    let s = fsqrt(d2);
    assert(s <= SCALE as int) by (nonlinear_arith)
        requires
            s >= 0,
            s * s <= d2 * (SCALE as int),
            d2 * (SCALE as int) <= 0x100000000;
    vstd::arithmetic::div_mod::lemma_div_multiples_vanish(s, SCALE as int);
}

/// With a refraction index of exactly 1 a head-on ray passes straight
/// through: when the normal is the exact opposite of the unit incoming
/// direction, refraction returns the incoming direction unchanged.
pub proof fn lemma_unity_index_head_on_passes_straight(uv: V3, n: V3)
    requires
        n == uv.negv(),
        uv.negv().dotv(n) == SCALE as int,
    ensures
        uv.refractv(n, SCALE as int) == uv,
{
    vstd::arithmetic::div_mod::lemma_div_multiples_vanish(n.x, SCALE as int);
    vstd::arithmetic::div_mod::lemma_div_multiples_vanish(n.y, SCALE as int);
    vstd::arithmetic::div_mod::lemma_div_multiples_vanish(n.z, SCALE as int);
    let summed = uv.plus(n.smul(SCALE as int));
    assert(summed == V3::zero());
    let perp = summed.smul(SCALE as int);
    vstd::arithmetic::div_mod::lemma_div_multiples_vanish(0, SCALE as int);
    assert(perp == V3::zero());
    assert(perp.len_sq() == 0);
    crate::fx::lemma_sqrt_floor_unique((SCALE as int) * (SCALE as int), SCALE as int);
    assert(fsqrt(SCALE as int) == SCALE as int);
    vstd::arithmetic::div_mod::lemma_div_multiples_vanish(-n.x, SCALE as int);
    vstd::arithmetic::div_mod::lemma_div_multiples_vanish(-n.y, SCALE as int);
    vstd::arithmetic::div_mod::lemma_div_multiples_vanish(-n.z, SCALE as int);
    let par = n.smul(-fsqrt(SCALE as int));
    assert(par.x == -n.x && par.y == -n.y && par.z == -n.z);
    assert(uv.refractv(n, SCALE as int) == perp.plus(par));
    assert(perp.plus(par) == uv);
}

impl Material for Dielectric {
    open spec fn wf_spec(&self) -> bool {
        Dielectric::wf(*self)
    }

    fn scatter(
        &self,
        ray_in: Ray,
        record: &HitRecord,
        attenuation: &mut Color,
        scattered: &mut Ray,
    ) -> (did: bool) {
        let chance = crate::rng::random_fraction();
        self.scatter_sampled(ray_in, record, chance, attenuation, scattered)
    }
}

} // verus!
