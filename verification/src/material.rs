//! The scattering capability and the closed set of materials that provide
//! it. Spheres store a material by value; the kinds are dispatched with a
//! match, which preserves the polymorphic scatter contract without shared
//! ownership.

use vstd::prelude::*;

use crate::color::{is_colorv, Color};
use crate::dielectric::Dielectric;
use crate::hittable::HitRecord;
use crate::lambertian::Lambertian;
use crate::metal::Metal;
use crate::ray::Ray;
use crate::vec3::V3;

verus! {

/// Polymorphic scattering: given an incoming ray and a hit, decide whether
/// light scatters, and with what attenuation and outgoing ray.
pub trait Material {
    spec fn wf_spec(&self) -> bool;

    fn scatter(
        &self,
        ray_in: Ray,
        record: &HitRecord,
        attenuation: &mut Color,
        scattered: &mut Ray,
    ) -> (did: bool)
        requires
            self.wf_spec(),
            ray_in.wf(),
            record.wf(),
        ensures
            is_colorv(final(attenuation)@),
            final(scattered).origin@ == record.point@,
            final(scattered).wf(),
    ;
}

/// The closed set of materials a primitive can carry.
#[derive(Debug, Clone, Copy, PartialEq, Eq, Structural)]
pub enum MaterialKind {
    Lambertian(Lambertian),
    Metal(Metal),
    Dielectric(Dielectric),
}

impl MaterialKind {
    pub open spec fn wf(self) -> bool {
        match self {
            MaterialKind::Lambertian(m) => m.wf(),
            MaterialKind::Metal(m) => m.wf(),
            MaterialKind::Dielectric(m) => m.wf(),
        }
    }

    /// Scatter dispatch over the closed set of materials; everything that
    /// holds of the outcome, whatever was drawn, is collected in
    /// `scatter_spec`.
    pub fn scatter(
        &self,
        ray_in: Ray,
        record: &HitRecord,
        attenuation: &mut Color,
        scattered: &mut Ray,
    ) -> (did: bool)
        requires
            self.wf(),
            ray_in.wf(),
            record.wf(),
        ensures
            is_colorv(final(attenuation)@),
            final(scattered).origin@ == record.point@,
            final(scattered).wf(),
            scatter_spec(
                *self,
                ray_in,
                *record,
                did,
                final(attenuation)@,
                final(scattered).direction@,
            ),
    {
        match self {
            MaterialKind::Lambertian(m) => {
                let sample = crate::vec3::Vec3::random_unit_vector();
                let did = m.scatter_sampled(record, sample, attenuation, scattered);
                proof {
                    assert(sample@.in_range(2 * (crate::fx::SCALE as int)) && scattered.direction@
                        == crate::lambertian::lambertian_direction_spec(record.normal@, sample@));
                }
                did
            },
            MaterialKind::Metal(m) => {
                let sample = crate::vec3::Vec3::random_in_unit_sphere();
                let did = m.scatter_sampled(ray_in, record, sample, attenuation, scattered);
                proof {
                    assert(sample@.in_range(crate::fx::SCALE as int) && scattered.direction@
                        == crate::metal::metal_direction_spec(*m, ray_in, record.normal@, sample@));
                }
                did
            },
            MaterialKind::Dielectric(m) => {
                let chance = crate::rng::random_fraction();
                let did = m.scatter_sampled(ray_in, record, chance, attenuation, scattered);
                proof {
                    assert(0 <= chance < crate::fx::SCALE as int && scattered.direction@
                        == crate::dielectric::dielectric_direction_spec(
                        *m,
                        ray_in,
                        *record,
                        chance as int,
                    ));
                }
                did
            },
        }
    }
}

/// Everything a scatter outcome guarantees, whatever was drawn. A diffuse
/// surface always scatters, tints by its albedo, and its direction is the
/// sample rule for some unit sample — never degenerate off a usable normal.
/// A metal tints by its albedo, its direction is the mirror reflection plus
/// the fuzz-scaled part of some unit-ball sample — exactly the mirror
/// reflection when the fuzz is zero — and the scatter counts only if the
/// direction leaves the surface. A dielectric always scatters, absorbs
/// nothing, and follows the Fresnel-weighted reflect-or-refract rule for
/// some reflectance draw.
pub open spec fn scatter_spec(
    m: MaterialKind,
    ray_in: Ray,
    rec: HitRecord,
    did: bool,
    att: V3,
    dir: V3,
) -> bool {
    match m {
        MaterialKind::Lambertian(l) => {
            &&& did
            &&& att == l.albedo@
            &&& exists|sample: V3|
                (#[trigger] sample.in_range(2 * (crate::fx::SCALE as int))) && dir
                    == crate::lambertian::lambertian_direction_spec(rec.normal@, sample)
            &&& !rec.normal@.is_zero() ==> !dir.is_zero()
        },
        MaterialKind::Metal(mt) => {
            &&& att == mt.albedo@
            &&& exists|sample: V3|
                (#[trigger] sample.in_range(crate::fx::SCALE as int)) && dir
                    == crate::metal::metal_direction_spec(mt, ray_in, rec.normal@, sample)
            &&& did == (dir.dotv(rec.normal@) > 0)
            &&& mt.fuzz == 0 ==> dir == ray_in.direction@.unitv().reflectv(rec.normal@)
        },
        MaterialKind::Dielectric(d) => {
            &&& did
            &&& att == (V3 {
                x: crate::fx::SCALE as int,
                y: crate::fx::SCALE as int,
                z: crate::fx::SCALE as int,
            })
            &&& exists|chance: int|
                0 <= chance < crate::fx::SCALE as int && dir
                    == #[trigger] crate::dielectric::dielectric_direction_spec(
                    d,
                    ray_in,
                    rec,
                    chance,
                )
        },
    }
}

} // verus!
