//! Diffuse material: scatters every ray, tinted by its albedo.

use vstd::prelude::*;

use crate::color::{is_colorv, Color};
use crate::fx::SCALE;
use crate::hittable::HitRecord;
use crate::material::Material;
use crate::point3::Vec3;
use crate::ray::Ray;

verus! {

#[derive(Debug, Clone, Copy, PartialEq, Eq, Structural)]
pub struct Lambertian {
    pub albedo: Color,
}

/// The outgoing direction a diffuse surface produces for a given unit
/// sample: the normal plus the sample, with the normal substituted whenever
/// that sum degenerates to zero.
pub open spec fn lambertian_direction_spec(normal: crate::vec3::V3, sample: crate::vec3::V3) -> crate::vec3::V3 {
    if normal.plus(sample).is_zero() {
        normal
    } else {
        normal.plus(sample)
    }
}

impl Lambertian {
    pub open spec fn wf(self) -> bool {
        is_colorv(self.albedo@)
    }

    pub fn new(albedo: Color) -> (m: Self)
        requires
            is_colorv(albedo@),
        ensures
            m.albedo == albedo,
            m.wf(),
    {
        Self { albedo }
    }

    /// The diffuse scattering rule, pinned for a given unit-sphere sample:
    /// the outgoing direction is the normal plus the sample, with the normal
    /// substituted whenever that sum degenerates to zero.
    pub fn scatter_sampled(
        &self,
        record: &HitRecord,
        sample: Vec3,
        attenuation: &mut Color,
        scattered: &mut Ray,
    ) -> (did: bool)
        requires
            self.wf(),
            record.wf(),
            sample@.in_range(2 * (SCALE as int)),
        ensures
            did,
            final(attenuation)@ == self.albedo@,
            final(scattered).origin@ == record.point@,
            final(scattered).direction@ == lambertian_direction_spec(record.normal@, sample@),
            !record.normal@.is_zero() ==> !final(scattered).direction@.is_zero(),
            final(scattered).wf(),
    {
        let mut scatter_direction = record.normal.add(sample);
        if scatter_direction.is_near_zero() {
            scatter_direction = record.normal;
        }
        *scattered = Ray::new(record.point, scatter_direction);
        *attenuation = self.albedo;
        true
    }
}

impl Material for Lambertian {
    open spec fn wf_spec(&self) -> bool {
        Lambertian::wf(*self)
    }

    fn scatter(
        &self,
        ray_in: Ray,
        record: &HitRecord,
        attenuation: &mut Color,
        scattered: &mut Ray,
    ) -> (did: bool) {
        let sample = Vec3::random_unit_vector();
        self.scatter_sampled(record, sample, attenuation, scattered)
    }
}

} // verus!
