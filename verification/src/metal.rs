//! Reflective material: rough specular reflection, tinted by its albedo.

use vstd::prelude::*;

use crate::color::{is_colorv, Color};
use crate::fx::SCALE;
use crate::hittable::HitRecord;
use crate::material::Material;
use crate::point3::Vec3;
use crate::ray::Ray;
use crate::vec3::{lemma_smul_in_range, lemma_unitv_in_range};

verus! {

#[derive(Debug, Clone, Copy, PartialEq, Eq, Structural)]
pub struct Metal {
    pub albedo: Color,
    pub fuzz: i128,
}

/// The outgoing direction a rough metal produces for a given unit-ball
/// sample: the mirror reflection of the unit incoming direction plus the
/// fuzz-scaled sample.
pub open spec fn metal_direction_spec(
    m: Metal,
    ray_in: Ray,
    normal: crate::vec3::V3,
    sample: crate::vec3::V3,
) -> crate::vec3::V3 {
    ray_in.direction@.unitv().reflectv(normal).plus(sample.smul(m.fuzz as int))
}

impl Metal {
    pub open spec fn wf(self) -> bool {
        &&& is_colorv(self.albedo@)
        &&& 0 <= self.fuzz <= SCALE as int
    }

    /// Roughness above 1 is clamped down to 1.
    pub fn new(albedo: Color, fuzz: i128) -> (m: Self)
        requires
            is_colorv(albedo@),
            fuzz >= 0,
        ensures
            m.albedo == albedo,
            m.fuzz == (if fuzz < SCALE {
                fuzz as int
            } else {
                SCALE as int
            }),
            m.wf(),
    {
        Self { albedo, fuzz: if fuzz < SCALE { fuzz } else { SCALE } }
    }

    /// The rough specular rule, pinned for a given unit-ball sample: the
    /// outgoing direction is the mirror reflection of the unit incoming
    /// direction plus the fuzz-scaled sample, and the scatter counts only if
    /// it leaves the surface.
    pub fn scatter_sampled(
        &self,
        ray_in: Ray,
        record: &HitRecord,
        sample: Vec3,
        attenuation: &mut Color,
        scattered: &mut Ray,
    ) -> (did: bool)
        requires
            self.wf(),
            ray_in.wf(),
            record.wf(),
            sample@.in_range(SCALE as int),
        ensures
            final(attenuation)@ == self.albedo@,
            final(scattered).origin@ == record.point@,
            final(scattered).direction@ == metal_direction_spec(*self, ray_in, record.normal@, sample@),
            did == (final(scattered).direction@.dotv(record.normal@) > 0),
            self.fuzz == 0 ==> final(scattered).direction@ == ray_in.direction@.unitv().reflectv(
                record.normal@,
            ),
            final(scattered).wf(),
    {
        proof {
            lemma_unitv_in_range(ray_in.direction@);
        }
        let reflected = ray_in.direction.unit_vector().reflect(record.normal);
        proof {
            lemma_smul_in_range(sample@, self.fuzz as int, SCALE as int, SCALE as int);
        }
        let fuzzed = reflected.add(sample.mul_scalar(self.fuzz));
        proof {
            if self.fuzz == 0 {
                assert(0 * sample@.x == 0 && 0 * sample@.y == 0 && 0 * sample@.z == 0)
                    by (nonlinear_arith);
            }
        }
        *scattered = Ray::new(record.point, fuzzed);
        *attenuation = self.albedo;
        fuzzed.dot(record.normal) > 0
    }
}

impl Material for Metal {
    open spec fn wf_spec(&self) -> bool {
        Metal::wf(*self)
    }

    fn scatter(
        &self,
        ray_in: Ray,
        record: &HitRecord,
        attenuation: &mut Color,
        scattered: &mut Ray,
    ) -> (did: bool) {
        let sample = Vec3::random_in_unit_sphere();
        self.scatter_sampled(ray_in, record, sample, attenuation, scattered)
    }
}

} // verus!
