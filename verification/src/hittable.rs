//! Intersection results and the capability of being hit by a ray.

use vstd::prelude::*;

use crate::color::Color;
use crate::fx::SCALE;
use crate::lambertian::Lambertian;
use crate::material::MaterialKind;
use crate::point3::Point3;
use crate::ray::{Ray, RAY_POS_LIMIT};
use crate::vec3::{Vec3, V3};

verus! {

/// Upper bound on the parametric distance a traversal searches.
pub const T_LIMIT: i128 = 0x40000000;

#[derive(Clone, Copy, Debug, PartialEq, Eq, Structural)]
pub struct HitRecord {
    pub point: Point3,
    pub normal: Vec3,
    pub material: MaterialKind,
    pub t: i128,
    pub is_front_face: bool,
}

impl HitRecord {
    /// A record produced by an accepted intersection: contact point inside
    /// the supported volume, a normal of at most a few units, a distance in
    /// the searched range, and a well-formed material.
    pub open spec fn wf(self) -> bool {
        &&& self.point@.in_range(RAY_POS_LIMIT as int)
        &&& self.normal@.in_range(4 * (SCALE as int))
        &&& self.material.wf()
        &&& 0 <= self.t <= T_LIMIT
    }

    pub fn new() -> (r: Self)
        ensures
            r.point@ == V3::zero(),
            r.normal@ == V3::zero(),
            r.t == 0,
            !r.is_front_face,
            r.material == MaterialKind::Lambertian(
                Lambertian { albedo: Vec3 { x: 32768, y: 32768, z: 32768 } },
            ),
            r.wf(),
    {
        Self {
            point: Vec3::new(0, 0, 0),
            normal: Vec3::new(0, 0, 0),
            t: 0,
            material: MaterialKind::Lambertian(
                Lambertian::new(Color::new(32768, 32768, 32768)),
            ),
            is_front_face: false,
        }
    }

    /// Store the normal oriented against the incoming ray: the outward
    /// normal as computed from the geometry is kept for a front-face hit and
    /// negated for a hit from inside.
    pub fn set_face_normal(&mut self, ray: Ray, outward_normal: Vec3)
        requires
            ray.direction@.in_lim(),
            outward_normal@.in_lim(),
        ensures
            final(self).is_front_face == (ray.direction@.dotv(outward_normal@) < 0),
            final(self).normal@ == (if ray.direction@.dotv(outward_normal@) < 0 {
                outward_normal@
            } else {
                outward_normal@.negv()
            }),
            final(self).point == old(self).point,
            final(self).t == old(self).t,
            final(self).material == old(self).material,
            ray.direction@.dot_unscaled(outward_normal@) != 0 ==> ray.direction@.dotv(
                final(self).normal@,
            ) < 0,
    {
        proof {
            if ray.direction@.dot_unscaled(outward_normal@) != 0 {
                lemma_oriented_normal_opposes(ray.direction@, outward_normal@);
            }
        }
        self.is_front_face = ray.direction.dot(outward_normal) < 0;
        self.normal = if self.is_front_face {
            outward_normal
        } else {
            outward_normal.neg()
        };
    }
}

/// Whatever side a ray meets a surface from, the stored normal opposes the
/// ray: its dot product with the ray direction is negative, except for an
/// exactly tangent ray, whose unscaled dot product vanishes.
pub proof fn lemma_oriented_normal_opposes(d: V3, outward: V3)
    requires
        d.dot_unscaled(outward) != 0,
    ensures
        d.dotv(if d.dotv(outward) < 0 { outward } else { outward.negv() }) < 0,
{
    let s = d.dot_unscaled(outward);
    if d.dotv(outward) < 0 {
    } else {
        if s < 0 {
            vstd::arithmetic::div_mod::lemma_div_is_ordered(s, -1, SCALE as int);
            assert((-1) / (SCALE as int) == -1);
        }
        assert(s >= 1);
        assert(d.dot_unscaled(outward.negv()) == -s) by (nonlinear_arith)
            requires
                s == d.x * outward.x + d.y * outward.y + d.z * outward.z;
        vstd::arithmetic::div_mod::lemma_div_is_ordered(-s, -1, SCALE as int);
        assert((-1) / (SCALE as int) == -1);
    }
}

/// The capability of being tested for intersection by a ray within a
/// parametric range.
pub trait Hittable {
    spec fn wf_spec(&self) -> bool;

    fn hit(&self, ray: Ray, t_min: i128, t_max: i128, record: &mut HitRecord) -> (did: bool)
        requires
            self.wf_spec(),
            ray.wf(),
            0 <= t_min <= t_max <= T_LIMIT,
            old(record).wf(),
        ensures
            final(record).wf(),
            did ==> t_min <= final(record).t <= t_max,
            !did ==> *final(record) == *old(record),
    ;
}

} // verus!
