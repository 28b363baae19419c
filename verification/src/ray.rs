//! Rays: an origin and an unnormalized direction.

use vstd::prelude::*;

use crate::point3::Point3;
use crate::vec3::{Vec3, V3};

verus! {

/// Limit on the components of an origin a traced ray may carry (4096 units).
pub const RAY_POS_LIMIT: i128 = 0x10000000;

/// Limit on the components of a direction a traced ray may carry.
pub const RAY_DIR_LIMIT: i128 = 0x800000000;

#[derive(Copy, Clone, Debug, PartialEq, Eq, Structural)]
pub struct Ray {
    pub origin: Point3,
    pub direction: Vec3,
}

impl Ray {
    /// A ray fit for tracing: both endpoints inside the supported volume.
    pub open spec fn wf(self) -> bool {
        &&& self.origin@.in_range(RAY_POS_LIMIT as int)
        &&& self.direction@.in_range(RAY_DIR_LIMIT as int)
    }

    /// The point reached after travelling `t` along the direction.
    pub open spec fn at_spec(self, t: int) -> V3 {
        self.origin@.plus(self.direction@.smul(t))
    }

    pub fn new(origin: Point3, direction: Vec3) -> (r: Ray)
        ensures
            r.origin == origin,
            r.direction == direction,
    {
        Ray { origin, direction }
    }

    /// The ray from the origin with no extent; a placeholder value.
    pub fn nowhere() -> (r: Ray)
        ensures
            r.origin@ == V3::zero(),
            r.direction@ == V3::zero(),
    {
        Ray { origin: Vec3::new(0, 0, 0), direction: Vec3::new(0, 0, 0) }
    }

    pub fn at(self, t: i128) -> (p: Point3)
        requires
            self.origin@.in_lim(),
            self.direction@.in_range(0x800000000),
            -0x800000000 <= t <= 0x800000000,
        ensures
            p@ == self.at_spec(t as int),
    {
        proof {
            crate::vec3::lemma_smul_in_range(self.direction@, t as int, 0x800000000, 0x800000000);
        }
        self.origin.add(self.direction.mul_scalar(t))
    }
}

} // verus!
