//! Points are vectors; the alias only documents intent at use sites.

use vstd::prelude::*;

pub use crate::vec3::Vec3;

verus! {

pub type Point3 = Vec3;

} // verus!
