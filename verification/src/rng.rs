//! Source of randomness for sampling.
//!
//! Every random quantity the renderer uses is derived, in verified code, from
//! single machine-word draws made by the one trusted wrapper below. Nothing
//! is assumed about a drawn value beyond its type, so every contract in the
//! crate holds for every possible outcome of the generator.

use vstd::prelude::*;

use crate::fx::SCALE;

verus! {

/// Relies on `rand::random`: one uniformly distributed `u32` from the
/// thread-local generator.
#[verifier::external_body]
fn random_u32() -> u32 {
    rand::random::<u32>()
}

/// A fixed-point fraction drawn uniformly from [0, 1).
pub fn random_fraction() -> (r: i128)
    ensures
        0 <= r < SCALE,
{
    let w = random_u32();
    (w % 65536) as i128
}

/// A fixed-point value drawn uniformly from [-1, 1).
pub fn random_symmetric() -> (r: i128)
    ensures
        -SCALE <= r < SCALE,
{
    let w = random_u32();
    ((w % 131072) as i128) - SCALE
}

} // verus!
