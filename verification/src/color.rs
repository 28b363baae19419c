//! Colors are vectors: one fixed-point channel per component.

use vstd::prelude::*;

use crate::fx::SCALE;
use crate::vec3::{Vec3, V3};

verus! {

pub type Color = Vec3;

/// A well-formed color keeps every channel inside [0, 1].
pub open spec fn is_colorv(v: V3) -> bool {
    &&& 0 <= v.x <= SCALE as int
    &&& 0 <= v.y <= SCALE as int
    &&& 0 <= v.z <= SCALE as int
}

/// The componentwise product of two colors is a color.
pub proof fn lemma_cmul_is_color(a: V3, b: V3)
    requires
        is_colorv(a),
        is_colorv(b),
    ensures
        is_colorv(a.cmul(b)),
{
    lemma_channel_product(a.x, b.x);
    lemma_channel_product(a.y, b.y);
    lemma_channel_product(a.z, b.z);
}

/// The fixed-point product of two channels in [0, 1] stays in [0, 1].
proof fn lemma_channel_product(a: int, b: int)
    requires
        0 <= a <= SCALE as int,
        0 <= b <= SCALE as int,
    ensures
        0 <= crate::fx::fmul(a, b) <= SCALE as int,
{
    assert(a * b >= 0) by (nonlinear_arith)
        requires
            a >= 0,
            b >= 0;
    crate::fx::lemma_mul_abs_bound(a, b, SCALE as int, SCALE as int);
    vstd::arithmetic::div_mod::lemma_div_pos_is_pos(a * b, SCALE as int);
    vstd::arithmetic::div_mod::lemma_div_is_ordered(
        a * b,
        (SCALE as int) * (SCALE as int),
        SCALE as int,
    );
}

} // verus!
