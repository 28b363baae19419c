//! Fixed-point scalar arithmetic.
//!
//! Every quantity in the renderer (coordinates, colors, parametric distances)
//! is a signed fixed-point number: an `i128` holding the real value times
//! `SCALE`. All operations round toward negative infinity, so each one is
//! pinned exactly by a spec-level formula over the mathematical integers.

use vstd::prelude::*;

verus! {

/// Number of raw units per 1.0; values carry 16 fractional bits.
pub const SCALE: i128 = 65536;

/// Floor division (rounds toward negative infinity) for a nonzero divisor.
/// For a nonnegative divisor this coincides with Euclidean division.
pub open spec fn fdiv(a: int, b: int) -> int {
    if b >= 0 {
        a / b
    } else {
        (-a) / (-b)
    }
}

/// Fixed-point product: the integer product scaled back down, floored.
pub open spec fn fmul(a: int, b: int) -> int {
    (a * b) / (SCALE as int)
}

/// Fixed-point quotient: `a` scaled up, then floor-divided by `b`.
pub open spec fn fquot(a: int, b: int) -> int {
    fdiv(a * (SCALE as int), b)
}

/// Floor of the square root of `n` (0 when `n` is negative).
pub open spec fn sqrt_floor(n: int) -> int
    decreases n,
{
    if n <= 0 {
        0
    } else {
        let p = sqrt_floor(n - 1);
        if (p + 1) * (p + 1) <= n {
            p + 1
        } else {
            p
        }
    }
}

/// Fixed-point square root: for `n` representing x, `sqrt_floor(n * SCALE)`
/// represents the largest grid value whose square does not exceed x.
pub open spec fn fsqrt(n: int) -> int {
    sqrt_floor(n * (SCALE as int))
}

pub proof fn lemma_sqrt_floor_bounds(n: int)
    requires
        n >= 0,
    ensures
        0 <= sqrt_floor(n),
        sqrt_floor(n) * sqrt_floor(n) <= n,
        (sqrt_floor(n) + 1) * (sqrt_floor(n) + 1) > n,
    decreases n,
{
    if n == 0 {
    } else {
        lemma_sqrt_floor_bounds(n - 1);
        let p = sqrt_floor(n - 1);
        if (p + 1) * (p + 1) <= n {
            assert((p + 2) * (p + 2) > n) by (nonlinear_arith)
                requires
                    n - 1 < (p + 1) * (p + 1),
                    p >= 0;
        }
    }
}

pub proof fn lemma_sqrt_floor_unique(n: int, r: int)
    requires
        n >= 0,
        r >= 0,
        r * r <= n,
        (r + 1) * (r + 1) > n,
    ensures
        r == sqrt_floor(n),
{
    lemma_sqrt_floor_bounds(n);
    let s = sqrt_floor(n);
    if r < s {
        assert((r + 1) * (r + 1) <= s * s) by (nonlinear_arith)
            requires
                0 <= r < s;
    }
    if s < r {
        assert((s + 1) * (s + 1) <= r * r) by (nonlinear_arith)
            requires
                0 <= s < r;
    }
}

/// Bound on a product from bounds on its factors.
pub proof fn lemma_mul_abs_bound(a: int, b: int, ca: int, cb: int)
    by (nonlinear_arith)
    requires
        -ca <= a <= ca,
        -cb <= b <= cb,
    ensures
        -(ca * cb) <= a * b <= ca * cb,
{
}

/// A floor quotient by a divisor of magnitude at least 1 is bounded by the
/// magnitude of the dividend.
pub proof fn lemma_fdiv_abs_bound(a: int, b: int, ca: int)
    requires
        b != 0,
        -ca <= a <= ca,
    ensures
        -ca <= fdiv(a, b) <= ca,
{
    if b >= 0 {
        assert(-ca <= a / b <= ca) by (nonlinear_arith)
            requires
                b >= 1,
                -ca <= a <= ca;
    } else {
        assert(-ca <= (-a) / (-b) <= ca) by (nonlinear_arith)
            requires
                -b >= 1,
                -ca <= -a <= ca;
    }
}

/// Floor division of a negated nonnegative value loses at most one unit.
pub proof fn lemma_neg_div_bound(m: int, d: int)
    requires
        m >= 0,
        d > 0,
    ensures
        (-m) / d >= -(m / d) - 1,
{
    vstd::arithmetic::div_mod::lemma_fundamental_div_mod(m, d);
    let q = m / d;
    let r = m % d;
    if r == 0 {
        assert(-m == (-q) * d + 0) by (nonlinear_arith)
            requires
                m == d * q + r,
                r == 0;
        vstd::arithmetic::div_mod::lemma_fundamental_div_mod_converse(-m, d, -q, 0);
    } else {
        assert(-m == (-q - 1) * d + (d - r)) by (nonlinear_arith)
            requires
                m == d * q + r;
        vstd::arithmetic::div_mod::lemma_fundamental_div_mod_converse(-m, d, -q - 1, d - r);
    }
}

/// Two-sided bound on a floor quotient by a positive divisor, from a
/// two-sided bound on the dividend.
pub proof fn lemma_div_floor_bound(a: int, bound: int, d: int)
    requires
        -bound <= a <= bound,
        bound >= 0,
        d > 0,
    ensures
        -(bound / d) - 1 <= a / d <= bound / d,
{
    vstd::arithmetic::div_mod::lemma_div_is_ordered(a, bound, d);
    vstd::arithmetic::div_mod::lemma_div_is_ordered(-bound, a, d);
    lemma_neg_div_bound(bound, d);
}

/// Two-sided bound on a fixed-point product from bounds on its factors.
pub proof fn lemma_fmul_abs_bound(a: int, b: int, ca: int, cb: int)
    requires
        -ca <= a <= ca,
        -cb <= b <= cb,
        ca >= 0,
        cb >= 0,
    ensures
        -((ca * cb) / (SCALE as int)) - 1 <= fmul(a, b) <= (ca * cb) / (SCALE as int),
{
    lemma_mul_abs_bound(a, b, ca, cb);
    lemma_div_floor_bound(a * b, ca * cb, SCALE as int);
}

/// A fixed-point quotient whose dividend does not exceed its positive
/// divisor in magnitude stays within one unit.
pub proof fn lemma_fquot_bounded_by_unit(num: int, den: int)
    requires
        den > 0,
        -den <= num <= den,
    ensures
        -(SCALE as int) <= fquot(num, den) <= SCALE as int,
{
    assert(num * (SCALE as int) <= den * (SCALE as int) && den * (-(SCALE as int)) <= num * (
    SCALE as int)) by (nonlinear_arith)
        requires
            -den <= num <= den,
            den > 0;
    vstd::arithmetic::div_mod::lemma_div_multiples_vanish(SCALE as int, den);
    vstd::arithmetic::div_mod::lemma_div_multiples_vanish(-(SCALE as int), den);
    vstd::arithmetic::div_mod::lemma_div_is_ordered(num * (SCALE as int), den * (SCALE as int), den);
    vstd::arithmetic::div_mod::lemma_div_is_ordered(
        den * (-(SCALE as int)),
        num * (SCALE as int),
        den,
    );
}

/// Exec floor square root, by bisection.
pub fn isqrt(n: i128) -> (r: i128)
    requires
        0 <= n < 0x40000000000000000000000000000000,
    ensures
        r == sqrt_floor(n as int),
        0 <= r < 0x8000000000000000,
{
    proof {
        lemma_sqrt_floor_bounds(n as int);
    }
    let mut lo: i128 = 0;
    let mut hi: i128 = 0x8000000000000000;
    while lo + 1 < hi
        invariant
            0 <= lo < hi <= 0x8000000000000000,
            lo * lo <= n,
            hi * hi > n,
        decreases hi - lo,
    {
        let mid = lo + (hi - lo) / 2;
        proof {
            assert(mid * mid < 0x40000000000000000000000000000000) by (nonlinear_arith)
                requires
                    0 <= mid < 0x8000000000000000;
        }
        if mid * mid <= n {
            lo = mid;
        } else {
            hi = mid;
        }
    }
    proof {
        lemma_sqrt_floor_unique(n as int, lo as int);
    }
    lo
}

/// Exec floor division; the divisor must be nonzero.
pub fn floor_div(a: i128, b: i128) -> (q: i128)
    requires
        b != 0,
        -0x40000000000000000000000000000000 <= a <= 0x40000000000000000000000000000000,
        -0x40000000000000000000000000000000 <= b <= 0x40000000000000000000000000000000,
    ensures
        q == fdiv(a as int, b as int),
{
    let na: i128 = if a < 0 { -a } else { a };
    let nb: i128 = if b < 0 { -b } else { b };
    let qm = na / nb;
    let rm = na % nb;
    proof {
        vstd::arithmetic::div_mod::lemma_fundamental_div_mod(na as int, nb as int);
    }
    if (a < 0) == (b < 0) {
        qm
    } else {
        if rm == 0 {
            proof {
                assert(-(na as int) == -((qm as int) * (nb as int))) by (nonlinear_arith)
                    requires
                        na == nb * qm + rm,
                        rm == 0;
                lemma_neg_multiple_div(qm as int, nb as int);
            }
            -qm
        } else {
            proof {
                assert(-(na as int) == (-(qm as int) - 1) * (nb as int) + ((nb as int) - (
                rm as int))) by (nonlinear_arith)
                    requires
                        na == nb * qm + rm;
                vstd::arithmetic::div_mod::lemma_fundamental_div_mod_converse(
                    -(na as int),
                    nb as int,
                    -(qm as int) - 1,
                    nb - rm,
                );
            }
            -qm - 1
        }
    }
}

/// `(-q * b) / b == -q` for positive `b`.
proof fn lemma_neg_multiple_div(q: int, b: int)
    requires
        b > 0,
    ensures
        (-(q * b)) / b == -q,
{
    assert(-(q * b) == (-q) * b + 0) by (nonlinear_arith);
    vstd::arithmetic::div_mod::lemma_fundamental_div_mod_converse(-(q * b), b, -q, 0);
}

/// Fixed-point multiply.
pub fn fx_mul(a: i128, b: i128) -> (r: i128)
    requires
        -0x100000000000000 <= a <= 0x100000000000000,
        -0x100000000000000 <= b <= 0x100000000000000,
    ensures
        r == fmul(a as int, b as int),
{
    proof {
        lemma_mul_abs_bound(a as int, b as int, 0x100000000000000, 0x100000000000000);
    }
    floor_div(a * b, SCALE)
}

/// Fixed-point divide; the divisor must be nonzero.
pub fn fx_div(a: i128, b: i128) -> (r: i128)
    requires
        b != 0,
        -0x1000000000000000000000000000 <= a <= 0x1000000000000000000000000000,
        -0x10000000000000000000000000000 <= b <= 0x10000000000000000000000000000,
    ensures
        r == fquot(a as int, b as int),
{
    floor_div(a * SCALE, b)
}

/// Fixed-point square root of a nonnegative value.
pub fn fx_sqrt(a: i128) -> (r: i128)
    requires
        0 <= a <= 0x400000000000000000000000000,
    ensures
        r == fsqrt(a as int),
        0 <= r < 0x8000000000000000,
{
    isqrt(a * SCALE)
}

} // verus!
