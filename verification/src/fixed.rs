//! Saturating fixed-point scalars.
//!
//! Every scalar the engine works with (node values, grid lengths, times,
//! diffusivities, blend factors) is an `i64` counting multiples of
//! `1/FX_ONE`.  Arithmetic is exact in `i128` and then clipped to the
//! symmetric range `[-FX_MAX, FX_MAX]`, so negation never overflows and
//! every operation has a total, exact specification.

use vstd::prelude::*;

verus! {

/// Number of raw units in one: a value `v` represents `v / FX_ONE`.
pub const FX_ONE: i64 = 1_000_000_000;

/// Largest magnitude a fixed-point value may take after an operation.
pub const FX_MAX: i64 = i64::MAX;

/// Saturate an exact result to the symmetric representable range.
pub open spec fn fx_clip(v: int) -> int {
    if v > FX_MAX as int {
        FX_MAX as int
    } else if v < -(FX_MAX as int) {
        -(FX_MAX as int)
    } else {
        v
    }
}

/// Truncating (round-toward-zero) division, the rounding used by every
/// fixed-point multiplication and division.
pub open spec fn tdiv(p: int, q: int) -> int
    recommends
        q != 0,
{
    let pm = if p >= 0 { p } else { -p };
    let qm = if q >= 0 { q } else { -q };
    let m = pm / qm;
    if (p >= 0) == (q >= 0) {
        m
    } else {
        -m
    }
}

/// Saturating sum.
pub open spec fn fx_add_s(a: int, b: int) -> int {
    fx_clip(a + b)
}

/// Saturating difference.
pub open spec fn fx_sub_s(a: int, b: int) -> int {
    fx_clip(a - b)
}

/// Saturating negation.
pub open spec fn fx_neg_s(a: int) -> int {
    fx_clip(-a)
}

/// Saturating fixed-point product: exact product, scaled back down with
/// truncation.
pub open spec fn fx_mul_s(a: int, b: int) -> int {
    fx_clip(tdiv(a * b, FX_ONE as int))
}

/// Saturating fixed-point quotient.
pub open spec fn fx_div_s(a: int, b: int) -> int
    recommends
        b != 0,
{
    fx_clip(tdiv(a * (FX_ONE as int), b))
}

/// Saturating product of a plain integer and a fixed-point value.
pub open spec fn fx_scale_s(k: int, a: int) -> int {
    fx_clip(k * a)
}

/// `r` is the fixed-point square root of `a`: the largest representable
/// value whose square does not exceed `a` (both in fixed-point units).
pub open spec fn is_fx_sqrt(r: int, a: int) -> bool {
    &&& r >= 0
    &&& r * r <= a * (FX_ONE as int)
    &&& (r + 1) * (r + 1) > a * (FX_ONE as int)
}

/// The product of two 64-bit values stays well inside the exact `i128`
/// range.
proof fn lemma_wide_mul_bound(a: int, b: int)
    requires
        -0x8000_0000_0000_0000 <= a <= 0xFFFF_FFFF_FFFF_FFFF,
        -0x8000_0000_0000_0000 <= b <= 0x7FFF_FFFF_FFFF_FFFF,
    ensures
        i128::MIN < a * b <= i128::MAX,
{
    assert(-0x7FFF_FFFF_FFFF_FFFF_FFFF_FFFF_FFFF_FFFF <= a * b
        <= 0x7FFF_FFFF_FFFF_FFFF_FFFF_FFFF_FFFF_FFFF) by (nonlinear_arith)
        requires
            -0x8000_0000_0000_0000 <= a <= 0xFFFF_FFFF_FFFF_FFFF,
            -0x8000_0000_0000_0000 <= b <= 0x7FFF_FFFF_FFFF_FFFF,
    ;
}

/// Saturate an exact `i128` result into an `i64`.
fn clip128(v: i128) -> (r: i64)
    ensures
        r as int == fx_clip(v as int),
{
    if v > FX_MAX as i128 {
        FX_MAX
    } else if v < -(FX_MAX as i128) {
        -FX_MAX
    } else {
        v as i64
    }
}

/// Truncating division on exact intermediates.
fn tdiv128(p: i128, q: i128) -> (r: i128)
    requires
        q != 0,
        p > i128::MIN,
    ensures
        r as int == tdiv(p as int, q as int),
{
    proof {
        let x = p as int;
        let d = q as int;
        let pm = if x >= 0 { x } else { -x };
        let qm = if d >= 0 { d } else { -d };
        vstd::arithmetic::div_mod::lemma_div_pos_is_pos(pm, qm);
        vstd::arithmetic::div_mod::lemma_div_nonincreasing(pm, qm);
    }
    match p.checked_div(q) {
        Some(v) => v,
        None => {
            proof {
                assert(false);
            }
            0
        },
    }
}

/// Saturating sum.
pub fn fx_add(a: i64, b: i64) -> (r: i64)
    ensures
        r as int == fx_add_s(a as int, b as int),
{
    clip128(a as i128 + b as i128)
}

/// Saturating difference.
pub fn fx_sub(a: i64, b: i64) -> (r: i64)
    ensures
        r as int == fx_sub_s(a as int, b as int),
{
    clip128(a as i128 - b as i128)
}

/// Saturating negation.
pub fn fx_neg(a: i64) -> (r: i64)
    ensures
        r as int == fx_neg_s(a as int),
{
    clip128(-(a as i128))
}

/// Saturating fixed-point product.
pub fn fx_mul(a: i64, b: i64) -> (r: i64)
    ensures
        r as int == fx_mul_s(a as int, b as int),
{
    proof {
        lemma_wide_mul_bound(a as int, b as int);
    }
    let p: i128 = (a as i128) * (b as i128);
    let q = tdiv128(p, FX_ONE as i128);
    clip128(q)
}

/// Saturating fixed-point quotient; the caller rules out a zero divisor.
pub fn fx_div(a: i64, b: i64) -> (r: i64)
    requires
        b != 0,
    ensures
        r as int == fx_div_s(a as int, b as int),
{
    proof {
        lemma_wide_mul_bound(a as int, FX_ONE as int);
    }
    let p: i128 = (a as i128) * (FX_ONE as i128);
    let q = tdiv128(p, b as i128);
    clip128(q)
}

/// Saturating product of a machine integer and a fixed-point value.
pub fn fx_scale(k: i64, a: i64) -> (r: i64)
    ensures
        r as int == fx_scale_s(k as int, a as int),
{
    proof {
        lemma_wide_mul_bound(k as int, a as int);
    }
    clip128((k as i128) * (a as i128))
}

/// Saturating product of an unsigned count and a fixed-point value.
pub fn fx_scale_u(k: u64, a: i64) -> (r: i64)
    ensures
        r as int == fx_scale_s(k as int, a as int),
{
    proof {
        lemma_wide_mul_bound(k as int, a as int);
    }
    clip128((k as i128) * (a as i128))
}

/// Fixed-point square root of a nonnegative value, rounded down.
pub fn fx_sqrt(a: i64) -> (r: i64)
    requires
        a >= 0,
    ensures
        is_fx_sqrt(r as int, a as int),
{
    proof {
        assert((a as int) * (FX_ONE as int) < 0x1_0000_0000_0000_0000_0000_0000) by (nonlinear_arith)
            requires
                0 <= a as int <= 0x7FFF_FFFF_FFFF_FFFF,
                FX_ONE as int == 1_000_000_000,
        ;
    }
    let x: u128 = (a as u128) * (FX_ONE as u128);
    let mut lo: u128 = 0;
    let mut hi: u128 = 0x1_0000_0000_0000;
    proof {
        assert(hi * hi > x) by (nonlinear_arith)
            requires
                hi == 0x1_0000_0000_0000u128,
                x < 0x1_0000_0000_0000_0000_0000_0000u128,
        ;
    }
    while lo + 1 < hi
        invariant
            lo < hi,
            hi <= 0x1_0000_0000_0000,
            lo * lo <= x,
            hi * hi > x,
            x == (a as int) * (FX_ONE as int),
        decreases hi - lo,
    {
        let mid = lo + (hi - lo) / 2;
        proof {
            assert(mid * mid < 0x1_0000_0000_0000_0000_0000_0000u128)
                by (nonlinear_arith)
                requires
                    mid < 0x1_0000_0000_0000u128,
            ;
        }
        if mid * mid <= x {
            lo = mid;
        } else {
            hi = mid;
        }
    }
    lo as i64
}

/// The square root characterization pins a unique value.
pub proof fn lemma_fx_sqrt_unique(r1: int, r2: int, a: int)
    requires
        is_fx_sqrt(r1, a),
        is_fx_sqrt(r2, a),
    ensures
        r1 == r2,
{
    if r1 < r2 {
        assert((r1 + 1) * (r1 + 1) <= r2 * r2) by (nonlinear_arith)
            requires
                0 <= r1,
                r1 < r2,
        ;
    }
    if r2 < r1 {
        assert((r2 + 1) * (r2 + 1) <= r1 * r1) by (nonlinear_arith)
            requires
                0 <= r2,
                r2 < r1,
        ;
    }
}

} // verus!
