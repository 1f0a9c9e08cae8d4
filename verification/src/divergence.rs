//! Divergence between two node arrays: the root of the summed squared
//! differences, in saturating fixed-point arithmetic.
//!
//! The square root is characterized relationally by [`is_divergence`]
//! (the bounds pin a unique value), and the two laws below hold of it:
//! comparing an array with itself yields zero, and the divergence is
//! symmetric in its arguments.

use crate::fixed::{
    fx_add, fx_add_s, fx_mul, fx_mul_s, fx_sqrt, fx_sub, fx_sub_s, is_fx_sqrt,
    lemma_fx_sqrt_unique, FX_ONE,
};
use vstd::prelude::*;

verus! {

/// Saturating sum of squared differences over the first `n` entries.
pub open spec fn diff_sq_sum(a: Seq<i64>, b: Seq<i64>, n: int) -> int
    decreases n,
{
    if n <= 0 {
        0
    } else {
        let d = fx_sub_s(a[n - 1] as int, b[n - 1] as int);
        fx_add_s(diff_sq_sum(a, b, n - 1), fx_mul_s(d, d))
    }
}

/// `r` is the divergence of the two equally long arrays.
pub open spec fn is_divergence(r: int, a: Seq<i64>, b: Seq<i64>) -> bool {
    is_fx_sqrt(r, diff_sq_sum(a, b, a.len() as int))
}

/// A saturating fixed-point square is never negative.
pub proof fn lemma_fx_square_nonneg(d: int)
    ensures
        fx_mul_s(d, d) >= 0,
{
    assert(d * d >= 0) by (nonlinear_arith);
    vstd::arithmetic::div_mod::lemma_div_pos_is_pos(d * d, FX_ONE as int);
}

/// Summed squared differences of an array with itself vanish.
pub proof fn lemma_diff_sq_sum_self(a: Seq<i64>, n: int)
    ensures
        diff_sq_sum(a, a, n) == 0,
    decreases n,
{
    if n > 0 {
        lemma_diff_sq_sum_self(a, n - 1);
        vstd::arithmetic::div_mod::lemma_div_of0(FX_ONE as int);
        assert(fx_sub_s(a[n - 1] as int, a[n - 1] as int) == 0);
        assert(fx_mul_s(0, 0) == 0);
    }
}

/// Summed squared differences do not depend on the argument order.
pub proof fn lemma_diff_sq_sum_symmetric(a: Seq<i64>, b: Seq<i64>, n: int)
    ensures
        diff_sq_sum(a, b, n) == diff_sq_sum(b, a, n),
    decreases n,
{
    if n > 0 {
        lemma_diff_sq_sum_symmetric(a, b, n - 1);
        let dab = fx_sub_s(a[n - 1] as int, b[n - 1] as int);
        let dba = fx_sub_s(b[n - 1] as int, a[n - 1] as int);
        assert(dab == -dba);
        assert(dab * dab == dba * dba) by (nonlinear_arith)
            requires
                dab == -dba,
        ;
    }
}

/// Divergence is reflexive: comparing an array with itself yields zero.
pub proof fn lemma_divergence_self(a: Seq<i64>, b: Seq<i64>, r: int)
    requires
        a == b,
        is_divergence(r, a, b),
    ensures
        r == 0,
{
    lemma_diff_sq_sum_self(a, a.len() as int);
    if r > 0 {
        assert(r * r >= 1) by (nonlinear_arith)
            requires
                r >= 1,
        ;
    }
}

/// Divergence is symmetric: the order of the two arrays does not matter.
pub proof fn lemma_divergence_symmetric(a: Seq<i64>, b: Seq<i64>, r1: int, r2: int)
    requires
        a.len() == b.len(),
        is_divergence(r1, a, b),
        is_divergence(r2, b, a),
    ensures
        r1 == r2,
{
    lemma_diff_sq_sum_symmetric(a, b, a.len() as int);
    lemma_fx_sqrt_unique(r1, r2, diff_sq_sum(a, b, a.len() as int));
}

/// Root of the summed squared differences of two equally long arrays.
pub fn divergence(a: &Vec<i64>, b: &Vec<i64>) -> (r: i64)
    requires
        a@.len() == b@.len(),
    ensures
        is_divergence(r as int, a@, b@),
{
    let n = a.len();
    let mut sum: i64 = 0;
    let mut i: usize = 0;
    while i < n
        invariant
            i <= n,
            n == a@.len(),
            n == b@.len(),
            sum as int == diff_sq_sum(a@, b@, i as int),
            sum >= 0,
        decreases n - i,
    {
        let d = fx_sub(a[i], b[i]);
        let sq = fx_mul(d, d);
        proof {
            lemma_fx_square_nonneg(fx_sub_s(a@[i as int] as int, b@[i as int] as int));
        }
        sum = fx_add(sum, sq);
        i = i + 1;
    }
    fx_sqrt(sum)
}

} // verus!
