//! A tridiagonal linear solver (the Thomas algorithm) in saturating
//! fixed-point arithmetic.
//!
//! The system has `m >= 1` unknowns; row `j` reads
//! `lower[j]*x[j-1] + diag[j]*x[j] + upper[j]*x[j+1] = rhs[j]`
//! (the first entry of `lower` and the last entry of `upper` are unused).
//! The forward sweep folds each row into the one above it; a zero pivot
//! along the way makes the system singular and the solve fails.  The spec
//! functions below state the swept coefficients and the back-substituted
//! solution exactly, so a caller knows the full solution vector.

use crate::errors::StepError;
use crate::fixed::{fx_div, fx_div_s, fx_mul, fx_mul_s, fx_sub, fx_sub_s};
use vstd::prelude::*;

verus! {

/// The diagonal after the forward sweep has folded rows `1..=j`.
pub open spec fn swept_diag(lower: Seq<i64>, diag: Seq<i64>, upper: Seq<i64>, j: int) -> i64
    decreases j,
{
    if j <= 0 {
        diag[0]
    } else {
        let w = fx_div_s(lower[j] as int, swept_diag(lower, diag, upper, j - 1) as int);
        fx_sub_s(diag[j] as int, fx_mul_s(w, upper[j - 1] as int)) as i64
    }
}

/// The right-hand side after the forward sweep.
pub open spec fn swept_rhs(
    lower: Seq<i64>,
    diag: Seq<i64>,
    upper: Seq<i64>,
    rhs: Seq<i64>,
    j: int,
) -> i64
    decreases j,
{
    if j <= 0 {
        rhs[0]
    } else {
        let w = fx_div_s(lower[j] as int, swept_diag(lower, diag, upper, j - 1) as int);
        fx_sub_s(rhs[j] as int, fx_mul_s(w, swept_rhs(lower, diag, upper, rhs, j - 1) as int))
            as i64
    }
}

/// Every pivot of the forward sweep is nonzero: the solve succeeds.
pub open spec fn pivots_nonzero(lower: Seq<i64>, diag: Seq<i64>, upper: Seq<i64>, m: int) -> bool {
    forall|j: int| 0 <= j < m ==> swept_diag(lower, diag, upper, j) != 0
}

/// The back-substituted solution at position `j` of an `m`-unknown system.
pub open spec fn back_solution(
    lower: Seq<i64>,
    diag: Seq<i64>,
    upper: Seq<i64>,
    rhs: Seq<i64>,
    m: int,
    j: int,
) -> i64
    decreases m - j,
{
    if j >= m - 1 {
        fx_div_s(
            swept_rhs(lower, diag, upper, rhs, m - 1) as int,
            swept_diag(lower, diag, upper, m - 1) as int,
        ) as i64
    } else {
        fx_div_s(
            fx_sub_s(
                swept_rhs(lower, diag, upper, rhs, j) as int,
                fx_mul_s(
                    upper[j] as int,
                    back_solution(lower, diag, upper, rhs, m, j + 1) as int,
                ),
            ),
            swept_diag(lower, diag, upper, j) as int,
        ) as i64
    }
}

/// The whole solution vector.
pub open spec fn tri_solution(
    lower: Seq<i64>,
    diag: Seq<i64>,
    upper: Seq<i64>,
    rhs: Seq<i64>,
    m: int,
) -> Seq<i64> {
    Seq::new(m as nat, |j: int| back_solution(lower, diag, upper, rhs, m, j))
}

/// Solve the tridiagonal system, or report it singular (a zero pivot)
/// without producing a solution.
pub fn solve_tridiagonal(
    lower: &Vec<i64>,
    diag: &Vec<i64>,
    upper: &Vec<i64>,
    rhs: &Vec<i64>,
) -> (r: Result<Vec<i64>, StepError>)
    requires
        lower@.len() == diag@.len(),
        upper@.len() == diag@.len(),
        rhs@.len() == diag@.len(),
        diag@.len() >= 1,
    ensures
        match r {
            Ok(x) => {
                &&& pivots_nonzero(lower@, diag@, upper@, diag@.len() as int)
                &&& x@ == tri_solution(lower@, diag@, upper@, rhs@, diag@.len() as int)
            },
            Err(e) => {
                &&& e == StepError::SingularSystem
                &&& !pivots_nonzero(lower@, diag@, upper@, diag@.len() as int)
            },
        },
{
    let m = diag.len();
    let mut dp: Vec<i64> = Vec::new();
    let mut rp: Vec<i64> = Vec::new();
    if diag[0] == 0 {
        proof {
            assert(swept_diag(lower@, diag@, upper@, 0) == 0);
            assert(!pivots_nonzero(lower@, diag@, upper@, diag@.len() as int));
        }
        return Err(StepError::SingularSystem);
    }
    dp.push(diag[0]);
    rp.push(rhs[0]);
    let mut j: usize = 1;
    while j < m
        invariant
            1 <= j <= m,
            m == diag@.len(),
            lower@.len() == m,
            upper@.len() == m,
            rhs@.len() == m,
            dp@.len() == j,
            rp@.len() == j,
            forall|k: int|
                0 <= k < j ==> dp@[k] == swept_diag(lower@, diag@, upper@, k) && dp@[k] != 0,
            forall|k: int| 0 <= k < j ==> rp@[k] == swept_rhs(lower@, diag@, upper@, rhs@, k),
        decreases m - j,
    {
        let w = fx_div(lower[j], dp[j - 1]);
        let dnew = fx_sub(diag[j], fx_mul(w, upper[j - 1]));
        if dnew == 0 {
            proof {
                assert(swept_diag(lower@, diag@, upper@, j as int) == 0);
            }
            return Err(StepError::SingularSystem);
        }
        let rnew = fx_sub(rhs[j], fx_mul(w, rp[j - 1]));
        dp.push(dnew);
        rp.push(rnew);
        j = j + 1;
    }
    let mut x: Vec<i64> = vec![0i64; m];
    let mut i: usize = m - 1;
    let v = fx_div(rp[m - 1], dp[m - 1]);
    x[i] = v;
    proof {
        assert(x@[i as int] == back_solution(lower@, diag@, upper@, rhs@, m as int, i as int));
    }
    while i > 0
        invariant
            i < m,
            m == diag@.len(),
            lower@.len() == m,
            upper@.len() == m,
            rhs@.len() == m,
            dp@.len() == m,
            rp@.len() == m,
            x@.len() == m,
            forall|k: int|
                0 <= k < m ==> dp@[k] == swept_diag(lower@, diag@, upper@, k) && dp@[k] != 0,
            forall|k: int| 0 <= k < m ==> rp@[k] == swept_rhs(lower@, diag@, upper@, rhs@, k),
            forall|k: int|
                i <= k < m ==> x@[k] == back_solution(
                    lower@,
                    diag@,
                    upper@,
                    rhs@,
                    m as int,
                    k,
                ),
        decreases i,
    {
        i = i - 1;
        let v2 = fx_div(fx_sub(rp[i], fx_mul(upper[i], x[i + 1])), dp[i]);
        x[i] = v2;
    }
    proof {
        assert forall|jj: int| 0 <= jj < m as int implies swept_diag(
            lower@,
            diag@,
            upper@,
            jj,
        ) != 0 by {
            assert(dp@[jj] == swept_diag(lower@, diag@, upper@, jj));
        }
        assert(pivots_nonzero(lower@, diag@, upper@, m as int));
        assert(x@ =~= tri_solution(lower@, diag@, upper@, rhs@, m as int));
    }
    Ok(x)
}

} // verus!
