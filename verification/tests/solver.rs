//! The fixed-point tridiagonal solver.

use diffusion_lab::errors::StepError;
use diffusion_lab::fixed::FX_ONE;
use diffusion_lab::solver::solve_tridiagonal;

fn fx(v: f64) -> i64 {
    (v * FX_ONE as f64).round() as i64
}

#[test]
fn identity_system_returns_the_right_hand_side() {
    let lower = vec![0, 0, 0];
    let diag = vec![fx(1.0), fx(1.0), fx(1.0)];
    let upper = vec![0, 0, 0];
    let rhs = vec![fx(1.0), fx(2.0), fx(3.0)];
    let x = solve_tridiagonal(&lower, &diag, &upper, &rhs).unwrap();
    assert_eq!(x, rhs);
}

#[test]
fn two_by_two_system_solves_exactly() {
    // [2 1; 1 2] * [1, 1] = [3, 3]; every Thomas step is exact here.
    let lower = vec![0, fx(1.0)];
    let diag = vec![fx(2.0), fx(2.0)];
    let upper = vec![fx(1.0), 0];
    let rhs = vec![fx(3.0), fx(3.0)];
    let x = solve_tridiagonal(&lower, &diag, &upper, &rhs).unwrap();
    assert_eq!(x, vec![fx(1.0), fx(1.0)]);
}

#[test]
fn zero_pivot_reports_a_singular_system() {
    let lower = vec![0, fx(1.0)];
    let diag = vec![0, fx(2.0)];
    let upper = vec![fx(1.0), 0];
    let rhs = vec![fx(1.0), fx(1.0)];
    let r = solve_tridiagonal(&lower, &diag, &upper, &rhs);
    assert!(matches!(r, Err(StepError::SingularSystem)));
    // A pivot that only vanishes during elimination is caught too:
    // d1' = 1 - (1/1)*1 = 0.
    let lower = vec![0, fx(1.0)];
    let diag = vec![fx(1.0), fx(1.0)];
    let upper = vec![fx(1.0), 0];
    let rhs = vec![fx(1.0), fx(1.0)];
    let r = solve_tridiagonal(&lower, &diag, &upper, &rhs);
    assert!(matches!(r, Err(StepError::SingularSystem)));
}
