//! Exact behavior of the saturating fixed-point scalar operations.

use diffusion_lab::fixed::{
    fx_add, fx_div, fx_mul, fx_neg, fx_scale, fx_scale_u, fx_sqrt, fx_sub, FX_MAX, FX_ONE,
};

fn fx(v: f64) -> i64 {
    (v * FX_ONE as f64).round() as i64
}

#[test]
fn add_and_sub_are_exact_in_range() {
    assert_eq!(fx_add(fx(1.5), fx(2.25)), fx(3.75));
    assert_eq!(fx_sub(fx(1.5), fx(2.25)), fx(-0.75));
    assert_eq!(fx_add(fx(-1.0), fx(1.0)), 0);
}

#[test]
fn add_saturates_symmetrically() {
    assert_eq!(fx_add(FX_MAX, FX_MAX), FX_MAX);
    assert_eq!(fx_sub(-FX_MAX, FX_MAX), -FX_MAX);
    assert_eq!(fx_neg(-FX_MAX), FX_MAX);
}

#[test]
fn mul_truncates_toward_zero() {
    assert_eq!(fx_mul(fx(2.5), fx(4.0)), fx(10.0));
    assert_eq!(fx_mul(fx(-2.5), fx(4.0)), fx(-10.0));
    // 1/3 * 3 leaves the dropped remainder visible: the product of the
    // truncated third with three is one raw unit short of one.
    let third = fx_div(fx(1.0), fx(3.0));
    assert_eq!(third, 333_333_333);
    assert_eq!(fx_mul(third, fx(3.0)), 999_999_999);
}

#[test]
fn div_matches_hand_computation() {
    assert_eq!(fx_div(fx(1.0), fx(2500.0)), 400_000);
    assert_eq!(fx_div(fx(-1.0), fx(2.0)), fx(-0.5));
    assert_eq!(fx_div(fx(7.0), fx(-2.0)), fx(-3.5));
}

#[test]
fn scale_multiplies_by_machine_integers() {
    assert_eq!(fx_scale(3, fx(1.25)), fx(3.75));
    assert_eq!(fx_scale(-2, fx(1.25)), fx(-2.5));
    assert_eq!(fx_scale_u(4, fx(50.0)), fx(200.0));
}

#[test]
fn sqrt_is_exact_on_perfect_squares() {
    assert_eq!(fx_sqrt(fx(25.0)), fx(5.0));
    assert_eq!(fx_sqrt(fx(2.25)), fx(1.5));
    assert_eq!(fx_sqrt(0), 0);
}

#[test]
fn sqrt_rounds_down() {
    let r = fx_sqrt(fx(2.0));
    // The fixed-point root of two, truncated: r^2 <= 2 < (r+1)^2.
    assert_eq!(r, 1_414_213_562);
}
