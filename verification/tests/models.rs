//! Behavior of the three model variants: construction errors, reset,
//! stepping, boundary handling, and the explicit update formula.

use diffusion_lab::errors::{BuildError, StepError};
use diffusion_lab::eval::{BasicEvaluator, Evaluator};
use diffusion_lab::fixed::{fx_add, fx_div, fx_mul, fx_scale, fx_sub, FX_ONE};
use diffusion_lab::model::Model;

fn fx(v: f64) -> i64 {
    (v * FX_ONE as f64).round() as i64
}

/// `f(t, x) = x`.
fn coordinate_formula() -> BasicEvaluator {
    BasicEvaluator::argument(2, 1)
}

fn zero1() -> BasicEvaluator {
    BasicEvaluator::constant(1, 0)
}

fn one1() -> BasicEvaluator {
    BasicEvaluator::constant(1, FX_ONE)
}

/// The initial sine sample of the end-to-end scenario:
/// `100 * sin(pi * x / 200)` tabulated at the three interior positions.
fn sine_start() -> BasicEvaluator {
    let samples: Vec<(i64, i64)> = [50.0f64, 100.0, 150.0]
        .iter()
        .map(|&x| {
            let v = 100.0 * (std::f64::consts::PI * x / 200.0).sin();
            (fx(x), fx(v))
        })
        .collect();
    BasicEvaluator::table(samples, 0)
}

#[test]
fn analytic_rejects_bad_parameters() {
    let r = Model::new_analytic(coordinate_formula(), fx(1.0), 2, fx(1.0));
    assert!(matches!(r, Err(BuildError::TooFewNodes)));
    let r = Model::new_analytic(zero1(), fx(1.0), 5, fx(1.0));
    assert!(matches!(r, Err(BuildError::ArityMismatch)));
}

#[test]
fn explicit_rejects_bad_parameters() {
    let r = Model::new_explicit(sine_start(), zero1(), zero1(), one1(), fx(200.0), 2, fx(1.0));
    assert!(matches!(r, Err(BuildError::TooFewNodes)));
    let r = Model::new_explicit(
        coordinate_formula(),
        zero1(),
        zero1(),
        one1(),
        fx(200.0),
        5,
        fx(1.0),
    );
    assert!(matches!(r, Err(BuildError::ArityMismatch)));
    // A domain of one raw unit over four intervals has spacing zero.
    let r = Model::new_explicit(sine_start(), zero1(), zero1(), one1(), 1, 5, fx(1.0));
    assert!(matches!(r, Err(BuildError::DegenerateSpacing)));
}

#[test]
fn theta_rejects_blend_out_of_range() {
    let r = Model::new_theta(
        sine_start(),
        zero1(),
        zero1(),
        one1(),
        fx(2.0),
        fx(200.0),
        5,
        fx(1.0),
    );
    assert!(matches!(r, Err(BuildError::BlendOutOfRange)));
    let r = Model::new_theta(
        sine_start(),
        zero1(),
        zero1(),
        one1(),
        -1,
        fx(200.0),
        5,
        fx(1.0),
    );
    assert!(matches!(r, Err(BuildError::BlendOutOfRange)));
}

#[test]
fn analytic_samples_formula_on_grid() {
    // f(t, x) = x over a domain of length 200 with five nodes.
    let m = Model::new_analytic(coordinate_formula(), fx(200.0), 5, fx(1.0)).unwrap();
    assert_eq!(m.get_length(), fx(200.0));
    assert_eq!(m.get_node_step(), fx(50.0));
    assert_eq!(m.get_elapsed_time(), 0);
    let expected = vec![0, fx(50.0), fx(100.0), fx(150.0), fx(200.0)];
    assert_eq!(m.get_cur_nodes(), &expected);
}

#[test]
fn analytic_step_then_reset_restores_initial_state() {
    let f = BasicEvaluator::argument(2, 0);  // f(t, x) = t
    let mut m = Model::new_analytic(f, fx(1.0), 3, fx(0.5)).unwrap();
    assert_eq!(m.get_cur_nodes(), &vec![0, 0, 0]);
    m.run_step().unwrap();
    m.run_step().unwrap();
    assert_eq!(m.get_elapsed_time(), fx(1.0));
    assert_eq!(m.get_cur_nodes(), &vec![fx(1.0), fx(1.0), fx(1.0)]);
    m.reset();
    assert_eq!(m.get_elapsed_time(), 0);
    assert_eq!(m.get_elapsed_ticks(), 0);
    assert_eq!(m.get_cur_nodes(), &vec![0, 0, 0]);
}

#[test]
fn analytic_stepping_is_path_independent() {
    // Stepping k times from a fresh instance produces the same array as
    // reset followed by k steps.
    let k = 7;
    let mut fresh = Model::new_analytic(coordinate_formula(), fx(200.0), 5, fx(0.25)).unwrap();
    for _ in 0..k {
        fresh.run_step().unwrap();
    }
    let mut again = Model::new_analytic(coordinate_formula(), fx(200.0), 5, fx(0.25)).unwrap();
    again.run_step().unwrap();
    again.reset();
    for _ in 0..k {
        again.run_step().unwrap();
    }
    assert_eq!(fresh.get_cur_nodes(), again.get_cur_nodes());
    assert_eq!(fresh.get_elapsed_time(), again.get_elapsed_time());
}

#[test]
fn explicit_initial_condition_samples_start_and_boundaries() {
    let m = Model::new_explicit(
        sine_start(),
        zero1(),
        zero1(),
        one1(),
        fx(200.0),
        5,
        fx(1.0),
    )
    .unwrap();
    let v1 = fx(100.0 * (std::f64::consts::PI * 50.0 / 200.0).sin());
    let v2 = fx(100.0 * (std::f64::consts::PI * 100.0 / 200.0).sin());
    let v3 = fx(100.0 * (std::f64::consts::PI * 150.0 / 200.0).sin());
    assert_eq!(m.get_cur_nodes(), &vec![0, v1, v2, v3, 0]);
}

#[test]
fn explicit_boundaries_follow_evaluators_after_every_step() {
    // Boundaries 5 (left) and -3 (right), regardless of the interior.
    let left = BasicEvaluator::constant(1, fx(5.0));
    let right = BasicEvaluator::constant(1, fx(-3.0));
    let mut m = Model::new_explicit(
        sine_start(),
        left,
        right,
        one1(),
        fx(200.0),
        5,
        fx(1.0),
    )
    .unwrap();
    for _ in 0..4 {
        m.run_step().unwrap();
        let nodes = m.get_cur_nodes();
        assert_eq!(nodes[0], fx(5.0));
        assert_eq!(nodes[4], fx(-3.0));
    }
}

#[test]
fn explicit_interior_matches_hand_computed_update() {
    // The end-to-end scenario: length 200, five nodes, dt = 1,
    // diffusivity 1, start 100*sin(pi*x/200), boundaries 0.
    let mut m = Model::new_explicit(
        sine_start(),
        zero1(),
        zero1(),
        one1(),
        fx(200.0),
        5,
        fx(1.0),
    )
    .unwrap();
    let u: Vec<i64> = m.get_cur_nodes().clone();
    m.run_step().unwrap();
    let nodes = m.get_cur_nodes();
    assert_eq!(nodes[0], 0);
    assert_eq!(nodes[4], 0);
    // Hand-compute the forward update for each interior node:
    // u[i] + (a^2 * dt / h^2) * (u[i-1] - 2 u[i] + u[i+1]).
    let h = fx(50.0);
    let dt = fx(1.0);
    let a2 = fx_mul(FX_ONE, FX_ONE);
    let ratio = fx_div(fx_mul(a2, dt), fx_mul(h, h));
    assert_eq!(ratio, 400_000);  // 1/2500
    for i in 1..4 {
        let lap = fx_add(fx_sub(u[i - 1], fx_scale(2, u[i])), u[i + 1]);
        let expected = fx_add(fx_mul(ratio, lap), u[i]);
        assert_eq!(nodes[i], expected);
    }
    // The peak must have decayed and stayed positive.
    assert!(nodes[2] < u[2]);
    assert!(nodes[2] > 0);
}

#[test]
fn theta_with_sigma_zero_matches_explicit() {
    let mut ex = Model::new_explicit(
        sine_start(),
        zero1(),
        zero1(),
        one1(),
        fx(200.0),
        5,
        fx(1.0),
    )
    .unwrap();
    let mut th = Model::new_theta(
        sine_start(),
        zero1(),
        zero1(),
        one1(),
        0,
        fx(200.0),
        5,
        fx(1.0),
    )
    .unwrap();
    for _ in 0..3 {
        ex.run_step().unwrap();
        th.run_step().unwrap();
        assert_eq!(ex.get_cur_nodes(), th.get_cur_nodes());
    }
}

#[test]
fn theta_boundaries_follow_evaluators_after_every_step() {
    let left = BasicEvaluator::constant(1, fx(2.0));
    let right = BasicEvaluator::constant(1, fx(-2.0));
    let mut m = Model::new_theta(
        sine_start(),
        left,
        right,
        one1(),
        fx(1.0),
        fx(200.0),
        5,
        fx(1.0),
    )
    .unwrap();
    for _ in 0..3 {
        m.run_step().unwrap();
        let nodes = m.get_cur_nodes();
        assert_eq!(nodes[0], fx(2.0));
        assert_eq!(nodes[4], fx(-2.0));
    }
}

#[test]
fn theta_singular_system_fails_step_and_keeps_state() {
    // With spacing 1, diffusivity 1 and dt = -1/2 the implicit diagonal
    // is 2*(dt/h^2)*a^2 + 1 = 0: the very first pivot is singular.
    let mut m = Model::new_theta(
        sine_start(),
        zero1(),
        zero1(),
        one1(),
        FX_ONE,
        fx(4.0),
        5,
        fx(-0.5),
    )
    .unwrap();
    let before: Vec<i64> = m.get_cur_nodes().clone();
    let ticks_before = m.get_elapsed_ticks();
    let r = m.run_step();
    assert!(matches!(r, Err(StepError::SingularSystem)));
    assert_eq!(m.get_cur_nodes(), &before);
    assert_eq!(m.get_elapsed_ticks(), ticks_before);
}

#[test]
fn evaluator_reports_arity_mismatch() {
    let e = BasicEvaluator::constant(2, 7);
    assert_eq!(e.arity(), 2);
    assert!(matches!(e.evaluate(&vec![1]), Err(_)));
    assert_eq!(e.evaluate(&vec![1, 2]).unwrap(), 7);
}

#[test]
fn table_evaluator_looks_up_samples() {
    let t = BasicEvaluator::table(vec![(fx(1.0), fx(10.0)), (fx(2.0), fx(20.0))], fx(-1.0));
    assert_eq!(t.evaluate(&vec![fx(1.0)]).unwrap(), fx(10.0));
    assert_eq!(t.evaluate(&vec![fx(2.0)]).unwrap(), fx(20.0));
    assert_eq!(t.evaluate(&vec![fx(3.0)]).unwrap(), fx(-1.0));
}
