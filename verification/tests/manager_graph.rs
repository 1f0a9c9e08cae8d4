//! The manager loop: command handling, comparison-graph consistency,
//! divergence values, and snapshots.

use diffusion_lab::errors::ComparisonError;
use diffusion_lab::eval::BasicEvaluator;
use diffusion_lab::fixed::FX_ONE;
use diffusion_lab::manager::{Command, ManagerState};
use diffusion_lab::model::Model;

fn fx(v: f64) -> i64 {
    (v * FX_ONE as f64).round() as i64
}

/// An analytic model of `f(t, x) = x`.
fn coordinate_model(node_count: usize) -> Model<BasicEvaluator> {
    Model::new_analytic(BasicEvaluator::argument(2, 1), fx(200.0), node_count, fx(1.0)).unwrap()
}

fn fresh_manager() -> ManagerState<BasicEvaluator> {
    ManagerState::new(0, 0)
}

#[test]
fn add_model_ignores_colliding_names() {
    let mut s = fresh_manager();
    s.add_model("A".to_string(), coordinate_model(5));
    s.add_model("A".to_string(), coordinate_model(7));
    assert_eq!(s.models.len(), 1);
    assert_eq!(s.models[0].model.get_cur_nodes().len(), 5);
}

#[test]
fn start_comparison_rejects_unknown_names() {
    let mut s = fresh_manager();
    s.add_model("A".to_string(), coordinate_model(5));
    let r = s.start_comparison(&"A".to_string(), &"missing".to_string());
    assert_eq!(r, Err(ComparisonError::UnknownName));
    assert_eq!(s.edges.len(), 0);
}

#[test]
fn start_comparison_rejects_unequal_grids() {
    let mut s = fresh_manager();
    s.add_model("A".to_string(), coordinate_model(5));
    s.add_model("B".to_string(), coordinate_model(7));
    let r = s.start_comparison(&"A".to_string(), &"B".to_string());
    assert_eq!(r, Err(ComparisonError::UnequalGrid));
    assert_eq!(s.edges.len(), 0);
}

#[test]
fn start_then_stop_leaves_no_edge() {
    let mut s = fresh_manager();
    s.add_model("A".to_string(), coordinate_model(5));
    s.add_model("B".to_string(), coordinate_model(5));
    s.start_comparison(&"A".to_string(), &"B".to_string()).unwrap();
    assert_eq!(s.edges.len(), 1);
    assert_eq!(s.edges[0].value, 0);
    s.stop_comparison(&"B".to_string(), &"A".to_string());
    assert_eq!(s.edges.len(), 0);
}

#[test]
fn start_comparison_resets_both_models() {
    let mut s = fresh_manager();
    s.add_model("A".to_string(), coordinate_model(5));
    s.add_model("B".to_string(), coordinate_model(5));
    s.run_iteration(vec![]);
    s.run_iteration(vec![]);
    assert_eq!(s.models[0].model.get_elapsed_ticks(), 2);
    s.start_comparison(&"A".to_string(), &"B".to_string()).unwrap();
    assert_eq!(s.models[0].model.get_elapsed_ticks(), 0);
    assert_eq!(s.models[1].model.get_elapsed_ticks(), 0);
}

#[test]
fn remove_model_drops_all_incident_edges() {
    let mut s = fresh_manager();
    s.add_model("A".to_string(), coordinate_model(5));
    s.add_model("B".to_string(), coordinate_model(5));
    s.add_model("C".to_string(), coordinate_model(5));
    s.start_comparison(&"A".to_string(), &"B".to_string()).unwrap();
    s.start_comparison(&"A".to_string(), &"C".to_string()).unwrap();
    s.start_comparison(&"B".to_string(), &"C".to_string()).unwrap();
    assert_eq!(s.edges.len(), 3);
    s.remove_model(&"A".to_string());
    assert_eq!(s.models.len(), 2);
    assert_eq!(s.edges.len(), 1);
    assert!(s.edges[0].a != "A" && s.edges[0].b != "A");
}

#[test]
fn remove_model_with_unknown_name_is_a_no_op() {
    let mut s = fresh_manager();
    s.add_model("A".to_string(), coordinate_model(5));
    s.remove_model(&"missing".to_string());
    assert_eq!(s.models.len(), 1);
}

#[test]
fn restart_model_resets_only_the_named_model() {
    let mut s = fresh_manager();
    s.add_model("A".to_string(), coordinate_model(5));
    s.add_model("B".to_string(), coordinate_model(5));
    s.run_iteration(vec![]);
    s.run_iteration(vec![]);
    s.restart_model(&"A".to_string());
    assert_eq!(s.models[0].model.get_elapsed_ticks(), 0);
    assert_eq!(s.models[1].model.get_elapsed_ticks(), 2);
    // An unknown name is a no-op.
    s.restart_model(&"missing".to_string());
    assert_eq!(s.models.len(), 2);
}

#[test]
fn start_comparison_refreshes_an_existing_edge() {
    let ca = Model::new_analytic(BasicEvaluator::constant(2, fx(3.0)), fx(200.0), 5, fx(1.0))
        .unwrap();
    let cb = Model::new_analytic(BasicEvaluator::constant(2, fx(-1.0)), fx(200.0), 5, fx(1.0))
        .unwrap();
    let mut s = fresh_manager();
    s.add_model("A".to_string(), ca);
    s.add_model("B".to_string(), cb);
    s.start_comparison(&"A".to_string(), &"B".to_string()).unwrap();
    s.run_iteration(vec![]);
    assert!(s.edges[0].value > 0);
    // Starting again, in either endpoint order, refreshes the one edge
    // back to zero instead of adding a second one.
    s.start_comparison(&"B".to_string(), &"A".to_string()).unwrap();
    assert_eq!(s.edges.len(), 1);
    assert_eq!(s.edges[0].value, 0);
}

#[test]
fn stop_comparison_without_an_edge_is_a_no_op() {
    let mut s = fresh_manager();
    s.add_model("A".to_string(), coordinate_model(5));
    s.add_model("B".to_string(), coordinate_model(5));
    s.stop_comparison(&"A".to_string(), &"B".to_string());
    assert_eq!(s.edges.len(), 0);
    assert_eq!(s.models.len(), 2);
}

#[test]
fn set_min_tick_time_command_reaches_the_governor() {
    let mut s = fresh_manager();
    s.run_iteration(vec![Command::SetMinTickTime(25_000_000)]);
    assert_eq!(s.ticker.min_tick_time, 25_000_000);
}

#[test]
fn comparing_a_model_to_itself_yields_zero() {
    let mut s = fresh_manager();
    s.add_model("A".to_string(), coordinate_model(5));
    s.start_comparison(&"A".to_string(), &"A".to_string()).unwrap();
    for _ in 0..3 {
        s.run_iteration(vec![]);
        assert_eq!(s.edges.len(), 1);
        assert_eq!(s.edges[0].value, 0);
    }
}

#[test]
fn identical_models_keep_divergence_zero() {
    // Two identical analytic models of f(t, x) = x: the edge divergence
    // stays zero after any number of ticks.
    let mut s = fresh_manager();
    s.add_model("A".to_string(), coordinate_model(5));
    s.add_model("B".to_string(), coordinate_model(5));
    s.start_comparison(&"A".to_string(), &"B".to_string()).unwrap();
    for _ in 0..5 {
        let out = s.run_iteration(vec![]);
        assert!(!out.exit);
        assert_eq!(s.edges.len(), 1);
        assert_eq!(s.edges[0].value, 0);
    }
}

#[test]
fn divergence_edge_value_is_exact() {
    // A constant-3 field against a constant-(-1) field on five nodes:
    // each difference is 4, the summed squares are 80, and the edge
    // carries sqrt(80) truncated to fixed point.
    let ca = Model::new_analytic(BasicEvaluator::constant(2, fx(3.0)), fx(200.0), 5, fx(1.0))
        .unwrap();
    let cb = Model::new_analytic(BasicEvaluator::constant(2, fx(-1.0)), fx(200.0), 5, fx(1.0))
        .unwrap();
    let mut s = fresh_manager();
    s.add_model("A".to_string(), ca);
    s.add_model("B".to_string(), cb);
    s.start_comparison(&"A".to_string(), &"B".to_string()).unwrap();
    s.run_iteration(vec![]);
    let expected = (80.0f64.sqrt() * FX_ONE as f64).floor() as i64;
    assert_eq!(s.edges[0].value, expected);
}

#[test]
fn divergence_is_symmetric_across_argument_order() {
    let ca = Model::new_analytic(BasicEvaluator::constant(2, fx(3.0)), fx(200.0), 5, fx(1.0))
        .unwrap();
    let cb = Model::new_analytic(BasicEvaluator::constant(2, fx(-1.0)), fx(200.0), 5, fx(1.0))
        .unwrap();
    let forward = diffusion_lab::divergence::divergence(
        ca.get_cur_nodes(),
        cb.get_cur_nodes(),
    );
    let backward = diffusion_lab::divergence::divergence(
        cb.get_cur_nodes(),
        ca.get_cur_nodes(),
    );
    assert_eq!(forward, backward);
    let reflexive = diffusion_lab::divergence::divergence(
        ca.get_cur_nodes(),
        ca.get_cur_nodes(),
    );
    assert_eq!(reflexive, 0);
}

#[test]
fn run_iteration_applies_commands_in_order_and_replies() {
    let mut s = fresh_manager();
    let out = s.run_iteration(vec![
        Command::AddModel("A".to_string(), coordinate_model(5)),
        Command::AddModel("B".to_string(), coordinate_model(5)),
        Command::StartComparison("A".to_string(), "B".to_string()),
        Command::RequestSnapshot,
    ]);
    assert!(!out.exit);
    assert!(out.rejected.is_empty());
    let snap = out.snapshot.unwrap();
    assert_eq!(snap.infos.len(), 2);
    assert_eq!(snap.infos[0].name, "A");
    assert_eq!(snap.infos[1].name, "B");
    // Each model was stepped once before the snapshot was taken.
    assert_eq!(s.models[0].model.get_elapsed_ticks(), 1);
    assert_eq!(snap.infos[0].nodes, *s.models[0].model.get_cur_nodes());
    assert_eq!(snap.infos[0].length, fx(200.0));
    // The comparison is visible from both endpoints.
    assert_eq!(snap.infos[0].comparisons.len(), 1);
    assert_eq!(snap.infos[0].comparisons[0].0, "B");
    assert_eq!(snap.infos[1].comparisons[0].0, "A");
    assert_eq!(snap.infos[0].comparisons[0].1, 0);
}

#[test]
fn run_iteration_without_snapshot_request_sends_no_reply() {
    let mut s = fresh_manager();
    let out = s.run_iteration(vec![Command::AddModel("A".to_string(), coordinate_model(5))]);
    assert!(out.snapshot.is_none());
    assert!(!out.exit);
}

#[test]
fn exit_command_flags_the_outcome() {
    let mut s = fresh_manager();
    let out = s.run_iteration(vec![Command::Exit]);
    assert!(out.exit);
}

#[test]
fn rejected_comparisons_are_reported() {
    let mut s = fresh_manager();
    let out = s.run_iteration(vec![Command::StartComparison(
        "A".to_string(),
        "B".to_string(),
    )]);
    assert_eq!(out.rejected, vec![ComparisonError::UnknownName]);
}

#[test]
fn singular_step_is_contained_and_reported() {
    // A theta model whose implicit diagonal vanishes: the step fails,
    // the fault is reported, and other models keep stepping.
    let bad = Model::new_theta(
        BasicEvaluator::constant(1, 0),
        BasicEvaluator::constant(1, 0),
        BasicEvaluator::constant(1, 0),
        BasicEvaluator::constant(1, FX_ONE),
        FX_ONE,
        fx(4.0),
        5,
        fx(-0.5),
    )
    .unwrap();
    let mut s = fresh_manager();
    s.add_model("bad".to_string(), bad);
    s.add_model("good".to_string(), coordinate_model(5));
    let out = s.run_iteration(vec![]);
    assert_eq!(out.step_faults.len(), 1);
    assert_eq!(out.step_faults[0].name, "bad");
    assert_eq!(s.models[0].model.get_elapsed_ticks(), 0);
    assert_eq!(s.models[1].model.get_elapsed_ticks(), 1);
}
