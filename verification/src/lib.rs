//! A one-dimensional diffusion simulation engine.
//!
//! The engine advances interchangeable model variants on a fixed spatial
//! grid, tracks pairwise divergence between selected models in a
//! comparison graph, and paces its loop with a tick governor.  All
//! scalar quantities are saturating fixed-point numbers, so every update
//! rule is stated and proved exactly.
//!
//! - [`fixed`]: the saturating fixed-point scalar operations.
//! - [`eval`]: the evaluator capability (a compiled numeric function of
//!   fixed arity) that stands in for any formula parser.
//! - [`model`]: the three model variants (closed form, explicit
//!   finite-difference, theta-blended implicit/explicit) with exact
//!   stepping contracts.
//! - [`solver`]: a verified tridiagonal solver for the implicit
//!   estimate.
//! - [`divergence`]: the root-sum-of-squared-differences metric, with
//!   its reflexivity and symmetry laws.
//! - [`manager`]: the single-owner manager state, its command protocol
//!   and the per-tick iteration.
//! - [`ticker`]: the tick governor, fed with monotonic timestamps by the
//!   loop driver.
//!
//! A driver (thread, channels, clock, formula parser) lives outside the
//! library; it owns a [`manager::ManagerState`] on one worker thread and
//! calls [`manager::ManagerState::run_iteration`] once per tick.

pub mod divergence;
pub mod errors;
pub mod eval;
pub mod fixed;
pub mod manager;
pub mod model;
pub mod solver;
pub mod ticker;
