//! Error taxonomy of the engine.
//!
//! Construction problems are surfaced before a model exists; a singular
//! implicit solve is contained to the affected model's current step; the
//! comparison errors reject a comparison before any edge is created.

use vstd::prelude::*;

verus! {

/// A model could not be built from the given evaluators and parameters.
#[derive(Debug, Clone, Copy, PartialEq, Eq, Structural)]
pub enum BuildError {
    /// An evaluator's arity does not match its role.
    ArityMismatch,
    /// Fewer than three nodes leave no interior to update.
    TooFewNodes,
    /// The squared node spacing rounds to zero, so the update ratio is
    /// undefined.
    DegenerateSpacing,
    /// The blend factor lies outside `[0, 1]`.
    BlendOutOfRange,
}

/// A model's step failed; its node array is left unchanged.
#[derive(Debug, Clone, Copy, PartialEq, Eq, Structural)]
pub enum StepError {
    /// The tridiagonal system of the implicit estimate is singular.
    SingularSystem,
}

/// A comparison could not be started; no edge is created.
#[derive(Debug, Clone, Copy, PartialEq, Eq, Structural)]
pub enum ComparisonError {
    /// One of the names is not registered.
    UnknownName,
    /// The two models have different node counts.
    UnequalGrid,
}

} // verus!
