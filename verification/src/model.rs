//! The model variants and their stepping math.
//!
//! A model owns a grid of `node_count >= 3` fixed-point node values over a
//! domain of the given length.  Index `0` and the last index are boundary
//! nodes.  Three variants share the capability set (reset, step, read):
//!
//! - `Analytic`: nodes are a closed-form function of time and position.
//! - `ExplicitDiffusion`: forward-time centered-space update of the 1-D
//!   diffusion equation; boundary nodes follow their boundary evaluators.
//! - `ThetaDiffusion`: blends the explicit estimate with an implicit
//!   estimate obtained from a tridiagonal solve, weighted by `sigma`.
//!
//! Every step rule is stated exactly over the saturating fixed-point
//! operations of [`crate::fixed`], so `run_step` and `reset` pin the whole
//! node array.

use crate::errors::{BuildError, StepError};
use crate::eval::Evaluator;
use crate::fixed::{
    fx_add, fx_add_s, fx_clip, fx_div, fx_div_s, fx_mul, fx_mul_s, fx_neg, fx_neg_s, fx_scale,
    fx_scale_s, fx_scale_u, fx_sub, fx_sub_s, FX_MAX, FX_ONE,
};
use crate::solver::{pivots_nonzero, solve_tridiagonal, tri_solution};
use vstd::prelude::*;

verus! {

/// Elapsed simulation time after `ticks` steps of size `dt`.
pub open spec fn time_of(ticks: int, dt: int) -> i64 {
    fx_clip(ticks * dt) as i64
}

/// Position of node `i` at spacing `h`.
pub open spec fn coord_of(i: int, h: int) -> i64 {
    fx_clip(i * h) as i64
}

/// The tick counter after one more step (it saturates rather than wrap).
pub open spec fn tick_next(t: int) -> int {
    if t < u64::MAX {
        t + 1
    } else {
        t
    }
}

/// The node spacing derived from the domain length and the node count.
pub open spec fn spacing_of(length: i64, node_count: int) -> i64 {
    fx_div_s(length as int, fx_clip((node_count - 1) * (FX_ONE as int))) as i64
}

/// The node array of an analytic model after `ticks` steps.
pub open spec fn analytic_nodes<E: Evaluator>(
    func: E,
    n: nat,
    h: i64,
    dt: i64,
    ticks: int,
) -> Seq<i64> {
    Seq::new(n, |i: int| func.spec_eval(seq![time_of(ticks, dt as int), coord_of(i, h as int)]))
}

/// The node array of a diffusion model immediately after construction or
/// reset: boundaries from their evaluators at time zero, interior from the
/// starting-condition evaluator at each position.
pub open spec fn diffusion_initial_nodes<E: Evaluator>(
    start: E,
    left: E,
    right: E,
    n: nat,
    h: i64,
) -> Seq<i64> {
    Seq::new(
        n,
        |i: int|
            if i == 0 {
                left.spec_eval(seq![0i64])
            } else if i == n - 1 {
                right.spec_eval(seq![0i64])
            } else {
                start.spec_eval(seq![coord_of(i, h as int)])
            },
    )
}

/// The explicit forward update of interior node `i` from the previous
/// array `u`: `u[i] + (a(x_i)^2 * dt / h^2) * (u[i-1] - 2 u[i] + u[i+1])`.
pub open spec fn explicit_interior_next<E: Evaluator>(
    diffusivity: E,
    h: i64,
    dt: i64,
    u: Seq<i64>,
    i: int,
) -> i64 {
    let ai = diffusivity.spec_eval(seq![coord_of(i, h as int)]) as int;
    let a2 = fx_mul_s(ai, ai);
    let ratio = fx_div_s(fx_mul_s(a2, dt as int), fx_mul_s(h as int, h as int));
    let lap = fx_add_s(
        fx_sub_s(u[i - 1] as int, fx_scale_s(2, u[i] as int)),
        u[i + 1] as int,
    );
    fx_add_s(fx_mul_s(ratio, lap), u[i] as int) as i64
}

/// The node array of an explicit-diffusion model after one step from `u`,
/// at the incremented tick count.
pub open spec fn explicit_step_nodes<E: Evaluator>(
    left: E,
    right: E,
    diffusivity: E,
    h: i64,
    dt: i64,
    u: Seq<i64>,
    new_ticks: int,
) -> Seq<i64> {
    Seq::new(
        u.len(),
        |i: int|
            if i == 0 {
                left.spec_eval(seq![time_of(new_ticks, dt as int)])
            } else if i == u.len() - 1 {
                right.spec_eval(seq![time_of(new_ticks, dt as int)])
            } else {
                explicit_interior_next(diffusivity, h, dt, u, i)
            },
    )
}

/// The ratio `dt / h^2` shared by every coefficient of the implicit
/// system.
pub open spec fn theta_ratio(h: i64, dt: i64) -> int {
    fx_div_s(dt as int, fx_mul_s(h as int, h as int))
}

/// Sub- and super-diagonal of the implicit system: `-(dt/h^2) * a(x)^2`
/// at each interior position.
pub open spec fn theta_off<E: Evaluator>(diffusivity: E, h: i64, dt: i64, m: nat) -> Seq<i64> {
    Seq::new(
        m,
        |j: int|
            {
                let ai = diffusivity.spec_eval(seq![coord_of(j + 1, h as int)]) as int;
                fx_mul_s(fx_mul_s(fx_neg_s(theta_ratio(h, dt)), ai), ai) as i64
            },
    )
}

/// Main diagonal of the implicit system: `2 (dt/h^2) a(x)^2 + 1`.
pub open spec fn theta_diag<E: Evaluator>(diffusivity: E, h: i64, dt: i64, m: nat) -> Seq<i64> {
    Seq::new(
        m,
        |j: int|
            {
                let ai = diffusivity.spec_eval(seq![coord_of(j + 1, h as int)]) as int;
                fx_add_s(
                    fx_mul_s(fx_mul_s(fx_scale_s(2, theta_ratio(h, dt)), ai), ai),
                    FX_ONE as int,
                ) as i64
            },
    )
}

/// Right-hand side of the implicit system: the current interior values,
/// with the first and last entries decremented by the boundary values at
/// the new time.
pub open spec fn theta_rhs<E: Evaluator>(
    left: E,
    right: E,
    dt: i64,
    u: Seq<i64>,
    new_ticks: int,
) -> Seq<i64> {
    let t = time_of(new_ticks, dt as int);
    let m = u.len() - 2;
    Seq::new(
        m as nat,
        |j: int|
            {
                let base = u[j + 1] as int;
                let b1 = if j == 0 {
                    fx_sub_s(base, left.spec_eval(seq![t]) as int)
                } else {
                    base
                };
                let b2 = if j == m - 1 {
                    fx_sub_s(b1, right.spec_eval(seq![t]) as int)
                } else {
                    b1
                };
                b2 as i64
            },
    )
}

/// Whether the implicit system of a theta step is solvable from `u`.
pub open spec fn theta_solvable<E: Evaluator>(diffusivity: E, h: i64, dt: i64, n: nat) -> bool {
    pivots_nonzero(
        theta_off(diffusivity, h, dt, (n - 2) as nat),
        theta_diag(diffusivity, h, dt, (n - 2) as nat),
        theta_off(diffusivity, h, dt, (n - 2) as nat),
        n - 2,
    )
}

/// The node array of a theta-diffusion model after one step from `u`:
/// boundaries from their evaluators at the new time, interior the
/// sigma-weighted blend of the implicit solution and the explicit
/// estimate.
pub open spec fn theta_step_nodes<E: Evaluator>(
    left: E,
    right: E,
    diffusivity: E,
    sigma: i64,
    h: i64,
    dt: i64,
    u: Seq<i64>,
    new_ticks: int,
) -> Seq<i64> {
    let t = time_of(new_ticks, dt as int);
    let m = (u.len() - 2) as nat;
    let sol = tri_solution(
        theta_off(diffusivity, h, dt, m),
        theta_diag(diffusivity, h, dt, m),
        theta_off(diffusivity, h, dt, m),
        theta_rhs(left, right, dt, u, new_ticks),
        m as int,
    );
    Seq::new(
        u.len(),
        |i: int|
            if i == 0 {
                left.spec_eval(seq![t])
            } else if i == u.len() - 1 {
                right.spec_eval(seq![t])
            } else {
                fx_add_s(
                    fx_mul_s(sigma as int, sol[i - 1] as int),
                    fx_mul_s(
                        fx_sub_s(FX_ONE as int, sigma as int),
                        explicit_interior_next(diffusivity, h, dt, u, i) as int,
                    ),
                ) as i64
            },
    )
}

/// The stepping strategy of a model, with the evaluators it owns.
pub enum ModelKind<E> {
    /// Closed form `f(t, x)`.
    Analytic { func: E },
    /// Explicit forward update with boundary and starting conditions.
    ExplicitDiffusion { start: E, left: E, right: E, diffusivity: E },
    /// Blend of the explicit estimate and an implicit tridiagonal solve.
    ThetaDiffusion { start: E, left: E, right: E, diffusivity: E, sigma: i64 },
}

/// A simulation instance: a grid of node values advanced tick by tick.
pub struct Model<E> {
    /// The stepping strategy.
    pub kind: ModelKind<E>,
    /// Domain length.
    pub length: i64,
    /// Simulated time advanced per step.
    pub time_step: i64,
    /// Distance between adjacent nodes.
    pub node_step: i64,
    /// Current node values; index `0` and the last index are boundaries.
    pub nodes: Vec<i64>,
    /// Steps taken since construction or the last reset.
    pub elapsed_ticks: u64,
}

impl<E: Evaluator> Model<E> {
    /// Number of grid nodes.
    pub open spec fn node_count(self) -> nat {
        self.nodes@.len()
    }

    /// Current simulated time.
    pub open spec fn spec_time(self) -> i64 {
        time_of(self.elapsed_ticks as int, self.time_step as int)
    }

    /// Each evaluator has the arity of its role.
    pub open spec fn arities_ok(self) -> bool {
        match self.kind {
            ModelKind::Analytic { func } => func.spec_arity() == 2,
            ModelKind::ExplicitDiffusion { start, left, right, diffusivity } => {
                &&& start.spec_arity() == 1
                &&& left.spec_arity() == 1
                &&& right.spec_arity() == 1
                &&& diffusivity.spec_arity() == 1
            },
            ModelKind::ThetaDiffusion { start, left, right, diffusivity, .. } => {
                &&& start.spec_arity() == 1
                &&& left.spec_arity() == 1
                &&& right.spec_arity() == 1
                &&& diffusivity.spec_arity() == 1
            },
        }
    }

    /// The node array owed immediately after construction or reset.
    pub open spec fn initial_nodes(self) -> Seq<i64> {
        match self.kind {
            ModelKind::Analytic { func } => analytic_nodes(
                func,
                self.node_count(),
                self.node_step,
                self.time_step,
                0,
            ),
            ModelKind::ExplicitDiffusion { start, left, right, .. } => diffusion_initial_nodes(
                start,
                left,
                right,
                self.node_count(),
                self.node_step,
            ),
            ModelKind::ThetaDiffusion { start, left, right, .. } => diffusion_initial_nodes(
                start,
                left,
                right,
                self.node_count(),
                self.node_step,
            ),
        }
    }

    /// Boundary nodes always carry their evaluator's value at the current
    /// time (diffusion variants only; an analytic model has no
    /// boundary/interior distinction).
    pub open spec fn boundaries_ok(self) -> bool {
        match self.kind {
            ModelKind::Analytic { .. } => true,
            ModelKind::ExplicitDiffusion { left, right, .. } => {
                &&& self.nodes@[0] == left.spec_eval(seq![self.spec_time()])
                &&& self.nodes@[self.node_count() - 1] == right.spec_eval(
                    seq![self.spec_time()],
                )
            },
            ModelKind::ThetaDiffusion { left, right, .. } => {
                &&& self.nodes@[0] == left.spec_eval(seq![self.spec_time()])
                &&& self.nodes@[self.node_count() - 1] == right.spec_eval(
                    seq![self.spec_time()],
                )
            },
        }
    }

    /// Well-formedness: enough nodes, matching arities, a usable squared
    /// spacing for the diffusion variants, an analytic node array that is
    /// exactly the formula, boundary consistency, and a blend factor in
    /// `[0, 1]`.
    pub open spec fn wf(self) -> bool {
        &&& self.node_count() >= 3
        &&& self.arities_ok()
        &&& (self.kind is Analytic || fx_mul_s(self.node_step as int, self.node_step as int)
            != 0)
        &&& (match self.kind {
            ModelKind::Analytic { func } => self.nodes@ == analytic_nodes(
                func,
                self.node_count(),
                self.node_step,
                self.time_step,
                self.elapsed_ticks as int,
            ),
            _ => true,
        })
        &&& self.boundaries_ok()
        &&& (match self.kind {
            ModelKind::ThetaDiffusion { sigma, .. } => 0 <= sigma <= FX_ONE,
            _ => true,
        })
    }

    /// Whether one step from the current state succeeds (only a singular
    /// implicit system can make it fail).
    pub open spec fn step_ok(self) -> bool {
        match self.kind {
            ModelKind::ThetaDiffusion { diffusivity, .. } => theta_solvable(
                diffusivity,
                self.node_step,
                self.time_step,
                self.node_count(),
            ),
            _ => true,
        }
    }

    /// The node array owed after one successful step.
    pub open spec fn step_nodes(self) -> Seq<i64> {
        let nt = tick_next(self.elapsed_ticks as int);
        match self.kind {
            ModelKind::Analytic { func } => analytic_nodes(
                func,
                self.node_count(),
                self.node_step,
                self.time_step,
                nt,
            ),
            ModelKind::ExplicitDiffusion { start, left, right, diffusivity } =>
                explicit_step_nodes(
                left,
                right,
                diffusivity,
                self.node_step,
                self.time_step,
                self.nodes@,
                nt,
            ),
            ModelKind::ThetaDiffusion { start, left, right, diffusivity, sigma } =>
                theta_step_nodes(
                left,
                right,
                diffusivity,
                sigma,
                self.node_step,
                self.time_step,
                self.nodes@,
                nt,
            ),
        }
    }

    /// The fixed parameters and strategy, everything but the mutable node
    /// array and tick counter, agree with `other`.
    pub open spec fn same_shape(self, other: Model<E>) -> bool {
        &&& self.kind == other.kind
        &&& self.length == other.length
        &&& self.time_step == other.time_step
        &&& self.node_step == other.node_step
        &&& self.node_count() == other.node_count()
    }
}

/// Multiplying by one is exact, even in saturating fixed point, for any
/// representable value.
proof fn lemma_fx_mul_one(x: int)
    requires
        -(FX_MAX as int) <= x <= FX_MAX as int,
    ensures
        fx_mul_s(FX_ONE as int, x) == x,
{
    let d = FX_ONE as int;
    if x >= 0 {
        vstd::arithmetic::div_mod::lemma_div_multiples_vanish(x, d);
        assert(crate::fixed::tdiv(d * x, d) == x);
    } else {
        vstd::arithmetic::div_mod::lemma_div_multiples_vanish(-x, d);
        assert((d * (-x)) / d == -x);
        assert(-(d * x) == d * (-x)) by (nonlinear_arith);
        assert(crate::fixed::tdiv(d * x, d) == x);
    }
}

/// Multiplying by zero gives zero.
proof fn lemma_fx_mul_zero(x: int)
    ensures
        fx_mul_s(0, x) == 0,
{
    vstd::arithmetic::div_mod::lemma_div_of0(FX_ONE as int);
    assert(crate::fixed::tdiv(0 * x, FX_ONE as int) == 0);
}

/// A blend factor of zero makes a theta step exactly an explicit step:
/// the implicit estimate is weighted out and the explicit estimate is
/// kept unchanged.
pub proof fn lemma_theta_sigma_zero_is_explicit<E: Evaluator>(
    left: E,
    right: E,
    diffusivity: E,
    h: i64,
    dt: i64,
    u: Seq<i64>,
    new_ticks: int,
)
    requires
        u.len() >= 3,
    ensures
        theta_step_nodes(left, right, diffusivity, 0i64, h, dt, u, new_ticks)
            == explicit_step_nodes(left, right, diffusivity, h, dt, u, new_ticks),
{
    let ts = theta_step_nodes(left, right, diffusivity, 0i64, h, dt, u, new_ticks);
    let es = explicit_step_nodes(left, right, diffusivity, h, dt, u, new_ticks);
    assert forall|i: int| 0 <= i < u.len() implies ts[i] == es[i] by {
        if 0 < i < u.len() - 1 {
            let e = explicit_interior_next(diffusivity, h, dt, u, i) as int;
            let m = (u.len() - 2) as nat;
            let sol = tri_solution(
                theta_off(diffusivity, h, dt, m),
                theta_diag(diffusivity, h, dt, m),
                theta_off(diffusivity, h, dt, m),
                theta_rhs(left, right, dt, u, new_ticks),
                m as int,
            );
            lemma_fx_mul_zero(sol[i - 1] as int);
            assert(fx_sub_s(FX_ONE as int, 0) == FX_ONE as int);
            lemma_fx_mul_one(e);
            assert(fx_add_s(0, e) == e);
        }
    }
    assert(ts =~= es);
}

/// An analytic model's node array is direct evaluation: node `i` is
/// `f(elapsed_ticks * time_step, i * node_step)`, however the model got
/// to its current tick count.
pub proof fn lemma_analytic_direct_evaluation<E: Evaluator>(m: Model<E>, i: int)
    requires
        m.wf(),
        m.kind is Analytic,
        0 <= i < m.node_count(),
    ensures
        m.nodes@[i] == m.kind->Analytic_func.spec_eval(
            seq![
                time_of(m.elapsed_ticks as int, m.time_step as int),
                coord_of(i, m.node_step as int),
            ],
        ),
{
}

/// An analytic model's node array is a function of its formula, geometry
/// and tick count alone: stepping `k` times from a fresh instance and
/// resetting then stepping `k` times give the same array.
pub proof fn lemma_analytic_nodes_determined<E: Evaluator>(m1: Model<E>, m2: Model<E>)
    requires
        m1.wf(),
        m2.wf(),
        m1.kind == m2.kind,
        m1.kind is Analytic,
        m1.node_step == m2.node_step,
        m1.time_step == m2.time_step,
        m1.node_count() == m2.node_count(),
        m1.elapsed_ticks == m2.elapsed_ticks,
    ensures
        m1.nodes@ == m2.nodes@,
{
}

/// After construction, reset or any step of a diffusion model, the two
/// boundary nodes carry their boundary evaluators' values at the current
/// elapsed time, whatever the interior holds.
pub proof fn lemma_boundaries_follow_evaluators<E: Evaluator>(m: Model<E>)
    requires
        m.wf(),
    ensures
        m.kind matches ModelKind::ExplicitDiffusion { left, right, .. } ==> m.nodes@[0]
            == left.spec_eval(seq![m.spec_time()]) && m.nodes@[m.node_count() - 1]
            == right.spec_eval(seq![m.spec_time()]),
        m.kind matches ModelKind::ThetaDiffusion { left, right, .. } ==> m.nodes@[0]
            == left.spec_eval(seq![m.spec_time()]) && m.nodes@[m.node_count() - 1]
            == right.spec_eval(seq![m.spec_time()]),
{
}

/// Evaluate a one-argument evaluator; the arity is known to match.
fn eval1<E: Evaluator>(func: &E, x: i64) -> (r: i64)
    requires
        func.spec_arity() == 1,
    ensures
        r == func.spec_eval(seq![x]),
{
    let mut args: Vec<i64> = Vec::new();
    args.push(x);
    proof {
        assert(args@ =~= seq![x]);
    }
    match func.evaluate(&args) {
        Ok(v) => v,
        Err(_) => {
            proof {
                assert(false);
            }
            0
        },
    }
}

/// Evaluate a two-argument evaluator; the arity is known to match.
fn eval2<E: Evaluator>(func: &E, a: i64, b: i64) -> (r: i64)
    requires
        func.spec_arity() == 2,
    ensures
        r == func.spec_eval(seq![a, b]),
{
    let mut args: Vec<i64> = Vec::new();
    args.push(a);
    args.push(b);
    proof {
        assert(args@ =~= seq![a, b]);
    }
    match func.evaluate(&args) {
        Ok(v) => v,
        Err(_) => {
            proof {
                assert(false);
            }
            0
        },
    }
}

/// Build the analytic node array at the given tick count.
fn build_analytic_nodes<E: Evaluator>(func: &E, n: usize, h: i64, dt: i64, ticks: u64) -> (r: Vec<
    i64,
>)
    requires
        func.spec_arity() == 2,
    ensures
        r@ == analytic_nodes(*func, n as nat, h, dt, ticks as int),
{
    let t = fx_scale_u(ticks, dt);
    let mut out: Vec<i64> = Vec::new();
    let mut i: usize = 0;
    while i < n
        invariant
            i <= n,
            func.spec_arity() == 2,
            t == time_of(ticks as int, dt as int),
            out@.len() == i,
            forall|k: int|
                0 <= k < i ==> out@[k] == analytic_nodes(*func, n as nat, h, dt, ticks as int)[k],
        decreases n - i,
    {
        let x = fx_scale_u(i as u64, h);
        let v = eval2(func, t, x);
        out.push(v);
        i = i + 1;
    }
    proof {
        assert(out@ =~= analytic_nodes(*func, n as nat, h, dt, ticks as int));
    }
    out
}

/// Build the initial node array of a diffusion model.
fn build_diffusion_initial<E: Evaluator>(start: &E, left: &E, right: &E, n: usize, h: i64) -> (r:
    Vec<i64>)
    requires
        start.spec_arity() == 1,
        left.spec_arity() == 1,
        right.spec_arity() == 1,
        n >= 3,
    ensures
        r@ == diffusion_initial_nodes(*start, *left, *right, n as nat, h),
{
    let mut out: Vec<i64> = Vec::new();
    out.push(eval1(left, 0));
    let mut i: usize = 1;
    while i < n - 1
        invariant
            1 <= i <= n - 1,
            n >= 3,
            start.spec_arity() == 1,
            left.spec_arity() == 1,
            right.spec_arity() == 1,
            out@.len() == i,
            forall|k: int|
                0 <= k < i ==> out@[k] == diffusion_initial_nodes(
                    *start,
                    *left,
                    *right,
                    n as nat,
                    h,
                )[k],
        decreases n - i,
    {
        let x = fx_scale_u(i as u64, h);
        out.push(eval1(start, x));
        i = i + 1;
    }
    out.push(eval1(right, 0));
    proof {
        assert(out@ =~= diffusion_initial_nodes(*start, *left, *right, n as nat, h));
    }
    out
}

/// Build the node array of an explicit-diffusion step from `u`.
fn build_explicit_nodes<E: Evaluator>(
    left: &E,
    right: &E,
    diffusivity: &E,
    h: i64,
    dt: i64,
    u: &Vec<i64>,
    new_ticks: u64,
) -> (r: Vec<i64>)
    requires
        left.spec_arity() == 1,
        right.spec_arity() == 1,
        diffusivity.spec_arity() == 1,
        u@.len() >= 3,
        fx_mul_s(h as int, h as int) != 0,
    ensures
        r@ == explicit_step_nodes(*left, *right, *diffusivity, h, dt, u@, new_ticks as int),
{
    let n = u.len();
    let t = fx_scale_u(new_ticks, dt);
    let h2 = fx_mul(h, h);
    let mut out: Vec<i64> = Vec::new();
    out.push(eval1(left, t));
    let mut i: usize = 1;
    while i < n - 1
        invariant
            1 <= i <= n - 1,
            n == u@.len(),
            n >= 3,
            left.spec_arity() == 1,
            right.spec_arity() == 1,
            diffusivity.spec_arity() == 1,
            t == time_of(new_ticks as int, dt as int),
            h2 as int == fx_mul_s(h as int, h as int),
            h2 != 0,
            out@.len() == i,
            forall|k: int|
                0 <= k < i ==> out@[k] == explicit_step_nodes(
                    *left,
                    *right,
                    *diffusivity,
                    h,
                    dt,
                    u@,
                    new_ticks as int,
                )[k],
        decreases n - i,
    {
        let ai = eval1(diffusivity, fx_scale_u(i as u64, h));
        let a2 = fx_mul(ai, ai);
        let ratio = fx_div(fx_mul(a2, dt), h2);
        let lap = fx_add(fx_sub(u[i - 1], fx_scale(2, u[i])), u[i + 1]);
        out.push(fx_add(fx_mul(ratio, lap), u[i]));
        i = i + 1;
    }
    out.push(eval1(right, t));
    proof {
        assert(out@ =~= explicit_step_nodes(*left, *right, *diffusivity, h, dt, u@,
            new_ticks as int));
    }
    out
}

/// Build the node array of a theta-diffusion step from `u`, or report the
/// implicit system singular.
fn build_theta_nodes<E: Evaluator>(
    left: &E,
    right: &E,
    diffusivity: &E,
    sigma: i64,
    h: i64,
    dt: i64,
    u: &Vec<i64>,
    new_ticks: u64,
) -> (r: Result<Vec<i64>, StepError>)
    requires
        left.spec_arity() == 1,
        right.spec_arity() == 1,
        diffusivity.spec_arity() == 1,
        u@.len() >= 3,
        fx_mul_s(h as int, h as int) != 0,
    ensures
        match r {
            Ok(v) => {
                &&& theta_solvable(*diffusivity, h, dt, u@.len())
                &&& v@ == theta_step_nodes(
                    *left,
                    *right,
                    *diffusivity,
                    sigma,
                    h,
                    dt,
                    u@,
                    new_ticks as int,
                )
            },
            Err(e) => {
                &&& e == StepError::SingularSystem
                &&& !theta_solvable(*diffusivity, h, dt, u@.len())
            },
        },
{
    let n = u.len();
    let m = n - 2;
    let t = fx_scale_u(new_ticks, dt);
    let h2 = fx_mul(h, h);
    let th = fx_div(dt, h2);
    let ghost off_spec = theta_off(*diffusivity, h, dt, m as nat);
    let ghost diag_spec = theta_diag(*diffusivity, h, dt, m as nat);
    let ghost rhs_spec = theta_rhs(*left, *right, dt, u@, new_ticks as int);
    let mut lower: Vec<i64> = Vec::new();
    let mut upper: Vec<i64> = Vec::new();
    let mut diag: Vec<i64> = Vec::new();
    let mut j: usize = 0;
    while j < m
        invariant
            j <= m,
            m == n - 2,
            n >= 3,
            diffusivity.spec_arity() == 1,
            th as int == theta_ratio(h, dt),
            off_spec == theta_off(*diffusivity, h, dt, m as nat),
            diag_spec == theta_diag(*diffusivity, h, dt, m as nat),
            lower@.len() == j,
            upper@.len() == j,
            diag@.len() == j,
            forall|k: int| 0 <= k < j ==> lower@[k] == off_spec[k],
            forall|k: int| 0 <= k < j ==> upper@[k] == off_spec[k],
            forall|k: int| 0 <= k < j ==> diag@[k] == diag_spec[k],
        decreases m - j,
    {
        let x = fx_scale_u((j + 1) as u64, h);
        let ai = eval1(diffusivity, x);
        let off = fx_mul(fx_mul(fx_neg(th), ai), ai);
        let dg = fx_add(fx_mul(fx_mul(fx_scale(2, th), ai), ai), FX_ONE);
        lower.push(off);
        upper.push(off);
        diag.push(dg);
        j = j + 1;
    }
    let mut rhs: Vec<i64> = Vec::new();
    let mut jr: usize = 0;
    while jr < m
        invariant
            jr <= m,
            m == n - 2,
            n == u@.len(),
            n >= 3,
            left.spec_arity() == 1,
            right.spec_arity() == 1,
            t == time_of(new_ticks as int, dt as int),
            rhs_spec == theta_rhs(*left, *right, dt, u@, new_ticks as int),
            rhs@.len() == jr,
            forall|k: int| 0 <= k < jr ==> rhs@[k] == rhs_spec[k],
        decreases m - jr,
    {
        let mut b = u[jr + 1];
        if jr == 0 {
            b = fx_sub(b, eval1(left, t));
        }
        if jr == m - 1 {
            b = fx_sub(b, eval1(right, t));
        }
        rhs.push(b);
        jr = jr + 1;
    }
    proof {
        assert(lower@ =~= off_spec);
        assert(upper@ =~= off_spec);
        assert(diag@ =~= diag_spec);
        assert(rhs@ =~= rhs_spec);
    }
    match solve_tridiagonal(&lower, &diag, &upper, &rhs) {
        Err(e) => Err(e),
        Ok(sol) => {
            let ghost out_spec = theta_step_nodes(
                *left,
                *right,
                *diffusivity,
                sigma,
                h,
                dt,
                u@,
                new_ticks as int,
            );
            let mut out: Vec<i64> = Vec::new();
            out.push(eval1(left, t));
            let mut i: usize = 1;
            while i < n - 1
                invariant
                    1 <= i <= n - 1,
                    n == u@.len(),
                    n >= 3,
                    m == n - 2,
                    left.spec_arity() == 1,
                    right.spec_arity() == 1,
                    diffusivity.spec_arity() == 1,
                    t == time_of(new_ticks as int, dt as int),
                    h2 as int == fx_mul_s(h as int, h as int),
                    h2 != 0,
                    sol@.len() == m,
                    sol@ == tri_solution(off_spec, diag_spec, off_spec, rhs_spec, m as int),
                    off_spec == theta_off(*diffusivity, h, dt, m as nat),
                    diag_spec == theta_diag(*diffusivity, h, dt, m as nat),
                    rhs_spec == theta_rhs(*left, *right, dt, u@, new_ticks as int),
                    out_spec == theta_step_nodes(
                        *left,
                        *right,
                        *diffusivity,
                        sigma,
                        h,
                        dt,
                        u@,
                        new_ticks as int,
                    ),
                    out@.len() == i,
                    forall|k: int| 0 <= k < i ==> out@[k] == out_spec[k],
                decreases n - i,
            {
                let ai = eval1(diffusivity, fx_scale_u(i as u64, h));
                let a2 = fx_mul(ai, ai);
                let ratio = fx_div(fx_mul(a2, dt), h2);
                let lap = fx_add(fx_sub(u[i - 1], fx_scale(2, u[i])), u[i + 1]);
                let ex = fx_add(fx_mul(ratio, lap), u[i]);
                let blended = fx_add(fx_mul(sigma, sol[i - 1]), fx_mul(fx_sub(FX_ONE, sigma), ex));
                out.push(blended);
                i = i + 1;
            }
            out.push(eval1(right, t));
            proof {
                assert(out@ =~= out_spec);
            }
            Ok(out)
        },
    }
}

impl<E: Evaluator> Model<E> {
    /// Build an analytic model: `node_count` samples of `func(t, x)` over
    /// a domain of the given length.
    pub fn new_analytic(func: E, length: i64, node_count: usize, time_step: i64) -> (r: Result<
        Model<E>,
        BuildError,
    >)
        ensures
            match r {
                Ok(m) => {
                    &&& m.wf()
                    &&& node_count >= 3
                    &&& func.spec_arity() == 2
                    &&& m.kind == (ModelKind::Analytic { func })
                    &&& m.length == length
                    &&& m.time_step == time_step
                    &&& m.node_step == spacing_of(length, node_count as int)
                    &&& m.node_count() == node_count
                    &&& m.elapsed_ticks == 0
                    &&& m.nodes@ == m.initial_nodes()
                },
                Err(e) => {
                    &&& (node_count < 3 || func.spec_arity() != 2)
                    &&& e == (if node_count < 3 {
                        BuildError::TooFewNodes
                    } else {
                        BuildError::ArityMismatch
                    })
                },
            },
    {
        if node_count < 3 {
            return Err(BuildError::TooFewNodes);
        }
        if func.arity() != 2 {
            return Err(BuildError::ArityMismatch);
        }
        let denom = fx_scale_u((node_count - 1) as u64, FX_ONE);
        proof {
            assert((node_count - 1) * (FX_ONE as int) >= 2 * (FX_ONE as int))
                by (nonlinear_arith)
                requires
                    node_count >= 3,
                    FX_ONE as int > 0,
            ;
        }
        let node_step = fx_div(length, denom);
        let nodes = build_analytic_nodes(&func, node_count, node_step, time_step, 0);
        Ok(
            Model {
                kind: ModelKind::Analytic { func },
                length,
                time_step,
                node_step,
                nodes,
                elapsed_ticks: 0,
            },
        )
    }

    /// Build an explicit-diffusion model from its starting-condition,
    /// boundary and diffusivity evaluators.
    pub fn new_explicit(
        start: E,
        left: E,
        right: E,
        diffusivity: E,
        length: i64,
        node_count: usize,
        time_step: i64,
    ) -> (r: Result<Model<E>, BuildError>)
        ensures
            ({
                let arities_bad = start.spec_arity() != 1 || left.spec_arity() != 1
                    || right.spec_arity() != 1 || diffusivity.spec_arity() != 1;
                let h = spacing_of(length, node_count as int);
                let degenerate = fx_mul_s(h as int, h as int) == 0;
                match r {
                    Ok(m) => {
                        &&& m.wf()
                        &&& node_count >= 3
                        &&& !arities_bad
                        &&& !degenerate
                        &&& m.kind == (ModelKind::ExplicitDiffusion {
                            start,
                            left,
                            right,
                            diffusivity,
                        })
                        &&& m.length == length
                        &&& m.time_step == time_step
                        &&& m.node_step == h
                        &&& m.node_count() == node_count
                        &&& m.elapsed_ticks == 0
                        &&& m.nodes@ == m.initial_nodes()
                    },
                    Err(e) => {
                        &&& (node_count < 3 || arities_bad || degenerate)
                        &&& e == (if node_count < 3 {
                            BuildError::TooFewNodes
                        } else if arities_bad {
                            BuildError::ArityMismatch
                        } else {
                            BuildError::DegenerateSpacing
                        })
                    },
                }
            }),
    {
        if node_count < 3 {
            return Err(BuildError::TooFewNodes);
        }
        if start.arity() != 1 || left.arity() != 1 || right.arity() != 1 || diffusivity.arity()
            != 1 {
            return Err(BuildError::ArityMismatch);
        }
        let denom = fx_scale_u((node_count - 1) as u64, FX_ONE);
        proof {
            assert((node_count - 1) * (FX_ONE as int) >= 2 * (FX_ONE as int))
                by (nonlinear_arith)
                requires
                    node_count >= 3,
                    FX_ONE as int > 0,
            ;
        }
        let node_step = fx_div(length, denom);
        if fx_mul(node_step, node_step) == 0 {
            return Err(BuildError::DegenerateSpacing);
        }
        let nodes = build_diffusion_initial(&start, &left, &right, node_count, node_step);
        Ok(
            Model {
                kind: ModelKind::ExplicitDiffusion { start, left, right, diffusivity },
                length,
                time_step,
                node_step,
                nodes,
                elapsed_ticks: 0,
            },
        )
    }

    /// Build a theta-diffusion model; `sigma` in `[0, 1]` weighs the
    /// implicit estimate against the explicit one.
    pub fn new_theta(
        start: E,
        left: E,
        right: E,
        diffusivity: E,
        sigma: i64,
        length: i64,
        node_count: usize,
        time_step: i64,
    ) -> (r: Result<Model<E>, BuildError>)
        ensures
            ({
                let arities_bad = start.spec_arity() != 1 || left.spec_arity() != 1
                    || right.spec_arity() != 1 || diffusivity.spec_arity() != 1;
                let blend_bad = sigma < 0 || sigma > FX_ONE;
                let h = spacing_of(length, node_count as int);
                let degenerate = fx_mul_s(h as int, h as int) == 0;
                match r {
                    Ok(m) => {
                        &&& m.wf()
                        &&& node_count >= 3
                        &&& !arities_bad
                        &&& !blend_bad
                        &&& !degenerate
                        &&& m.kind == (ModelKind::ThetaDiffusion {
                            start,
                            left,
                            right,
                            diffusivity,
                            sigma,
                        })
                        &&& m.length == length
                        &&& m.time_step == time_step
                        &&& m.node_step == h
                        &&& m.node_count() == node_count
                        &&& m.elapsed_ticks == 0
                        &&& m.nodes@ == m.initial_nodes()
                    },
                    Err(e) => {
                        &&& (node_count < 3 || arities_bad || blend_bad || degenerate)
                        &&& e == (if node_count < 3 {
                            BuildError::TooFewNodes
                        } else if arities_bad {
                            BuildError::ArityMismatch
                        } else if blend_bad {
                            BuildError::BlendOutOfRange
                        } else {
                            BuildError::DegenerateSpacing
                        })
                    },
                }
            }),
    {
        if node_count < 3 {
            return Err(BuildError::TooFewNodes);
        }
        if start.arity() != 1 || left.arity() != 1 || right.arity() != 1 || diffusivity.arity()
            != 1 {
            return Err(BuildError::ArityMismatch);
        }
        if sigma < 0 || sigma > FX_ONE {
            return Err(BuildError::BlendOutOfRange);
        }
        let denom = fx_scale_u((node_count - 1) as u64, FX_ONE);
        proof {
            assert((node_count - 1) * (FX_ONE as int) >= 2 * (FX_ONE as int))
                by (nonlinear_arith)
                requires
                    node_count >= 3,
                    FX_ONE as int > 0,
            ;
        }
        let node_step = fx_div(length, denom);
        if fx_mul(node_step, node_step) == 0 {
            return Err(BuildError::DegenerateSpacing);
        }
        let nodes = build_diffusion_initial(&start, &left, &right, node_count, node_step);
        Ok(
            Model {
                kind: ModelKind::ThetaDiffusion { start, left, right, diffusivity, sigma },
                length,
                time_step,
                node_step,
                nodes,
                elapsed_ticks: 0,
            },
        )
    }

    /// Return to the initial condition: the tick counter to zero and the
    /// node array to the time-zero values.
    pub fn reset(&mut self)
        requires
            old(self).wf(),
        ensures
            final(self).wf(),
            final(self).same_shape(*old(self)),
            final(self).elapsed_ticks == 0,
            final(self).spec_time() == 0,
            final(self).nodes@ == old(self).initial_nodes(),
    {
        let new_nodes = match &self.kind {
            ModelKind::Analytic { func } => build_analytic_nodes(
                func,
                self.nodes.len(),
                self.node_step,
                self.time_step,
                0,
            ),
            ModelKind::ExplicitDiffusion { start, left, right, .. } => build_diffusion_initial(
                start,
                left,
                right,
                self.nodes.len(),
                self.node_step,
            ),
            ModelKind::ThetaDiffusion { start, left, right, .. } => build_diffusion_initial(
                start,
                left,
                right,
                self.nodes.len(),
                self.node_step,
            ),
        };
        self.nodes = new_nodes;
        self.elapsed_ticks = 0;
    }

    /// Advance the model by one time step.  Only a theta model can fail,
    /// on a singular implicit system; it then keeps its node array and
    /// tick counter unchanged.
    pub fn run_step(&mut self) -> (r: Result<(), StepError>)
        requires
            old(self).wf(),
        ensures
            final(self).wf(),
            final(self).same_shape(*old(self)),
            r is Ok <==> old(self).step_ok(),
            match r {
                Ok(_) => {
                    &&& final(self).elapsed_ticks as int == tick_next(
                        old(self).elapsed_ticks as int,
                    )
                    &&& final(self).nodes@ == old(self).step_nodes()
                },
                Err(e) => {
                    &&& e == StepError::SingularSystem
                    &&& final(self).nodes@ == old(self).nodes@
                    &&& final(self).elapsed_ticks == old(self).elapsed_ticks
                },
            },
    {
        let new_ticks = if self.elapsed_ticks < u64::MAX {
            self.elapsed_ticks + 1
        } else {
            self.elapsed_ticks
        };
        let stepped: Result<Vec<i64>, StepError> = match &self.kind {
            ModelKind::Analytic { func } => Ok(
                build_analytic_nodes(func, self.nodes.len(), self.node_step, self.time_step,
                    new_ticks),
            ),
            ModelKind::ExplicitDiffusion { left, right, diffusivity, .. } => Ok(
                build_explicit_nodes(left, right, diffusivity, self.node_step, self.time_step,
                    &self.nodes, new_ticks),
            ),
            ModelKind::ThetaDiffusion { left, right, diffusivity, sigma, .. } =>
                build_theta_nodes(left, right, diffusivity, *sigma, self.node_step,
                    self.time_step, &self.nodes, new_ticks),
        };
        match stepped {
            Ok(nn) => {
                self.nodes = nn;
                self.elapsed_ticks = new_ticks;
                Ok(())
            },
            Err(e) => Err(e),
        }
    }

    /// Current node values.
    pub fn get_cur_nodes(&self) -> (r: &Vec<i64>)
        ensures
            r@ == self.nodes@,
    {
        &self.nodes
    }

    /// Domain length.
    pub fn get_length(&self) -> (r: i64)
        ensures
            r == self.length,
    {
        self.length
    }

    /// Distance between adjacent nodes.
    pub fn get_node_step(&self) -> (r: i64)
        ensures
            r == self.node_step,
    {
        self.node_step
    }

    /// Elapsed simulated time, `elapsed_ticks * time_step`.
    pub fn get_elapsed_time(&self) -> (r: i64)
        ensures
            r == self.spec_time(),
    {
        fx_scale_u(self.elapsed_ticks, self.time_step)
    }

    /// Steps taken since construction or the last reset.
    pub fn get_elapsed_ticks(&self) -> (r: u64)
        ensures
            r == self.elapsed_ticks,
    {
        self.elapsed_ticks
    }
}

} // verus!
