//! The model manager: the state owned by the engine's single worker loop.
//!
//! The manager holds every registered model under its unique name,
//! together with the comparison graph (a symmetric set of edges between
//! registered names, each carrying the divergence of its endpoints) and
//! the tick governor.  One loop iteration applies the drained commands in
//! arrival order, advances every model one step, recomputes every edge,
//! and answers a snapshot request if one arrived.  All mutation happens
//! through the verified methods below; a driver owns the channels and the
//! clock and calls [`ManagerState::run_iteration`] once per tick.

use crate::divergence::{divergence, is_divergence, lemma_divergence_self};
use crate::errors::{ComparisonError, StepError};
use crate::eval::Evaluator;
use crate::model::Model;
use crate::ticker::Ticker;
use vstd::prelude::*;

verus! {

/// What an edge says, independent of where its strings are stored: the
/// two endpoint names and the divergence value.
pub type EdgeView = (Seq<char>, Seq<char>, i64);

/// A comparison edge between two registered model names.
pub struct Edge {
    /// One endpoint name.
    pub a: String,
    /// The other endpoint name.
    pub b: String,
    /// Divergence of the endpoints as of the most recent completed tick.
    pub value: i64,
}

impl View for Edge {
    type V = EdgeView;

    open spec fn view(&self) -> EdgeView {
        (self.a@, self.b@, self.value)
    }
}

/// The edge views of an edge list.
pub open spec fn edge_views(edges: Seq<Edge>) -> Seq<EdgeView> {
    edges.map_values(|e: Edge| e@)
}

/// Whether an edge view connects the unordered pair `{x, y}`.
pub open spec fn view_matches(v: EdgeView, x: Seq<char>, y: Seq<char>) -> bool {
    (v.0 == x && v.1 == y) || (v.0 == y && v.1 == x)
}

/// Whether an edge view touches the name `n`.
pub open spec fn view_touches(v: EdgeView, n: Seq<char>) -> bool {
    v.0 == n || v.1 == n
}

/// The edge views with every edge touching `n` removed.
pub open spec fn without_endpoint(views: Seq<EdgeView>, n: Seq<char>) -> Seq<EdgeView>
    decreases views.len(),
{
    if views.len() == 0 {
        Seq::empty()
    } else {
        let init = without_endpoint(views.drop_last(), n);
        if view_touches(views.last(), n) {
            init
        } else {
            init.push(views.last())
        }
    }
}

/// The edge views with every edge of the unordered pair `{x, y}` removed.
pub open spec fn without_pair(views: Seq<EdgeView>, x: Seq<char>, y: Seq<char>) -> Seq<EdgeView>
    decreases views.len(),
{
    if views.len() == 0 {
        Seq::empty()
    } else {
        let init = without_pair(views.drop_last(), x, y);
        if view_matches(views.last(), x, y) {
            init
        } else {
            init.push(views.last())
        }
    }
}

/// The edge views with the value of every edge of the pair `{x, y}` set
/// to zero.
pub open spec fn zero_pair(views: Seq<EdgeView>, x: Seq<char>, y: Seq<char>) -> Seq<EdgeView>
    decreases views.len(),
{
    if views.len() == 0 {
        Seq::empty()
    } else {
        let init = zero_pair(views.drop_last(), x, y);
        let last = views.last();
        if view_matches(last, x, y) {
            init.push((last.0, last.1, 0i64))
        } else {
            init.push(last)
        }
    }
}

/// A registered model with its unique name.
pub struct ModelEntry<E> {
    /// The model's name.
    pub name: String,
    /// The model instance, owned exclusively by the manager.
    pub model: Model<E>,
}

/// Whether `n` names an entry of the list.
pub open spec fn registered_in<E>(models: Seq<ModelEntry<E>>, n: Seq<char>) -> bool {
    exists|i: int| 0 <= i < models.len() && (#[trigger] models[i]).name@ == n
}

/// The index of the entry named `n`.
pub open spec fn idx_in<E>(models: Seq<ModelEntry<E>>, n: Seq<char>) -> int {
    choose|i: int| 0 <= i < models.len() && (#[trigger] models[i]).name@ == n
}

/// The model of the entry named `n`.
pub open spec fn model_in<E>(models: Seq<ModelEntry<E>>, n: Seq<char>) -> Model<E> {
    models[idx_in(models, n)].model
}

/// No two entries of the list share a name.
pub open spec fn names_unique_in<E>(models: Seq<ModelEntry<E>>) -> bool {
    forall|i: int, j: int|
        0 <= i < j < models.len() ==> (#[trigger] models[i]).name@ != (#[trigger] models[j]).name@
}

/// Under unique names, `idx_in` is the only index carrying a name.
pub proof fn lemma_idx_in_is<E>(models: Seq<ModelEntry<E>>, i: int)
    requires
        names_unique_in(models),
        0 <= i < models.len(),
    ensures
        idx_in(models, models[i].name@) == i,
{
    let n = models[i].name@;
    assert(registered_in(models, n));
    let j = idx_in(models, n);
    if j < i {
        assert(models[j].name@ != models[i].name@);
    } else if j > i {
        assert(models[i].name@ != models[j].name@);
    }
}

/// Lists of equal length with pointwise equal names resolve every
/// registered name at the same index.
pub proof fn lemma_lookup_same_names<E>(
    m1: Seq<ModelEntry<E>>,
    m2: Seq<ModelEntry<E>>,
    n: Seq<char>,
)
    requires
        m1.len() == m2.len(),
        forall|i: int| 0 <= i < m1.len() ==> (#[trigger] m2[i]).name@ == m1[i].name@,
        names_unique_in(m1),
        registered_in(m1, n),
    ensures
        registered_in(m2, n),
        idx_in(m2, n) == idx_in(m1, n),
{
    let i = idx_in(m1, n);
    assert(0 <= i < m1.len() && m1[i].name@ == n);
    assert(m2[i].name@ == n);
    assert(registered_in(m2, n));
    assert(names_unique_in(m2));
    lemma_idx_in_is(m2, i);
}

/// Appending a fresh entry leaves every registered lookup unchanged.
pub proof fn lemma_lookup_push<E>(models: Seq<ModelEntry<E>>, e: ModelEntry<E>, n: Seq<char>)
    requires
        names_unique_in(models.push(e)),
        registered_in(models, n),
    ensures
        registered_in(models.push(e), n),
        model_in(models.push(e), n) == model_in(models, n),
{
    let i = idx_in(models, n);
    assert(0 <= i < models.len() && models[i].name@ == n);
    let m2 = models.push(e);
    assert(m2[i].name@ == n);
    assert(registered_in(m2, n));
    lemma_idx_in_is(m2, i);
    assert(names_unique_in(models)) by {
        assert forall|p: int, q: int|
            0 <= p < q < models.len() implies (#[trigger] models[p]).name@ != (
        #[trigger] models[q]).name@ by {
            assert(m2[p].name@ != m2[q].name@);
        }
    }
    lemma_idx_in_is(models, i);
}

/// Removing an entry of another name leaves a registered lookup intact.
pub proof fn lemma_lookup_remove<E>(models: Seq<ModelEntry<E>>, r: int, n: Seq<char>)
    requires
        names_unique_in(models),
        0 <= r < models.len(),
        models[r].name@ != n,
        registered_in(models, n),
    ensures
        registered_in(models.remove(r), n),
        model_in(models.remove(r), n) == model_in(models, n),
{
    let i = idx_in(models, n);
    assert(0 <= i < models.len() && models[i].name@ == n);
    lemma_idx_in_is(models, i);
    let m2 = models.remove(r);
    let i2 = if i < r {
        i
    } else {
        i - 1
    };
    assert(m2[i2].name@ == n);
    assert(registered_in(m2, n));
    assert(names_unique_in(m2)) by {
        assert forall|p: int, q: int|
            0 <= p < q < m2.len() implies (#[trigger] m2[p]).name@ != (#[trigger] m2[q]).name@ by {
            let p0 = if p < r {
                p
            } else {
                p + 1
            };
            let q0 = if q < r {
                q
            } else {
                q + 1
            };
            assert(m2[p] == models[p0]);
            assert(m2[q] == models[q0]);
        }
    }
    lemma_idx_in_is(m2, i2);
    assert(m2[i2] == models[i]);
}

/// No unordered pair occurs twice in the list of edge views.
pub open spec fn views_dedup(views: Seq<EdgeView>) -> bool {
    forall|k1: int, k2: int|
        0 <= k1 < k2 < views.len() ==> !view_matches(
            #[trigger] views[k2],
            (#[trigger] views[k1]).0,
            views[k1].1,
        )
}

/// Dropping the edges that touch `n` keeps only views of the input list, none of
/// them touching `n`, and preserves pair-uniqueness.
pub proof fn lemma_without_endpoint_props(views: Seq<EdgeView>, n: Seq<char>)
    ensures
        forall|k: int|
            0 <= k < without_endpoint(views, n).len() ==> views.contains(
                #[trigger] without_endpoint(views, n)[k],
            ) && !view_touches(without_endpoint(views, n)[k], n),
        views_dedup(views) ==> views_dedup(without_endpoint(views, n)),
    decreases views.len(),
{
    if views.len() > 0 {
        let prefix = views.drop_last();
        lemma_without_endpoint_props(prefix, n);
        assert forall|k: int| 0 <= k < prefix.len() implies views.contains(#[trigger] prefix[k]) by {
            assert(views[k] == prefix[k]);
        }
        let init = without_endpoint(prefix, n);
        let out = without_endpoint(views, n);
        assert(views.contains(views.last())) by {
            assert(views[views.len() - 1] == views.last());
        }
        if views_dedup(views) {
            assert(views_dedup(prefix)) by {
                assert forall|k1: int, k2: int|
                    0 <= k1 < k2 < prefix.len() implies !view_matches(
                    #[trigger] prefix[k2],
                    (#[trigger] prefix[k1]).0,
                    prefix[k1].1,
                ) by {
                    assert(prefix[k1] == views[k1]);
                    assert(prefix[k2] == views[k2]);
                }
            }
            if !view_touches(views.last(), n) {
                assert forall|k1: int, k2: int|
                    0 <= k1 < k2 < out.len() implies !view_matches(
                    #[trigger] out[k2],
                    (#[trigger] out[k1]).0,
                    out[k1].1,
                ) by {
                    if k2 < init.len() {
                    } else {
                        assert(out[k2] == views.last());
                        assert(prefix.contains(out[k1]));
                        let p = choose|p: int|
                            0 <= p < prefix.len() && prefix[p] == out[k1];
                        assert(views[p] == out[k1]);
                        assert(!view_matches(
                            views[views.len() - 1],
                            views[p].0,
                            views[p].1,
                        ));
                    }
                }
            }
        }
    }
}

/// Dropping the edges of the pair `{x, y}` keeps only views of the input list,
/// none of them matching the pair, and preserves pair-uniqueness.
pub proof fn lemma_without_pair_props(views: Seq<EdgeView>, x: Seq<char>, y: Seq<char>)
    ensures
        forall|k: int|
            0 <= k < without_pair(views, x, y).len() ==> views.contains(
                #[trigger] without_pair(views, x, y)[k],
            ) && !view_matches(without_pair(views, x, y)[k], x, y),
        views_dedup(views) ==> views_dedup(without_pair(views, x, y)),
    decreases views.len(),
{
    if views.len() > 0 {
        let prefix = views.drop_last();
        lemma_without_pair_props(prefix, x, y);
        assert forall|k: int| 0 <= k < prefix.len() implies views.contains(#[trigger] prefix[k]) by {
            assert(views[k] == prefix[k]);
        }
        let init = without_pair(prefix, x, y);
        let out = without_pair(views, x, y);
        assert(views.contains(views.last())) by {
            assert(views[views.len() - 1] == views.last());
        }
        if views_dedup(views) {
            assert(views_dedup(prefix)) by {
                assert forall|k1: int, k2: int|
                    0 <= k1 < k2 < prefix.len() implies !view_matches(
                    #[trigger] prefix[k2],
                    (#[trigger] prefix[k1]).0,
                    prefix[k1].1,
                ) by {
                    assert(prefix[k1] == views[k1]);
                    assert(prefix[k2] == views[k2]);
                }
            }
            if !view_matches(views.last(), x, y) {
                assert forall|k1: int, k2: int|
                    0 <= k1 < k2 < out.len() implies !view_matches(
                    #[trigger] out[k2],
                    (#[trigger] out[k1]).0,
                    out[k1].1,
                ) by {
                    if k2 < init.len() {
                    } else {
                        assert(out[k2] == views.last());
                        assert(prefix.contains(out[k1]));
                        let p = choose|p: int|
                            0 <= p < prefix.len() && prefix[p] == out[k1];
                        assert(views[p] == out[k1]);
                        assert(!view_matches(
                            views[views.len() - 1],
                            views[p].0,
                            views[p].1,
                        ));
                    }
                }
            }
        }
    }
}

/// Zeroing the pair `{x, y}` is a pointwise operation: it keeps length
/// and endpoint names, and only changes matching values to zero.
pub proof fn lemma_zero_pair_props(views: Seq<EdgeView>, x: Seq<char>, y: Seq<char>)
    ensures
        zero_pair(views, x, y).len() == views.len(),
        forall|k: int|
            0 <= k < views.len() ==> (#[trigger] zero_pair(views, x, y)[k]).0 == views[k].0
                && zero_pair(views, x, y)[k].1 == views[k].1 && zero_pair(views, x, y)[k].2 == (
            if view_matches(views[k], x, y) {
                0i64
            } else {
                views[k].2
            }),
    decreases views.len(),
{
    if views.len() > 0 {
        lemma_zero_pair_props(views.drop_last(), x, y);
    }
}

/// The views of a prefix extended by one edge.
proof fn lemma_edge_views_take_push(edges: Seq<Edge>, k: int)
    requires
        0 <= k < edges.len(),
    ensures
        edge_views(edges.take(k + 1)) == edge_views(edges.take(k)).push(edges[k]@),
{
    assert(edge_views(edges.take(k + 1)) =~= edge_views(edges.take(k)).push(edges[k]@));
}

/// A command for the manager, applied in arrival order once per
/// iteration.
pub enum Command<E> {
    /// Register a model under a new name; a colliding name is a no-op.
    AddModel(String, Model<E>),
    /// Remove a model and every comparison edge touching it; an unknown
    /// name is a no-op.
    RemoveModel(String),
    /// Reset a model to its initial condition; an unknown name is a
    /// no-op.
    RestartModel(String),
    /// Create or refresh the comparison edge with value zero and reset
    /// both endpoint models; fails if an endpoint is unknown or the node
    /// counts differ.
    StartComparison(String, String),
    /// Remove the comparison edge if present.
    StopComparison(String, String),
    /// Change the governor's floor tick duration (nanoseconds).
    SetMinTickTime(u64),
    /// Ask for a snapshot reply this iteration.
    RequestSnapshot,
    /// Terminate the loop after this iteration's bookkeeping.
    Exit,
}

/// Per-model data of a snapshot.
pub struct ModelInfo {
    /// The model's name.
    pub name: String,
    /// Copy of the current node values.
    pub nodes: Vec<i64>,
    /// Domain length.
    pub length: i64,
    /// `(partner name, divergence)` for every comparison this model is
    /// part of.
    pub comparisons: Vec<(String, i64)>,
}

/// The reply to a snapshot request.
pub struct Snapshot {
    /// One entry per registered model, in registration order.
    pub infos: Vec<ModelInfo>,
    /// Last published ticks-per-second value.
    pub tps: usize,
}

/// A contained failure of one iteration, reported with the next reply.
pub struct StepFault {
    /// Name of the model whose step failed.
    pub name: String,
    /// What went wrong; the model kept its previous node array.
    pub error: StepError,
}

/// What one loop iteration produced.
pub struct IterationOutcome {
    /// The reply, if a snapshot was requested this iteration.
    pub snapshot: Option<Snapshot>,
    /// Comparison commands that failed this iteration, in arrival order.
    pub rejected: Vec<ComparisonError>,
    /// Models whose step failed this iteration, in registration order.
    pub step_faults: Vec<StepFault>,
    /// Whether an `Exit` command arrived: the loop must stop.
    pub exit: bool,
}

/// The names of the models whose step from the current state would fail,
/// in registration order.
pub open spec fn step_fault_names<E: Evaluator>(models: Seq<ModelEntry<E>>) -> Seq<Seq<char>>
    decreases models.len(),
{
    if models.len() == 0 {
        Seq::empty()
    } else {
        let init = step_fault_names(models.drop_last());
        if models.last().model.step_ok() {
            init
        } else {
            init.push(models.last().name@)
        }
    }
}

/// The `(partner, value)` list of the model named `n`, read off the edge
/// views in edge order.
pub open spec fn partners_of(views: Seq<EdgeView>, n: Seq<char>) -> Seq<(Seq<char>, i64)>
    decreases views.len(),
{
    if views.len() == 0 {
        Seq::empty()
    } else {
        let init = partners_of(views.drop_last(), n);
        let last = views.last();
        if last.0 == n {
            init.push((last.1, last.2))
        } else if last.1 == n {
            init.push((last.0, last.2))
        } else {
            init
        }
    }
}

/// The manager's whole state: models, comparison graph, governor.
pub struct ManagerState<E> {
    /// Registered models in registration order, names unique.
    pub models: Vec<ModelEntry<E>>,
    /// Comparison edges, at most one per unordered name pair.
    pub edges: Vec<Edge>,
    /// The tick governor.
    pub ticker: Ticker,
}

impl<E: Evaluator> ManagerState<E> {
    /// Whether a name is registered.
    pub open spec fn registered(self, n: Seq<char>) -> bool {
        registered_in(self.models@, n)
    }

    /// The model registered under a name.
    pub open spec fn model_at(self, n: Seq<char>) -> Model<E> {
        model_in(self.models@, n)
    }

    /// Whether an edge of the unordered pair `{x, y}` exists.
    pub open spec fn has_edge(self, x: Seq<char>, y: Seq<char>) -> bool {
        exists|k: int| 0 <= k < self.edges@.len() && view_matches(#[trigger] self.edges@[k]@, x, y)
    }

    /// Every edge joins registered names with equal node counts, and no
    /// unordered pair appears twice.
    pub open spec fn edges_wf(self) -> bool {
        &&& forall|k: int|
            0 <= k < self.edges@.len() ==> {
                &&& self.registered((#[trigger] self.edges@[k]@).0)
                &&& self.registered(self.edges@[k]@.1)
                &&& self.model_at(self.edges@[k]@.0).node_count() == self.model_at(
                    self.edges@[k]@.1,
                ).node_count()
            }
        &&& views_dedup(edge_views(self.edges@))
    }

    /// Well-formedness of the whole state.
    pub open spec fn wf(self) -> bool {
        &&& names_unique_in(self.models@)
        &&& forall|i: int| 0 <= i < self.models@.len() ==> (#[trigger] self.models@[i]).model.wf()
        &&& self.edges_wf()
    }

    /// An empty manager whose governor starts at `now` with the given
    /// floor duration.
    pub fn new(min_tick_time: u64, now: u64) -> (r: ManagerState<E>)
        ensures
            r.wf(),
            r.models@.len() == 0,
            r.edges@.len() == 0,
            r.ticker == (Ticker {
                tick_start: now,
                min_tick_time,
                last_tps_measurement: now,
                tick_count: 0,
                tps: 0,
            }),
    {
        ManagerState {
            models: Vec::new(),
            edges: Vec::new(),
            ticker: Ticker::new(min_tick_time, now),
        }
    }

    /// The index of the entry registered under `name`, if any.
    fn find_model(&self, name: &String) -> (r: Option<usize>)
        ensures
            match r {
                Some(i) => i < self.models@.len() && self.models@[i as int].name@ == name@,
                None => !self.registered(name@),
            },
    {
        let mut i: usize = 0;
        while i < self.models.len()
            invariant
                i <= self.models@.len(),
                forall|k: int| 0 <= k < i ==> (#[trigger] self.models@[k]).name@ != name@,
            decreases self.models@.len() - i,
        {
            if self.models[i].name == *name {
                return Some(i);
            }
            i = i + 1;
        }
        None
    }

    /// Register a model under a name; a name collision is a no-op, never
    /// a silent overwrite.
    pub fn add_model(&mut self, name: String, model: Model<E>)
        requires
            old(self).wf(),
            model.wf(),
        ensures
            final(self).wf(),
            final(self).edges@ == old(self).edges@,
            final(self).ticker == old(self).ticker,
            final(self).registered(name@),
            old(self).registered(name@) ==> final(self).models@ == old(self).models@,
            !old(self).registered(name@) ==> final(self).models@ == old(self).models@.push(
                (ModelEntry { name, model }),
            ),
    {
        match self.find_model(&name) {
            Some(_) => (),
            None => {
                let ghost oldm = self.models@;
                self.models.push(ModelEntry { name, model });
                proof {
                    let newm = self.models@;
                    assert forall|i: int, j: int|
                        0 <= i < j < newm.len() implies (#[trigger] newm[i]).name@ != (
                    #[trigger] newm[j]).name@ by {
                        if j == newm.len() - 1 {
                            if newm[i].name@ == newm[j].name@ {
                                assert(oldm[i].name@ == newm[j].name@);
                                assert(registered_in(oldm, newm[j].name@));
                            }
                        } else {
                            assert(oldm[i] == newm[i]);
                            assert(oldm[j] == newm[j]);
                        }
                    }
                    assert forall|k: int|
                        0 <= k < self.edges@.len() implies {
                        &&& self.registered((#[trigger] self.edges@[k]@).0)
                        &&& self.registered(self.edges@[k]@.1)
                        &&& self.model_at(self.edges@[k]@.0).node_count() == self.model_at(
                            self.edges@[k]@.1,
                        ).node_count()
                    } by {
                        assert(oldm.push(newm.last()) =~= newm);
                        lemma_lookup_push(oldm, newm.last(), self.edges@[k]@.0);
                        lemma_lookup_push(oldm, newm.last(), self.edges@[k]@.1);
                    }
                }
            },
        }
    }

    /// Remove a model and every comparison edge touching it; an unknown
    /// name is a no-op.
    pub fn remove_model(&mut self, name: &String)
        requires
            old(self).wf(),
        ensures
            final(self).wf(),
            final(self).ticker == old(self).ticker,
            !final(self).registered(name@),
            forall|k: int|
                0 <= k < final(self).edges@.len() ==> !view_touches(
                    #[trigger] final(self).edges@[k]@,
                    name@,
                ),
            !old(self).registered(name@) ==> final(self).models@ == old(self).models@
                && final(self).edges@ == old(self).edges@,
            old(self).registered(name@) ==> {
                &&& final(self).models@ == old(self).models@.remove(
                    idx_in(old(self).models@, name@),
                )
                &&& edge_views(final(self).edges@) == without_endpoint(
                    edge_views(old(self).edges@),
                    name@,
                )
            },
    {
        match self.find_model(name) {
            None => {
                proof {
                    assert forall|k: int|
                        0 <= k < self.edges@.len() implies !view_touches(
                        #[trigger] self.edges@[k]@,
                        name@,
                    ) by {
                        assert(self.registered(self.edges@[k]@.0));
                        assert(self.registered(self.edges@[k]@.1));
                    }
                }
            },
            Some(i) => {
                let ghost oldm = self.models@;
                let ghost olde = self.edges@;
                proof {
                    lemma_idx_in_is(oldm, i as int);
                }
                self.models.remove(i);
                proof {
                    let newm = self.models@;
                    assert forall|p: int, q: int|
                        0 <= p < q < newm.len() implies (#[trigger] newm[p]).name@ != (
                    #[trigger] newm[q]).name@ by {
                        let p0 = if p < i as int {
                            p
                        } else {
                            p + 1
                        };
                        let q0 = if q < i as int {
                            q
                        } else {
                            q + 1
                        };
                        assert(newm[p] == oldm[p0]);
                        assert(newm[q] == oldm[q0]);
                    }
                    assert forall|p: int| 0 <= p < newm.len() implies (
                    #[trigger] newm[p]).model.wf() by {
                        let p0 = if p < i as int {
                            p
                        } else {
                            p + 1
                        };
                        assert(newm[p] == oldm[p0]);
                    }
                    assert forall|p: int|
                        0 <= p < newm.len() implies (#[trigger] newm[p]).name@ != name@ by {
                        let p0 = if p < i as int {
                            p
                        } else {
                            p + 1
                        };
                        assert(newm[p] == oldm[p0]);
                    }
                }
                let mut kept: Vec<Edge> = Vec::new();
                let mut k: usize = 0;
                while k < self.edges.len()
                    invariant
                        k <= self.edges@.len(),
                        self.edges@ == olde,
                        edge_views(kept@) == without_endpoint(
                            edge_views(olde.take(k as int)),
                            name@,
                        ),
                    decreases self.edges@.len() - k,
                {
                    let e = &self.edges[k];
                    proof {
                        lemma_edge_views_take_push(olde, k as int);
                        assert(edge_views(olde.take(k as int + 1)).drop_last() =~= edge_views(
                            olde.take(k as int),
                        ));
                    }
                    if !(e.a == *name || e.b == *name) {
                        kept.push(Edge { a: e.a.clone(), b: e.b.clone(), value: e.value });
                        proof {
                            assert(kept@.last()@ == olde[k as int]@);
                            assert(edge_views(kept@) =~= edge_views(kept@.drop_last()).push(
                                olde[k as int]@,
                            ));
                        }
                    }
                    k = k + 1;
                }
                proof {
                    assert(olde.take(olde.len() as int) =~= olde);
                }
                self.edges = kept;
                proof {
                    let news = *self;
                    let views = edge_views(news.edges@);
                    lemma_without_endpoint_props(edge_views(olde), name@);
                    assert forall|kk: int|
                        0 <= kk < news.edges@.len() implies {
                        &&& news.registered((#[trigger] news.edges@[kk]@).0)
                        &&& news.registered(news.edges@[kk]@.1)
                        &&& news.model_at(news.edges@[kk]@.0).node_count() == news.model_at(
                            news.edges@[kk]@.1,
                        ).node_count()
                    } by {
                        assert(views[kk] == news.edges@[kk]@);
                        assert(edge_views(olde).contains(views[kk]));
                        let orig = choose|o: int|
                            0 <= o < edge_views(olde).len() && edge_views(olde)[o] == views[kk];
                        assert(olde[orig]@ == views[kk]);
                        assert(registered_in(oldm, views[kk].0));
                        assert(registered_in(oldm, views[kk].1));
                        lemma_lookup_remove(oldm, i as int, views[kk].0);
                        lemma_lookup_remove(oldm, i as int, views[kk].1);
                    }
                    assert(views_dedup(edge_views(news.edges@)));
                }
            },
        }
    }

    /// Reset the named model to its initial condition; an unknown name is
    /// a no-op.
    pub fn restart_model(&mut self, name: &String)
        requires
            old(self).wf(),
        ensures
            final(self).wf(),
            final(self).edges@ == old(self).edges@,
            final(self).ticker == old(self).ticker,
            final(self).models@.len() == old(self).models@.len(),
            forall|i: int|
                0 <= i < old(self).models@.len() ==> (#[trigger] final(self).models@[i]).name@
                    == old(self).models@[i].name@,
            !old(self).registered(name@) ==> final(self).models@ == old(self).models@,
            old(self).registered(name@) ==> {
                let i = idx_in(old(self).models@, name@);
                &&& forall|j: int|
                    0 <= j < old(self).models@.len() && j != i ==> final(self).models@[j] == old(
                        self,
                    ).models@[j]
                &&& final(self).models@[i].model.same_shape(old(self).models@[i].model)
                &&& final(self).models@[i].model.elapsed_ticks == 0
                &&& final(self).models@[i].model.nodes@ == old(
                    self,
                ).models@[i].model.initial_nodes()
            },
    {
        match self.find_model(name) {
            None => (),
            Some(i) => {
                let ghost oldm = self.models@;
                proof {
                    lemma_idx_in_is(oldm, i as int);
                }
                let entry = &mut self.models[i];
                entry.model.reset();
                proof {
                    let newm = self.models@;
                    assert forall|p: int, q: int|
                        0 <= p < q < newm.len() implies (#[trigger] newm[p]).name@ != (
                    #[trigger] newm[q]).name@ by {
                        assert(newm[p].name@ == oldm[p].name@);
                        assert(newm[q].name@ == oldm[q].name@);
                    }
                    lemma_edges_wf_shape_preserved(*old(self), *self);
                }
            },
        }
    }

    /// Start comparing two registered models: create or refresh their
    /// edge with value zero and reset both endpoints so the comparison
    /// begins from the common baseline.  Fails, creating no edge, if an
    /// endpoint is unknown or the node counts differ.
    pub fn start_comparison(&mut self, a: &String, b: &String) -> (r: Result<(), ComparisonError>)
        requires
            old(self).wf(),
        ensures
            final(self).wf(),
            final(self).ticker == old(self).ticker,
            r is Err <==> (!old(self).registered(a@) || !old(self).registered(b@)
                || old(self).model_at(a@).node_count() != old(self).model_at(b@).node_count()),
            match r {
                Ok(_) => {
                    &&& final(self).models@.len() == old(self).models@.len()
                    &&& forall|j: int|
                        0 <= j < old(self).models@.len() ==> (
                        #[trigger] final(self).models@[j]).name@ == old(self).models@[j].name@
                    &&& forall|j: int|
                        0 <= j < old(self).models@.len() && old(self).models@[j].name@ != a@
                            && old(self).models@[j].name@ != b@
                            ==> (#[trigger] final(self).models@[j]) == old(self).models@[j]
                    &&& forall|j: int|
                        0 <= j < old(self).models@.len() && (old(self).models@[j].name@ == a@
                            || old(self).models@[j].name@ == b@) ==> {
                            let oldm = old(self).models@[j].model;
                            let newm = (#[trigger] final(self).models@[j]).model;
                            &&& newm.same_shape(oldm)
                            &&& newm.elapsed_ticks == 0
                            &&& newm.nodes@ == oldm.initial_nodes()
                        }
                    &&& final(self).has_edge(a@, b@)
                    &&& old(self).has_edge(a@, b@) ==> edge_views(final(self).edges@)
                        == zero_pair(edge_views(old(self).edges@), a@, b@)
                    &&& !old(self).has_edge(a@, b@) ==> edge_views(final(self).edges@)
                        == edge_views(old(self).edges@).push((a@, b@, 0i64))
                },
                Err(e) => {
                    &&& final(self).models@ == old(self).models@
                    &&& final(self).edges@ == old(self).edges@
                    &&& e == (if !old(self).registered(a@) || !old(self).registered(b@) {
                        ComparisonError::UnknownName
                    } else {
                        ComparisonError::UnequalGrid
                    })
                },
            },
    {
        let ia = match self.find_model(a) {
            Some(i) => i,
            None => {
                return Err(ComparisonError::UnknownName);
            },
        };
        let ib = match self.find_model(b) {
            Some(i) => i,
            None => {
                return Err(ComparisonError::UnknownName);
            },
        };
        proof {
            lemma_idx_in_is(self.models@, ia as int);
            lemma_idx_in_is(self.models@, ib as int);
        }
        if self.models[ia].model.nodes.len() != self.models[ib].model.nodes.len() {
            return Err(ComparisonError::UnequalGrid);
        }
        let ghost oldm = self.models@;
        {
            let entry = &mut self.models[ia];
            entry.model.reset();
        }
        if ib != ia {
            let entry = &mut self.models[ib];
            entry.model.reset();
        }
        let ghost mr = self.models@;
        proof {
            assert forall|p: int, q: int|
                0 <= p < q < mr.len() implies (#[trigger] mr[p]).name@ != (
            #[trigger] mr[q]).name@ by {
                assert(mr[p].name@ == oldm[p].name@);
                assert(mr[q].name@ == oldm[q].name@);
            }
            assert forall|j: int|
                0 <= j < oldm.len() && oldm[j].name@ != a@ && oldm[j].name@ != b@ implies (
            #[trigger] mr[j]) == oldm[j] by {
                if j == ia as int || j == ib as int {
                    assert(oldm[j].name@ == a@ || oldm[j].name@ == b@);
                }
            }
            assert forall|j: int| 0 <= j < mr.len() implies (#[trigger] mr[j]).model.wf() by {
                if j != ia as int && j != ib as int {
                    assert(mr[j] == oldm[j]);
                }
            }
            assert forall|j: int|
                0 <= j < mr.len() implies (#[trigger] mr[j]).model.node_count()
                    == oldm[j].model.node_count() by {
                if j != ia as int && j != ib as int {
                    assert(mr[j] == oldm[j]);
                }
            }
            assert forall|j: int|
                0 <= j < oldm.len() && (oldm[j].name@ == a@ || oldm[j].name@ == b@) implies {
                let m1 = oldm[j].model;
                let m2 = (#[trigger] mr[j]).model;
                &&& m2.same_shape(m1)
                &&& m2.elapsed_ticks == 0
                &&& m2.nodes@ == m1.initial_nodes()
            } by {
                if oldm[j].name@ == a@ {
                    if j != ia as int {
                        if j < ia as int {
                            assert(oldm[j].name@ != oldm[ia as int].name@);
                        } else {
                            assert(oldm[ia as int].name@ != oldm[j].name@);
                        }
                    }
                } else {
                    if j != ib as int {
                        if j < ib as int {
                            assert(oldm[j].name@ != oldm[ib as int].name@);
                        } else {
                            assert(oldm[ib as int].name@ != oldm[j].name@);
                        }
                    }
                }
            }
        }
        let ghost olde = self.edges@;
        let mut found = false;
        let mut k: usize = 0;
        while k < self.edges.len()
            invariant
                k <= self.edges@.len(),
                self.models@ == mr,
                self.ticker == old(self).ticker,
                olde == old(self).edges@,
                self.edges@.len() == olde.len(),
                forall|kk: int| k <= kk < olde.len() ==> (#[trigger] self.edges@[kk]) == olde[kk],
                forall|kk: int|
                    0 <= kk < k && !view_matches(olde[kk]@, a@, b@) ==> (
                    #[trigger] self.edges@[kk]) == olde[kk],
                forall|kk: int|
                    0 <= kk < k && view_matches(olde[kk]@, a@, b@) ==> (
                    #[trigger] self.edges@[kk]@) == (olde[kk]@.0, olde[kk]@.1, 0i64),
                found <==> exists|kk: int|
                    0 <= kk < k && view_matches(#[trigger] olde[kk]@, a@, b@),
            decreases self.edges@.len() - k,
        {
            let is_pair = (self.edges[k].a == *a && self.edges[k].b == *b) || (self.edges[k].a
                == *b && self.edges[k].b == *a);
            if is_pair {
                let ed = &mut self.edges[k];
                ed.value = 0;
                found = true;
                proof {
                    assert(view_matches(olde[k as int]@, a@, b@));
                }
            }
            k = k + 1;
        }
        if !found {
            self.edges.push(Edge { a: a.clone(), b: b.clone(), value: 0 });
        }
        proof {
            let news = *self;
            lemma_zero_pair_props(edge_views(olde), a@, b@);
            assert forall|j: int| 0 <= j < mr.len() implies (#[trigger] news.models@[j]).name@
                == oldm[j].name@ by {
                assert(news.models@[j] == mr[j]);
            }
            if found {
                assert forall|kk: int|
                    0 <= kk < olde.len() implies edge_views(news.edges@)[kk] == zero_pair(
                    edge_views(olde),
                    a@,
                    b@,
                )[kk] by {
                    assert(edge_views(olde)[kk] == olde[kk]@);
                    assert(edge_views(news.edges@)[kk] == news.edges@[kk]@);
                    if !view_matches(olde[kk]@, a@, b@) {
                        assert(news.edges@[kk] == olde[kk]);
                    }
                }
                assert(edge_views(news.edges@) =~= zero_pair(edge_views(olde), a@, b@));
                let w = choose|kk: int|
                    0 <= kk < olde.len() && view_matches(#[trigger] olde[kk]@, a@, b@);
                assert(news.edges@[w]@ == (olde[w]@.0, olde[w]@.1, 0i64));
                assert(view_matches(news.edges@[w]@, a@, b@));
                assert(news.has_edge(a@, b@));
                assert forall|kk: int|
                    0 <= kk < olde.len() implies (#[trigger] news.edges@[kk]@).0 == old(
                    self,
                ).edges@[kk]@.0 && news.edges@[kk]@.1 == old(self).edges@[kk]@.1 by {
                    if !view_matches(olde[kk]@, a@, b@) {
                        assert(news.edges@[kk] == olde[kk]);
                    }
                }
                lemma_edges_wf_shape_preserved(*old(self), news);
                assert(old(self).has_edge(a@, b@)) by {
                    assert(view_matches(old(self).edges@[w]@, a@, b@));
                }
            } else {
                assert(news.edges@.len() == olde.len() + 1);
                assert(forall|kk: int|
                    0 <= kk < olde.len() ==> (#[trigger] news.edges@[kk]) == olde[kk]);
                assert(news.edges@[olde.len() as int]@ == (a@, b@, 0i64));
                assert(edge_views(news.edges@) =~= edge_views(olde).push((a@, b@, 0i64)));
                assert(view_matches(news.edges@[olde.len() as int]@, a@, b@));
                assert(news.has_edge(a@, b@));
                assert(!old(self).has_edge(a@, b@)) by {
                    if old(self).has_edge(a@, b@) {
                        let w = choose|kk: int|
                            0 <= kk < old(self).edges@.len() && view_matches(
                                #[trigger] old(self).edges@[kk]@,
                                a@,
                                b@,
                            );
                        assert(view_matches(olde[w]@, a@, b@));
                    }
                }
                assert(registered_in(oldm, a@) && registered_in(oldm, b@));
                lemma_lookup_same_names(oldm, news.models@, a@);
                lemma_lookup_same_names(oldm, news.models@, b@);
                assert forall|kk: int|
                    0 <= kk < news.edges@.len() implies {
                    &&& news.registered((#[trigger] news.edges@[kk]@).0)
                    &&& news.registered(news.edges@[kk]@.1)
                    &&& news.model_at(news.edges@[kk]@.0).node_count() == news.model_at(
                        news.edges@[kk]@.1,
                    ).node_count()
                } by {
                    if kk < olde.len() {
                        let x = olde[kk]@.0;
                        let y = olde[kk]@.1;
                        assert(old(self).registered(x));
                        assert(old(self).registered(y));
                        lemma_lookup_same_names(oldm, news.models@, x);
                        lemma_lookup_same_names(oldm, news.models@, y);
                    } else {
                        assert(news.edges@[kk]@.0 == a@);
                        assert(news.edges@[kk]@.1 == b@);
                        assert(news.model_at(a@).node_count() == oldm[ia as int].model.nodes@.len());
                        assert(news.model_at(b@).node_count() == oldm[ib as int].model.nodes@.len());
                    }
                }
                assert forall|k1: int, k2: int|
                    0 <= k1 < k2 < edge_views(news.edges@).len() implies !view_matches(
                    #[trigger] edge_views(news.edges@)[k2],
                    (#[trigger] edge_views(news.edges@)[k1]).0,
                    edge_views(news.edges@)[k1].1,
                ) by {
                    assert(edge_views(news.edges@)[k1] == news.edges@[k1]@);
                    assert(edge_views(news.edges@)[k2] == news.edges@[k2]@);
                    if k2 < olde.len() {
                        assert(!view_matches(olde[k2]@, (olde[k1]@).0, (olde[k1]@).1));
                    } else {
                        assert(news.edges@[k2]@ == (a@, b@, 0i64));
                        assert(!view_matches(olde[k1]@, a@, b@));
                    }
                }
            }
        }
        Ok(())
    }

    /// Advance every registered model by one step, in registration
    /// order; a model whose step fails keeps its state and is reported
    /// in the returned fault list.
    pub fn step_all(&mut self) -> (faults: Vec<StepFault>)
        requires
            old(self).wf(),
        ensures
            final(self).wf(),
            final(self).edges@ == old(self).edges@,
            final(self).ticker == old(self).ticker,
            final(self).models@.len() == old(self).models@.len(),
            forall|i: int|
                0 <= i < old(self).models@.len() ==> (#[trigger] final(self).models@[i]).name@
                    == old(self).models@[i].name@,
            forall|i: int|
                0 <= i < old(self).models@.len() ==> (
                #[trigger] final(self).models@[i]).model.same_shape(old(self).models@[i].model),
            forall|i: int|
                0 <= i < old(self).models@.len() && old(self).models@[i].model.step_ok() ==> {
                    let m1 = old(self).models@[i].model;
                    let m2 = (#[trigger] final(self).models@[i]).model;
                    &&& m2.elapsed_ticks as int == crate::model::tick_next(m1.elapsed_ticks as int)
                    &&& m2.nodes@ == m1.step_nodes()
                },
            forall|i: int|
                0 <= i < old(self).models@.len() && !old(self).models@[i].model.step_ok() ==> {
                    let m1 = old(self).models@[i].model;
                    let m2 = (#[trigger] final(self).models@[i]).model;
                    &&& m2.elapsed_ticks == m1.elapsed_ticks
                    &&& m2.nodes@ == m1.nodes@
                },
            faults@.map_values(|f: StepFault| f.name@) == step_fault_names(old(self).models@),
            forall|j: int|
                0 <= j < faults@.len() ==> (#[trigger] faults@[j]).error
                    == StepError::SingularSystem,
    {
        let ghost oldm = self.models@;
        let mut faults: Vec<StepFault> = Vec::new();
        let mut i: usize = 0;
        while i < self.models.len()
            invariant
                i <= oldm.len(),
                self.edges@ == old(self).edges@,
                self.ticker == old(self).ticker,
                oldm == old(self).models@,
                self.models@.len() == oldm.len(),
                forall|j: int| i <= j < oldm.len() ==> (#[trigger] self.models@[j]) == oldm[j],
                forall|j: int|
                    0 <= j < i ==> (#[trigger] self.models@[j]).name@ == oldm[j].name@,
                forall|j: int|
                    0 <= j < i ==> (#[trigger] self.models@[j]).model.wf() && self.models@[j]
                        .model.same_shape(oldm[j].model),
                forall|j: int|
                    0 <= j < i && oldm[j].model.step_ok() ==> {
                        let m1 = oldm[j].model;
                        let m2 = (#[trigger] self.models@[j]).model;
                        &&& m2.elapsed_ticks as int == crate::model::tick_next(
                            m1.elapsed_ticks as int,
                        )
                        &&& m2.nodes@ == m1.step_nodes()
                    },
                forall|j: int|
                    0 <= j < i && !oldm[j].model.step_ok() ==> {
                        let m1 = oldm[j].model;
                        let m2 = (#[trigger] self.models@[j]).model;
                        &&& m2.elapsed_ticks == m1.elapsed_ticks
                        &&& m2.nodes@ == m1.nodes@
                    },
                forall|j: int| 0 <= j < oldm.len() ==> (#[trigger] oldm[j]).model.wf(),
                faults@.map_values(|f: StepFault| f.name@) == step_fault_names(
                    oldm.take(i as int),
                ),
                forall|j: int|
                    0 <= j < faults@.len() ==> (#[trigger] faults@[j]).error
                        == StepError::SingularSystem,
            decreases oldm.len() - i,
        {
            proof {
                assert(oldm.take(i as int + 1).drop_last() =~= oldm.take(i as int));
            }
            let entry = &mut self.models[i];
            let step_result = entry.model.run_step();
            match step_result {
                Ok(_) => (),
                Err(err) => {
                    let fault = StepFault { name: entry.name.clone(), error: err };
                    faults.push(fault);
                    proof {
                        assert(faults@.map_values(|f: StepFault| f.name@) =~= faults@.drop_last()
                            .map_values(|f: StepFault| f.name@).push(oldm[i as int].name@));
                    }
                },
            }
            i = i + 1;
        }
        proof {
            assert(oldm.take(oldm.len() as int) =~= oldm);
            let news = *self;
            assert forall|p: int, q: int|
                0 <= p < q < news.models@.len() implies (#[trigger] news.models@[p]).name@ != (
            #[trigger] news.models@[q]).name@ by {
                assert(news.models@[p].name@ == oldm[p].name@);
                assert(news.models@[q].name@ == oldm[q].name@);
            }
            lemma_edges_wf_shape_preserved(*old(self), news);
        }
        faults
    }

    /// Recompute every comparison edge's value as the divergence of its
    /// endpoints' current node arrays.
    pub fn recompute_edges(&mut self)
        requires
            old(self).wf(),
        ensures
            final(self).wf(),
            final(self).models@ == old(self).models@,
            final(self).ticker == old(self).ticker,
            final(self).edges@.len() == old(self).edges@.len(),
            forall|k: int|
                0 <= k < old(self).edges@.len() ==> (#[trigger] final(self).edges@[k]@).0 == old(
                    self,
                ).edges@[k]@.0 && final(self).edges@[k]@.1 == old(self).edges@[k]@.1,
            forall|k: int|
                0 <= k < final(self).edges@.len() ==> is_divergence(
                    (#[trigger] final(self).edges@[k]@).2 as int,
                    final(self).model_at(final(self).edges@[k]@.0).nodes@,
                    final(self).model_at(final(self).edges@[k]@.1).nodes@,
                ),
    {
        let ghost olde = self.edges@;
        let mut k: usize = 0;
        while k < self.edges.len()
            invariant
                k <= olde.len(),
                self.models@ == old(self).models@,
                self.ticker == old(self).ticker,
                old(self).wf(),
                self.edges@.len() == olde.len(),
                olde == old(self).edges@,
                forall|kk: int| k <= kk < olde.len() ==> (#[trigger] self.edges@[kk]) == olde[kk],
                forall|kk: int|
                    0 <= kk < k ==> (#[trigger] self.edges@[kk]@).0 == olde[kk]@.0
                        && self.edges@[kk]@.1 == olde[kk]@.1,
                forall|kk: int|
                    0 <= kk < k ==> is_divergence(
                        (#[trigger] self.edges@[kk]@).2 as int,
                        model_in(self.models@, self.edges@[kk]@.0).nodes@,
                        model_in(self.models@, self.edges@[kk]@.1).nodes@,
                    ),
            decreases olde.len() - k,
        {
            let ia = match self.find_model(&self.edges[k].a) {
                Some(i) => i,
                None => {
                    proof {
                        assert(old(self).registered(olde[k as int]@.0));
                        assert(false);
                    }
                    0
                },
            };
            let ib = match self.find_model(&self.edges[k].b) {
                Some(i) => i,
                None => {
                    proof {
                        assert(old(self).registered(olde[k as int]@.1));
                        assert(false);
                    }
                    0
                },
            };
            proof {
                lemma_idx_in_is(self.models@, ia as int);
                lemma_idx_in_is(self.models@, ib as int);
                assert(old(self).model_at(olde[k as int]@.0).node_count() == old(self).model_at(
                    olde[k as int]@.1,
                ).node_count());
            }
            let d = divergence(&self.models[ia].model.nodes, &self.models[ib].model.nodes);
            let ed = &mut self.edges[k];
            ed.value = d;
            k = k + 1;
        }
        proof {
            let news = *self;
            lemma_edges_wf_shape_preserved(*old(self), news);
        }
    }

    /// Remove the comparison edge of the unordered pair, if present; a
    /// missing edge is a no-op.
    pub fn stop_comparison(&mut self, a: &String, b: &String)
        requires
            old(self).wf(),
        ensures
            final(self).wf(),
            final(self).models@ == old(self).models@,
            final(self).ticker == old(self).ticker,
            !final(self).has_edge(a@, b@),
            edge_views(final(self).edges@) == without_pair(edge_views(old(self).edges@), a@, b@),
    {
        let ghost oldm = self.models@;
        let ghost olde = self.edges@;
        let mut kept: Vec<Edge> = Vec::new();
        let mut k: usize = 0;
        while k < self.edges.len()
            invariant
                k <= self.edges@.len(),
                self.edges@ == olde,
                edge_views(kept@) == without_pair(edge_views(olde.take(k as int)), a@, b@),
            decreases self.edges@.len() - k,
        {
            let e = &self.edges[k];
            proof {
                lemma_edge_views_take_push(olde, k as int);
                assert(edge_views(olde.take(k as int + 1)).drop_last() =~= edge_views(
                    olde.take(k as int),
                ));
            }
            let is_pair = (e.a == *a && e.b == *b) || (e.a == *b && e.b == *a);
            if !is_pair {
                kept.push(Edge { a: e.a.clone(), b: e.b.clone(), value: e.value });
                proof {
                    assert(kept@.last()@ == olde[k as int]@);
                    assert(edge_views(kept@) =~= edge_views(kept@.drop_last()).push(
                        olde[k as int]@,
                    ));
                }
            }
            k = k + 1;
        }
        proof {
            assert(olde.take(olde.len() as int) =~= olde);
        }
        self.edges = kept;
        proof {
            let news = *self;
            let views = edge_views(news.edges@);
            lemma_without_pair_props(edge_views(olde), a@, b@);
            assert forall|kk: int|
                0 <= kk < news.edges@.len() implies {
                &&& news.registered((#[trigger] news.edges@[kk]@).0)
                &&& news.registered(news.edges@[kk]@.1)
                &&& news.model_at(news.edges@[kk]@.0).node_count() == news.model_at(
                    news.edges@[kk]@.1,
                ).node_count()
            } by {
                assert(views[kk] == news.edges@[kk]@);
                assert(edge_views(olde).contains(views[kk]));
                let orig = choose|o: int|
                    0 <= o < edge_views(olde).len() && edge_views(olde)[o] == views[kk];
                assert(olde[orig]@ == views[kk]);
            }
            assert forall|kk: int|
                0 <= kk < news.edges@.len() implies !view_matches(
                #[trigger] news.edges@[kk]@,
                a@,
                b@,
            ) by {
                assert(views[kk] == news.edges@[kk]@);
            }
        }
    }
}

/// Whether a snapshot reports exactly the given state: one entry per
/// model in registration order, each carrying the name, a copy of the
/// node array, the length, and the `(partner, divergence)` list read off
/// the comparison graph; plus the governor's published rate.
pub open spec fn snapshot_matches<E: Evaluator>(s: ManagerState<E>, snap: Snapshot) -> bool {
    &&& snap.infos@.len() == s.models@.len()
    &&& forall|i: int|
        0 <= i < s.models@.len() ==> {
            let info = #[trigger] snap.infos@[i];
            &&& info.name@ == s.models@[i].name@
            &&& info.nodes@ == s.models@[i].model.nodes@
            &&& info.length == s.models@[i].model.length
            &&& info.comparisons@.map_values(|p: (String, i64)| (p.0@, p.1)) == partners_of(
                edge_views(s.edges@),
                s.models@[i].name@,
            )
        }
    &&& snap.tps == s.ticker.tps
}

/// Every model a command list asks to add is well-formed (models reach
/// the manager only through the model constructors, which ensure this).
pub open spec fn cmds_wf<E: Evaluator>(cmds: Seq<Command<E>>) -> bool {
    forall|i: int|
        0 <= i < cmds.len() ==> (match #[trigger] cmds[i] {
            Command::AddModel(_, m) => m.wf(),
            _ => true,
        })
}

/// Whether the command list asks the loop to stop.
pub open spec fn asks_exit<E: Evaluator>(cmds: Seq<Command<E>>) -> bool {
    exists|i: int| 0 <= i < cmds.len() && (#[trigger] cmds[i]) is Exit
}

/// Whether the command list asks for a snapshot reply.
pub open spec fn asks_snapshot<E: Evaluator>(cmds: Seq<Command<E>>) -> bool {
    exists|i: int| 0 <= i < cmds.len() && (#[trigger] cmds[i]) is RequestSnapshot
}

impl<E: Evaluator> ManagerState<E> {
    /// Change the governor's floor tick duration.
    pub fn set_min_tick_time(&mut self, t: u64)
        requires
            old(self).wf(),
        ensures
            final(self).wf(),
            final(self).models@ == old(self).models@,
            final(self).edges@ == old(self).edges@,
            final(self).ticker.min_tick_time == t,
            final(self).ticker.tps == old(self).ticker.tps,
    {
        self.ticker.set_min_tick_time(t);
    }

    /// Copy the current state into a snapshot reply.
    pub fn build_snapshot(&self) -> (snap: Snapshot)
        ensures
            snapshot_matches(*self, snap),
    {
        let mut infos: Vec<ModelInfo> = Vec::new();
        let mut i: usize = 0;
        while i < self.models.len()
            invariant
                i <= self.models@.len(),
                infos@.len() == i,
                forall|j: int|
                    0 <= j < i ==> {
                        let info = #[trigger] infos@[j];
                        &&& info.name@ == self.models@[j].name@
                        &&& info.nodes@ == self.models@[j].model.nodes@
                        &&& info.length == self.models@[j].model.length
                        &&& info.comparisons@.map_values(|p: (String, i64)| (p.0@, p.1))
                            == partners_of(edge_views(self.edges@), self.models@[j].name@)
                    },
            decreases self.models@.len() - i,
        {
            let nm = self.models[i].name.clone();
            let mut comps: Vec<(String, i64)> = Vec::new();
            let mut k: usize = 0;
            while k < self.edges.len()
                invariant
                    k <= self.edges@.len(),
                    i < self.models@.len(),
                    nm@ == self.models@[i as int].name@,
                    comps@.map_values(|p: (String, i64)| (p.0@, p.1)) == partners_of(
                        edge_views(self.edges@.take(k as int)),
                        nm@,
                    ),
                decreases self.edges@.len() - k,
            {
                proof {
                    lemma_edge_views_take_push(self.edges@, k as int);
                    assert(edge_views(self.edges@.take(k as int + 1)).drop_last() =~= edge_views(
                        self.edges@.take(k as int),
                    ));
                }
                let e = &self.edges[k];
                if e.a == nm {
                    comps.push((e.b.clone(), e.value));
                    proof {
                        assert(comps@.map_values(|p: (String, i64)| (p.0@, p.1)) =~= comps@
                            .drop_last().map_values(|p: (String, i64)| (p.0@, p.1)).push(
                            (self.edges@[k as int]@.1, self.edges@[k as int]@.2),
                        ));
                    }
                } else if e.b == nm {
                    comps.push((e.a.clone(), e.value));
                    proof {
                        assert(comps@.map_values(|p: (String, i64)| (p.0@, p.1)) =~= comps@
                            .drop_last().map_values(|p: (String, i64)| (p.0@, p.1)).push(
                            (self.edges@[k as int]@.0, self.edges@[k as int]@.2),
                        ));
                    }
                }
                k = k + 1;
            }
            proof {
                assert(self.edges@.take(self.edges@.len() as int) =~= self.edges@);
            }
            let nodes_copy = self.models[i].model.nodes.clone();
            proof {
                assert forall|j: int|
                    0 <= j < self.models@[i as int].model.nodes@.len() implies nodes_copy@[j]
                    == self.models@[i as int].model.nodes@[j] by {
                    assert(cloned::<i64>(self.models@[i as int].model.nodes@[j], nodes_copy@[j]));
                }
                assert(nodes_copy@ =~= self.models@[i as int].model.nodes@);
            }
            let info = ModelInfo {
                name: nm,
                nodes: nodes_copy,
                length: self.models[i].model.length,
                comparisons: comps,
            };
            infos.push(info);
            i = i + 1;
        }
        Snapshot { infos, tps: self.ticker.get_tps() }
    }

    /// One full iteration of the worker loop: apply the drained commands
    /// in arrival order, step every model, recompute every comparison
    /// edge, and build the reply if one was requested.  Contained
    /// failures (rejected comparisons, singular steps) are reported in
    /// the outcome, never by unwinding.
    pub fn run_iteration(&mut self, cmds: Vec<Command<E>>) -> (out: IterationOutcome)
        requires
            old(self).wf(),
            cmds_wf(cmds@),
        ensures
            final(self).wf(),
            out.exit <==> asks_exit(cmds@),
            out.snapshot is Some <==> asks_snapshot(cmds@),
            out.snapshot matches Some(s) ==> snapshot_matches(*final(self), s),
            forall|k: int|
                0 <= k < final(self).edges@.len() ==> is_divergence(
                    (#[trigger] final(self).edges@[k]@).2 as int,
                    final(self).model_at(final(self).edges@[k]@.0).nodes@,
                    final(self).model_at(final(self).edges@[k]@.1).nodes@,
                ),
            forall|j: int|
                0 <= j < out.step_faults@.len() ==> (#[trigger] out.step_faults@[j]).error
                    == StepError::SingularSystem,
            cmds@.len() == 0 ==> {
                &&& final(self).models@.len() == old(self).models@.len()
                &&& forall|i: int|
                    0 <= i < old(self).models@.len() ==> (#[trigger] final(self).models@[i]).name@
                        == old(self).models@[i].name@
                &&& forall|i: int|
                    0 <= i < old(self).models@.len() && old(self).models@[i].model.step_ok()
                        ==> {
                        let m1 = old(self).models@[i].model;
                        let m2 = (#[trigger] final(self).models@[i]).model;
                        &&& m2.elapsed_ticks as int == crate::model::tick_next(
                            m1.elapsed_ticks as int,
                        )
                        &&& m2.nodes@ == m1.step_nodes()
                    }
                &&& forall|i: int|
                    0 <= i < old(self).models@.len() && !old(self).models@[i].model.step_ok()
                        ==> {
                        let m1 = old(self).models@[i].model;
                        let m2 = (#[trigger] final(self).models@[i]).model;
                        &&& m2.elapsed_ticks == m1.elapsed_ticks
                        &&& m2.nodes@ == m1.nodes@
                    }
            },
    {
        let ghost allcmds = cmds@;
        let mut cs = cmds;
        let ghost mut j: int = 0;
        let mut rejected: Vec<ComparisonError> = Vec::new();
        let mut want_snapshot = false;
        let mut exit = false;
        while cs.len() > 0
            invariant
                self.wf(),
                cmds_wf(allcmds),
                0 <= j <= allcmds.len(),
                cs@ == allcmds.skip(j),
                exit <==> exists|i: int| 0 <= i < j && (#[trigger] allcmds[i]) is Exit,
                want_snapshot <==> exists|i: int|
                    0 <= i < j && (#[trigger] allcmds[i]) is RequestSnapshot,
                j == 0 ==> self.models@ == old(self).models@ && self.edges@ == old(self).edges@
                    && self.ticker == old(self).ticker,
            decreases cs@.len(),
        {
            proof {
                assert(cs@[0] == allcmds[j]);
                assert(allcmds.skip(j).remove(0) =~= allcmds.skip(j + 1));
            }
            let cmd = cs.remove(0);
            match cmd {
                Command::AddModel(n, m) => {
                    proof {
                        assert(allcmds[j] == Command::AddModel(n, m));
                    }
                    self.add_model(n, m);
                },
                Command::RemoveModel(n) => {
                    self.remove_model(&n);
                },
                Command::RestartModel(n) => {
                    self.restart_model(&n);
                },
                Command::StartComparison(n1, n2) => {
                    match self.start_comparison(&n1, &n2) {
                        Ok(_) => (),
                        Err(e) => {
                            rejected.push(e);
                        },
                    }
                },
                Command::StopComparison(n1, n2) => {
                    self.stop_comparison(&n1, &n2);
                },
                Command::SetMinTickTime(t) => {
                    self.set_min_tick_time(t);
                },
                Command::RequestSnapshot => {
                    want_snapshot = true;
                },
                Command::Exit => {
                    exit = true;
                },
            }
            proof {
                j = j + 1;
            }
        }
        proof {
            assert(allcmds.skip(j).len() == 0);
            assert(j == allcmds.len());
        }
        let step_faults = self.step_all();
        self.recompute_edges();
        let snapshot = if want_snapshot {
            Some(self.build_snapshot())
        } else {
            None
        };
        IterationOutcome { snapshot, rejected, step_faults, exit }
    }
}

/// An edge between models with equal node arrays carries divergence
/// zero whenever its value is fresh.
pub proof fn lemma_equal_endpoints_edge_zero<E: Evaluator>(s: ManagerState<E>, k: int)
    requires
        s.wf(),
        0 <= k < s.edges@.len(),
        is_divergence(
            s.edges@[k]@.2 as int,
            s.model_at(s.edges@[k]@.0).nodes@,
            s.model_at(s.edges@[k]@.1).nodes@,
        ),
        s.model_at(s.edges@[k]@.0).nodes@ == s.model_at(s.edges@[k]@.1).nodes@,
    ensures
        s.edges@[k]@.2 == 0,
{
    lemma_divergence_self(
        s.model_at(s.edges@[k]@.0).nodes@,
        s.model_at(s.edges@[k]@.1).nodes@,
        s.edges@[k]@.2 as int,
    );
}

/// Two identical analytic models under comparison always show an edge
/// value of zero, however many ticks have passed: their node arrays are
/// determined by the shared formula, geometry and tick count, and the
/// divergence of equal arrays vanishes.
pub proof fn lemma_identical_analytic_edge_zero<E: Evaluator>(s: ManagerState<E>, k: int)
    requires
        s.wf(),
        0 <= k < s.edges@.len(),
        is_divergence(
            s.edges@[k]@.2 as int,
            s.model_at(s.edges@[k]@.0).nodes@,
            s.model_at(s.edges@[k]@.1).nodes@,
        ),
        ({
            let ma = s.model_at(s.edges@[k]@.0);
            let mb = s.model_at(s.edges@[k]@.1);
            &&& ma.kind == mb.kind
            &&& ma.kind is Analytic
            &&& ma.node_step == mb.node_step
            &&& ma.time_step == mb.time_step
            &&& ma.elapsed_ticks == mb.elapsed_ticks
        }),
    ensures
        s.edges@[k]@.2 == 0,
{
    let ma = s.model_at(s.edges@[k]@.0);
    let mb = s.model_at(s.edges@[k]@.1);
    assert(s.registered(s.edges@[k]@.0));
    assert(ma.wf()) by {
        lemma_idx_in_is(s.models@, idx_in(s.models@, s.edges@[k]@.0));
    }
    assert(mb.wf()) by {
        lemma_idx_in_is(s.models@, idx_in(s.models@, s.edges@[k]@.1));
    }
    crate::model::lemma_analytic_nodes_determined(ma, mb);
    lemma_equal_endpoints_edge_zero(s, k);
}

/// Edge well-formedness only reads names and node counts; a state whose
/// models keep their names and node counts and whose edges keep their
/// endpoint names stays edge-well-formed.
proof fn lemma_edges_wf_shape_preserved<E: Evaluator>(s1: ManagerState<E>, s2: ManagerState<E>)
    requires
        s1.wf(),
        names_unique_in(s2.models@),
        s2.models@.len() == s1.models@.len(),
        forall|i: int|
            0 <= i < s1.models@.len() ==> (#[trigger] s2.models@[i]).name@ == s1.models@[i].name@,
        forall|i: int|
            0 <= i < s1.models@.len() ==> (#[trigger] s2.models@[i]).model.node_count()
                == s1.models@[i].model.node_count(),
        s2.edges@.len() == s1.edges@.len(),
        forall|k: int|
            0 <= k < s1.edges@.len() ==> (#[trigger] s2.edges@[k]@).0 == s1.edges@[k]@.0
                && s2.edges@[k]@.1 == s1.edges@[k]@.1,
    ensures
        s2.edges_wf(),
{
    assert(edge_views(s2.edges@).len() == s2.edges@.len());
    assert(edge_views(s1.edges@).len() == s1.edges@.len());
    assert(s1.edges@.len() == s2.edges@.len());
    assert forall|k: int|
        0 <= k < s2.edges@.len() implies {
        &&& s2.registered((#[trigger] s2.edges@[k]@).0)
        &&& s2.registered(s2.edges@[k]@.1)
        &&& s2.model_at(s2.edges@[k]@.0).node_count() == s2.model_at(
            s2.edges@[k]@.1,
        ).node_count()
    } by {
        assert(s2.edges@[k]@ == edge_views(s2.edges@)[k]);
        assert(edge_views(s1.edges@)[k] == s1.edges@[k]@);
        let x = s1.edges@[k]@.0;
        let y = s1.edges@[k]@.1;
        assert(s1.registered(x));
        assert(s1.registered(y));
        lemma_lookup_same_names(s1.models@, s2.models@, x);
        lemma_lookup_same_names(s1.models@, s2.models@, y);
    }
    assert forall|k1: int, k2: int|
        0 <= k1 < k2 < edge_views(s2.edges@).len() implies !view_matches(
        #[trigger] edge_views(s2.edges@)[k2],
        (#[trigger] edge_views(s2.edges@)[k1]).0,
        edge_views(s2.edges@)[k1].1,
    ) by {
        assert(edge_views(s2.edges@)[k1] == s2.edges@[k1]@);
        assert(edge_views(s2.edges@)[k2] == s2.edges@[k2]@);
        assert(edge_views(s1.edges@)[k1] == s1.edges@[k1]@);
        assert(edge_views(s1.edges@)[k2] == s1.edges@[k2]@);
        assert(!view_matches(
            edge_views(s1.edges@)[k2],
            edge_views(s1.edges@)[k1].0,
            edge_views(s1.edges@)[k1].1,
        ));
    }
}

} // verus!
