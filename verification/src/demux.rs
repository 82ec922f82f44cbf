//! The event demultiplexer.
//!
//! A single-threaded, per-worker state machine: it consumes instrumentation
//! events in arrival order and emits updates into seven typed changelogs,
//! maintaining three pieces of bookkeeping:
//!
//! - the active-dataflow index, mapping each active `(dataflow, worker)` to
//!   the dependency edges recorded while it was active;
//! - the peek stash, mapping `(worker, peek id)` to the install instant;
//! - the source-frontier tracker, mapping `(dataflow, worker)` to per-source
//!   queues of not-yet-passed logical times and delay histograms. Tracker
//!   entries exist only while the owning key is active.
//!
//! All bookkeeping lives in vectors of keyed entries with distinct keys; the
//! contracts speak about their map readings (see [`crate::alist`]).

use crate::alist::{
    assoc_has, assoc_index, assoc_map, assoc_unique, lemma_assoc_absent, lemma_assoc_at,
    lemma_assoc_push, lemma_assoc_remove, lemma_assoc_update,
};
use crate::changelog::{
    DataflowRow, DemuxOutput, DependencyRow, FatalError, FrontierDelayRow, FrontierRow, Notice,
    PeekDurationRow, PeekRow, SourceFrontierRow, Update,
};
use crate::event::{ComputeEvent, Peek};
use crate::ids::GlobalId;
use crate::time::{bucket, is_pow2, spec_bucket, spec_pow2_round, NS_PER_MS};
use vstd::prelude::*;

verus! {

/// The key of the active-dataflow index and the source-frontier tracker.
#[derive(Clone, Copy, Debug, PartialEq, Eq, Structural)]
pub struct DataflowKey {
    /// The dataflow.
    pub dataflow: GlobalId,
    /// The worker it runs on.
    pub worker: u64,
}

/// The key of the peek stash.
#[derive(Clone, Copy, Debug, PartialEq, Eq, Structural)]
pub struct PeekKey {
    /// The worker.
    pub worker: u64,
    /// The peek identifier.
    pub uuid: u128,
}

/// Per-source bookkeeping under one tracker entry: a FIFO queue of
/// `(logical_time, arrival_instant)` pairs not yet passed by the dataflow
/// frontier, and a histogram from delay bucket to count.
#[derive(Clone, Debug)]
pub struct SourceTracker {
    /// Queued source-frontier advancements, oldest first.
    pub queue: Vec<(u64, u64)>,
    /// Accumulated delay histogram: `(power-of-two nanoseconds, count)`.
    pub histogram: Vec<(u64, i64)>,
}

/// The demultiplexer's bookkeeping state for one worker.
pub struct DemuxState {
    /// The active-dataflow index.
    pub active: Vec<(DataflowKey, Vec<(GlobalId, u64)>)>,
    /// The peek stash.
    pub peeks: Vec<(PeekKey, u64)>,
    /// The source-frontier tracker.
    pub trackers: Vec<(DataflowKey, Vec<(GlobalId, SourceTracker)>)>,
}

/// The mathematical reading of one per-source tracker.
pub struct SourceState {
    /// The source.
    pub source: GlobalId,
    /// The queued `(logical_time, arrival_instant)` pairs, oldest first.
    pub queue: Seq<(u64, u64)>,
    /// The delay histogram.
    pub histogram: Map<u64, int>,
}

/// The mathematical reading of the whole bookkeeping state.
pub struct DemuxModel {
    /// Active dataflows and their recorded dependency edges, in order.
    pub active: Map<DataflowKey, Seq<(GlobalId, u64)>>,
    /// Stashed peek install instants.
    pub peeks: Map<PeekKey, u64>,
    /// Source-frontier trackers, sources in insertion order.
    pub trackers: Map<DataflowKey, Seq<SourceState>>,
}

/// The map reading of a histogram vector.
pub open spec fn hist_model(h: Seq<(u64, i64)>) -> Map<u64, int> {
    assoc_map(h.map_values(|p: (u64, i64)| (p.0, p.1 as int)))
}

/// The reading of one source entry.
pub open spec fn source_state(p: (GlobalId, SourceTracker)) -> SourceState {
    SourceState { source: p.0, queue: p.1.queue@, histogram: hist_model(p.1.histogram@) }
}

/// The reading of a tracker entry's source list.
pub open spec fn sources_model(ss: Seq<(GlobalId, SourceTracker)>) -> Seq<SourceState> {
    ss.map_values(|p: (GlobalId, SourceTracker)| source_state(p))
}

/// A histogram vector with distinct power-of-two buckets and positive counts.
pub open spec fn hist_wf(h: Seq<(u64, i64)>) -> bool {
    &&& assoc_unique(h)
    &&& forall|i: int| 0 <= i < h.len() ==> (#[trigger] h[i]).1 >= 1
    &&& forall|i: int| 0 <= i < h.len() ==> is_pow2((#[trigger] h[i]).0 as int)
}

/// A source list with distinct sources and well-formed histograms.
pub open spec fn sources_wf(ss: Seq<(GlobalId, SourceTracker)>) -> bool {
    &&& assoc_unique(ss)
    &&& forall|j: int| 0 <= j < ss.len() ==> hist_wf((#[trigger] ss[j]).1.histogram@)
}

/// All arrival instants in a queue are at most `now`.
pub open spec fn queue_bounded(q: Seq<(u64, u64)>, now: u64) -> bool {
    forall|i: int| 0 <= i < q.len() ==> (#[trigger] q[i]).1 <= now
}

/// All arrival instants in a source list are at most `now`.
pub open spec fn sources_bounded(ss: Seq<(GlobalId, SourceTracker)>, now: u64) -> bool {
    forall|j: int| 0 <= j < ss.len() ==> queue_bounded((#[trigger] ss[j]).1.queue@, now)
}

impl DemuxState {
    /// The active-dataflow index as pairs of key and dependency sequence.
    pub open spec fn active_pairs(self) -> Seq<(DataflowKey, Seq<(GlobalId, u64)>)> {
        self.active@.map_values(|p: (DataflowKey, Vec<(GlobalId, u64)>)| (p.0, p.1@))
    }

    /// The tracker as pairs of key and source-state sequence.
    pub open spec fn tracker_pairs(self) -> Seq<(DataflowKey, Seq<SourceState>)> {
        self.trackers@.map_values(
            |p: (DataflowKey, Vec<(GlobalId, SourceTracker)>)| (p.0, sources_model(p.1@)),
        )
    }

    /// The mathematical reading of the state.
    pub open spec fn model(self) -> DemuxModel {
        DemuxModel {
            active: assoc_map(self.active_pairs()),
            peeks: assoc_map(self.peeks@),
            trackers: assoc_map(self.tracker_pairs()),
        }
    }

    /// Well-formedness: distinct keys throughout, well-formed histograms,
    /// and tracker entries only for active dataflows.
    pub open spec fn wf(self) -> bool {
        &&& assoc_unique(self.active@)
        &&& assoc_unique(self.peeks@)
        &&& assoc_unique(self.trackers@)
        &&& forall|i: int|
            0 <= i < self.trackers@.len() ==> sources_wf((#[trigger] self.trackers@[i]).1@)
        &&& forall|i: int|
            0 <= i < self.trackers@.len() ==> self.model().active.contains_key(
                (#[trigger] self.trackers@[i]).0,
            )
    }

    /// All stashed arrival instants are at most `now`: events arrive in
    /// non-decreasing instant order, so the instant of the event being
    /// processed bounds everything stashed earlier.
    pub open spec fn bounded(self, now: u64) -> bool {
        &&& forall|i: int| 0 <= i < self.peeks@.len() ==> (#[trigger] self.peeks@[i]).1 <= now
        &&& forall|i: int|
            0 <= i < self.trackers@.len() ==> sources_bounded((#[trigger] self.trackers@[i]).1@, now)
    }

    /// An empty bookkeeping state.
    pub fn new() -> (r: DemuxState)
        ensures
            r.wf(),
            forall|now: u64| r.bounded(now),
            r.model().active =~= Map::<DataflowKey, Seq<(GlobalId, u64)>>::empty(),
            r.model().peeks =~= Map::<PeekKey, u64>::empty(),
            r.model().trackers =~= Map::<DataflowKey, Seq<SourceState>>::empty(),
    {
        let r = DemuxState { active: Vec::new(), peeks: Vec::new(), trackers: Vec::new() };
        proof {
            assert(r.active_pairs() =~= Seq::<(DataflowKey, Seq<(GlobalId, u64)>)>::empty());
            assert(r.tracker_pairs() =~= Seq::<(DataflowKey, Seq<SourceState>)>::empty());
        }
        r
    }
}

/// A mutable borrow of one vector element.
fn vec_at_mut<T>(v: &mut Vec<T>, i: usize) -> (e: &mut T)
    requires
        i < old(v).len(),
    ensures
        *e == old(v)@[i as int],
        final(v)@ == old(v)@.update(i as int, *final(e)),
{
    &mut v[i]
}

/// Find the entry with the given key in the active-dataflow index.
fn find_active(v: &Vec<(DataflowKey, Vec<(GlobalId, u64)>)>, k: DataflowKey) -> (r: Option<usize>)
    ensures
        match r {
            Some(i) => i < v@.len() && v@[i as int].0 == k,
            None => !assoc_has(v@, k),
        },
{
    let mut i: usize = 0;
    while i < v.len()
        invariant
            i <= v@.len(),
            forall|j: int| 0 <= j < i ==> (#[trigger] v@[j]).0 != k,
        decreases v@.len() - i,
    {
        if v[i].0 == k {
            return Some(i);
        }
        i = i + 1;
    }
    None
}

/// Find the entry with the given key in the peek stash.
fn find_peek(v: &Vec<(PeekKey, u64)>, k: PeekKey) -> (r: Option<usize>)
    ensures
        match r {
            Some(i) => i < v@.len() && v@[i as int].0 == k,
            None => !assoc_has(v@, k),
        },
{
    let mut i: usize = 0;
    while i < v.len()
        invariant
            i <= v@.len(),
            forall|j: int| 0 <= j < i ==> (#[trigger] v@[j]).0 != k,
        decreases v@.len() - i,
    {
        if v[i].0 == k {
            return Some(i);
        }
        i = i + 1;
    }
    None
}

/// Find the entry with the given key in the source-frontier tracker.
fn find_tracker(v: &Vec<(DataflowKey, Vec<(GlobalId, SourceTracker)>)>, k: DataflowKey) -> (r:
    Option<usize>)
    ensures
        match r {
            Some(i) => i < v@.len() && v@[i as int].0 == k,
            None => !assoc_has(v@, k),
        },
{
    let mut i: usize = 0;
    while i < v.len()
        invariant
            i <= v@.len(),
            forall|j: int| 0 <= j < i ==> (#[trigger] v@[j]).0 != k,
        decreases v@.len() - i,
    {
        if v[i].0 == k {
            return Some(i);
        }
        i = i + 1;
    }
    None
}

/// Find the entry for the given source in a tracker entry's source list.
fn find_source(v: &Vec<(GlobalId, SourceTracker)>, s: GlobalId) -> (r: Option<usize>)
    ensures
        match r {
            Some(i) => i < v@.len() && v@[i as int].0 == s,
            None => !assoc_has(v@, s),
        },
{
    let mut i: usize = 0;
    while i < v.len()
        invariant
            i <= v@.len(),
            forall|j: int| 0 <= j < i ==> (#[trigger] v@[j]).0 != s,
        decreases v@.len() - i,
    {
        if v[i].0 == s {
            return Some(i);
        }
        i = i + 1;
    }
    None
}

/// The dependency retractions emitted when a dataflow with the given
/// recorded edges is dropped: one `-1` update per edge, in recording order.
pub open spec fn dep_retractions(
    dataflow: GlobalId,
    deps: Seq<(GlobalId, u64)>,
    t: u64,
) -> Seq<Update<DependencyRow>> {
    Seq::new(
        deps.len(),
        |j: int|
            Update {
                row: DependencyRow { dataflow, source: deps[j].0, worker: deps[j].1 },
                time_ms: t,
                diff: -1i64,
            },
    )
}

/// The delay-histogram retractions for one source: one update per bucket
/// with the negated count, in bucket-recording order.
pub open spec fn hist_retractions(
    dataflow: GlobalId,
    source: GlobalId,
    worker: u64,
    h: Seq<(u64, i64)>,
    t: u64,
) -> Seq<Update<FrontierDelayRow>> {
    Seq::new(
        h.len(),
        |j: int|
            Update {
                row: FrontierDelayRow { dataflow, source, worker, delay_pow_ns: h[j].0 },
                time_ms: t,
                diff: (-(h[j].1 as int)) as i64,
            },
    )
}

/// The delay-histogram retractions for a whole tracker entry, sources in
/// stored order.
pub open spec fn all_hist_retractions(
    dataflow: GlobalId,
    worker: u64,
    ss: Seq<(GlobalId, SourceTracker)>,
    t: u64,
) -> Seq<Update<FrontierDelayRow>>
    decreases ss.len(),
{
    if ss.len() == 0 {
        Seq::empty()
    } else {
        all_hist_retractions(dataflow, worker, ss.drop_last(), t) + hist_retractions(
            dataflow,
            ss.last().0,
            worker,
            ss.last().1.histogram@,
            t,
        )
    }
}

/// Uniqueness of keys transfers between a pair sequence and another with the
/// same keys in the same order.
pub proof fn lemma_assoc_unique_lift<K, V, W>(raw: Seq<(K, V)>, mapped: Seq<(K, W)>)
    requires
        mapped.len() == raw.len(),
        forall|i: int| 0 <= i < raw.len() ==> (#[trigger] mapped[i]).0 == raw[i].0,
    ensures
        assoc_unique(raw) <==> assoc_unique(mapped),
{
    if assoc_unique(raw) {
        assert forall|i: int, j: int| 0 <= i < j < mapped.len() implies mapped[i].0
            != mapped[j].0 by {
            assert(mapped[i].0 == raw[i].0);
            assert(mapped[j].0 == raw[j].0);
        }
    }
    if assoc_unique(mapped) {
        assert forall|i: int, j: int| 0 <= i < j < raw.len() implies raw[i].0 != raw[j].0 by {
            assert(mapped[i].0 == raw[i].0);
            assert(mapped[j].0 == raw[j].0);
        }
    }
}

/// Key membership transfers between a pair sequence and another with the
/// same keys in the same order.
pub proof fn lemma_assoc_has_lift<K, V, W>(raw: Seq<(K, V)>, mapped: Seq<(K, W)>, k: K)
    requires
        mapped.len() == raw.len(),
        forall|i: int| 0 <= i < raw.len() ==> (#[trigger] mapped[i]).0 == raw[i].0,
    ensures
        assoc_has(raw, k) <==> assoc_has(mapped, k),
{
    if assoc_has(raw, k) {
        let i = assoc_index(raw, k);
        assert(mapped[i].0 == k);
    }
    if assoc_has(mapped, k) {
        let i = assoc_index(mapped, k);
        assert(raw[i].0 == k);
    }
}

impl DemuxState {
    /// Handle a dataflow lifecycle event.
    ///
    /// On create, the dataflow is inserted into the active index with an
    /// empty dependency list and one `+1` update is emitted into
    /// DataflowCurrent. On drop, one `-1` update is emitted; every recorded
    /// dependency edge is retracted and the entry removed (a missing entry is
    /// a non-fatal inconsistency); and the matching tracker entry, if any, is
    /// removed with every accumulated histogram bucket retracted.
    pub fn handle_dataflow(&mut self, t: u64, worker: u64, id: GlobalId, is_create: bool) -> (out:
        DemuxOutput)
        requires
            old(self).wf(),
        ensures
            final(self).wf(),
            forall|now: u64| old(self).bounded(now) ==> final(self).bounded(now),
            final(self).model().peeks == old(self).model().peeks,
            out.dataflow@ == seq![
                Update {
                    row: DataflowRow { dataflow: id, worker },
                    time_ms: t,
                    diff: (if is_create { 1int } else { -1int }) as i64,
                },
            ],
            is_create ==> {
                &&& final(self).model().active == old(self).model().active.insert(
                    DataflowKey { dataflow: id, worker },
                    Seq::<(GlobalId, u64)>::empty(),
                )
                &&& final(self).model().trackers == old(self).model().trackers
                &&& out.dependency@ == Seq::<Update<DependencyRow>>::empty()
                &&& out.frontier_delay@ == Seq::<Update<FrontierDelayRow>>::empty()
                &&& out.notices@ == Seq::<Notice>::empty()
            },
            !is_create ==> {
                &&& final(self).model().active == old(self).model().active.remove(
                    DataflowKey { dataflow: id, worker },
                )
                &&& final(self).model().trackers == old(self).model().trackers.remove(
                    DataflowKey { dataflow: id, worker },
                )
                &&& out.dependency@ == (if old(self).model().active.contains_key(
                    DataflowKey { dataflow: id, worker },
                ) {
                    dep_retractions(
                        id,
                        old(self).model().active[DataflowKey { dataflow: id, worker }],
                        t,
                    )
                } else {
                    Seq::<Update<DependencyRow>>::empty()
                })
                &&& out.frontier_delay@ == (if assoc_has(
                    old(self).trackers@,
                    DataflowKey { dataflow: id, worker },
                ) {
                    all_hist_retractions(
                        id,
                        worker,
                        old(self).trackers@[assoc_index(
                            old(self).trackers@,
                            DataflowKey { dataflow: id, worker },
                        )].1@,
                        t,
                    )
                } else {
                    Seq::<Update<FrontierDelayRow>>::empty()
                })
                &&& out.notices@ == (if old(self).model().active.contains_key(
                    DataflowKey { dataflow: id, worker },
                ) {
                    Seq::<Notice>::empty()
                } else {
                    seq![Notice::DropOfUnknownDataflow { dataflow: id, worker }]
                })
            },
            out.frontier@ == Seq::<Update<FrontierRow>>::empty(),
            out.source_frontier@ == Seq::<Update<SourceFrontierRow>>::empty(),
            out.peek@ == Seq::<Update<PeekRow>>::empty(),
            out.peek_duration@ == Seq::<Update<PeekDurationRow>>::empty(),
    {
        let mut out = DemuxOutput::empty();
        let k = DataflowKey { dataflow: id, worker };
        if is_create {
            out.dataflow.push(
                Update { row: DataflowRow { dataflow: id, worker }, time_ms: t, diff: 1 },
            );
            let ghost pairs0 = self.active_pairs();
            match find_active(&self.active, k) {
                Some(i) => {
                    let ghost raw0 = self.active@;
                    let e = vec_at_mut(&mut self.active, i);
                    e.1 = Vec::new();
                    proof {
                        assert(self.active@[i as int].0 == k);
                        assert(self.active_pairs() =~= pairs0.update(
                            i as int,
                            (k, Seq::<(GlobalId, u64)>::empty()),
                        ));
                        lemma_assoc_unique_lift(raw0, pairs0);
                        assert(pairs0[i as int].0 == k);
                        lemma_assoc_update(pairs0, i as int, Seq::<(GlobalId, u64)>::empty());
                        assert forall|x: int| 0 <= x < self.active@.len() implies (
                        #[trigger] self.active@[x]).0 == raw0[x].0 by {}
                        lemma_assoc_unique_lift(self.active@, raw0);
                    }
                },
                None => {
                    let ghost raw0 = self.active@;
                    self.active.push((k, Vec::new()));
                    proof {
                        assert(self.active_pairs() =~= pairs0.push(
                            (k, Seq::<(GlobalId, u64)>::empty()),
                        ));
                        lemma_assoc_unique_lift(raw0, pairs0);
                        lemma_assoc_has_lift(raw0, pairs0, k);
                        lemma_assoc_push(pairs0, k, Seq::<(GlobalId, u64)>::empty());
                        assert(self.active@ =~= raw0.push(self.active@.last()));
                        assert(self.active@.last().0 == k);
                        lemma_assoc_push(raw0, k, self.active@.last().1);
                    }
                },
            }
            proof {
                assert forall|i: int| 0 <= i < self.trackers@.len() implies self
                    .model()
                    .active
                    .contains_key((#[trigger] self.trackers@[i]).0) by {
                    assert(old(self).model().active.contains_key(self.trackers@[i].0));
                }
            }
        } else {
            out.dataflow.push(
                Update { row: DataflowRow { dataflow: id, worker }, time_ms: t, diff: -1 },
            );
            match find_active(&self.active, k) {
                Some(i) => {
                    let ghost pairs0 = self.active_pairs();
                    let ghost raw0 = self.active@;
                    let ghost deps = self.active@[i as int].1@;
                    let deps_len = self.active[i].1.len();
                    let mut j: usize = 0;
                    while j < deps_len
                        invariant
                            i < self.active@.len(),
                            deps == self.active@[i as int].1@,
                            deps_len == deps.len(),
                            self.active@[i as int].0 == k,
                            j <= deps_len,
                            out.dependency@ =~= dep_retractions(id, deps, t).take(j as int),
                            out.dataflow@.len() == 1,
                            out.frontier@.len() == 0,
                            out.source_frontier@.len() == 0,
                            out.frontier_delay@.len() == 0,
                            out.peek@.len() == 0,
                            out.peek_duration@.len() == 0,
                            out.notices@.len() == 0,
                            out.dataflow@[0] == (Update {
                                row: DataflowRow { dataflow: id, worker },
                                time_ms: t,
                                diff: -1int as i64,
                            }),
                        decreases deps_len - j,
                    {
                        let dep = self.active[i].1[j];
                        out.dependency.push(
                            Update {
                                row: DependencyRow { dataflow: id, source: dep.0, worker: dep.1 },
                                time_ms: t,
                                diff: -1,
                            },
                        );
                        j = j + 1;
                        proof {
                            assert(out.dependency@ =~= dep_retractions(id, deps, t).take(j as int));
                        }
                    }
                    proof {
                        assert(dep_retractions(id, deps, t).take(deps_len as int)
                            =~= dep_retractions(id, deps, t));
                        lemma_assoc_unique_lift(raw0, pairs0);
                        lemma_assoc_at(pairs0, i as int);
                        lemma_assoc_remove(pairs0, i as int);
                        lemma_assoc_remove(raw0, i as int);
                    }
                    self.active.remove(i);
                    proof {
                        assert(self.active@ =~= raw0.remove(i as int));
                        assert(self.active_pairs() =~= pairs0.remove(i as int));
                    }
                },
                None => {
                    out.notices.push(Notice::DropOfUnknownDataflow { dataflow: id, worker });
                    proof {
                        lemma_assoc_unique_lift(self.active@, self.active_pairs());
                        lemma_assoc_has_lift(self.active@, self.active_pairs(), k);
                        lemma_assoc_absent(self.active_pairs(), k);
                        assert(self.model().active =~= self.model().active.remove(k));
                    }
                },
            }
            let ghost active1 = self.active@;
            let ghost dep1 = out.dependency@;
            let ghost not1 = out.notices@;
            match find_tracker(&self.trackers, k) {
                Some(i) => {
                    let ghost tpairs0 = self.tracker_pairs();
                    let ghost trackers0 = self.trackers@;
                    let ghost sources0 = self.trackers@[i as int].1@;
                    let sources_len = self.trackers[i].1.len();
                    proof {
                        assert(sources_wf(sources0));
                    }
                    let mut j: usize = 0;
                    while j < sources_len
                        invariant
                            i < self.trackers@.len(),
                            self.trackers@ == trackers0,
                            sources0 == self.trackers@[i as int].1@,
                            sources_len == sources0.len(),
                            sources_wf(sources0),
                            j <= sources_len,
                            out.frontier_delay@ =~= all_hist_retractions(
                                id,
                                worker,
                                sources0.take(j as int),
                                t,
                            ),
                            out.dataflow@.len() == 1,
                            out.dataflow@[0] == (Update {
                                row: DataflowRow { dataflow: id, worker },
                                time_ms: t,
                                diff: -1int as i64,
                            }),
                            out.dependency@ == dep1,
                            out.notices@ == not1,
                            out.frontier@.len() == 0,
                            out.source_frontier@.len() == 0,
                            out.peek@.len() == 0,
                            out.peek_duration@.len() == 0,
                        decreases sources_len - j,
                    {
                        let source_id = self.trackers[i].1[j].0;
                        let ghost hist = self.trackers@[i as int].1@[j as int].1.histogram@;
                        let ghost base_j = out.frontier_delay@;
                        let hist_len = self.trackers[i].1[j].1.histogram.len();
                        proof {
                            assert(hist_wf(hist));
                        }
                        let mut h: usize = 0;
                        while h < hist_len
                            invariant
                                i < self.trackers@.len(),
                                j < self.trackers@[i as int].1@.len(),
                                self.trackers@ == trackers0,
                                sources0 == self.trackers@[i as int].1@,
                                hist == self.trackers@[i as int].1@[j as int].1.histogram@,
                                hist_wf(hist),
                                hist_len == hist.len(),
                                h <= hist_len,
                                source_id == sources0[j as int].0,
                                out.frontier_delay@ =~= base_j + hist_retractions(
                                    id,
                                    source_id,
                                    worker,
                                    hist,
                                    t,
                                ).take(h as int),
                                out.dataflow@.len() == 1,
                                out.dataflow@[0] == (Update {
                                    row: DataflowRow { dataflow: id, worker },
                                    time_ms: t,
                                    diff: -1int as i64,
                                }),
                                out.dependency@ == dep1,
                                out.notices@ == not1,
                                out.frontier@.len() == 0,
                                out.source_frontier@.len() == 0,
                                out.peek@.len() == 0,
                                out.peek_duration@.len() == 0,
                            decreases hist_len - h,
                        {
                            let entry = self.trackers[i].1[j].1.histogram[h];
                            out.frontier_delay.push(
                                Update {
                                    row: FrontierDelayRow {
                                        dataflow: id,
                                        source: source_id,
                                        worker,
                                        delay_pow_ns: entry.0,
                                    },
                                    time_ms: t,
                                    diff: -entry.1,
                                },
                            );
                            h = h + 1;
                            proof {
                                assert(out.frontier_delay@ =~= base_j + hist_retractions(
                                    id,
                                    source_id,
                                    worker,
                                    hist,
                                    t,
                                ).take(h as int));
                            }
                        }
                        j = j + 1;
                        proof {
                            assert(hist_retractions(id, source_id, worker, hist, t).take(
                                hist_len as int,
                            ) =~= hist_retractions(id, source_id, worker, hist, t));
                            assert(sources0.take(j as int).drop_last() =~= sources0.take(
                                j as int - 1,
                            ));
                            assert(sources0.take(j as int).last() == sources0[j as int - 1]);
                            assert(out.frontier_delay@ =~= all_hist_retractions(
                                id,
                                worker,
                                sources0.take(j as int),
                                t,
                            ));
                        }
                    }
                    proof {
                        assert(sources0.take(sources_len as int) =~= sources0);
                        lemma_assoc_at(trackers0, i as int);
                        lemma_assoc_unique_lift(trackers0, tpairs0);
                        assert(tpairs0[i as int].0 == k);
                        lemma_assoc_at(tpairs0, i as int);
                        lemma_assoc_remove(tpairs0, i as int);
                        lemma_assoc_remove(trackers0, i as int);
                    }
                    self.trackers.remove(i);
                    proof {
                        assert(self.trackers@ =~= trackers0.remove(i as int));
                        assert(self.tracker_pairs() =~= tpairs0.remove(i as int));
                        assert(self.model().active =~= old(self).model().active.remove(k));
                        assert forall|x: int| 0 <= x < self.trackers@.len() implies sources_wf(
                            (#[trigger] self.trackers@[x]).1@,
                        ) && self.model().active.contains_key(self.trackers@[x].0) by {
                            let y: int = if x < i as int {
                                x
                            } else {
                                x + 1
                            };
                            assert(self.trackers@[x] == trackers0[y]);
                            assert(sources_wf(old(self).trackers@[y].1@));
                            assert(old(self).model().active.contains_key(old(self).trackers@[y].0));
                            assert(y != i as int);
                            assert(trackers0[y].0 != k);
                        }
                        assert forall|now: u64| old(self).bounded(now) implies self.bounded(
                            now,
                        ) by {
                            assert forall|x: int|
                                0 <= x < self.trackers@.len() implies sources_bounded(
                                (#[trigger] self.trackers@[x]).1@,
                                now,
                            ) by {
                                let y: int = if x < i as int {
                                    x
                                } else {
                                    x + 1
                                };
                                assert(self.trackers@[x] == trackers0[y]);
                                assert(sources_bounded(old(self).trackers@[y].1@, now));
                            }
                        }
                    }
                },
                None => {
                    proof {
                        lemma_assoc_unique_lift(self.trackers@, self.tracker_pairs());
                        lemma_assoc_has_lift(self.trackers@, self.tracker_pairs(), k);
                        lemma_assoc_absent(self.tracker_pairs(), k);
                        assert(self.model().trackers =~= self.model().trackers.remove(k));
                        assert(self.model().active =~= old(self).model().active.remove(k));
                        assert forall|x: int| 0 <= x < self.trackers@.len() implies self
                            .model()
                            .active
                            .contains_key((#[trigger] self.trackers@[x]).0) by {
                            assert(old(self).model().active.contains_key(self.trackers@[x].0));
                            assert(self.trackers@[x].0 != k);
                        }
                    }
                },
            }
        }
        out
    }
}

impl DemuxState {
    /// Handle a dependency event: a dataflow depends on a source.
    ///
    /// If the owning dataflow is active, the edge is appended to its
    /// dependency list and one `+1` update is emitted into
    /// DataflowDependency; otherwise the event is dropped with a non-fatal
    /// inconsistency notice.
    pub fn handle_dependency(&mut self, t: u64, worker: u64, dataflow: GlobalId, source: GlobalId)
        -> (out: DemuxOutput)
        requires
            old(self).wf(),
        ensures
            final(self).wf(),
            forall|now: u64| old(self).bounded(now) ==> final(self).bounded(now),
            final(self).model().peeks == old(self).model().peeks,
            final(self).model().trackers == old(self).model().trackers,
            old(self).model().active.contains_key(DataflowKey { dataflow, worker }) ==> {
                &&& final(self).model().active == old(self).model().active.insert(
                    DataflowKey { dataflow, worker },
                    old(self).model().active[DataflowKey { dataflow, worker }].push(
                        (source, worker),
                    ),
                )
                &&& out.dependency@ == seq![
                    Update {
                        row: DependencyRow { dataflow, source, worker },
                        time_ms: t,
                        diff: 1i64,
                    },
                ]
                &&& out.notices@ == Seq::<Notice>::empty()
            },
            !old(self).model().active.contains_key(DataflowKey { dataflow, worker }) ==> {
                &&& final(self).model().active == old(self).model().active
                &&& out.dependency@ == Seq::<Update<DependencyRow>>::empty()
                &&& out.notices@ == seq![
                    Notice::DependencyForInactiveDataflow { dataflow, source, worker },
                ]
            },
            out.dataflow@ == Seq::<Update<DataflowRow>>::empty(),
            out.frontier@ == Seq::<Update<FrontierRow>>::empty(),
            out.source_frontier@ == Seq::<Update<SourceFrontierRow>>::empty(),
            out.frontier_delay@ == Seq::<Update<FrontierDelayRow>>::empty(),
            out.peek@ == Seq::<Update<PeekRow>>::empty(),
            out.peek_duration@ == Seq::<Update<PeekDurationRow>>::empty(),
    {
        let mut out = DemuxOutput::empty();
        let k = DataflowKey { dataflow, worker };
        let ghost pairs0 = self.active_pairs();
        let ghost raw0 = self.active@;
        match find_active(&self.active, k) {
            Some(i) => {
                out.dependency.push(
                    Update { row: DependencyRow { dataflow, source, worker }, time_ms: t, diff: 1 },
                );
                let ghost deps0 = self.active@[i as int].1@;
                let e = vec_at_mut(&mut self.active, i);
                e.1.push((source, worker));
                proof {
                    assert(self.active@[i as int].0 == k);
                    assert(self.active@[i as int].1@ =~= deps0.push((source, worker)));
                    assert(self.active_pairs() =~= pairs0.update(
                        i as int,
                        (k, deps0.push((source, worker))),
                    ));
                    lemma_assoc_unique_lift(raw0, pairs0);
                    assert(pairs0[i as int].0 == k);
                    lemma_assoc_at(pairs0, i as int);
                    lemma_assoc_update(pairs0, i as int, deps0.push((source, worker)));
                    assert forall|x: int| 0 <= x < self.active@.len() implies (
                    #[trigger] self.active@[x]).0 == raw0[x].0 by {}
                    lemma_assoc_unique_lift(self.active@, raw0);
                    assert forall|x: int| 0 <= x < self.trackers@.len() implies self
                        .model()
                        .active
                        .contains_key((#[trigger] self.trackers@[x]).0) by {
                        assert(old(self).model().active.contains_key(self.trackers@[x].0));
                    }
                }
            },
            None => {
                out.notices.push(Notice::DependencyForInactiveDataflow { dataflow, source, worker });
                proof {
                    lemma_assoc_unique_lift(raw0, pairs0);
                    lemma_assoc_has_lift(raw0, pairs0, k);
                    lemma_assoc_absent(pairs0, k);
                }
            },
        }
        out
    }

    /// Handle a peek event.
    ///
    /// An install emits `+1` into PeekCurrent and stores the install instant
    /// (overwriting a stashed one, which is reported as a non-fatal
    /// inconsistency: the overwrite-and-continue behaviour is the documented
    /// decision here). A retire emits `-1`; if a matching install is stashed
    /// it is removed and the elapsed time, rounded to the next power of two
    /// nanoseconds, is emitted as `+1` into PeekDuration; otherwise a notice
    /// is reported and nothing further is emitted.
    pub fn handle_peek(&mut self, t: u64, now_ns: u64, worker: u64, peek: Peek, is_install: bool)
        -> (r: Result<DemuxOutput, FatalError>)
        requires
            old(self).wf(),
            old(self).bounded(now_ns),
        ensures
            match r {
                Ok(out) => {
                    &&& final(self).wf()
                    &&& final(self).bounded(now_ns)
                    &&& final(self).model().active == old(self).model().active
                    &&& final(self).model().trackers == old(self).model().trackers
                    &&& out.peek@ == seq![
                        Update {
                            row: PeekRow { peek, worker },
                            time_ms: t,
                            diff: (if is_install { 1int } else { -1int }) as i64,
                        },
                    ]
                    &&& is_install ==> {
                        &&& final(self).model().peeks == old(self).model().peeks.insert(
                            PeekKey { worker, uuid: peek.uuid },
                            now_ns,
                        )
                        &&& out.peek_duration@ == Seq::<Update<PeekDurationRow>>::empty()
                        &&& out.notices@ == (if old(self).model().peeks.contains_key(
                            PeekKey { worker, uuid: peek.uuid },
                        ) {
                            seq![Notice::DuplicatePeekInstall { worker, uuid: peek.uuid }]
                        } else {
                            Seq::<Notice>::empty()
                        })
                    }
                    &&& !is_install ==> {
                        &&& final(self).model().peeks == old(self).model().peeks.remove(
                            PeekKey { worker, uuid: peek.uuid },
                        )
                        &&& old(self).model().peeks.contains_key(
                            PeekKey { worker, uuid: peek.uuid },
                        ) ==> {
                            &&& out.peek_duration@ == seq![
                                Update {
                                    row: PeekDurationRow {
                                        worker,
                                        delay_pow_ns: spec_pow2_round(
                                            now_ns - old(self).model().peeks[
                                                PeekKey { worker, uuid: peek.uuid }
                                            ],
                                        ) as u64,
                                    },
                                    time_ms: t,
                                    diff: 1i64,
                                },
                            ]
                            &&& out.notices@ == Seq::<Notice>::empty()
                        }
                        &&& !old(self).model().peeks.contains_key(
                            PeekKey { worker, uuid: peek.uuid },
                        ) ==> {
                            &&& out.peek_duration@ == Seq::<Update<PeekDurationRow>>::empty()
                            &&& out.notices@ == seq![
                                Notice::RetireWithoutInstall { worker, uuid: peek.uuid },
                            ]
                        }
                    }
                    &&& out.dataflow@ == Seq::<Update<DataflowRow>>::empty()
                    &&& out.dependency@ == Seq::<Update<DependencyRow>>::empty()
                    &&& out.frontier@ == Seq::<Update<FrontierRow>>::empty()
                    &&& out.source_frontier@ == Seq::<Update<SourceFrontierRow>>::empty()
                    &&& out.frontier_delay@ == Seq::<Update<FrontierDelayRow>>::empty()
                },
                Err(e) => {
                    &&& *final(self) == *old(self)
                    &&& e == FatalError::DelayOverflow
                    &&& !is_install
                    &&& old(self).model().peeks.contains_key(PeekKey { worker, uuid: peek.uuid })
                    &&& now_ns - old(self).model().peeks[PeekKey { worker, uuid: peek.uuid }]
                        > 0x8000_0000_0000_0000u64
                },
            },
            is_install ==> r is Ok,
    {
        let mut out = DemuxOutput::empty();
        let pk = PeekKey { worker, uuid: peek.uuid };
        let ghost peeks0 = self.peeks@;
        if is_install {
            out.peek.push(Update { row: PeekRow { peek, worker }, time_ms: t, diff: 1 });
            match find_peek(&self.peeks, pk) {
                Some(i) => {
                    out.notices.push(Notice::DuplicatePeekInstall { worker, uuid: peek.uuid });
                    let e = vec_at_mut(&mut self.peeks, i);
                    e.1 = now_ns;
                    proof {
                        assert(self.peeks@ =~= peeks0.update(i as int, (pk, now_ns)));
                        assert(peeks0[i as int].0 == pk);
                        lemma_assoc_at(peeks0, i as int);
                        lemma_assoc_update(peeks0, i as int, now_ns);
                        assert forall|x: int| 0 <= x < self.peeks@.len() implies (
                        #[trigger] self.peeks@[x]).0 == peeks0[x].0 by {}
                        lemma_assoc_unique_lift(self.peeks@, peeks0);
                    }
                },
                None => {
                    self.peeks.push((pk, now_ns));
                    proof {
                        assert(self.peeks@ =~= peeks0.push((pk, now_ns)));
                        lemma_assoc_push(peeks0, pk, now_ns);
                        lemma_assoc_absent(peeks0, pk);
                    }
                },
            }
            Ok(out)
        } else {
            out.peek.push(Update { row: PeekRow { peek, worker }, time_ms: t, diff: -1 });
            match find_peek(&self.peeks, pk) {
                Some(i) => {
                    let start = self.peeks[i].1;
                    proof {
                        assert(peeks0[i as int] == (pk, start));
                        lemma_assoc_at(peeks0, i as int);
                    }
                    let elapsed = now_ns - start;
                    match crate::time::next_power_of_two(elapsed) {
                        None => {
                            return Err(FatalError::DelayOverflow);
                        },
                        Some(delay) => {
                            out.peek_duration.push(
                                Update {
                                    row: PeekDurationRow { worker, delay_pow_ns: delay },
                                    time_ms: t,
                                    diff: 1,
                                },
                            );
                            self.peeks.remove(i);
                            proof {
                                assert(self.peeks@ =~= peeks0.remove(i as int));
                                lemma_assoc_remove(peeks0, i as int);
                            }
                            Ok(out)
                        },
                    }
                },
                None => {
                    out.notices.push(Notice::RetireWithoutInstall { worker, uuid: peek.uuid });
                    proof {
                        lemma_assoc_absent(peeks0, pk);
                        assert(self.model().peeks =~= self.model().peeks.remove(pk));
                    }
                    Ok(out)
                },
            }
        }
    }
}


/// Whether some tracked source in the sequence carries the identifier.
pub open spec fn src_has(ss: Seq<SourceState>, s: GlobalId) -> bool {
    exists|j: int| 0 <= j < ss.len() && ss[j].source == s
}

/// The index of the tracked source carrying the identifier.
pub open spec fn src_index(ss: Seq<SourceState>, s: GlobalId) -> int {
    choose|j: int| 0 <= j < ss.len() && ss[j].source == s
}

/// A tracker entry's source list after recording one source-frontier
/// advancement: the pair `(logical, now)` is appended to the source's queue,
/// creating the source entry on demand.
pub open spec fn track_source(
    ss: Seq<SourceState>,
    source: GlobalId,
    logical: u64,
    now: u64,
) -> Seq<SourceState> {
    if src_has(ss, source) {
        let j = src_index(ss, source);
        ss.update(
            j,
            SourceState {
                source,
                queue: ss[j].queue.push((logical, now)),
                histogram: ss[j].histogram,
            },
        )
    } else {
        ss.push(
            SourceState { source, queue: seq![(logical, now)], histogram: Map::<u64, int>::empty() },
        )
    }
}

impl DemuxState {
    /// Handle a source-frontier event.
    ///
    /// The update is always emitted into SourceFrontierCurrent with the
    /// given delta. On an advancement (positive delta) whose owning dataflow
    /// is active, the pair `(logical, now)` is queued under that source,
    /// creating tracker entries on demand; otherwise the bookkeeping is left
    /// untouched, so no state leaks for a dataflow whose bookkeeping already
    /// completed.
    pub fn handle_source_frontier(
        &mut self,
        t: u64,
        now_ns: u64,
        worker: u64,
        dataflow: GlobalId,
        source: GlobalId,
        logical: u64,
        delta: i8,
    ) -> (out: DemuxOutput)
        requires
            old(self).wf(),
            old(self).bounded(now_ns),
        ensures
            final(self).wf(),
            final(self).bounded(now_ns),
            final(self).model().active == old(self).model().active,
            final(self).model().peeks == old(self).model().peeks,
            out.source_frontier@ == seq![
                Update {
                    row: SourceFrontierRow { dataflow, source, worker, logical_time: logical },
                    time_ms: t,
                    diff: delta as i64,
                },
            ],
            delta > 0 && old(self).model().active.contains_key(DataflowKey { dataflow, worker })
                ==> final(self).model().trackers == old(self).model().trackers.insert(
                DataflowKey { dataflow, worker },
                track_source(
                    if old(self).model().trackers.contains_key(DataflowKey { dataflow, worker }) {
                        old(self).model().trackers[DataflowKey { dataflow, worker }]
                    } else {
                        Seq::<SourceState>::empty()
                    },
                    source,
                    logical,
                    now_ns,
                ),
            ),
            !(delta > 0 && old(self).model().active.contains_key(DataflowKey { dataflow, worker }))
                ==> final(self).model().trackers == old(self).model().trackers,
            out.dataflow@ == Seq::<Update<DataflowRow>>::empty(),
            out.dependency@ == Seq::<Update<DependencyRow>>::empty(),
            out.frontier@ == Seq::<Update<FrontierRow>>::empty(),
            out.frontier_delay@ == Seq::<Update<FrontierDelayRow>>::empty(),
            out.peek@ == Seq::<Update<PeekRow>>::empty(),
            out.peek_duration@ == Seq::<Update<PeekDurationRow>>::empty(),
            out.notices@ == Seq::<Notice>::empty(),
    {
        let mut out = DemuxOutput::empty();
        out.source_frontier.push(
            Update {
                row: SourceFrontierRow { dataflow, source, worker, logical_time: logical },
                time_ms: t,
                diff: delta as i64,
            },
        );
        if delta > 0 {
            let k = DataflowKey { dataflow, worker };
            let active_now = match find_active(&self.active, k) {
                Some(_) => true,
                None => false,
            };
            proof {
                lemma_assoc_unique_lift(self.active@, self.active_pairs());
                lemma_assoc_has_lift(self.active@, self.active_pairs(), k);
                if !active_now {
                    lemma_assoc_absent(self.active_pairs(), k);
                }
            }
            if active_now {
                let ghost trackers0 = self.trackers@;
                let ghost tpairs0 = self.tracker_pairs();
                match find_tracker(&self.trackers, k) {
                    None => {
                        let mut tracker = SourceTracker { queue: Vec::new(), histogram: Vec::new() };
                        tracker.queue.push((logical, now_ns));
                        let mut sources: Vec<(GlobalId, SourceTracker)> = Vec::new();
                        sources.push((source, tracker));
                        self.trackers.push((k, sources));
                        proof {
                            let ghost entry = self.trackers@.last();
                            assert(self.trackers@ =~= trackers0.push(entry));
                            lemma_assoc_has_lift(trackers0, tpairs0, k);
                            lemma_assoc_absent(tpairs0, k);
                            lemma_assoc_unique_lift(trackers0, tpairs0);
                            lemma_assoc_push(trackers0, k, entry.1);
                            assert(entry.1@.len() == 1);
                            assert(entry.1@[0].0 == source);
                            assert(entry.1@[0].1.histogram@.len() == 0);
                            assert(entry.1@[0].1.queue@ =~= seq![(logical, now_ns)]);
                            assert(hist_model(entry.1@[0].1.histogram@) =~= Map::<
                                u64,
                                int,
                            >::empty());
                            assert(!src_has(Seq::<SourceState>::empty(), source));
                            assert(sources_model(entry.1@) =~= track_source(
                                Seq::<SourceState>::empty(),
                                source,
                                logical,
                                now_ns,
                            ));
                            assert(self.tracker_pairs() =~= tpairs0.push(
                                (k, sources_model(entry.1@)),
                            ));
                            lemma_assoc_push(tpairs0, k, sources_model(entry.1@));
                            assert forall|x: int| 0 <= x < self.trackers@.len() implies sources_wf(
                                (#[trigger] self.trackers@[x]).1@,
                            ) && self.model().active.contains_key(self.trackers@[x].0)
                                && sources_bounded(self.trackers@[x].1@, now_ns) by {
                                if x < trackers0.len() {
                                    assert(self.trackers@[x] == trackers0[x]);
                                    assert(sources_wf(old(self).trackers@[x].1@));
                                    assert(sources_bounded(old(self).trackers@[x].1@, now_ns));
                                    assert(old(self).model().active.contains_key(trackers0[x].0));
                                } else {
                                    assert(self.trackers@[x] == entry);
                                }
                            }
                        }
                    },
                    Some(i) => {
                        let ghost sources0 = self.trackers@[i as int].1@;
                        let ghost smodel0 = sources_model(sources0);
                        proof {
                            lemma_assoc_at(trackers0, i as int);
                            lemma_assoc_unique_lift(trackers0, tpairs0);
                            assert(tpairs0[i as int].0 == k);
                            lemma_assoc_at(tpairs0, i as int);
                            assert(old(self).model().trackers[k] == smodel0);
                            assert(sources_wf(sources0));
                            assert(sources_bounded(sources0, now_ns));
                        }
                        let e = vec_at_mut(&mut self.trackers, i);
                        match find_source(&e.1, source) {
                            None => {
                                let mut tracker = SourceTracker {
                                    queue: Vec::new(),
                                    histogram: Vec::new(),
                                };
                                tracker.queue.push((logical, now_ns));
                                e.1.push((source, tracker));
                                proof {
                                    let ghost news = self.trackers@[i as int].1@;
                                    assert(news =~= sources0.push(news.last()));
                                    assert(news.last().0 == source);
                                    assert(self.trackers@[i as int].0 == k);
                                    assert(self.trackers@ =~= trackers0.update(
                                        i as int,
                                        (k, self.trackers@[i as int].1),
                                    ));
                                    assert forall|x: int|
                                        0 <= x < smodel0.len() implies #[trigger] smodel0[x].source
                                        == sources0[x].0 by {}
                                    assert(!src_has(smodel0, source));
                                    assert(news.last().1.queue@ =~= seq![(logical, now_ns)]);
                                    assert(hist_model(news.last().1.histogram@) =~= Map::<
                                        u64,
                                        int,
                                    >::empty());
                                    assert(sources_model(news) =~= smodel0.push(
                                        source_state(news.last()),
                                    ));
                                    assert(sources_model(news) =~= track_source(
                                        smodel0,
                                        source,
                                        logical,
                                        now_ns,
                                    ));
                                    assert(self.tracker_pairs() =~= tpairs0.update(
                                        i as int,
                                        (k, sources_model(news)),
                                    ));
                                    lemma_assoc_update(tpairs0, i as int, sources_model(news));
                                    lemma_assoc_push(sources0, source, news.last().1);
                                    assert forall|x: int|
                                        0 <= x < self.trackers@.len() implies sources_wf(
                                        (#[trigger] self.trackers@[x]).1@,
                                    ) && self.model().active.contains_key(self.trackers@[x].0)
                                        && sources_bounded(self.trackers@[x].1@, now_ns) by {
                                        assert(self.trackers@[x].0 == trackers0[x].0);
                                        assert(old(self).model().active.contains_key(
                                            trackers0[x].0,
                                        ));
                                        if x != i as int {
                                            assert(self.trackers@[x] == trackers0[x]);
                                            assert(sources_wf(old(self).trackers@[x].1@));
                                            assert(sources_bounded(
                                                old(self).trackers@[x].1@,
                                                now_ns,
                                            ));
                                        } else {
                                            assert forall|y: int|
                                                0 <= y < news.len() implies hist_wf(
                                                (#[trigger] news[y]).1.histogram@,
                                            ) && queue_bounded(news[y].1.queue@, now_ns) by {
                                                if y < sources0.len() {
                                                    assert(news[y] == sources0[y]);
                                                    assert(hist_wf(sources0[y].1.histogram@));
                                                    assert(queue_bounded(
                                                        sources0[y].1.queue@,
                                                        now_ns,
                                                    ));
                                                } else {
                                                    assert(news[y] == news.last());
                                                }
                                            }
                                        }
                                    }
                                    assert forall|x: int|
                                        0 <= x < self.trackers@.len() implies (
                                    #[trigger] self.trackers@[x]).0 == trackers0[x].0 by {}
                                    lemma_assoc_unique_lift(self.trackers@, trackers0);
                                }
                            },
                            Some(j) => {
                                let ghost st0 = e.1@[j as int];
                                let se = vec_at_mut(&mut e.1, j);
                                se.1.queue.push((logical, now_ns));
                                proof {
                                    let ghost news = self.trackers@[i as int].1@;
                                    let ghost newst = news[j as int];
                                    assert(newst.0 == source);
                                    assert(newst.1.queue@ =~= st0.1.queue@.push((logical, now_ns)));
                                    assert(newst.1.histogram@ == st0.1.histogram@);
                                    assert(news =~= sources0.update(j as int, newst));
                                    assert(self.trackers@[i as int].0 == k);
                                    assert(self.trackers@ =~= trackers0.update(
                                        i as int,
                                        (k, self.trackers@[i as int].1),
                                    ));
                                    assert forall|x: int|
                                        0 <= x < smodel0.len() implies #[trigger] smodel0[x].source
                                        == sources0[x].0 by {}
                                    assert(smodel0[j as int].source == source);
                                    assert(src_has(smodel0, source));
                                    let jj = src_index(smodel0, source);
                                    assert(smodel0[jj].source == source);
                                    if jj != j as int {
                                        assert(sources0[jj].0 == source);
                                        assert(sources0[j as int].0 == source);
                                        assert(false);
                                    }
                                    assert(sources_model(news) =~= track_source(
                                        smodel0,
                                        source,
                                        logical,
                                        now_ns,
                                    ));
                                    assert(self.tracker_pairs() =~= tpairs0.update(
                                        i as int,
                                        (k, sources_model(news)),
                                    ));
                                    lemma_assoc_update(tpairs0, i as int, sources_model(news));
                                    assert forall|x: int|
                                        0 <= x < self.trackers@.len() implies sources_wf(
                                        (#[trigger] self.trackers@[x]).1@,
                                    ) && self.model().active.contains_key(self.trackers@[x].0)
                                        && sources_bounded(self.trackers@[x].1@, now_ns) by {
                                        assert(self.trackers@[x].0 == trackers0[x].0);
                                        assert(old(self).model().active.contains_key(
                                            trackers0[x].0,
                                        ));
                                        if x != i as int {
                                            assert(self.trackers@[x] == trackers0[x]);
                                            assert(sources_wf(old(self).trackers@[x].1@));
                                            assert(sources_bounded(
                                                old(self).trackers@[x].1@,
                                                now_ns,
                                            ));
                                        } else {
                                            assert forall|y: int|
                                                0 <= y < news.len() implies hist_wf(
                                                (#[trigger] news[y]).1.histogram@,
                                            ) && queue_bounded(news[y].1.queue@, now_ns) by {
                                                assert(hist_wf(sources0[y].1.histogram@));
                                                assert(queue_bounded(sources0[y].1.queue@, now_ns));
                                                if y != j as int {
                                                    assert(news[y] == sources0[y]);
                                                }
                                            }
                                            assert forall|p: int, q: int|
                                                0 <= p < q < news.len() implies (
                                            #[trigger] news[p]).0 != (#[trigger] news[q]).0 by {
                                                assert(news[p].0 == sources0[p].0);
                                                assert(news[q].0 == sources0[q].0);
                                            }
                                        }
                                    }
                                    assert forall|x: int|
                                        0 <= x < self.trackers@.len() implies (
                                    #[trigger] self.trackers@[x]).0 == trackers0[x].0 by {}
                                    lemma_assoc_unique_lift(self.trackers@, trackers0);
                                }
                            },
                        }
                    },
                }
            }
        }
        out
    }
}

/// The number of leading queue entries whose logical time the frontier has
/// passed: the queue is in non-decreasing logical-time order in practice, and
/// popping deliberately stops at the first entry beyond the frontier.
pub open spec fn popped(q: Seq<(u64, u64)>, frontier: u64) -> int
    decreases q.len(),
{
    if q.len() == 0 {
        0
    } else if q[0].0 > frontier {
        0
    } else {
        1 + popped(q.drop_first(), frontier)
    }
}

/// The popped prefix is exactly the entries before the first one beyond the
/// frontier.
proof fn lemma_popped_char(q: Seq<(u64, u64)>, f: u64, n: int)
    requires
        0 <= n <= q.len(),
        forall|i: int| 0 <= i < n ==> (#[trigger] q[i]).0 <= f,
        n == q.len() || q[n].0 > f,
    ensures
        popped(q, f) == n,
    decreases q.len(),
{
    if n == 0 {
    } else {
        assert(q[0].0 <= f);
        let q2 = q.drop_first();
        assert forall|i: int| 0 <= i < n - 1 implies (#[trigger] q2[i]).0 <= f by {
            assert(q2[i] == q[i + 1]);
        }
        if n - 1 < q2.len() {
            assert(q2[n - 1] == q[n]);
        }
        lemma_popped_char(q2, f, n - 1);
    }
}

/// The delay bucket of the queue entry at an index: the elapsed time from
/// its arrival to `now`, rounded up to the next power of two nanoseconds.
pub open spec fn delay_at(q: Seq<(u64, u64)>, i: int, now: u64) -> int {
    spec_pow2_round(now - q[i].1)
}

/// A histogram after one more count of the given bucket.
pub open spec fn spec_bump(h: Map<u64, int>, d: u64) -> Map<u64, int> {
    h.insert(
        d,
        (if h.contains_key(d) {
            h[d]
        } else {
            0
        }) + 1,
    )
}

/// A histogram after counting the delays of the first `n` queue entries, in
/// order.
pub open spec fn hist_after(h: Map<u64, int>, q: Seq<(u64, u64)>, n: int, now: u64) -> Map<
    u64,
    int,
>
    decreases n,
{
    if n <= 0 {
        h
    } else {
        spec_bump(hist_after(h, q, n - 1, now), delay_at(q, n - 1, now) as u64)
    }
}

/// Histogram counts never shrink as more entries are counted.
proof fn lemma_hist_after_mono(h: Map<u64, int>, q: Seq<(u64, u64)>, n1: int, n2: int, now: u64, d: u64)
    requires
        0 <= n1 <= n2,
        hist_after(h, q, n1, now).contains_key(d),
    ensures
        hist_after(h, q, n2, now).contains_key(d),
        hist_after(h, q, n2, now)[d] >= hist_after(h, q, n1, now)[d],
    decreases n2 - n1,
{
    if n2 > n1 {
        lemma_hist_after_mono(h, q, n1, n2 - 1, now, d);
    }
}

/// The counts of a histogram vector all fit their encoding.
proof fn lemma_hist_model_bounded(h: Seq<(u64, i64)>)
    ensures
        forall|d: u64| #[trigger] hist_model(h).contains_key(d) ==> hist_model(h)[d] <= i64::MAX,
{
    let mapped = h.map_values(|p: (u64, i64)| (p.0, p.1 as int));
    assert forall|d: u64| #[trigger] hist_model(h).contains_key(d) implies hist_model(h)[d]
        <= i64::MAX by {
        let i = assoc_index(mapped, d);
        assert(0 <= i < mapped.len() && mapped[i].0 == d);
        assert(mapped[i].1 == h[i].1 as int);
    }
}

/// One source's bookkeeping after a frontier advancement: the popped prefix
/// leaves the queue and its delays are counted into the histogram.
pub open spec fn source_after(st: SourceState, frontier: u64, now: u64) -> SourceState {
    SourceState {
        source: st.source,
        queue: st.queue.skip(popped(st.queue, frontier)),
        histogram: hist_after(st.histogram, st.queue, popped(st.queue, frontier), now),
    }
}

/// The FrontierDelay updates one source emits on a frontier advancement:
/// one `+1` update per popped queue entry, in queue order.
pub open spec fn delay_rows(
    dataflow: GlobalId,
    worker: u64,
    st: SourceState,
    frontier: u64,
    now: u64,
    t: u64,
) -> Seq<Update<FrontierDelayRow>> {
    Seq::new(
        popped(st.queue, frontier) as nat,
        |i: int|
            Update {
                row: FrontierDelayRow {
                    dataflow,
                    source: st.source,
                    worker,
                    delay_pow_ns: delay_at(st.queue, i, now) as u64,
                },
                time_ms: t,
                diff: 1i64,
            },
    )
}

/// The FrontierDelay updates of a whole tracker entry, sources in stored
/// order.
pub open spec fn all_delay_rows(
    dataflow: GlobalId,
    worker: u64,
    ss: Seq<SourceState>,
    frontier: u64,
    now: u64,
    t: u64,
) -> Seq<Update<FrontierDelayRow>>
    decreases ss.len(),
{
    if ss.len() == 0 {
        Seq::empty()
    } else {
        all_delay_rows(dataflow, worker, ss.drop_last(), frontier, now, t) + delay_rows(
            dataflow,
            worker,
            ss.last(),
            frontier,
            now,
            t,
        )
    }
}

/// No popped entry's elapsed time overflows the delay encoding.
pub open spec fn source_delays_ok(st: SourceState, frontier: u64, now: u64) -> bool {
    forall|i: int|
        0 <= i < popped(st.queue, frontier) ==> now - (#[trigger] st.queue[i]).1
            <= 0x8000_0000_0000_0000
}

/// No histogram count overflows its encoding after the pops.
pub open spec fn source_counts_ok(st: SourceState, frontier: u64, now: u64) -> bool {
    forall|d: u64|
        #[trigger] hist_after(st.histogram, st.queue, popped(st.queue, frontier), now).contains_key(
            d,
        ) ==> hist_after(st.histogram, st.queue, popped(st.queue, frontier), now)[d] <= i64::MAX
}

/// Every source of the tracker entry stays within its encodings.
pub open spec fn sources_ok(ss: Seq<SourceState>, frontier: u64, now: u64) -> bool {
    forall|j: int|
        0 <= j < ss.len() ==> source_delays_ok(#[trigger] ss[j], frontier, now)
            && source_counts_ok(ss[j], frontier, now)
}

/// Count the leading queue entries at or before the frontier.
fn popped_count(q: &Vec<(u64, u64)>, frontier: u64) -> (m: usize)
    ensures
        m == popped(q@, frontier),
        m <= q@.len(),
{
    let mut m: usize = 0;
    while m < q.len() && q[m].0 <= frontier
        invariant
            m <= q@.len(),
            forall|i: int| 0 <= i < m ==> (#[trigger] q@[i]).0 <= frontier,
        decreases q@.len() - m,
    {
        m = m + 1;
    }
    proof {
        lemma_popped_char(q@, frontier, m as int);
    }
    m
}

/// Copy the queue entries from an index on.
fn queue_suffix(q: &Vec<(u64, u64)>, m: usize) -> (r: Vec<(u64, u64)>)
    requires
        m <= q@.len(),
    ensures
        r@ == q@.skip(m as int),
{
    let mut r: Vec<(u64, u64)> = Vec::new();
    let mut c: usize = m;
    while c < q.len()
        invariant
            m <= c <= q@.len(),
            r@ =~= q@.subrange(m as int, c as int),
        decreases q@.len() - c,
    {
        r.push(q[c]);
        c = c + 1;
        proof {
            assert(r@ =~= q@.subrange(m as int, c as int));
        }
    }
    proof {
        assert(q@.subrange(m as int, q@.len() as int) =~= q@.skip(m as int));
    }
    r
}

/// Copy a histogram vector.
fn clone_hist(h: &Vec<(u64, i64)>) -> (r: Vec<(u64, i64)>)
    ensures
        r@ == h@,
{
    let mut r: Vec<(u64, i64)> = Vec::new();
    let mut c: usize = 0;
    while c < h.len()
        invariant
            c <= h@.len(),
            r@ =~= h@.subrange(0, c as int),
        decreases h@.len() - c,
    {
        r.push(h[c]);
        c = c + 1;
        proof {
            assert(r@ =~= h@.subrange(0, c as int));
        }
    }
    proof {
        assert(h@.subrange(0, h@.len() as int) =~= h@);
    }
    r
}

/// Find the entry with the given bucket in a histogram vector.
fn find_hist(v: &Vec<(u64, i64)>, d: u64) -> (r: Option<usize>)
    ensures
        match r {
            Some(i) => i < v@.len() && v@[i as int].0 == d,
            None => !assoc_has(v@, d),
        },
{
    let mut i: usize = 0;
    while i < v.len()
        invariant
            i <= v@.len(),
            forall|j: int| 0 <= j < i ==> (#[trigger] v@[j]).0 != d,
        decreases v@.len() - i,
    {
        if v[i].0 == d {
            return Some(i);
        }
        i = i + 1;
    }
    None
}

/// Count one more delay in the given bucket. Fails exactly when the count
/// would no longer fit its encoding.
fn hist_bump(h: &mut Vec<(u64, i64)>, d: u64) -> (ok: bool)
    requires
        hist_wf(old(h)@),
        is_pow2(d as int),
    ensures
        ok ==> {
            &&& hist_wf(final(h)@)
            &&& hist_model(final(h)@) == spec_bump(hist_model(old(h)@), d)
        },
        !ok ==> {
            &&& final(h)@ == old(h)@
            &&& hist_model(old(h)@).contains_key(d)
            &&& hist_model(old(h)@)[d] == i64::MAX as int
        },
{
    let ghost raw0 = h@;
    let ghost mapped0 = raw0.map_values(|p: (u64, i64)| (p.0, p.1 as int));
    proof {
        lemma_assoc_unique_lift(raw0, mapped0);
    }
    match find_hist(h, d) {
        Some(i) => {
            let c = h[i].1;
            proof {
                assert(mapped0[i as int] == (d, c as int));
                lemma_assoc_at(mapped0, i as int);
            }
            if c == i64::MAX {
                false
            } else {
                let e = vec_at_mut(h, i);
                e.1 = c + 1;
                proof {
                    assert(h@ =~= raw0.update(i as int, (d, (c + 1) as i64)));
                    let mapped1 = h@.map_values(|p: (u64, i64)| (p.0, p.1 as int));
                    assert(mapped1 =~= mapped0.update(i as int, (d, c + 1 as int)));
                    lemma_assoc_update(mapped0, i as int, c + 1 as int);
                    assert(hist_model(h@) =~= spec_bump(hist_model(raw0), d));
                    assert forall|x: int| 0 <= x < h@.len() implies (#[trigger] h@[x]).0
                        == raw0[x].0 by {}
                    lemma_assoc_unique_lift(h@, raw0);
                }
                true
            }
        },
        None => {
            h.push((d, 1));
            proof {
                assert(h@ =~= raw0.push((d, 1i64)));
                let mapped1 = h@.map_values(|p: (u64, i64)| (p.0, p.1 as int));
                assert(mapped1 =~= mapped0.push((d, 1int)));
                lemma_assoc_has_lift(raw0, mapped0, d);
                lemma_assoc_absent(mapped0, d);
                lemma_assoc_push(mapped0, d, 1int);
                lemma_assoc_push(raw0, d, 1i64);
                assert(hist_model(h@) =~= spec_bump(hist_model(raw0), d));
            }
            true
        },
    }
}

impl DemuxState {
    /// Handle a dataflow-frontier event.
    ///
    /// The update is always emitted into FrontierCurrent with the given
    /// delta. On an advancement (positive delta) with a tracker entry, every
    /// tracked source pops the queued entries whose logical time the new
    /// frontier has passed; each popped entry's elapsed time is rounded to
    /// the next power of two nanoseconds, counted into that source's
    /// histogram, and emitted as `+1` into FrontierDelay. A delay or count
    /// that does not fit its encoding is fatal and leaves the state
    /// untouched.
    pub fn handle_frontier(
        &mut self,
        t: u64,
        now_ns: u64,
        worker: u64,
        dataflow: GlobalId,
        logical: u64,
        delta: i64,
    ) -> (r: Result<DemuxOutput, FatalError>)
        requires
            old(self).wf(),
            old(self).bounded(now_ns),
        ensures
            match r {
                Ok(out) => {
                    &&& final(self).wf()
                    &&& final(self).bounded(now_ns)
                    &&& final(self).model().active == old(self).model().active
                    &&& final(self).model().peeks == old(self).model().peeks
                    &&& out.frontier@ == seq![
                        Update {
                            row: FrontierRow { dataflow, worker, logical_time: logical },
                            time_ms: t,
                            diff: delta,
                        },
                    ]
                    &&& (delta > 0 && old(self).model().trackers.contains_key(
                        DataflowKey { dataflow, worker },
                    )) ==> {
                        &&& sources_ok(
                            old(self).model().trackers[DataflowKey { dataflow, worker }],
                            logical,
                            now_ns,
                        )
                        &&& final(self).model().trackers == old(self).model().trackers.insert(
                            DataflowKey { dataflow, worker },
                            old(self).model().trackers[DataflowKey { dataflow, worker }].map_values(
                                (|st: SourceState| source_after(st, logical, now_ns)),
                            ),
                        )
                        &&& out.frontier_delay@ == all_delay_rows(
                            dataflow,
                            worker,
                            old(self).model().trackers[DataflowKey { dataflow, worker }],
                            logical,
                            now_ns,
                            t,
                        )
                    }
                    &&& !(delta > 0 && old(self).model().trackers.contains_key(
                        DataflowKey { dataflow, worker },
                    )) ==> {
                        &&& final(self).model().trackers == old(self).model().trackers
                        &&& out.frontier_delay@ == Seq::<Update<FrontierDelayRow>>::empty()
                    }
                    &&& out.dataflow@ == Seq::<Update<DataflowRow>>::empty()
                    &&& out.dependency@ == Seq::<Update<DependencyRow>>::empty()
                    &&& out.source_frontier@ == Seq::<Update<SourceFrontierRow>>::empty()
                    &&& out.peek@ == Seq::<Update<PeekRow>>::empty()
                    &&& out.peek_duration@ == Seq::<Update<PeekDurationRow>>::empty()
                    &&& out.notices@ == Seq::<Notice>::empty()
                },
                Err(e) => {
                    &&& *final(self) == *old(self)
                    &&& delta > 0
                    &&& old(self).model().trackers.contains_key(DataflowKey { dataflow, worker })
                    &&& !sources_ok(
                        old(self).model().trackers[DataflowKey { dataflow, worker }],
                        logical,
                        now_ns,
                    )
                    &&& (e == FatalError::DelayOverflow || e == FatalError::CountOverflow)
                },
            },
    {
        let mut out = DemuxOutput::empty();
        out.frontier.push(
            Update {
                row: FrontierRow { dataflow, worker, logical_time: logical },
                time_ms: t,
                diff: delta,
            },
        );
        if delta > 0 {
            let k = DataflowKey { dataflow, worker };
            let ghost trackers0 = self.trackers@;
            let ghost tpairs0 = self.tracker_pairs();
            match find_tracker(&self.trackers, k) {
                None => {
                    proof {
                        lemma_assoc_unique_lift(trackers0, tpairs0);
                        lemma_assoc_has_lift(trackers0, tpairs0, k);
                        lemma_assoc_absent(tpairs0, k);
                    }
                },
                Some(i) => {
                    let ghost sources0 = self.trackers@[i as int].1@;
                    let ghost smodel0 = sources_model(sources0);
                    proof {
                        lemma_assoc_at(trackers0, i as int);
                        lemma_assoc_unique_lift(trackers0, tpairs0);
                        assert(tpairs0[i as int].0 == k);
                        lemma_assoc_at(tpairs0, i as int);
                        assert(old(self).model().trackers[k] == smodel0);
                        assert(sources_wf(sources0));
                        assert(sources_bounded(sources0, now_ns));
                        assert(smodel0.len() == sources0.len());
                    }
                    let n_sources = self.trackers[i].1.len();
                    let mut new_sources: Vec<(GlobalId, SourceTracker)> = Vec::new();
                    let mut j: usize = 0;
                    while j < n_sources
                        invariant
                            old(self).wf(),
                            old(self).bounded(now_ns),
                            i < self.trackers@.len(),
                            self.trackers@ == trackers0,
                            self.active@ == old(self).active@,
                            self.peeks@ == old(self).peeks@,
                            sources0 == self.trackers@[i as int].1@,
                            smodel0 == sources_model(sources0),
                            delta > 0,
                            old(self).model().trackers.contains_key(
                                DataflowKey { dataflow, worker },
                            ),
                            old(self).model().trackers[DataflowKey { dataflow, worker }]
                                == smodel0,
                            sources_wf(sources0),
                            sources_bounded(sources0, now_ns),
                            n_sources == sources0.len(),
                            j <= n_sources,
                            new_sources@.len() == j,
                            forall|x: int|
                                0 <= x < j ==> (#[trigger] new_sources@[x]).0 == sources0[x].0,
                            forall|x: int|
                                0 <= x < j ==> source_state(#[trigger] new_sources@[x])
                                    == source_after(smodel0[x], logical, now_ns),
                            forall|x: int|
                                0 <= x < j ==> hist_wf((#[trigger] new_sources@[x]).1.histogram@),
                            forall|x: int|
                                0 <= x < j ==> queue_bounded(
                                    (#[trigger] new_sources@[x]).1.queue@,
                                    now_ns,
                                ),
                            forall|x: int|
                                0 <= x < j ==> source_delays_ok(
                                    #[trigger] smodel0[x],
                                    logical,
                                    now_ns,
                                ) && source_counts_ok(smodel0[x], logical, now_ns),
                            out.frontier_delay@ =~= all_delay_rows(
                                dataflow,
                                worker,
                                smodel0.take(j as int),
                                logical,
                                now_ns,
                                t,
                            ),
                            out.frontier@.len() == 1,
                            out.frontier@[0] == (Update {
                                row: FrontierRow { dataflow, worker, logical_time: logical },
                                time_ms: t,
                                diff: delta,
                            }),
                            out.dataflow@.len() == 0,
                            out.dependency@.len() == 0,
                            out.source_frontier@.len() == 0,
                            out.peek@.len() == 0,
                            out.peek_duration@.len() == 0,
                            out.notices@.len() == 0,
                        decreases n_sources - j,
                    {
                        let ghost st = smodel0[j as int];
                        let ghost q = sources0[j as int].1.queue@;
                        let ghost h0 = hist_model(sources0[j as int].1.histogram@);
                        proof {
                            assert(st == source_state(sources0[j as int]));
                            assert(st.queue == q);
                            assert(st.histogram == h0);
                            assert(hist_wf(sources0[j as int].1.histogram@));
                            assert(queue_bounded(q, now_ns));
                        }
                        let src_id = self.trackers[i].1[j].0;
                        let m = popped_count(&self.trackers[i].1[j].1.queue, logical);
                        let mut new_hist = clone_hist(&self.trackers[i].1[j].1.histogram);
                        let ghost base_j = out.frontier_delay@;
                        let mut p: usize = 0;
                        while p < m
                            invariant
                                i < self.trackers@.len(),
                                self.trackers@ == trackers0,
                                sources0 == self.trackers@[i as int].1@,
                                j < sources0.len(),
                                smodel0 == sources_model(sources0),
                                delta > 0,
                                old(self).model().trackers.contains_key(
                                    DataflowKey { dataflow, worker },
                                ),
                                old(self).model().trackers[DataflowKey { dataflow, worker }]
                                    == smodel0,
                                st == smodel0[j as int],
                                st == source_state(sources0[j as int]),
                                q == sources0[j as int].1.queue@,
                                h0 == hist_model(sources0[j as int].1.histogram@),
                                st.queue == q,
                                st.histogram == h0,
                                src_id == sources0[j as int].0,
                                hist_wf(sources0[j as int].1.histogram@),
                                queue_bounded(q, now_ns),
                                m == popped(q, logical),
                                m <= q.len(),
                                p <= m,
                                hist_wf(new_hist@),
                                hist_model(new_hist@) == hist_after(h0, q, p as int, now_ns),
                                forall|x: int|
                                    0 <= x < p ==> now_ns - (#[trigger] q[x]).1
                                        <= 0x8000_0000_0000_0000,
                                out.frontier_delay@ =~= base_j + delay_rows(
                                    dataflow,
                                    worker,
                                    st,
                                    logical,
                                    now_ns,
                                    t,
                                ).take(p as int),
                                out.frontier@.len() == 1,
                                out.frontier@[0] == (Update {
                                    row: FrontierRow { dataflow, worker, logical_time: logical },
                                    time_ms: t,
                                    diff: delta,
                                }),
                                out.dataflow@.len() == 0,
                                out.dependency@.len() == 0,
                                out.source_frontier@.len() == 0,
                                out.peek@.len() == 0,
                                out.peek_duration@.len() == 0,
                                out.notices@.len() == 0,
                            decreases m - p,
                        {
                            let arrival = self.trackers[i].1[j].1.queue[p].1;
                            proof {
                                assert(q[p as int].1 == arrival);
                                assert(arrival <= now_ns);
                            }
                            let elapsed = now_ns - arrival;
                            match crate::time::next_power_of_two(elapsed) {
                                None => {
                                    proof {
                                        assert(now_ns - q[p as int].1 > 0x8000_0000_0000_0000);
                                        assert(0 <= p < popped(st.queue, logical));
                                        assert(!source_delays_ok(st, logical, now_ns));
                                        assert(smodel0[j as int] == st);
                                        if sources_ok(smodel0, logical, now_ns) {
                                            assert(source_delays_ok(
                                                smodel0[j as int],
                                                logical,
                                                now_ns,
                                            ));
                                            assert(false);
                                        }
                                    }
                                    return Err(FatalError::DelayOverflow);
                                },
                                Some(d) => {
                                    let ok = hist_bump(&mut new_hist, d);
                                    if !ok {
                                        proof {
                                            let hp = hist_after(h0, q, p as int, now_ns);
                                            assert(hp.contains_key(d) && hp[d] == i64::MAX as int);
                                            assert(hist_after(h0, q, p as int + 1, now_ns)
                                                == spec_bump(hp, delay_at(q, p as int, now_ns) as u64));
                                            assert(delay_at(q, p as int, now_ns) as u64 == d);
                                            assert(hist_after(h0, q, p as int + 1, now_ns)[d]
                                                == i64::MAX as int + 1);
                                            lemma_hist_after_mono(
                                                h0,
                                                q,
                                                p as int + 1,
                                                m as int,
                                                now_ns,
                                                d,
                                            );
                                            assert(hist_after(h0, q, m as int, now_ns)[d]
                                                > i64::MAX);
                                            assert(!source_counts_ok(st, logical, now_ns));
                                            assert(smodel0[j as int] == st);
                                            if sources_ok(smodel0, logical, now_ns) {
                                                assert(source_counts_ok(
                                                    smodel0[j as int],
                                                    logical,
                                                    now_ns,
                                                ));
                                                assert(false);
                                            }
                                        }
                                        return Err(FatalError::CountOverflow);
                                    }
                                    out.frontier_delay.push(
                                        Update {
                                            row: FrontierDelayRow {
                                                dataflow,
                                                source: src_id,
                                                worker,
                                                delay_pow_ns: d,
                                            },
                                            time_ms: t,
                                            diff: 1,
                                        },
                                    );
                                    p = p + 1;
                                    proof {
                                        assert(hist_model(new_hist@) == hist_after(
                                            h0,
                                            q,
                                            p as int,
                                            now_ns,
                                        ));
                                        assert(out.frontier_delay@ =~= base_j + delay_rows(
                                            dataflow,
                                            worker,
                                            st,
                                            logical,
                                            now_ns,
                                            t,
                                        ).take(p as int));
                                    }
                                },
                            }
                        }
                        let new_queue = queue_suffix(&self.trackers[i].1[j].1.queue, m);
                        new_sources.push((src_id, SourceTracker { queue: new_queue, histogram: new_hist }));
                        j = j + 1;
                        proof {
                            let ne = new_sources@.last();
                            assert(ne.0 == sources0[j as int - 1].0);
                            assert(ne.1.queue@ == q.skip(m as int));
                            assert(hist_model(ne.1.histogram@) == hist_after(
                                h0,
                                q,
                                m as int,
                                now_ns,
                            ));
                            assert(source_state(ne).queue == source_after(
                                st,
                                logical,
                                now_ns,
                            ).queue);
                            assert(source_state(ne).histogram == source_after(
                                st,
                                logical,
                                now_ns,
                            ).histogram);
                            assert(source_state(ne) == source_after(st, logical, now_ns));
                            lemma_hist_model_bounded(ne.1.histogram@);
                            assert(source_counts_ok(st, logical, now_ns));
                            assert forall|x: int| 0 <= x < m implies now_ns - (
                            #[trigger] st.queue[x]).1 <= 0x8000_0000_0000_0000 by {}
                            assert(source_delays_ok(st, logical, now_ns));
                            assert forall|x: int| 0 <= x < ne.1.queue@.len() implies (
                            #[trigger] ne.1.queue@[x]).1 <= now_ns by {
                                assert(ne.1.queue@[x] == q[m + x]);
                            }
                            assert(delay_rows(dataflow, worker, st, logical, now_ns, t).take(
                                m as int,
                            ) =~= delay_rows(dataflow, worker, st, logical, now_ns, t));
                            assert(smodel0.take(j as int).drop_last() =~= smodel0.take(
                                j as int - 1,
                            ));
                            assert(smodel0.take(j as int).last() == smodel0[j as int - 1]);
                            assert(out.frontier_delay@ =~= all_delay_rows(
                                dataflow,
                                worker,
                                smodel0.take(j as int),
                                logical,
                                now_ns,
                                t,
                            ));
                        }
                    }
                    proof {
                        assert(smodel0.take(n_sources as int) =~= smodel0);
                        assert(sources_ok(smodel0, logical, now_ns));
                    }
                    let e = vec_at_mut(&mut self.trackers, i);
                    e.1 = new_sources;
                    proof {
                        let news = self.trackers@[i as int].1@;
                        assert(self.trackers@[i as int].0 == k);
                        assert(self.trackers@ =~= trackers0.update(
                            i as int,
                            (k, self.trackers@[i as int].1),
                        ));
                        assert(sources_model(news) =~= smodel0.map_values(
                            (|stx: SourceState| source_after(stx, logical, now_ns)),
                        ));
                        assert(self.tracker_pairs() =~= tpairs0.update(
                            i as int,
                            (k, sources_model(news)),
                        ));
                        lemma_assoc_update(tpairs0, i as int, sources_model(news));
                        assert forall|x: int| 0 <= x < self.trackers@.len() implies (
                        #[trigger] self.trackers@[x]).0 == trackers0[x].0 by {}
                        lemma_assoc_unique_lift(self.trackers@, trackers0);
                        assert forall|x: int| 0 <= x < self.trackers@.len() implies sources_wf(
                            (#[trigger] self.trackers@[x]).1@,
                        ) && self.model().active.contains_key(self.trackers@[x].0)
                            && sources_bounded(self.trackers@[x].1@, now_ns) by {
                            assert(self.trackers@[x].0 == trackers0[x].0);
                            assert(old(self).model().active.contains_key(trackers0[x].0));
                            if x != i as int {
                                assert(self.trackers@[x] == trackers0[x]);
                                assert(sources_wf(old(self).trackers@[x].1@));
                                assert(sources_bounded(old(self).trackers@[x].1@, now_ns));
                            } else {
                                assert forall|y: int, z: int|
                                    0 <= y < z < news.len() implies (#[trigger] news[y]).0 != (
                                #[trigger] news[z]).0 by {
                                    assert(news[y].0 == sources0[y].0);
                                    assert(news[z].0 == sources0[z].0);
                                }
                            }
                        }
                    }
                },
            }
        } else {
        }
        Ok(out)
    }
}

/// What handling a lifecycle event does to the state and the output.
pub open spec fn dataflow_post(
    pre: DemuxState,
    post: DemuxState,
    out: DemuxOutput,
    t: u64,
    worker: u64,
    id: GlobalId,
    is_create: bool,
) -> bool {
    let k = DataflowKey { dataflow: id, worker };
    &&& post.model().peeks == pre.model().peeks
    &&& out.dataflow@ == seq![
        Update {
            row: DataflowRow { dataflow: id, worker },
            time_ms: t,
            diff: (if is_create { 1int } else { -1int }) as i64,
        },
    ]
    &&& is_create ==> {
        &&& post.model().active == pre.model().active.insert(k, Seq::<(GlobalId, u64)>::empty())
        &&& post.model().trackers == pre.model().trackers
        &&& out.dependency@ == Seq::<Update<DependencyRow>>::empty()
        &&& out.frontier_delay@ == Seq::<Update<FrontierDelayRow>>::empty()
        &&& out.notices@ == Seq::<Notice>::empty()
    }
    &&& !is_create ==> {
        &&& post.model().active == pre.model().active.remove(k)
        &&& post.model().trackers == pre.model().trackers.remove(k)
        &&& out.dependency@ == (if pre.model().active.contains_key(k) {
            dep_retractions(id, pre.model().active[k], t)
        } else {
            Seq::<Update<DependencyRow>>::empty()
        })
        &&& out.frontier_delay@ == (if assoc_has(pre.trackers@, k) {
            all_hist_retractions(id, worker, pre.trackers@[assoc_index(pre.trackers@, k)].1@, t)
        } else {
            Seq::<Update<FrontierDelayRow>>::empty()
        })
        &&& out.notices@ == (if pre.model().active.contains_key(k) {
            Seq::<Notice>::empty()
        } else {
            seq![Notice::DropOfUnknownDataflow { dataflow: id, worker }]
        })
    }
    &&& out.frontier@ == Seq::<Update<FrontierRow>>::empty()
    &&& out.source_frontier@ == Seq::<Update<SourceFrontierRow>>::empty()
    &&& out.peek@ == Seq::<Update<PeekRow>>::empty()
    &&& out.peek_duration@ == Seq::<Update<PeekDurationRow>>::empty()
}

/// What handling a dependency event does to the state and the output.
pub open spec fn dependency_post(
    pre: DemuxState,
    post: DemuxState,
    out: DemuxOutput,
    t: u64,
    worker: u64,
    dataflow: GlobalId,
    source: GlobalId,
) -> bool {
    let k = DataflowKey { dataflow, worker };
    &&& post.model().peeks == pre.model().peeks
    &&& post.model().trackers == pre.model().trackers
    &&& pre.model().active.contains_key(k) ==> {
        &&& post.model().active == pre.model().active.insert(
            k,
            pre.model().active[k].push((source, worker)),
        )
        &&& out.dependency@ == seq![
            Update { row: DependencyRow { dataflow, source, worker }, time_ms: t, diff: 1i64 },
        ]
        &&& out.notices@ == Seq::<Notice>::empty()
    }
    &&& !pre.model().active.contains_key(k) ==> {
        &&& post.model().active == pre.model().active
        &&& out.dependency@ == Seq::<Update<DependencyRow>>::empty()
        &&& out.notices@ == seq![Notice::DependencyForInactiveDataflow { dataflow, source, worker }]
    }
    &&& out.dataflow@ == Seq::<Update<DataflowRow>>::empty()
    &&& out.frontier@ == Seq::<Update<FrontierRow>>::empty()
    &&& out.source_frontier@ == Seq::<Update<SourceFrontierRow>>::empty()
    &&& out.frontier_delay@ == Seq::<Update<FrontierDelayRow>>::empty()
    &&& out.peek@ == Seq::<Update<PeekRow>>::empty()
    &&& out.peek_duration@ == Seq::<Update<PeekDurationRow>>::empty()
}

/// What handling a peek event does to the state and the output.
pub open spec fn peek_post(
    pre: DemuxState,
    post: DemuxState,
    r: Result<DemuxOutput, FatalError>,
    t: u64,
    now_ns: u64,
    worker: u64,
    peek: Peek,
    is_install: bool,
) -> bool {
    let pk = PeekKey { worker, uuid: peek.uuid };
    match r {
        Ok(out) => {
            &&& post.model().active == pre.model().active
            &&& post.model().trackers == pre.model().trackers
            &&& out.peek@ == seq![
                Update {
                    row: PeekRow { peek, worker },
                    time_ms: t,
                    diff: (if is_install { 1int } else { -1int }) as i64,
                },
            ]
            &&& is_install ==> {
                &&& post.model().peeks == pre.model().peeks.insert(pk, now_ns)
                &&& out.peek_duration@ == Seq::<Update<PeekDurationRow>>::empty()
                &&& out.notices@ == (if pre.model().peeks.contains_key(pk) {
                    seq![Notice::DuplicatePeekInstall { worker, uuid: peek.uuid }]
                } else {
                    Seq::<Notice>::empty()
                })
            }
            &&& !is_install ==> {
                &&& post.model().peeks == pre.model().peeks.remove(pk)
                &&& pre.model().peeks.contains_key(pk) ==> {
                    &&& out.peek_duration@ == seq![
                        Update {
                            row: PeekDurationRow {
                                worker,
                                delay_pow_ns: spec_pow2_round(
                                    now_ns - pre.model().peeks[pk],
                                ) as u64,
                            },
                            time_ms: t,
                            diff: 1i64,
                        },
                    ]
                    &&& out.notices@ == Seq::<Notice>::empty()
                }
                &&& !pre.model().peeks.contains_key(pk) ==> {
                    &&& out.peek_duration@ == Seq::<Update<PeekDurationRow>>::empty()
                    &&& out.notices@ == seq![Notice::RetireWithoutInstall { worker, uuid: peek.uuid }]
                }
            }
            &&& out.dataflow@ == Seq::<Update<DataflowRow>>::empty()
            &&& out.dependency@ == Seq::<Update<DependencyRow>>::empty()
            &&& out.frontier@ == Seq::<Update<FrontierRow>>::empty()
            &&& out.source_frontier@ == Seq::<Update<SourceFrontierRow>>::empty()
            &&& out.frontier_delay@ == Seq::<Update<FrontierDelayRow>>::empty()
        },
        Err(e) => {
            &&& post == pre
            &&& e == FatalError::DelayOverflow
            &&& !is_install
            &&& pre.model().peeks.contains_key(pk)
            &&& now_ns - pre.model().peeks[pk] > 0x8000_0000_0000_0000u64
        },
    }
}

/// What handling a frontier event does to the state and the output.
pub open spec fn frontier_post(
    pre: DemuxState,
    post: DemuxState,
    r: Result<DemuxOutput, FatalError>,
    t: u64,
    now_ns: u64,
    worker: u64,
    dataflow: GlobalId,
    logical: u64,
    delta: i64,
) -> bool {
    let k = DataflowKey { dataflow, worker };
    match r {
        Ok(out) => {
            &&& post.model().active == pre.model().active
            &&& post.model().peeks == pre.model().peeks
            &&& out.frontier@ == seq![
                Update {
                    row: FrontierRow { dataflow, worker, logical_time: logical },
                    time_ms: t,
                    diff: delta,
                },
            ]
            &&& (delta > 0 && pre.model().trackers.contains_key(k)) ==> {
                &&& sources_ok(pre.model().trackers[k], logical, now_ns)
                &&& post.model().trackers == pre.model().trackers.insert(
                    k,
                    pre.model().trackers[k].map_values(
                        (|st: SourceState| source_after(st, logical, now_ns)),
                    ),
                )
                &&& out.frontier_delay@ == all_delay_rows(
                    dataflow,
                    worker,
                    pre.model().trackers[k],
                    logical,
                    now_ns,
                    t,
                )
            }
            &&& !(delta > 0 && pre.model().trackers.contains_key(k)) ==> {
                &&& post.model().trackers == pre.model().trackers
                &&& out.frontier_delay@ == Seq::<Update<FrontierDelayRow>>::empty()
            }
            &&& out.dataflow@ == Seq::<Update<DataflowRow>>::empty()
            &&& out.dependency@ == Seq::<Update<DependencyRow>>::empty()
            &&& out.source_frontier@ == Seq::<Update<SourceFrontierRow>>::empty()
            &&& out.peek@ == Seq::<Update<PeekRow>>::empty()
            &&& out.peek_duration@ == Seq::<Update<PeekDurationRow>>::empty()
            &&& out.notices@ == Seq::<Notice>::empty()
        },
        Err(e) => {
            &&& post == pre
            &&& delta > 0
            &&& pre.model().trackers.contains_key(k)
            &&& !sources_ok(pre.model().trackers[k], logical, now_ns)
            &&& (e == FatalError::DelayOverflow || e == FatalError::CountOverflow)
        },
    }
}

/// What handling a source-frontier event does to the state and the output.
pub open spec fn source_frontier_post(
    pre: DemuxState,
    post: DemuxState,
    out: DemuxOutput,
    t: u64,
    now_ns: u64,
    worker: u64,
    dataflow: GlobalId,
    source: GlobalId,
    logical: u64,
    delta: i8,
) -> bool {
    let k = DataflowKey { dataflow, worker };
    &&& post.model().active == pre.model().active
    &&& post.model().peeks == pre.model().peeks
    &&& out.source_frontier@ == seq![
        Update {
            row: SourceFrontierRow { dataflow, source, worker, logical_time: logical },
            time_ms: t,
            diff: delta as i64,
        },
    ]
    &&& (delta > 0 && pre.model().active.contains_key(k)) ==> post.model().trackers
        == pre.model().trackers.insert(
        k,
        track_source(
            if pre.model().trackers.contains_key(k) {
                pre.model().trackers[k]
            } else {
                Seq::<SourceState>::empty()
            },
            source,
            logical,
            now_ns,
        ),
    )
    &&& !(delta > 0 && pre.model().active.contains_key(k)) ==> post.model().trackers
        == pre.model().trackers
    &&& out.dataflow@ == Seq::<Update<DataflowRow>>::empty()
    &&& out.dependency@ == Seq::<Update<DependencyRow>>::empty()
    &&& out.frontier@ == Seq::<Update<FrontierRow>>::empty()
    &&& out.frontier_delay@ == Seq::<Update<FrontierDelayRow>>::empty()
    &&& out.peek@ == Seq::<Update<PeekRow>>::empty()
    &&& out.peek_duration@ == Seq::<Update<PeekDurationRow>>::empty()
    &&& out.notices@ == Seq::<Notice>::empty()
}

/// What handling any one event does: the output rows are timestamped with
/// the next bucket boundary strictly after the arrival time, and the
/// bookkeeping changes according to the event's kind. A bucket boundary that
/// does not fit the output encoding is fatal and leaves the state untouched.
pub open spec fn event_post(
    pre: DemuxState,
    post: DemuxState,
    r: Result<DemuxOutput, FatalError>,
    bucket_ms: u64,
    now_ns: u64,
    worker: u64,
    event: ComputeEvent,
) -> bool {
    if spec_bucket(now_ns / NS_PER_MS, bucket_ms) > u64::MAX {
        &&& r == Err::<DemuxOutput, FatalError>(FatalError::BucketOverflow)
        &&& post == pre
    } else {
        let t = spec_bucket(now_ns / NS_PER_MS, bucket_ms) as u64;
        match event {
            ComputeEvent::Dataflow(id, is_create) => match r {
                Ok(out) => dataflow_post(pre, post, out, t, worker, id, is_create),
                Err(_) => false,
            },
            ComputeEvent::DataflowDependency { dataflow, source } => match r {
                Ok(out) => dependency_post(pre, post, out, t, worker, dataflow, source),
                Err(_) => false,
            },
            ComputeEvent::Peek(peek, is_install) => peek_post(
                pre,
                post,
                r,
                t,
                now_ns,
                worker,
                peek,
                is_install,
            ),
            ComputeEvent::Frontier(dataflow, logical, delta) => frontier_post(
                pre,
                post,
                r,
                t,
                now_ns,
                worker,
                dataflow,
                logical,
                delta,
            ),
            ComputeEvent::SourceFrontier(dataflow, source, logical, delta) => match r {
                Ok(out) => source_frontier_post(
                    pre,
                    post,
                    out,
                    t,
                    now_ns,
                    worker,
                    dataflow,
                    source,
                    logical,
                    delta,
                ),
                Err(_) => false,
            },
        }
    }
}

impl DemuxState {
    /// Process one event that arrived at instant `now_ns` on the given
    /// worker, with the configured bucket granularity in milliseconds.
    ///
    /// Events must be handed in per worker in non-decreasing arrival order;
    /// that is what lets the instant of the current event bound every
    /// stashed instant. The returned updates are attributed to the next
    /// bucket boundary strictly after the arrival time. Non-fatal
    /// inconsistencies come back as notices; a value that does not fit its
    /// fixed-width output encoding is a fatal error that leaves the
    /// bookkeeping untouched.
    pub fn handle_event(
        &mut self,
        bucket_ms: u64,
        now_ns: u64,
        worker: u64,
        event: ComputeEvent,
    ) -> (r: Result<DemuxOutput, FatalError>)
        requires
            old(self).wf(),
            old(self).bounded(now_ns),
            bucket_ms >= 1,
        ensures
            final(self).wf(),
            final(self).bounded(now_ns),
            r is Err ==> *final(self) == *old(self),
            event_post(*old(self), *final(self), r, bucket_ms, now_ns, worker, event),
    {
        let now_ms = now_ns / NS_PER_MS;
        match bucket(now_ms, bucket_ms) {
            None => Err(FatalError::BucketOverflow),
            Some(t) => match event {
                ComputeEvent::Dataflow(id, is_create) => Ok(
                    self.handle_dataflow(t, worker, id, is_create),
                ),
                ComputeEvent::DataflowDependency { dataflow, source } => Ok(
                    self.handle_dependency(t, worker, dataflow, source),
                ),
                ComputeEvent::Peek(peek, is_install) => self.handle_peek(
                    t,
                    now_ns,
                    worker,
                    peek,
                    is_install,
                ),
                ComputeEvent::Frontier(dataflow, logical, delta) => self.handle_frontier(
                    t,
                    now_ns,
                    worker,
                    dataflow,
                    logical,
                    delta,
                ),
                ComputeEvent::SourceFrontier(dataflow, source, logical, delta) => Ok(
                    self.handle_source_frontier(t, now_ns, worker, dataflow, source, logical, delta),
                ),
            },
        }
    }
}

/// The accumulated multiplicity of one row in a dependency changelog, over
/// the updates visible at bucket `b`.
pub open spec fn dependency_net(us: Seq<Update<DependencyRow>>, row: DependencyRow, b: u64) -> int
    decreases us.len(),
{
    if us.len() == 0 {
        0
    } else {
        dependency_net(us.drop_last(), row, b) + (if us.last().row == row && us.last().time_ms
            <= b {
            us.last().diff as int
        } else {
            0
        })
    }
}

/// Cascading retraction cancels recording: for any sequence of a dataflow
/// create, a dependency on a source, and the dataflow's drop, the net
/// contribution to the DataflowDependency changelog is zero at every bucket
/// at or after the drop's bucket.
pub proof fn lemma_dependency_net_zero(
    s0: DemuxState,
    s1: DemuxState,
    s2: DemuxState,
    s3: DemuxState,
    o1: DemuxOutput,
    o2: DemuxOutput,
    o3: DemuxOutput,
    t1: u64,
    t2: u64,
    t3: u64,
    worker: u64,
    dataflow: GlobalId,
    source: GlobalId,
)
    requires
        dataflow_post(s0, s1, o1, t1, worker, dataflow, true),
        dependency_post(s1, s2, o2, t2, worker, dataflow, source),
        dataflow_post(s2, s3, o3, t3, worker, dataflow, false),
        t1 <= t2 <= t3,
    ensures
        forall|row: DependencyRow, b: u64|
            b >= t3 ==> #[trigger] dependency_net(
                o1.dependency@ + o2.dependency@ + o3.dependency@,
                row,
                b,
            ) == 0,
{
    let k = DataflowKey { dataflow, worker };
    let plus = Update {
        row: DependencyRow { dataflow, source, worker },
        time_ms: t2,
        diff: 1i64,
    };
    let minus = Update {
        row: DependencyRow { dataflow, source, worker },
        time_ms: t3,
        diff: -1i64,
    };
    assert(s1.model().active.contains_key(k));
    assert(s1.model().active[k] =~= Seq::<(GlobalId, u64)>::empty());
    assert(o2.dependency@ == seq![plus]);
    assert(s2.model().active.contains_key(k));
    assert(s2.model().active[k] =~= seq![(source, worker)]);
    assert(o3.dependency@ =~= dep_retractions(dataflow, s2.model().active[k], t3));
    assert(o3.dependency@ =~= seq![minus]);
    let all = o1.dependency@ + o2.dependency@ + o3.dependency@;
    assert(all =~= seq![plus, minus]);
    assert forall|row: DependencyRow, b: u64| b >= t3 implies #[trigger] dependency_net(
        all,
        row,
        b,
    ) == 0 by {
        assert(all.drop_last() =~= seq![plus]);
        assert(all.drop_last().drop_last() =~= Seq::<Update<DependencyRow>>::empty());
        assert(seq![plus].drop_last() =~= Seq::<Update<DependencyRow>>::empty());
        assert(seq![plus].last() == plus);
        assert(all.last() == minus);
        assert(plus.time_ms <= b);
        assert(minus.time_ms <= b);
        assert(dependency_net(Seq::<Update<DependencyRow>>::empty(), row, b) == 0);
        assert(dependency_net(seq![plus], row, b) == (if row == plus.row {
            1int
        } else {
            0int
        }));
        assert(dependency_net(all, row, b) == dependency_net(seq![plus], row, b) + (if row
            == minus.row {
            -1int
        } else {
            0int
        }));
    }
}

/// The orphan guard: a source-frontier advancement for a dataflow with no
/// active entry leaves the source-frontier tracker untouched, so no
/// bookkeeping leaks for a dataflow whose teardown already completed.
pub proof fn lemma_orphan_source_frontier_guard(
    pre: DemuxState,
    post: DemuxState,
    out: DemuxOutput,
    t: u64,
    now_ns: u64,
    worker: u64,
    dataflow: GlobalId,
    source: GlobalId,
    logical: u64,
    delta: i8,
)
    requires
        source_frontier_post(pre, post, out, t, now_ns, worker, dataflow, source, logical, delta),
        !pre.model().active.contains_key(DataflowKey { dataflow, worker }),
    ensures
        post.model().trackers == pre.model().trackers,
{
}

/// All stashed instants stay bounded as time moves forward.
pub proof fn lemma_bounded_mono(s: DemuxState, t1: u64, t2: u64)
    requires
        s.bounded(t1),
        t1 <= t2,
    ensures
        s.bounded(t2),
{
    assert forall|i: int| 0 <= i < s.trackers@.len() implies sources_bounded(
        (#[trigger] s.trackers@[i]).1@,
        t2,
    ) by {
        assert(sources_bounded(s.trackers@[i].1@, t1));
        assert forall|j: int| 0 <= j < s.trackers@[i].1@.len() implies queue_bounded(
            (#[trigger] s.trackers@[i].1@[j]).1.queue@,
            t2,
        ) by {
            assert(queue_bounded(s.trackers@[i].1@[j].1.queue@, t1));
        }
    }
}

/// The per-event postconditions, chained over a whole batch: each event's
/// output follows from the state the previous events left behind.
pub open spec fn batch_post(
    pre: DemuxState,
    post: DemuxState,
    outs: Seq<DemuxOutput>,
    bucket_ms: u64,
    events: Seq<(u64, u64, ComputeEvent)>,
) -> bool
    decreases events.len(),
{
    if events.len() == 0 {
        &&& post == pre
        &&& outs.len() == 0
    } else {
        &&& outs.len() == events.len()
        &&& exists|mid: DemuxState|
            {
                &&& batch_post(pre, mid, outs.drop_last(), bucket_ms, events.drop_last())
                &&& #[trigger] event_post(
                    mid,
                    post,
                    Ok(outs.last()),
                    bucket_ms,
                    events.last().0,
                    events.last().1,
                    events.last().2,
                )
            }
    }
}

impl DemuxState {
    /// Process one delivered batch of `(arrival_ns, worker, event)` triples,
    /// head to tail. Arrival instants must not decrease across the batch,
    /// as the delivery transport guarantees. On a fatal error, the outputs
    /// of the already processed prefix are discarded and the bookkeeping is
    /// left as that prefix left it.
    pub fn handle_batch(
        &mut self,
        bucket_ms: u64,
        events: &Vec<(u64, u64, ComputeEvent)>,
    ) -> (r: Result<Vec<DemuxOutput>, FatalError>)
        requires
            old(self).wf(),
            bucket_ms >= 1,
            events@.len() > 0 ==> old(self).bounded(events@[0].0),
            forall|i: int|
                0 <= i < events@.len() - 1 ==> (#[trigger] events@[i]).0 <= events@[i + 1].0,
        ensures
            final(self).wf(),
            match r {
                Ok(outs) => batch_post(*old(self), *final(self), outs@, bucket_ms, events@),
                Err(e) => exists|i: int, outs: Seq<DemuxOutput>|
                    {
                        &&& 0 <= i < events@.len()
                        &&& #[trigger] batch_post(
                            *old(self),
                            *final(self),
                            outs,
                            bucket_ms,
                            events@.take(i),
                        )
                        &&& event_post(
                            *final(self),
                            *final(self),
                            Err::<DemuxOutput, FatalError>(e),
                            bucket_ms,
                            events@[i].0,
                            events@[i].1,
                            events@[i].2,
                        )
                    },
            },
    {
        let mut outs: Vec<DemuxOutput> = Vec::new();
        let mut i: usize = 0;
        proof {
            assert(events@.take(0) =~= Seq::<(u64, u64, ComputeEvent)>::empty());
            assert(batch_post(
                *old(self),
                *old(self),
                outs@,
                bucket_ms,
                events@.take(0),
            ));
        }
        while i < events.len()
            invariant
                self.wf(),
                bucket_ms >= 1,
                i <= events@.len(),
                outs@.len() == i,
                i < events@.len() ==> self.bounded(events@[i as int].0),
                forall|j: int|
                    0 <= j < events@.len() - 1 ==> (#[trigger] events@[j]).0 <= events@[j + 1].0,
                batch_post(*old(self), *self, outs@, bucket_ms, events@.take(i as int)),
            decreases events@.len() - i,
        {
            let (now_ns, worker, event) = events[i];
            let ghost prev = *self;
            match self.handle_event(bucket_ms, now_ns, worker, event) {
                Err(e) => {
                    proof {
                        assert(batch_post(
                            *old(self),
                            *self,
                            outs@,
                            bucket_ms,
                            events@.take(i as int),
                        ));
                        assert(event_post(
                            *self,
                            *self,
                            Err::<DemuxOutput, FatalError>(e),
                            bucket_ms,
                            events@[i as int].0,
                            events@[i as int].1,
                            events@[i as int].2,
                        ));
                    }
                    return Err(e);
                },
                Ok(out) => {
                    let ghost outs0 = outs@;
                    outs.push(out);
                    i = i + 1;
                    proof {
                        assert(events@.take(i as int).drop_last() =~= events@.take(i as int - 1));
                        assert(events@.take(i as int).last() == events@[i as int - 1]);
                        assert(outs@.drop_last() =~= outs0);
                        assert(batch_post(
                            *old(self),
                            prev,
                            outs@.drop_last(),
                            bucket_ms,
                            events@.take(i as int - 1),
                        ));
                        assert(event_post(
                            prev,
                            *self,
                            Ok(outs@.last()),
                            bucket_ms,
                            events@[i as int - 1].0,
                            events@[i as int - 1].1,
                            events@[i as int - 1].2,
                        ));
                        assert(batch_post(
                            *old(self),
                            *self,
                            outs@,
                            bucket_ms,
                            events@.take(i as int),
                        ));
                        if i < events@.len() {
                            lemma_bounded_mono(
                                *self,
                                events@[i as int - 1].0,
                                events@[i as int].0,
                            );
                        }
                    }
                },
            }
        }
        proof {
            assert(events@.take(events@.len() as int) =~= events@);
        }
        Ok(outs)
    }
}

} // verus!
