//! One profiler per observed thread, and the trace records the profiling produces.
//!
//! One `ThreadProfilerAdapter` per thread turns the notification stream into `ProfilerEvent`s,
//! which are folded into that thread's `ContextProfiler`. While the trace is live, every
//! observation is also returned as a record for the caller to append to the trace; the trace is
//! best effort, so a caller that fails to write one calls `stop_tracing` and profiling goes on.
use vstd::prelude::*;
use vstd::string::StringExecFns;

use crate::adapter::spec_adapter_step;
use crate::adapter::AdapterModel;
use crate::adapter::Notification;
use crate::adapter::ObservationModel;
use crate::adapter::ThreadProfilerAdapter;
use crate::adapter::no_fields;
use crate::event::EventModel;
use crate::event::InvalidationReason;
use crate::event::ObservationStart;
use crate::profiler::initial_model;
use crate::profiler::spec_step;
use crate::profiler::ContextProfiler;
use crate::profiler::ProfilerModel;
use crate::record::attached_record;
use crate::record::spec_record;
use crate::record::to_record;
use crate::record::KindModel;
use crate::record::RecordModel;
use crate::record::RecordedEvent;
use crate::snapshot::ProfilerState;
use crate::text::str_eq;

verus! {

/// The adapter and profiler for one observed thread.
struct ObservedThread {
    thread_id: String,
    adapter: ThreadProfilerAdapter,
    profiler: ContextProfiler,
}

/// The mathematical value of one observed thread.
pub struct ThreadModel {
    pub thread_id: Seq<char>,
    pub adapter: AdapterModel,
    pub profiler: ProfilerModel,
}

impl View for ObservedThread {
    type V = ThreadModel;

    closed spec fn view(&self) -> ThreadModel {
        ThreadModel {
            thread_id: self.thread_id@,
            adapter: self.adapter@,
            profiler: self.profiler@,
        }
    }
}

/// Owns one profiler per observed thread.
pub struct ProfilerRegistry {
    threads: Vec<ObservedThread>,
    tracing: bool,
    enabled: bool,
}

/// The mathematical value of a `ProfilerRegistry`.
pub struct RegistryModel {
    /// The observed threads, in the order they were attached.
    pub threads: Seq<ThreadModel>,
    /// Whether observations still produce trace records.
    pub tracing: bool,
    pub enabled: bool,
}

impl View for ProfilerRegistry {
    type V = RegistryModel;

    closed spec fn view(&self) -> RegistryModel {
        RegistryModel {
            threads: self.threads@.map_values(|t: ObservedThread| t@),
            tracing: self.tracing,
            enabled: self.enabled,
        }
    }
}

/// The values of a list of records.
pub open spec fn records_view(records: Seq<RecordedEvent>) -> Seq<RecordModel> {
    records.map_values(|r: RecordedEvent| r@)
}

/// Whether a thread is observed.
pub open spec fn has_thread(threads: Seq<ThreadModel>, thread_id: Seq<char>) -> bool {
    exists|i: int| 0 <= i < threads.len() && #[trigger] threads[i].thread_id == thread_id
}

/// The position of an observed thread.
pub open spec fn thread_at(threads: Seq<ThreadModel>, thread_id: Seq<char>) -> int {
    choose|i: int| 0 <= i < threads.len() && #[trigger] threads[i].thread_id == thread_id
}

/// Whether every thread whose profiler is still trusted has its adapter count the profiler's items.
pub open spec fn counts_agree(threads: Seq<ThreadModel>) -> bool {
    forall|i: int|
        0 <= i < threads.len() && (#[trigger] threads[i]).profiler.state.invalidated is None
            ==> threads[i].adapter.items_seq == threads[i].profiler.items_seen()
}

/// Whether no two observed threads share an id.
pub open spec fn ids_distinct(threads: Seq<ThreadModel>) -> bool {
    forall|i: int, j: int|
        0 <= i < threads.len() && 0 <= j < threads.len() && i != j ==> #[trigger] threads[i].thread_id
            != #[trigger] threads[j].thread_id
}

/// The record of an attach, when tracing.
pub open spec fn attach_records(tracing: bool, thread_id: Seq<char>) -> Seq<RecordModel> {
    if tracing {
        seq![RecordModel { thread_id, turn_id: None, kind: KindModel::Attached }]
    } else {
        Seq::empty()
    }
}

/// Starts observing a thread from the given point.
pub open spec fn spec_attach(m: RegistryModel, thread_id: Seq<char>, start: ObservationStart) -> (
    RegistryModel,
    Seq<RecordModel>,
) {
    (
        RegistryModel {
            threads: m.threads.push(
                ThreadModel {
                    thread_id,
                    adapter: AdapterModel { items_seq: 0, last_anchor_total: None },
                    profiler: initial_model(start),
                },
            ),
            ..m
        },
        attach_records(m.tracing, thread_id),
    )
}

/// Feeds one notification to an observed thread.
pub open spec fn spec_feed(m: RegistryModel, thread_id: Seq<char>, n: Notification) -> (
    RegistryModel,
    Seq<RecordModel>,
) {
    let i = thread_at(m.threads, thread_id);
    let t = m.threads[i];
    let (adapter, observation) = spec_adapter_step(t.adapter, n);
    match observation {
        None => (
            RegistryModel { threads: m.threads.update(i, ThreadModel { adapter, ..t }), ..m },
            Seq::empty(),
        ),
        Some(o) => (
            RegistryModel {
                threads: m.threads.update(
                    i,
                    ThreadModel { adapter, profiler: spec_step(t.profiler, o.event), ..t },
                ),
                ..m
            },
            if m.tracing {
                seq![spec_record(thread_id, o)]
            } else {
                Seq::empty()
            },
        ),
    }
}

/// What observing one notification does, and the records it produces. `allow_create` gates
/// attaching to a thread not observed yet, which is then observed from mid-stream.
pub open spec fn spec_registry_observe(
    m: RegistryModel,
    thread_id: Seq<char>,
    n: Notification,
    allow_create: bool,
) -> (RegistryModel, Seq<RecordModel>) {
    if !m.enabled || (!has_thread(m.threads, thread_id) && !allow_create) {
        (m, Seq::empty())
    } else if has_thread(m.threads, thread_id) {
        spec_feed(m, thread_id, n)
    } else {
        let (attached, first) = spec_attach(m, thread_id, ObservationStart::MidStream);
        let (fed, rest) = spec_feed(attached, thread_id, n);
        (fed, first + rest)
    }
}

/// The observation lag produces for one thread.
pub open spec fn lag_observation(t: ThreadModel, skipped: usize) -> ObservationModel {
    ObservationModel {
        event: EventModel::Invalidated { reason: InvalidationReason::EventsDropped { skipped } },
        items_seq: t.adapter.items_seq,
        fields: no_fields(),
    }
}

/// One thread after lag: its anchor dropped and its profiler invalidated.
pub open spec fn lagged_thread(t: ThreadModel, skipped: usize) -> ThreadModel {
    ThreadModel {
        adapter: AdapterModel { last_anchor_total: None, ..t.adapter },
        profiler: spec_step(t.profiler, lag_observation(t, skipped).event),
        ..t
    }
}

/// A profiler fed by its own adapter never sees a sequence mismatch: the adapter counts response
/// items exactly as the profiler does, so every anchor it stamps carries the profiler's own count,
/// and the two counts still agree after any notification that does not invalidate the profiler.
pub proof fn lemma_adapter_keeps_the_profiler_count(t: ThreadModel, n: Notification)
    requires
        t.profiler.state.invalidated is None,
        t.adapter.items_seq == t.profiler.items_seen(),
        t.profiler.items().len() <= u64::MAX,
        n is RawResponseItemCompleted ==> t.profiler.items().len() < u64::MAX,
    ensures
        ({
            let (adapter, observation) = spec_adapter_step(t.adapter, n);
            match observation {
                None => adapter.items_seq == t.adapter.items_seq,
                Some(o) => {
                    let next = spec_step(t.profiler, o.event);
                    &&& o.event matches EventModel::Usage { usage, .. } ==> usage.items_seq
                        == t.profiler.items_seen()
                    &&& !(o.event is Invalidated) ==> next.state.invalidated is None
                        && adapter.items_seq == next.items_seen()
                },
            }
        }),
{
}

impl ProfilerRegistry {
    /// Every profiler is well formed and no thread is observed twice.
    pub closed spec fn wf(&self) -> bool {
        &&& forall|i: int| 0 <= i < self.threads@.len() ==> (#[trigger] self.threads@[i]).profiler.wf()
        &&& ids_distinct(self@.threads)
        &&& counts_agree(self@.threads)
    }

    /// In a registry, every profiler that is still trusted has seen exactly the items its adapter
    /// counted, so no anchor the adapter stamps can trip a sequence mismatch.
    pub proof fn lemma_counts_agree(&self)
        requires
            self.wf(),
        ensures
            counts_agree(self@.threads),
    {
    }

    pub fn disabled() -> (r: Self)
        ensures
            r.wf(),
            r@ == (RegistryModel { threads: Seq::empty(), tracing: false, enabled: false }),
    {
        let r = ProfilerRegistry { threads: Vec::new(), tracing: false, enabled: false };
        proof {
            assert(r@.threads =~= Seq::empty());
        }
        r
    }

    /// A registry that profiles, and traces while `tracing` holds: whether the trace log opened.
    pub fn enabled(tracing: bool) -> (r: Self)
        ensures
            r.wf(),
            r@ == (RegistryModel { threads: Seq::empty(), tracing, enabled: true }),
    {
        let r = ProfilerRegistry { threads: Vec::new(), tracing, enabled: true };
        proof {
            assert(r@.threads =~= Seq::empty());
        }
        r
    }

    /// Whether observations still produce trace records.
    pub fn is_tracing(&self) -> (r: bool)
        ensures
            r == self@.tracing,
    {
        self.tracing
    }

    /// Drops the trace after a failed write; profiling goes on.
    pub fn stop_tracing(&mut self)
        requires
            old(self).wf(),
        ensures
            final(self).wf(),
            final(self)@ == (RegistryModel { tracing: false, ..old(self)@ }),
    {
        self.tracing = false;
    }

    /// The position of an observed thread.
    fn find(&self, thread_id: &str) -> (r: Option<usize>)
        requires
            self.wf(),
        ensures
            match r {
                Some(i) => i < self@.threads.len() && i == thread_at(self@.threads, thread_id@)
                    && has_thread(self@.threads, thread_id@),
                None => !has_thread(self@.threads, thread_id@),
            },
    {
        let ghost threads = self@.threads;
        let mut i: usize = 0;
        while i < self.threads.len()
            invariant
                i <= self.threads@.len(),
                threads == self@.threads,
                ids_distinct(threads),
                forall|j: int| 0 <= j < i ==> threads[j].thread_id != thread_id@,
            decreases self.threads@.len() - i,
        {
            if str_eq(self.threads[i].thread_id.as_str(), thread_id) {
                proof {
                    assert(threads[i as int] == self.threads@[i as int]@);
                    assert(threads[i as int].thread_id == thread_id@);
                    assert(has_thread(threads, thread_id@));
                    let k = thread_at(threads, thread_id@);
                    assert(threads[k].thread_id == thread_id@);
                    assert(ids_distinct(threads));
                    if k != i {
                        assert(threads[k].thread_id != threads[i as int].thread_id);
                    }
                }
                return Some(i);
            }
            proof {
                assert(threads[i as int] == self.threads@[i as int]@);
            }
            i = i + 1;
        }
        None
    }

    /// Starts observing a thread that is not observed yet.
    fn attach(&mut self, thread_id: &str, start: ObservationStart) -> (r: Vec<RecordedEvent>)
        requires
            old(self).wf(),
            !has_thread(old(self)@.threads, thread_id@),
        ensures
            final(self).wf(),
            (final(self)@, records_view(r@)) == spec_attach(old(self)@, thread_id@, start),
    {
        let thread = ObservedThread {
            thread_id: String::from_str(thread_id),
            adapter: ThreadProfilerAdapter::new(),
            profiler: ContextProfiler::new(start),
        };
        let ghost before = self.threads@;
        self.threads.push(thread);
        proof {
            assert(self@.threads =~= old(self)@.threads.push(thread@));
            assert forall|i: int, j: int|
                0 <= i < self@.threads.len() && 0 <= j < self@.threads.len() && i != j implies #[trigger] self@.threads[i].thread_id
                != #[trigger] self@.threads[j].thread_id by {
                if i == before.len() {
                    assert(self@.threads[j] == old(self)@.threads[j]);
                } else if j == before.len() {
                    assert(self@.threads[i] == old(self)@.threads[i]);
                } else {
                    assert(self@.threads[i] == old(self)@.threads[i]);
                    assert(self@.threads[j] == old(self)@.threads[j]);
                }
            }
            assert forall|i: int| 0 <= i < self.threads@.len() implies (
            #[trigger] self.threads@[i]).profiler.wf() by {
                if i < before.len() {
                    assert(self.threads@[i] == before[i]);
                }
            }
        }
        let mut records: Vec<RecordedEvent> = Vec::new();
        if self.tracing {
            records.push(attached_record(thread_id));
        }
        proof {
            assert(records_view(records@) =~= attach_records(old(self)@.tracing, thread_id@));
        }
        records
    }

    /// Feeds one notification to the thread at `index`.
    fn feed(&mut self, index: usize, thread_id: &str, notification: &Notification) -> (r: Vec<
        RecordedEvent,
    >)
        requires
            old(self).wf(),
            index < old(self)@.threads.len(),
            index == thread_at(old(self)@.threads, thread_id@),
            old(self)@.threads[index as int].thread_id == thread_id@,
        ensures
            final(self).wf(),
            (final(self)@, records_view(r@)) == spec_feed(old(self)@, thread_id@, *notification),
    {
        let ghost before = self.threads@;
        let mut thread = self.threads.remove(index);
        let ghost start = thread@;
        proof {
            assert(thread == before[index as int]);
            assert(thread.profiler.wf());
            thread.profiler.lemma_wf_invariant();
        }
        let mut records: Vec<RecordedEvent> = Vec::new();
        let observation = thread.adapter.observe(notification);
        match observation {
            None => {},
            Some(observation) => {
                if self.tracing {
                    records.push(to_record(thread_id, &observation));
                }
                thread.profiler.observe(observation.event);
            },
        }
        proof {
            thread.profiler.lemma_wf_invariant();
            if start.profiler.state.invalidated is None {
                if notification is RawResponseItemCompleted {
                    assert(thread@.profiler.items().len() == start.profiler.items().len() + 1);
                }
                lemma_adapter_keeps_the_profiler_count(start, *notification);
            }
        }
        self.threads.insert(index, thread);
        proof {
            assert(self.threads@ =~= before.update(index as int, thread));
            assert(self@.threads =~= old(self)@.threads.update(index as int, thread@));
            assert forall|i: int| 0 <= i < self.threads@.len() implies (
            #[trigger] self.threads@[i]).profiler.wf() by {
                if i != index {
                    assert(self.threads@[i] == before[i]);
                }
            }
            assert forall|i: int, j: int|
                0 <= i < self@.threads.len() && 0 <= j < self@.threads.len() && i != j implies #[trigger] self@.threads[i].thread_id
                != #[trigger] self@.threads[j].thread_id by {
                assert(old(self)@.threads[i].thread_id != old(self)@.threads[j].thread_id);
            }
            assert(records_view(records@) =~= spec_feed(old(self)@, thread_id@, *notification).1);
            assert forall|i: int|
                0 <= i < self@.threads.len() && (#[trigger] self@.threads[i]).profiler.state.invalidated is None implies self@.threads[i].adapter.items_seq
                == self@.threads[i].profiler.items_seen() by {
                if i != index {
                    assert(self@.threads[i] == old(self)@.threads[i]);
                }
            }
        }
        records
    }

    /// Observes one notification for one thread, and returns the records to trace.
    pub fn observe(&mut self, thread_id: &str, notification: &Notification, allow_create: bool) -> (r:
        Vec<RecordedEvent>)
        requires
            old(self).wf(),
        ensures
            final(self).wf(),
            (final(self)@, records_view(r@)) == spec_registry_observe(
                old(self)@,
                thread_id@,
                *notification,
                allow_create,
            ),
    {
        if !self.enabled {
            let r: Vec<RecordedEvent> = Vec::new();
            proof {
                assert(records_view(r@) =~= Seq::empty());
            }
            return r;
        }
        match self.find(thread_id) {
            Some(index) => self.feed(index, thread_id, notification),
            None => {
                if !allow_create {
                    let r: Vec<RecordedEvent> = Vec::new();
                    proof {
                        assert(records_view(r@) =~= Seq::empty());
                    }
                    return r;
                }
                let ghost start = self@;
                let mut records = self.attach(thread_id, ObservationStart::MidStream);
                proof {
                    assert(self@.threads.len() == self.threads@.len());
                    assert(self@.threads.len() == start.threads.len() + 1);
                }
                let index = self.threads.len() - 1;
                proof {
                    let threads = self@.threads;
                    assert(threads[index as int] == self.threads@[index as int]@);
                    assert(threads[index as int].thread_id == thread_id@);
                    assert(has_thread(threads, thread_id@));
                    let k = thread_at(threads, thread_id@);
                    if k != index {
                        assert(threads[k].thread_id != threads[index as int].thread_id);
                    }
                }
                let ghost first = records@;
                let mut rest = self.feed(index, thread_id, notification);
                let ghost fed = rest@;
                records.append(&mut rest);
                proof {
                    assert(records_view(records@) =~= records_view(first) + records_view(fed));
                }
                records
            },
        }
    }

    /// Eager attachment for a thread this app started fresh, so a baseline is claimable.
    pub fn thread_started(&mut self, thread_id: &str) -> (r: Vec<RecordedEvent>)
        requires
            old(self).wf(),
        ensures
            final(self).wf(),
            (final(self)@, records_view(r@)) == if !old(self)@.enabled || has_thread(
                old(self)@.threads,
                thread_id@,
            ) {
                (old(self)@, Seq::empty())
            } else {
                spec_attach(old(self)@, thread_id@, ObservationStart::SessionStart)
            },
    {
        if !self.enabled || self.find(thread_id).is_some() {
            let r: Vec<RecordedEvent> = Vec::new();
            proof {
                assert(records_view(r@) =~= Seq::empty());
            }
            return r;
        }
        self.attach(thread_id, ObservationStart::SessionStart)
    }

    /// The state of one observed thread's profiler.
    pub fn state(&self, thread_id: &str) -> (r: Option<&ProfilerState>)
        requires
            self.wf(),
        ensures
            match r {
                Some(state) => has_thread(self@.threads, thread_id@) && state@ == self@.threads[thread_at(
                    self@.threads,
                    thread_id@,
                )].profiler.state,
                None => !has_thread(self@.threads, thread_id@),
            },
    {
        match self.find(thread_id) {
            Some(index) => {
                proof {
                    assert(self@.threads[index as int] == self.threads@[index as int]@);
                }
                Some(self.threads[index].profiler.state())
            },
            None => None,
        }
    }

    /// Lag is connection-level, so every observed thread loses its anchor and is invalidated.
    pub fn broadcast_lagged(&mut self, skipped: usize) -> (r: Vec<RecordedEvent>)
        requires
            old(self).wf(),
        ensures
            final(self).wf(),
            !old(self)@.enabled ==> final(self)@ == old(self)@ && r@.len() == 0,
            old(self)@.enabled ==> final(self)@ == (RegistryModel {
                threads: Seq::new(
                    old(self)@.threads.len(),
                    |i: int| lagged_thread(old(self)@.threads[i], skipped),
                ),
                ..old(self)@
            }),
            old(self)@.enabled ==> records_view(r@) == if old(self)@.tracing {
                Seq::new(
                    old(self)@.threads.len(),
                    |i: int|
                        spec_record(
                            old(self)@.threads[i].thread_id,
                            lag_observation(old(self)@.threads[i], skipped),
                        ),
                )
            } else {
                Seq::empty()
            },
    {
        let mut records: Vec<RecordedEvent> = Vec::new();
        if !self.enabled {
            return records;
        }
        let ghost start = self@;
        let ghost before = self.threads@;
        let reason = InvalidationReason::EventsDropped { skipped };
        let mut i: usize = 0;
        while i < self.threads.len()
            invariant
                self.enabled == start.enabled,
                self.tracing == start.tracing,
                start.enabled,
                self.threads@.len() == before.len(),
                start.threads == before.map_values(|t: ObservedThread| t@),
                i <= before.len(),
                reason == (InvalidationReason::EventsDropped { skipped }),
                forall|j: int| 0 <= j < before.len() ==> (#[trigger] self.threads@[j]).profiler.wf(),
                forall|j: int|
                    0 <= j < before.len() ==> (#[trigger] self.threads@[j]).thread_id@
                        == before[j].thread_id@,
                forall|j: int| 0 <= j < i ==> #[trigger] self.threads@[j]@ == lagged_thread(
                    start.threads[j],
                    skipped,
                ),
                forall|j: int| i <= j < before.len() ==> #[trigger] self.threads@[j] == before[j],
                records_view(records@) == if start.tracing {
                    Seq::new(
                        i as nat,
                        |k: int|
                            spec_record(
                                start.threads[k].thread_id,
                                lag_observation(start.threads[k], skipped),
                            ),
                    )
                } else {
                    Seq::empty()
                },
            decreases before.len() - i,
        {
            let ghost current = self.threads@;
            let mut thread = self.threads.remove(i);
            proof {
                assert(thread == before[i as int]);
                assert(start.threads[i as int] == thread@);
            }
            let observation = thread.adapter.invalidate(reason);
            if self.tracing {
                let ghost old_records = records@;
                let record = to_record(thread.thread_id.as_str(), &observation);
                proof {
                    assert(record@ == spec_record(
                        start.threads[i as int].thread_id,
                        lag_observation(start.threads[i as int], skipped),
                    ));
                }
                records.push(record);
                proof {
                    assert(records_view(records@) =~= records_view(old_records).push(record@));
                    assert(records_view(records@) =~= Seq::new(
                        (i + 1) as nat,
                        |k: int|
                            spec_record(
                                start.threads[k].thread_id,
                                lag_observation(start.threads[k], skipped),
                            ),
                    ));
                }
            }
            thread.profiler.observe(observation.event);
            self.threads.insert(i, thread);
            proof {
                assert(self.threads@ =~= current.update(i as int, thread));
                assert(thread@ == lagged_thread(start.threads[i as int], skipped));
            }
            i = i + 1;
        }
        proof {
            assert(self@.threads =~= Seq::new(
                start.threads.len(),
                |k: int| lagged_thread(start.threads[k], skipped),
            ));
            assert forall|a: int, b: int|
                0 <= a < self@.threads.len() && 0 <= b < self@.threads.len() && a != b implies #[trigger] self@.threads[a].thread_id
                != #[trigger] self@.threads[b].thread_id by {
                assert(start.threads[a].thread_id != start.threads[b].thread_id);
            }
        }
        records
    }

    /// Stops observing a thread.
    pub fn remove(&mut self, thread_id: &str)
        requires
            old(self).wf(),
        ensures
            final(self).wf(),
            has_thread(old(self)@.threads, thread_id@) ==> final(self)@ == (RegistryModel {
                threads: old(self)@.threads.remove(thread_at(old(self)@.threads, thread_id@)),
                ..old(self)@
            }),
            !has_thread(old(self)@.threads, thread_id@) ==> final(self)@ == old(self)@,
    {
        match self.find(thread_id) {
            Some(index) => {
                let ghost before = self.threads@;
                self.threads.remove(index);
                proof {
                    assert(self@.threads =~= old(self)@.threads.remove(index as int));
                    assert forall|i: int| 0 <= i < self.threads@.len() implies (
                    #[trigger] self.threads@[i]).profiler.wf() by {
                        if i < index {
                            assert(self.threads@[i] == before[i]);
                        } else {
                            assert(self.threads@[i] == before[i + 1]);
                        }
                    }
                    assert forall|a: int, b: int|
                        0 <= a < self@.threads.len() && 0 <= b < self@.threads.len() && a != b implies #[trigger] self@.threads[a].thread_id
                        != #[trigger] self@.threads[b].thread_id by {
                        let a0 = if a < index {
                            a
                        } else {
                            a + 1
                        };
                        let b0 = if b < index {
                            b
                        } else {
                            b + 1
                        };
                        assert(self@.threads[a] == old(self)@.threads[a0]);
                        assert(self@.threads[b] == old(self)@.threads[b0]);
                        assert(old(self)@.threads[a0].thread_id != old(self)@.threads[b0].thread_id);
                    }
                }
            },
            None => {},
        }
    }
}

} // verus!
