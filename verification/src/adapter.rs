//! Per-thread state machine converting server notifications into profiler events.
//!
//! The notifications a profiler listens to arrive here as plain values: the caller records of each
//! one what the profiler reads, and keeps every other notification as `Notification::Other`.
use vstd::prelude::*;
use vstd::string::StringExecFns;

use crate::event::EventModel;
use crate::event::InvalidationReason;
use crate::event::ProfilerEvent;
use crate::item::opt_str_view;
use crate::observed::ObservedItem;
use crate::profiler::sat_inc;
use crate::usage::UsageSnapshot;

verus! {

/// How a turn ended, as the server reports it.
#[derive(Debug, Clone, Copy, PartialEq, Eq, Structural)]
pub enum TurnStatus {
    Completed,
    Interrupted,
    Failed,
    InProgress,
}

/// The token counts one response reported.
#[derive(Debug, Clone, Copy, PartialEq, Eq, Structural)]
pub struct ResponseUsage {
    pub total_tokens: i64,
    pub input_tokens: i64,
    pub cached_input_tokens: i64,
    pub cache_write_input_tokens: i64,
    pub output_tokens: i64,
    pub reasoning_output_tokens: i64,
}

/// What the profiler reads of one server notification.
#[derive(Debug, Clone, PartialEq, Eq)]
pub enum Notification {
    TurnStarted { turn_id: String },
    /// A response item, as it was sent to or received from the model.
    RawResponseItemCompleted { turn_id: String, item: ObservedItem },
    /// A response finished; `usage` is absent when the provider sent none.
    RawResponseCompleted { turn_id: String, response_id: String, usage: Option<ResponseUsage> },
    /// The thread's token usage: the last response's total and the model's context window.
    ThreadTokenUsageUpdated {
        turn_id: String,
        last_total_tokens: i64,
        model_context_window: Option<i64>,
    },
    TurnCompleted { turn_id: String, status: TurnStatus },
    /// A thread item completed; only a context compaction matters to the profiler.
    ItemCompleted { turn_id: String, context_compaction: bool },
    /// Any notification the profiler does not read.
    Other,
}

/// Extra payload fields that `ProfilerEvent` does not carry.
#[derive(Debug, Clone, PartialEq, Eq)]
pub struct RecordFields {
    pub turn_id: Option<String>,
    pub response_id: Option<String>,
    pub status: Option<String>,
    pub matches_anchor: Option<bool>,
}

/// The mathematical value of `RecordFields`.
pub struct FieldsModel {
    pub turn_id: Option<Seq<char>>,
    pub response_id: Option<Seq<char>>,
    pub status: Option<Seq<char>>,
    pub matches_anchor: Option<bool>,
}

impl View for RecordFields {
    type V = FieldsModel;

    open spec fn view(&self) -> FieldsModel {
        FieldsModel {
            turn_id: opt_str_view(self.turn_id),
            response_id: opt_str_view(self.response_id),
            status: opt_str_view(self.status),
            matches_anchor: self.matches_anchor,
        }
    }
}

/// Fields that carry nothing.
pub open spec fn no_fields() -> FieldsModel {
    FieldsModel { turn_id: None, response_id: None, status: None, matches_anchor: None }
}

impl Default for RecordFields {
    fn default() -> (r: RecordFields)
        ensures
            r@ == no_fields(),
    {
        RecordFields { turn_id: None, response_id: None, status: None, matches_anchor: None }
    }
}

/// One profiler event plus the trace-only payload the event itself does not carry.
pub struct Observation<'a> {
    pub event: ProfilerEvent<'a>,
    pub items_seq: u64,
    pub fields: RecordFields,
}

/// The mathematical value of an `Observation`.
pub struct ObservationModel {
    pub event: EventModel,
    pub items_seq: u64,
    pub fields: FieldsModel,
}

impl<'a> View for Observation<'a> {
    type V = ObservationModel;

    open spec fn view(&self) -> ObservationModel {
        ObservationModel { event: self.event@, items_seq: self.items_seq, fields: self.fields@ }
    }
}

/// The value of an optional observation.
pub open spec fn opt_observation_view<'a>(o: Option<Observation<'a>>) -> Option<ObservationModel> {
    match o {
        Some(o) => Some(o@),
        None => None,
    }
}

/// Converts notifications for one thread into profiler events.
pub struct ThreadProfilerAdapter {
    items_seq: u64,
    last_anchor_total: Option<i64>,
}

/// The mathematical value of a `ThreadProfilerAdapter`.
pub struct AdapterModel {
    /// Response items seen so far.
    pub items_seq: u64,
    /// The latest anchor's total, until a window update consumes it.
    pub last_anchor_total: Option<i64>,
}

impl View for ThreadProfilerAdapter {
    type V = AdapterModel;

    closed spec fn view(&self) -> AdapterModel {
        AdapterModel { items_seq: self.items_seq, last_anchor_total: self.last_anchor_total }
    }
}

/// The name a trace gives a turn status.
pub open spec fn spec_turn_status_name(status: TurnStatus) -> Seq<char> {
    match status {
        TurnStatus::Completed => "completed"@,
        TurnStatus::Interrupted => "interrupted"@,
        TurnStatus::Failed => "failed"@,
        TurnStatus::InProgress => "inProgress"@,
    }
}

pub fn turn_status_name(status: TurnStatus) -> (r: &'static str)
    ensures
        r@ == spec_turn_status_name(status),
{
    match status {
        TurnStatus::Completed => "completed",
        TurnStatus::Interrupted => "interrupted",
        TurnStatus::Failed => "failed",
        TurnStatus::InProgress => "inProgress",
    }
}

/// An observation with the adapter's current item count.
pub open spec fn observed(event: EventModel, items_seq: u64, fields: FieldsModel) -> Option<
    ObservationModel,
> {
    Some(ObservationModel { event, items_seq, fields })
}

/// What one notification does to an adapter, and the observation it yields, if any.
pub open spec fn spec_adapter_step(a: AdapterModel, n: Notification) -> (AdapterModel, Option<
    ObservationModel,
>) {
    match n {
        Notification::TurnStarted { turn_id } => (
            a,
            observed(EventModel::TurnStarted { turn_id: turn_id@ }, a.items_seq, no_fields()),
        ),
        Notification::RawResponseItemCompleted { turn_id, item } => {
            let seq = sat_inc(a.items_seq);
            (
                AdapterModel { items_seq: seq, ..a },
                observed(EventModel::Item { turn_id: turn_id@, item }, seq, no_fields()),
            )
        },
        Notification::RawResponseCompleted { turn_id, response_id, usage } => match usage {
            Some(usage) => (
                AdapterModel { last_anchor_total: Some(usage.total_tokens), ..a },
                observed(
                    EventModel::Usage {
                        turn_id: turn_id@,
                        usage: UsageSnapshot {
                            reported_context_tokens: usage.total_tokens,
                            input_tokens: usage.input_tokens,
                            cached_input_tokens: usage.cached_input_tokens,
                            cache_write_input_tokens: usage.cache_write_input_tokens,
                            output_tokens: usage.output_tokens,
                            reasoning_output_tokens: usage.reasoning_output_tokens,
                            items_seq: a.items_seq,
                        },
                    },
                    a.items_seq,
                    FieldsModel { response_id: Some(response_id@), ..no_fields() },
                ),
            ),
            None => (
                AdapterModel { last_anchor_total: None, ..a },
                observed(
                    EventModel::UsageMissing { turn_id: turn_id@ },
                    a.items_seq,
                    FieldsModel { response_id: Some(response_id@), ..no_fields() },
                ),
            ),
        },
        Notification::ThreadTokenUsageUpdated { turn_id, last_total_tokens, model_context_window } =>
            match model_context_window {
            // A windowless update consumes nothing.
            None => (a, None),
            Some(window) => (
                AdapterModel { last_anchor_total: None, ..a },
                observed(
                    EventModel::WindowUpdated { turn_id: turn_id@, window },
                    a.items_seq,
                    FieldsModel {
                        matches_anchor: match a.last_anchor_total {
                            Some(anchor) => Some(anchor == last_total_tokens),
                            None => None,
                        },
                        ..no_fields()
                    },
                ),
            ),
        },
        Notification::TurnCompleted { turn_id, status } => (
            a,
            observed(
                EventModel::TurnEnded {
                    turn_id: turn_id@,
                    completed: status == TurnStatus::Completed,
                },
                a.items_seq,
                FieldsModel { status: Some(spec_turn_status_name(status)), ..no_fields() },
            ),
        ),
        Notification::ItemCompleted { turn_id, context_compaction } => {
            if context_compaction {
                (
                    AdapterModel { last_anchor_total: None, ..a },
                    observed(
                        EventModel::Invalidated { reason: InvalidationReason::Compacted },
                        a.items_seq,
                        FieldsModel { turn_id: Some(turn_id@), ..no_fields() },
                    ),
                )
            } else {
                (a, None)
            }
        },
        Notification::Other => (a, None),
    }
}

/// A finished turn closes the profiler's turn, and counts as completed exactly when the server
/// reports it completed: an interrupted, failed or still running turn closes as not completed.
pub proof fn lemma_only_a_completed_turn_ends_completed(
    a: AdapterModel,
    turn_id: String,
    status: TurnStatus,
)
    ensures
        ({
            let (next, observation) = spec_adapter_step(
                a,
                Notification::TurnCompleted { turn_id, status },
            );
            &&& next == a
            &&& observation is Some
            &&& observation->0.event is TurnEnded
            &&& observation->0.event->TurnEnded_turn_id == turn_id@
            &&& observation->0.event->completed <==> status is Completed
            &&& (status is Failed || status is Interrupted || status is InProgress)
                ==> !observation->0.event->completed
        }),
{
}

/// Each response item advances the adapter's item count by one, and the item is handed on
/// unchanged in its turn, stamped with the new count.
pub proof fn lemma_each_item_advances_the_count(a: AdapterModel, turn_id: String, item: ObservedItem)
    requires
        a.items_seq < u64::MAX,
    ensures
        ({
            let (next, observation) = spec_adapter_step(
                a,
                Notification::RawResponseItemCompleted { turn_id, item },
            );
            &&& next.items_seq == a.items_seq + 1
            &&& next.last_anchor_total == a.last_anchor_total
            &&& observation is Some
            &&& observation->0.items_seq == a.items_seq + 1
            &&& observation->0.event == (EventModel::Item { turn_id: turn_id@, item })
        }),
{
}

/// A response's usage becomes an anchor stamped with the number of items seen so far, carrying
/// the reported counts unchanged; the adapter keeps its total to check later window updates. A
/// response without usage is a usage gap and forgets the previous total.
pub proof fn lemma_usage_is_anchored_at_the_item_count(
    a: AdapterModel,
    turn_id: String,
    response_id: String,
    usage: Option<ResponseUsage>,
)
    ensures
        ({
            let (next, observation) = spec_adapter_step(
                a,
                Notification::RawResponseCompleted { turn_id, response_id, usage },
            );
            &&& next.items_seq == a.items_seq
            &&& observation is Some
            &&& observation->0.items_seq == a.items_seq
            &&& observation->0.fields.response_id == Some(response_id@)
            &&& match usage {
                Some(u) => {
                    &&& next.last_anchor_total == Some(u.total_tokens)
                    &&& observation->0.event is Usage
                    &&& observation->0.event->Usage_turn_id == turn_id@
                    &&& observation->0.event->usage.reported_context_tokens == u.total_tokens
                    &&& observation->0.event->usage.input_tokens == u.input_tokens
                    &&& observation->0.event->usage.output_tokens == u.output_tokens
                    &&& observation->0.event->usage.cached_input_tokens == u.cached_input_tokens
                    &&& observation->0.event->usage.items_seq == a.items_seq
                },
                None => {
                    &&& next.last_anchor_total is None
                    &&& observation->0.event == (EventModel::UsageMissing { turn_id: turn_id@ })
                },
            }
        }),
{
}

/// A window update is passed on only when it names a window, and then says whether its total
/// matches the last anchor's; a compaction invalidates the profile; a started turn is passed on;
/// anything else yields nothing. Only response items count as items.
pub proof fn lemma_other_notifications(a: AdapterModel, n: Notification)
    ensures
        !(n is RawResponseItemCompleted) ==> spec_adapter_step(a, n).0.items_seq == a.items_seq,
        n is TurnStarted ==> spec_adapter_step(a, n).0 == a && spec_adapter_step(a, n).1 == Some(
            ObservationModel {
                event: EventModel::TurnStarted { turn_id: n->TurnStarted_turn_id@ },
                items_seq: a.items_seq,
                fields: no_fields(),
            },
        ),
        n is ThreadTokenUsageUpdated && n->model_context_window is None ==> spec_adapter_step(a, n)
            == (a, Option::<ObservationModel>::None),
        n is ThreadTokenUsageUpdated && n->model_context_window is Some ==> {
            &&& spec_adapter_step(a, n).1 is Some
            &&& spec_adapter_step(a, n).1->0.event == (EventModel::WindowUpdated {
                turn_id: n->ThreadTokenUsageUpdated_turn_id@,
                window: n->model_context_window->0,
            })
            &&& spec_adapter_step(a, n).1->0.fields.matches_anchor == (match a.last_anchor_total {
                Some(total) => Some(total == n->last_total_tokens),
                None => None,
            })
            &&& spec_adapter_step(a, n).0.last_anchor_total is None
        },
        n is ItemCompleted && n->context_compaction ==> spec_adapter_step(a, n).1 is Some
            && spec_adapter_step(a, n).1->0.event == (EventModel::Invalidated {
            reason: InvalidationReason::Compacted,
        }) && spec_adapter_step(a, n).0.last_anchor_total is None,
        n is ItemCompleted && !n->context_compaction ==> spec_adapter_step(a, n) == (
            a,
            Option::<ObservationModel>::None,
        ),
        n is Other ==> spec_adapter_step(a, n) == (a, Option::<ObservationModel>::None),
{
}

impl ThreadProfilerAdapter {
    pub fn new() -> (r: Self)
        ensures
            r@ == (AdapterModel { items_seq: 0, last_anchor_total: None }),
    {
        ThreadProfilerAdapter { items_seq: 0, last_anchor_total: None }
    }

    /// Drops the anchor so later window updates are not attributed to stale usage.
    pub fn invalidate(&mut self, reason: InvalidationReason) -> (r: Observation<'static>)
        ensures
            final(self)@ == (AdapterModel { last_anchor_total: None, ..old(self)@ }),
            r@ == (ObservationModel {
                event: EventModel::Invalidated { reason },
                items_seq: old(self)@.items_seq,
                fields: no_fields(),
            }),
    {
        self.last_anchor_total = None;
        Observation {
            event: ProfilerEvent::Invalidated { reason },
            items_seq: self.items_seq,
            fields: RecordFields::default(),
        }
    }

    pub fn observe<'a>(&mut self, notification: &'a Notification) -> (r: Option<Observation<'a>>)
        ensures
            (final(self)@, opt_observation_view(r)) == spec_adapter_step(old(self)@, *notification),
            notification is TurnCompleted ==> r is Some && r->0.event is TurnEnded && (
            r->0.event->completed <==> notification->status is Completed),
    {
        match notification {
            Notification::TurnStarted { turn_id } => Some(
                Observation {
                    event: ProfilerEvent::TurnStarted { turn_id: turn_id.as_str() },
                    items_seq: self.items_seq,
                    fields: RecordFields::default(),
                },
            ),
            Notification::RawResponseItemCompleted { turn_id, item } => {
                self.items_seq = self.items_seq.saturating_add(1);
                Some(
                    Observation {
                        event: ProfilerEvent::Item { turn_id: turn_id.as_str(), item },
                        items_seq: self.items_seq,
                        fields: RecordFields::default(),
                    },
                )
            },
            Notification::RawResponseCompleted { turn_id, response_id, usage } => match usage {
                Some(usage) => {
                    self.last_anchor_total = Some(usage.total_tokens);
                    Some(
                        Observation {
                            event: ProfilerEvent::Usage {
                                turn_id: turn_id.as_str(),
                                usage: UsageSnapshot {
                                    reported_context_tokens: usage.total_tokens,
                                    input_tokens: usage.input_tokens,
                                    cached_input_tokens: usage.cached_input_tokens,
                                    cache_write_input_tokens: usage.cache_write_input_tokens,
                                    output_tokens: usage.output_tokens,
                                    reasoning_output_tokens: usage.reasoning_output_tokens,
                                    items_seq: self.items_seq,
                                },
                            },
                            items_seq: self.items_seq,
                            fields: RecordFields {
                                turn_id: None,
                                response_id: Some(response_id.clone()),
                                status: None,
                                matches_anchor: None,
                            },
                        },
                    )
                },
                None => {
                    self.last_anchor_total = None;
                    Some(
                        Observation {
                            event: ProfilerEvent::UsageMissing { turn_id: turn_id.as_str() },
                            items_seq: self.items_seq,
                            fields: RecordFields {
                                turn_id: None,
                                response_id: Some(response_id.clone()),
                                status: None,
                                matches_anchor: None,
                            },
                        },
                    )
                },
            },
            Notification::ThreadTokenUsageUpdated {
                turn_id,
                last_total_tokens,
                model_context_window,
            } => {
                let window = match model_context_window {
                    Some(window) => *window,
                    None => return None,
                };
                let matches_anchor = match self.last_anchor_total {
                    Some(anchor) => Some(anchor == *last_total_tokens),
                    None => None,
                };
                self.last_anchor_total = None;
                Some(
                    Observation {
                        event: ProfilerEvent::WindowUpdated { turn_id: turn_id.as_str(), window },
                        items_seq: self.items_seq,
                        fields: RecordFields {
                            turn_id: None,
                            response_id: None,
                            status: None,
                            matches_anchor,
                        },
                    },
                )
            },
            Notification::TurnCompleted { turn_id, status } => {
                let completed = *status == TurnStatus::Completed;
                Some(
                    Observation {
                        event: ProfilerEvent::TurnEnded { turn_id: turn_id.as_str(), completed },
                        items_seq: self.items_seq,
                        fields: RecordFields {
                            turn_id: None,
                            response_id: None,
                            status: Some(String::from_str(turn_status_name(*status))),
                            matches_anchor: None,
                        },
                    },
                )
            },
            Notification::ItemCompleted { turn_id, context_compaction } => {
                if !*context_compaction {
                    return None;
                }
                self.last_anchor_total = None;
                Some(
                    Observation {
                        event: ProfilerEvent::Invalidated { reason: InvalidationReason::Compacted },
                        items_seq: self.items_seq,
                        fields: RecordFields {
                            turn_id: Some(turn_id.clone()),
                            response_id: None,
                            status: None,
                            matches_anchor: None,
                        },
                    },
                )
            },
            Notification::Other => None,
        }
    }
}

} // verus!
