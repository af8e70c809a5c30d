//! Input events consumed by the profiler.
use vstd::prelude::*;

use crate::observed::ObservedItem;
use crate::usage::UsageSnapshot;

verus! {

/// How a profiler began observing its thread, which decides whether a baseline is claimable.
#[derive(Debug, Clone, Copy, PartialEq, Eq, Structural)]
pub enum ObservationStart {
    /// Attached when the thread started, so the first request was observed.
    SessionStart,
    /// Attached to a thread already running; items before the attach were never seen.
    MidStream,
}

#[derive(Debug, Clone, Copy, PartialEq, Eq, Structural)]
pub enum InvalidationReason {
    /// Event lag is connection-level; adapters must broadcast it to every profiler.
    EventsDropped { skipped: usize },
    Compacted,
    /// An anchor's item count disagreed with the profiler's, so the item stream is incomplete.
    SequenceMismatch { anchor_items_seen: u64, profiler_items_seen: u64 },
}

/// One observation about a session's context, as seen by an adapter.
#[derive(Debug, Clone, PartialEq)]
pub enum ProfilerEvent<'a> {
    TurnStarted { turn_id: &'a str },
    Item { turn_id: &'a str, item: &'a ObservedItem },
    Usage { turn_id: &'a str, usage: UsageSnapshot },
    /// A response completed without usage: a boundary that prices nothing.
    UsageMissing { turn_id: &'a str },
    /// The model context window reported by the token-usage update.
    WindowUpdated { turn_id: &'a str, window: i64 },
    TurnEnded { turn_id: &'a str, completed: bool },
    /// Attribution can no longer be trusted from here on.
    Invalidated { reason: InvalidationReason },
}

/// The mathematical value of a `ProfilerEvent`.
pub enum EventModel {
    TurnStarted { turn_id: Seq<char> },
    Item { turn_id: Seq<char>, item: ObservedItem },
    Usage { turn_id: Seq<char>, usage: UsageSnapshot },
    UsageMissing { turn_id: Seq<char> },
    WindowUpdated { turn_id: Seq<char>, window: i64 },
    TurnEnded { turn_id: Seq<char>, completed: bool },
    Invalidated { reason: InvalidationReason },
}

impl<'a> View for ProfilerEvent<'a> {
    type V = EventModel;

    open spec fn view(&self) -> EventModel {
        match self {
            ProfilerEvent::TurnStarted { turn_id } => EventModel::TurnStarted { turn_id: turn_id@ },
            ProfilerEvent::Item { turn_id, item } => EventModel::Item {
                turn_id: turn_id@,
                item: **item,
            },
            ProfilerEvent::Usage { turn_id, usage } => EventModel::Usage {
                turn_id: turn_id@,
                usage: *usage,
            },
            ProfilerEvent::UsageMissing { turn_id } => EventModel::UsageMissing {
                turn_id: turn_id@,
            },
            ProfilerEvent::WindowUpdated { turn_id, window } => EventModel::WindowUpdated {
                turn_id: turn_id@,
                window: *window,
            },
            ProfilerEvent::TurnEnded { turn_id, completed } => EventModel::TurnEnded {
                turn_id: turn_id@,
                completed: *completed,
            },
            ProfilerEvent::Invalidated { reason } => EventModel::Invalidated { reason: *reason },
        }
    }
}

} // verus!
