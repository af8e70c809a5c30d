//! The record shape a trace log stores for each profiler observation. Never carries item text.
use vstd::prelude::*;
use vstd::string::StringExecFns;

use crate::adapter::Observation;
use crate::adapter::ObservationModel;
use crate::event::EventModel;
use crate::event::InvalidationReason;
use crate::item::opt_str_view;
use crate::observed::call_id;
use crate::observed::item_kind;
use crate::observed::spec_call_id;
use crate::observed::spec_item_kind;

verus! {

/// One observation, flattened for a trace log.
#[derive(Debug, Clone, PartialEq, Eq)]
pub struct RecordedEvent {
    pub thread_id: String,
    pub turn_id: Option<String>,
    pub kind: RecordedKind,
}

#[derive(Debug, Clone, PartialEq, Eq)]
pub enum RecordedKind {
    Attached,
    TurnStarted,
    Item {
        item_kind: String,
        bytes: usize,
        items_seq: u64,
        stamped_turn_id: Option<String>,
        call_id: Option<String>,
    },
    Usage {
        response_id: String,
        reported_context_tokens: i64,
        input_tokens: i64,
        cached_input_tokens: i64,
        cache_write_input_tokens: i64,
        output_tokens: i64,
        reasoning_output_tokens: i64,
        items_seq: u64,
    },
    MissingUsage { response_id: String },
    WindowUpdated { window: i64, matches_anchor: Option<bool> },
    TurnEnded { completed: bool, status: String },
    Invalidated { reason: String },
}

/// The mathematical value of a `RecordedKind`.
pub enum KindModel {
    Attached,
    TurnStarted,
    Item {
        item_kind: Seq<char>,
        bytes: usize,
        items_seq: u64,
        stamped_turn_id: Option<Seq<char>>,
        call_id: Option<Seq<char>>,
    },
    Usage {
        response_id: Seq<char>,
        reported_context_tokens: i64,
        input_tokens: i64,
        cached_input_tokens: i64,
        cache_write_input_tokens: i64,
        output_tokens: i64,
        reasoning_output_tokens: i64,
        items_seq: u64,
    },
    MissingUsage { response_id: Seq<char> },
    WindowUpdated { window: i64, matches_anchor: Option<bool> },
    TurnEnded { completed: bool, status: Seq<char> },
    Invalidated { reason: Seq<char> },
}

/// The mathematical value of a `RecordedEvent`.
pub struct RecordModel {
    pub thread_id: Seq<char>,
    pub turn_id: Option<Seq<char>>,
    pub kind: KindModel,
}

impl View for RecordedKind {
    type V = KindModel;

    open spec fn view(&self) -> KindModel {
        match self {
            RecordedKind::Attached => KindModel::Attached,
            RecordedKind::TurnStarted => KindModel::TurnStarted,
            RecordedKind::Item { item_kind, bytes, items_seq, stamped_turn_id, call_id } =>
                KindModel::Item {
                item_kind: item_kind@,
                bytes: *bytes,
                items_seq: *items_seq,
                stamped_turn_id: opt_str_view(*stamped_turn_id),
                call_id: opt_str_view(*call_id),
            },
            RecordedKind::Usage {
                response_id,
                reported_context_tokens,
                input_tokens,
                cached_input_tokens,
                cache_write_input_tokens,
                output_tokens,
                reasoning_output_tokens,
                items_seq,
            } => KindModel::Usage {
                response_id: response_id@,
                reported_context_tokens: *reported_context_tokens,
                input_tokens: *input_tokens,
                cached_input_tokens: *cached_input_tokens,
                cache_write_input_tokens: *cache_write_input_tokens,
                output_tokens: *output_tokens,
                reasoning_output_tokens: *reasoning_output_tokens,
                items_seq: *items_seq,
            },
            RecordedKind::MissingUsage { response_id } => KindModel::MissingUsage {
                response_id: response_id@,
            },
            RecordedKind::WindowUpdated { window, matches_anchor } => KindModel::WindowUpdated {
                window: *window,
                matches_anchor: *matches_anchor,
            },
            RecordedKind::TurnEnded { completed, status } => KindModel::TurnEnded {
                completed: *completed,
                status: status@,
            },
            RecordedKind::Invalidated { reason } => KindModel::Invalidated { reason: reason@ },
        }
    }
}

impl View for RecordedEvent {
    type V = RecordModel;

    open spec fn view(&self) -> RecordModel {
        RecordModel {
            thread_id: self.thread_id@,
            turn_id: opt_str_view(self.turn_id),
            kind: self.kind@,
        }
    }
}

/// The character of one decimal digit.
pub open spec fn digit_char(d: nat) -> char {
    if d == 0 {
        '0'
    } else if d == 1 {
        '1'
    } else if d == 2 {
        '2'
    } else if d == 3 {
        '3'
    } else if d == 4 {
        '4'
    } else if d == 5 {
        '5'
    } else if d == 6 {
        '6'
    } else if d == 7 {
        '7'
    } else if d == 8 {
        '8'
    } else {
        '9'
    }
}

/// The decimal representation of a natural number, without leading zeros.
pub open spec fn decimal(n: nat) -> Seq<char>
    decreases n,
{
    if n < 10 {
        seq![digit_char(n)]
    } else {
        decimal(n / 10).push(digit_char(n % 10))
    }
}

/// The one-digit string of `d`.
fn digit_str(d: u64) -> (r: &'static str)
    requires
        d < 10,
    ensures
        r@ == seq![digit_char(d as nat)],
{
    proof {
        reveal_strlit("0");
        reveal_strlit("1");
        reveal_strlit("2");
        reveal_strlit("3");
        reveal_strlit("4");
        reveal_strlit("5");
        reveal_strlit("6");
        reveal_strlit("7");
        reveal_strlit("8");
        reveal_strlit("9");
    }
    if d == 0 {
        "0"
    } else if d == 1 {
        "1"
    } else if d == 2 {
        "2"
    } else if d == 3 {
        "3"
    } else if d == 4 {
        "4"
    } else if d == 5 {
        "5"
    } else if d == 6 {
        "6"
    } else if d == 7 {
        "7"
    } else if d == 8 {
        "8"
    } else {
        "9"
    }
}

/// Appends `n` in decimal.
fn append_decimal(s: &mut String, n: u64)
    ensures
        final(s)@ == old(s)@ + decimal(n as nat),
    decreases n,
{
    if n >= 10 {
        append_decimal(s, n / 10);
    }
    s.append(digit_str(n % 10));
    proof {
        assert(old(s)@ + decimal(n as nat) =~= (if n >= 10 {
            old(s)@ + decimal((n / 10) as nat)
        } else {
            old(s)@
        }) + seq![digit_char((n % 10) as nat)]);
    }
}

/// How a trace names an invalidation.
pub open spec fn spec_invalidation_reason(reason: InvalidationReason) -> Seq<char> {
    match reason {
        InvalidationReason::EventsDropped { skipped } => "events_dropped(skipped="@ + decimal(
            skipped as nat,
        ) + ")"@,
        InvalidationReason::Compacted => "compacted"@,
        InvalidationReason::SequenceMismatch { anchor_items_seen, profiler_items_seen } =>
            "sequence_mismatch(anchor="@ + decimal(anchor_items_seen as nat) + ", profiler="@
            + decimal(profiler_items_seen as nat) + ")"@,
    }
}

pub fn invalidation_reason(reason: InvalidationReason) -> (r: String)
    ensures
        r@ == spec_invalidation_reason(reason),
{
    match reason {
        InvalidationReason::EventsDropped { skipped } => {
            let mut s = String::from_str("events_dropped(skipped=");
            append_decimal(&mut s, skipped as u64);
            s.append(")");
            s
        },
        InvalidationReason::Compacted => String::from_str("compacted"),
        InvalidationReason::SequenceMismatch { anchor_items_seen, profiler_items_seen } => {
            let mut s = String::from_str("sequence_mismatch(anchor=");
            append_decimal(&mut s, anchor_items_seen);
            s.append(", profiler=");
            append_decimal(&mut s, profiler_items_seen);
            s.append(")");
            s
        },
    }
}

/// The record written when a registry starts observing a thread.
pub fn attached_record(thread_id: &str) -> (r: RecordedEvent)
    ensures
        r@ == (RecordModel { thread_id: thread_id@, turn_id: None, kind: KindModel::Attached }),
{
    RecordedEvent { thread_id: String::from_str(thread_id), turn_id: None, kind: RecordedKind::Attached }
}

/// An optional string, or the empty string.
pub open spec fn or_empty(s: Option<Seq<char>>) -> Seq<char> {
    match s {
        Some(s) => s,
        None => Seq::empty(),
    }
}

/// The record of one observation.
pub open spec fn spec_record(thread_id: Seq<char>, o: ObservationModel) -> RecordModel {
    let fields = o.fields;
    let (turn_id, kind) = match o.event {
        EventModel::TurnStarted { turn_id } => (Some(turn_id), KindModel::TurnStarted),
        EventModel::Item { turn_id, item } => (
            Some(turn_id),
            KindModel::Item {
                item_kind: spec_item_kind(item.variant)@,
                bytes: item.bytes.unwrap_or(0),
                items_seq: o.items_seq,
                stamped_turn_id: opt_str_view(item.stamped_turn_id),
                call_id: spec_call_id(item),
            },
        ),
        EventModel::Usage { turn_id, usage } => (
            Some(turn_id),
            KindModel::Usage {
                response_id: or_empty(fields.response_id),
                reported_context_tokens: usage.reported_context_tokens,
                input_tokens: usage.input_tokens,
                cached_input_tokens: usage.cached_input_tokens,
                cache_write_input_tokens: usage.cache_write_input_tokens,
                output_tokens: usage.output_tokens,
                reasoning_output_tokens: usage.reasoning_output_tokens,
                items_seq: usage.items_seq,
            },
        ),
        EventModel::WindowUpdated { turn_id, window } => (
            Some(turn_id),
            KindModel::WindowUpdated { window, matches_anchor: fields.matches_anchor },
        ),
        EventModel::TurnEnded { turn_id, completed } => (
            Some(turn_id),
            KindModel::TurnEnded { completed, status: or_empty(fields.status) },
        ),
        EventModel::UsageMissing { turn_id } => (
            Some(turn_id),
            KindModel::MissingUsage { response_id: or_empty(fields.response_id) },
        ),
        EventModel::Invalidated { reason } => (
            fields.turn_id,
            KindModel::Invalidated { reason: spec_invalidation_reason(reason) },
        ),
    };
    RecordModel { thread_id, turn_id, kind }
}

/// A copy of an optional string, or the empty string.
fn cloned_or_empty(s: &Option<String>) -> (r: String)
    ensures
        r@ == or_empty(opt_str_view(*s)),
{
    match s {
        Some(s) => s.clone(),
        None => String::new(),
    }
}

fn cloned(s: &Option<String>) -> (r: Option<String>)
    ensures
        opt_str_view(r) == opt_str_view(*s),
{
    match s {
        Some(s) => Some(s.clone()),
        None => None,
    }
}

pub fn to_record(thread_id: &str, observation: &Observation<'_>) -> (r: RecordedEvent)
    ensures
        r@ == spec_record(thread_id@, observation@),
{
    let fields = &observation.fields;
    let (turn_id, kind) = match &observation.event {
        crate::event::ProfilerEvent::TurnStarted { turn_id } => (
            Some(String::from_str(turn_id)),
            RecordedKind::TurnStarted,
        ),
        crate::event::ProfilerEvent::Item { turn_id, item } => (
            Some(String::from_str(turn_id)),
            RecordedKind::Item {
                item_kind: String::from_str(item_kind(item)),
                bytes: match item.bytes {
                    Some(bytes) => bytes,
                    None => 0,
                },
                items_seq: observation.items_seq,
                stamped_turn_id: cloned(&item.stamped_turn_id),
                call_id: call_id(item),
            },
        ),
        crate::event::ProfilerEvent::Usage { turn_id, usage } => (
            Some(String::from_str(turn_id)),
            RecordedKind::Usage {
                response_id: cloned_or_empty(&fields.response_id),
                reported_context_tokens: usage.reported_context_tokens,
                input_tokens: usage.input_tokens,
                cached_input_tokens: usage.cached_input_tokens,
                cache_write_input_tokens: usage.cache_write_input_tokens,
                output_tokens: usage.output_tokens,
                reasoning_output_tokens: usage.reasoning_output_tokens,
                items_seq: usage.items_seq,
            },
        ),
        crate::event::ProfilerEvent::WindowUpdated { turn_id, window } => (
            Some(String::from_str(turn_id)),
            RecordedKind::WindowUpdated { window: *window, matches_anchor: fields.matches_anchor },
        ),
        crate::event::ProfilerEvent::TurnEnded { turn_id, completed } => (
            Some(String::from_str(turn_id)),
            RecordedKind::TurnEnded {
                completed: *completed,
                status: cloned_or_empty(&fields.status),
            },
        ),
        crate::event::ProfilerEvent::UsageMissing { turn_id } => (
            Some(String::from_str(turn_id)),
            RecordedKind::MissingUsage { response_id: cloned_or_empty(&fields.response_id) },
        ),
        crate::event::ProfilerEvent::Invalidated { reason } => (
            cloned(&fields.turn_id),
            RecordedKind::Invalidated { reason: invalidation_reason(*reason) },
        ),
    };
    RecordedEvent { thread_id: String::from_str(thread_id), turn_id, kind }
}

} // verus!
