//! Folds `ProfilerEvent`s into `ProfilerState`.
//!
//! The number of items seen, and every `ItemSummary::seq` derived from it, counts the items this
//! profiler was shown; it is never the number of items the server holds, nor the size of its
//! context.
use vstd::prelude::*;
use vstd::string::StrSliceExecFns;
use vstd::string::StringExecFns;

use crate::aggregate::build_by_category;
use crate::aggregate::build_groups;
use crate::aggregate::cat_count;
use crate::aggregate::cat_row;
use crate::aggregate::cat_tokens;
use crate::aggregate::category_totals_fit;
use crate::aggregate::items_total;
use crate::aggregate::items_view;
use crate::aggregate::key_exact;
use crate::aggregate::key_tokens;
use crate::aggregate::lemma_category_rows_are_the_present_categories;
use crate::aggregate::lemma_category_rows_sum_to_items_total;
use crate::aggregate::lemma_groups_partition_the_items;
use crate::aggregate::range_tokens;
use crate::aggregate::seqs_increase;
use crate::aggregate::spec_by_category;
use crate::aggregate::spec_groups;
use crate::classify::classify;
use crate::classify::lemma_output_is_never_user_input_or_instruction;
use crate::classify::spec_classify;
use crate::estimate::item_tokens;
use crate::estimate::spec_item_tokens;
use crate::event::EventModel;
use crate::event::InvalidationReason;
use crate::event::ObservationStart;
use crate::event::ProfilerEvent;
use crate::item::Category;
use crate::item::GroupKey;
use crate::item::GroupKeyModel;
use crate::item::ItemModel;
use crate::item::ItemSummary;
use crate::item::PricingKind;
use crate::item::TokenCost;
use crate::item::clamp_i64;
use crate::item::clamp_to_i64;
use crate::item::opt_str_view;
use crate::observed::ItemVariant;
use crate::observed::ObservedItem;
use crate::observed::call_id;
use crate::observed::item_kind;
use crate::observed::spec_call_id;
use crate::observed::spec_item_kind;
use crate::pricing::kind_count;
use crate::pricing::kind_tokens;
use crate::pricing::lemma_anchor_prices_its_span;
use crate::pricing::price_span;
use crate::pricing::span_is_ambiguous;
use crate::pricing::spec_price_span;
use crate::snapshot::InitialContextSummary;
use crate::snapshot::ProfilerState;
use crate::snapshot::SnapshotModel;
use crate::snapshot::StateModel;
use crate::snapshot::TurnDelta;
use crate::snapshot::TurnModel;
use crate::usage::UsageSnapshot;

verus! {

/// `n + 1`, held at `u64::MAX` rather than wrapping.
pub open spec fn sat_inc(n: u64) -> u64 {
    if n < u64::MAX {
        (n + 1) as u64
    } else {
        n
    }
}

/// `n + 1`, held at `u32::MAX` rather than wrapping.
pub open spec fn sat_inc32(n: u32) -> u32 {
    if n < u32::MAX {
        (n + 1) as u32
    } else {
        n
    }
}

/// The turn currently being folded; becomes a `TurnDelta` when it closes.
pub struct OpenTurnModel {
    pub turn_id: Seq<char>,
    pub index: u32,
    pub first_seq: u64,
    pub measured_before: Option<i64>,
    pub last_anchor: Option<i64>,
}

/// The mathematical value of a `ContextProfiler`: its published state and the trackers the fold
/// keeps beside it.
pub struct ProfilerModel {
    pub state: StateModel,
    pub start: ObservationStart,
    pub open_turn: Option<OpenTurnModel>,
    /// Survives turn ends: the next turn's `measured_before`.
    pub last_anchor_total: Option<i64>,
    /// Items with a seq above this wait for the next anchor to price them.
    pub span_start: u64,
    /// The previous anchor's total, while it may price the next span's input items: only within
    /// one turn, and only with no usage gap in between.
    pub span_previous_total: Option<i64>,
    /// Whether any anchor has been folded.
    pub anchored: bool,
    /// Whether the first anchor may still establish the baseline.
    pub baseline_open: bool,
}

/// The label an item is shown under: a function call's name, a message's first content kind, or
/// the item's variant.
pub open spec fn spec_label(item: ObservedItem) -> Seq<char> {
    match item.variant {
        ItemVariant::FunctionCall => match item.name {
            Some(name) => name@,
            None => spec_item_kind(item.variant)@,
        },
        ItemVariant::Message => match item.content_item_kinds {
            Some(kinds) => if kinds@.len() > 0 && kinds@[0]@.len() > 0 {
                kinds@[0]@
            } else {
                spec_item_kind(item.variant)@
            },
            None => spec_item_kind(item.variant)@,
        },
        _ => spec_item_kind(item.variant)@,
    }
}

/// The group an item joins: its call id when it has one, otherwise its own seq.
pub open spec fn spec_group(item: ObservedItem, seq: u64) -> GroupKeyModel {
    match spec_call_id(item) {
        Some(call_id) => GroupKeyModel::ToolCall(call_id),
        None => GroupKeyModel::Ungrouped(seq),
    }
}

/// A tool call and an output that carry the same call id join one group, keyed by that id,
/// wherever and whenever each was seen; an item with no call id forms a group of its own.
pub proof fn lemma_calls_group_with_their_outputs(
    call: ObservedItem,
    output: ObservedItem,
    call_seq: u64,
    output_seq: u64,
)
    requires
        call.variant == ItemVariant::FunctionCall || call.variant == ItemVariant::CustomToolCall
            || call.variant == ItemVariant::LocalShellCall || call.variant
            == ItemVariant::ToolSearchCall,
        output.variant == ItemVariant::FunctionCallOutput || output.variant
            == ItemVariant::CustomToolCallOutput || output.variant == ItemVariant::ToolSearchOutput,
        call.call_id is Some,
        opt_str_view(call.call_id) == opt_str_view(output.call_id),
    ensures
        spec_group(call, call_seq) == spec_group(output, output_seq),
        spec_group(call, call_seq) == GroupKeyModel::ToolCall(call.call_id->0@),
{
}

/// An item that carries no call id is a group of its own, keyed by its seq.
pub proof fn lemma_items_without_call_id_stand_alone(item: ObservedItem, seq: u64)
    requires
        item.call_id is None || item.variant == ItemVariant::Message || item.variant
            == ItemVariant::AgentMessage || item.variant == ItemVariant::Reasoning
            || item.variant == ItemVariant::WebSearchCall || item.variant
            == ItemVariant::ImageGenerationCall,
    ensures
        spec_group(item, seq) == GroupKeyModel::Ungrouped(seq),
{
}

/// The summary recorded for one observed item, before any anchor prices it.
pub open spec fn spec_summary(item: ObservedItem, seq: u64, turn_index: u32) -> ItemModel {
    let c = spec_classify(item);
    let bytes = item.bytes.unwrap_or(0);
    ItemModel {
        seq,
        turn_index,
        category: c.category,
        pricing: c.pricing,
        bytes,
        cost: TokenCost::Estimated(spec_item_tokens(c.category, c.parts, bytes)),
        label: spec_label(item),
        group: spec_group(item, seq),
        item_id: opt_str_view(item.id),
        parts: c.parts,
        warnings: c.warnings,
    }
}

impl ProfilerModel {
    pub open spec fn items(self) -> Seq<ItemModel> {
        self.state.snapshot.items
    }

    pub open spec fn items_seen(self) -> u64 {
        self.items().len() as u64
    }

    /// The snapshot with new items and the groups and totals derived from them.
    pub open spec fn with_items(self, items: Seq<ItemModel>) -> SnapshotModel {
        SnapshotModel {
            items,
            groups: spec_groups(items),
            by_category: spec_by_category(items),
            ..self.state.snapshot
        }
    }

    /// Opens a turn. It starts a new attribution span, except while the first anchor may still
    /// claim the baseline: that anchor prices every item seen since the session started.
    pub open spec fn opened(self, turn_id: Seq<char>) -> ProfilerModel {
        ProfilerModel {
            open_turn: Some(
                OpenTurnModel {
                    turn_id,
                    index: self.state.snapshot.turns.len() as u32,
                    first_seq: sat_inc(self.items_seen()),
                    measured_before: self.last_anchor_total,
                    last_anchor: None,
                },
            ),
            span_start: if !self.anchored && self.baseline_open {
                self.span_start
            } else {
                self.items_seen()
            },
            span_previous_total: None,
            ..self
        }
    }

    pub open spec fn closed(self, completed: bool) -> ProfilerModel {
        match self.open_turn {
            None => self,
            Some(turn) => {
                let delta = TurnModel {
                    turn_id: turn.turn_id,
                    index: turn.index,
                    first_seq: turn.first_seq,
                    last_seq: self.items_seen(),
                    estimated_added: clamp_i64(
                        range_tokens(self.items(), turn.first_seq - 1, self.items().len() as int),
                    ),
                    measured_before: turn.measured_before,
                    measured_after: if completed {
                        turn.last_anchor
                    } else {
                        None
                    },
                };
                ProfilerModel {
                    state: StateModel {
                        snapshot: SnapshotModel {
                            turns: self.state.snapshot.turns.push(delta),
                            ..self.state.snapshot
                        },
                        ..self.state
                    },
                    open_turn: None,
                    baseline_open: self.baseline_open && (self.anchored || completed),
                    ..self
                }
            },
        }
    }

    /// Opens an implicit turn for events that arrive outside one.
    pub open spec fn in_turn(self, turn_id: Seq<char>) -> ProfilerModel {
        if self.open_turn is None {
            self.opened(turn_id)
        } else {
            self
        }
    }

    pub open spec fn with_item(self, item: ObservedItem) -> ProfilerModel {
        let summary = spec_summary(item, sat_inc(self.items_seen()), self.open_turn->0.index);
        let items = self.items().push(summary);
        ProfilerModel {
            state: StateModel {
                snapshot: self.with_items(items),
                classification_warning_count: if summary.warnings.len() > 0 {
                    sat_inc32(self.state.classification_warning_count)
                } else {
                    self.state.classification_warning_count
                },
                unsizable_item_count: if item.bytes is None {
                    sat_inc32(self.state.unsizable_item_count)
                } else {
                    self.state.unsizable_item_count
                },
                usage_pending: true,
                ..self.state
            },
            ..self
        }
    }

    pub open spec fn with_usage_missing(self) -> ProfilerModel {
        ProfilerModel {
            span_start: self.items_seen(),
            span_previous_total: None,
            baseline_open: false,
            ..self
        }
    }

    pub open spec fn with_anchor(self, usage: UsageSnapshot) -> ProfilerModel {
        let items = spec_price_span(
            self.items(),
            self.span_start as int,
            usage,
            self.span_previous_total,
        );
        let reported = usage.reported_context_tokens;
        let residual = reported - items_total(items);
        let claim = baseline_claimable(self, items, usage, residual);
        let baseline = if claim {
            Some(residual as i64)
        } else {
            self.state.snapshot.baseline_tokens
        };
        let initial = if claim {
            Some(
                InitialContextSummary {
                    first_request_input_tokens: usage.input_tokens,
                    estimated_user_input_tokens: cat_tokens(items, Category::UserMessage) as i64,
                    estimated_instruction_tokens: cat_tokens(items, Category::Instructions) as i64,
                },
            )
        } else {
            self.state.snapshot.initial_context
        };
        ProfilerModel {
            state: StateModel {
                snapshot: SnapshotModel {
                    reported_context_tokens: Some(reported),
                    baseline_tokens: baseline,
                    initial_context: initial,
                    drift_tokens: match baseline {
                        Some(b) => clamp_i64(residual - b),
                        None => 0,
                    },
                    ..self.with_items(items)
                },
                usage_pending: false,
                anchors: self.state.anchors.push(usage),
                seq_mismatch_count: if usage.items_seq != self.items_seen() {
                    sat_inc32(self.state.seq_mismatch_count)
                } else {
                    self.state.seq_mismatch_count
                },
                ..self.state
            },
            open_turn: match self.open_turn {
                Some(turn) => Some(OpenTurnModel { last_anchor: Some(reported), ..turn }),
                None => None,
            },
            last_anchor_total: Some(reported),
            span_start: self.items_seen(),
            span_previous_total: Some(reported),
            anchored: true,
            ..self
        }
    }

    pub open spec fn invalidated_by(self, reason: InvalidationReason) -> ProfilerModel {
        ProfilerModel { state: StateModel { invalidated: Some(reason), ..self.state }, ..self }
    }

    pub open spec fn with_window(self, window: i64) -> ProfilerModel {
        ProfilerModel {
            state: StateModel {
                snapshot: SnapshotModel { window: Some(window), ..self.state.snapshot },
                ..self.state
            },
            ..self
        }
    }
}

/// Whether every item of the first request is one whose cost both startup routes account for:
/// an output of the response, or user input, or an injected instruction.
pub open spec fn prefix_is_accountable(items: Seq<ItemModel>) -> bool {
    forall|i: int|
        0 <= i < items.len() ==> {
            ||| #[trigger] items[i].pricing == PricingKind::Output
            ||| (items[i].pricing == PricingKind::Input && (items[i].category
                == Category::UserMessage || items[i].category == Category::Instructions))
        }
}

/// Whether the response's output total was spread over at least one item, or was zero.
pub open spec fn output_is_carried(items: Seq<ItemModel>, usage: UsageSnapshot) -> bool {
    usage.output_tokens == 0 || exists|i: int|
        0 <= i < items.len() && #[trigger] items[i].pricing == PricingKind::Output
}

/// Whether the residual at this anchor is the startup baseline: the first anchor of a session
/// observed from its start, with no usage gap or interrupted turn before it, counting exactly the
/// items seen, over a prefix both startup routes account for, and a residual that is neither
/// negative nor out of range.
pub open spec fn baseline_claimable(
    m: ProfilerModel,
    items: Seq<ItemModel>,
    usage: UsageSnapshot,
    residual: int,
) -> bool {
    &&& !m.anchored
    &&& m.baseline_open
    &&& m.start == ObservationStart::SessionStart
    &&& items.len() >= 1
    &&& usage.items_seq == items.len()
    &&& prefix_is_accountable(items)
    &&& output_is_carried(items, usage)
    &&& usage.reported_context_tokens == usage.input_tokens + usage.output_tokens
    &&& 0 <= residual <= i64::MAX
    &&& i64::MIN <= cat_tokens(items, Category::UserMessage) <= i64::MAX
    &&& i64::MIN <= cat_tokens(items, Category::Instructions) <= i64::MAX
}

/// One fold step: what a profiler becomes when it observes one event.
pub open spec fn spec_step(m: ProfilerModel, event: EventModel) -> ProfilerModel {
    if m.state.invalidated is Some {
        match event {
            EventModel::WindowUpdated { window, .. } => m.with_window(window),
            _ => m,
        }
    } else {
        match event {
            EventModel::TurnStarted { turn_id } => m.closed(false).opened(turn_id),
            EventModel::Item { turn_id, item } => m.in_turn(turn_id).with_item(item),
            EventModel::Usage { turn_id, usage } => m.in_turn(turn_id).with_anchor(usage),
            EventModel::UsageMissing { turn_id } => m.in_turn(turn_id).with_usage_missing(),
            EventModel::WindowUpdated { window, .. } => m.with_window(window),
            EventModel::TurnEnded { completed, .. } => m.closed(completed),
            EventModel::Invalidated { reason } => m.invalidated_by(reason),
        }
    }
}

/// Whether no item a response produced counts as user input or an instruction.
pub open spec fn outputs_are_responses(items: Seq<ItemModel>) -> bool {
    forall|i: int|
        0 <= i < items.len() && #[trigger] items[i].pricing == PricingKind::Output ==> items[i].category
            != Category::UserMessage && items[i].category != Category::Instructions
}

/// Whether every item carries its position in observation order as its seq.
pub open spec fn seqs_follow_order(items: Seq<ItemModel>) -> bool {
    forall|i: int| 0 <= i < items.len() && i + 1 <= u64::MAX ==> #[trigger] items[i].seq == i + 1
}

/// Whether every item still carries its own non-negative estimate, as before any anchor.
pub open spec fn estimates_only(items: Seq<ItemModel>) -> bool {
    forall|i: int|
        0 <= i < items.len() ==> (#[trigger] items[i]).cost is Estimated && items[i].cost.spec_tokens()
            >= 0
}

/// Whether an initial-context summary agrees with a baseline: its hidden part is the baseline, it
/// is never negative, and no part exceeds the measured first request.
pub open spec fn startup_routes_agree(summary: InitialContextSummary, baseline: i64) -> bool {
    &&& summary.spec_hidden_tokens() == baseline
    &&& 0 <= summary.spec_hidden_tokens()
    &&& summary.spec_hidden_tokens() <= summary.spec_startup_context_tokens()
    &&& summary.spec_startup_context_tokens() <= summary.first_request_input_tokens
}

/// The drift the last anchor solved for: what the reported total leaves once the items and the
/// baseline are taken out, or nothing while no baseline is known.
pub open spec fn settled_drift(snapshot: SnapshotModel) -> i64 {
    match snapshot.baseline_tokens {
        Some(b) => clamp_i64(
            snapshot.reported_context_tokens->0 - items_total(snapshot.items) - b,
        ),
        None => 0,
    }
}

/// What the fold keeps true of every profiler.
pub open spec fn model_inv(m: ProfilerModel) -> bool {
    &&& m.anchored == (m.state.snapshot.reported_context_tokens is Some)
    &&& m.anchored == (m.state.anchors.len() > 0)
    &&& (m.state.snapshot.baseline_tokens is Some) == (m.state.snapshot.initial_context is Some)
    &&& m.state.snapshot.initial_context matches Some(summary) ==> startup_routes_agree(
        summary,
        m.state.snapshot.baseline_tokens->0,
    )
    &&& m.state.snapshot.baseline_tokens is Some ==> m.start == ObservationStart::SessionStart
    &&& (m.anchored && !m.state.usage_pending) ==> m.state.snapshot.drift_tokens == settled_drift(
        m.state.snapshot,
    )
    &&& m.span_start <= m.items().len()
    &&& m.state.snapshot.groups == spec_groups(m.items())
    &&& m.state.snapshot.by_category == spec_by_category(m.items())
    &&& outputs_are_responses(m.items())
    &&& seqs_follow_order(m.items())
    &&& (m.state.snapshot.baseline_tokens is Some || m.state.snapshot.initial_context is Some)
        ==> m.anchored
    &&& !m.anchored ==> estimates_only(m.items())
    &&& (!m.anchored && m.baseline_open) ==> (m.span_start == 0 && m.span_previous_total is None)
}

/// The turn currently being folded.
struct OpenTurn {
    turn_id: String,
    index: u32,
    first_seq: u64,
    measured_before: Option<i64>,
    last_anchor: Option<i64>,
}

impl View for OpenTurn {
    type V = OpenTurnModel;

    closed spec fn view(&self) -> OpenTurnModel {
        OpenTurnModel {
            turn_id: self.turn_id@,
            index: self.index,
            first_seq: self.first_seq,
            measured_before: self.measured_before,
            last_anchor: self.last_anchor,
        }
    }
}

/// Folds one session's events into what its context window holds.
pub struct ContextProfiler {
    state: ProfilerState,
    start: ObservationStart,
    /// Items observed so far; incremented before it is stamped, matching the adapter.
    items_seen: u64,
    last_anchor_total: Option<i64>,
    open_turn: Option<OpenTurn>,
    span_start: u64,
    span_previous_total: Option<i64>,
    anchored: bool,
    baseline_open: bool,
}

impl View for ContextProfiler {
    type V = ProfilerModel;

    closed spec fn view(&self) -> ProfilerModel {
        ProfilerModel {
            state: self.state@,
            start: self.start,
            open_turn: match self.open_turn {
                Some(turn) => Some(turn@),
                None => None,
            },
            last_anchor_total: self.last_anchor_total,
            span_start: self.span_start,
            span_previous_total: self.span_previous_total,
            anchored: self.anchored,
            baseline_open: self.baseline_open,
        }
    }
}

/// The profiler of a session observed from its start or from a later attach.
pub open spec fn initial_model(start: ObservationStart) -> ProfilerModel {
    ProfilerModel {
        state: StateModel {
            snapshot: SnapshotModel {
                window: None,
                reported_context_tokens: None,
                initial_context: None,
                items: Seq::empty(),
                by_category: spec_by_category(Seq::empty()),
                baseline_tokens: None,
                drift_tokens: 0,
                groups: spec_groups(Seq::empty()),
                turns: Seq::empty(),
            },
            invalidated: None,
            classification_warning_count: 0,
            unsizable_item_count: 0,
            seq_mismatch_count: 0,
            usage_pending: false,
            anchors: Seq::empty(),
        },
        start,
        open_turn: None,
        last_anchor_total: None,
        span_start: 0,
        span_previous_total: None,
        anchored: false,
        baseline_open: true,
    }
}

/// Opening an implicit turn touches neither the items nor what is derived from them.
proof fn lemma_in_turn_keeps_invariant(m: ProfilerModel, turn_id: Seq<char>)
    requires
        model_inv(m),
    ensures
        model_inv(m.in_turn(turn_id)),
        m.in_turn(turn_id).items() == m.items(),
        m.in_turn(turn_id).anchored == m.anchored,
        m.in_turn(turn_id).baseline_open == m.baseline_open,
        m.in_turn(turn_id).start == m.start,
        m.in_turn(turn_id).state.snapshot.baseline_tokens == m.state.snapshot.baseline_tokens,
        m.in_turn(turn_id).state.snapshot.initial_context == m.state.snapshot.initial_context,
        m.in_turn(turn_id).open_turn is Some,
{
}

/// Every fold step keeps the profiler's invariant.
pub proof fn lemma_step_keeps_invariant(m: ProfilerModel, event: EventModel)
    requires
        model_inv(m),
    ensures
        model_inv(spec_step(m, event)),
{
    if m.state.invalidated is None {
        match event {
            EventModel::Item { turn_id, item } => {
                let m1 = m.in_turn(turn_id);
                lemma_in_turn_keeps_invariant(m, turn_id);
                lemma_output_is_never_user_input_or_instruction(item);
                let c = spec_classify(item);
                crate::estimate::lemma_item_tokens_nonnegative(
                    c.category,
                    c.parts,
                    item.bytes.unwrap_or(0),
                );
                let r = m1.with_item(item);
                let summary = spec_summary(item, sat_inc(m1.items_seen()), m1.open_turn->0.index);
                assert(r.items() == m1.items().push(summary));
                assert forall|i: int|
                    0 <= i < r.items().len() && #[trigger] r.items()[i].pricing
                        == PricingKind::Output implies r.items()[i].category != Category::UserMessage
                    && r.items()[i].category != Category::Instructions by {
                    if i < m1.items().len() {
                        assert(r.items()[i] == m1.items()[i]);
                    }
                }
                assert forall|i: int| 0 <= i < r.items().len() && i + 1 <= u64::MAX implies #[trigger] r.items()[i].seq == i + 1 by {
                    if i < m1.items().len() {
                        assert(r.items()[i] == m1.items()[i]);
                    }
                }
                if !r.anchored {
                    assert forall|i: int| 0 <= i < r.items().len() implies (
                    #[trigger] r.items()[i]).cost is Estimated && r.items()[i].cost.spec_tokens()
                        >= 0 by {
                        if i < m1.items().len() {
                            assert(r.items()[i] == m1.items()[i]);
                        }
                    }
                }
            },
            EventModel::Usage { turn_id, usage } => {
                let m1 = m.in_turn(turn_id);
                lemma_in_turn_keeps_invariant(m, turn_id);
                lemma_anchor_prices_its_span(
                    m1.items(),
                    m1.span_start as int,
                    usage,
                    m1.span_previous_total,
                );
                let r = m1.with_anchor(usage);
                if m.state.snapshot.baseline_tokens is None && r.state.snapshot.baseline_tokens is Some {
                    lemma_claimed_baseline_is_the_hidden_startup_context(m, event);
                }
                assert forall|i: int|
                    0 <= i < r.items().len() && #[trigger] r.items()[i].pricing
                        == PricingKind::Output implies r.items()[i].category
                    != Category::UserMessage && r.items()[i].category
                    != Category::Instructions by {
                    assert(r.items()[i] == m1.items()[i].priced(r.items()[i].cost));
                }
                assert forall|i: int| 0 <= i < r.items().len() && i + 1 <= u64::MAX implies #[trigger] r.items()[i].seq == i + 1 by {
                    assert(r.items()[i] == m1.items()[i].priced(r.items()[i].cost));
                }
            },
            EventModel::UsageMissing { turn_id } => {
                lemma_in_turn_keeps_invariant(m, turn_id);
            },
            _ => {},
        }
    }
}

/// The items' summed tokens split by pricing kind.
proof fn lemma_total_by_kind(items: Seq<ItemModel>, hi: int)
    requires
        0 <= hi <= items.len(),
    ensures
        range_tokens(items, 0, hi) == kind_tokens(items, 0, hi, PricingKind::Output) + kind_tokens(
            items,
            0,
            hi,
            PricingKind::Input,
        ) + kind_tokens(items, 0, hi, PricingKind::Ambiguous),
    decreases hi,
{
    if hi > 0 {
        lemma_total_by_kind(items, hi - 1);
    }
}

/// When every input item is user input or an instruction and no other item is, the two
/// categories together hold exactly the input items' tokens.
proof fn lemma_input_tokens_by_category(items: Seq<ItemModel>, hi: int)
    requires
        0 <= hi <= items.len(),
        prefix_is_accountable(items),
        outputs_are_responses(items),
    ensures
        cat_tokens(items.take(hi), Category::UserMessage) + cat_tokens(
            items.take(hi),
            Category::Instructions,
        ) == kind_tokens(items, 0, hi, PricingKind::Input),
    decreases hi,
{
    if hi > 0 {
        lemma_input_tokens_by_category(items, hi - 1);
        let prefix = items.take(hi);
        assert(prefix.drop_last() =~= items.take(hi - 1));
        assert(prefix.last() == items[hi - 1]);
        let item = items[hi - 1];
        assert(item.pricing == PricingKind::Output || (item.pricing == PricingKind::Input && (
        item.category == Category::UserMessage || item.category == Category::Instructions)));
    }
}

/// An item of one kind in `[lo, hi)` makes that kind present there.
proof fn lemma_kind_present(items: Seq<ItemModel>, lo: int, hi: int, kind: PricingKind, i: int)
    requires
        lo <= i < hi,
        items[i].pricing == kind,
    ensures
        kind_count(items, lo, hi, kind) >= 1,
    decreases hi - lo,
{
    if i < hi - 1 {
        lemma_kind_present(items, lo, hi - 1, kind, i);
    }
    lemma_kind_count_nonnegative(items, lo, hi - 1, kind);
}

proof fn lemma_kind_count_nonnegative(items: Seq<ItemModel>, lo: int, hi: int, kind: PricingKind)
    ensures
        kind_count(items, lo, hi, kind) >= 0,
    decreases hi - lo,
{
    if hi > lo {
        lemma_kind_count_nonnegative(items, lo, hi - 1, kind);
    }
}

/// A baseline is claimed only at a session's first anchor, and what it claims is exactly the
/// startup context the initial-context summary hides: the first request's input, less the user
/// input and the instructions the profiler saw. The summary is bounded by that measurement: the
/// hidden part is never negative, and no part exceeds the measured first request.
pub proof fn lemma_claimed_baseline_is_the_hidden_startup_context(
    m: ProfilerModel,
    event: EventModel,
)
    requires
        model_inv(m),
        m.state.snapshot.baseline_tokens is None,
        spec_step(m, event).state.snapshot.baseline_tokens is Some,
    ensures
        spec_step(m, event).state.snapshot.initial_context matches Some(summary)
            && summary.spec_hidden_tokens() == spec_step(
            m,
            event,
        ).state.snapshot.baseline_tokens->0,
        spec_step(m, event).state.snapshot.initial_context matches Some(summary) && {
            &&& 0 <= summary.spec_hidden_tokens()
            &&& summary.spec_hidden_tokens() <= summary.spec_startup_context_tokens()
            &&& summary.spec_startup_context_tokens() <= summary.first_request_input_tokens
        },
{
    match event {
        EventModel::Usage { turn_id, usage } => {
            let m1 = m.in_turn(turn_id);
            lemma_in_turn_keeps_invariant(m, turn_id);
            let items = spec_price_span(m1.items(), m1.span_start as int, usage, m1.span_previous_total);
            let n = items.len() as int;
            let residual = usage.reported_context_tokens - items_total(items);
            let claim = baseline_claimable(m1, items, usage, residual);
            assert(claim);
            assert(m1.span_start == 0);
            assert(m1.span_previous_total is None);
            lemma_anchor_prices_its_span(m1.items(), 0, usage, None);
            assert forall|i: int| 0 <= i < n implies #[trigger] items[i].pricing
                == m1.items()[i].pricing && items[i].category == m1.items()[i].category by {
                assert(items[i] == m1.items()[i].priced(items[i].cost));
            }
            assert(outputs_are_responses(items));
            if span_is_ambiguous(m1.items(), 0) {
                let k = choose|k: int|
                    0 <= k < n && #[trigger] m1.items()[k].pricing == PricingKind::Ambiguous;
                assert(items[k].pricing == PricingKind::Ambiguous);
                assert(false);
            }
            lemma_total_by_kind(items, n);
            lemma_input_tokens_by_category(items, n);
            assert(items.take(n) =~= items);
            lemma_kind_count_nonnegative(items, 0, n, PricingKind::Ambiguous);
            if kind_count(items, 0, n, PricingKind::Ambiguous) != 0 {
                let k = kind_witness(items, 0, n, PricingKind::Ambiguous);
                assert(items[k].pricing == PricingKind::Ambiguous);
                assert(false);
            }
            crate::pricing::lemma_no_kind_sums_to_zero(
                items,
                0,
                n,
                PricingKind::Ambiguous,
                0,
                0,
                0,
            );
            assert forall|i: int|
                0 <= i < n && (items[i].category == Category::UserMessage || items[i].category
                    == Category::Instructions) implies #[trigger] items[i].cost.spec_tokens()
                >= 0 by {
                assert(items[i].pricing == PricingKind::Input);
                assert(items[i] == m1.items()[i]);
            }
            lemma_category_nonnegative(items, Category::UserMessage);
            lemma_category_nonnegative(items, Category::Instructions);
            if kind_count(m1.items(), 0, n, PricingKind::Output) >= 1 {
                assert(kind_tokens(items, 0, n, PricingKind::Output) == usage.output_tokens);
            } else {
                lemma_kind_count_nonnegative(m1.items(), 0, n, PricingKind::Output);
                if usage.output_tokens != 0 {
                    let k = choose|k: int|
                        0 <= k < n && #[trigger] items[k].pricing == PricingKind::Output;
                    lemma_kind_present(m1.items(), 0, n, PricingKind::Output, k);
                }
                crate::pricing::lemma_kind_count_same(items, m1.items(), 0, n, PricingKind::Output);
                crate::pricing::lemma_no_kind_sums_to_zero(
                    items,
                    0,
                    n,
                    PricingKind::Output,
                    0,
                    0,
                    0,
                );
            }
        },
        _ => {},
    }
}

/// Once invalidated, a profiler takes nothing from any event but a window update.
pub proof fn lemma_invalidation_freezes_all_but_the_window(m: ProfilerModel, event: EventModel)
    requires
        m.state.invalidated is Some,
    ensures
        spec_step(m, event) == (match event {
            EventModel::WindowUpdated { window, .. } => m.with_window(window),
            _ => m,
        }),
{
}

/// A claimed baseline, and the initial-context summary claimed with it, never change afterwards.
pub proof fn lemma_claimed_baseline_is_frozen(m: ProfilerModel, event: EventModel)
    requires
        model_inv(m),
        m.state.snapshot.baseline_tokens is Some,
    ensures
        spec_step(m, event).state.snapshot.baseline_tokens == m.state.snapshot.baseline_tokens,
        spec_step(m, event).state.snapshot.initial_context == m.state.snapshot.initial_context,
{
    match event {
        EventModel::Usage { turn_id, .. } => {
            lemma_in_turn_keeps_invariant(m, turn_id);
        },
        _ => {},
    }
}

/// Right after an anchor, once a baseline is known, the reported total is fully explained: the
/// items' costs, the baseline and the drift add up to it, unless a total is too large for an `i64`
/// and saturates.
pub proof fn lemma_anchor_explains_the_reported_total(
    m: ProfilerModel,
    turn_id: Seq<char>,
    usage: UsageSnapshot,
)
    requires
        model_inv(m),
        m.state.invalidated is None,
        spec_step(m, EventModel::Usage { turn_id, usage }).state.snapshot.baseline_tokens is Some,
        category_totals_fit(spec_step(m, EventModel::Usage { turn_id, usage }).items()),
        ({
            let r = spec_step(m, EventModel::Usage { turn_id, usage });
            i64::MIN <= usage.reported_context_tokens - items_total(r.items())
                - r.state.snapshot.baseline_tokens->0 <= i64::MAX
        }),
    ensures
        spec_step(m, EventModel::Usage { turn_id, usage }).state.snapshot.explained()
            == usage.reported_context_tokens,
        spec_step(m, EventModel::Usage { turn_id, usage }).state.snapshot.reported_context_tokens
            == Some(usage.reported_context_tokens),
{
    let r = spec_step(m, EventModel::Usage { turn_id, usage });
    lemma_category_rows_sum_to_items_total(r.items());
}

/// A fresh profiler satisfies the fold's invariant, so every profiler a fold produces does.
pub proof fn lemma_initial_model_keeps_invariant(start: ObservationStart)
    ensures
        model_inv(initial_model(start)),
{
}

/// An interrupted turn closes with no measured end, so its measured change is unknown; the anchor
/// it saw still seeds the next turn's measured start.
pub proof fn lemma_interrupted_turn_seeds_the_next(
    m: ProfilerModel,
    turn_id: Seq<char>,
    next_turn_id: Seq<char>,
)
    requires
        m.state.invalidated is None,
        m.open_turn is Some,
    ensures
        ({
            let ended = spec_step(m, EventModel::TurnEnded { turn_id, completed: false });
            let next = spec_step(ended, EventModel::TurnStarted { turn_id: next_turn_id });
            &&& ended.state.snapshot.turns.len() == m.state.snapshot.turns.len() + 1
            &&& ended.state.snapshot.turns.last().measured_after is None
            &&& next.open_turn matches Some(turn) && turn.measured_before == m.last_anchor_total
        }),
{
}

/// What a profiler becomes when it observes a sequence of events, in order.
pub open spec fn spec_fold(m: ProfilerModel, events: Seq<EventModel>) -> ProfilerModel
    decreases events.len(),
{
    if events.len() == 0 {
        m
    } else {
        spec_step(spec_fold(m, events.drop_last()), events.last())
    }
}

/// Observing one more event is one more fold step on what the earlier events produced.
pub proof fn lemma_fold_one_more(m: ProfilerModel, events: Seq<EventModel>, event: EventModel)
    ensures
        spec_fold(m, events.push(event)) == spec_step(spec_fold(m, events), event),
{
    assert(events.push(event).drop_last() =~= events);
}

/// Every profiler that a sequence of events produces from a fresh start keeps the fold's
/// invariant, so each law stated of `model_inv` holds of every reachable state.
pub proof fn lemma_fold_keeps_invariant(start: ObservationStart, events: Seq<EventModel>)
    ensures
        model_inv(spec_fold(initial_model(start), events)),
    decreases events.len(),
{
    if events.len() > 0 {
        lemma_fold_keeps_invariant(start, events.drop_last());
        lemma_step_keeps_invariant(
            spec_fold(initial_model(start), events.drop_last()),
            events.last(),
        );
    }
}

/// The groups and the category totals are functions of the items alone: two profilers that hold
/// the same items show the same groups and totals, whatever order any map was walked in.
pub proof fn lemma_derived_views_depend_on_items_alone(a: ProfilerModel, b: ProfilerModel)
    requires
        model_inv(a),
        model_inv(b),
        a.items() == b.items(),
    ensures
        a.state.snapshot.groups == b.state.snapshot.groups,
        a.state.snapshot.by_category == b.state.snapshot.by_category,
{
}

/// The two startup routes agree in every state: the baseline and the initial-context summary are
/// known together, and the summary's hidden part is exactly the baseline, never negative, and no
/// part of it exceeds the measured first request.
pub proof fn lemma_startup_routes_agree(m: ProfilerModel)
    requires
        model_inv(m),
    ensures
        (m.state.snapshot.baseline_tokens is Some) == (m.state.snapshot.initial_context is Some),
        m.state.snapshot.initial_context matches Some(summary) ==> startup_routes_agree(
            summary,
            m.state.snapshot.baseline_tokens->0,
        ),
{
}

/// A baseline is only ever known for a session observed from its start, and only once an anchor
/// has been folded.
pub proof fn lemma_baseline_needs_a_session_start(m: ProfilerModel)
    requires
        model_inv(m),
        m.state.snapshot.baseline_tokens is Some,
    ensures
        m.start == ObservationStart::SessionStart,
        m.state.anchors.len() >= 1,
        m.state.snapshot.reported_context_tokens is Some,
{
}

/// In every state, the attributed tokens (the category totals) are the items' summed costs:
/// neither the baseline nor the drift is among them.
pub proof fn lemma_attributed_is_the_items_total(m: ProfilerModel)
    requires
        model_inv(m),
        category_totals_fit(m.items()),
    ensures
        m.state.snapshot.attributed() == items_total(m.items()),
{
    lemma_category_rows_sum_to_items_total(m.items());
}

/// Whenever no item has arrived since the last anchor and a baseline is known, the breakdown
/// sums to the measured occupancy: items, baseline and drift add up to the reported total, unless
/// the drift is too large for an `i64` and saturates.
pub proof fn lemma_settled_breakdown_explains_the_reported_total(m: ProfilerModel)
    requires
        model_inv(m),
        m.state.snapshot.reported_context_tokens is Some,
        !m.state.usage_pending,
        m.state.snapshot.baseline_tokens is Some,
        category_totals_fit(m.items()),
        i64::MIN <= m.state.snapshot.reported_context_tokens->0 - items_total(m.items())
            - m.state.snapshot.baseline_tokens->0 <= i64::MAX,
    ensures
        m.state.snapshot.explained() == m.state.snapshot.reported_context_tokens->0,
{
    lemma_category_rows_sum_to_items_total(m.items());
}

/// In every state, items are held in observation order with strictly increasing seqs, and the
/// published groups and category totals are the ones derived from the items; so the groups
/// partition the items (`lemma_groups_partition_the_items`) and the category totals hold one row
/// per present category (`lemma_category_rows_are_the_present_categories`).
pub proof fn lemma_state_aggregates_describe_the_items(m: ProfilerModel)
    requires
        model_inv(m),
        m.items().len() <= u64::MAX,
    ensures
        seqs_increase(m.items()),
        m.state.snapshot.groups == spec_groups(m.items()),
        m.state.snapshot.by_category == spec_by_category(m.items()),
{
    let items = m.items();
    assert forall|i: int, j: int| 0 <= i < j < items.len() implies #[trigger] items[i].seq
        < #[trigger] items[j].seq by {
        assert(items[i].seq == i + 1);
        assert(items[j].seq == j + 1);
    }
}

/// In every state, the published groups partition the items. Each item's seq is a member of
/// exactly one group, the one keyed by the item's own group key; members ascend; groups come in
/// the order of their first member; a group takes its category and label from its first member;
/// and its cost sums its members' costs, exact only when every member is priced exactly.
pub proof fn lemma_state_groups_partition_the_items(m: ProfilerModel)
    requires
        model_inv(m),
        m.items().len() <= u64::MAX,
    ensures
        forall|i: int, g: int|
            0 <= i < m.items().len() && 0 <= g < m.state.snapshot.groups.len() ==> (
            #[trigger] m.state.snapshot.groups[g].members.contains(#[trigger] m.items()[i].seq)
                <==> m.state.snapshot.groups[g].key == m.items()[i].group),
        forall|i: int|
            0 <= i < m.items().len() ==> exists|g: int|
                0 <= g < m.state.snapshot.groups.len() && (#[trigger] m.state.snapshot.groups[g]).key
                    == #[trigger] m.items()[i].group,
        forall|g: int, a: int, b: int|
            0 <= g < m.state.snapshot.groups.len() && 0 <= a < b < m.state.snapshot.groups[g].members.len()
                ==> #[trigger] m.state.snapshot.groups[g].members[a] < #[trigger] m.state.snapshot.groups[g].members[b],
        forall|g: int, h: int|
            0 <= g < h < m.state.snapshot.groups.len() ==> (#[trigger] m.state.snapshot.groups[g]).members[0]
                < (#[trigger] m.state.snapshot.groups[h]).members[0],
        forall|g: int|
            0 <= g < m.state.snapshot.groups.len() ==> (#[trigger] m.state.snapshot.groups[g]).members.len()
                > 0 && exists|j: int|
                0 <= j < m.items().len() && #[trigger] m.items()[j].seq == m.state.snapshot.groups[g].members[0]
                    && m.items()[j].group == m.state.snapshot.groups[g].key && m.items()[j].category
                    == m.state.snapshot.groups[g].category && m.items()[j].label
                    == m.state.snapshot.groups[g].label,
        forall|g: int|
            0 <= g < m.state.snapshot.groups.len() ==> (#[trigger] m.state.snapshot.groups[g]).cost
                == TokenCost::with(
                key_exact(m.items(), m.state.snapshot.groups[g].key),
                key_tokens(m.items(), m.state.snapshot.groups[g].key),
            ),
        forall|key: GroupKeyModel|
            #[trigger] key_exact(m.items(), key) <==> forall|j: int|
                0 <= j < m.items().len() && #[trigger] m.items()[j].group == key
                    ==> m.items()[j].cost.is_exact(),
{
    lemma_state_aggregates_describe_the_items(m);
    lemma_groups_partition_the_items(m.items());
}

/// In every state, the published category totals hold one row for each category some item
/// carries and none for the others, in declaration order, each row carrying that category's summed
/// cost, exact only when every item of the category is priced exactly.
pub proof fn lemma_state_category_rows_are_the_present_categories(m: ProfilerModel)
    requires
        model_inv(m),
    ensures
        forall|r: int|
            0 <= r < m.state.snapshot.by_category.len() ==> {
                let row = #[trigger] m.state.snapshot.by_category[r];
                &&& cat_count(m.items(), row.0) > 0
                &&& row == cat_row(m.items(), row.0)
            },
        forall|a: int, b: int|
            0 <= a < b < m.state.snapshot.by_category.len() ==> (#[trigger] m.state.snapshot.by_category[a]).0.spec_ordinal()
                < (#[trigger] m.state.snapshot.by_category[b]).0.spec_ordinal(),
        forall|category: Category|
            #[trigger] cat_count(m.items(), category) > 0 <==> exists|r: int|
                0 <= r < m.state.snapshot.by_category.len() && (#[trigger] m.state.snapshot.by_category[r]).0 == category,
{
    lemma_category_rows_are_the_present_categories(m.items());
}

/// Folding the same events into two equal profilers, such as two fresh ones with the same start,
/// gives equal profilers: state, groups and category totals included.
pub proof fn lemma_same_events_give_the_same_state(
    a: ProfilerModel,
    b: ProfilerModel,
    events: Seq<EventModel>,
)
    requires
        a == b,
    ensures
        spec_fold(a, events) == spec_fold(b, events),
{
}

/// Whether the next anchor may still establish the baseline: none has been folded yet, and no
/// usage gap or interrupted turn has come before it.
pub open spec fn baseline_window_open(m: ProfilerModel) -> bool {
    !m.anchored && m.baseline_open
}

/// The window in which a baseline may be claimed closes at the first anchor, the first usage gap
/// and the first turn that closes without completing (an explicit interruption, or a new turn
/// starting over an open one), and never opens again. A turn that completes keeps it open.
pub proof fn lemma_baseline_window_closes_for_good(m: ProfilerModel, event: EventModel)
    requires
        model_inv(m),
    ensures
        !baseline_window_open(m) ==> !baseline_window_open(spec_step(m, event)),
        m.state.invalidated is None && (event is Usage || event is UsageMissing) ==> !baseline_window_open(spec_step(m, event)),
        m.state.invalidated is None && m.open_turn is Some && (event is TurnStarted || (
        event is TurnEnded && !event->completed)) ==> !baseline_window_open(spec_step(m, event)),
        m.state.invalidated is None && event is TurnEnded && event->completed
            ==> baseline_window_open(spec_step(m, event)) == baseline_window_open(m),
{
}

/// A baseline is claimed only by an anchor folded while the window is still open, in a session
/// observed from its start; so only the first anchor can claim it.
pub proof fn lemma_baseline_claimed_only_at_the_first_anchor(m: ProfilerModel, event: EventModel)
    requires
        model_inv(m),
        m.state.snapshot.baseline_tokens is None,
        spec_step(m, event).state.snapshot.baseline_tokens is Some,
    ensures
        event is Usage,
        baseline_window_open(m),
        m.start == ObservationStart::SessionStart,
        m.state.anchors.len() == 0,
{
    if let EventModel::Usage { turn_id, .. } = event {
        lemma_in_turn_keeps_invariant(m, turn_id);
    }
}

/// A category whose items all cost something non-negative totals something non-negative.
proof fn lemma_category_nonnegative(items: Seq<ItemModel>, category: Category)
    requires
        forall|i: int|
            0 <= i < items.len() && items[i].category == category ==> #[trigger] items[i].cost.spec_tokens()
                >= 0,
    ensures
        cat_tokens(items, category) >= 0,
    decreases items.len(),
{
    if items.len() > 0 {
        let prev = items.drop_last();
        assert forall|i: int|
            0 <= i < prev.len() && prev[i].category == category implies #[trigger] prev[i].cost.spec_tokens()
            >= 0 by {
            assert(prev[i] == items[i]);
        }
        lemma_category_nonnegative(prev, category);
        assert(items.last() == items[items.len() - 1]);
    }
}

/// An index of an item of one kind, when the kind is present in `[lo, hi)`.
proof fn kind_witness(items: Seq<ItemModel>, lo: int, hi: int, kind: PricingKind) -> (k: int)
    requires
        kind_count(items, lo, hi, kind) > 0,
    ensures
        lo <= k < hi,
        items[k].pricing == kind,
    decreases hi - lo,
{
    if hi > lo && items[hi - 1].pricing == kind {
        hi - 1
    } else if hi > lo {
        kind_witness(items, lo, hi - 1, kind)
    } else {
        lo
    }
}

/// The summed tokens of the items at indices `[lo, hi)`.
fn range_sum(items: &Vec<ItemSummary>, lo: usize, hi: usize) -> (r: i128)
    requires
        lo <= hi <= items@.len(),
    ensures
        r as int == range_tokens(items_view(items@), lo as int, hi as int),
        -((hi - lo) as int) * 0x8000_0000_0000_0000 <= r <= ((hi - lo) as int)
            * 0x8000_0000_0000_0000,
{
    let ghost all = items_view(items@);
    let mut total: i128 = 0;
    let mut i: usize = lo;
    while i < hi
        invariant
            lo <= i <= hi <= items@.len(),
            all == items_view(items@),
            total as int == range_tokens(all, lo as int, i as int),
            -((i - lo) as int) * 0x8000_0000_0000_0000 <= total <= ((i - lo) as int)
                * 0x8000_0000_0000_0000,
        decreases hi - i,
    {
        total = total + items[i].cost.tokens() as i128;
        i = i + 1;
    }
    total
}

/// The summed tokens of the items of one category.
fn category_sum(items: &Vec<ItemSummary>, category: Category) -> (r: i128)
    ensures
        r as int == cat_tokens(items_view(items@), category),
{
    let ghost all = items_view(items@);
    let mut total: i128 = 0;
    let mut i: usize = 0;
    while i < items.len()
        invariant
            i <= items@.len(),
            all == items_view(items@),
            total as int == cat_tokens(all.take(i as int), category),
            -(i as int) * 0x8000_0000_0000_0000 <= total <= (i as int) * 0x8000_0000_0000_0000,
        decreases items@.len() - i,
    {
        proof {
            assert(all.take(i + 1).drop_last() =~= all.take(i as int));
        }
        if items[i].category == category {
            total = total + items[i].cost.tokens() as i128;
        }
        i = i + 1;
    }
    proof {
        assert(all.take(items@.len() as int) =~= all);
    }
    total
}

/// Whether every item is one whose cost both startup routes account for.
fn prefix_accountable(items: &Vec<ItemSummary>) -> (r: bool)
    ensures
        r == prefix_is_accountable(items_view(items@)),
{
    let ghost all = items_view(items@);
    let mut i: usize = 0;
    while i < items.len()
        invariant
            i <= items@.len(),
            all == items_view(items@),
            forall|j: int|
                0 <= j < i ==> {
                    ||| #[trigger] all[j].pricing == PricingKind::Output
                    ||| (all[j].pricing == PricingKind::Input && (all[j].category
                        == Category::UserMessage || all[j].category == Category::Instructions))
                },
        decreases items@.len() - i,
    {
        let item = &items[i];
        let ok = item.pricing == PricingKind::Output || (item.pricing == PricingKind::Input && (
        item.category == Category::UserMessage || item.category == Category::Instructions));
        if !ok {
            proof {
                let k = i as int;
                assert(all[k] == item@);
                assert(!(all[k].pricing == PricingKind::Output || (all[k].pricing
                    == PricingKind::Input && (all[k].category == Category::UserMessage
                    || all[k].category == Category::Instructions))));
            }
            return false;
        }
        i = i + 1;
    }
    true
}

/// Whether the response's output total was spread over at least one item, or was zero.
fn output_carried(items: &Vec<ItemSummary>, usage: &UsageSnapshot) -> (r: bool)
    ensures
        r == output_is_carried(items_view(items@), *usage),
{
    if usage.output_tokens == 0 {
        return true;
    }
    let ghost all = items_view(items@);
    let mut i: usize = 0;
    while i < items.len()
        invariant
            i <= items@.len(),
            all == items_view(items@),
            forall|j: int| 0 <= j < i ==> #[trigger] all[j].pricing != PricingKind::Output,
        decreases items@.len() - i,
    {
        if items[i].pricing == PricingKind::Output {
            proof {
                assert(all[i as int].pricing == PricingKind::Output);
            }
            return true;
        }
        i = i + 1;
    }
    false
}

/// The label an item is shown under.
fn item_label(item: &ObservedItem) -> (r: String)
    ensures
        r@ == spec_label(*item),
{
    match item.variant {
        ItemVariant::FunctionCall => match &item.name {
            Some(name) => name.clone(),
            None => String::from_str(item_kind(item)),
        },
        ItemVariant::Message => match &item.content_item_kinds {
            Some(kinds) => {
                if kinds.len() > 0 && kinds[0].as_str().unicode_len() > 0 {
                    kinds[0].clone()
                } else {
                    String::from_str(item_kind(item))
                }
            },
            None => String::from_str(item_kind(item)),
        },
        _ => String::from_str(item_kind(item)),
    }
}

impl ContextProfiler {
    /// The exec fields agree with the model, and the fold's invariant holds.
    pub closed spec fn wf(&self) -> bool {
        &&& self.counted()
        &&& model_inv(self@)
    }

    /// A well-formed profiler satisfies the fold's invariant and counts its items in a `u64`.
    pub proof fn lemma_wf_invariant(&self)
        requires
            self.wf(),
        ensures
            model_inv(self@),
            self@.items().len() <= u64::MAX,
    {
    }

    spec fn counted(&self) -> bool {
        &&& self.items_seen as int == self.state.snapshot.items@.len()
        &&& self.span_start <= self.items_seen
        &&& self.open_turn matches Some(t) ==> 1 <= t.first_seq <= self.items_seen + 1
    }

    pub fn new(start: ObservationStart) -> (r: Self)
        ensures
            r.wf(),
            r@ == initial_model(start),
    {
        let r = ContextProfiler {
            state: ProfilerState::default(),
            start,
            items_seen: 0,
            last_anchor_total: None,
            open_turn: None,
            span_start: 0,
            span_previous_total: None,
            anchored: false,
            baseline_open: true,
        };
        proof {
            let empty: Seq<ItemModel> = Seq::empty();
            assert(r@.state.snapshot.items =~= empty);
            assert(r@.state.snapshot.turns =~= Seq::<TurnModel>::empty());
            assert(r@.state.anchors =~= Seq::<UsageSnapshot>::empty());
            assert(spec_groups(empty) =~= Seq::empty());
            assert(r@.state.snapshot.groups =~= spec_groups(empty));
            assert(spec_by_category(empty) =~= Seq::empty()) by {
                reveal_with_fuel(crate::aggregate::by_cat_upto, 9);
            }
            assert(r@.state.snapshot.by_category =~= spec_by_category(empty));
        }
        r
    }

    pub fn state(&self) -> (r: &ProfilerState)
        ensures
            r@ == self@.state,
    {
        &self.state
    }

    /// Opens a turn, which starts a new attribution span.
    fn open_turn(&mut self, turn_id: &str) -> (r: u32)
        requires
            old(self).counted(),
        ensures
            final(self).counted(),
            final(self)@ == old(self)@.opened(turn_id@),
            r == final(self)@.open_turn->0.index,
    {
        let index = self.state.snapshot.turns.len() as u32;
        self.open_turn = Some(
            OpenTurn {
                turn_id: String::from_str(turn_id),
                index,
                first_seq: self.items_seen.saturating_add(1),
                measured_before: self.last_anchor_total,
                last_anchor: None,
            },
        );
        if self.anchored || !self.baseline_open {
            self.span_start = self.items_seen;
        }
        self.span_previous_total = None;
        index
    }

    /// Index of the open turn, opening an implicit one for events that arrive outside a turn.
    fn turn_index(&mut self, turn_id: &str) -> (r: u32)
        requires
            old(self).counted(),
        ensures
            final(self).counted(),
            final(self)@ == old(self)@.in_turn(turn_id@),
            final(self)@.open_turn is Some,
            r == final(self)@.open_turn->0.index,
    {
        match &self.open_turn {
            Some(turn) => turn.index,
            None => self.open_turn(turn_id),
        }
    }

    /// Closes the open turn into a `TurnDelta`; only a completed turn keeps its closing anchor.
    fn close_turn(&mut self, completed: bool)
        requires
            old(self).counted(),
        ensures
            final(self).counted(),
            final(self)@ == old(self)@.closed(completed),
    {
        let ghost before = self@;
        let mut taken: Option<OpenTurn> = None;
        std::mem::swap(&mut taken, &mut self.open_turn);
        let turn = match taken {
            None => return,
            Some(turn) => turn,
        };
        let hi = self.state.snapshot.items.len();
        let lo: usize = (turn.first_seq - 1) as usize;
        let estimated_added = clamp_to_i64(range_sum(&self.state.snapshot.items, lo, hi));
        let measured_after = if completed {
            turn.last_anchor
        } else {
            None
        };
        let delta = TurnDelta {
            turn_id: turn.turn_id,
            index: turn.index,
            item_seq_range: std::ops::RangeInclusive::new(turn.first_seq, self.items_seen),
            estimated_added,
            measured_before: turn.measured_before,
            measured_after,
        };
        let ghost turns_before = self.state.snapshot.turns@;
        self.state.snapshot.turns.push(delta);
        if !self.anchored && !completed {
            self.baseline_open = false;
        }
        proof {
            assert(self.state.snapshot.turns@.map_values(|t: TurnDelta| t@) =~= turns_before.map_values(
                |t: TurnDelta| t@,
            ).push(delta@));
            assert(self@ == before.closed(completed));
        }
    }
}


impl ContextProfiler {
    /// Groups and category totals are derived views of the items, so they are rebuilt whole.
    fn rebuild_aggregates(&mut self)
        ensures
            final(self)@ == (ProfilerModel {
                state: StateModel {
                    snapshot: old(self)@.with_items(old(self)@.items()),
                    ..old(self)@.state
                },
                ..old(self)@
            }),
            final(self).items_seen == old(self).items_seen,
            final(self).open_turn == old(self).open_turn,
            final(self).state.snapshot.items == old(self).state.snapshot.items,
    {
        let groups = build_groups(&self.state.snapshot.items);
        let by_category = build_by_category(&self.state.snapshot.items);
        self.state.snapshot.groups = groups;
        self.state.snapshot.by_category = by_category;
    }

    /// Records one item at its estimate, in the open turn.
    fn add_item(&mut self, turn_id: &str, item: &ObservedItem)
        requires
            old(self).wf(),
            old(self)@.state.invalidated is None,
        ensures
            final(self).wf(),
            final(self)@ == old(self)@.in_turn(turn_id@).with_item(*item),
    {
        let turn_index = self.turn_index(turn_id);
        let ghost opened = self@;
        let seq = self.items_seen.saturating_add(1);
        let c = classify(item);
        let bytes = match item.bytes {
            Some(bytes) => bytes,
            None => 0,
        };
        let tokens = item_tokens(c.category, c.parts.as_slice(), bytes);
        let group = match call_id(item) {
            Some(call_id) => GroupKey::ToolCall(call_id),
            None => GroupKey::Ungrouped(seq),
        };
        let item_id = match &item.id {
            Some(id) => Some(id.clone()),
            None => None,
        };
        let warned = c.warnings.len() > 0;
        let summary = ItemSummary {
            seq,
            turn_index,
            category: c.category,
            pricing: c.pricing,
            bytes,
            cost: TokenCost::Estimated(tokens),
            label: item_label(item),
            group,
            item_id,
            parts: c.parts,
            warnings: c.warnings,
        };
        proof {
            assert(summary@ == spec_summary(*item, sat_inc(opened.items_seen()), turn_index));
        }
        let ghost items_before = self.state.snapshot.items@;
        self.state.snapshot.items.push(summary);
        let count = self.state.snapshot.items.len();
        self.items_seen = count as u64;
        if warned {
            self.state.classification_warning_count =
                self.state.classification_warning_count.saturating_add(1);
        }
        if item.bytes.is_none() {
            self.state.unsizable_item_count = self.state.unsizable_item_count.saturating_add(1);
        }
        self.state.usage_pending = true;
        self.rebuild_aggregates();
        proof {
            assert(items_view(self.state.snapshot.items@) =~= items_view(items_before).push(
                summary@,
            ));
            assert(self@ == old(self)@.in_turn(turn_id@).with_item(*item));
            lemma_step_keeps_invariant(
                old(self)@,
                EventModel::Item { turn_id: turn_id@, item: *item },
            );
        }
    }
}


/// `residual - baseline` held in an `i64`; residuals far outside the `i64` range saturate the
/// same way before and after they are narrowed.
fn drift_of(residual: i128, baseline: i64) -> (r: i64)
    ensures
        r == clamp_i64(residual - baseline),
{
    let bound: i128 = 0x4_0000_0000_0000_0000;
    let narrowed = if residual > bound {
        bound
    } else if residual < -bound {
        -bound
    } else {
        residual
    };
    clamp_to_i64(narrowed - baseline as i128)
}

impl ContextProfiler {
    /// Prices the span the anchor closes, then reconciles the reported total against the items.
    fn fold_anchor(&mut self, turn_id: &str, usage: UsageSnapshot)
        requires
            old(self).wf(),
            old(self)@.state.invalidated is None,
        ensures
            final(self).wf(),
            final(self)@ == old(self)@.in_turn(turn_id@).with_anchor(usage),
    {
        self.turn_index(turn_id);
        let ghost opened = self@;
        price_span(
            &mut self.state.snapshot.items,
            self.span_start as usize,
            &usage,
            self.span_previous_total,
        );
        self.rebuild_aggregates();
        let ghost items = self@.items();
        let count = self.state.snapshot.items.len();
        let reported = usage.reported_context_tokens;
        let total = range_sum(&self.state.snapshot.items, 0, count);
        let residual: i128 = reported as i128 - total;
        let user = category_sum(&self.state.snapshot.items, Category::UserMessage);
        let instructions = category_sum(&self.state.snapshot.items, Category::Instructions);
        let claim = !self.anchored && self.baseline_open && self.start
            == ObservationStart::SessionStart && count >= 1 && usage.items_seq == self.items_seen
            && prefix_accountable(
            &self.state.snapshot.items,
        ) && output_carried(&self.state.snapshot.items, &usage) && reported as i128
            == usage.input_tokens as i128 + usage.output_tokens as i128 && 0 <= residual
            && residual <= i64::MAX as i128 && i64::MIN as i128 <= user && user
            <= i64::MAX as i128 && i64::MIN as i128 <= instructions && instructions
            <= i64::MAX as i128;
        proof {
            assert(claim == baseline_claimable(opened, items, usage, residual as int));
        }
        if claim {
            self.state.snapshot.baseline_tokens = Some(residual as i64);
            self.state.snapshot.initial_context = Some(
                InitialContextSummary {
                    first_request_input_tokens: usage.input_tokens,
                    estimated_user_input_tokens: user as i64,
                    estimated_instruction_tokens: instructions as i64,
                },
            );
        }
        self.state.snapshot.drift_tokens = match self.state.snapshot.baseline_tokens {
            Some(baseline) => drift_of(residual, baseline),
            None => 0,
        };
        self.state.snapshot.reported_context_tokens = Some(reported);
        self.state.usage_pending = false;
        if usage.items_seq != self.items_seen {
            self.state.seq_mismatch_count = self.state.seq_mismatch_count.saturating_add(1);
        }
        self.state.anchors.push(usage);
        let mut taken: Option<OpenTurn> = None;
        std::mem::swap(&mut taken, &mut self.open_turn);
        if let Some(mut turn) = taken {
            turn.last_anchor = Some(reported);
            self.open_turn = Some(turn);
        }
        self.last_anchor_total = Some(reported);
        self.span_start = self.items_seen;
        self.span_previous_total = Some(reported);
        self.anchored = true;
        proof {
            assert(self@ == old(self)@.in_turn(turn_id@).with_anchor(usage));
            lemma_step_keeps_invariant(
                old(self)@,
                EventModel::Usage { turn_id: turn_id@, usage },
            );
        }
    }
}


impl ContextProfiler {
    /// Folds one event. Once invalidated, only the window is still tracked.
    pub fn observe(&mut self, event: ProfilerEvent<'_>)
        requires
            old(self).wf(),
        ensures
            final(self).wf(),
            final(self)@ == spec_step(old(self)@, event@),
    {
        proof {
            lemma_step_keeps_invariant(self@, event@);
        }
        if self.state.invalidated.is_some() {
            if let ProfilerEvent::WindowUpdated { window, .. } = event {
                self.state.snapshot.window = Some(window);
            }
            return;
        }
        match event {
            ProfilerEvent::TurnStarted { turn_id } => {
                self.close_turn(false);
                self.open_turn(turn_id);
            },
            ProfilerEvent::Item { turn_id, item } => {
                self.add_item(turn_id, item);
            },
            ProfilerEvent::Usage { turn_id, usage } => {
                self.fold_anchor(turn_id, usage);
            },
            ProfilerEvent::UsageMissing { turn_id } => {
                self.turn_index(turn_id);
                self.span_start = self.items_seen;
                self.span_previous_total = None;
                self.baseline_open = false;
            },
            ProfilerEvent::WindowUpdated { window, .. } => {
                self.state.snapshot.window = Some(window);
            },
            ProfilerEvent::TurnEnded { completed, .. } => {
                self.close_turn(completed);
            },
            ProfilerEvent::Invalidated { reason } => {
                self.state.invalidated = Some(reason);
            },
        }
    }
}

} // verus!
