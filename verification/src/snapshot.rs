//! What `/ctx` renders.
use vstd::prelude::*;

use std::ops::RangeInclusive;

use crate::event::InvalidationReason;
use crate::item::Category;
use crate::item::GroupModel;
use crate::item::ItemGroup;
use crate::item::ItemModel;
use crate::item::ItemSummary;
use crate::item::TokenCost;
use crate::usage::UsageSnapshot;

verus! {

/// `RangeInclusive::clone` from std, so a `TurnDelta` can derive `Clone`; nothing is claimed of
/// the copy it returns.
pub assume_specification<Idx: Clone>[ <RangeInclusive<Idx> as Clone>::clone ](
    range: &RangeInclusive<Idx>,
) -> RangeInclusive<Idx>;

#[derive(Debug, Clone, PartialEq, Eq)]
pub struct TurnDelta {
    pub turn_id: String,
    pub index: u32,
    pub item_seq_range: RangeInclusive<u64>,
    pub estimated_added: i64,
    /// The last anchor before this turn started, not the first anchor within it.
    pub measured_before: Option<i64>,
    pub measured_after: Option<i64>,
}

/// The mathematical value of a `TurnDelta`.
pub struct TurnModel {
    pub turn_id: Seq<char>,
    pub index: u32,
    pub first_seq: u64,
    pub last_seq: u64,
    pub estimated_added: i64,
    pub measured_before: Option<i64>,
    pub measured_after: Option<i64>,
}

impl View for TurnDelta {
    type V = TurnModel;

    open spec fn view(&self) -> TurnModel {
        TurnModel {
            turn_id: self.turn_id@,
            index: self.index,
            first_seq: self.item_seq_range@.start,
            last_seq: self.item_seq_range@.end,
            estimated_added: self.estimated_added,
            measured_before: self.measured_before,
            measured_after: self.measured_after,
        }
    }
}

/// The measured change across a turn, when both of its ends were measured.
pub open spec fn spec_measured_added(
    before: Option<i64>,
    after: Option<i64>,
) -> Option<int> {
    match (before, after) {
        (Some(before), Some(after)) => Some(after - before),
        _ => None,
    }
}

impl TurnDelta {
    pub fn measured_added(&self) -> (r: Option<i64>)
        requires
            spec_measured_added(self.measured_before, self.measured_after) matches Some(d)
                ==> i64::MIN <= d <= i64::MAX,
        ensures
            match r {
                Some(d) => spec_measured_added(self.measured_before, self.measured_after)
                    == Some(d as int),
                None => spec_measured_added(self.measured_before, self.measured_after) is None,
            },
    {
        match (self.measured_before, self.measured_after) {
            (Some(before), Some(after)) => Some(after - before),
            _ => None,
        }
    }
}

/// Startup context anchored to the measured first request, so the parts cannot exceed it.
#[derive(Debug, Clone, Copy, PartialEq, Eq, Structural)]
pub struct InitialContextSummary {
    pub first_request_input_tokens: i64,
    pub estimated_user_input_tokens: i64,
    pub estimated_instruction_tokens: i64,
}

impl InitialContextSummary {
    pub open spec fn spec_startup_context_tokens(self) -> int {
        self.first_request_input_tokens - self.estimated_user_input_tokens
    }

    pub open spec fn spec_hidden_tokens(self) -> int {
        self.spec_startup_context_tokens() - self.estimated_instruction_tokens
    }

    pub fn startup_context_tokens(&self) -> (r: i64)
        requires
            i64::MIN <= self.spec_startup_context_tokens() <= i64::MAX,
        ensures
            r == self.spec_startup_context_tokens(),
    {
        self.first_request_input_tokens - self.estimated_user_input_tokens
    }

    /// Equals `baseline_tokens` when a baseline was established.
    pub fn hidden_tokens(&self) -> (r: i64)
        requires
            i64::MIN <= self.spec_startup_context_tokens() <= i64::MAX,
            i64::MIN <= self.spec_hidden_tokens() <= i64::MAX,
        ensures
            r == self.spec_hidden_tokens(),
    {
        self.startup_context_tokens() - self.estimated_instruction_tokens
    }
}

/// The summed tokens of a list of category totals.
pub open spec fn category_rows_total(rows: Seq<(Category, TokenCost)>) -> int
    decreases rows.len(),
{
    if rows.len() == 0 {
        0
    } else {
        category_rows_total(rows.drop_last()) + rows.last().1.spec_tokens()
    }
}

/// Complete lists; the view truncates. Percentages are the TUI's job.
#[derive(Debug, Clone, PartialEq, Eq)]
pub struct ContextSnapshot {
    pub window: Option<i64>,
    pub reported_context_tokens: Option<i64>,
    pub initial_context: Option<InitialContextSummary>,
    /// Every observed item, in observation order.
    pub items: Vec<ItemSummary>,
    pub by_category: Vec<(Category, TokenCost)>,
    /// Reconciled startup baseline (tool schemas + system prompt); frozen, not current cost.
    pub baseline_tokens: Option<i64>,
    /// Remainder of unknown cause, deliberately not attributed to the estimator.
    pub drift_tokens: i64,
    pub groups: Vec<ItemGroup>,
    pub turns: Vec<TurnDelta>,
}

/// The mathematical value of a `ContextSnapshot`.
pub struct SnapshotModel {
    pub window: Option<i64>,
    pub reported_context_tokens: Option<i64>,
    pub initial_context: Option<InitialContextSummary>,
    pub items: Seq<ItemModel>,
    pub by_category: Seq<(Category, TokenCost)>,
    pub baseline_tokens: Option<i64>,
    pub drift_tokens: i64,
    pub groups: Seq<GroupModel>,
    pub turns: Seq<TurnModel>,
}

impl View for ContextSnapshot {
    type V = SnapshotModel;

    open spec fn view(&self) -> SnapshotModel {
        SnapshotModel {
            window: self.window,
            reported_context_tokens: self.reported_context_tokens,
            initial_context: self.initial_context,
            items: self.items@.map_values(|item: ItemSummary| item@),
            by_category: self.by_category@,
            baseline_tokens: self.baseline_tokens,
            drift_tokens: self.drift_tokens,
            groups: self.groups@.map_values(|group: ItemGroup| group@),
            turns: self.turns@.map_values(|turn: TurnDelta| turn@),
        }
    }
}

impl SnapshotModel {
    pub open spec fn attributed(self) -> int {
        category_rows_total(self.by_category)
    }

    pub open spec fn explained(self) -> int {
        self.attributed() + self.baseline_tokens.unwrap_or(0) + self.drift_tokens
    }
}

impl ContextSnapshot {
    pub fn empty() -> (r: ContextSnapshot)
        ensures
            r@ == (SnapshotModel {
                window: None,
                reported_context_tokens: None,
                initial_context: None,
                items: Seq::empty(),
                by_category: Seq::empty(),
                baseline_tokens: None,
                drift_tokens: 0,
                groups: Seq::empty(),
                turns: Seq::empty(),
            }),
    {
        let r = ContextSnapshot {
            window: None,
            reported_context_tokens: None,
            initial_context: None,
            items: Vec::new(),
            by_category: Vec::new(),
            baseline_tokens: None,
            drift_tokens: 0,
            groups: Vec::new(),
            turns: Vec::new(),
        };
        proof {
            assert(r@.items =~= Seq::empty());
            assert(r@.by_category =~= Seq::empty());
            assert(r@.groups =~= Seq::empty());
            assert(r@.turns =~= Seq::empty());
        }
        r
    }

    /// Items only: the sum of the category totals.
    pub fn attributed_tokens(&self) -> (r: i64)
        requires
            i64::MIN <= self@.attributed() <= i64::MAX,
        ensures
            r == self@.attributed(),
    {
        let mut total: i128 = 0;
        let mut i: usize = 0;
        while i < self.by_category.len()
            invariant
                i <= self.by_category@.len(),
                total as int == category_rows_total(self.by_category@.take(i as int)),
                -(i as int) * 0x8000_0000_0000_0000 <= total <= (i as int)
                    * 0x8000_0000_0000_0000,
            decreases self.by_category@.len() - i,
        {
            proof {
                assert(self.by_category@.take(i + 1).drop_last() =~= self.by_category@.take(
                    i as int,
                ));
            }
            total = total + self.by_category[i].1.tokens() as i128;
            i = i + 1;
        }
        proof {
            assert(self.by_category@.take(self.by_category@.len() as int) =~= self.by_category@);
        }
        total as i64
    }

    /// Everything the reported total is explained by: items, the baseline, and the drift.
    pub fn explained_tokens(&self) -> (r: i64)
        requires
            i64::MIN <= self@.attributed() <= i64::MAX,
            i64::MIN <= self@.attributed() + self.baseline_tokens.unwrap_or(0) <= i64::MAX,
            i64::MIN <= self@.explained() <= i64::MAX,
        ensures
            r == self@.explained(),
    {
        let baseline = match self.baseline_tokens {
            Some(baseline) => baseline,
            None => 0,
        };
        self.attributed_tokens() + baseline + self.drift_tokens
    }
}

#[derive(Debug, Clone, PartialEq, Eq)]
pub struct ProfilerState {
    pub snapshot: ContextSnapshot,
    pub invalidated: Option<InvalidationReason>,
    /// Items with one or more classification uncertainties, counted at most once per item.
    pub classification_warning_count: u32,
    /// Items whose serialized size could not be computed.
    pub unsizable_item_count: u32,
    /// Anchors whose item count disagreed with the number of items this profiler was shown.
    pub seq_mismatch_count: u32,
    /// Whether items arrived after the last anchor, so the reported total does not cover them.
    pub usage_pending: bool,
    /// Every usage anchor folded, in arrival order.
    pub anchors: Vec<UsageSnapshot>,
}

/// The mathematical value of a `ProfilerState`.
pub struct StateModel {
    pub snapshot: SnapshotModel,
    pub invalidated: Option<InvalidationReason>,
    pub classification_warning_count: u32,
    pub unsizable_item_count: u32,
    pub seq_mismatch_count: u32,
    pub usage_pending: bool,
    pub anchors: Seq<UsageSnapshot>,
}

impl View for ProfilerState {
    type V = StateModel;

    open spec fn view(&self) -> StateModel {
        StateModel {
            snapshot: self.snapshot@,
            invalidated: self.invalidated,
            classification_warning_count: self.classification_warning_count,
            unsizable_item_count: self.unsizable_item_count,
            seq_mismatch_count: self.seq_mismatch_count,
            usage_pending: self.usage_pending,
            anchors: self.anchors@,
        }
    }
}

impl Default for ProfilerState {
    fn default() -> (r: ProfilerState)
        ensures
            r@.snapshot.items.len() == 0,
            r@.snapshot.reported_context_tokens is None,
            r@.snapshot.window is None,
            r@.snapshot.initial_context is None,
            r@.snapshot.baseline_tokens is None,
            r@.snapshot.drift_tokens == 0,
            r@.snapshot.by_category.len() == 0,
            r@.snapshot.groups.len() == 0,
            r@.snapshot.turns.len() == 0,
            r@.invalidated is None,
            r@.classification_warning_count == 0,
            r@.unsizable_item_count == 0,
            r@.seq_mismatch_count == 0,
            !r@.usage_pending,
            r@.anchors.len() == 0,
    {
        ProfilerState {
            snapshot: ContextSnapshot::empty(),
            invalidated: None,
            classification_warning_count: 0,
            unsizable_item_count: 0,
            seq_mismatch_count: 0,
            usage_pending: false,
            anchors: Vec::new(),
        }
    }
}

} // verus!
