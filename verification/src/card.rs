//! The plain-data model behind the `/ctx` card.
//!
//! Everything the view needs is decided here once, so rendering only depends on width.
use vstd::prelude::*;

use crate::event::InvalidationReason;
use crate::item::Category;
use crate::item::GroupModel;
use crate::item::TokenCost;
use crate::order::rank;
use crate::order::rank_order;
use crate::order::RankKey;
use crate::snapshot::category_rows_total;
use crate::snapshot::spec_measured_added;
use crate::snapshot::InitialContextSummary;
use crate::snapshot::ProfilerState;
use crate::snapshot::StateModel;
use crate::snapshot::TurnModel;

verus! {

/// How many turns the card lists.
pub const MAX_TURN_ROWS: usize = 5;

/// How many item groups the card lists.
pub const MAX_CONTRIBUTORS: usize = 3;

/// What the header of the window-wide view reads, as `TokenUsage::percent_of_context_window_remaining`
/// of codex-protocol computes it for a window holding `reported` tokens.
pub uninterp spec fn percent_of_window_remaining_result(reported: i64, window: i64) -> i64;

/// Calls codex-protocol's `TokenUsage::percent_of_context_window_remaining` on a usage whose
/// context total is `reported`. Claimed of it, as its source shows: the result is a percentage
/// between 0 and 100, and 0 for a window no larger than the 12,000-token baseline it reserves. It
/// computes in floating point, so nothing more of the value is stated.
#[verifier::external_body]
fn percent_of_window_remaining(reported: i64, window: i64) -> (r: i64)
    requires
        reported >= i64::MIN + 12_000,
    ensures
        r == percent_of_window_remaining_result(reported, window),
        0 <= r <= 100,
        window <= 12_000 ==> r == 0,
{
    let usage = codex_protocol::protocol::TokenUsage {
        total_tokens: reported,
        ..Default::default()
    };
    usage.percent_of_context_window_remaining(window)
}

#[derive(Debug, Clone, Copy, PartialEq, Eq, Structural)]
pub struct Header {
    pub reported: i64,
    pub window: Option<i64>,
    pub percent_remaining: Option<i64>,
}

/// Whether the reported total already accounts for every observed item.
#[derive(Debug, Clone, Copy, PartialEq, Eq, Structural)]
pub enum Usage {
    Current,
    Pending,
}

#[derive(Debug, Clone, Copy, PartialEq, Eq, Structural)]
pub enum Startup {
    Available { total: i64, instructions: i64, baseline: i64, first_request_input: i64 },
    Unavailable,
}

#[derive(Debug, Clone, PartialEq, Eq)]
pub struct Row {
    pub name: &'static str,
    pub tokens: TokenCost,
    pub share_percent: Option<u32>,
}

/// The mathematical value of a `Row`.
pub struct RowModel {
    pub name: Seq<char>,
    pub tokens: TokenCost,
    pub share_percent: Option<u32>,
}

impl View for Row {
    type V = RowModel;

    open spec fn view(&self) -> RowModel {
        RowModel { name: self.name@, tokens: self.tokens, share_percent: self.share_percent }
    }
}

#[derive(Debug, Clone, PartialEq, Eq)]
pub struct Contributor {
    pub rank: u8,
    pub category: &'static str,
    pub label: String,
    pub tokens: TokenCost,
    pub share_percent: Option<u32>,
}

/// The mathematical value of a `Contributor`.
pub struct ContributorModel {
    pub rank: u8,
    pub category: Seq<char>,
    pub label: Seq<char>,
    pub tokens: TokenCost,
    pub share_percent: Option<u32>,
}

impl View for Contributor {
    type V = ContributorModel;

    open spec fn view(&self) -> ContributorModel {
        ContributorModel {
            rank: self.rank,
            category: self.category@,
            label: self.label@,
            tokens: self.tokens,
            share_percent: self.share_percent,
        }
    }
}

#[derive(Debug, Clone, Copy, PartialEq, Eq, Structural)]
pub struct TurnRow {
    pub index: u32,
    pub added: Option<i64>,
    pub context_after: Option<i64>,
}

#[derive(Debug, Clone, PartialEq, Eq)]
pub struct ContextCard {
    pub invalidated: Option<InvalidationReason>,
    pub header: Option<Header>,
    pub usage: Usage,
    pub startup: Startup,
    pub categories: Vec<Row>,
    pub attributed_total: TokenCost,
    pub not_attributable: Vec<Row>,
    pub footer: Option<i64>,
    pub contributors: Vec<Contributor>,
    pub turns: Vec<TurnRow>,
    pub warnings: u32,
    pub unsizable: u32,
    pub has_items: bool,
}

/// The mathematical value of a `ContextCard`.
pub struct CardModel {
    pub invalidated: Option<InvalidationReason>,
    pub header: Option<Header>,
    pub usage: Usage,
    pub startup: Startup,
    pub categories: Seq<RowModel>,
    pub attributed_total: TokenCost,
    pub not_attributable: Seq<RowModel>,
    pub footer: Option<i64>,
    pub contributors: Seq<ContributorModel>,
    pub turns: Seq<TurnRow>,
    pub warnings: u32,
    pub unsizable: u32,
    pub has_items: bool,
}

impl View for ContextCard {
    type V = CardModel;

    open spec fn view(&self) -> CardModel {
        CardModel {
            invalidated: self.invalidated,
            header: self.header,
            usage: self.usage,
            startup: self.startup,
            categories: self.categories@.map_values(|row: Row| row@),
            attributed_total: self.attributed_total,
            not_attributable: self.not_attributable@.map_values(|row: Row| row@),
            footer: self.footer,
            contributors: self.contributors@.map_values(|c: Contributor| c@),
            turns: self.turns@,
            warnings: self.warnings,
            unsizable: self.unsizable,
            has_items: self.has_items,
        }
    }
}

/// The name a category is shown under.
pub open spec fn spec_category_name(category: Category) -> Seq<char> {
    match category {
        Category::UserMessage => "User messages"@,
        Category::AgentMessage => "Agent messages"@,
        Category::Reasoning => "Reasoning"@,
        Category::ToolCall => "Tool calls"@,
        Category::ToolOutput => "Tool outputs"@,
        Category::Instructions => "Instructions"@,
        Category::Compaction => "Compaction"@,
        Category::Other => "Other"@,
    }
}

pub fn category_name(category: Category) -> (r: &'static str)
    ensures
        r@ == spec_category_name(category),
{
    match category {
        Category::UserMessage => "User messages",
        Category::AgentMessage => "Agent messages",
        Category::Reasoning => "Reasoning",
        Category::ToolCall => "Tool calls",
        Category::ToolOutput => "Tool outputs",
        Category::Instructions => "Instructions",
        Category::Compaction => "Compaction",
        Category::Other => "Other",
    }
}

/// A category's name's position in alphabetical order among the category names.
pub open spec fn spec_name_rank(category: Category) -> u128 {
    match category {
        Category::AgentMessage => 0,
        Category::Compaction => 1,
        Category::Instructions => 2,
        Category::Other => 3,
        Category::Reasoning => 4,
        Category::ToolCall => 5,
        Category::ToolOutput => 6,
        Category::UserMessage => 7,
    }
}

fn name_rank(category: Category) -> (r: u128)
    ensures
        r == spec_name_rank(category),
{
    match category {
        Category::AgentMessage => 0,
        Category::Compaction => 1,
        Category::Instructions => 2,
        Category::Other => 3,
        Category::Reasoning => 4,
        Category::ToolCall => 5,
        Category::ToolOutput => 6,
        Category::UserMessage => 7,
    }
}

/// A share of the reported total in whole percent, rounded half away from zero. A negative amount
/// has no honest share, and shares above 100% are kept: a frozen baseline can outgrow a shrunken
/// total.
pub open spec fn spec_share(tokens: i64, denominator: Option<i64>) -> Option<u32> {
    match denominator {
        None => None,
        Some(reported) => if tokens < 0 {
            None
        } else {
            let percent = (200 * tokens + reported) / (2 * reported);
            Some(
                if percent > u32::MAX {
                    u32::MAX
                } else {
                    percent as u32
                },
            )
        },
    }
}

fn share(tokens: i64, denominator: Option<i64>) -> (r: Option<u32>)
    requires
        denominator matches Some(reported) ==> reported > 0,
    ensures
        r == spec_share(tokens, denominator),
{
    let reported = match denominator {
        None => return None,
        Some(reported) => reported,
    };
    if tokens < 0 {
        return None;
    }
    let percent: i128 = (200 * tokens as i128 + reported as i128) / (2 * reported as i128);
    if percent > u32::MAX as i128 {
        Some(u32::MAX)
    } else {
        Some(percent as u32)
    }
}

/// The reported total, when it covers every observed item and so can carry shares.
pub open spec fn spec_denominator(state: StateModel) -> Option<i64> {
    match state.snapshot.reported_context_tokens {
        Some(reported) => if !state.usage_pending && reported > 0 {
            Some(reported)
        } else {
            None
        },
        None => None,
    }
}

/// The category totals that hold any tokens, in declaration order.
pub open spec fn nonzero_rows(rows: Seq<(Category, TokenCost)>) -> Seq<(Category, TokenCost)>
    decreases rows.len(),
{
    if rows.len() == 0 {
        Seq::empty()
    } else if rows.last().1.spec_tokens() != 0 {
        nonzero_rows(rows.drop_last()).push(rows.last())
    } else {
        nonzero_rows(rows.drop_last())
    }
}

/// The ranking keys of the category rows: tokens, then name, then position.
pub open spec fn category_keys(rows: Seq<(Category, TokenCost)>) -> Seq<RankKey> {
    Seq::new(
        rows.len(),
        |i: int| (rows[i].1.spec_tokens(), spec_name_rank(rows[i].0), i as u64),
    )
}

/// The card row of one category total.
pub open spec fn category_row(row: (Category, TokenCost), denominator: Option<i64>) -> RowModel {
    RowModel {
        name: spec_category_name(row.0),
        tokens: row.1,
        share_percent: spec_share(row.1.spec_tokens(), denominator),
    }
}

/// The categories holding tokens, largest first, ties by name.
pub open spec fn spec_categories(state: StateModel) -> Seq<RowModel> {
    let rows = nonzero_rows(state.snapshot.by_category);
    let ranked = category_keys(rows).sort_by(rank_order());
    Seq::new(
        ranked.len(),
        |j: int| category_row(rows[ranked[j].2 as int], spec_denominator(state)),
    )
}

/// Whether every category total is exact.
pub open spec fn rows_exact(rows: Seq<(Category, TokenCost)>) -> bool {
    forall|i: int| 0 <= i < rows.len() ==> (#[trigger] rows[i]).1 is Exact
}

/// The category totals combined: exact only when every part is, and `Estimated(0)` for none.
pub open spec fn spec_attributed_total(rows: Seq<(Category, TokenCost)>) -> TokenCost {
    if rows.len() == 0 {
        TokenCost::Estimated(0)
    } else if rows_exact(rows) {
        TokenCost::Exact(category_rows_total(rows) as i64)
    } else {
        TokenCost::Estimated(category_rows_total(rows) as i64)
    }
}

/// What the reported total holds beyond the items: the baseline and the drift once a baseline is
/// known, the plain remainder before.
pub open spec fn spec_not_attributable(state: StateModel) -> Seq<RowModel> {
    let denominator = spec_denominator(state);
    match denominator {
        None => Seq::empty(),
        Some(reported) => match state.snapshot.baseline_tokens {
            Some(baseline) => seq![
                RowModel {
                    name: "System + tools baseline"@,
                    tokens: TokenCost::Estimated(baseline),
                    share_percent: spec_share(baseline, denominator),
                },
                RowModel {
                    name: "Reconciliation drift"@,
                    tokens: TokenCost::Estimated(state.snapshot.drift_tokens),
                    share_percent: spec_share(state.snapshot.drift_tokens, denominator),
                },
            ],
            None => {
                let remainder = (reported - category_rows_total(state.snapshot.by_category)) as i64;
                seq![
                    RowModel {
                        name: "Not attributed"@,
                        tokens: TokenCost::Estimated(remainder),
                        share_percent: spec_share(remainder, denominator),
                    },
                ]
            },
        },
    }
}

/// A group's first member as a ranking key: a group without members ranks before any other.
pub open spec fn first_member_key(members: Seq<u64>) -> u128 {
    if members.len() == 0 {
        0
    } else {
        (members[0] + 1) as u128
    }
}

/// The ranking keys of the groups: tokens, then first member, then position.
pub open spec fn group_keys_ranked(groups: Seq<GroupModel>) -> Seq<RankKey> {
    Seq::new(
        groups.len(),
        |i: int| (groups[i].cost.spec_tokens(), first_member_key(groups[i].members), i as u64),
    )
}

/// The contributor at one rank.
pub open spec fn contributor(position: int, group: GroupModel, denominator: Option<i64>) -> ContributorModel {
    ContributorModel {
        rank: (position + 1) as u8,
        category: spec_category_name(group.category),
        label: group.label,
        tokens: group.cost,
        share_percent: spec_share(group.cost.spec_tokens(), denominator),
    }
}

/// The largest groups, at most `MAX_CONTRIBUTORS`, ties by first member.
pub open spec fn spec_contributors(state: StateModel) -> Seq<ContributorModel> {
    let groups = state.snapshot.groups;
    let ranked = group_keys_ranked(groups).sort_by(rank_order());
    let n = if ranked.len() < MAX_CONTRIBUTORS {
        ranked.len() as int
    } else {
        MAX_CONTRIBUTORS as int
    };
    Seq::new(
        n as nat,
        |j: int| contributor(j, groups[ranked[j].2 as int], spec_denominator(state)),
    )
}

/// The row of one turn.
pub open spec fn turn_row(turn: TurnModel) -> TurnRow {
    TurnRow {
        index: turn.index,
        added: match spec_measured_added(turn.measured_before, turn.measured_after) {
            Some(added) => Some(added as i64),
            None => None,
        },
        context_after: turn.measured_after,
    }
}

/// How many turns the card lists.
pub open spec fn shown_turns(turns: Seq<TurnModel>) -> int {
    if turns.len() < MAX_TURN_ROWS {
        turns.len() as int
    } else {
        MAX_TURN_ROWS as int
    }
}

/// The latest turns, newest first.
pub open spec fn spec_turn_rows(turns: Seq<TurnModel>) -> Seq<TurnRow> {
    Seq::new(shown_turns(turns) as nat, |j: int| turn_row(turns[turns.len() - 1 - j]))
}

/// The startup block, from the initial-context summary when one was claimed.
pub open spec fn spec_startup(initial: Option<InitialContextSummary>) -> Startup {
    match initial {
        Some(initial) => Startup::Available {
            total: initial.spec_startup_context_tokens() as i64,
            instructions: initial.estimated_instruction_tokens,
            baseline: initial.spec_hidden_tokens() as i64,
            first_request_input: initial.first_request_input_tokens,
        },
        None => Startup::Unavailable,
    }
}

/// The header: the reported total, the window, and how much of it remains.
pub open spec fn spec_header(state: StateModel) -> Option<Header> {
    match state.snapshot.reported_context_tokens {
        Some(reported) => Some(
            Header {
                reported,
                window: state.snapshot.window,
                percent_remaining: match state.snapshot.window {
                    Some(window) => Some(percent_of_window_remaining_result(reported, window)),
                    None => None,
                },
            },
        ),
        None => None,
    }
}

/// The card of one profiler state.
pub open spec fn spec_card(state: StateModel) -> CardModel {
    CardModel {
        invalidated: state.invalidated,
        header: spec_header(state),
        usage: if state.usage_pending {
            Usage::Pending
        } else {
            Usage::Current
        },
        startup: spec_startup(state.snapshot.initial_context),
        categories: spec_categories(state),
        attributed_total: spec_attributed_total(state.snapshot.by_category),
        not_attributable: spec_not_attributable(state),
        footer: spec_denominator(state),
        contributors: spec_contributors(state),
        turns: spec_turn_rows(state.snapshot.turns),
        warnings: state.classification_warning_count,
        unsizable: state.unsizable_item_count,
        has_items: state.snapshot.items.len() > 0,
    }
}

/// Whether the measured change of every turn the card lists fits an `i64`.
pub open spec fn shown_turns_computable(turns: Seq<TurnModel>) -> bool {
    forall|j: int|
        0 <= j < shown_turns(turns) ==> (#[trigger] spec_measured_added(
            turns[turns.len() - 1 - j].measured_before,
            turns[turns.len() - 1 - j].measured_after,
        ) matches Some(added) ==> i64::MIN <= added <= i64::MAX)
}

/// The states a card can be built of: every figure it derives fits an `i64`.
pub open spec fn card_computable(state: StateModel) -> bool {
    let snapshot = state.snapshot;
    &&& (snapshot.reported_context_tokens is Some && snapshot.window is Some)
        ==> snapshot.reported_context_tokens->0 >= i64::MIN + 12_000
    &&& forall|k: int|
        0 <= k <= snapshot.by_category.len() ==> i64::MIN <= #[trigger] category_rows_total(
            snapshot.by_category.take(k),
        ) <= i64::MAX
    &&& (spec_denominator(state) is Some && snapshot.baseline_tokens is None) ==> i64::MIN
        <= spec_denominator(state)->0 - category_rows_total(snapshot.by_category) <= i64::MAX
    &&& shown_turns_computable(snapshot.turns)
    &&& snapshot.initial_context matches Some(initial) ==> {
        &&& i64::MIN <= initial.spec_startup_context_tokens() <= i64::MAX
        &&& i64::MIN <= initial.spec_hidden_tokens() <= i64::MAX
    }
}


/// The category totals that hold any tokens, in declaration order.
fn nonzero(rows: &Vec<(Category, TokenCost)>) -> (r: Vec<(Category, TokenCost)>)
    ensures
        r@ == nonzero_rows(rows@),
{
    let mut out: Vec<(Category, TokenCost)> = Vec::new();
    let mut i: usize = 0;
    while i < rows.len()
        invariant
            i <= rows@.len(),
            out@ == nonzero_rows(rows@.take(i as int)),
        decreases rows@.len() - i,
    {
        proof {
            assert(rows@.take(i + 1).drop_last() =~= rows@.take(i as int));
        }
        let row = rows[i];
        if row.1.tokens() != 0 {
            out.push(row);
        }
        i = i + 1;
    }
    proof {
        assert(rows@.take(rows@.len() as int) =~= rows@);
    }
    out
}

/// Every key of a ranking was one of the keys ranked.
proof fn lemma_ranked_keys_come_from_input(keys: Seq<RankKey>, j: int)
    requires
        0 <= j < keys.sort_by(rank_order()).len(),
    ensures
        keys.contains(keys.sort_by(rank_order())[j]),
{
    crate::order::lemma_rank_order_is_total();
    keys.lemma_sort_by_ensures(rank_order());
    assert(keys.sort_by(rank_order()).contains(keys.sort_by(rank_order())[j]));
}

/// The rows of the categories holding tokens, largest first, ties by name.
fn category_rows(state: &ProfilerState, denominator: Option<i64>) -> (r: Vec<Row>)
    requires
        denominator == spec_denominator(state@),
        denominator matches Some(reported) ==> reported > 0,
    ensures
        r@.map_values(|row: Row| row@) == spec_categories(state@),
{
    let rows = nonzero(&state.snapshot.by_category);
    let mut keys: Vec<RankKey> = Vec::new();
    let mut i: usize = 0;
    while i < rows.len()
        invariant
            i <= rows@.len(),
            keys@ == category_keys(rows@).take(i as int),
        decreases rows@.len() - i,
    {
        let key = (rows[i].1.tokens(), name_rank(rows[i].0), i as u64);
        keys.push(key);
        proof {
            assert(keys@ =~= category_keys(rows@).take(i + 1));
        }
        i = i + 1;
    }
    proof {
        assert(keys@ =~= category_keys(rows@));
    }
    let ranked = rank(keys);
    let count = rows.len();
    let ghost target = spec_categories(state@);
    let mut out: Vec<Row> = Vec::new();
    let mut j: usize = 0;
    while j < ranked.len()
        invariant
            j <= ranked@.len(),
            ranked@ == category_keys(rows@).sort_by(rank_order()),
            rows@ == nonzero_rows(state@.snapshot.by_category),
            count == rows@.len(),
            target == spec_categories(state@),
            target.len() == ranked@.len(),
            denominator == spec_denominator(state@),
            denominator matches Some(reported) ==> reported > 0,
            out@.map_values(|row: Row| row@) == target.take(j as int),
        decreases ranked@.len() - j,
    {
        let key = ranked[j];
        proof {
            lemma_ranked_keys_come_from_input(category_keys(rows@), j as int);
            let k = choose|k: int|
                0 <= k < category_keys(rows@).len() && category_keys(rows@)[k] == key;
            assert(category_keys(rows@)[k].2 == k as u64);
            assert(key.2 == k);
        }
        let row = rows[key.2 as usize];
        let shown = Row {
            name: category_name(row.0),
            tokens: row.1,
            share_percent: share(row.1.tokens(), denominator),
        };
        proof {
            assert(target[j as int] == category_row(rows@[key.2 as int], spec_denominator(state@)));
            assert(shown@ == target[j as int]);
        }
        let ghost before = out@;
        out.push(shown);
        proof {
            assert(out@ == before.push(shown));
            assert(out@.map_values(|row: Row| row@) =~= before.map_values(|row: Row| row@).push(
                shown@,
            ));
            assert(target.take(j + 1) =~= target.take(j as int).push(target[j as int]));
        }
        j = j + 1;
    }
    proof {
        assert(target.take(target.len() as int) =~= target);
    }
    out
}


/// The largest groups, at most `MAX_CONTRIBUTORS`, ties by first member.
fn contributor_rows(state: &ProfilerState, denominator: Option<i64>) -> (r: Vec<Contributor>)
    requires
        denominator == spec_denominator(state@),
        denominator matches Some(reported) ==> reported > 0,
    ensures
        r@.map_values(|c: Contributor| c@) == spec_contributors(state@),
{
    let groups = &state.snapshot.groups;
    let ghost models = state@.snapshot.groups;
    let mut keys: Vec<RankKey> = Vec::new();
    let mut i: usize = 0;
    while i < groups.len()
        invariant
            i <= groups@.len(),
            models == groups@.map_values(|g: crate::item::ItemGroup| g@),
            keys@ == group_keys_ranked(models).take(i as int),
        decreases groups@.len() - i,
    {
        let group = &groups[i];
        let first: u128 = if group.members.len() == 0 {
            0
        } else {
            group.members[0] as u128 + 1
        };
        let key = (group.cost.tokens(), first, i as u64);
        keys.push(key);
        proof {
            assert(models[i as int] == group@);
            assert(keys@ =~= group_keys_ranked(models).take(i + 1));
        }
        i = i + 1;
    }
    proof {
        assert(keys@ =~= group_keys_ranked(models));
    }
    let ranked = rank(keys);
    let count = groups.len();
    let ghost target = spec_contributors(state@);
    let shown_count = if ranked.len() < MAX_CONTRIBUTORS {
        ranked.len()
    } else {
        MAX_CONTRIBUTORS
    };
    let mut out: Vec<Contributor> = Vec::new();
    let mut j: usize = 0;
    while j < shown_count
        invariant
            j <= shown_count <= ranked@.len(),
            shown_count <= MAX_CONTRIBUTORS,
            ranked@ == group_keys_ranked(models).sort_by(rank_order()),
            models == groups@.map_values(|g: crate::item::ItemGroup| g@),
            models == state@.snapshot.groups,
            count == groups@.len(),
            target == spec_contributors(state@),
            target.len() == shown_count,
            denominator == spec_denominator(state@),
            denominator matches Some(reported) ==> reported > 0,
            out@.map_values(|c: Contributor| c@) == target.take(j as int),
        decreases shown_count - j,
    {
        let key = ranked[j];
        proof {
            lemma_ranked_keys_come_from_input(group_keys_ranked(models), j as int);
            let k = choose|k: int|
                0 <= k < group_keys_ranked(models).len() && group_keys_ranked(models)[k] == key;
            assert(group_keys_ranked(models)[k].2 == k as u64);
            assert(key.2 == k);
        }
        let group = &groups[key.2 as usize];
        let shown = Contributor {
            rank: (j + 1) as u8,
            category: category_name(group.category),
            label: group.label.clone(),
            tokens: group.cost,
            share_percent: share(group.cost.tokens(), denominator),
        };
        proof {
            assert(models[key.2 as int] == group@);
            assert(target[j as int] == contributor(
                j as int,
                models[key.2 as int],
                spec_denominator(state@),
            ));
            assert(shown@ == target[j as int]);
        }
        let ghost before = out@;
        out.push(shown);
        proof {
            assert(out@.map_values(|c: Contributor| c@) =~= before.map_values(
                |c: Contributor| c@,
            ).push(shown@));
            assert(target.take(j + 1) =~= target.take(j as int).push(target[j as int]));
        }
        j = j + 1;
    }
    proof {
        assert(target.take(target.len() as int) =~= target);
    }
    out
}

/// The latest turns, newest first.
fn turn_rows(turns: &Vec<crate::snapshot::TurnDelta>) -> (r: Vec<TurnRow>)
    requires
        shown_turns_computable(turns@.map_values(|t: crate::snapshot::TurnDelta| t@)),
    ensures
        r@ == spec_turn_rows(turns@.map_values(|t: crate::snapshot::TurnDelta| t@)),
{
    let ghost models = turns@.map_values(|t: crate::snapshot::TurnDelta| t@);
    let ghost target = spec_turn_rows(models);
    let n = turns.len();
    let shown = if n < MAX_TURN_ROWS {
        n
    } else {
        MAX_TURN_ROWS
    };
    let mut out: Vec<TurnRow> = Vec::new();
    let mut j: usize = 0;
    while j < shown
        invariant
            j <= shown <= n,
            n == turns@.len(),
            models == turns@.map_values(|t: crate::snapshot::TurnDelta| t@),
            target == spec_turn_rows(models),
            target.len() == shown,
            shown == shown_turns(models),
            shown_turns_computable(models),
            out@ == target.take(j as int),
        decreases shown - j,
    {
        let turn = &turns[n - 1 - j];
        proof {
            assert(models[n - 1 - j] == turn@);
            assert(spec_measured_added(
                models[models.len() - 1 - j].measured_before,
                models[models.len() - 1 - j].measured_after,
            ) matches Some(added) ==> i64::MIN <= added <= i64::MAX);
        }
        let row = TurnRow {
            index: turn.index,
            added: turn.measured_added(),
            context_after: turn.measured_after,
        };
        proof {
            assert(models[n - 1 - j] == turn@);
            assert(row == target[j as int]);
        }
        out.push(row);
        proof {
            assert(out@ =~= target.take(j + 1));
        }
        j = j + 1;
    }
    proof {
        assert(target.take(target.len() as int) =~= target);
    }
    out
}

/// The category totals combined: exact only when every part is, and `Estimated(0)` for none.
fn attributed_total(rows: &Vec<(Category, TokenCost)>) -> (r: TokenCost)
    requires
        forall|k: int|
            0 <= k <= rows@.len() ==> i64::MIN <= #[trigger] category_rows_total(rows@.take(k))
                <= i64::MAX,
    ensures
        r == spec_attributed_total(rows@),
{
    if rows.len() == 0 {
        return TokenCost::Estimated(0);
    }
    let mut total = rows[0].1;
    let mut i: usize = 1;
    proof {
        assert(rows@.take(1).drop_last() =~= rows@.take(0));
        assert(category_rows_total(rows@.take(0)) == 0);
        assert(rows@.take(1)[0] == rows@[0]);
        if total is Exact {
            assert forall|k: int| 0 <= k < 1 implies (#[trigger] rows@.take(1)[k]).1 is Exact by {
                assert(k == 0);
            }
        }
    }
    while i < rows.len()
        invariant
            1 <= i <= rows@.len(),
            forall|k: int|
                0 <= k <= rows@.len() ==> i64::MIN <= #[trigger] category_rows_total(rows@.take(k))
                    <= i64::MAX,
            total.spec_tokens() == category_rows_total(rows@.take(i as int)),
            total is Exact <==> rows_exact(rows@.take(i as int)),
        decreases rows@.len() - i,
    {
        proof {
            assert(rows@.take(i + 1).drop_last() =~= rows@.take(i as int));
            assert(rows@.take(i + 1).last() == rows@[i as int]);
            assert(i64::MIN <= category_rows_total(rows@.take(i + 1)) <= i64::MAX);
            if rows_exact(rows@.take(i + 1)) {
                assert(rows@.take(i + 1)[i as int] == rows@[i as int]);
            }
            if rows_exact(rows@.take(i as int)) && rows@[i as int].1 is Exact {
                assert forall|k: int| 0 <= k < i + 1 implies (#[trigger] rows@.take(i + 1)[k]).1 is Exact by {
                    if k < i {
                        assert(rows@.take(i + 1)[k] == rows@.take(i as int)[k]);
                    }
                }
            }
            if rows_exact(rows@.take(i + 1)) {
                assert forall|k: int| 0 <= k < i implies (#[trigger] rows@.take(i as int)[k]).1 is Exact by {
                    assert(rows@.take(i + 1)[k] == rows@.take(i as int)[k]);
                }
            }
        }
        total = total.combine(rows[i].1);
        i = i + 1;
    }
    proof {
        assert(rows@.take(rows@.len() as int) =~= rows@);
    }
    total
}


/// What the reported total holds beyond the items.
fn not_attributable_rows(state: &ProfilerState, denominator: Option<i64>) -> (r: Vec<Row>)
    requires
        denominator == spec_denominator(state@),
        denominator matches Some(reported) ==> reported > 0,
        card_computable(state@),
    ensures
        r@.map_values(|row: Row| row@) == spec_not_attributable(state@),
{
    let reported = match denominator {
        None => {
            let r: Vec<Row> = Vec::new();
            proof {
                assert(r@.map_values(|row: Row| row@) =~= Seq::empty());
            }
            return r;
        },
        Some(reported) => reported,
    };
    let snapshot = &state.snapshot;
    match snapshot.baseline_tokens {
        Some(baseline) => {
            let r = vec![
                Row {
                    name: "System + tools baseline",
                    tokens: TokenCost::Estimated(baseline),
                    share_percent: share(baseline, denominator),
                },
                Row {
                    name: "Reconciliation drift",
                    tokens: TokenCost::Estimated(snapshot.drift_tokens),
                    share_percent: share(snapshot.drift_tokens, denominator),
                },
            ];
            proof {
                assert(r@.map_values(|row: Row| row@) =~= spec_not_attributable(state@));
            }
            r
        },
        None => {
            proof {
                assert(state@.snapshot.by_category.take(
                    state@.snapshot.by_category.len() as int,
                ) =~= state@.snapshot.by_category);
                assert(i64::MIN <= category_rows_total(state@.snapshot.by_category) <= i64::MAX);
            }
            let remainder = reported - snapshot.attributed_tokens();
            let r = vec![
                Row {
                    name: "Not attributed",
                    tokens: TokenCost::Estimated(remainder),
                    share_percent: share(remainder, denominator),
                },
            ];
            proof {
                assert(r@.map_values(|row: Row| row@) =~= spec_not_attributable(state@));
            }
            r
        },
    }
}

/// The startup block.
fn startup(initial: &Option<InitialContextSummary>) -> (r: Startup)
    requires
        initial matches Some(initial) ==> {
            &&& i64::MIN <= initial.spec_startup_context_tokens() <= i64::MAX
            &&& i64::MIN <= initial.spec_hidden_tokens() <= i64::MAX
        },
    ensures
        r == spec_startup(*initial),
{
    match initial {
        Some(initial) => Startup::Available {
            total: initial.startup_context_tokens(),
            instructions: initial.estimated_instruction_tokens,
            baseline: initial.hidden_tokens(),
            first_request_input: initial.first_request_input_tokens,
        },
        None => Startup::Unavailable,
    }
}

/// Shares are taken of the reported total only while it is positive and covers every observed
/// item: there is no denominator before the first anchor or while items wait for the next one.
pub proof fn lemma_shares_need_a_settled_total(state: StateModel)
    ensures
        spec_denominator(state) is Some <==> (state.snapshot.reported_context_tokens is Some
            && !state.usage_pending && state.snapshot.reported_context_tokens->0 > 0),
        spec_denominator(state) is Some ==> spec_denominator(state)->0
            == state.snapshot.reported_context_tokens->0,
        state.usage_pending ==> forall|j: int|
            0 <= j < spec_card(state).categories.len() ==> (#[trigger] spec_card(
                state,
            ).categories[j]).share_percent is None,
{
}

/// A share is whole percent of the reported total, rounded half up: there is none without a
/// denominator or for a negative amount, and otherwise, short of the `u32` ceiling, it is the
/// whole number nearest to `100 * tokens / reported`, halves rounded up.
pub proof fn lemma_share_is_the_rounded_percentage(tokens: i64, denominator: Option<i64>)
    requires
        denominator matches Some(reported) ==> reported > 0,
    ensures
        spec_share(tokens, denominator) is None <==> (denominator is None || tokens < 0),
        (denominator is Some && spec_share(tokens, denominator) is Some && spec_share(
            tokens,
            denominator,
        )->0 < u32::MAX) ==> {
            let reported = denominator->0;
            let percent = spec_share(tokens, denominator)->0;
            &&& 2 * reported * percent <= 200 * tokens + reported
            &&& 200 * tokens + reported < 2 * reported * (percent + 1)
        },
{
    if denominator is Some && tokens >= 0 {
        let reported = denominator->0;
        let x: int = 200 * tokens + reported;
        let d: int = 2 * reported;
        let q: int = x / d;
        assert(d * q <= x < d * (q + 1)) by (nonlinear_arith)
            requires
                d > 0,
                q == x / d,
        ;
        assert(q >= 0) by (nonlinear_arith)
            requires
                d > 0,
                x >= 0,
                q == x / d,
        ;
    }
}

/// The card's categories are the category totals holding any tokens, largest first: each row
/// shows a non-zero total, and no row holds more than the one above it.
pub proof fn lemma_categories_are_largest_first(state: StateModel)
    requires
        state.snapshot.by_category.len() <= u64::MAX,
    ensures
        forall|j: int, k: int|
            0 <= j < k < spec_card(state).categories.len() ==> (#[trigger] spec_card(
                state,
            ).categories[j]).tokens.spec_tokens() >= (#[trigger] spec_card(
                state,
            ).categories[k]).tokens.spec_tokens(),
        forall|j: int|
            0 <= j < spec_card(state).categories.len() ==> (#[trigger] spec_card(
                state,
            ).categories[j]).tokens.spec_tokens() != 0,
        forall|j: int|
            0 <= j < spec_card(state).categories.len() ==> (#[trigger] spec_card(
                state,
            ).categories[j]).share_percent == spec_share(
                spec_card(state).categories[j].tokens.spec_tokens(),
                spec_denominator(state),
            ),
{
    let rows = nonzero_rows(state.snapshot.by_category);
    let keys = category_keys(rows);
    let ranked = keys.sort_by(rank_order());
    let cats = spec_card(state).categories;
    crate::order::lemma_rank_order_is_total();
    keys.lemma_sort_by_ensures(rank_order());
    lemma_nonzero_rows_are_nonzero(state.snapshot.by_category);
    assert forall|j: int| 0 <= j < ranked.len() implies {
        let idx = (#[trigger] ranked[j]).2 as int;
        &&& 0 <= idx < rows.len()
        &&& ranked[j].0 == rows[idx].1.spec_tokens()
    } by {
        assert(ranked.contains(ranked[j]));
        vstd::seq_lib::to_multiset_contains(ranked, ranked[j]);
        vstd::seq_lib::to_multiset_contains(keys, ranked[j]);
        assert(keys.to_multiset().count(ranked[j]) == ranked.to_multiset().count(ranked[j]));
        assert(keys.contains(ranked[j]));
        let i = keys.index_of(ranked[j]);
        assert(keys[i] == ranked[j]);
        assert(keys[i].2 == i as u64);
    }
    assert forall|j: int, k: int| 0 <= j < k < cats.len() implies (#[trigger] cats[j]).tokens.spec_tokens()
        >= (#[trigger] cats[k]).tokens.spec_tokens() by {
        assert(rank_order()(ranked[j], ranked[k]));
    }
}

/// Every row kept as holding tokens holds some.
proof fn lemma_nonzero_rows_are_nonzero(rows: Seq<(Category, TokenCost)>)
    ensures
        forall|i: int|
            0 <= i < nonzero_rows(rows).len() ==> (#[trigger] nonzero_rows(rows)[i]).1.spec_tokens()
                != 0,
        nonzero_rows(rows).len() <= rows.len(),
    decreases rows.len(),
{
    if rows.len() > 0 {
        let prev = rows.drop_last();
        lemma_nonzero_rows_are_nonzero(prev);
        assert forall|i: int| 0 <= i < nonzero_rows(rows).len() implies (
        #[trigger] nonzero_rows(rows)[i]).1.spec_tokens() != 0 by {
            if i < nonzero_rows(prev).len() {
                assert(nonzero_rows(rows)[i] == nonzero_rows(prev)[i]);
            }
        }
    }
}

/// The card's attributed total combines every category total: it is exact exactly when there is
/// at least one total and every one of them is exact, and it holds their sum.
pub proof fn lemma_attributed_total_combines_the_category_totals(state: StateModel)
    requires
        card_computable(state),
    ensures
        spec_card(state).attributed_total is Exact <==> (state.snapshot.by_category.len() > 0
            && forall|i: int|
            0 <= i < state.snapshot.by_category.len() ==> (
            #[trigger] state.snapshot.by_category[i]).1 is Exact),
        spec_card(state).attributed_total.spec_tokens() == category_rows_total(
            state.snapshot.by_category,
        ),
{
    let rows = state.snapshot.by_category;
    assert(rows.take(rows.len() as int) =~= rows);
}

/// Builds the card of one profiler state.
pub fn build(state: &ProfilerState) -> (r: ContextCard)
    requires
        card_computable(state@),
    ensures
        r@ == spec_card(state@),
        r.attributed_total is Exact <==> (state.snapshot.by_category@.len() > 0 && forall|i: int|
            0 <= i < state.snapshot.by_category@.len() ==> (
            #[trigger] state.snapshot.by_category@[i]).1 is Exact),
        r.attributed_total.spec_tokens() == category_rows_total(state.snapshot.by_category@),
{
    proof {
        lemma_attributed_total_combines_the_category_totals(state@);
    }
    let snapshot = &state.snapshot;
    let usage = if state.usage_pending {
        Usage::Pending
    } else {
        Usage::Current
    };
    let header = match snapshot.reported_context_tokens {
        Some(reported) => Some(
            Header {
                reported,
                window: snapshot.window,
                percent_remaining: match snapshot.window {
                    Some(window) => Some(percent_of_window_remaining(reported, window)),
                    None => None,
                },
            },
        ),
        None => None,
    };
    // Shares are only honest against a total that covers every observed item.
    let denominator = match snapshot.reported_context_tokens {
        Some(reported) => if !state.usage_pending && reported > 0 {
            Some(reported)
        } else {
            None
        },
        None => None,
    };
    let categories = category_rows(state, denominator);
    let attributed = attributed_total(&snapshot.by_category);
    let not_attributable = not_attributable_rows(state, denominator);
    let contributors = contributor_rows(state, denominator);
    let turns = turn_rows(&snapshot.turns);
    let startup = startup(&snapshot.initial_context);
    ContextCard {
        invalidated: state.invalidated,
        header,
        usage,
        startup,
        categories,
        attributed_total: attributed,
        not_attributable,
        footer: denominator,
        contributors,
        turns,
        warnings: state.classification_warning_count,
        unsizable: state.unsizable_item_count,
        has_items: snapshot.items.len() > 0,
    }
}


/// Whether every category-total prefix fits an `i64`.
fn category_prefixes_fit(rows: &Vec<(Category, TokenCost)>) -> (r: bool)
    ensures
        r == forall|k: int|
            0 <= k <= rows@.len() ==> i64::MIN <= #[trigger] category_rows_total(rows@.take(k))
                <= i64::MAX,
{
    let mut total: i128 = 0;
    let mut i: usize = 0;
    proof {
        assert(rows@.take(0) =~= Seq::<(Category, TokenCost)>::empty());
    }
    while i < rows.len()
        invariant
            i <= rows@.len(),
            total == category_rows_total(rows@.take(i as int)),
            forall|k: int|
                0 <= k <= i ==> i64::MIN <= #[trigger] category_rows_total(rows@.take(k))
                    <= i64::MAX,
        decreases rows@.len() - i,
    {
        proof {
            assert(rows@.take(i + 1).drop_last() =~= rows@.take(i as int));
        }
        total = total + rows[i].1.tokens() as i128;
        if total < i64::MIN as i128 || total > i64::MAX as i128 {
            proof {
                assert(!(i64::MIN <= category_rows_total(rows@.take(i + 1)) <= i64::MAX));
            }
            return false;
        }
        i = i + 1;
    }
    true
}

/// Whether a card can be built of this state: every figure it derives fits an `i64`.
pub fn is_buildable(state: &ProfilerState) -> (r: bool)
    ensures
        r == card_computable(state@),
{
    let snapshot = &state.snapshot;
    if let (Some(reported), Some(_)) = (snapshot.reported_context_tokens, snapshot.window) {
        if reported < i64::MIN + 12_000 {
            return false;
        }
    }
    if !category_prefixes_fit(&snapshot.by_category) {
        proof {
            let rows = state@.snapshot.by_category;
            let k = choose|k: int|
                !(0 <= k <= rows.len() ==> i64::MIN <= #[trigger] category_rows_total(rows.take(k))
                    <= i64::MAX);
            assert(!(i64::MIN <= category_rows_total(rows.take(k)) <= i64::MAX));
        }
        return false;
    }
    proof {
        assert(state@.snapshot.by_category.take(state@.snapshot.by_category.len() as int)
            =~= state@.snapshot.by_category);
    }
    let denominator = match snapshot.reported_context_tokens {
        Some(reported) => if !state.usage_pending && reported > 0 {
            Some(reported)
        } else {
            None
        },
        None => None,
    };
    if let (Some(reported), None) = (denominator, snapshot.baseline_tokens) {
        let attributed = snapshot.attributed_tokens();
        let remainder = reported as i128 - attributed as i128;
        if remainder < i64::MIN as i128 || remainder > i64::MAX as i128 {
            return false;
        }
    }
    let ghost turns = state@.snapshot.turns;
    let n = snapshot.turns.len();
    let shown = if n < MAX_TURN_ROWS {
        n
    } else {
        MAX_TURN_ROWS
    };
    let mut j: usize = 0;
    while j < shown
        invariant
            j <= shown <= n,
            n == turns.len(),
            n == snapshot.turns@.len(),
            turns == state@.snapshot.turns,
            turns == snapshot.turns@.map_values(|t: crate::snapshot::TurnDelta| t@),
            shown == shown_turns(turns),
            forall|k: int|
                0 <= k < j ==> (#[trigger] spec_measured_added(
                    turns[turns.len() - 1 - k].measured_before,
                    turns[turns.len() - 1 - k].measured_after,
                ) matches Some(added) ==> i64::MIN <= added <= i64::MAX),
        decreases shown - j,
    {
        let turn = &snapshot.turns[n - 1 - j];
        proof {
            assert(turns[n - 1 - j] == turn@);
        }
        if let (Some(before), Some(after)) = (turn.measured_before, turn.measured_after) {
            let added = after as i128 - before as i128;
            if added < i64::MIN as i128 || added > i64::MAX as i128 {
                proof {
                    let k = j as int;
                    assert(spec_measured_added(
                        turns[turns.len() - 1 - k].measured_before,
                        turns[turns.len() - 1 - k].measured_after,
                    ) == Some(added as int));
                }
                return false;
            }
        }
        j = j + 1;
    }
    match &snapshot.initial_context {
        Some(initial) => {
            let startup = initial.first_request_input_tokens as i128
                - initial.estimated_user_input_tokens as i128;
            let hidden = startup - initial.estimated_instruction_tokens as i128;
            i64::MIN as i128 <= startup && startup <= i64::MAX as i128 && i64::MIN as i128 <= hidden
                && hidden <= i64::MAX as i128
        },
        None => true,
    }
}

} // verus!
