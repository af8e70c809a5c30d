//! History items, their classification, and the groups they are displayed in.
use vstd::prelude::*;

verus! {

/// The value an `i128` computation lands on once held in an `i64`: out-of-range totals saturate.
pub open spec fn clamp_i64(x: int) -> i64 {
    if x < i64::MIN {
        i64::MIN
    } else if x > i64::MAX {
        i64::MAX
    } else {
        x as i64
    }
}

/// Narrows an exact wide total, saturating instead of wrapping on absurd inputs.
pub fn clamp_to_i64(x: i128) -> (r: i64)
    ensures
        r == clamp_i64(x as int),
{
    if x < i64::MIN as i128 {
        i64::MIN
    } else if x > i64::MAX as i128 {
        i64::MAX
    } else {
        x as i64
    }
}

/// Ordered by declaration, so category aggregates are deterministic.
#[derive(Debug, Clone, Copy, PartialEq, Eq, Structural, PartialOrd, Ord, Hash)]
pub enum Category {
    UserMessage,
    AgentMessage,
    Reasoning,
    ToolCall,
    ToolOutput,
    Instructions,
    Compaction,
    Other,
}

impl Category {
    /// Position in declaration order.
    pub open spec fn spec_ordinal(self) -> int {
        match self {
            Category::UserMessage => 0,
            Category::AgentMessage => 1,
            Category::Reasoning => 2,
            Category::ToolCall => 3,
            Category::ToolOutput => 4,
            Category::Instructions => 5,
            Category::Compaction => 6,
            Category::Other => 7,
        }
    }

    /// The category at a declaration position.
    pub open spec fn spec_from_ordinal(n: int) -> Category {
        if n == 0 {
            Category::UserMessage
        } else if n == 1 {
            Category::AgentMessage
        } else if n == 2 {
            Category::Reasoning
        } else if n == 3 {
            Category::ToolCall
        } else if n == 4 {
            Category::ToolOutput
        } else if n == 5 {
            Category::Instructions
        } else if n == 6 {
            Category::Compaction
        } else {
            Category::Other
        }
    }

    pub fn ordinal(self) -> (r: usize)
        ensures
            r as int == self.spec_ordinal(),
            r < 8,
            Category::spec_from_ordinal(r as int) == self,
    {
        match self {
            Category::UserMessage => 0,
            Category::AgentMessage => 1,
            Category::Reasoning => 2,
            Category::ToolCall => 3,
            Category::ToolOutput => 4,
            Category::Instructions => 5,
            Category::Compaction => 6,
            Category::Other => 7,
        }
    }

    pub fn from_ordinal(n: usize) -> (r: Category)
        requires
            n < 8,
        ensures
            r == Category::spec_from_ordinal(n as int),
            r.spec_ordinal() == n as int,
    {
        if n == 0 {
            Category::UserMessage
        } else if n == 1 {
            Category::AgentMessage
        } else if n == 2 {
            Category::Reasoning
        } else if n == 3 {
            Category::ToolCall
        } else if n == 4 {
            Category::ToolOutput
        } else if n == 5 {
            Category::Instructions
        } else if n == 6 {
            Category::Compaction
        } else {
            Category::Other
        }
    }
}

/// Which measured total may price an item. Never derived from `Category`.
#[derive(Debug, Clone, Copy, PartialEq, Eq, Structural)]
pub enum PricingKind {
    /// Serialised into the next request, so an anchor delta prices it.
    Input,
    /// One response's own output, so that response's `output_tokens` prices it.
    Output,
    /// If an attribution span contains an `Ambiguous` item, leave the entire span on its initial
    /// estimates. Still record the usage anchor and advance the span boundary.
    Ambiguous,
}

/// What a content entry holds, which decides how its bytes are estimated.
#[derive(Debug, Clone, Copy, PartialEq, Eq, Structural)]
pub enum PartMedia {
    Text,
    Image,
    Audio,
}

/// Why an item's classification is uncertain; an item carries each reason at most once.
#[derive(Debug, Clone, Copy, PartialEq, Eq, Structural)]
pub enum ClassificationWarning {
    /// `content_item_kinds` and `content` differ in length.
    KindLengthMismatch,
    /// The entries of one message classify differently.
    MixedCategories,
    /// An entry had no usable kind and was classified by its text markers.
    MarkerFallback,
    /// A message role other than user, developer, assistant, or system; its direction is unknown.
    UnknownRole,
    /// The serde fallback variant: a response item type this build does not know.
    UnknownItemType,
}

/// A whole measured total on one item is `Exact`; a proportional share of a measured total is
/// `Estimated`, as is an unmeasured estimate.
#[derive(Debug, Clone, Copy, PartialEq, Eq, Structural)]
pub enum TokenCost {
    Exact(i64),
    Estimated(i64),
}

impl TokenCost {
    pub open spec fn spec_tokens(self) -> i64 {
        match self {
            TokenCost::Exact(tokens) => tokens,
            TokenCost::Estimated(tokens) => tokens,
        }
    }

    pub open spec fn is_exact(self) -> bool {
        self is Exact
    }

    /// A cost that is exact only when `exact` says so, holding a saturated total.
    pub open spec fn with(exact: bool, tokens: int) -> TokenCost {
        if exact {
            TokenCost::Exact(clamp_i64(tokens))
        } else {
            TokenCost::Estimated(clamp_i64(tokens))
        }
    }

    #[verifier::when_used_as_spec(spec_tokens)]
    pub fn tokens(self) -> (r: i64)
        ensures
            r == self.spec_tokens(),
    {
        match self {
            TokenCost::Exact(tokens) | TokenCost::Estimated(tokens) => tokens,
        }
    }

    /// A total is exact only when every part of it is.
    pub fn combine(self, other: Self) -> (r: Self)
        requires
            i64::MIN <= self.spec_tokens() + other.spec_tokens() <= i64::MAX,
        ensures
            r.spec_tokens() == self.spec_tokens() + other.spec_tokens(),
            r.is_exact() <==> (self.is_exact() && other.is_exact()),
    {
        let tokens = self.tokens() + other.tokens();
        match (self, other) {
            (TokenCost::Exact(_), TokenCost::Exact(_)) => TokenCost::Exact(tokens),
            _ => TokenCost::Estimated(tokens),
        }
    }
}

/// Every item belongs to exactly one group.
#[derive(Debug, Clone, PartialEq, Eq, Hash)]
pub enum GroupKey {
    /// Keyed on `call_id` alone; calls pair with outputs globally, not per turn.
    ToolCall(String),
    Ungrouped(u64),
}

/// The mathematical value of a `GroupKey`.
pub enum GroupKeyModel {
    ToolCall(Seq<char>),
    Ungrouped(u64),
}

impl View for GroupKey {
    type V = GroupKeyModel;

    open spec fn view(&self) -> GroupKeyModel {
        match self {
            GroupKey::ToolCall(call_id) => GroupKeyModel::ToolCall(call_id@),
            GroupKey::Ungrouped(seq) => GroupKeyModel::Ungrouped(*seq),
        }
    }
}

impl GroupKey {
    /// Whether two keys name the same group.
    pub fn same_as(&self, other: &GroupKey) -> (r: bool)
        ensures
            r == (self@ == other@),
    {
        match (self, other) {
            (GroupKey::ToolCall(a), GroupKey::ToolCall(b)) => {
                let r = a.eq(b);
                proof {
                    if r {
                        assert(self@ == other@);
                    }
                }
                r
            },
            (GroupKey::Ungrouped(a), GroupKey::Ungrouped(b)) => *a == *b,
            _ => false,
        }
    }

    pub fn duplicate(&self) -> (r: GroupKey)
        ensures
            r@ == self@,
    {
        match self {
            GroupKey::ToolCall(call_id) => GroupKey::ToolCall(call_id.clone()),
            GroupKey::Ungrouped(seq) => GroupKey::Ungrouped(*seq),
        }
    }
}

/// One entry of a message's content array, classified on its own.
#[derive(Debug, Clone, PartialEq, Eq)]
pub struct ContentPart {
    /// The harness-owned content item kind, or empty when the entry carried none.
    pub kind: String,
    pub bytes: usize,
    pub category: Category,
    pub media: PartMedia,
}

/// The mathematical value of a `ContentPart`.
pub struct PartModel {
    pub kind: Seq<char>,
    pub bytes: usize,
    pub category: Category,
    pub media: PartMedia,
}

impl View for ContentPart {
    type V = PartModel;

    open spec fn view(&self) -> PartModel {
        PartModel { kind: self.kind@, bytes: self.bytes, category: self.category, media: self.media }
    }
}

/// The values of a list of parts.
pub open spec fn parts_view(parts: Seq<ContentPart>) -> Seq<PartModel> {
    parts.map_values(|p: ContentPart| p@)
}

#[derive(Debug, Clone, PartialEq, Eq)]
pub struct ItemSummary {
    pub seq: u64,
    pub turn_index: u32,
    pub category: Category,
    pub pricing: PricingKind,
    pub bytes: usize,
    pub cost: TokenCost,
    pub label: String,
    pub group: GroupKey,
    pub item_id: Option<String>,
    /// Per-content-entry breakdown, in bytes; empty for items without a content array.
    pub parts: Vec<ContentPart>,
    pub warnings: Vec<ClassificationWarning>,
}

/// The mathematical value of an `ItemSummary`.
pub struct ItemModel {
    pub seq: u64,
    pub turn_index: u32,
    pub category: Category,
    pub pricing: PricingKind,
    pub bytes: usize,
    pub cost: TokenCost,
    pub label: Seq<char>,
    pub group: GroupKeyModel,
    pub item_id: Option<Seq<char>>,
    pub parts: Seq<PartModel>,
    pub warnings: Seq<ClassificationWarning>,
}

/// The value of an optional string.
pub open spec fn opt_str_view(s: Option<String>) -> Option<Seq<char>> {
    match s {
        Some(s) => Some(s@),
        None => None,
    }
}

impl View for ItemSummary {
    type V = ItemModel;

    open spec fn view(&self) -> ItemModel {
        ItemModel {
            seq: self.seq,
            turn_index: self.turn_index,
            category: self.category,
            pricing: self.pricing,
            bytes: self.bytes,
            cost: self.cost,
            label: self.label@,
            group: self.group@,
            item_id: opt_str_view(self.item_id),
            parts: parts_view(self.parts@),
            warnings: self.warnings@,
        }
    }
}

impl ItemModel {
    /// The same item at a new price.
    pub open spec fn priced(self, cost: TokenCost) -> ItemModel {
        ItemModel { cost, ..self }
    }
}

/// The display unit for "largest contributors": typically a tool call with its output.
#[derive(Debug, Clone, PartialEq, Eq)]
pub struct ItemGroup {
    pub key: GroupKey,
    pub category: Category,
    /// `Exact` only when every member is.
    pub cost: TokenCost,
    pub label: String,
    /// `ItemSummary::seq` values of the members.
    pub members: Vec<u64>,
}

/// The mathematical value of an `ItemGroup`.
pub struct GroupModel {
    pub key: GroupKeyModel,
    pub category: Category,
    pub cost: TokenCost,
    pub label: Seq<char>,
    pub members: Seq<u64>,
}

impl View for ItemGroup {
    type V = GroupModel;

    open spec fn view(&self) -> GroupModel {
        GroupModel {
            key: self.key@,
            category: self.category,
            cost: self.cost,
            label: self.label@,
            members: self.members@,
        }
    }
}

} // verus!
