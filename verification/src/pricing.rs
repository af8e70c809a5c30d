//! Anchor-delta attribution: a measured total is spread over the items of one span.
//!
//! Between two consecutive anchors of one turn, `input(n+1) - total(n)` is exactly the token cost
//! of the input items that arrived in between, and a response's `output_tokens` is exactly the cost
//! of its own output items. A lone item takes the whole measured total; several items apportion it
//! by their estimates, the last taking the remainder so the parts sum to the whole.
use vstd::prelude::*;

use crate::aggregate::items_view;
use crate::item::clamp_i64;
use crate::item::clamp_to_i64;
use crate::item::ItemModel;
use crate::item::ItemSummary;
use crate::item::PricingKind;
use crate::item::TokenCost;
use crate::usage::UsageSnapshot;

verus! {

/// The weight an item's current estimate gives it when a total is apportioned.
pub open spec fn weight(item: ItemModel) -> int {
    if item.cost.spec_tokens() > 0 {
        item.cost.spec_tokens() as int
    } else {
        0
    }
}

/// How many items of one pricing kind lie in `[lo, hi)`.
pub open spec fn kind_count(items: Seq<ItemModel>, lo: int, hi: int, kind: PricingKind) -> int
    decreases hi - lo,
{
    if hi <= lo {
        0
    } else {
        kind_count(items, lo, hi - 1, kind) + if items[hi - 1].pricing == kind {
            1int
        } else {
            0int
        }
    }
}

/// The summed weight of the items of one pricing kind in `[lo, hi)`.
pub open spec fn kind_weight(items: Seq<ItemModel>, lo: int, hi: int, kind: PricingKind) -> int
    decreases hi - lo,
{
    if hi <= lo {
        0
    } else {
        kind_weight(items, lo, hi - 1, kind) + if items[hi - 1].pricing == kind {
            weight(items[hi - 1])
        } else {
            0
        }
    }
}

/// One item's proportional share of a non-negative total, rounded down.
pub open spec fn magnitude_share(magnitude: int, w: int, wsum: int, count: int) -> int {
    if wsum > 0 {
        magnitude * w / wsum
    } else {
        magnitude / count
    }
}

/// One item's proportional share of a total, rounded toward zero.
pub open spec fn share(total: int, w: int, wsum: int, count: int) -> int {
    if total >= 0 {
        magnitude_share(total, w, wsum, count)
    } else {
        -magnitude_share(-total, w, wsum, count)
    }
}

/// The summed shares of the items of one pricing kind in `[lo, hi)`.
pub open spec fn share_sum(
    items: Seq<ItemModel>,
    lo: int,
    hi: int,
    kind: PricingKind,
    total: int,
    wsum: int,
    count: int,
) -> int
    decreases hi - lo,
{
    if hi <= lo {
        0
    } else {
        share_sum(items, lo, hi - 1, kind, total, wsum, count) + if items[hi - 1].pricing == kind {
            share(total, weight(items[hi - 1]), wsum, count)
        } else {
            0
        }
    }
}

/// The price of item `i`, of one pricing kind, in the span starting at `lo`.
pub open spec fn price_at(
    items: Seq<ItemModel>,
    lo: int,
    i: int,
    kind: PricingKind,
    total: int,
) -> TokenCost {
    let count = kind_count(items, lo, items.len() as int, kind);
    let wsum = kind_weight(items, lo, items.len() as int, kind);
    if count == 1 {
        TokenCost::Exact(clamp_i64(total))
    } else if kind_count(items, lo, i, kind) < count - 1 {
        TokenCost::Estimated(clamp_i64(share(total, weight(items[i]), wsum, count)))
    } else {
        TokenCost::Estimated(clamp_i64(total - share_sum(items, lo, i, kind, total, wsum, count)))
    }
}

/// The items after one measured total is spread over the span's items of one pricing kind.
pub open spec fn spec_price_kind(
    items: Seq<ItemModel>,
    lo: int,
    kind: PricingKind,
    total: int,
) -> Seq<ItemModel> {
    Seq::new(
        items.len(),
        |i: int|
            if i >= lo && items[i].pricing == kind {
                items[i].priced(price_at(items, lo, i, kind, total))
            } else {
                items[i]
            },
    )
}

/// Whether the span starting at `lo` holds an item no measured total may price.
pub open spec fn span_is_ambiguous(items: Seq<ItemModel>, lo: int) -> bool {
    exists|i: int| lo <= i < items.len() && #[trigger] items[i].pricing == PricingKind::Ambiguous
}

/// The measured delta that prices a span's input items, when the previous anchor may be used.
pub open spec fn input_delta(usage: UsageSnapshot, previous_total: Option<i64>) -> Option<int> {
    match previous_total {
        Some(previous) => Some(usage.input_tokens - previous),
        None => None,
    }
}

/// The items after an anchor prices its span: outputs by the response's output total, inputs by
/// the delta from the previous anchor of the same turn, and nothing at all if the span holds an
/// ambiguous item.
pub open spec fn spec_price_span(
    items: Seq<ItemModel>,
    lo: int,
    usage: UsageSnapshot,
    previous_total: Option<i64>,
) -> Seq<ItemModel> {
    if span_is_ambiguous(items, lo) {
        items
    } else {
        let priced = spec_price_kind(items, lo, PricingKind::Output, usage.output_tokens as int);
        match input_delta(usage, previous_total) {
            Some(delta) => spec_price_kind(priced, lo, PricingKind::Input, delta),
            None => priced,
        }
    }
}

proof fn lemma_kind_count_bounds(items: Seq<ItemModel>, lo: int, hi: int, kind: PricingKind)
    ensures
        0 <= kind_count(items, lo, hi, kind),
        hi >= lo ==> kind_count(items, lo, hi, kind) <= hi - lo,
    decreases hi - lo,
{
    if hi > lo {
        lemma_kind_count_bounds(items, lo, hi - 1, kind);
    }
}

proof fn lemma_kind_weight_bounds(items: Seq<ItemModel>, lo: int, hi: int, kind: PricingKind)
    ensures
        0 <= kind_weight(items, lo, hi, kind),
        hi >= lo ==> kind_weight(items, lo, hi, kind) <= (hi - lo) * 0x8000_0000_0000_0000,
    decreases hi - lo,
{
    if hi > lo {
        lemma_kind_weight_bounds(items, lo, hi - 1, kind);
    }
}

proof fn lemma_kind_weight_monotone(
    items: Seq<ItemModel>,
    lo: int,
    mid: int,
    hi: int,
    kind: PricingKind,
)
    requires
        lo <= mid <= hi,
    ensures
        kind_weight(items, lo, mid, kind) <= kind_weight(items, lo, hi, kind),
        kind_count(items, lo, mid, kind) <= kind_count(items, lo, hi, kind),
    decreases hi - mid,
{
    if mid < hi {
        lemma_kind_weight_monotone(items, lo, mid, hi - 1, kind);
    }
}

proof fn lemma_magnitude_share_bound(magnitude: int, w: int, wsum: int, count: int)
    requires
        0 <= magnitude,
        0 <= w,
        wsum > 0 ==> w <= wsum,
        count >= 1,
    ensures
        0 <= magnitude_share(magnitude, w, wsum, count) <= magnitude,
        wsum > 0 ==> magnitude_share(magnitude, w, wsum, count) * wsum <= magnitude * w,
        wsum <= 0 ==> magnitude_share(magnitude, w, wsum, count) * count <= magnitude,
{
    if wsum > 0 {
        assert(0 <= magnitude * w / wsum <= magnitude) by (nonlinear_arith)
            requires
                0 <= magnitude,
                0 <= w <= wsum,
                wsum > 0,
        ;
        assert((magnitude * w / wsum) * wsum <= magnitude * w) by (nonlinear_arith)
            requires
                0 <= magnitude,
                0 <= w,
                wsum > 0,
        ;
    } else {
        assert(0 <= magnitude / count <= magnitude) by (nonlinear_arith)
            requires
                0 <= magnitude,
                count >= 1,
        ;
        assert((magnitude / count) * count <= magnitude) by (nonlinear_arith)
            requires
                0 <= magnitude,
                count >= 1,
        ;
    }
}

/// The summed shares never exceed the total they divide.
proof fn lemma_share_sum_bound(
    items: Seq<ItemModel>,
    lo: int,
    hi: int,
    kind: PricingKind,
    total: int,
    wsum: int,
    count: int,
)
    requires
        lo <= hi <= items.len(),
        wsum == kind_weight(items, lo, items.len() as int, kind),
        count == kind_count(items, lo, items.len() as int, kind),
        count >= 1,
    ensures
        total >= 0 ==> 0 <= share_sum(items, lo, hi, kind, total, wsum, count),
        total < 0 ==> share_sum(items, lo, hi, kind, total, wsum, count) <= 0,
        wsum > 0 && total >= 0 ==> share_sum(items, lo, hi, kind, total, wsum, count) * wsum
            <= total * kind_weight(items, lo, hi, kind),
        wsum > 0 && total < 0 ==> -share_sum(items, lo, hi, kind, total, wsum, count) * wsum <= (
        -total) * kind_weight(items, lo, hi, kind),
        wsum <= 0 && total >= 0 ==> share_sum(items, lo, hi, kind, total, wsum, count)
            <= kind_count(items, lo, hi, kind) * (total / count),
        wsum <= 0 && total < 0 ==> -share_sum(items, lo, hi, kind, total, wsum, count)
            <= kind_count(items, lo, hi, kind) * ((-total) / count),
    decreases hi - lo,
{
    if hi > lo {
        lemma_share_sum_bound(items, lo, hi - 1, kind, total, wsum, count);
        lemma_kind_weight_monotone(items, lo, hi, items.len() as int, kind);
        lemma_kind_weight_bounds(items, lo, hi - 1, kind);
        let item = items[hi - 1];
        if item.pricing == kind {
            let w = weight(item);
            assert(w <= kind_weight(items, lo, hi, kind));
            let magnitude = if total >= 0 {
                total
            } else {
                -total
            };
            lemma_magnitude_share_bound(magnitude, w, wsum, count);
            let prev = share_sum(items, lo, hi - 1, kind, total, wsum, count);
            let s = magnitude_share(magnitude, w, wsum, count);
            let pw = kind_weight(items, lo, hi - 1, kind);
            if wsum > 0 {
                if total >= 0 {
                    assert(prev * wsum <= magnitude * pw);
                    assert(s * wsum <= magnitude * w);
                    assert((prev + s) * wsum <= magnitude * (pw + w)) by (nonlinear_arith)
                        requires
                            prev * wsum <= magnitude * pw,
                            s * wsum <= magnitude * w,
                    ;
                } else {
                    assert((-prev + s) * wsum <= magnitude * (pw + w)) by (nonlinear_arith)
                        requires
                            -prev * wsum <= magnitude * pw,
                            s * wsum <= magnitude * w,
                    ;
                }
            } else {
                let c = kind_count(items, lo, hi - 1, kind);
                assert((c + 1) * (magnitude / count) == c * (magnitude / count) + magnitude / count)
                    by (nonlinear_arith);
            }
        }
    }
}

/// The summed shares of the items before the last of their kind stay within the total.
proof fn lemma_share_sum_magnitude(
    items: Seq<ItemModel>,
    lo: int,
    hi: int,
    kind: PricingKind,
    total: int,
    wsum: int,
    count: int,
)
    requires
        lo <= hi <= items.len(),
        wsum == kind_weight(items, lo, items.len() as int, kind),
        count == kind_count(items, lo, items.len() as int, kind),
        count >= 1,
    ensures
        -(if total >= 0 {
            total
        } else {
            -total
        }) <= share_sum(items, lo, hi, kind, total, wsum, count) <= (if total >= 0 {
            total
        } else {
            -total
        }),
{
    lemma_share_sum_bound(items, lo, hi, kind, total, wsum, count);
    lemma_kind_weight_monotone(items, lo, hi, items.len() as int, kind);
    lemma_kind_weight_bounds(items, lo, hi, kind);
    lemma_kind_count_bounds(items, lo, hi, kind);
    let magnitude = if total >= 0 {
        total
    } else {
        -total
    };
    let s = share_sum(items, lo, hi, kind, total, wsum, count);
    let pw = kind_weight(items, lo, hi, kind);
    let c = kind_count(items, lo, hi, kind);
    if wsum > 0 {
        if total >= 0 {
            assert(s <= magnitude) by (nonlinear_arith)
                requires
                    s * wsum <= magnitude * pw,
                    0 <= pw <= wsum,
                    wsum > 0,
                    magnitude >= 0,
            ;
        } else {
            assert(-s <= magnitude) by (nonlinear_arith)
                requires
                    -s * wsum <= magnitude * pw,
                    0 <= pw <= wsum,
                    wsum > 0,
                    magnitude >= 0,
            ;
        }
    } else {
        assert(c * (magnitude / count) <= magnitude) by (nonlinear_arith)
            requires
                0 <= c <= count,
                count >= 1,
                magnitude >= 0,
        ;
    }
}

/// The summed tokens of the items of one pricing kind in `[lo, hi)`.
pub open spec fn kind_tokens(items: Seq<ItemModel>, lo: int, hi: int, kind: PricingKind) -> int
    decreases hi - lo,
{
    if hi <= lo {
        0
    } else {
        kind_tokens(items, lo, hi - 1, kind) + if items[hi - 1].pricing == kind {
            items[hi - 1].cost.spec_tokens() as int
        } else {
            0
        }
    }
}

/// A stretch without items of one kind contributes nothing of that kind.
pub(crate) proof fn lemma_no_kind_sums_to_zero(
    items: Seq<ItemModel>,
    lo: int,
    hi: int,
    kind: PricingKind,
    total: int,
    wsum: int,
    count: int,
)
    requires
        lo <= hi,
        kind_count(items, lo, hi, kind) == 0,
    ensures
        share_sum(items, lo, hi, kind, total, wsum, count) == 0,
        kind_tokens(items, lo, hi, kind) == 0,
    decreases hi - lo,
{
    if hi > lo {
        lemma_kind_count_bounds(items, lo, hi - 1, kind);
        lemma_no_kind_sums_to_zero(items, lo, hi - 1, kind, total, wsum, count);
    }
}

/// Pricing one kind leaves every item's kind, and every other field but the cost, in place.
proof fn lemma_price_kind_shape(items: Seq<ItemModel>, lo: int, kind: PricingKind, total: int)
    ensures
        spec_price_kind(items, lo, kind, total).len() == items.len(),
        forall|i: int|
            0 <= i < items.len() ==> (#[trigger] spec_price_kind(items, lo, kind, total)[i]).pricing
                == items[i].pricing && spec_price_kind(items, lo, kind, total)[i]
                == items[i].priced(spec_price_kind(items, lo, kind, total)[i].cost),
        forall|i: int|
            0 <= i < items.len() && (i < lo || items[i].pricing != kind) ==> #[trigger] spec_price_kind(
                items,
                lo,
                kind,
                total,
            )[i] == items[i],
{
}

/// Pricing one kind leaves the summed tokens of every other kind unchanged.
proof fn lemma_price_kind_keeps_other_kinds(
    items: Seq<ItemModel>,
    lo: int,
    from: int,
    hi: int,
    kind: PricingKind,
    other: PricingKind,
    total: int,
)
    requires
        0 <= from <= hi <= items.len(),
        kind != other,
    ensures
        kind_tokens(spec_price_kind(items, lo, kind, total), from, hi, other) == kind_tokens(
            items,
            from,
            hi,
            other,
        ),
    decreases hi - from,
{
    lemma_price_kind_shape(items, lo, kind, total);
    if hi > from {
        lemma_price_kind_keeps_other_kinds(items, lo, from, hi - 1, kind, other, total);
    }
}

/// Two lists whose items have the same pricing kinds count each kind alike.
pub(crate) proof fn lemma_kind_count_same(
    a: Seq<ItemModel>,
    b: Seq<ItemModel>,
    lo: int,
    hi: int,
    kind: PricingKind,
)
    requires
        0 <= lo <= hi <= a.len(),
        a.len() == b.len(),
        forall|i: int| 0 <= i < a.len() ==> #[trigger] a[i].pricing == b[i].pricing,
    ensures
        kind_count(a, lo, hi, kind) == kind_count(b, lo, hi, kind),
    decreases hi - lo,
{
    if hi > lo {
        lemma_kind_count_same(a, b, lo, hi - 1, kind);
        assert(a[hi - 1].pricing == b[hi - 1].pricing);
    }
}

/// The priced items of one kind in `[lo, hi)` sum to their shares, and to the whole total once
/// the last of them is reached.
proof fn lemma_price_kind_prefix(
    items: Seq<ItemModel>,
    lo: int,
    hi: int,
    kind: PricingKind,
    total: int,
)
    requires
        0 <= lo <= hi <= items.len(),
        kind_count(items, lo, items.len() as int, kind) >= 1,
        i64::MIN <= total <= i64::MAX,
    ensures
        kind_tokens(spec_price_kind(items, lo, kind, total), lo, hi, kind) == if kind_count(
            items,
            lo,
            hi,
            kind,
        ) < kind_count(items, lo, items.len() as int, kind) {
            share_sum(
                items,
                lo,
                hi,
                kind,
                total,
                kind_weight(items, lo, items.len() as int, kind),
                kind_count(items, lo, items.len() as int, kind),
            )
        } else {
            total
        },
    decreases hi - lo,
{
    let n = items.len() as int;
    let count = kind_count(items, lo, n, kind);
    let wsum = kind_weight(items, lo, n, kind);
    let priced = spec_price_kind(items, lo, kind, total);
    lemma_price_kind_shape(items, lo, kind, total);
    if hi > lo {
        let i = hi - 1;
        lemma_price_kind_prefix(items, lo, i, kind, total);
        lemma_kind_weight_monotone(items, lo, hi, n, kind);
        lemma_kind_weight_monotone(items, lo, i, n, kind);
        lemma_kind_weight_bounds(items, lo, i, kind);
        let c = kind_count(items, lo, i, kind);
        let before = kind_tokens(priced, lo, i, kind);
        if items[i].pricing == kind {
            assert(kind_count(items, lo, hi, kind) == c + 1);
            assert(c + 1 <= count);
            assert(priced[i] == items[i].priced(price_at(items, lo, i, kind, total)));
            assert(priced[i].pricing == kind);
            assert(kind_tokens(priced, lo, hi, kind) == before + price_at(
                items,
                lo,
                i,
                kind,
                total,
            ).spec_tokens());
            let w = weight(items[i]);
            assert(kind_weight(items, lo, hi, kind) == kind_weight(items, lo, i, kind) + w);
            assert(0 <= w <= wsum);
            if count == 1 {
                lemma_kind_count_bounds(items, lo, i, kind);
                assert(c == 0);
                lemma_no_kind_sums_to_zero(items, lo, i, kind, total, wsum, count);
                assert(before == 0);
            } else if c < count - 1 {
                let magnitude = if total >= 0 {
                    total
                } else {
                    -total
                };
                lemma_magnitude_share_bound(magnitude, w, wsum, count);
                assert(before == share_sum(items, lo, i, kind, total, wsum, count));
                assert(share_sum(items, lo, hi, kind, total, wsum, count) == before + share(
                    total,
                    w,
                    wsum,
                    count,
                ));
            } else {
                lemma_share_sum_magnitude(items, lo, i, kind, total, wsum, count);
                lemma_share_sum_bound(items, lo, i, kind, total, wsum, count);
                assert(before == share_sum(items, lo, i, kind, total, wsum, count));
            }
        } else {
            assert(kind_count(items, lo, hi, kind) == c);
            assert(priced[i] == items[i]);
            assert(kind_tokens(priced, lo, hi, kind) == before);
            assert(kind_weight(items, lo, hi, kind) == kind_weight(items, lo, i, kind));
        }
    }
}

/// A measured total spread over one kind's items of a span sums to the whole: each item takes its
/// share, the last the remainder, and a lone item the whole total.
pub proof fn lemma_price_kind_sums_to_total(
    items: Seq<ItemModel>,
    lo: int,
    kind: PricingKind,
    total: int,
)
    requires
        0 <= lo <= items.len(),
        kind_count(items, lo, items.len() as int, kind) >= 1,
        i64::MIN <= total <= i64::MAX,
    ensures
        kind_tokens(spec_price_kind(items, lo, kind, total), lo, items.len() as int, kind)
            == total,
{
    lemma_price_kind_prefix(items, lo, items.len() as int, kind, total);
}

/// The items of one pricing kind in the span, and their summed weight.
fn kind_totals(items: &Vec<ItemSummary>, lo: usize, kind: PricingKind) -> (r: (u128, u128))
    requires
        lo <= items@.len(),
    ensures
        r.0 as int == kind_count(items_view(items@), lo as int, items@.len() as int, kind),
        r.1 as int == kind_weight(items_view(items@), lo as int, items@.len() as int, kind),
{
    let ghost all = items_view(items@);
    let mut count: u128 = 0;
    let mut wsum: u128 = 0;
    let mut i: usize = lo;
    while i < items.len()
        invariant
            lo <= i <= items@.len(),
            all == items_view(items@),
            count as int == kind_count(all, lo as int, i as int, kind),
            wsum as int == kind_weight(all, lo as int, i as int, kind),
        decreases items@.len() - i,
    {
        proof {
            lemma_kind_count_bounds(all, lo as int, i as int, kind);
            lemma_kind_weight_bounds(all, lo as int, i as int, kind);
        }
        if items[i].pricing == kind {
            let tokens = items[i].cost.tokens();
            let w: u128 = if tokens > 0 {
                tokens as u128
            } else {
                0
            };
            count = count + 1;
            wsum = wsum + w;
        }
        i = i + 1;
    }
    (count, wsum)
}

/// One item's share of a total, rounded toward zero.
fn share_of(total: i128, w: u128, wsum: u128, count: u128) -> (r: i128)
    requires
        -0x1_0000_0000_0000_0000 <= total <= 0x1_0000_0000_0000_0000,
        w <= 0x8000_0000_0000_0000,
        wsum > 0 ==> w <= wsum,
        count >= 1,
    ensures
        r as int == share(total as int, w as int, wsum as int, count as int),
        -0x1_0000_0000_0000_0000 <= r <= 0x1_0000_0000_0000_0000,
{
    let magnitude: u128 = if total >= 0 {
        total as u128
    } else {
        (-total) as u128
    };
    proof {
        lemma_magnitude_share_bound(magnitude as int, w as int, wsum as int, count as int);
        assert(magnitude * w <= 0x1_0000_0000_0000_0000 * 0x8000_0000_0000_0000) by (nonlinear_arith)
            requires
                magnitude <= 0x1_0000_0000_0000_0000,
                w <= 0x8000_0000_0000_0000,
        ;
    }
    let m: u128 = if wsum > 0 {
        magnitude * w / wsum
    } else {
        magnitude / count
    };
    if total >= 0 {
        m as i128
    } else {
        -(m as i128)
    }
}

/// Spreads `total` over the span's items of one pricing kind.
fn price_kind(
    items: &mut Vec<ItemSummary>,
    lo: usize,
    kind: PricingKind,
    total: i128,
    count: u128,
    wsum: u128,
)
    requires
        lo <= old(items)@.len(),
        -0x1_0000_0000_0000_0000 <= total <= 0x1_0000_0000_0000_0000,
        count as int == kind_count(
            items_view(old(items)@),
            lo as int,
            old(items)@.len() as int,
            kind,
        ),
        wsum as int == kind_weight(items_view(old(items)@), lo as int, old(items)@.len() as int, kind),
    ensures
        final(items)@.len() == old(items)@.len(),
        items_view(final(items)@) == spec_price_kind(
            items_view(old(items)@),
            lo as int,
            kind,
            total as int,
        ),
{
    let ghost all = items_view(items@);
    let ghost target = spec_price_kind(all, lo as int, kind, total as int);
    let ghost n = all.len() as int;
    let mut rank: u128 = 0;
    let mut acc: i128 = 0;
    let mut i: usize = lo;
    proof {
        lemma_kind_count_bounds(all, lo as int, n, kind);
    }
    while i < items.len()
        invariant
            lo <= i <= items@.len(),
            items@.len() == n,
            all.len() == n,
            -0x1_0000_0000_0000_0000 <= total <= 0x1_0000_0000_0000_0000,
            count as int == kind_count(all, lo as int, n, kind),
            wsum as int == kind_weight(all, lo as int, n, kind),
            rank as int == kind_count(all, lo as int, i as int, kind),
            count >= 1 ==> acc as int == share_sum(
                all,
                lo as int,
                i as int,
                kind,
                total as int,
                wsum as int,
                count as int,
            ),
            target == spec_price_kind(all, lo as int, kind, total as int),
            forall|j: int| 0 <= j < i ==> #[trigger] items_view(items@)[j] == target[j],
            forall|j: int| i <= j < n ==> #[trigger] items_view(items@)[j] == all[j],
        decreases n - i,
    {
        proof {
            lemma_kind_weight_monotone(all, lo as int, i as int, n, kind);
            lemma_kind_weight_monotone(all, lo as int, i + 1, n, kind);
            lemma_kind_count_bounds(all, lo as int, i as int, kind);
            assert(items_view(items@)[i as int] == all[i as int]);
        }
        if items[i].pricing == kind {
            let tokens = items[i].cost.tokens();
            let w: u128 = if tokens > 0 {
                tokens as u128
            } else {
                0
            };
            proof {
                assert(w as int == weight(all[i as int]));
                assert(kind_count(all, lo as int, i + 1, kind) == rank + 1);
                assert(kind_weight(all, lo as int, i + 1, kind) == kind_weight(
                    all,
                    lo as int,
                    i as int,
                    kind,
                ) + w);
                lemma_kind_weight_bounds(all, lo as int, i as int, kind);
                lemma_share_sum_magnitude(
                    all,
                    lo as int,
                    i as int,
                    kind,
                    total as int,
                    wsum as int,
                    count as int,
                );
            }
            let s = share_of(total, w, wsum, count);
            let cost = if count == 1 {
                TokenCost::Exact(clamp_to_i64(total))
            } else if rank < count - 1 {
                TokenCost::Estimated(clamp_to_i64(s))
            } else {
                TokenCost::Estimated(clamp_to_i64(total - acc))
            };
            proof {
                assert(cost == price_at(all, lo as int, i as int, kind, total as int));
            }
            acc = acc + s;
            rank = rank + 1;
            let ghost old_items = items@;
            items[i].cost = cost;
            proof {
                assert(items@[i as int]@ == old_items[i as int]@.priced(cost));
                assert forall|j: int| 0 <= j < n && j != i implies #[trigger] items_view(items@)[j]
                    == items_view(old_items)[j] by {
                    assert(items@[j] == old_items[j]);
                }
                assert(items_view(items@)[i as int] == target[i as int]);
            }
        } else {
            proof {
                assert(items_view(items@)[i as int] == target[i as int]);
            }
        }
        i = i + 1;
    }
    proof {
        assert(items_view(items@) =~= target);
    }
}

/// Prices the span of items after index `lo` against one anchor.
pub fn price_span(
    items: &mut Vec<ItemSummary>,
    lo: usize,
    usage: &UsageSnapshot,
    previous_total: Option<i64>,
)
    requires
        lo <= old(items)@.len(),
    ensures
        items_view(final(items)@) == spec_price_span(
            items_view(old(items)@),
            lo as int,
            *usage,
            previous_total,
        ),
{
    let ghost all = items_view(items@);
    let mut i: usize = lo;
    while i < items.len()
        invariant
            lo <= i <= items@.len(),
            items@ == old(items)@,
            all == items_view(items@),
            forall|j: int| lo <= j < i ==> #[trigger] all[j].pricing != PricingKind::Ambiguous,
        decreases items@.len() - i,
    {
        if items[i].pricing == PricingKind::Ambiguous {
            proof {
                assert(all[i as int].pricing == PricingKind::Ambiguous);
                assert(span_is_ambiguous(all, lo as int));
            }
            return;
        }
        i = i + 1;
    }
    proof {
        assert(!span_is_ambiguous(all, lo as int));
    }
    let (out_count, out_weight) = kind_totals(items, lo, PricingKind::Output);
    price_kind(items, lo, PricingKind::Output, usage.output_tokens as i128, out_count, out_weight);
    if let Some(previous) = previous_total {
        let (in_count, in_weight) = kind_totals(items, lo, PricingKind::Input);
        let delta = usage.input_tokens as i128 - previous as i128;
        price_kind(items, lo, PricingKind::Input, delta, in_count, in_weight);
    }
}


/// An anchor prices only its own span. Unless the span holds an ambiguous item, which leaves every
/// item as it was, the span's output items sum to the response's `output_tokens`, and its input
/// items sum to the delta from the previous anchor of the same turn; without such an anchor the
/// input items keep their estimates. Items before the span are never repriced, and no item changes
/// anything but its cost.
pub proof fn lemma_anchor_prices_its_span(
    items: Seq<ItemModel>,
    lo: int,
    usage: UsageSnapshot,
    previous_total: Option<i64>,
)
    requires
        0 <= lo <= items.len(),
    ensures
        ({
            let priced = spec_price_span(items, lo, usage, previous_total);
            let n = items.len() as int;
            &&& priced.len() == items.len()
            &&& forall|i: int| 0 <= i < n ==> (#[trigger] priced[i]) == items[i].priced(priced[i].cost)
            &&& forall|i: int| 0 <= i < lo ==> #[trigger] priced[i] == items[i]
            &&& span_is_ambiguous(items, lo) ==> priced == items
            &&& !span_is_ambiguous(items, lo) && kind_count(items, lo, n, PricingKind::Output) >= 1
                ==> kind_tokens(priced, lo, n, PricingKind::Output) == usage.output_tokens
            &&& (previous_total matches Some(previous) && !span_is_ambiguous(items, lo)
                && kind_count(items, lo, n, PricingKind::Input) >= 1 && i64::MIN
                <= usage.input_tokens - previous <= i64::MAX) ==> kind_tokens(
                priced,
                lo,
                n,
                PricingKind::Input,
            ) == usage.input_tokens - previous_total->0
            &&& previous_total is None ==> forall|i: int|
                0 <= i < n && items[i].pricing == PricingKind::Input ==> #[trigger] priced[i]
                    == items[i]
        }),
{
    let n = items.len() as int;
    if !span_is_ambiguous(items, lo) {
        let out = usage.output_tokens as int;
        let priced = spec_price_kind(items, lo, PricingKind::Output, out);
        lemma_price_kind_shape(items, lo, PricingKind::Output, out);
        if kind_count(items, lo, n, PricingKind::Output) >= 1 {
            lemma_price_kind_sums_to_total(items, lo, PricingKind::Output, out);
        }
        lemma_kind_count_same(items, priced, lo, n, PricingKind::Input);
        match previous_total {
            Some(previous) => {
                let delta = usage.input_tokens - previous;
                lemma_price_kind_shape(priced, lo, PricingKind::Input, delta);
                lemma_price_kind_keeps_other_kinds(
                    priced,
                    lo,
                    lo,
                    n,
                    PricingKind::Input,
                    PricingKind::Output,
                    delta,
                );
                lemma_kind_count_same(items, priced, lo, n, PricingKind::Output);
                if kind_count(items, lo, n, PricingKind::Input) >= 1 && i64::MIN <= delta
                    <= i64::MAX {
                    lemma_price_kind_sums_to_total(priced, lo, PricingKind::Input, delta);
                    lemma_price_kind_keeps_other_kinds(
                        items,
                        lo,
                        lo,
                        n,
                        PricingKind::Output,
                        PricingKind::Input,
                        out,
                    );
                }
            },
            None => {},
        }
    }
}

} // verus!
