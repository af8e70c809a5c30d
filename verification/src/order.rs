//! Ranking the rows of a card: larger token counts first, ties broken by a secondary key and then
//! by position, so the order is total and a sort of distinct keys has exactly one outcome.
use vstd::prelude::*;
use vstd::relations::sorted_by;
use vstd::relations::total_ordering;

verus! {

/// Tokens (descending), a secondary key (ascending), and a position (ascending).
pub type RankKey = (i64, u128, u64);

/// Whether `a` ranks no later than `b`.
pub open spec fn ranks_before(a: RankKey, b: RankKey) -> bool {
    ||| a.0 > b.0
    ||| (a.0 == b.0 && a.1 < b.1)
    ||| (a.0 == b.0 && a.1 == b.1 && a.2 <= b.2)
}

/// The ranking order as a relation.
pub open spec fn rank_order() -> spec_fn(RankKey, RankKey) -> bool {
    |a: RankKey, b: RankKey| ranks_before(a, b)
}

/// Ranking is a total order.
pub proof fn lemma_rank_order_is_total()
    ensures
        total_ordering(rank_order()),
{
    let r = rank_order();
    assert forall|a: RankKey, b: RankKey| #[trigger] r(a, b) && #[trigger] r(b, a) implies a == b by {
        assert(a.0 == b.0 && a.1 == b.1 && a.2 == b.2);
    }
}

/// Whether `key` ranks before every key of `s` from index `p` on, and after every key before it.
spec fn fits_at(s: Seq<RankKey>, key: RankKey, p: int) -> bool {
    &&& forall|q: int| 0 <= q < p ==> ranks_before(#[trigger] s[q], key)
    &&& forall|q: int| p <= q < s.len() ==> ranks_before(key, #[trigger] s[q])
}

/// Inserting a key where it fits keeps a ranked sequence ranked.
proof fn lemma_insert_keeps_ranked(s: Seq<RankKey>, key: RankKey, p: int)
    requires
        0 <= p <= s.len(),
        sorted_by(s, rank_order()),
        fits_at(s, key, p),
    ensures
        sorted_by(s.insert(p, key), rank_order()),
{
    let t = s.insert(p, key);
    assert forall|i: int, j: int| 0 <= i < j < t.len() implies #[trigger] rank_order()(
        t[i],
        t[j],
    ) by {
        if i < p && j < p {
            assert(rank_order()(s[i], s[j]));
        } else if i < p && j == p {
        } else if i < p {
            assert(rank_order()(s[i], s[j - 1]));
        } else if i == p {
        } else {
            assert(rank_order()(s[i - 1], s[j - 1]));
        }
    }
}

/// The keys in rank order.
pub fn rank(keys: Vec<RankKey>) -> (r: Vec<RankKey>)
    ensures
        r@ == keys@.sort_by(rank_order()),
{
    proof {
        lemma_rank_order_is_total();
    }
    let mut out: Vec<RankKey> = Vec::new();
    let mut i: usize = 0;
    proof {
        assert(out@ =~= keys@.take(0));
    }
    while i < keys.len()
        invariant
            i <= keys@.len(),
            sorted_by(out@, rank_order()),
            out@.to_multiset() == keys@.take(i as int).to_multiset(),
            total_ordering(rank_order()),
        decreases keys@.len() - i,
    {
        let key = keys[i];
        let mut p: usize = 0;
        while p < out.len() && !before(key, out[p])
            invariant
                p <= out@.len(),
                sorted_by(out@, rank_order()),
                total_ordering(rank_order()),
                forall|q: int| 0 <= q < p ==> ranks_before(#[trigger] out@[q], key),
            decreases out@.len() - p,
        {
            proof {
                assert(rank_order()(out@[p as int], key) || rank_order()(key, out@[p as int]));
            }
            p = p + 1;
        }
        proof {
            assert forall|q: int| p <= q < out@.len() implies ranks_before(key, #[trigger] out@[q]) by {
                assert(ranks_before(key, out@[p as int]));
                if q > p {
                    assert(rank_order()(out@[p as int], out@[q]));
                    assert(rank_order()(key, out@[p as int]));
                }
            }
            lemma_insert_keeps_ranked(out@, key, p as int);
            vstd::seq_lib::to_multiset_insert(out@, p as int, key);
            assert(keys@.take(i + 1) =~= keys@.take(i as int).push(key));
            vstd::seq_lib::to_multiset_build(keys@.take(i as int), key);
        }
        out.insert(p, key);
        i = i + 1;
    }
    proof {
        assert(keys@.take(keys@.len() as int) =~= keys@);
        keys@.lemma_sort_by_ensures(rank_order());
        vstd::seq_lib::lemma_sorted_unique(out@, keys@.sort_by(rank_order()), rank_order());
    }
    out
}

/// Whether `a` ranks no later than `b`.
fn before(a: RankKey, b: RankKey) -> (r: bool)
    ensures
        r == ranks_before(a, b),
{
    a.0 > b.0 || (a.0 == b.0 && a.1 < b.1) || (a.0 == b.0 && a.1 == b.1 && a.2 <= b.2)
}

} // verus!
