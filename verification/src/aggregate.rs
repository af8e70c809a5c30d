//! Groups and category totals: derived views of the observed items, rebuilt whole.
use vstd::prelude::*;

use crate::item::clamp_to_i64;
use crate::item::Category;
use crate::item::GroupKey;
use crate::item::GroupKeyModel;
use crate::item::GroupModel;
use crate::item::ItemGroup;
use crate::item::ItemModel;
use crate::item::ItemSummary;
use crate::item::TokenCost;
use crate::snapshot::category_rows_total;

verus! {

/// The values of a list of item summaries.
pub open spec fn items_view(items: Seq<ItemSummary>) -> Seq<ItemModel> {
    items.map_values(|item: ItemSummary| item@)
}

/// The values of a list of groups.
pub open spec fn groups_view(groups: Seq<ItemGroup>) -> Seq<GroupModel> {
    groups.map_values(|group: ItemGroup| group@)
}

/// Distinct group keys in order of first appearance.
pub open spec fn group_keys(items: Seq<ItemModel>) -> Seq<GroupKeyModel>
    decreases items.len(),
{
    if items.len() == 0 {
        Seq::empty()
    } else {
        let keys = group_keys(items.drop_last());
        if keys.contains(items.last().group) {
            keys
        } else {
            keys.push(items.last().group)
        }
    }
}

/// The seqs of the items in one group, in observation order.
pub open spec fn members_of(items: Seq<ItemModel>, key: GroupKeyModel) -> Seq<u64>
    decreases items.len(),
{
    if items.len() == 0 {
        Seq::empty()
    } else if items.last().group == key {
        members_of(items.drop_last(), key).push(items.last().seq)
    } else {
        members_of(items.drop_last(), key)
    }
}

/// The summed tokens of the items in one group.
pub open spec fn key_tokens(items: Seq<ItemModel>, key: GroupKeyModel) -> int
    decreases items.len(),
{
    if items.len() == 0 {
        0
    } else if items.last().group == key {
        key_tokens(items.drop_last(), key) + items.last().cost.spec_tokens()
    } else {
        key_tokens(items.drop_last(), key)
    }
}

/// Whether every item in one group is exactly priced.
pub open spec fn key_exact(items: Seq<ItemModel>, key: GroupKeyModel) -> bool
    decreases items.len(),
{
    if items.len() == 0 {
        true
    } else if items.last().group == key {
        key_exact(items.drop_last(), key) && items.last().cost.is_exact()
    } else {
        key_exact(items.drop_last(), key)
    }
}

/// The index of the first item in one group, or -1.
pub open spec fn first_index(items: Seq<ItemModel>, key: GroupKeyModel) -> int
    decreases items.len(),
{
    if items.len() == 0 {
        -1
    } else {
        let first = first_index(items.drop_last(), key);
        if first >= 0 {
            first
        } else if items.last().group == key {
            items.len() - 1
        } else {
            -1
        }
    }
}

/// One group: its first member names and categorizes it, and its cost sums every member.
pub open spec fn group_of(items: Seq<ItemModel>, key: GroupKeyModel) -> GroupModel {
    let first = items[first_index(items, key)];
    GroupModel {
        key,
        category: first.category,
        cost: TokenCost::with(key_exact(items, key), key_tokens(items, key)),
        label: first.label,
        members: members_of(items, key),
    }
}

/// Every group, ordered by its first member.
pub open spec fn spec_groups(items: Seq<ItemModel>) -> Seq<GroupModel> {
    let keys = group_keys(items);
    Seq::new(keys.len(), |g: int| group_of(items, keys[g]))
}

proof fn lemma_group_keys_facts(items: Seq<ItemModel>)
    ensures
        group_keys(items).no_duplicates(),
        forall|key: GroupKeyModel| #[trigger]
            group_keys(items).contains(key) <==> first_index(items, key) >= 0,
        forall|key: GroupKeyModel| #[trigger]
            first_index(items, key) >= 0 ==> first_index(items, key) < items.len()
                && items[first_index(items, key)].group == key,
    decreases items.len(),
{
    if items.len() > 0 {
        let prev = items.drop_last();
        lemma_group_keys_facts(prev);
        let keys = group_keys(prev);
        let last = items.last();
        if !keys.contains(last.group) {
            let k2 = keys.push(last.group);
            assert forall|i: int, j: int| 0 <= i < k2.len() && 0 <= j < k2.len() && i != j implies k2[i]
                != k2[j] by {
                if i == keys.len() {
                    assert(keys.contains(k2[j]));
                } else if j == keys.len() {
                    assert(keys.contains(k2[i]));
                }
            }
        }
        assert forall|key: GroupKeyModel| #[trigger]
            group_keys(items).contains(key) <==> first_index(items, key) >= 0 by {
            let all_keys = group_keys(items);
            if keys.contains(key) {
                assert(first_index(prev, key) >= 0);
                let idx = keys.index_of(key);
                assert(all_keys[idx] == key);
            } else if key == last.group {
                assert(all_keys[keys.len() as int] == key);
            } else {
                assert(first_index(prev, key) < 0);
                if all_keys.contains(key) {
                    let idx = all_keys.index_of(key);
                    if idx < keys.len() {
                        assert(keys[idx] == key);
                    }
                }
            }
        }
        assert forall|key: GroupKeyModel| #[trigger]
            first_index(items, key) >= 0 implies first_index(items, key) < items.len()
            && items[first_index(items, key)].group == key by {
            if first_index(prev, key) >= 0 {
                assert(items[first_index(prev, key)] == prev[first_index(prev, key)]);
            }
        }
    }
}

/// What the group loop keeps after `n` items.
pub open spec fn groups_match(
    items: Seq<ItemModel>,
    keys: Seq<GroupKey>,
    members: Seq<Vec<u64>>,
    totals: Seq<i128>,
    exact: Seq<bool>,
    categories: Seq<Category>,
    labels: Seq<String>,
) -> bool {
    let spec_keys = group_keys(items);
    &&& keys.len() == spec_keys.len()
    &&& members.len() == spec_keys.len()
    &&& totals.len() == spec_keys.len()
    &&& exact.len() == spec_keys.len()
    &&& categories.len() == spec_keys.len()
    &&& labels.len() == spec_keys.len()
    &&& forall|g: int|
        0 <= g < spec_keys.len() ==> #[trigger] slot_matches(
            items,
            spec_keys[g],
            keys[g],
            members[g],
            totals[g],
            exact[g],
            categories[g],
            labels[g],
        )
}

/// What the group loop keeps for one group.
pub open spec fn slot_matches(
    items: Seq<ItemModel>,
    spec_key: GroupKeyModel,
    key: GroupKey,
    members: Vec<u64>,
    total: i128,
    exact: bool,
    category: Category,
    label: String,
) -> bool {
    &&& key@ == spec_key
    &&& members@ == members_of(items, spec_key)
    &&& total as int == key_tokens(items, spec_key)
    &&& exact == key_exact(items, spec_key)
    &&& category == items[first_index(items, spec_key)].category
    &&& label@ == items[first_index(items, spec_key)].label
}

proof fn lemma_key_tokens_bound(items: Seq<ItemModel>, key: GroupKeyModel)
    ensures
        -(items.len() as int) * 0x8000_0000_0000_0000 <= key_tokens(items, key) <= (
        items.len() as int) * 0x8000_0000_0000_0000,
    decreases items.len(),
{
    if items.len() > 0 {
        lemma_key_tokens_bound(items.drop_last(), key);
    }
}

/// Position of `key` among `keys`, if present.
fn find_key(keys: &Vec<GroupKey>, key: &GroupKey) -> (r: Option<usize>)
    ensures
        match r {
            Some(j) => j < keys@.len() && keys@[j as int]@ == key@,
            None => forall|j: int| 0 <= j < keys@.len() ==> keys@[j]@ != key@,
        },
{
    let mut j: usize = 0;
    while j < keys.len()
        invariant
            j <= keys@.len(),
            forall|k: int| 0 <= k < j ==> keys@[k]@ != key@,
        decreases keys@.len() - j,
    {
        if keys[j].same_as(key) {
            return Some(j);
        }
        j = j + 1;
    }
    None
}

/// Groups are derived views of the items, so they are rebuilt whole, in first-member order.
pub fn build_groups(items: &Vec<ItemSummary>) -> (r: Vec<ItemGroup>)
    ensures
        groups_view(r@) == spec_groups(items_view(items@)),
{
    let ghost all = items_view(items@);
    let mut keys: Vec<GroupKey> = Vec::new();
    let mut members: Vec<Vec<u64>> = Vec::new();
    let mut totals: Vec<i128> = Vec::new();
    let mut exact: Vec<bool> = Vec::new();
    let mut categories: Vec<Category> = Vec::new();
    let mut labels: Vec<String> = Vec::new();
    let mut i: usize = 0;
    proof {
        assert(all.take(0) =~= Seq::<ItemModel>::empty());
    }
    while i < items.len()
        invariant
            i <= items@.len(),
            all == items_view(items@),
            groups_match(
                all.take(i as int),
                keys@,
                members@,
                totals@,
                exact@,
                categories@,
                labels@,
            ),
        decreases items@.len() - i,
    {
        let item = &items[i];
        let ghost pre = all.take(i as int);
        let ghost post = all.take(i + 1);
        proof {
            assert(post.drop_last() =~= pre);
            assert(post.last() == item@);
            lemma_group_keys_facts(pre);
            lemma_key_tokens_bound(pre, item.group@);
        }
        match find_key(&keys, &item.group) {
            Some(j) => {
                proof {
                    assert(slot_matches(
                        pre,
                        group_keys(pre)[j as int],
                        keys@[j as int],
                        members@[j as int],
                        totals@[j as int],
                        exact@[j as int],
                        categories@[j as int],
                        labels@[j as int],
                    ));
                    assert(group_keys(pre).contains(item.group@)) by {
                        assert(group_keys(pre)[j as int] == item.group@);
                    }
                    assert(group_keys(post) == group_keys(pre));
                }
                let ghost m0 = members@;
                let ghost t0 = totals@;
                let ghost e0 = exact@;
                let mut list = members[j].clone();
                proof {
                    assert(list@ =~= m0[j as int]@);
                }
                list.push(item.seq);
                let ghost list_view = list@;
                members.set(j, list);
                let total = totals[j] + item.cost.tokens() as i128;
                totals.set(j, total);
                let is_exact = exact[j] && matches!(item.cost, TokenCost::Exact(_));
                exact.set(j, is_exact);
                proof {
                    let ks = group_keys(pre);
                    assert(members@ == m0.update(j as int, list));
                    assert(ks[j as int] == item.group@);
                    assert(list_view == members_of(post, ks[j as int]));
                    assert(total as int == key_tokens(post, ks[j as int]));
                    assert(is_exact == key_exact(post, ks[j as int]));
                    assert forall|g: int| 0 <= g < ks.len() && g != j implies {
                        &&& members@[g]@ == members_of(post, ks[g])
                        &&& totals@[g] as int == key_tokens(post, ks[g])
                        &&& exact@[g] == key_exact(post, ks[g])
                    } by {
                        assert(slot_matches(
                            pre,
                            ks[g],
                            keys@[g],
                            m0[g],
                            t0[g],
                            e0[g],
                            categories@[g],
                            labels@[g],
                        ));
                        assert(ks[g] != ks[j as int]);
                        assert(keys@[g]@ == ks[g]);
                        assert(members@[g] == m0[g]);
                        assert(post.last().group != ks[g]);
                        assert(members_of(post, ks[g]) == members_of(pre, ks[g]));
                        assert(key_tokens(post, ks[g]) == key_tokens(pre, ks[g]));
                        assert(key_exact(post, ks[g]) == key_exact(pre, ks[g]));
                    }
                    let ks2 = group_keys(post);
                    assert forall|g: int| 0 <= g < ks2.len() implies #[trigger] slot_matches(
                        post,
                        ks2[g],
                        keys@[g],
                        members@[g],
                        totals@[g],
                        exact@[g],
                        categories@[g],
                        labels@[g],
                    ) by {
                        assert(slot_matches(
                            pre,
                            ks[g],
                            keys@[g],
                            m0[g],
                            t0[g],
                            e0[g],
                            categories@[g],
                            labels@[g],
                        ));
                        assert(keys@[g]@ == ks[g]);
                        assert(ks.contains(ks[g]));
                        assert(0 <= first_index(pre, ks[g]) < pre.len());
                        assert(post[first_index(post, ks[g])] == pre[first_index(pre, ks[g])]);
                    }
                    assert forall|g: int| 0 <= g < ks.len() implies first_index(post, ks[g])
                        == first_index(pre, ks[g]) by {
                        assert(ks.contains(ks[g]));
                        assert(first_index(pre, ks[g]) >= 0);
                    }
                    assert forall|g: int| 0 <= g < ks.len() && g != j implies ks[g]
                        != item.group@ by {
                        assert(ks[g] != ks[j as int]);
                    }
                    assert forall|g: int| 0 <= g < ks.len() implies (#[trigger] all.take(
                        i + 1,
                    )[first_index(post, ks[g])]) == pre[first_index(pre, ks[g])] by {
                        assert(ks.contains(ks[g]));
                        assert(0 <= first_index(pre, ks[g]) < pre.len());
                    }
                    assert(groups_match(
                        post,
                        keys@,
                        members@,
                        totals@,
                        exact@,
                        categories@,
                        labels@,
                    ));
                }
            },
            None => {
                proof {
                    assert(!group_keys(pre).contains(item.group@)) by {
                        if group_keys(pre).contains(item.group@) {
                            let g = group_keys(pre).index_of(item.group@);
                            assert(slot_matches(
                                pre,
                                group_keys(pre)[g],
                                keys@[g],
                                members@[g],
                                totals@[g],
                                exact@[g],
                                categories@[g],
                                labels@[g],
                            ));
                            assert(keys@[g]@ == item.group@);
                        }
                    }
                    assert(first_index(pre, item.group@) < 0);
                    assert(members_of(pre, item.group@) =~= Seq::<u64>::empty()) by {
                        lemma_members_empty(pre, item.group@);
                    }
                    lemma_key_absent(pre, item.group@);
                }
                let ghost k0 = keys@;
                let ghost m0 = members@;
                let ghost t0 = totals@;
                let ghost e0 = exact@;
                let ghost c0 = categories@;
                let ghost l0 = labels@;
                keys.push(item.group.duplicate());
                let mut list: Vec<u64> = Vec::new();
                list.push(item.seq);
                members.push(list);
                totals.push(item.cost.tokens() as i128);
                exact.push(matches!(item.cost, TokenCost::Exact(_)));
                categories.push(item.category);
                labels.push(item.label.clone());
                proof {
                    let ks = group_keys(pre);
                    assert(group_keys(post) == ks.push(item.group@));
                    assert(list@ =~= seq![item.seq]);
                    assert forall|g: int| 0 <= g < ks.len() implies first_index(post, ks[g])
                        == first_index(pre, ks[g]) by {
                        assert(ks.contains(ks[g]));
                        assert(first_index(pre, ks[g]) >= 0);
                    }
                    assert forall|g: int| 0 <= g < ks.len() implies ks[g] != item.group@ by {
                        assert(ks.contains(ks[g]));
                    }
                    assert forall|g: int| 0 <= g < ks.len() implies (#[trigger] all.take(
                        i + 1,
                    )[first_index(post, ks[g])]) == pre[first_index(pre, ks[g])] by {
                        assert(ks.contains(ks[g]));
                        assert(0 <= first_index(pre, ks[g]) < pre.len());
                    }
                    assert(first_index(post, item.group@) == i);
                    let ks2 = group_keys(post);
                    assert forall|g: int| 0 <= g < ks2.len() implies #[trigger] slot_matches(
                        post,
                        ks2[g],
                        keys@[g],
                        members@[g],
                        totals@[g],
                        exact@[g],
                        categories@[g],
                        labels@[g],
                    ) by {
                        if g < ks.len() {
                            assert(slot_matches(pre, ks[g], k0[g], m0[g], t0[g], e0[g], c0[g], l0[g]));
                            assert(ks.contains(ks[g]));
                            assert(ks[g] != item.group@);
                            assert(0 <= first_index(pre, ks[g]) < pre.len());
                            assert(post[first_index(post, ks[g])] == pre[first_index(pre, ks[g])]);
                        } else {
                            assert(ks2[g] == item.group@);
                            assert(post[i as int] == item@);
                        }
                    }
                    assert(groups_match(
                        post,
                        keys@,
                        members@,
                        totals@,
                        exact@,
                        categories@,
                        labels@,
                    ));
                }
            },
        }
        i = i + 1;
    }
    proof {
        assert(all.take(items@.len() as int) =~= all);
    }
    let mut groups: Vec<ItemGroup> = Vec::new();
    let mut g: usize = 0;
    while g < keys.len()
        invariant
            g <= keys@.len(),
            groups_match(all, keys@, members@, totals@, exact@, categories@, labels@),
            groups_view(groups@) =~= spec_groups(all).take(g as int),
        decreases keys@.len() - g,
    {
        let tokens = clamp_to_i64(totals[g]);
        let cost = if exact[g] {
            TokenCost::Exact(tokens)
        } else {
            TokenCost::Estimated(tokens)
        };
        let group = ItemGroup {
            key: keys[g].duplicate(),
            category: categories[g],
            cost,
            label: labels[g].clone(),
            members: members[g].clone(),
        };
        proof {
            let key = group_keys(all)[g as int];
            assert(slot_matches(
                all,
                key,
                keys@[g as int],
                members@[g as int],
                totals@[g as int],
                exact@[g as int],
                categories@[g as int],
                labels@[g as int],
            ));
            assert(members@[g as int]@ == members_of(all, key));
            assert(group@ == group_of(all, key));
        }
        let ghost prev = groups@;
        groups.push(group);
        proof {
            assert(groups@ =~= prev.push(group));
            assert(groups_view(groups@) =~= groups_view(prev).push(group@));
        }
        g = g + 1;
    }
    groups
}

proof fn lemma_members_empty(items: Seq<ItemModel>, key: GroupKeyModel)
    requires
        first_index(items, key) < 0,
    ensures
        members_of(items, key) =~= Seq::<u64>::empty(),
    decreases items.len(),
{
    if items.len() > 0 {
        lemma_members_empty(items.drop_last(), key);
    }
}

proof fn lemma_key_absent(items: Seq<ItemModel>, key: GroupKeyModel)
    requires
        first_index(items, key) < 0,
    ensures
        key_tokens(items, key) == 0,
        key_exact(items, key),
    decreases items.len(),
{
    if items.len() > 0 {
        lemma_key_absent(items.drop_last(), key);
    }
}

/// How many items carry one category.
pub open spec fn cat_count(items: Seq<ItemModel>, category: Category) -> nat
    decreases items.len(),
{
    if items.len() == 0 {
        0
    } else if items.last().category == category {
        cat_count(items.drop_last(), category) + 1
    } else {
        cat_count(items.drop_last(), category)
    }
}

/// The summed tokens of the items in one category.
pub open spec fn cat_tokens(items: Seq<ItemModel>, category: Category) -> int
    decreases items.len(),
{
    if items.len() == 0 {
        0
    } else if items.last().category == category {
        cat_tokens(items.drop_last(), category) + items.last().cost.spec_tokens()
    } else {
        cat_tokens(items.drop_last(), category)
    }
}

/// Whether every item in one category is exactly priced.
pub open spec fn cat_exact(items: Seq<ItemModel>, category: Category) -> bool
    decreases items.len(),
{
    if items.len() == 0 {
        true
    } else if items.last().category == category {
        cat_exact(items.drop_last(), category) && items.last().cost.is_exact()
    } else {
        cat_exact(items.drop_last(), category)
    }
}

/// The total of one category as a row.
pub open spec fn cat_row(items: Seq<ItemModel>, category: Category) -> (Category, TokenCost) {
    (category, TokenCost::with(cat_exact(items, category), cat_tokens(items, category)))
}

/// Category totals for the first `n` categories in declaration order, skipping absent ones.
pub open spec fn by_cat_upto(items: Seq<ItemModel>, n: int) -> Seq<(Category, TokenCost)>
    decreases n,
{
    if n <= 0 {
        Seq::empty()
    } else {
        let prev = by_cat_upto(items, n - 1);
        let category = Category::spec_from_ordinal(n - 1);
        if cat_count(items, category) > 0 {
            prev.push(cat_row(items, category))
        } else {
            prev
        }
    }
}

/// One total per category present, in declaration order.
pub open spec fn spec_by_category(items: Seq<ItemModel>) -> Seq<(Category, TokenCost)> {
    by_cat_upto(items, 8)
}

proof fn lemma_cat_tokens_bound(items: Seq<ItemModel>, category: Category)
    ensures
        -(items.len() as int) * 0x8000_0000_0000_0000 <= cat_tokens(items, category) <= (
        items.len() as int) * 0x8000_0000_0000_0000,
    decreases items.len(),
{
    if items.len() > 0 {
        lemma_cat_tokens_bound(items.drop_last(), category);
    }
}

/// What the category loop keeps after some items.
pub open spec fn cats_match(
    items: Seq<ItemModel>,
    totals: Seq<i128>,
    exact: Seq<bool>,
    present: Seq<bool>,
) -> bool {
    &&& totals.len() == 8
    &&& exact.len() == 8
    &&& present.len() == 8
    &&& forall|o: int|
        0 <= o < 8 ==> #[trigger] cat_slot(items, Category::spec_from_ordinal(o), totals[o], exact[o], present[o])
}

pub open spec fn cat_slot(
    items: Seq<ItemModel>,
    category: Category,
    total: i128,
    exact: bool,
    present: bool,
) -> bool {
    &&& total as int == cat_tokens(items, category)
    &&& exact == cat_exact(items, category)
    &&& present == (cat_count(items, category) > 0)
}

/// Category totals are derived views of the items, so they are rebuilt whole, in declaration
/// order.
pub fn build_by_category(items: &Vec<ItemSummary>) -> (r: Vec<(Category, TokenCost)>)
    ensures
        r@ == spec_by_category(items_view(items@)),
{
    let ghost all = items_view(items@);
    let mut totals: Vec<i128> = Vec::new();
    let mut exact: Vec<bool> = Vec::new();
    let mut present: Vec<bool> = Vec::new();
    let mut o: usize = 0;
    while o < 8
        invariant
            o <= 8,
            totals@.len() == o,
            exact@.len() == o,
            present@.len() == o,
            forall|k: int| 0 <= k < o ==> totals@[k] == 0 && exact@[k] && !present@[k],
        decreases 8 - o,
    {
        totals.push(0);
        exact.push(true);
        present.push(false);
        o = o + 1;
    }
    proof {
        assert(all.take(0) =~= Seq::<ItemModel>::empty());
        assert forall|k: int| 0 <= k < 8 implies #[trigger] cat_slot(
            all.take(0),
            Category::spec_from_ordinal(k),
            totals@[k],
            exact@[k],
            present@[k],
        ) by {}
    }
    let mut i: usize = 0;
    while i < items.len()
        invariant
            i <= items@.len(),
            all == items_view(items@),
            cats_match(all.take(i as int), totals@, exact@, present@),
        decreases items@.len() - i,
    {
        let item = &items[i];
        let ghost pre = all.take(i as int);
        let ghost post = all.take(i + 1);
        let ghost t0 = totals@;
        let ghost e0 = exact@;
        let ghost p0 = present@;
        let n = item.category.ordinal();
        proof {
            assert(post.drop_last() =~= pre);
            assert(post.last() == item@);
            lemma_cat_tokens_bound(pre, item.category);
            assert(cat_slot(pre, Category::spec_from_ordinal(n as int), t0[n as int], e0[n as int], p0[n as int]));
        }
        let total = totals[n] + item.cost.tokens() as i128;
        totals.set(n, total);
        let is_exact = exact[n] && matches!(item.cost, TokenCost::Exact(_));
        exact.set(n, is_exact);
        present.set(n, true);
        proof {
            assert forall|k: int| 0 <= k < 8 implies #[trigger] cat_slot(
                post,
                Category::spec_from_ordinal(k),
                totals@[k],
                exact@[k],
                present@[k],
            ) by {
                assert(cat_slot(pre, Category::spec_from_ordinal(k), t0[k], e0[k], p0[k]));
                if k != n {
                    assert(Category::spec_from_ordinal(k) != item.category);
                }
            }
        }
        i = i + 1;
    }
    proof {
        assert(all.take(items@.len() as int) =~= all);
    }
    let mut rows: Vec<(Category, TokenCost)> = Vec::new();
    let mut n: usize = 0;
    while n < 8
        invariant
            n <= 8,
            cats_match(all, totals@, exact@, present@),
            rows@ =~= by_cat_upto(all, n as int),
        decreases 8 - n,
    {
        let category = Category::from_ordinal(n);
        proof {
            assert(cat_slot(all, Category::spec_from_ordinal(n as int), totals@[n as int], exact@[n as int], present@[n as int]));
        }
        if present[n] {
            let tokens = clamp_to_i64(totals[n]);
            let cost = if exact[n] {
                TokenCost::Exact(tokens)
            } else {
                TokenCost::Estimated(tokens)
            };
            rows.push((category, cost));
        }
        n = n + 1;
    }
    rows
}


/// The summed tokens of the items at indices `[lo, hi)`.
pub open spec fn range_tokens(items: Seq<ItemModel>, lo: int, hi: int) -> int
    decreases hi - lo,
{
    if hi <= lo {
        0
    } else {
        range_tokens(items, lo, hi - 1) + items[hi - 1].cost.spec_tokens()
    }
}

/// The summed tokens of every item.
pub open spec fn items_total(items: Seq<ItemModel>) -> int {
    range_tokens(items, 0, items.len() as int)
}

/// The summed tokens of the first `k` categories, in declaration order.
pub open spec fn categories_total(items: Seq<ItemModel>, k: int) -> int
    decreases k,
{
    if k <= 0 {
        0
    } else {
        categories_total(items, k - 1) + cat_tokens(items, Category::spec_from_ordinal(k - 1))
    }
}

/// Whether every category's total fits an `i64`, so no category row saturates.
pub open spec fn category_totals_fit(items: Seq<ItemModel>) -> bool {
    forall|category: Category|
        i64::MIN <= #[trigger] cat_tokens(items, category) <= i64::MAX
}

/// An absent category holds no tokens.
proof fn lemma_absent_category_is_empty(items: Seq<ItemModel>, category: Category)
    requires
        cat_count(items, category) == 0,
    ensures
        cat_tokens(items, category) == 0,
    decreases items.len(),
{
    if items.len() > 0 {
        lemma_absent_category_is_empty(items.drop_last(), category);
    }
}

/// The rows of the first `k` categories sum to those categories' totals.
proof fn lemma_rows_total_upto(items: Seq<ItemModel>, k: int)
    requires
        0 <= k <= 8,
        category_totals_fit(items),
    ensures
        category_rows_total(by_cat_upto(items, k)) == categories_total(items, k),
    decreases k,
{
    if k > 0 {
        lemma_rows_total_upto(items, k - 1);
        let prev = by_cat_upto(items, k - 1);
        let category = Category::spec_from_ordinal(k - 1);
        assert(i64::MIN <= cat_tokens(items, category) <= i64::MAX);
        if cat_count(items, category) > 0 {
            let row = cat_row(items, category);
            assert(prev.push(row).drop_last() =~= prev);
        } else {
            lemma_absent_category_is_empty(items, category);
        }
    }
}

/// Each item counts in exactly one category.
proof fn lemma_categories_partition(items: Seq<ItemModel>, hi: int)
    requires
        0 <= hi <= items.len(),
    ensures
        categories_total(items.take(hi), 8) == range_tokens(items, 0, hi),
    decreases hi,
{
    if hi > 0 {
        lemma_categories_partition(items, hi - 1);
        let prefix = items.take(hi);
        assert(prefix.drop_last() =~= items.take(hi - 1));
        assert(prefix.last() == items[hi - 1]);
        reveal_with_fuel(categories_total, 9);
    } else {
        reveal_with_fuel(categories_total, 9);
    }
}

/// The category rows account for every item: they sum to the items' total, unless a category's
/// total is too large for an `i64` and its row saturates.
pub proof fn lemma_category_rows_sum_to_items_total(items: Seq<ItemModel>)
    requires
        category_totals_fit(items),
    ensures
        category_rows_total(spec_by_category(items)) == items_total(items),
{
    lemma_rows_total_upto(items, 8);
    lemma_categories_partition(items, items.len() as int);
    assert(items.take(items.len() as int) =~= items);
}


/// Declaration positions and categories correspond one to one.
proof fn lemma_ordinal_round_trip(category: Category, k: int)
    ensures
        Category::spec_from_ordinal(category.spec_ordinal()) == category,
        0 <= category.spec_ordinal() < 8,
        0 <= k < 8 ==> Category::spec_from_ordinal(k).spec_ordinal() == k,
{
}

/// What the rows for the first `n` categories hold: one row per present category among them, in
/// declaration order, each the category's own total.
proof fn lemma_rows_upto_are_present_categories(items: Seq<ItemModel>, n: int)
    requires
        0 <= n <= 8,
    ensures
        forall|r: int|
            0 <= r < by_cat_upto(items, n).len() ==> {
                let row = #[trigger] by_cat_upto(items, n)[r];
                &&& row.0.spec_ordinal() < n
                &&& cat_count(items, row.0) > 0
                &&& row == cat_row(items, row.0)
            },
        forall|a: int, b: int|
            0 <= a < b < by_cat_upto(items, n).len() ==> (#[trigger] by_cat_upto(items, n)[a]).0.spec_ordinal()
                < (#[trigger] by_cat_upto(items, n)[b]).0.spec_ordinal(),
        forall|category: Category|
            category.spec_ordinal() < n && #[trigger] cat_count(items, category) > 0 ==> exists|r: int|
                0 <= r < by_cat_upto(items, n).len() && (#[trigger] by_cat_upto(items, n)[r]).0
                    == category,
    decreases n,
{
    if n > 0 {
        lemma_rows_upto_are_present_categories(items, n - 1);
        let prev = by_cat_upto(items, n - 1);
        let rows = by_cat_upto(items, n);
        let category = Category::spec_from_ordinal(n - 1);
        lemma_ordinal_round_trip(category, n - 1);
        assert forall|r: int| 0 <= r < prev.len() implies rows[r] == prev[r] by {}
        assert forall|c: Category|
            c.spec_ordinal() < n && #[trigger] cat_count(items, c) > 0 implies exists|r: int|
                0 <= r < rows.len() && (#[trigger] rows[r]).0 == c by {
            lemma_ordinal_round_trip(c, n - 1);
            if c.spec_ordinal() < n - 1 {
                let r = choose|r: int| 0 <= r < prev.len() && (#[trigger] prev[r]).0 == c;
                assert(rows[r] == prev[r]);
            } else {
                assert(c == category);
                assert(rows[prev.len() as int].0 == c);
            }
        }
    }
}

/// The category totals hold one row for each category that some item carries and none for the
/// others, in declaration order, each row carrying that category's summed cost, exact only when
/// every item of the category is priced exactly.
pub proof fn lemma_category_rows_are_the_present_categories(items: Seq<ItemModel>)
    ensures
        forall|r: int|
            0 <= r < spec_by_category(items).len() ==> {
                let row = #[trigger] spec_by_category(items)[r];
                &&& cat_count(items, row.0) > 0
                &&& row == cat_row(items, row.0)
            },
        forall|a: int, b: int|
            0 <= a < b < spec_by_category(items).len() ==> (#[trigger] spec_by_category(items)[a]).0.spec_ordinal()
                < (#[trigger] spec_by_category(items)[b]).0.spec_ordinal(),
        forall|category: Category|
            #[trigger] cat_count(items, category) > 0 <==> exists|r: int|
                0 <= r < spec_by_category(items).len() && (#[trigger] spec_by_category(
                    items,
                )[r]).0 == category,
{
    lemma_rows_upto_are_present_categories(items, 8);
    let rows = spec_by_category(items);
    assert forall|category: Category|
        #[trigger] cat_count(items, category) > 0 <==> exists|r: int|
            0 <= r < rows.len() && (#[trigger] rows[r]).0 == category by {
        lemma_ordinal_round_trip(category, 0);
        if exists|r: int| 0 <= r < rows.len() && (#[trigger] rows[r]).0 == category {
            let r = choose|r: int| 0 <= r < rows.len() && (#[trigger] rows[r]).0 == category;
            assert(cat_count(items, rows[r].0) > 0);
        }
    }
}

/// An item's own group key is among the keys, and its seq among that group's members.
proof fn lemma_item_in_own_group(items: Seq<ItemModel>, i: int)
    requires
        0 <= i < items.len(),
    ensures
        first_index(items, items[i].group) >= 0,
        members_of(items, items[i].group).contains(items[i].seq),
    decreases items.len(),
{
    let prev = items.drop_last();
    if i < items.len() - 1 {
        lemma_item_in_own_group(prev, i);
        assert(prev[i] == items[i]);
        let key = items[i].group;
        let pm = members_of(prev, key);
        let k = pm.index_of(items[i].seq);
        if items.last().group == key {
            assert(members_of(items, key) == pm.push(items.last().seq));
            assert(members_of(items, key)[k] == items[i].seq);
        }
    } else {
        let key = items[i].group;
        assert(items.last() == items[i]);
        assert(members_of(items, key) == members_of(prev, key).push(items[i].seq));
        assert(members_of(items, key)[members_of(prev, key).len() as int] == items[i].seq);
    }
}

/// Every item belongs to exactly one group: the one keyed by its own group key, whose members
/// list it. No two groups share a key.
pub proof fn lemma_every_item_belongs_to_exactly_one_group(items: Seq<ItemModel>, i: int)
    requires
        0 <= i < items.len(),
    ensures
        forall|g: int, h: int|
            0 <= g < h < spec_groups(items).len() ==> (#[trigger] spec_groups(items)[g]).key
                != (#[trigger] spec_groups(items)[h]).key,
        exists|g: int|
            0 <= g < spec_groups(items).len() && (#[trigger] spec_groups(items)[g]).key
                == items[i].group && spec_groups(items)[g].members.contains(items[i].seq),
{
    lemma_group_keys_facts(items);
    lemma_item_in_own_group(items, i);
    let keys = group_keys(items);
    let groups = spec_groups(items);
    let key = items[i].group;
    assert(keys.contains(key));
    let g = keys.index_of(key);
    assert(groups[g].key == key);
    assert forall|a: int, b: int| 0 <= a < b < groups.len() implies (#[trigger] groups[a]).key
        != (#[trigger] groups[b]).key by {
        assert(groups[a].key == keys[a]);
        assert(groups[b].key == keys[b]);
    }
}


/// Whether the items' seqs strictly increase in observation order.
pub open spec fn seqs_increase(items: Seq<ItemModel>) -> bool {
    forall|i: int, j: int| 0 <= i < j < items.len() ==> #[trigger] items[i].seq < #[trigger] items[j].seq
}

/// A group's members are exactly the seqs of the items that carry its key, each below the next.
proof fn lemma_members_are_the_keys_items(items: Seq<ItemModel>, key: GroupKeyModel)
    requires
        seqs_increase(items),
    ensures
        forall|s: u64|
            #[trigger] members_of(items, key).contains(s) ==> exists|j: int|
                0 <= j < items.len() && #[trigger] items[j].seq == s && items[j].group == key,
        forall|a: int, b: int|
            0 <= a < b < members_of(items, key).len() ==> #[trigger] members_of(items, key)[a]
                < #[trigger] members_of(items, key)[b],
        first_index(items, key) >= 0 ==> members_of(items, key).len() > 0 && members_of(items, key)[0]
            == items[first_index(items, key)].seq,
    decreases items.len(),
{
    if items.len() > 0 {
        let prev = items.drop_last();
        let last = items.last();
        assert forall|i: int, j: int| 0 <= i < j < prev.len() implies #[trigger] prev[i].seq
            < #[trigger] prev[j].seq by {
            assert(prev[i] == items[i] && prev[j] == items[j]);
        }
        lemma_members_are_the_keys_items(prev, key);
        let pm = members_of(prev, key);
        let m = members_of(items, key);
        assert forall|s: u64| #[trigger] m.contains(s) implies exists|j: int|
            0 <= j < items.len() && #[trigger] items[j].seq == s && items[j].group == key by {
            if pm.contains(s) {
                let j = choose|j: int| 0 <= j < prev.len() && #[trigger] prev[j].seq == s && prev[j].group == key;
                assert(items[j] == prev[j]);
            } else {
                assert(last.group == key);
                assert(m == pm.push(last.seq));
                let k = m.index_of(s);
                assert(k == pm.len());
                assert(items[items.len() - 1] == last);
            }
        }
        if last.group == key {
            assert(m == pm.push(last.seq));
            assert forall|a: int, b: int| 0 <= a < b < m.len() implies #[trigger] m[a] < #[trigger] m[b] by {
                if b == pm.len() {
                    assert(pm.contains(pm[a]));
                    let j = choose|j: int| 0 <= j < prev.len() && #[trigger] prev[j].seq == pm[a] && prev[j].group == key;
                    assert(items[j] == prev[j]);
                    assert(items[j].seq < items[items.len() - 1].seq);
                } else {
                    assert(m[a] == pm[a] && m[b] == pm[b]);
                }
            }
        }
        if first_index(items, key) >= 0 {
            if first_index(prev, key) >= 0 {
                lemma_group_keys_facts(prev);
                assert(first_index(items, key) == first_index(prev, key));
                assert(prev[first_index(prev, key)] == items[first_index(prev, key)]);
                assert(m[0] == pm[0]);
            } else {
                lemma_members_empty(prev, key);
                assert(last.group == key);
                assert(m =~= seq![last.seq]);
            }
        }
    }
}

/// Keys are listed in the order their groups first appear.
proof fn lemma_keys_follow_first_appearance(items: Seq<ItemModel>)
    ensures
        forall|g: int, h: int|
            0 <= g < h < group_keys(items).len() ==> first_index(items, #[trigger] group_keys(items)[g])
                < first_index(items, #[trigger] group_keys(items)[h]),
        forall|g: int|
            0 <= g < group_keys(items).len() ==> 0 <= first_index(items, #[trigger] group_keys(items)[g])
                < items.len(),
    decreases items.len(),
{
    lemma_group_keys_facts(items);
    if items.len() > 0 {
        let prev = items.drop_last();
        lemma_keys_follow_first_appearance(prev);
        lemma_group_keys_facts(prev);
        let keys = group_keys(items);
        let pk = group_keys(prev);
        assert forall|g: int| 0 <= g < pk.len() implies first_index(items, pk[g]) == first_index(
            prev,
            #[trigger] pk[g],
        ) by {
            assert(pk.contains(pk[g]));
        }
        assert forall|g: int|
            0 <= g < keys.len() implies 0 <= first_index(items, #[trigger] keys[g]) < items.len() by {
            assert(keys.contains(keys[g]));
        }
        assert forall|g: int, h: int|
            0 <= g < h < keys.len() implies first_index(items, #[trigger] keys[g]) < first_index(
                items,
                #[trigger] keys[h],
            ) by {
            assert(keys[g] == pk[g]);
            if h < pk.len() {
                assert(keys[h] == pk[h]);
            } else {
                assert(!pk.contains(items.last().group));
                assert(first_index(prev, items.last().group) < 0);
                assert(keys[h] == items.last().group);
            }
        }
    }
}

/// Whether every item in one group is priced exactly, said directly.
proof fn lemma_key_exact_is_every_member(items: Seq<ItemModel>, key: GroupKeyModel)
    ensures
        key_exact(items, key) <==> forall|j: int|
            0 <= j < items.len() && #[trigger] items[j].group == key ==> items[j].cost.is_exact(),
    decreases items.len(),
{
    if items.len() > 0 {
        let prev = items.drop_last();
        lemma_key_exact_is_every_member(prev, key);
        let every = forall|j: int|
            0 <= j < items.len() && #[trigger] items[j].group == key ==> items[j].cost.is_exact();
        if every {
            assert forall|j: int| 0 <= j < prev.len() && #[trigger] prev[j].group == key implies prev[j].cost.is_exact() by {
                assert(prev[j] == items[j]);
            }
            assert(items[items.len() - 1] == items.last());
        }
        if key_exact(items, key) {
            assert forall|j: int| 0 <= j < items.len() && #[trigger] items[j].group == key implies items[j].cost.is_exact() by {
                if j < prev.len() {
                    assert(prev[j] == items[j]);
                } else {
                    assert(items[j] == items.last());
                }
            }
        }
    }
}

/// Each group's first member is the item that names it, and its members ascend.
proof fn lemma_group_first_members(items: Seq<ItemModel>)
    requires
        seqs_increase(items),
    ensures
        forall|g: int|
            0 <= g < spec_groups(items).len() ==> (#[trigger] spec_groups(items)[g]).members.len() > 0
                && {
                let j = first_index(items, group_keys(items)[g]);
                &&& 0 <= j < items.len()
                &&& items[j].seq == spec_groups(items)[g].members[0]
                &&& items[j].group == spec_groups(items)[g].key
                &&& items[j].category == spec_groups(items)[g].category
                &&& items[j].label == spec_groups(items)[g].label
            },
        forall|g: int, a: int, b: int|
            0 <= g < spec_groups(items).len() && 0 <= a < b < spec_groups(items)[g].members.len()
                ==> #[trigger] spec_groups(items)[g].members[a] < #[trigger] spec_groups(
                items,
            )[g].members[b],
{
    let groups = spec_groups(items);
    let keys = group_keys(items);
    lemma_group_keys_facts(items);
    lemma_keys_follow_first_appearance(items);
    assert forall|g: int| 0 <= g < groups.len() implies (#[trigger] groups[g]).members.len() > 0 && {
        let j = first_index(items, keys[g]);
        &&& 0 <= j < items.len()
        &&& items[j].seq == groups[g].members[0]
        &&& items[j].group == groups[g].key
        &&& items[j].category == groups[g].category
        &&& items[j].label == groups[g].label
    } by {
        lemma_members_are_the_keys_items(items, keys[g]);
    }
    assert forall|g: int, a: int, b: int|
        0 <= g < groups.len() && 0 <= a < b < groups[g].members.len() implies #[trigger] groups[g].members[a]
        < #[trigger] groups[g].members[b] by {
        lemma_members_are_the_keys_items(items, keys[g]);
    }
}

/// An item's seq is among a group's members exactly when the group is keyed by the item's own
/// group key, and there is such a group.
proof fn lemma_item_membership(items: Seq<ItemModel>)
    requires
        seqs_increase(items),
    ensures
        forall|i: int, g: int|
            0 <= i < items.len() && 0 <= g < spec_groups(items).len() ==> (
            #[trigger] spec_groups(items)[g].members.contains(#[trigger] items[i].seq)
                <==> spec_groups(items)[g].key == items[i].group),
        forall|i: int|
            0 <= i < items.len() ==> exists|g: int|
                0 <= g < spec_groups(items).len() && (#[trigger] spec_groups(items)[g]).key
                    == #[trigger] items[i].group,
{
    let groups = spec_groups(items);
    let keys = group_keys(items);
    lemma_group_keys_facts(items);
    assert forall|i: int, g: int|
        0 <= i < items.len() && 0 <= g < groups.len() implies (
        #[trigger] groups[g].members.contains(#[trigger] items[i].seq) <==> groups[g].key
            == items[i].group) by {
        lemma_members_are_the_keys_items(items, keys[g]);
        lemma_item_in_own_group(items, i);
        if groups[g].members.contains(items[i].seq) {
            let j = choose|j: int|
                0 <= j < items.len() && #[trigger] items[j].seq == items[i].seq && items[j].group
                    == keys[g];
            if j < i {
                assert(items[j].seq < items[i].seq);
            } else if i < j {
                assert(items[i].seq < items[j].seq);
            }
        }
    }
    assert forall|i: int| 0 <= i < items.len() implies exists|g: int|
        0 <= g < groups.len() && (#[trigger] groups[g]).key == #[trigger] items[i].group by {
        lemma_item_in_own_group(items, i);
        assert(keys.contains(items[i].group));
        let g = keys.index_of(items[i].group);
        assert(groups[g].key == items[i].group);
    }
}

/// Groups come in the order of their first member.
proof fn lemma_groups_ordered_by_first_member(items: Seq<ItemModel>)
    requires
        seqs_increase(items),
    ensures
        forall|g: int, h: int|
            0 <= g < h < spec_groups(items).len() ==> (#[trigger] spec_groups(items)[g]).members[0]
                < (#[trigger] spec_groups(items)[h]).members[0],
{
    let groups = spec_groups(items);
    let keys = group_keys(items);
    lemma_group_first_members(items);
    lemma_keys_follow_first_appearance(items);
    assert forall|g: int, h: int| 0 <= g < h < groups.len() implies (#[trigger] groups[g]).members[0]
        < (#[trigger] groups[h]).members[0] by {
        let jg = first_index(items, keys[g]);
        let jh = first_index(items, keys[h]);
        assert(jg < jh);
        assert(items[jg].seq < items[jh].seq);
    }
}

/// The groups partition the items. Each item's seq is a member of exactly one group, the one
/// keyed by the item's own group key; members ascend; groups come in the order of their first
/// member; a group takes its category and label from its first member; and its cost sums its
/// members' costs, exact only when every member is priced exactly.
pub proof fn lemma_groups_partition_the_items(items: Seq<ItemModel>)
    requires
        seqs_increase(items),
    ensures
        forall|i: int, g: int|
            0 <= i < items.len() && 0 <= g < spec_groups(items).len() ==> (
            #[trigger] spec_groups(items)[g].members.contains(#[trigger] items[i].seq)
                <==> spec_groups(items)[g].key == items[i].group),
        forall|i: int|
            0 <= i < items.len() ==> exists|g: int|
                0 <= g < spec_groups(items).len() && (#[trigger] spec_groups(items)[g]).key
                    == #[trigger] items[i].group,
        forall|g: int, a: int, b: int|
            0 <= g < spec_groups(items).len() && 0 <= a < b < spec_groups(items)[g].members.len()
                ==> #[trigger] spec_groups(items)[g].members[a] < #[trigger] spec_groups(
                items,
            )[g].members[b],
        forall|g: int, h: int|
            0 <= g < h < spec_groups(items).len() ==> (#[trigger] spec_groups(items)[g]).members[0]
                < (#[trigger] spec_groups(items)[h]).members[0],
        forall|g: int|
            0 <= g < spec_groups(items).len() ==> (#[trigger] spec_groups(items)[g]).members.len()
                > 0 && exists|j: int|
                0 <= j < items.len() && #[trigger] items[j].seq == spec_groups(items)[g].members[0]
                    && items[j].group == spec_groups(items)[g].key && items[j].category
                    == spec_groups(items)[g].category && items[j].label
                    == spec_groups(items)[g].label,
        forall|g: int|
            0 <= g < spec_groups(items).len() ==> (#[trigger] spec_groups(items)[g]).cost
                == TokenCost::with(
                key_exact(items, spec_groups(items)[g].key),
                key_tokens(items, spec_groups(items)[g].key),
            ),
        forall|key: GroupKeyModel|
            #[trigger] key_exact(items, key) <==> forall|j: int|
                0 <= j < items.len() && #[trigger] items[j].group == key
                    ==> items[j].cost.is_exact(),
{
    let groups = spec_groups(items);
    let keys = group_keys(items);
    lemma_item_membership(items);
    lemma_group_first_members(items);
    lemma_groups_ordered_by_first_member(items);
    assert forall|g: int|
        0 <= g < groups.len() implies (#[trigger] groups[g]).members.len() > 0 && exists|j: int|
            0 <= j < items.len() && #[trigger] items[j].seq == groups[g].members[0]
                && items[j].group == groups[g].key && items[j].category == groups[g].category
                && items[j].label == groups[g].label by {
        let j = first_index(items, keys[g]);
        assert(items[j].seq == groups[g].members[0]);
    }
    assert forall|key: GroupKeyModel|
        #[trigger] key_exact(items, key) <==> forall|j: int|
            0 <= j < items.len() && #[trigger] items[j].group == key ==> items[j].cost.is_exact() by {
        lemma_key_exact_is_every_member(items, key);
    }
}

/// The summed tokens of the groups under a list of keys.
pub open spec fn keys_total(items: Seq<ItemModel>, keys: Seq<GroupKeyModel>) -> int
    decreases keys.len(),
{
    if keys.len() == 0 {
        0
    } else {
        keys_total(items, keys.drop_last()) + key_tokens(items, keys.last())
    }
}

/// The summed costs of a list of groups.
pub open spec fn groups_total(groups: Seq<GroupModel>) -> int
    decreases groups.len(),
{
    if groups.len() == 0 {
        0
    } else {
        groups_total(groups.drop_last()) + groups.last().cost.spec_tokens()
    }
}

/// Whether every group's total fits an `i64`, so no group's cost saturates.
pub open spec fn group_totals_fit(items: Seq<ItemModel>) -> bool {
    forall|key: GroupKeyModel|
        i64::MIN <= #[trigger] key_tokens(items, key) <= i64::MAX
}

/// A key no item carries holds no tokens.
proof fn lemma_absent_key_is_empty(items: Seq<ItemModel>, key: GroupKeyModel)
    requires
        first_index(items, key) < 0,
    ensures
        key_tokens(items, key) == 0,
    decreases items.len(),
{
    if items.len() > 0 {
        lemma_absent_key_is_empty(items.drop_last(), key);
    }
}

/// One more item adds its cost to the one key among distinct keys that it carries.
proof fn lemma_keys_total_step(items: Seq<ItemModel>, keys: Seq<GroupKeyModel>)
    requires
        items.len() > 0,
        keys.no_duplicates(),
    ensures
        keys_total(items, keys) == keys_total(items.drop_last(), keys) + if keys.contains(
            items.last().group,
        ) {
            items.last().cost.spec_tokens() as int
        } else {
            0
        },
    decreases keys.len(),
{
    if keys.len() > 0 {
        let rest = keys.drop_last();
        assert(rest.no_duplicates()) by {
            assert forall|i: int, j: int| 0 <= i < rest.len() && 0 <= j < rest.len() && i != j implies rest[i]
                != rest[j] by {
                assert(rest[i] == keys[i] && rest[j] == keys[j]);
            }
        }
        lemma_keys_total_step(items, rest);
        let key = keys.last();
        if key == items.last().group {
            assert(keys.contains(key)) by {
                assert(keys[keys.len() - 1] == key);
            }
            if rest.contains(key) {
                let k = rest.index_of(key);
                assert(keys[k] == keys[keys.len() - 1]);
            }
        } else {
            if keys.contains(items.last().group) {
                let k = keys.index_of(items.last().group);
                assert(k != keys.len() - 1);
                assert(rest[k] == items.last().group);
            }
            if rest.contains(items.last().group) {
                let k = rest.index_of(items.last().group);
                assert(keys[k] == items.last().group);
            }
        }
    } else {
        assert(!keys.contains(items.last().group));
    }
}

/// The groups of the first `hi` items hold exactly those items' tokens.
proof fn lemma_groups_partition_tokens(items: Seq<ItemModel>, hi: int)
    requires
        0 <= hi <= items.len(),
    ensures
        keys_total(items.take(hi), group_keys(items.take(hi))) == range_tokens(items, 0, hi),
    decreases hi,
{
    if hi > 0 {
        lemma_groups_partition_tokens(items, hi - 1);
        let prefix = items.take(hi);
        let prev = prefix.drop_last();
        assert(prev =~= items.take(hi - 1));
        assert(prefix.last() == items[hi - 1]);
        let x = prefix.last();
        lemma_group_keys_facts(prefix);
        lemma_group_keys_facts(prev);
        let keys = group_keys(prev);
        lemma_keys_total_step(prefix, keys);
        if !keys.contains(x.group) {
            let all_keys = keys.push(x.group);
            assert(all_keys.drop_last() =~= keys);
            assert(first_index(prev, x.group) < 0);
            lemma_absent_key_is_empty(prev, x.group);
        }
    } else {
        assert(items.take(0) =~= Seq::<ItemModel>::empty());
    }
}

/// The group costs of a prefix of the keys are those keys' totals.
proof fn lemma_groups_total_upto(items: Seq<ItemModel>, k: int)
    requires
        0 <= k <= group_keys(items).len(),
        group_totals_fit(items),
    ensures
        groups_total(spec_groups(items).take(k)) == keys_total(items, group_keys(items).take(k)),
    decreases k,
{
    let keys = group_keys(items);
    let groups = spec_groups(items);
    if k > 0 {
        lemma_groups_total_upto(items, k - 1);
        assert(groups.take(k).drop_last() =~= groups.take(k - 1));
        assert(keys.take(k).drop_last() =~= keys.take(k - 1));
        assert(groups.take(k).last() == groups[k - 1]);
        assert(keys.take(k).last() == keys[k - 1]);
        assert(i64::MIN <= key_tokens(items, keys[k - 1]) <= i64::MAX);
    } else {
        assert(groups.take(0) =~= Seq::<GroupModel>::empty());
        assert(keys.take(0) =~= Seq::<GroupKeyModel>::empty());
    }
}

/// The groups together hold every item's tokens: their costs sum to the items' total, unless a
/// group's total is too large for an `i64` and its cost saturates.
pub proof fn lemma_groups_hold_every_items_tokens(items: Seq<ItemModel>)
    requires
        group_totals_fit(items),
    ensures
        groups_total(spec_groups(items)) == items_total(items),
{
    let keys = group_keys(items);
    lemma_groups_total_upto(items, keys.len() as int);
    assert(spec_groups(items).take(keys.len() as int) =~= spec_groups(items));
    assert(keys.take(keys.len() as int) =~= keys);
    lemma_groups_partition_tokens(items, items.len() as int);
    assert(items.take(items.len() as int) =~= items);
}

} // verus!
