//! Stable sorting of positions by a ranking, and rearranging a vector by the result.

use vstd::prelude::*;

verus! {

/// Whether position `a` goes before position `b` in a stable sort: by rank, and positions of
/// equal rank in the order in which they stand.
pub open spec fn goes_before(ranks_up_to: spec_fn(int, int) -> bool, a: int, b: int) -> bool {
    &&& ranks_up_to(a, b)
    &&& ranks_up_to(b, a) ==> a < b
}

/// Whether `ranks_up_to` ("the rank of the first is at most that of the second") compares all of
/// the positions below `n` and is transitive on them.
pub open spec fn is_ranking(ranks_up_to: spec_fn(int, int) -> bool, n: int) -> bool {
    &&& forall|a: int, b: int|
        #![trigger ranks_up_to(a, b)]
        0 <= a < n && 0 <= b < n ==> ranks_up_to(a, b) || ranks_up_to(b, a)
    &&& forall|a: int, b: int, c: int|
        #![trigger ranks_up_to(a, b), ranks_up_to(b, c)]
        0 <= a < n && 0 <= b < n && 0 <= c < n && ranks_up_to(a, b) && ranks_up_to(b, c)
            ==> ranks_up_to(a, c)
}

/// Whether `order` lists each position below `n` once.
pub open spec fn is_permutation(order: Seq<usize>, n: nat) -> bool {
    &&& order.len() == n
    &&& forall|i: int| 0 <= i < n ==> (#[trigger] order[i]) < n
    &&& forall|i: int, j: int| 0 <= i < j < n ==> order[i] != order[j]
}

/// Whether `order` is the stable sort of the positions below `n`.
pub open spec fn is_stable_order(
    order: Seq<usize>,
    n: nat,
    ranks_up_to: spec_fn(int, int) -> bool,
) -> bool {
    &&& is_permutation(order, n)
    &&& forall|i: int, j: int|
        #![trigger order[i], order[j]]
        0 <= i < j < n ==> goes_before(ranks_up_to, order[i] as int, order[j] as int)
}

/// `items` in the order that `order` gives.
pub open spec fn arranged<T>(items: Seq<T>, order: Seq<usize>) -> Seq<T> {
    Seq::new(order.len(), |i: int| items[order[i] as int])
}

/// The stable sort of the positions below `n` by the ranking that `ranks_up_to` computes.
pub(crate) fn stable_order<F: Fn(usize, usize) -> bool>(
    n: usize,
    ranks_up_to: F,
    Ghost(spec): Ghost<spec_fn(int, int) -> bool>,
) -> (order: Vec<usize>)
    requires
        is_ranking(spec, n as int),
        forall|a: usize, b: usize| a < n && b < n ==> call_requires(ranks_up_to, (a, b)),
        forall|a: usize, b: usize, r: bool|
            a < n && b < n && call_ensures(ranks_up_to, (a, b), r) ==> r == spec(a as int, b as int),
    ensures
        is_stable_order(order@, n as nat, spec),
{
    let mut order: Vec<usize> = Vec::new();
    let mut k: usize = 0;
    while k < n
        invariant
            k <= n,
            is_ranking(spec, n as int),
            forall|a: usize, b: usize| a < n && b < n ==> call_requires(ranks_up_to, (a, b)),
            forall|a: usize, b: usize, r: bool|
                a < n && b < n && call_ensures(ranks_up_to, (a, b), r) ==> r == spec(
                    a as int,
                    b as int,
                ),
            is_stable_order(order@, k as nat, spec),
        decreases n - k,
    {
        let mut at: usize = k;
        while at > 0 && !ranks_up_to(order[at - 1], k)
            invariant
                k < n,
                at <= k,
                is_ranking(spec, n as int),
                forall|a: usize, b: usize| a < n && b < n ==> call_requires(ranks_up_to, (a, b)),
                forall|a: usize, b: usize, r: bool|
                    a < n && b < n && call_ensures(ranks_up_to, (a, b), r) ==> r == spec(
                        a as int,
                        b as int,
                    ),
                is_stable_order(order@, k as nat, spec),
                forall|i: int| at <= i < k ==> !spec(#[trigger] order[i] as int, k as int),
            decreases at,
        {
            at = at - 1;
        }
        let ghost before = order@;
        order.insert(at, k);
        proof {
            assert forall|i: int| 0 <= i < at implies goes_before(
                spec,
                #[trigger] before[i] as int,
                k as int,
            ) by {
                if i < at - 1 {
                    assert(goes_before(spec, before[i] as int, before[at - 1] as int));
                }
            }
            assert forall|i: int| at <= i < k implies goes_before(
                spec,
                k as int,
                #[trigger] before[i] as int,
            ) by {
                assert(spec(before[i] as int, k as int) || spec(k as int, before[i] as int));
            }
            assert forall|i: int, j: int|
                #![trigger order[i], order[j]]
                0 <= i < j < k + 1 implies goes_before(spec, order[i] as int, order[j] as int) by {
                let old_i = if i < at { i } else { i - 1 };
                let old_j = if j < at { j } else { j - 1 };
                if i != at {
                    assert(order[i] == before[old_i]);
                }
                if j != at {
                    assert(order[j] == before[old_j]);
                }
            }
            assert forall|i: int, j: int| 0 <= i < j < k + 1 implies order[i] != order[j] by {
                assert(goes_before(spec, order[i] as int, order[j] as int));
            }
        }
        k = k + 1;
    }
    order
}

/// Rearranges `items` in the order that `order` gives.
pub(crate) fn arrange<T>(items: Vec<T>, order: &Vec<usize>) -> (r: Vec<T>)
    requires
        is_permutation(order@, items@.len()),
    ensures
        r@ == arranged(items@, order@),
{
    let ghost all = items@;
    let n: usize = items.len();
    let mut slots: Vec<Option<T>> = Vec::new();
    for item in iter: items
        invariant
            iter.seq() == all,
            slots@.len() == iter.index(),
            forall|i: int| 0 <= i < iter.index() ==> slots@[i] == Some(iter.seq()[i]),
    {
        slots.push(Some(item));
    }
    let mut r: Vec<T> = Vec::new();
    let mut k: usize = 0;
    while k < n
        invariant
            k <= n == all.len(),
            is_permutation(order@, all.len()),
            slots@.len() == n,
            r@ == arranged(all, order@.take(k as int)),
            forall|i: int| k <= i < n ==> slots@[#[trigger] order@[i] as int] == Some(
                all[order@[i] as int],
            ),
        decreases n - k,
    {
        let at: usize = order[k];
        let mut slot: Option<T> = None;
        std::mem::swap(&mut slot, &mut slots[at]);
        if let Some(item) = slot {
            r.push(item);
        }
        proof {
            assert(r@ =~= arranged(all, order@.take(k + 1)));
        }
        k = k + 1;
    }
    proof {
        assert(order@.take(n as int) =~= order@);
    }
    r
}

/// A permutation reaches every position.
pub proof fn lemma_permutation_reaches(order: Seq<usize>, n: nat, k: int)
    requires
        is_permutation(order, n),
        0 <= k < n,
    ensures
        exists|i: int| 0 <= i < n && order[i] == k,
{
    if forall|i: int| 0 <= i < n ==> order[i] != k {
        let positions = order.map_values(|p: usize| p as int);
        let reached = positions.to_set();
        positions.unique_seq_to_set();
        let others = vstd::set_lib::set_int_range(0, n as int).remove(k);
        vstd::set_lib::lemma_int_range(0, n as int);
        assert(reached.subset_of(others)) by {
            assert forall|p: int| reached.contains(p) implies others.contains(p) by {
                let i = choose|i: int| 0 <= i < positions.len() && positions[i] == p;
                assert(order[i] == p);
            }
        }
        vstd::set_lib::lemma_len_subset(reached, others);
        assert(false);
    }
}

/// Rearranging neither adds nor drops nor doubles an item.
pub proof fn law_arranging_keeps_items<T>(items: Seq<T>, order: Seq<usize>)
    requires
        is_permutation(order, items.len()),
    ensures
        arranged(items, order).to_multiset() == items.to_multiset(),
    decreases items.len(),
{
    broadcast use vstd::seq_lib::group_to_multiset_ensures;

    if items.len() == 0 {
        assert(arranged(items, order) =~= items);
    } else {
        let last = items.len() - 1;
        lemma_permutation_reaches(order, items.len(), last);
        let at = choose|i: int| 0 <= i < items.len() && order[i] == last;
        let shorter = order.remove(at);
        assert(is_permutation(shorter, last as nat));
        law_arranging_keeps_items(items.drop_last(), shorter);
        assert(arranged(items, order).remove(at) =~= arranged(items.drop_last(), shorter));
        assert(items =~= items.drop_last().push(items.last()));
        assert(arranged(items, order)[at] == items.last());
        let whole = arranged(items, order).to_multiset();
        assert(whole.remove(items.last()).insert(items.last()) =~= whole) by {
            assert(arranged(items, order).contains(items.last()));
        }
    }
}

/// There is only one stable sort of the same positions by the same ranking.
pub proof fn law_stable_order_is_unique(
    a: Seq<usize>,
    b: Seq<usize>,
    n: nat,
    ranks_up_to: spec_fn(int, int) -> bool,
)
    requires
        is_ranking(ranks_up_to, n as int),
        is_stable_order(a, n, ranks_up_to),
        is_stable_order(b, n, ranks_up_to),
    ensures
        a == b,
{
    assert forall|i: int| 0 <= i < n implies a[i] == b[i] by {
        lemma_same_prefix(a, b, n, ranks_up_to, i + 1);
    }
    assert(a =~= b);
}

proof fn lemma_same_prefix(
    a: Seq<usize>,
    b: Seq<usize>,
    n: nat,
    ranks_up_to: spec_fn(int, int) -> bool,
    len: int,
)
    requires
        is_ranking(ranks_up_to, n as int),
        is_stable_order(a, n, ranks_up_to),
        is_stable_order(b, n, ranks_up_to),
        0 <= len <= n,
    ensures
        forall|i: int| 0 <= i < len ==> a[i] == b[i],
    decreases len,
{
    if len > 0 {
        lemma_same_prefix(a, b, n, ranks_up_to, len - 1);
        let i = len - 1;
        lemma_permutation_reaches(b, n, a[i] as int);
        lemma_permutation_reaches(a, n, b[i] as int);
        let j = choose|j: int| 0 <= j < n && b[j] == a[i];
        let k = choose|k: int| 0 <= k < n && a[k] == b[i];
        assert(j >= i);
        assert(k >= i);
        if j > i {
            assert(goes_before(ranks_up_to, b[i] as int, b[j] as int));
            assert(goes_before(ranks_up_to, a[i] as int, a[k] as int));
        }
    }
}

} // verus!
