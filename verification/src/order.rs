//! Ranking by a key, largest first, keeping the given order among equals.

use vstd::prelude::*;

verus! {

/// Index `i` is ranked before index `j`: its key is larger, or the keys are
/// equal and `i` is the earlier of the two.
pub open spec fn precedes(keys: Seq<u64>, i: int, j: int) -> bool {
    keys[i] > keys[j] || (keys[i] == keys[j] && i < j)
}

/// `order` lists every index of `keys` once, each index ranked before all
/// that follow it.
pub open spec fn is_descending_order(keys: Seq<u64>, order: Seq<usize>) -> bool {
    &&& order.len() == keys.len()
    &&& forall|k: int| 0 <= k < order.len() ==> (#[trigger] order[k]) < keys.len()
    &&& forall|a: int, b: int|
        0 <= a < b < order.len() ==> precedes(
            keys,
            #[trigger] order[a] as int,
            #[trigger] order[b] as int,
        )
    &&& forall|i: usize| i < keys.len() ==> #[trigger] order.contains(i)
}

/// The ranking of `keys`: the one sequence that `is_descending_order` admits.
pub open spec fn descending_order_of(keys: Seq<u64>) -> Seq<usize> {
    choose|order: Seq<usize>| is_descending_order(keys, order)
}

proof fn lemma_same_prefix(keys: Seq<u64>, a: Seq<usize>, b: Seq<usize>, n: int)
    requires
        is_descending_order(keys, a),
        is_descending_order(keys, b),
        0 <= n <= keys.len(),
    ensures
        forall|k: int| 0 <= k < n ==> a[k] == b[k],
    decreases n,
{
    if n > 0 {
        lemma_same_prefix(keys, a, b, n - 1);
        let k = n - 1;
        if a[k] != b[k] {
            assert(b.contains(a[k]));
            let m = choose|m: int| 0 <= m < b.len() && b[m] == a[k];
            assert(a.contains(b[k]));
            let w = choose|w: int| 0 <= w < a.len() && a[w] == b[k];
            if m < k {
                assert(a[m] == b[m]);
                assert(precedes(keys, a[m] as int, a[k] as int));
            }
            if w < k {
                assert(a[w] == b[w]);
                assert(precedes(keys, b[w] as int, b[k] as int));
            }
            assert(precedes(keys, b[k] as int, b[m] as int));
            assert(precedes(keys, a[k] as int, a[w] as int));
        }
    }
}

/// Two rankings of the same keys are the same sequence.
pub proof fn lemma_descending_order_unique(keys: Seq<u64>, a: Seq<usize>, b: Seq<usize>)
    requires
        is_descending_order(keys, a),
        is_descending_order(keys, b),
    ensures
        a == b,
{
    lemma_same_prefix(keys, a, b, keys.len() as int);
    assert(a =~= b);
}

/// `order` with index `i` put behind every index whose key is at least that
/// of `i`.
spec fn with_index(keys: Seq<u64>, order: Seq<usize>, i: usize) -> Seq<usize>
    decreases order.len(),
{
    if order.len() > 0 && keys[order.last() as int] < keys[i as int] {
        with_index(keys, order.drop_last(), i).push(order.last())
    } else {
        order.push(i)
    }
}

proof fn lemma_with_index(keys: Seq<u64>, order: Seq<usize>, i: usize)
    requires
        i < keys.len(),
        forall|k: int| 0 <= k < order.len() ==> (#[trigger] order[k]) < i,
        forall|a: int, b: int|
            0 <= a < b < order.len() ==> precedes(
                keys,
                #[trigger] order[a] as int,
                #[trigger] order[b] as int,
            ),
    ensures
        with_index(keys, order, i).len() == order.len() + 1,
        forall|k: int|
            0 <= k < with_index(keys, order, i).len() ==> (#[trigger] with_index(keys, order, i)[k])
                <= i,
        forall|a: int, b: int|
            0 <= a < b < with_index(keys, order, i).len() ==> precedes(
                keys,
                #[trigger] with_index(keys, order, i)[a] as int,
                #[trigger] with_index(keys, order, i)[b] as int,
            ),
        forall|x: usize|
            #[trigger] with_index(keys, order, i).contains(x) <==> (x == i || order.contains(x)),
    decreases order.len(),
{
    let r = with_index(keys, order, i);
    if order.len() > 0 && keys[order.last() as int] < keys[i as int] {
        let front = order.drop_last();
        let last = order.last();
        let inner = with_index(keys, front, i);
        assert forall|a: int, b: int| 0 <= a < b < front.len() implies precedes(
            keys,
            #[trigger] front[a] as int,
            #[trigger] front[b] as int,
        ) by {
            assert(front[a] == order[a] && front[b] == order[b]);
        }
        assert forall|k: int| 0 <= k < front.len() implies (#[trigger] front[k]) < i by {
            assert(front[k] == order[k]);
        }
        lemma_with_index(keys, front, i);
        assert(r == inner.push(last));
        assert forall|a: int, b: int| 0 <= a < b < r.len() implies precedes(
            keys,
            #[trigger] r[a] as int,
            #[trigger] r[b] as int,
        ) by {
            if b < inner.len() {
                assert(r[a] == inner[a] && r[b] == inner[b]);
            } else {
                assert(r[b] == last);
                assert(r[a] == inner[a]);
                assert(inner.contains(inner[a]));
                if inner[a] != i {
                    assert(front.contains(inner[a]));
                    let m: int = choose|m: int| 0 <= m < front.len() && front[m] == inner[a];
                    assert(order[m] == inner[a]);
                    assert(precedes(keys, order[m] as int, order[order.len() - 1] as int));
                }
            }
        }
        assert forall|x: usize| #[trigger] r.contains(x) <==> (x == i || order.contains(x)) by {
            if r.contains(x) {
                let m: int = choose|m: int| 0 <= m < r.len() && r[m] == x;
                if m < inner.len() {
                    assert(inner[m] == x);
                    assert(inner.contains(x));
                    if x != i {
                        assert(front.contains(x));
                        let w: int = choose|w: int| 0 <= w < front.len() && front[w] == x;
                        assert(order[w] == x);
                    }
                } else {
                    assert(order[order.len() - 1] == x);
                }
            }
            if x == i {
                assert(inner.contains(i));
                let m: int = choose|m: int| 0 <= m < inner.len() && inner[m] == i;
                assert(r[m] == x);
            } else if order.contains(x) {
                let w: int = choose|w: int| 0 <= w < order.len() && order[w] == x;
                if w < front.len() {
                    assert(front[w] == x);
                    assert(front.contains(x));
                    assert(inner.contains(x));
                    let m: int = choose|m: int| 0 <= m < inner.len() && inner[m] == x;
                    assert(r[m] == x);
                } else {
                    assert(r[r.len() - 1] == x);
                }
            }
        }
    } else {
        assert(r == order.push(i));
        assert forall|a: int, b: int| 0 <= a < b < r.len() implies precedes(
            keys,
            #[trigger] r[a] as int,
            #[trigger] r[b] as int,
        ) by {
            if b < order.len() {
                assert(r[a] == order[a] && r[b] == order[b]);
            } else {
                assert(r[a] == order[a]);
                if a < order.len() - 1 {
                    assert(precedes(keys, order[a] as int, order[order.len() - 1] as int));
                }
            }
        }
        assert forall|x: usize| #[trigger] r.contains(x) <==> (x == i || order.contains(x)) by {
            if r.contains(x) {
                let m: int = choose|m: int| 0 <= m < r.len() && r[m] == x;
                if m < order.len() {
                    assert(order[m] == x);
                }
            }
            if x == i {
                assert(r[r.len() - 1] == x);
            } else if order.contains(x) {
                let w: int = choose|w: int| 0 <= w < order.len() && order[w] == x;
                assert(r[w] == x);
            }
        }
    }
}

/// The ranking of the first `n` keys, built one index at a time.
spec fn ranking_upto(keys: Seq<u64>, n: nat) -> Seq<usize>
    decreases n,
{
    if n == 0 {
        Seq::empty()
    } else {
        with_index(keys, ranking_upto(keys, (n - 1) as nat), (n - 1) as usize)
    }
}

proof fn lemma_ranking_upto(keys: Seq<u64>, n: nat)
    requires
        n <= keys.len() <= usize::MAX,
    ensures
        ranking_upto(keys, n).len() == n,
        forall|k: int| 0 <= k < n ==> (#[trigger] ranking_upto(keys, n)[k]) < n,
        forall|a: int, b: int|
            0 <= a < b < n ==> precedes(
                keys,
                #[trigger] ranking_upto(keys, n)[a] as int,
                #[trigger] ranking_upto(keys, n)[b] as int,
            ),
        forall|x: usize| x < n ==> #[trigger] ranking_upto(keys, n).contains(x),
    decreases n,
{
    if n > 0 {
        lemma_ranking_upto(keys, (n - 1) as nat);
        lemma_with_index(keys, ranking_upto(keys, (n - 1) as nat), (n - 1) as usize);
    }
}

/// Every sequence of keys has a ranking, and `descending_order_of` is it.
pub proof fn lemma_descending_order_exists(keys: Seq<u64>)
    requires
        keys.len() <= usize::MAX,
    ensures
        is_descending_order(keys, descending_order_of(keys)),
{
    lemma_ranking_upto(keys, keys.len());
    assert(is_descending_order(keys, ranking_upto(keys, keys.len())));
}

/// `items` laid out by `order`: place `k` holds the item at index `order[k]`.
pub open spec fn arranged<T>(items: Seq<T>, order: Seq<usize>) -> Seq<T> {
    Seq::new(order.len(), |k: int| items[order[k] as int])
}

proof fn lemma_arranged_with_index<T>(keys: Seq<u64>, items: Seq<T>, order: Seq<usize>, i: usize)
    ensures
        arranged(items, with_index(keys, order, i)).to_multiset() == arranged(
            items,
            order,
        ).to_multiset().insert(items[i as int]),
    decreases order.len(),
{
    if order.len() > 0 && keys[order.last() as int] < keys[i as int] {
        let front = order.drop_last();
        let last = order.last();
        let inner = with_index(keys, front, i);
        lemma_arranged_with_index(keys, items, front, i);
        assert(arranged(items, inner.push(last)) =~= arranged(items, inner).push(
            items[last as int],
        ));
        assert(arranged(items, order) =~= arranged(items, front).push(items[last as int]));
        vstd::seq_lib::to_multiset_build(arranged(items, inner), items[last as int]);
        vstd::seq_lib::to_multiset_build(arranged(items, front), items[last as int]);
        assert(arranged(items, front).to_multiset().insert(items[i as int]).insert(
            items[last as int],
        ) =~= arranged(items, front).to_multiset().insert(items[last as int]).insert(
            items[i as int],
        ));
    } else {
        assert(arranged(items, order.push(i)) =~= arranged(items, order).push(items[i as int]));
        vstd::seq_lib::to_multiset_build(arranged(items, order), items[i as int]);
    }
}

proof fn lemma_arranged_upto<T>(keys: Seq<u64>, items: Seq<T>, n: nat)
    requires
        n <= items.len(),
        n <= usize::MAX,
    ensures
        arranged(items, ranking_upto(keys, n)).to_multiset() == items.take(n as int).to_multiset(),
    decreases n,
{
    if n == 0 {
        assert(arranged(items, ranking_upto(keys, n)) =~= items.take(0));
    } else {
        let before = (n - 1) as nat;
        lemma_arranged_upto(keys, items, before);
        lemma_arranged_with_index(keys, items, ranking_upto(keys, before), before as usize);
        assert(items.take(n as int) =~= items.take(before as int).push(items[before as int]));
        vstd::seq_lib::to_multiset_build(items.take(before as int), items[before as int]);
    }
}

/// Laying items out by the ranking of their keys moves them and does no
/// more: what comes out holds each item as often as what went in.
pub proof fn lemma_ranking_is_permutation<T>(keys: Seq<u64>, items: Seq<T>)
    requires
        keys.len() == items.len(),
        keys.len() <= usize::MAX,
    ensures
        arranged(items, descending_order_of(keys)).to_multiset() == items.to_multiset(),
{
    lemma_descending_order_exists(keys);
    lemma_ranking_upto(keys, keys.len());
    lemma_descending_order_unique(
        keys,
        descending_order_of(keys),
        ranking_upto(keys, keys.len()),
    );
    lemma_arranged_upto(keys, items, items.len());
    assert(items.take(items.len() as int) =~= items);
}

/// Ranks the indices of `keys` by key, largest first; equal keys keep their
/// given order.
pub fn descending_order(keys: &Vec<u64>) -> (order: Vec<usize>)
    ensures
        is_descending_order(keys@, order@),
        order@ == descending_order_of(keys@),
{
    let mut order: Vec<usize> = Vec::new();
    let mut i: usize = 0;
    while i < keys.len()
        invariant
            i <= keys.len(),
            order.len() == i,
            forall|k: int| 0 <= k < i ==> (#[trigger] order[k]) < i,
            forall|a: int, b: int|
                0 <= a < b < i ==> precedes(
                    keys@,
                    #[trigger] order[a] as int,
                    #[trigger] order[b] as int,
                ),
            forall|j: usize| j < i ==> #[trigger] order@.contains(j),
        decreases keys.len() - i,
    {
        let key: u64 = keys[i];
        let mut p: usize = 0;
        while p < order.len() && keys[order[p]] >= key
            invariant
                i < keys.len(),
                order.len() == i,
                p <= order.len(),
                key == keys[i as int],
                forall|k: int| 0 <= k < i ==> (#[trigger] order[k]) < i,
                forall|q: int| 0 <= q < p ==> keys[(#[trigger] order[q]) as int] >= key,
            decreases order.len() - p,
        {
            p += 1;
        }
        let ghost before = order@;
        order.insert(p, i);
        proof {
            let after = order@;
            assert(after == before.insert(p as int, i));
            assert forall|k: int| 0 <= k < i + 1 implies (#[trigger] after[k]) < i + 1 by {
                if k < p {
                    assert(after[k] == before[k]);
                } else if k > p {
                    assert(after[k] == before[k - 1]);
                }
            }
            assert forall|a: int, b: int| 0 <= a < b < i + 1 implies precedes(
                keys@,
                #[trigger] after[a] as int,
                #[trigger] after[b] as int,
            ) by {
                if b < p {
                    assert(after[a] == before[a] && after[b] == before[b]);
                } else if b == p {
                    assert(after[a] == before[a]);
                } else if a == p {
                    assert(after[b] == before[b - 1]);
                    if b - 1 > p {
                        assert(precedes(keys@, before[p as int] as int, before[b - 1] as int));
                    }
                } else if a < p {
                    assert(after[a] == before[a] && after[b] == before[b - 1]);
                } else {
                    assert(after[a] == before[a - 1] && after[b] == before[b - 1]);
                }
            }
            assert forall|j: usize| j < i + 1 implies #[trigger] after.contains(j) by {
                if j == i {
                    assert(after[p as int] == i);
                } else {
                    assert(before.contains(j));
                    let m = choose|m: int| 0 <= m < before.len() && before[m] == j;
                    if m < p {
                        assert(after[m] == j);
                    } else {
                        assert(after[m + 1] == j);
                    }
                }
            }
        }
        i += 1;
    }
    proof {
        assert(is_descending_order(keys@, order@));
        lemma_descending_order_unique(keys@, order@, descending_order_of(keys@));
    }
    order
}

} // verus!
