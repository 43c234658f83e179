//! Sorting by scalar keys.
use vstd::prelude::*;

use crate::scalar::Scalar;

verus! {

/// What an item is sorted by: `first`, and among equals `next` where both have one.
#[derive(Debug, PartialEq)]
pub struct SortKey<S> {
    pub first: S,
    pub next: Option<S>,
}

impl<S: Scalar> Clone for SortKey<S> {
    fn clone(&self) -> (r: Self)
        ensures
            r == *self,
    {
        *self
    }
}

impl<S: Scalar> Copy for SortKey<S> {

}

impl<S: Scalar> SortKey<S> {
    /// Whether `self` sorts strictly before `other`.
    pub open spec fn spec_before(self, other: SortKey<S>) -> bool {
        self.first.spec_lt(other.first) || match (self.next, other.next) {
            (Some(a), Some(b)) => self.first.spec_same(other.first) && a.spec_lt(b),
            _ => false,
        }
    }

    /// Whether `self` sorts strictly before `other`.
    pub fn is_before(self, other: SortKey<S>) -> (r: bool)
        ensures
            r == self.spec_before(other),
    {
        if self.first.is_lt(other.first) {
            return true;
        }
        match (self.next, other.next) {
            (Some(a), Some(b)) => self.first.is_same(other.first) && a.is_lt(b),
            _ => false,
        }
    }
}

/// `order` with `x` put in behind every item that it does not sort before.
pub open spec fn inserted<S: Scalar>(order: Seq<usize>, keys: Seq<SortKey<S>>, x: usize) -> Seq<
    usize,
>
    decreases order.len(),
{
    if order.len() > 0 && keys[x as int].spec_before(keys[order.last() as int]) {
        inserted(order.drop_last(), keys, x).push(order.last())
    } else {
        order.push(x)
    }
}

/// `items` sorted by their keys, equal ones in the order they came in.
pub open spec fn stable_sorted<S: Scalar>(items: Seq<usize>, keys: Seq<SortKey<S>>) -> Seq<usize>
    decreases items.len(),
{
    if items.len() == 0 {
        items
    } else {
        inserted(stable_sorted(items.drop_last(), keys), keys, items.last())
    }
}

proof fn lemma_inserted<S: Scalar>(order: Seq<usize>, keys: Seq<SortKey<S>>, x: usize)
    ensures
        inserted(order, keys, x).len() == order.len() + 1,
        inserted(order, keys, x).to_multiset() == order.to_multiset().insert(x),
    decreases order.len(),
{
    broadcast use vstd::seq_lib::group_to_multiset_ensures;

    if order.len() > 0 && keys[x as int].spec_before(keys[order.last() as int]) {
        lemma_inserted(order.drop_last(), keys, x);
        assert(order =~= order.drop_last().push(order.last()));
        assert(inserted(order, keys, x).to_multiset() =~= order.to_multiset().insert(x));
    }
}

/// Sorting keeps the items.
pub proof fn lemma_sorted_keeps_items<S: Scalar>(items: Seq<usize>, keys: Seq<SortKey<S>>)
    ensures
        stable_sorted(items, keys).len() == items.len(),
        stable_sorted(items, keys).to_multiset() == items.to_multiset(),
    decreases items.len(),
{
    broadcast use vstd::seq_lib::group_to_multiset_ensures;

    if items.len() > 0 {
        lemma_sorted_keeps_items(items.drop_last(), keys);
        lemma_inserted(stable_sorted(items.drop_last(), keys), keys, items.last());
        assert(items =~= items.drop_last().push(items.last()));
    }
}

/// What the sorted items have, the items had.
pub proof fn lemma_sorted_members<S: Scalar>(items: Seq<usize>, keys: Seq<SortKey<S>>, n: int)
    requires
        forall|i: int| 0 <= i < items.len() ==> #[trigger] items[i] < n,
    ensures
        stable_sorted(items, keys).len() == items.len(),
        forall|i: int| 0 <= i < items.len() ==> #[trigger] stable_sorted(items, keys)[i] < n,
{
    broadcast use vstd::seq_lib::group_to_multiset_ensures;

    lemma_sorted_keeps_items(items, keys);
    let s = stable_sorted(items, keys);
    assert forall|i: int| 0 <= i < items.len() implies #[trigger] s[i] < n by {
        assert(s.contains(s[i]));
        assert(s.to_multiset().count(s[i]) > 0);
        assert(items.to_multiset().count(s[i]) > 0);
        assert(items.contains(s[i]));
        let k = choose|k: int| 0 <= k < items.len() && items[k] == s[i];
        assert(items[k] < n);
    }
}

/// `items` sorted by their keys, equal ones in the order they came in.
pub fn sort_stable<S: Scalar>(items: &Vec<usize>, keys: &Vec<SortKey<S>>) -> (r: Vec<usize>)
    requires
        forall|i: int| 0 <= i < items@.len() ==> #[trigger] items@[i] < keys@.len(),
    ensures
        r@ == stable_sorted(items@, keys@),
        r@.len() == items@.len(),
        forall|i: int| 0 <= i < r@.len() ==> #[trigger] r@[i] < keys@.len(),
{
    let mut r: Vec<usize> = Vec::new();
    let mut k: usize = 0;
    assert(items@.take(0) =~= Seq::empty());
    while k < items.len()
        invariant
            k <= items.len(),
            r@ == stable_sorted(items@.take(k as int), keys@),
            r@.len() == k,
            forall|i: int| 0 <= i < items@.len() ==> #[trigger] items@[i] < keys@.len(),
        decreases items.len() - k,
    {
        let x = items[k];
        let ghost done = r@;
        proof {
            assert(items@.take(k + 1).drop_last() =~= items@.take(k as int));
            lemma_sorted_members(items@.take(k as int), keys@, keys@.len() as int);
            lemma_inserted(done, keys@, x);
        }
        let mut at: usize = k;
        assert(done.take(k as int) =~= done);
        assert(done.skip(k as int) =~= Seq::<usize>::empty());
        assert(inserted(done, keys@, x) =~= inserted(done.take(k as int), keys@, x) + done.skip(
            k as int,
        ));
        while at > 0 && keys[x].is_before(keys[r[at - 1]])
            invariant
                at <= k,
                r@ == done,
                done.len() == k,
                x < keys@.len(),
                forall|i: int| 0 <= i < done.len() ==> #[trigger] done[i] < keys@.len(),
                inserted(done, keys@, x) == inserted(done.take(at as int), keys@, x) + done.skip(
                    at as int,
                ),
            decreases at,
        {
            proof {
                let t = done.take(at as int);
                assert(t.last() == done[at - 1]);
                assert(t.drop_last() =~= done.take(at - 1));
                assert(inserted(t, keys@, x) == inserted(t.drop_last(), keys@, x).push(t.last()));
                assert(inserted(done.take(at - 1), keys@, x).push(done[at - 1]) + done.skip(
                    at as int,
                ) =~= inserted(done.take(at - 1), keys@, x) + done.skip(at - 1));
            }
            at -= 1;
        }
        proof {
            let t = done.take(at as int);
            if at > 0 {
                assert(t.last() == done[at - 1]);
            }
            assert(inserted(t, keys@, x) == t.push(x));
            assert(done.insert(at as int, x) =~= t.push(x) + done.skip(at as int));
        }
        r.insert(at, x);
        k += 1;
    }
    proof {
        assert(items@.take(k as int) =~= items@);
        lemma_sorted_members(items@, keys@, keys@.len() as int);
    }
    r
}

/// Whether the keys of some items can be told apart as a sort needs: of two, at most one sorts
/// before the other, and not sorting after carries over.
pub open spec fn well_ordered<S: Scalar>(keys: Seq<SortKey<S>>) -> bool {
    &&& forall|a: int, b: int|
        0 <= a < keys.len() && 0 <= b < keys.len() ==> !(#[trigger] keys[a].spec_before(keys[b])
            && keys[b].spec_before(keys[a]))
    &&& forall|a: int, b: int, c: int|
        0 <= a < keys.len() && 0 <= b < keys.len() && 0 <= c < keys.len()
            && !(#[trigger] keys[b].spec_before(keys[a])) && !(#[trigger] keys[c].spec_before(
            keys[b],
        )) ==> !keys[c].spec_before(keys[a])
}

/// Whether no item sorts before an earlier one.
pub open spec fn is_sorted<S: Scalar>(order: Seq<usize>, keys: Seq<SortKey<S>>) -> bool {
    forall|i: int, j: int|
        0 <= i < j < order.len() ==> !(#[trigger] keys[order[j] as int].spec_before(
            keys[#[trigger] order[i] as int],
        ))
}

/// Sorting sorts, and loses and adds nothing.
pub proof fn law_sorting_sorts<S: Scalar>(items: Seq<usize>, keys: Seq<SortKey<S>>)
    requires
        well_ordered(keys),
        forall|i: int| 0 <= i < items.len() ==> #[trigger] items[i] < keys.len(),
    ensures
        is_sorted(stable_sorted(items, keys), keys),
        stable_sorted(items, keys).to_multiset() == items.to_multiset(),
    decreases items.len(),
{
    lemma_sorted_keeps_items(items, keys);
    if items.len() > 0 {
        law_sorting_sorts(items.drop_last(), keys);
        lemma_sorted_members(items.drop_last(), keys, keys.len() as int);
        lemma_inserted_sorted(stable_sorted(items.drop_last(), keys), keys, items.last());
    }
}

proof fn lemma_inserted_sorted<S: Scalar>(order: Seq<usize>, keys: Seq<SortKey<S>>, x: usize)
    requires
        well_ordered(keys),
        x < keys.len(),
        forall|i: int| 0 <= i < order.len() ==> #[trigger] order[i] < keys.len(),
        is_sorted(order, keys),
    ensures
        is_sorted(inserted(order, keys, x), keys),
        forall|y: int|
            0 <= y < keys.len() && !keys[y].spec_before(keys[x as int]) && (forall|i: int|
                0 <= i < order.len() ==> !keys[y].spec_before(keys[#[trigger] order[i] as int]))
                ==> (forall|i: int|
                0 <= i <= order.len() ==> !(#[trigger] keys[y].spec_before(
                    keys[inserted(order, keys, x)[i] as int],
                ))),
    decreases order.len(),
{
    let r = inserted(order, keys, x);
    lemma_inserted(order, keys, x);
    if order.len() > 0 && keys[x as int].spec_before(keys[order.last() as int]) {
        let t = order.drop_last();
        let last = order.last();
        assert(is_sorted(t, keys)) by {
            assert forall|i: int, j: int| 0 <= i < j < t.len() implies !(#[trigger] keys[t[j] as int].spec_before(
                keys[#[trigger] t[i] as int],
            )) by {
                assert(t[j] == order[j] && t[i] == order[i]);
            }
        }
        lemma_inserted_sorted(t, keys, x);
        lemma_inserted(t, keys, x);
        let q = inserted(t, keys, x);
        assert(!keys[last as int].spec_before(keys[x as int]));
        assert forall|i: int| 0 <= i < t.len() implies !keys[last as int].spec_before(
            keys[#[trigger] t[i] as int],
        ) by {
            assert(order[i] == t[i] && order[order.len() - 1] == last);
        }
        assert forall|i: int, j: int| 0 <= i < j < r.len() implies !(#[trigger] keys[r[j] as int].spec_before(
            keys[#[trigger] r[i] as int],
        )) by {
            assert(r == q.push(last));
            if j < q.len() {
                assert(r[j] == q[j] && r[i] == q[i]);
            } else {
                assert(r[j] == last && r[i] == q[i]);
                assert(!keys[last as int].spec_before(keys[q[i] as int]));
            }
        }
        assert forall|y: int|
            0 <= y < keys.len() && !keys[y].spec_before(keys[x as int]) && (forall|i: int|
                0 <= i < order.len() ==> !keys[y].spec_before(keys[#[trigger] order[i] as int]))
            implies (forall|i: int|
            0 <= i <= order.len() ==> !(#[trigger] keys[y].spec_before(keys[r[i] as int]))) by {
            assert forall|i: int| 0 <= i < t.len() implies !keys[y].spec_before(
                keys[#[trigger] t[i] as int],
            ) by {
                assert(order[i] == t[i]);
            }
            assert forall|i: int| 0 <= i <= order.len() implies !(#[trigger] keys[y].spec_before(
                keys[r[i] as int],
            )) by {
                if i < q.len() {
                    assert(r[i] == q[i]);
                    assert(!keys[y].spec_before(keys[q[i] as int]));
                } else {
                    assert(order[order.len() - 1] == last);
                }
            }
        }
    } else {
        assert(r == order.push(x));
        assert forall|i: int, j: int| 0 <= i < j < r.len() implies !(#[trigger] keys[r[j] as int].spec_before(
            keys[#[trigger] r[i] as int],
        )) by {
            if j < order.len() {
                assert(r[j] == order[j] && r[i] == order[i]);
            } else {
                let l = order.last();
                assert(!keys[x as int].spec_before(keys[l as int]));
                if i < order.len() - 1 {
                    assert(!keys[order[order.len() - 1] as int].spec_before(
                        keys[order[i] as int],
                    ));
                    assert(!keys[x as int].spec_before(keys[order[i] as int]));
                }
            }
        }
        assert forall|y: int|
            0 <= y < keys.len() && !keys[y].spec_before(keys[x as int]) && (forall|i: int|
                0 <= i < order.len() ==> !keys[y].spec_before(keys[#[trigger] order[i] as int]))
            implies (forall|i: int|
            0 <= i <= order.len() ==> !(#[trigger] keys[y].spec_before(keys[r[i] as int]))) by {
            assert forall|i: int| 0 <= i <= order.len() implies !(#[trigger] keys[y].spec_before(
                keys[r[i] as int],
            )) by {
                if i < order.len() {
                    assert(r[i] == order[i]);
                }
            }
        }
    }
}

} // verus!
