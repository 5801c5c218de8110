//! Stable sorting.

use crate::model::views;
use vstd::prelude::*;
use vstd::seq_lib::*;

verus! {

/// Values that have an order among them.
pub trait Ranked: View + Sized {
    /// The first of the two has to come before the second.
    spec fn before(a: Self::V, b: Self::V) -> bool;

    /// Whether `self` has to come before `other`.
    fn comes_before(&self, other: &Self) -> (r: bool)
        ensures
            r == Self::before(self@, other@),
    ;

    /// What need not come before something need not come before what that need not
    /// come before.
    proof fn lemma_chain(a: Self::V, b: Self::V, c: Self::V)
        requires
            !Self::before(b, a),
            !Self::before(c, b),
        ensures
            !Self::before(c, a),
    ;

    /// Of two values at most one has to come before the other.
    proof fn lemma_one_way(a: Self::V, b: Self::V)
        ensures
            !(Self::before(a, b) && Self::before(b, a)),
    ;
}

/// The sorted items with one more, behind all that it need not precede.
pub open spec fn placed<T: Ranked>(sorted: Seq<T::V>, item: T::V) -> Seq<T::V>
    decreases sorted.len(),
{
    if sorted.len() > 0 && T::before(item, sorted.last()) {
        placed::<T>(sorted.drop_last(), item).push(sorted.last())
    } else {
        sorted.push(item)
    }
}

/// The items in order; those of which neither has to come first stay as they were.
pub open spec fn ordered<T: Ranked>(items: Seq<T::V>) -> Seq<T::V>
    decreases items.len(),
{
    if items.len() == 0 {
        Seq::empty()
    } else {
        placed::<T>(ordered::<T>(items.drop_last()), items.last())
    }
}

fn place<T: Ranked>(sorted: &mut Vec<T>, item: T)
    ensures
        views(final(sorted)@) == placed::<T>(views(old(sorted)@), item@),
{
    let ghost start = views(sorted@);
    let mut at: usize = sorted.len();
    assert(start.take(start.len() as int) =~= start);
    while at > 0 && item.comes_before(&sorted[at - 1])
        invariant
            at <= sorted@.len(),
            start == views(sorted@),
            placed::<T>(start, item@) == placed::<T>(start.take(at as int), item@) + start.skip(
                at as int,
            ),
        decreases at,
    {
        let ghost head = start.take(at as int);
        assert(head.last() == sorted@[at - 1]@);
        assert(head.drop_last() =~= start.take(at - 1));
        assert(placed::<T>(start.take(at - 1), item@).push(head.last()) + start.skip(at as int)
            =~= placed::<T>(start.take(at - 1), item@) + start.skip(at - 1));
        at -= 1;
    }
    proof {
        let head = start.take(at as int);
        assert(placed::<T>(head, item@) == head.push(item@));
    }
    let ghost added = item@;
    sorted.insert(at, item);
    assert(views(sorted@) =~= start.take(at as int).push(added) + start.skip(at as int));
}

/// The items in order; those of which neither has to come first stay as they were.
pub fn sort<T: Ranked>(items: Vec<T>) -> (r: Vec<T>)
    ensures
        views(r@) == ordered::<T>(views(items@)),
{
    let ghost all = views(items@);
    let ghost start = items@;
    let mut sorted: Vec<T> = Vec::new();
    assert(views(sorted@) =~= ordered::<T>(all.take(0)));
    for item in it: items
        invariant
            it.seq() == start,
            all == views(start),
            views(sorted@) == ordered::<T>(all.take(it.index() as int)),
    {
        let ghost i = it.index() as int;
        assert(all.take(i + 1).drop_last() =~= all.take(i));
        assert(all.take(i + 1).last() == item@);
        place(&mut sorted, item);
    }
    assert(all.take(all.len() as int) =~= all);
    sorted
}

/// No item has to come before an earlier one.
pub open spec fn in_order<T: Ranked>(items: Seq<T::V>) -> bool {
    forall|i: int, j: int|
        0 <= i < j < items.len() ==> !T::before(#[trigger] items[j], #[trigger] items[i])
}

proof fn lemma_placed<T: Ranked>(sorted: Seq<T::V>, item: T::V)
    requires
        in_order::<T>(sorted),
    ensures
        in_order::<T>(placed::<T>(sorted, item)),
        placed::<T>(sorted, item).to_multiset() == sorted.to_multiset().insert(item),
        placed::<T>(sorted, item).len() == sorted.len() + 1,
    decreases sorted.len(),
{
    broadcast use group_to_multiset_ensures;

    let result = placed::<T>(sorted, item);
    if sorted.len() > 0 && T::before(item, sorted.last()) {
        let rest = sorted.drop_last();
        let head = placed::<T>(rest, item);
        let last = sorted.last();
        assert(in_order::<T>(rest)) by {
            assert forall|i: int, j: int| 0 <= i < j < rest.len() implies !T::before(
                #[trigger] rest[j],
                #[trigger] rest[i],
            ) by {
                assert(!T::before(sorted[j], sorted[i]));
            }
        }
        lemma_placed::<T>(rest, item);
        assert(sorted =~= rest.push(last));
        assert(result.to_multiset() == head.to_multiset().insert(last));
        assert(sorted.to_multiset() == rest.to_multiset().insert(last));
        assert(result.to_multiset() =~= sorted.to_multiset().insert(item));
        assert forall|i: int, j: int| 0 <= i < j < result.len() implies !T::before(
            #[trigger] result[j],
            #[trigger] result[i],
        ) by {
            if j < head.len() {
                assert(!T::before(head[j], head[i]));
            } else {
                assert(head.to_multiset().contains(head[i]));
                assert(rest.to_multiset().insert(item).contains(head[i]));
                if head[i] == item {
                    T::lemma_one_way(item, last);
                } else {
                    assert(rest.to_multiset().contains(head[i]));
                    assert(rest.contains(head[i]));
                    let k = choose|k: int| 0 <= k < rest.len() && rest[k] == head[i];
                    assert(!T::before(sorted[sorted.len() - 1], sorted[k]));
                }
            }
        }
    } else {
        assert forall|i: int, j: int| 0 <= i < j < result.len() implies !T::before(
            #[trigger] result[j],
            #[trigger] result[i],
        ) by {
            if j < sorted.len() {
                assert(!T::before(sorted[j], sorted[i]));
            } else if i < sorted.len() - 1 {
                assert(!T::before(sorted[sorted.len() - 1], sorted[i]));
                T::lemma_chain(sorted[i], sorted.last(), item);
            }
        }
    }
}

/// The items in order are the same items, each as often, and none of them has to
/// come before an earlier one.
pub proof fn law_ordered<T: Ranked>(items: Seq<T::V>)
    ensures
        in_order::<T>(ordered::<T>(items)),
        ordered::<T>(items).to_multiset() == items.to_multiset(),
        ordered::<T>(items).len() == items.len(),
    decreases items.len(),
{
    broadcast use group_to_multiset_ensures;

    if items.len() > 0 {
        law_ordered::<T>(items.drop_last());
        lemma_placed::<T>(ordered::<T>(items.drop_last()), items.last());
        assert(items =~= items.drop_last().push(items.last()));
    }
}

/// Neither of the two has to come before the other.
pub open spec fn alike<T: Ranked>(a: T::V, b: T::V) -> bool {
    !T::before(a, b) && !T::before(b, a)
}

/// The items of which neither they nor the given one has to come first, as they stand.
pub open spec fn those_like<T: Ranked>(items: Seq<T::V>, item: T::V) -> Seq<T::V>
    decreases items.len(),
{
    if items.len() == 0 {
        Seq::empty()
    } else if alike::<T>(items.last(), item) {
        those_like::<T>(items.drop_last(), item).push(items.last())
    } else {
        those_like::<T>(items.drop_last(), item)
    }
}

proof fn lemma_placed_keeps_places<T: Ranked>(sorted: Seq<T::V>, added: T::V, item: T::V)
    ensures
        those_like::<T>(placed::<T>(sorted, added), item) == those_like::<T>(
            sorted.push(added),
            item,
        ),
    decreases sorted.len(),
{
    assert(sorted.push(added).drop_last() =~= sorted);
    if sorted.len() > 0 && T::before(added, sorted.last()) {
        let rest = sorted.drop_last();
        let last = sorted.last();
        let head = placed::<T>(rest, added);
        lemma_placed_keeps_places::<T>(rest, added, item);
        let whole = head.push(last);
        assert(whole.drop_last() =~= head && whole.last() == last);
        assert(rest.push(added).drop_last() =~= rest);
        assert(those_like::<T>(sorted, item) == if alike::<T>(last, item) {
            those_like::<T>(rest, item).push(last)
        } else {
            those_like::<T>(rest, item)
        });
        assert(those_like::<T>(rest.push(added), item) == if alike::<T>(added, item) {
            those_like::<T>(rest, item).push(added)
        } else {
            those_like::<T>(rest, item)
        });
        assert(those_like::<T>(whole, item) == if alike::<T>(last, item) {
            those_like::<T>(head, item).push(last)
        } else {
            those_like::<T>(head, item)
        });
        if alike::<T>(last, item) && alike::<T>(added, item) {
            T::lemma_chain(last, item, added);
        }
    }
}

/// Sorting is stable: items of which none has to come before another stay in the order
/// in which they stood.
pub proof fn law_sorting_is_stable<T: Ranked>(items: Seq<T::V>, item: T::V)
    ensures
        those_like::<T>(ordered::<T>(items), item) == those_like::<T>(items, item),
    decreases items.len(),
{
    if items.len() > 0 {
        let before = ordered::<T>(items.drop_last());
        law_sorting_is_stable::<T>(items.drop_last(), item);
        lemma_placed_keeps_places::<T>(before, items.last(), item);
        assert(before.push(items.last()).drop_last() =~= before);
    }
}

} // verus!
