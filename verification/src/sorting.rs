//! Lists in order.

use vstd::prelude::*;

verus! {

/// A list in order with one more item, behind those that it does not precede.
pub open spec fn inserted<T>(list: Seq<T>, item: T, precedes: spec_fn(T, T) -> bool) -> Seq<T>
    decreases list.len(),
{
    if list.len() > 0 && precedes(item, list.last()) {
        inserted(list.drop_last(), item, precedes).push(list.last())
    } else {
        list.push(item)
    }
}

/// The items of a list in order; those of which neither precedes the other stay
/// as they were.
pub open spec fn sorted<T>(list: Seq<T>, precedes: spec_fn(T, T) -> bool) -> Seq<T>
    decreases list.len(),
{
    if list.len() == 0 {
        list
    } else {
        inserted(sorted(list.drop_last(), precedes), list.last(), precedes)
    }
}

/// Whether items can be put in order by a relation.
pub open spec fn orders<T>(precedes: spec_fn(T, T) -> bool) -> bool {
    &&& forall|a: T| !#[trigger] precedes(a, a)
    &&& forall|a: T, b: T, c: T| #[trigger]
        precedes(a, b) && #[trigger] precedes(b, c) ==> precedes(a, c)
    &&& forall|a: T, b: T, c: T|
        !#[trigger] precedes(a, b) && !#[trigger] precedes(b, c) ==> !precedes(a, c)
}

/// Whether no item of a list precedes an earlier one.
pub open spec fn in_order<T>(list: Seq<T>, precedes: spec_fn(T, T) -> bool) -> bool {
    forall|i: int, j: int|
        #![trigger list[i], list[j]]
        0 <= i < j < list.len() ==> !precedes(list[j], list[i])
}

/// The position at which an item is inserted is the first from which on it
/// precedes all others.
pub proof fn lemma_inserted_at<T>(
    list: Seq<T>,
    item: T,
    precedes: spec_fn(T, T) -> bool,
    i: int,
)
    requires
        0 <= i <= list.len(),
        forall|k: int| i <= k < list.len() ==> precedes(item, #[trigger] list[k]),
        i > 0 ==> !precedes(item, list[i - 1]),
    ensures
        inserted(list, item, precedes) == list.insert(i, item),
    decreases list.len(),
{
    if i < list.len() {
        let front = list.drop_last();
        assert(precedes(item, list[list.len() - 1]));
        assert forall|k: int| i <= k < front.len() implies precedes(item, #[trigger] front[k]) by {
            assert(front[k] == list[k]);
        }
        lemma_inserted_at(front, item, precedes, i);
        assert(list.insert(i, item) =~= front.insert(i, item).push(list.last()));
    } else {
        assert(list.insert(i, item) =~= list.push(item));
        if list.len() > 0 {
            assert(!precedes(item, list.last()));
        }
    }
}

proof fn lemma_inserted<T>(list: Seq<T>, item: T, precedes: spec_fn(T, T) -> bool)
    requires
        orders(precedes),
        in_order(list, precedes),
    ensures
        in_order(inserted(list, item, precedes), precedes),
        inserted(list, item, precedes).to_multiset() == list.to_multiset().insert(item),
        forall|x: T|
            #[trigger] inserted(list, item, precedes).contains(x) ==> x == item || list.contains(x),
    decreases list.len(),
{
    broadcast use vstd::seq_lib::group_to_multiset_ensures;

    let r = inserted(list, item, precedes);
    if list.len() > 0 && precedes(item, list.last()) {
        let front = list.drop_last();
        let last = list.last();
        assert(in_order(front, precedes)) by {
            assert forall|i: int, j: int|
                #![trigger front[i], front[j]]
                0 <= i < j < front.len() implies !precedes(front[j], front[i]) by {
                assert(!precedes(list[j], list[i]));
            }
        }
        lemma_inserted(front, item, precedes);
        let f = inserted(front, item, precedes);
        assert(list =~= front.push(last));
        assert(r == f.push(last));
        assert forall|i: int, j: int|
                #![trigger r[i], r[j]]
                0 <= i < j < r.len() implies !precedes(r[j], r[i]) by {
            if j < f.len() {
                assert(!precedes(f[j], f[i]));
            } else {
                assert(inserted(front, item, precedes).contains(f[i]));
                if f[i] == item {
                    if precedes(last, item) {
                        assert(precedes(last, last));
                    }
                } else {
                    let k = choose|k: int| 0 <= k < front.len() && front[k] == f[i];
                    assert(list[k] == f[i]);
                    assert(!precedes(list[list.len() - 1], list[k]));
                }
            }
        }
        assert forall|x: T| r.contains(x) implies x == item || list.contains(x) by {
            let i = choose|i: int| 0 <= i < r.len() && r[i] == x;
            if i < f.len() {
                assert(f.contains(x));
                if x != item {
                    let k = choose|k: int| 0 <= k < front.len() && front[k] == x;
                    assert(list[k] == x);
                }
            } else {
                assert(list[list.len() - 1] == x);
            }
        }
        assert(r.to_multiset() =~= list.to_multiset().insert(item));
    } else {
        assert forall|i: int, j: int|
                #![trigger r[i], r[j]]
                0 <= i < j < r.len() implies !precedes(r[j], r[i]) by {
            if j < list.len() {
                assert(!precedes(list[j], list[i]));
            } else if i < list.len() - 1 {
                assert(!precedes(list[list.len() - 1], list[i]));
                assert(!precedes(item, list.last()));
            }
        }
        assert forall|x: T| r.contains(x) implies x == item || list.contains(x) by {
            let i = choose|i: int| 0 <= i < r.len() && r[i] == x;
            if i < list.len() {
                assert(list[i] == x);
            }
        }
    }
}

/// Sorting puts the items of a list in order, and neither adds nor loses any.
pub proof fn law_sorting_orders<T>(list: Seq<T>, precedes: spec_fn(T, T) -> bool)
    requires
        orders(precedes),
    ensures
        in_order(sorted(list, precedes), precedes),
        sorted(list, precedes).to_multiset() == list.to_multiset(),
    decreases list.len(),
{
    broadcast use vstd::seq_lib::group_to_multiset_ensures;

    if list.len() > 0 {
        law_sorting_orders(list.drop_last(), precedes);
        lemma_inserted(sorted(list.drop_last(), precedes), list.last(), precedes);
        assert(list =~= list.drop_last().push(list.last()));
    }
}

} // verus!
