//! The order of texts, and lists kept in it.

use crate::assoc::{at, has_entry, keyed, lemma_at, lemma_at_is, lookup};
use crate::text::{chars_of, same_text};
use vstd::prelude::*;

verus! {

/// Whether `a` comes before `b`: at the first difference by code point, and a
/// proper prefix first.
pub open spec fn before(a: Seq<char>, b: Seq<char>) -> bool
    decreases a.len(),
{
    if b.len() == 0 {
        false
    } else if a.len() == 0 {
        true
    } else if a[0] != b[0] {
        a[0] < b[0]
    } else {
        before(a.skip(1), b.skip(1))
    }
}

pub proof fn lemma_before_irreflexive(a: Seq<char>)
    ensures
        !before(a, a),
    decreases a.len(),
{
    if a.len() > 0 {
        lemma_before_irreflexive(a.skip(1));
    }
}

pub proof fn lemma_before_total(a: Seq<char>, b: Seq<char>)
    ensures
        before(a, b) || before(b, a) || a == b,
    decreases a.len(),
{
    if a.len() > 0 && b.len() > 0 && a[0] == b[0] {
        lemma_before_total(a.skip(1), b.skip(1));
        if a.skip(1) == b.skip(1) {
            assert(a =~= seq![a[0]] + a.skip(1));
            assert(b =~= seq![b[0]] + b.skip(1));
        }
    } else if a.len() == 0 && b.len() == 0 {
        assert(a =~= b);
    }
}

pub proof fn lemma_before_transitive(a: Seq<char>, b: Seq<char>, c: Seq<char>)
    requires
        before(a, b),
        before(b, c),
    ensures
        before(a, c),
    decreases a.len(),
{
    if a.len() > 0 && a[0] == b[0] && b[0] == c[0] {
        lemma_before_transitive(a.skip(1), b.skip(1), c.skip(1));
    }
}

/// Whether `a` comes before `b`.
pub fn chars_before(a: &[char], b: &[char]) -> (r: bool)
    ensures
        r == before(a@, b@),
{
    let mut i: usize = 0;
    assert(a@.skip(0) =~= a@);
    assert(b@.skip(0) =~= b@);
    loop
        invariant
            i <= a@.len(),
            i <= b@.len(),
            before(a@, b@) == before(a@.skip(i as int), b@.skip(i as int)),
        decreases a@.len() - i,
    {
        if i == b.len() {
            return false;
        }
        if i == a.len() {
            return true;
        }
        if a[i] != b[i] {
            return a[i] < b[i];
        }
        assert(a@.skip(i as int).skip(1) =~= a@.skip(i + 1));
        assert(b@.skip(i as int).skip(1) =~= b@.skip(i + 1));
        i += 1;
    }
}

/// Whether the text `a` comes before the text `b`.
pub fn text_before(a: &str, b: &str) -> (r: bool)
    ensures
        r == before(a@, b@),
{
    let x = chars_of(a);
    let y = chars_of(b);
    chars_before(&x, &y)
}

/// Whether the keys of `list` stand in order and none occurs twice.
pub open spec fn ordered<V>(list: Seq<(Seq<char>, V)>) -> bool {
    forall|i: int, j: int|
        0 <= i < j < list.len() ==> before((#[trigger] list[i]).0, (#[trigger] list[j]).0)
}

/// `list` with `value` under `key`, in order; a value that was there before is
/// replaced.
pub open spec fn put<V>(list: Seq<(Seq<char>, V)>, key: Seq<char>, value: V) -> Seq<
    (Seq<char>, V),
>
    decreases list.len(),
{
    if list.len() == 0 {
        seq![(key, value)]
    } else if before(list.last().0, key) {
        list.push((key, value))
    } else if list.last().0 == key {
        list.drop_last().push((key, value))
    } else {
        put(list.drop_last(), key, value).push(list.last())
    }
}

/// Whether some entry of `list` has the given key.
pub open spec fn has_key<V>(list: Seq<(Seq<char>, V)>, key: Seq<char>) -> bool {
    exists|i: int| 0 <= i < list.len() && (#[trigger] list[i]).0 == key
}

/// `list` with `value` under `key`, in order; a value that was there before
/// stays.
pub open spec fn put_new<V>(list: Seq<(Seq<char>, V)>, key: Seq<char>, value: V) -> Seq<
    (Seq<char>, V),
> {
    if has_key(list, key) {
        list
    } else {
        put(list, key, value)
    }
}

/// Where the first `i` keys come before `key` and the others do not, `put`
/// works at position `i`.
pub proof fn lemma_put_at<V>(list: Seq<(Seq<char>, V)>, key: Seq<char>, value: V, i: int)
    requires
        ordered(list),
        0 <= i <= list.len(),
        forall|k: int| 0 <= k < i ==> before((#[trigger] list[k]).0, key),
        i < list.len() ==> !before(list[i].0, key),
    ensures
        put(list, key, value) == if i < list.len() && list[i].0 == key {
            list.update(i, (key, value))
        } else {
            list.insert(i, (key, value))
        },
        ordered(put(list, key, value)),
        has_key(list, key) == (i < list.len() && list[i].0 == key),
    decreases list.len(),
{
    if list.len() > 0 {
        let front = list.drop_last();
        let last = list.last();
        if i == list.len() {
            assert(list.insert(i, (key, value)) =~= list.push((key, value)));
            let p = put(list, key, value);
            assert forall|a: int, b: int| 0 <= a < b < p.len() implies before(
                (#[trigger] p[a]).0,
                (#[trigger] p[b]).0,
            ) by {
                if b < list.len() {
                    assert(before(list[a].0, list[b].0));
                }
            }
            if has_key(list, key) {
                let k = choose|k: int| 0 <= k < list.len() && (#[trigger] list[k]).0 == key;
                lemma_before_irreflexive(key);
            }
        } else {
            assert(list[i].0 == key || before(key, list[i].0)) by {
                lemma_before_total(list[i].0, key);
            }
            if i == list.len() - 1 {
                assert(last == list[i]);
                if last.0 == key {
                    assert(list.drop_last().push((key, value)) =~= list.update(i, (key, value)));
                    let p = put(list, key, value);
                    assert(p =~= list.update(i, (key, value)));
                    assert forall|a: int, b: int| 0 <= a < b < p.len() implies before(
                        (#[trigger] p[a]).0,
                        (#[trigger] p[b]).0,
                    ) by {
                        assert(p[a].0 == list[a].0);
                        assert(p[b].0 == list[b].0);
                    }
                } else {
                    lemma_put_at(front, key, value, i);
                    assert(front.insert(i, (key, value)) =~= front.push((key, value)));
                    let p = put(list, key, value);
                    assert(p =~= list.insert(i, (key, value)));
                    lemma_insert_ordered(list, key, value, i);
                }
            } else {
                assert(front[i] == list[i]);
                assert(before(list[i].0, last.0));
                if list[i].0 != key {
                    lemma_before_transitive(key, list[i].0, last.0);
                }
                if before(last.0, key) {
                    lemma_before_transitive(last.0, key, last.0);
                    lemma_before_irreflexive(last.0);
                }
                if last.0 == key {
                    lemma_before_irreflexive(key);
                }
                lemma_put_at(front, key, value, i);
                let p = put(list, key, value);
                if list[i].0 == key {
                    assert(p =~= list.update(i, (key, value)));
                    assert forall|a: int, b: int| 0 <= a < b < p.len() implies before(
                        (#[trigger] p[a]).0,
                        (#[trigger] p[b]).0,
                    ) by {
                        assert(p[a].0 == list[a].0);
                        assert(p[b].0 == list[b].0);
                    }
                } else {
                    assert(p =~= list.insert(i, (key, value)));
                    lemma_insert_ordered(list, key, value, i);
                }
            }
            if has_key(list, key) {
                let k = choose|k: int| 0 <= k < list.len() && (#[trigger] list[k]).0 == key;
                lemma_before_irreflexive(key);
                if k > i {
                    assert(before(list[i].0, list[k].0));
                    if list[i].0 != key {
                        lemma_before_transitive(key, list[i].0, key);
                    }
                }
            }
        }
    } else {
        assert(put(list, key, value) =~= list.insert(i, (key, value)));
    }
}

proof fn lemma_insert_ordered<V>(list: Seq<(Seq<char>, V)>, key: Seq<char>, value: V, i: int)
    requires
        ordered(list),
        0 <= i < list.len(),
        forall|k: int| 0 <= k < i ==> before((#[trigger] list[k]).0, key),
        before(key, list[i].0),
    ensures
        ordered(list.insert(i, (key, value))),
{
    let p = list.insert(i, (key, value));
    assert forall|a: int, b: int| 0 <= a < b < p.len() implies before(
        (#[trigger] p[a]).0,
        (#[trigger] p[b]).0,
    ) by {
        let la = if a < i { a } else { a - 1 };
        let lb = if b < i { b } else { b - 1 };
        if a == i {
            assert(p[b] == list[lb]);
            if lb > i {
                assert(before(list[i].0, list[lb].0));
                lemma_before_transitive(key, list[i].0, list[lb].0);
            }
        } else if b == i {
            assert(p[a] == list[a]);
        } else {
            assert(p[a] == list[la]);
            assert(p[b] == list[lb]);
            assert(before(list[la].0, list[lb].0));
        }
    }
}

/// Puts a value under a key into an ordered list; a value that was there
/// stays.
pub fn insert_new<T>(list: &mut Vec<(String, T)>, key: String, value: T)
    requires
        ordered(keyed(old(list)@)),
    ensures
        keyed(final(list)@) == put_new(keyed(old(list)@), key@, value),
        ordered(keyed(final(list)@)),
        forall|other: Seq<char>|
            lookup(keyed(final(list)@), other) == if other == key@ && !has_entry(keyed(old(list)@), key@) {
                Some(value)
            } else {
                lookup(keyed(old(list)@), other)
            },
{
    let ghost all = keyed(list@);
    let mut i: usize = 0;
    while i < list.len() && text_before(list[i].0.as_str(), key.as_str())
        invariant
            i <= list@.len(),
            all == keyed(list@),
            forall|k: int| 0 <= k < i ==> before((#[trigger] all[k]).0, key@),
        decreases list@.len() - i,
    {
        assert(all[i as int].0 == list@[i as int].0@);
        i += 1;
    }
    proof {
        lemma_put_at(all, key@, value, i as int);
    }
    proof {
        lemma_at(all, key@);
        assert(has_entry(all, key@) == has_key(all, key@)) by {
            if has_key(all, key@) {
                let k = choose|k: int| 0 <= k < all.len() && (#[trigger] all[k]).0 == key@;
                assert(at(all, key@) <= k);
            }
        }
    }
    if i < list.len() && same_text(list[i].0.as_str(), key.as_str()) {
        return;
    }
    let ghost k = key@;
    list.insert(i, (key, value));
    assert(keyed(list@) =~= all.insert(i as int, (k, value)));
    proof {
        let next = keyed(list@);
        assert forall|other: Seq<char>|
            lookup(next, other) == if other == k {
                Some(value)
            } else {
                lookup(all, other)
            } by {
            lemma_lookup_inserted(all, k, value, i as int, other);
        }
    }
}

proof fn lemma_lookup_inserted<T>(
    list: Seq<(Seq<char>, T)>,
    key: Seq<char>,
    value: T,
    i: int,
    other: Seq<char>,
)
    requires
        0 <= i <= list.len(),
        !has_entry(list, key),
    ensures
        lookup(list.insert(i, (key, value)), other) == if other == key {
            Some(value)
        } else {
            lookup(list, other)
        },
{
    let next = list.insert(i, (key, value));
    lemma_at(list, key);
    lemma_at(list, other);
    let a = at(list, other);
    let n = if other == key {
        i
    } else if a < i {
        a
    } else {
        a + 1
    };
    assert forall|k: int| 0 <= k < n implies (#[trigger] next[k]).0 != other by {
        if k < i {
            assert(next[k] == list[k]);
        } else if k > i {
            assert(next[k] == list[k - 1]);
        }
    }
    lemma_at_is(next, other, n);
}

} // verus!
