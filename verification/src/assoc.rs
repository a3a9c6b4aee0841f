//! A small map with text keys that remembers in which order its keys came.

use crate::text::same_text;
use vstd::prelude::*;

verus! {

/// The entries of a list of named values.
pub open spec fn keyed<T>(list: Seq<(String, T)>) -> Seq<(Seq<char>, T)> {
    Seq::new(list.len(), |i: int| (list[i].0@, list[i].1))
}

/// The position of the first entry with the given key, or the length of the
/// list where there is none.
pub open spec fn at<T>(list: Seq<(Seq<char>, T)>, key: Seq<char>) -> int
    decreases list.len(),
{
    if list.len() == 0 || list[0].0 == key {
        0
    } else {
        1 + at(list.skip(1), key)
    }
}

/// Whether there is an entry with the given key.
pub open spec fn has_entry<T>(list: Seq<(Seq<char>, T)>, key: Seq<char>) -> bool {
    at(list, key) < list.len()
}

/// The value under the given key.
pub open spec fn lookup<T>(list: Seq<(Seq<char>, T)>, key: Seq<char>) -> Option<T> {
    if has_entry(list, key) {
        Some(list[at(list, key)].1)
    } else {
        None
    }
}

/// The list with `value` under `key`: in the place of the value that was there,
/// or at the end.
pub open spec fn assign<T>(list: Seq<(Seq<char>, T)>, key: Seq<char>, value: T) -> Seq<
    (Seq<char>, T),
> {
    if has_entry(list, key) {
        list.update(at(list, key), (key, value))
    } else {
        list.push((key, value))
    }
}

/// The list without the entry under `key`.
pub open spec fn erase<T>(list: Seq<(Seq<char>, T)>, key: Seq<char>) -> Seq<(Seq<char>, T)> {
    if has_entry(list, key) {
        list.remove(at(list, key))
    } else {
        list
    }
}

/// Whether no key occurs twice.
pub open spec fn distinct<T>(list: Seq<(Seq<char>, T)>) -> bool {
    forall|i: int, j: int|
        0 <= i < j < list.len() ==> (#[trigger] list[i]).0 != (#[trigger] list[j]).0
}

pub proof fn lemma_at<T>(list: Seq<(Seq<char>, T)>, key: Seq<char>)
    ensures
        0 <= at(list, key) <= list.len(),
        forall|k: int| 0 <= k < at(list, key) ==> (#[trigger] list[k]).0 != key,
        at(list, key) < list.len() ==> list[at(list, key)].0 == key,
    decreases list.len(),
{
    if list.len() > 0 && list[0].0 != key {
        let rest = list.skip(1);
        lemma_at(rest, key);
        assert forall|k: int| 0 <= k < at(list, key) implies (#[trigger] list[k]).0 != key by {
            if k > 0 {
                assert(rest[k - 1] == list[k]);
            }
        }
    }
}

pub proof fn lemma_at_is<T>(list: Seq<(Seq<char>, T)>, key: Seq<char>, i: int)
    requires
        0 <= i <= list.len(),
        forall|k: int| 0 <= k < i ==> (#[trigger] list[k]).0 != key,
        i < list.len() ==> list[i].0 == key,
    ensures
        at(list, key) == i,
{
    lemma_at(list, key);
    let a = at(list, key);
    if a < i {
        assert(list[a].0 == key);
    } else if i < a {
        assert(list[i].0 == key);
    }
}

/// Lists with the same keys have each key at the same position.
pub proof fn lemma_same_keys<A, B>(
    a: Seq<(Seq<char>, A)>,
    b: Seq<(Seq<char>, B)>,
    key: Seq<char>,
)
    requires
        a.len() == b.len(),
        forall|i: int| 0 <= i < a.len() ==> (#[trigger] a[i]).0 == b[i].0,
    ensures
        at(a, key) == at(b, key),
        has_entry(a, key) == has_entry(b, key),
{
    lemma_at(a, key);
    assert forall|k: int| 0 <= k < at(a, key) implies (#[trigger] b[k]).0 != key by {
        assert(a[k].0 != key);
    }
    lemma_at_is(b, key, at(a, key));
}

/// An assigned value is found under its key, and no other key is affected.
pub proof fn lemma_lookup_assigned<T>(
    list: Seq<(Seq<char>, T)>,
    key: Seq<char>,
    value: T,
    other: Seq<char>,
)
    ensures
        lookup(assign(list, key, value), other) == if other == key {
            Some(value)
        } else {
            lookup(list, other)
        },
{
    let next = assign(list, key, value);
    lemma_at(list, key);
    lemma_at(list, other);
    let i = if other == key {
        at(list, key)
    } else if has_entry(list, other) {
        at(list, other)
    } else {
        next.len() as int
    };
    assert forall|k: int| 0 <= k < i implies (#[trigger] next[k]).0 != other by {
        if k < list.len() {
            assert(list[k].0 == next[k].0 || k == at(list, key));
        }
    }
    lemma_at_is(next, other, i);
}

/// In a list without repeated keys an erased key is gone, and no other key is
/// affected.
pub proof fn lemma_lookup_erased<T>(
    list: Seq<(Seq<char>, T)>,
    key: Seq<char>,
    other: Seq<char>,
)
    requires
        distinct(list),
    ensures
        lookup(erase(list, key), other) == if other == key {
            None
        } else {
            lookup(list, other)
        },
{
    lemma_at(list, key);
    lemma_at(list, other);
    let next = erase(list, key);
    if has_entry(list, key) {
        let a = at(list, key);
        let b = at(list, other);
        let i = if other == key {
            next.len() as int
        } else if b < a {
            b
        } else {
            b - 1
        };
        assert forall|k: int| 0 <= k < i implies (#[trigger] next[k]).0 != other by {
            if k < a {
                assert(next[k] == list[k]);
            } else {
                assert(next[k] == list[k + 1]);
                assert(list[a].0 != list[k + 1].0);
            }
        }
        lemma_at_is(next, other, i);
    }
}

pub proof fn lemma_assign_distinct<T>(list: Seq<(Seq<char>, T)>, key: Seq<char>, value: T)
    requires
        distinct(list),
    ensures
        distinct(assign(list, key, value)),
{
    lemma_at(list, key);
    let next = assign(list, key, value);
    assert forall|i: int, j: int| 0 <= i < j < next.len() implies (#[trigger] next[i]).0
        != (#[trigger] next[j]).0 by {
        if j < list.len() {
            assert(list[i].0 != list[j].0);
        }
    }
}

pub proof fn lemma_erase_distinct<T>(list: Seq<(Seq<char>, T)>, key: Seq<char>)
    requires
        distinct(list),
    ensures
        distinct(erase(list, key)),
{
    lemma_at(list, key);
    let a = at(list, key);
    let next = erase(list, key);
    if has_entry(list, key) {
        assert forall|i: int, j: int| 0 <= i < j < next.len() implies (#[trigger] next[i]).0
            != (#[trigger] next[j]).0 by {
            let si = if i < a { i } else { i + 1 };
            let sj = if j < a { j } else { j + 1 };
            assert(list[si].0 != list[sj].0);
        }
    }
}

/// A map with text keys; no key occurs twice.
#[derive(Debug, Clone, PartialEq, Eq)]
pub struct Assoc<T> {
    entries: Vec<(String, T)>,
}

impl<T> View for Assoc<T> {
    type V = Seq<(Seq<char>, T)>;

    closed spec fn view(&self) -> Seq<(Seq<char>, T)> {
        keyed(self.entries@)
    }
}

impl<T> Assoc<T> {
    /// An empty map.
    pub fn new() -> (r: Self)
        ensures
            r@ == Seq::<(Seq<char>, T)>::empty(),
            distinct(r@),
    {
        let r = Assoc { entries: Vec::new() };
        assert(r@ =~= Seq::<(Seq<char>, T)>::empty());
        r
    }

    /// The number of entries.
    pub fn len(&self) -> (r: usize)
        ensures
            r == self@.len(),
    {
        self.entries.len()
    }

    /// The position of a key, or the number of entries where it is missing.
    pub fn position(&self, key: &str) -> (r: usize)
        ensures
            r == at(self@, key@),
            r <= self@.len(),
    {
        let mut i: usize = 0;
        while i < self.entries.len()
            invariant
                i <= self.entries@.len(),
                forall|k: int| 0 <= k < i ==> (#[trigger] self@[k]).0 != key@,
            decreases self.entries@.len() - i,
        {
            if same_text(self.entries[i].0.as_str(), key) {
                proof {
                    lemma_at_is(self@, key@, i as int);
                }
                return i;
            }
            i += 1;
        }
        proof {
            lemma_at_is(self@, key@, i as int);
        }
        i
    }

    /// The key of the entry at a position.
    pub fn key_at(&self, i: usize) -> (r: &String)
        requires
            i < self@.len(),
        ensures
            r@ == self@[i as int].0,
    {
        &self.entries[i].0
    }

    /// The value of the entry at a position.
    pub fn value_at(&self, i: usize) -> (r: &T)
        requires
            i < self@.len(),
        ensures
            *r == self@[i as int].1,
    {
        &self.entries[i].1
    }

    /// The value of the entry at a position, to be changed in place.
    pub fn value_mut(&mut self, i: usize) -> (r: &mut T)
        requires
            i < old(self)@.len(),
        ensures
            *r == old(self)@[i as int].1,
            final(self)@ == old(self)@.update(i as int, (old(self)@[i as int].0, *final(r))),
    {
        &mut self.entries[i].1
    }

    /// Whether a key is there.
    pub fn contains(&self, key: &str) -> (r: bool)
        ensures
            r == has_entry(self@, key@),
    {
        self.position(key) < self.entries.len()
    }

    /// The value under a key.
    pub fn get(&self, key: &str) -> (r: Option<&T>)
        ensures
            match r {
                Some(value) => lookup(self@, key@) == Some(*value),
                None => lookup(self@, key@) is None,
            },
    {
        let i: usize = self.position(key);
        if i < self.entries.len() {
            Some(&self.entries[i].1)
        } else {
            None
        }
    }

    /// Puts a value under a key; a value that was there is replaced.
    pub fn insert(&mut self, key: String, value: T)
        ensures
            final(self)@ == assign(old(self)@, key@, value),
            distinct(old(self)@) ==> distinct(final(self)@),
    {
        let i: usize = self.position(key.as_str());
        proof {
            if distinct(self@) {
                lemma_assign_distinct(self@, key@, value);
            }
        }
        let ghost before = self@;
        let ghost k = key@;
        if i < self.entries.len() {
            self.entries.set(i, (key, value));
        } else {
            self.entries.push((key, value));
        }
        assert(self@ =~= assign(before, k, value));
    }

    /// Takes the value under a key out of the map.
    pub fn remove(&mut self, key: &str) -> (r: Option<T>)
        ensures
            final(self)@ == erase(old(self)@, key@),
            r == lookup(old(self)@, key@),
            distinct(old(self)@) ==> distinct(final(self)@),
    {
        let i: usize = self.position(key);
        proof {
            if distinct(self@) {
                lemma_erase_distinct(self@, key@);
            }
        }
        let ghost before = self@;
        if i < self.entries.len() {
            let (_, value) = self.entries.remove(i);
            assert(self@ =~= erase(before, key@));
            Some(value)
        } else {
            None
        }
    }

    /// Removes all entries.
    pub fn clear(&mut self)
        ensures
            final(self)@ == Seq::<(Seq<char>, T)>::empty(),
            distinct(final(self)@),
    {
        self.entries = Vec::new();
        assert(self@ =~= Seq::<(Seq<char>, T)>::empty());
    }
}

} // verus!
