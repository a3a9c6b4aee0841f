//! What the Feishu channel remembers of recent messages.

use crate::text::same_text;
use std::collections::VecDeque;
use vstd::prelude::*;

verus! {

/// The contents of a queue of strings.
pub open spec fn queue_texts(v: Seq<String>) -> Seq<Seq<char>> {
    Seq::new(v.len(), |i: int| v[i]@)
}

/// The smallest number of messages that is remembered.
pub const MIN_CAPACITY: usize = 32;

/// The recent ids with one more; the oldest leaves where there is no room.
pub open spec fn remembered(ids: Seq<Seq<char>>, id: Seq<char>, capacity: nat) -> Seq<Seq<char>> {
    if ids.len() < capacity {
        ids.push(id)
    } else {
        ids.push(id).skip(1)
    }
}

/// Tells messages that were seen before.
pub struct DedupCache {
    capacity: usize,
    order: VecDeque<String>,
}

pub fn contains_text(list: &VecDeque<String>, id: &str) -> (r: bool)
    ensures
        r == queue_texts(list@).contains(id@),
{
    let mut i: usize = 0;
    while i < list.len()
        invariant
            i <= list@.len(),
            forall|k: int| 0 <= k < i ==> queue_texts(list@)[k] != id@,
        decreases list@.len() - i,
    {
        if same_text(list[i].as_str(), id) {
            assert(queue_texts(list@)[i as int] == id@);
            return true;
        }
        i += 1;
    }
    false
}

impl DedupCache {
    /// How many ids are remembered at most.
    pub closed spec fn room(self) -> nat {
        self.capacity as nat
    }

    /// The remembered ids, the oldest first.
    pub closed spec fn ids(self) -> Seq<Seq<char>> {
        queue_texts(self.order@)
    }

    /// The limit holds and no id is remembered twice.
    pub open spec fn wf(self) -> bool {
        &&& self.room() >= MIN_CAPACITY
        &&& self.ids().len() <= self.room()
        &&& self.ids().no_duplicates()
    }

    /// An empty cache for at least the smallest number of ids.
    pub fn new(capacity: usize) -> (r: Self)
        ensures
            r.wf(),
            r.ids() == Seq::<Seq<char>>::empty(),
            r.room() == if capacity < MIN_CAPACITY {
                MIN_CAPACITY
            } else {
                capacity
            },
    {
        let r = DedupCache {
            capacity: if capacity < MIN_CAPACITY {
                MIN_CAPACITY
            } else {
                capacity
            },
            order: VecDeque::new(),
        };
        assert(r.ids() =~= Seq::<Seq<char>>::empty());
        r
    }

    /// The number of remembered ids.
    pub fn len(&self) -> (r: usize)
        ensures
            r == self.ids().len(),
    {
        self.order.len()
    }

    /// How many ids are remembered at most.
    pub fn capacity(&self) -> (r: usize)
        ensures
            r == self.room(),
    {
        self.capacity
    }

    /// Whether an id was seen before; a new one is remembered.
    pub fn seen_before(&mut self, message_id: &str) -> (r: bool)
        requires
            old(self).wf(),
        ensures
            final(self).wf(),
            final(self).room() == old(self).room(),
            r == old(self).ids().contains(message_id@),
            r ==> final(self).ids() == old(self).ids(),
            !r ==> final(self).ids() == remembered(old(self).ids(), message_id@, old(self).room()),
    {
        if contains_text(&self.order, message_id) {
            return true;
        }
        let ghost before = self.ids();
        let full = self.order.len() == self.capacity;
        self.order.push_back(String::from_str(message_id));
        assert(self.ids() =~= before.push(message_id@));
        if full {
            self.order.pop_front();
            assert(self.ids() =~= before.push(message_id@).skip(1));
        }
        proof {
            lemma_remembered(before, message_id@, self.room());
        }
        false
    }

    /// Forgets everything.
    pub fn clear(&mut self)
        requires
            old(self).wf(),
        ensures
            final(self).wf(),
            final(self).room() == old(self).room(),
            final(self).ids() == Seq::<Seq<char>>::empty(),
    {
        self.order = VecDeque::new();
        assert(self.ids() =~= Seq::<Seq<char>>::empty());
    }
}

pub proof fn lemma_remembered(ids: Seq<Seq<char>>, id: Seq<char>, capacity: nat)
    requires
        capacity > 0,
        ids.len() <= capacity,
        ids.no_duplicates(),
        !ids.contains(id),
    ensures
        remembered(ids, id, capacity).len() <= capacity,
        remembered(ids, id, capacity).no_duplicates(),
        remembered(ids, id, capacity).len() > 0,
        remembered(ids, id, capacity).last() == id,
{
    let all = ids.push(id);
    assert forall|i: int, j: int| 0 <= i < j < all.len() implies all[i] != all[j] by {
        if j < ids.len() {
            assert(ids[i] != ids[j]);
        } else {
            assert(ids.contains(ids[i]));
        }
    }
    assert(all.no_duplicates());
    let r = remembered(ids, id, capacity);
    assert forall|i: int, j: int| 0 <= i < j < r.len() implies r[i] != r[j] by {
        if ids.len() >= capacity {
            assert(all[i + 1] != all[j + 1]);
        } else {
            assert(all[i] != all[j]);
        }
    }
}

/// A message that was just remembered counts as seen.
pub proof fn law_remembered_is_seen(ids: Seq<Seq<char>>, id: Seq<char>, capacity: nat)
    requires
        capacity > 0,
        ids.len() <= capacity,
    ensures
        remembered(ids, id, capacity).contains(id),
{
    let r = remembered(ids, id, capacity);
    assert(r[r.len() - 1] == id);
}

/// The recent ids after the given new ones have come.
pub open spec fn remembered_all(
    ids: Seq<Seq<char>>,
    new_ids: Seq<Seq<char>>,
    capacity: nat,
) -> Seq<Seq<char>>
    decreases new_ids.len(),
{
    if new_ids.len() == 0 {
        ids
    } else {
        remembered(
            remembered_all(ids, new_ids.drop_last(), capacity),
            new_ids.last(),
            capacity,
        )
    }
}

proof fn lemma_remembered_all_tail(
    ids: Seq<Seq<char>>,
    new_ids: Seq<Seq<char>>,
    capacity: nat,
)
    requires
        0 < ids.len() <= capacity,
        new_ids.len() < capacity,
    ensures
        ({
            let r = remembered_all(ids, new_ids, capacity);
            &&& new_ids.len() < r.len() <= capacity
            &&& r[r.len() - 1 - new_ids.len()] == ids.last()
        }),
    decreases new_ids.len(),
{
    if new_ids.len() > 0 {
        lemma_remembered_all_tail(ids, new_ids.drop_last(), capacity);
    }
}

/// A message counts as seen until as many newer ones have come as there is
/// room for.
pub proof fn law_seen_until_the_room_is_used_up(
    ids: Seq<Seq<char>>,
    id: Seq<char>,
    new_ids: Seq<Seq<char>>,
    capacity: nat,
)
    requires
        ids.len() <= capacity,
        new_ids.len() < capacity,
    ensures
        remembered_all(remembered(ids, id, capacity), new_ids, capacity).contains(id),
{
    let start = remembered(ids, id, capacity);
    assert(start.last() == id);
    lemma_remembered_all_tail(start, new_ids, capacity);
    let r = remembered_all(start, new_ids, capacity);
    assert(r[r.len() - 1 - new_ids.len()] == id);
}

/// Tells which received messages have to be answered in their thread.
pub struct ThreadReplyCache {
    capacity: usize,
    order: VecDeque<String>,
    marked: Vec<String>,
}

impl ThreadReplyCache {
    /// How many messages are remembered at most.
    pub closed spec fn room(self) -> nat {
        self.capacity as nat
    }

    /// The messages that were marked, the oldest first; a mark may have been
    /// used since.
    pub closed spec fn order(self) -> Seq<Seq<char>> {
        queue_texts(self.order@)
    }

    /// The messages whose mark has not been used.
    pub closed spec fn marks(self) -> Seq<Seq<char>> {
        queue_texts(self.marked@)
    }

    /// The limit holds, and each mark stands once and belongs to a remembered
    /// message.
    pub open spec fn wf(self) -> bool {
        &&& self.room() >= MIN_CAPACITY
        &&& self.order().len() <= self.room()
        &&& self.marks().no_duplicates()
        &&& forall|id: Seq<char>| #[trigger] self.marks().contains(id) ==> self.order().contains(id)
    }

    /// Whether this is the cache `before` after a message has been marked.
    /// Where there is no room, the oldest message is forgotten.
    pub open spec fn is_after_marking(self, before: Self, id: Seq<char>) -> bool {
        let full = before.order().len() == before.room();
        let oldest = before.order()[0];
        &&& self.room() == before.room()
        &&& if before.marks().contains(id) {
            self.order() == before.order() && self.marks() == before.marks()
        } else {
            &&& self.order() == remembered(before.order(), id, before.room())
            &&& forall|other: Seq<char>|
                self.marks().contains(other) <==> (before.marks().contains(other) || other == id)
                    && !(full && other == oldest)
        }
    }

    /// An empty cache for at least the smallest number of messages.
    pub fn new(capacity: usize) -> (r: Self)
        ensures
            r.wf(),
            r.order() == Seq::<Seq<char>>::empty(),
            r.marks() == Seq::<Seq<char>>::empty(),
            r.room() == if capacity < MIN_CAPACITY {
                MIN_CAPACITY
            } else {
                capacity
            },
    {
        let r = ThreadReplyCache {
            capacity: if capacity < MIN_CAPACITY {
                MIN_CAPACITY
            } else {
                capacity
            },
            order: VecDeque::new(),
            marked: Vec::new(),
        };
        assert(r.order() =~= Seq::<Seq<char>>::empty());
        assert(r.marks() =~= Seq::<Seq<char>>::empty());
        r
    }

    /// The number of remembered messages.
    pub fn len(&self) -> (r: usize)
        ensures
            r == self.order().len(),
    {
        self.order.len()
    }

    /// How many messages are remembered at most.
    pub fn capacity(&self) -> (r: usize)
        ensures
            r == self.room(),
    {
        self.capacity
    }

    fn position(&self, message_id: &str) -> (r: Option<usize>)
        ensures
            match r {
                Some(i) => i < self.marks().len() && self.marks()[i as int] == message_id@,
                None => !self.marks().contains(message_id@),
            },
    {
        let mut i: usize = 0;
        while i < self.marked.len()
            invariant
                i <= self.marked@.len(),
                forall|k: int| 0 <= k < i ==> self.marks()[k] != message_id@,
            decreases self.marked@.len() - i,
        {
            if same_text(self.marked[i].as_str(), message_id) {
                return Some(i);
            }
            i += 1;
        }
        None
    }

    /// Takes a mark away; tells whether it was there.
    pub fn remove(&mut self, message_id: &str) -> (r: bool)
        requires
            old(self).wf(),
        ensures
            final(self).wf(),
            final(self).room() == old(self).room(),
            final(self).order() == old(self).order(),
            r == old(self).marks().contains(message_id@),
            forall|id: Seq<char>|
                final(self).marks().contains(id) <==> old(self).marks().contains(id) && id
                    != message_id@,
    {
        let ghost before = self.marks();
        let ghost order = self.order();
        match self.position(message_id) {
            Some(i) => {
                assert(before.contains(message_id@));
                self.marked.remove(i);
                assert(self.marks() =~= before.remove(i as int));
                proof {
                    lemma_without(before, i as int);
                }
                assert(self.order() == order);
                assert forall|id: Seq<char>| #[trigger] self.marks().contains(
                    id,
                ) implies self.order().contains(id) by {
                    assert(before.contains(id));
                }
                true
            },
            None => false,
        }
    }

    /// Marks a message as one to be answered in its thread.
    pub fn insert(&mut self, message_id: &str)
        requires
            old(self).wf(),
        ensures
            final(self).wf(),
            final(self).is_after_marking(*old(self), message_id@),
    {
        if self.position(message_id).is_some() {
            return;
        }
        let ghost before = self.marks();
        let ghost order = self.order();
        let ghost room = self.room();
        let full = self.order.len() == self.capacity;
        self.marked.push(String::from_str(message_id));
        assert(self.marks() =~= before.push(message_id@));
        let ghost marked = self.marks();
        proof {
            lemma_with(before, message_id@);
        }
        self.order.push_back(String::from_str(message_id));
        assert(self.order() =~= order.push(message_id@));
        assert forall|id: Seq<char>| #[trigger] self.marks().contains(id) implies self.order().contains(
            id,
        ) by {
            if id == message_id@ {
                assert(self.order()[order.len() as int] == id);
            } else {
                assert(before.contains(id));
                let k = choose|k: int| 0 <= k < order.len() && order[k] == id;
                assert(self.order()[k] == id);
            }
        }
        if full {
            let oldest = self.order.pop_front();
            assert(self.order() =~= order.push(message_id@).skip(1));
            if let Some(old_id) = oldest {
                assert(old_id@ == order[0]);
                if let Some(i) = self.position(old_id.as_str()) {
                    self.marked.remove(i);
                    assert(self.marks() =~= marked.remove(i as int));
                    proof {
                        lemma_without(marked, i as int);
                    }
                }
                assert forall|id: Seq<char>| #[trigger] self.marks().contains(
                    id,
                ) implies self.order().contains(id) by {
                    let all = order.push(message_id@);
                    assert(marked.contains(id) && id != order[0]);
                    if id == message_id@ {
                        assert(self.order()[all.len() - 2] == id);
                    } else {
                        assert(before.contains(id));
                        let k = choose|k: int| 0 <= k < order.len() && order[k] == id;
                        assert(self.order()[k - 1] == id);
                    }
                }
            }
        }
    }

    /// Forgets everything.
    pub fn clear(&mut self)
        requires
            old(self).wf(),
        ensures
            final(self).wf(),
            final(self).room() == old(self).room(),
            final(self).order() == Seq::<Seq<char>>::empty(),
            final(self).marks() == Seq::<Seq<char>>::empty(),
    {
        self.order = VecDeque::new();
        self.marked = Vec::new();
        assert(self.order() =~= Seq::<Seq<char>>::empty());
        assert(self.marks() =~= Seq::<Seq<char>>::empty());
    }
}

proof fn lemma_without(list: Seq<Seq<char>>, i: int)
    requires
        list.no_duplicates(),
        0 <= i < list.len(),
    ensures
        list.remove(i).no_duplicates(),
        forall|id: Seq<char>|
            list.remove(i).contains(id) <==> list.contains(id) && id != list[i],
{
    let r = list.remove(i);
    assert forall|a: int, b: int| 0 <= a < b < r.len() implies r[a] != r[b] by {
        let sa = if a < i { a } else { a + 1 };
        let sb = if b < i { b } else { b + 1 };
        assert(list[sa] != list[sb]);
    }
    assert forall|id: Seq<char>| r.contains(id) <==> list.contains(id) && id != list[i] by {
        if r.contains(id) {
            let k = choose|k: int| 0 <= k < r.len() && r[k] == id;
            let s = if k < i { k } else { k + 1 };
            assert(list[s] == id);
        }
        if list.contains(id) && id != list[i] {
            let k = choose|k: int| 0 <= k < list.len() && list[k] == id;
            assert(r[if k < i { k } else { k - 1 }] == id);
        }
    }
}

proof fn lemma_with(list: Seq<Seq<char>>, id: Seq<char>)
    requires
        list.no_duplicates(),
        !list.contains(id),
    ensures
        list.push(id).no_duplicates(),
        forall|other: Seq<char>|
            list.push(id).contains(other) <==> list.contains(other) || other == id,
{
    let r = list.push(id);
    assert forall|a: int, b: int| 0 <= a < b < r.len() implies r[a] != r[b] by {
        if b < list.len() {
            assert(list[a] != list[b]);
        } else {
            assert(list.contains(list[a]));
        }
    }
    assert forall|other: Seq<char>| r.contains(other) <==> list.contains(other) || other == id by {
        if list.contains(other) {
            let k = choose|k: int| 0 <= k < list.len() && list[k] == other;
            assert(r[k] == other);
        }
        if other == id {
            assert(r[list.len() as int] == other);
        }
        if r.contains(other) {
            let k = choose|k: int| 0 <= k < r.len() && r[k] == other;
            if k < list.len() {
                assert(list[k] == other);
            }
        }
    }
}

} // verus!
