//! The turns that are running, by session.

use crate::assoc::{
    assign, at, distinct, erase, lemma_assign_distinct, lemma_at, lemma_erase_distinct,
    lemma_lookup_assigned, lemma_lookup_erased, lookup, Assoc,
};
use vstd::prelude::*;

verus! {

/// A turn that is running.
#[derive(Debug, Clone, Copy, PartialEq, Eq, Structural)]
pub struct ActiveTurn {
    /// What tells this turn from the others of its session.
    pub id: u64,
    /// Whether it was told to stop.
    pub cancelled: bool,
}

/// The running turns by session: one for each session.
pub struct ActiveTurns {
    next_id: u64,
    turns: Assoc<ActiveTurn>,
}

/// The running turns.
pub type TurnList = Seq<(Seq<char>, ActiveTurn)>;

/// The turns after one has ended. A turn that was replaced by a newer one of
/// its session takes nothing away.
pub open spec fn after_finish(list: TurnList, session_key: Seq<char>, id: u64) -> TurnList {
    match lookup(list, session_key) {
        Some(turn) => if turn.id == id {
            erase(list, session_key)
        } else {
            list
        },
        None => list,
    }
}

/// The turns after the one of a session was told to stop.
pub open spec fn after_cancel(list: TurnList, session_key: Seq<char>) -> TurnList {
    match lookup(list, session_key) {
        Some(turn) => assign(list, session_key, ActiveTurn { cancelled: true, ..turn }),
        None => list,
    }
}

impl View for ActiveTurns {
    type V = TurnList;

    closed spec fn view(&self) -> TurnList {
        self.turns@
    }
}

impl ActiveTurns {
    /// The id of the next turn.
    pub closed spec fn fresh(self) -> u64 {
        self.next_id
    }

    /// Each session has one turn at most, and the ids of the turns are used.
    pub open spec fn wf(self) -> bool {
        &&& distinct(self@)
        &&& forall|i: int| 0 <= i < self@.len() ==> (#[trigger] self@[i]).1.id < self.fresh()
    }

    /// No turns.
    pub fn new() -> (r: Self)
        ensures
            r.wf(),
            r@ == TurnList::empty(),
            r.fresh() == 0,
    {
        ActiveTurns { next_id: 0, turns: Assoc::new() }
    }

    /// The number of running turns.
    pub fn len(&self) -> (r: usize)
        ensures
            r == self@.len(),
    {
        self.turns.len()
    }

    /// Notes a new turn of a session, which replaces an earlier one. There is
    /// no id left where all have been used.
    pub fn register(&mut self, session_key: &str) -> (r: Option<u64>)
        requires
            old(self).wf(),
        ensures
            final(self).wf(),
            match r {
                Some(id) => {
                    &&& id == old(self).fresh()
                    &&& final(self).fresh() == id + 1
                    &&& final(self)@ == assign(
                        old(self)@,
                        session_key@,
                        ActiveTurn { id, cancelled: false },
                    )
                },
                None => old(self).fresh() == u64::MAX && final(self)@ == old(self)@,
            },
    {
        if self.next_id == u64::MAX {
            return None;
        }
        let id = self.next_id;
        let ghost before = self@;
        let ghost turn = ActiveTurn { id, cancelled: false };
        self.next_id = id + 1;
        self.turns.insert(String::from_str(session_key), ActiveTurn { id, cancelled: false });
        proof {
            lemma_assign_distinct(before, session_key@, turn);
            lemma_at(before, session_key@);
            assert forall|i: int| 0 <= i < self@.len() implies (#[trigger] self@[i]).1.id
                < self.fresh() by {
                if i < before.len() {
                    assert(before[i].1.id < id);
                }
            }
        }
        Some(id)
    }

    /// The turn of a session.
    pub fn get(&self, session_key: &str) -> (r: Option<ActiveTurn>)
        ensures
            r == lookup(self@, session_key@),
    {
        match self.turns.get(session_key) {
            Some(turn) => Some(*turn),
            None => None,
        }
    }

    /// Tells the turn of a session to stop, and which one it is.
    pub fn cancel(&mut self, session_key: &str) -> (r: Option<u64>)
        requires
            old(self).wf(),
        ensures
            final(self).wf(),
            final(self).fresh() == old(self).fresh(),
            final(self)@ == after_cancel(old(self)@, session_key@),
            r == match lookup(old(self)@, session_key@) {
                Some(turn) => Some(turn.id),
                None => None,
            },
    {
        let ghost before = self@;
        proof {
            lemma_at(before, session_key@);
        }
        let i: usize = self.turns.position(session_key);
        if i >= self.turns.len() {
            return None;
        }
        let turn = self.turns.value_mut(i);
        turn.cancelled = true;
        let id = turn.id;
        let ghost stopped = ActiveTurn { cancelled: true, ..before[i as int].1 };
        assert(self@ =~= assign(before, session_key@, stopped));
        proof {
            lemma_assign_distinct(before, session_key@, stopped);
            assert forall|k: int| 0 <= k < self@.len() implies (#[trigger] self@[k]).1.id
                < self.fresh() by {
                assert(before[k].1.id < self.fresh());
            }
        }
        Some(id)
    }

    /// Takes a turn that has ended off the list; tells whether it was there.
    pub fn finish(&mut self, session_key: &str, id: u64) -> (r: bool)
        requires
            old(self).wf(),
        ensures
            final(self).wf(),
            final(self).fresh() == old(self).fresh(),
            final(self)@ == after_finish(old(self)@, session_key@, id),
            r == (lookup(old(self)@, session_key@) matches Some(turn) && turn.id == id),
    {
        let ghost before = self@;
        proof {
            lemma_erase_distinct(before, session_key@);
            lemma_at(before, session_key@);
        }
        match self.turns.get(session_key) {
            Some(turn) => if turn.id != id {
                return false;
            },
            None => return false,
        }
        self.turns.remove(session_key);
        assert forall|k: int| 0 <= k < self@.len() implies (#[trigger] self@[k]).1.id
            < self.fresh() by {
            let p = at(before, session_key@);
            if k < p {
                assert(self@[k] == before[k]);
            } else {
                assert(self@[k] == before[k + 1]);
            }
        }
        true
    }
}

/// A turn that ends late does not take the newer turn of its session away.
pub proof fn law_late_end_keeps_the_newer_turn(
    list: TurnList,
    session_key: Seq<char>,
    old_id: u64,
    new_id: u64,
)
    requires
        old_id != new_id,
    ensures
        ({
            let replaced = assign(
                list,
                session_key,
                ActiveTurn { id: new_id, cancelled: false },
            );
            after_finish(replaced, session_key, old_id) == replaced
        }),
{
    lemma_lookup_assigned(
        list,
        session_key,
        ActiveTurn { id: new_id, cancelled: false },
        session_key,
    );
}

/// A turn that was told to stop is known to have been, until it ends; then it
/// is gone.
pub proof fn law_stopped_until_it_ends(list: TurnList, session_key: Seq<char>)
    requires
        distinct(list),
        lookup(list, session_key) is Some,
    ensures
        ({
            let id = lookup(list, session_key)->0.id;
            let stopped = after_cancel(list, session_key);
            &&& lookup(stopped, session_key) == Some(ActiveTurn { id, cancelled: true })
            &&& lookup(after_finish(stopped, session_key, id), session_key) is None
        }),
{
    let turn = lookup(list, session_key)->0;
    let marked = ActiveTurn { cancelled: true, ..turn };
    let stopped = after_cancel(list, session_key);
    lemma_lookup_assigned(list, session_key, marked, session_key);
    lemma_assign_distinct(list, session_key, marked);
    lemma_lookup_erased(stopped, session_key, session_key);
}

} // verus!
