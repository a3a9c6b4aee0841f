//! What the QQ channel remembers of messages.

use crate::assoc::{
    assign, at, distinct, has_entry, lemma_assign_distinct, lemma_at, lemma_at_is,
    lemma_lookup_assigned, lemma_same_keys, lookup, Assoc,
};
use crate::channel::feishu::cache::{contains_text, lemma_remembered, queue_texts, remembered};
use crate::message::{clone_opt, OutboundRecipient};
use crate::text::opt_text;
use std::collections::VecDeque;
use vstd::prelude::*;

verus! {

/// Tells messages that were seen before.
pub struct QqDedupCache {
    capacity: usize,
    order: VecDeque<String>,
}

impl QqDedupCache {
    /// How many ids are remembered at most.
    pub closed spec fn room(self) -> nat {
        self.capacity as nat
    }

    /// The remembered ids, the oldest first.
    pub closed spec fn ids(self) -> Seq<Seq<char>> {
        queue_texts(self.order@)
    }

    /// The limit holds and no id is remembered twice.
    pub open spec fn wf(self) -> bool {
        &&& self.ids().len() <= self.room()
        &&& self.ids().no_duplicates()
    }

    /// An empty cache.
    pub fn new(capacity: usize) -> (r: Self)
        ensures
            r.wf(),
            r.ids() == Seq::<Seq<char>>::empty(),
            r.room() == capacity,
    {
        let r = QqDedupCache { capacity, order: VecDeque::new() };
        assert(r.ids() =~= Seq::<Seq<char>>::empty());
        r
    }

    /// The number of remembered ids.
    pub fn len(&self) -> (r: usize)
        ensures
            r == self.ids().len(),
    {
        self.order.len()
    }

    /// Whether an id was seen before; a new one is remembered.
    pub fn seen_before(&mut self, message_id: &str) -> (r: bool)
        requires
            old(self).wf(),
        ensures
            final(self).wf(),
            final(self).room() == old(self).room(),
            r == old(self).ids().contains(message_id@),
            r ==> final(self).ids() == old(self).ids(),
            !r ==> final(self).ids() == remembered(old(self).ids(), message_id@, old(self).room()),
    {
        if contains_text(&self.order, message_id) {
            return true;
        }
        let ghost before = self.ids();
        let full = self.order.len() == self.capacity;
        self.order.push_back(String::from_str(message_id));
        assert(self.ids() =~= before.push(message_id@));
        if full {
            self.order.pop_front();
            assert(self.ids() =~= before.push(message_id@).skip(1));
        }
        proof {
            if self.room() > 0 {
                lemma_remembered(before, message_id@, self.room());
            }
        }
        false
    }
}

/// Where a message was sent, and how replies to it go on.
#[derive(Debug, PartialEq, Eq)]
pub struct QqSentMessageTarget {
    /// The conversation.
    pub chat_id: String,
    /// What kind of recipient it is.
    pub recipient: OutboundRecipient,
    /// The user's message that is replied to.
    pub reply_to: Option<String>,
    /// The number of the next reply.
    pub next_msg_seq: u64,
}

/// The contents of a target.
pub struct TargetView {
    pub chat_id: Seq<char>,
    pub recipient: OutboundRecipient,
    pub reply_to: Option<Seq<char>>,
    pub next_msg_seq: u64,
}

impl View for QqSentMessageTarget {
    type V = TargetView;

    open spec fn view(&self) -> TargetView {
        TargetView {
            chat_id: self.chat_id@,
            recipient: self.recipient,
            reply_to: opt_text(self.reply_to),
            next_msg_seq: self.next_msg_seq,
        }
    }
}

impl Clone for QqSentMessageTarget {
    fn clone(&self) -> (r: Self)
        ensures
            r == *self,
    {
        QqSentMessageTarget {
            chat_id: self.chat_id.clone(),
            recipient: self.recipient,
            reply_to: clone_opt(&self.reply_to),
            next_msg_seq: self.next_msg_seq,
        }
    }
}

/// Where the next message goes.
#[derive(Debug, PartialEq, Eq)]
pub struct QqNextSendTarget {
    /// The conversation.
    pub chat_id: String,
    /// What kind of recipient it is.
    pub recipient: OutboundRecipient,
    /// The user's message that is replied to.
    pub reply_to: Option<String>,
    /// The number of this reply.
    pub msg_seq: u64,
}

/// The number after `n`; the largest number stays.
pub open spec fn next_number(n: u64) -> u64 {
    if n == u64::MAX {
        n
    } else {
        (n + 1) as u64
    }
}

/// The number after `n`; the largest number stays.
pub fn following(n: u64) -> (r: u64)
    ensures
        r == next_number(n),
{
    if n == u64::MAX {
        n
    } else {
        n + 1
    }
}

impl TargetView {
    /// The target after one more reply.
    pub open spec fn used(self) -> TargetView {
        TargetView { next_msg_seq: next_number(self.next_msg_seq), ..self }
    }
}

/// The contents of the remembered targets, the oldest first.
pub type TargetList = Seq<(Seq<char>, TargetView)>;

/// The targets that are left where there is room for `capacity`: the newest.
pub open spec fn newest(list: TargetList, capacity: nat) -> TargetList {
    if list.len() > capacity {
        list.skip(list.len() - capacity)
    } else {
        list
    }
}

/// Remembers where messages were sent.
pub struct QqSentMessageTargets {
    capacity: usize,
    targets: Assoc<QqSentMessageTarget>,
}

impl View for QqSentMessageTargets {
    type V = TargetList;

    closed spec fn view(&self) -> TargetList {
        Seq::new(self.targets@.len(), |i: int| (self.targets@[i].0, self.targets@[i].1@))
    }
}

impl QqSentMessageTargets {
    /// How many messages are remembered at most.
    pub closed spec fn room(self) -> nat {
        self.capacity as nat
    }

    /// The limit holds and no message is remembered twice.
    pub open spec fn wf(self) -> bool {
        self@.len() <= self.room() && distinct(self@)
    }

    proof fn lemma_entries(self, key: Seq<char>)
        ensures
            has_entry(self.targets@, key) == has_entry(self@, key),
            at(self.targets@, key) == at(self@, key),
            0 <= at(self@, key) <= self@.len(),
            lookup(self@, key) == match lookup(self.targets@, key) {
                Some(t) => Some(t@),
                None => None,
            },
            distinct(self@) == distinct(self.targets@),
    {
        lemma_same_keys(self.targets@, self@, key);
        lemma_at(self.targets@, key);
        let a = self@;
        let b = self.targets@;
        assert(a.len() == b.len());
        assert(forall|i: int| 0 <= i < a.len() ==> (#[trigger] a[i]).0 == b[i].0);
        assert(forall|i: int| 0 <= i < a.len() ==> (#[trigger] b[i]).0 == a[i].0);
    }

    /// Nothing remembered.
    pub fn new(capacity: usize) -> (r: Self)
        ensures
            r.wf(),
            r.room() == capacity,
            r@ == TargetList::empty(),
    {
        let r = QqSentMessageTargets { capacity, targets: Assoc::new() };
        assert(r@ =~= TargetList::empty());
        r
    }

    /// The number of remembered messages.
    pub fn len(&self) -> (r: usize)
        ensures
            r == self@.len(),
    {
        self.targets.len()
    }

    /// Remembers where a message was sent. Where there is no room, the oldest
    /// message is forgotten.
    pub fn insert(&mut self, message_id: String, target: QqSentMessageTarget)
        requires
            old(self).wf(),
        ensures
            final(self).wf(),
            final(self).room() == old(self).room(),
            final(self)@ == newest(
                assign(old(self)@, message_id@, target@),
                old(self).room(),
            ),
    {
        let ghost before = *self;
        let ghost key = message_id@;
        let ghost view = target@;
        proof {
            before.lemma_entries(key);
            lemma_assign_distinct(before@, key, view);
        }
        self.targets.insert(message_id, target);
        let ghost middle = *self;
        assert(middle@ =~= assign(before@, key, view));
        if self.targets.len() > self.capacity {
            let oldest = self.targets.key_at(0).clone();
            proof {
                middle.lemma_entries(oldest@);
                lemma_at_is(middle.targets@, oldest@, 0);
            }
            self.targets.remove(oldest.as_str());
            assert(self@ =~= middle@.skip(1));
            assert forall|i: int, j: int| 0 <= i < j < self@.len() implies (#[trigger] self@[i]).0
                != (#[trigger] self@[j]).0 by {
                assert(middle@[i + 1].0 != middle@[j + 1].0);
            }
        }
    }

    /// Where a reply to a message goes; its number is used up.
    pub fn next_target(&mut self, message_id: &str) -> (r: Option<QqNextSendTarget>)
        requires
            old(self).wf(),
        ensures
            final(self).wf(),
            final(self).room() == old(self).room(),
            match lookup(old(self)@, message_id@) {
                Some(t) => {
                    &&& r is Some
                    &&& r->0.chat_id@ == t.chat_id
                    &&& r->0.recipient == t.recipient
                    &&& opt_text(r->0.reply_to) == t.reply_to
                    &&& r->0.msg_seq == t.next_msg_seq
                    &&& final(self)@ == assign(old(self)@, message_id@, t.used())
                },
                None => r is None && final(self)@ == old(self)@,
            },
    {
        let ghost before = *self;
        proof {
            before.lemma_entries(message_id@);
            lemma_at(before.targets@, message_id@);
        }
        let i: usize = self.targets.position(message_id);
        if i >= self.targets.len() {
            return None;
        }
        let ghost view = before@[i as int].1;
        let target = self.targets.value_mut(i);
        let msg_seq = target.next_msg_seq;
        target.next_msg_seq = following(msg_seq);
        let next = QqNextSendTarget {
            chat_id: target.chat_id.clone(),
            recipient: target.recipient,
            reply_to: clone_opt(&target.reply_to),
            msg_seq,
        };
        assert(target@ == view.used());
        assert(self@ =~= assign(before@, message_id@, view.used()));
        proof {
            lemma_assign_distinct(before@, message_id@, view.used());
        }
        Some(next)
    }

    /// Forgets everything.
    pub fn clear(&mut self)
        requires
            old(self).wf(),
        ensures
            final(self).wf(),
            final(self).room() == old(self).room(),
            final(self)@ == TargetList::empty(),
    {
        self.targets.clear();
        assert(self@ =~= TargetList::empty());
    }
}

/// Replies to one message are numbered one after the other: taking a number
/// leaves the next one, until the numbers are used up.
pub proof fn law_replies_are_numbered(list: TargetList, message_id: Seq<char>)
    requires
        lookup(list, message_id) is Some,
        lookup(list, message_id)->0.next_msg_seq < u64::MAX,
    ensures
        ({
            let t = lookup(list, message_id)->0;
            let after = lookup(assign(list, message_id, t.used()), message_id);
            &&& after is Some
            &&& after->0.next_msg_seq == t.next_msg_seq + 1
            &&& after->0.chat_id == t.chat_id
            &&& after->0.reply_to == t.reply_to
        }),
{
    let t = lookup(list, message_id)->0;
    lemma_lookup_assigned(list, message_id, t.used(), message_id);
}

/// A message that was just sent is remembered, where there is room for any.
pub proof fn law_sent_is_remembered(
    list: TargetList,
    message_id: Seq<char>,
    target: TargetView,
    capacity: nat,
)
    requires
        capacity > 0,
        list.len() <= capacity,
        distinct(list),
    ensures
        lookup(newest(assign(list, message_id, target), capacity), message_id) == Some(target),
{
    let all = assign(list, message_id, target);
    lemma_at(list, message_id);
    lemma_lookup_assigned(list, message_id, target, message_id);
    if all.len() > capacity {
        let kept = newest(all, capacity);
        assert(!has_entry(list, message_id));
        let last = kept.len() - 1;
        assert(kept[last] == (message_id, target));
        assert forall|k: int| 0 <= k < last implies (#[trigger] kept[k]).0 != message_id by {
            assert(kept[k] == list[k + 1]);
        }
        lemma_at_is(kept, message_id, last);
    }
}

} // verus!
