//! The state of one conversation and its history.

use vstd::prelude::*;

verus! {

/// One item of a conversation's history.
#[derive(Debug, PartialEq, Eq)]
pub enum ConversationItem {
    /// What the user said.
    User { text: String },
    /// What the model answered.
    Assistant { text: String },
}

/// The contents of a history item.
pub enum ItemView {
    User(Seq<char>),
    Assistant(Seq<char>),
}

impl ItemView {
    pub open spec fn text(self) -> Seq<char> {
        match self {
            ItemView::User(text) => text,
            ItemView::Assistant(text) => text,
        }
    }
}

impl View for ConversationItem {
    type V = ItemView;

    open spec fn view(&self) -> ItemView {
        match self {
            ConversationItem::User { text } => ItemView::User(text@),
            ConversationItem::Assistant { text } => ItemView::Assistant(text@),
        }
    }
}

impl Clone for ConversationItem {
    fn clone(&self) -> (r: Self)
        ensures
            r == *self,
    {
        match self {
            ConversationItem::User { text } => ConversationItem::User { text: text.clone() },
            ConversationItem::Assistant { text } => ConversationItem::Assistant {
                text: text.clone(),
            },
        }
    }
}

/// The contents of a history.
pub open spec fn items(history: Seq<ConversationItem>) -> Seq<ItemView> {
    Seq::new(history.len(), |i: int| history[i]@)
}

/// The items of `history` from position `start` on.
pub fn copy_items(history: &[ConversationItem], start: usize) -> (r: Vec<ConversationItem>)
    requires
        start <= history@.len(),
    ensures
        r@ == history@.skip(start as int),
{
    let mut out: Vec<ConversationItem> = Vec::new();
    let mut i: usize = start;
    while i < history.len()
        invariant
            start <= i <= history@.len(),
            out@ =~= history@.subrange(start as int, i as int),
        decreases history@.len() - i,
    {
        out.push(history[i].clone());
        i += 1;
    }
    assert(out@ =~= history@.skip(start as int));
    out
}

/// What the daemon keeps of a session between turns.
#[derive(Debug, Clone, PartialEq, Eq)]
pub struct SessionState {
    /// The key that routes messages to the session.
    pub key: String,
    /// The id of the session's current run.
    pub id: String,
    /// The instructions that go with every request.
    pub instructions: String,
    /// The size of the model's context window, where it is known.
    pub max_context_tokens: Option<u64>,
    /// The tokens that the last request used.
    pub used_tokens: u64,
    /// Whether the initial context has been put into the instructions.
    pub initial_context_loaded: bool,
}

impl SessionState {
    /// A session that has seen nothing yet.
    pub fn new(key: String) -> (r: Self)
        ensures
            r.key == key,
            r.id@ == Seq::<char>::empty(),
            r.instructions@ == Seq::<char>::empty(),
            r.max_context_tokens is None,
            r.used_tokens == 0,
            !r.initial_context_loaded,
    {
        SessionState {
            key,
            id: String::new(),
            instructions: String::new(),
            max_context_tokens: None,
            used_tokens: 0,
            initial_context_loaded: false,
        }
    }
}

} // verus!
