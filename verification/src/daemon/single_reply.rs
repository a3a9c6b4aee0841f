//! One reply for each message that came in.

use crate::message::{clone_opt, MessageUpdate, OutboundFormat, OutboundMessage, SendResult};
use crate::text::{given_or_empty, opt_text};
use vstd::prelude::*;

verus! {

/// The reply that was sent to a message.
#[derive(Debug, PartialEq, Eq)]
pub struct SingleReplyTarget {
    /// The platform's id of the reply.
    pub message_id: String,
    /// The conversation.
    pub chat_id: String,
}

impl Clone for SingleReplyTarget {
    fn clone(&self) -> (r: Self)
        ensures
            r == *self,
    {
        SingleReplyTarget { message_id: self.message_id.clone(), chat_id: self.chat_id.clone() }
    }
}

/// Sees to it that a message gets one reply: what is sent first makes the
/// reply, and what is sent later changes it. Plans are not affected.
pub struct SingleReply {
    /// The message that is replied to.
    pub inbound_message_id: Option<String>,
    /// The reply, once it was sent.
    pub target: Option<SingleReplyTarget>,
}

/// What is asked of the channel.
pub enum ReplyStep {
    /// A message is sent.
    Send(OutboundMessage),
    /// A message gets a new text.
    Update(MessageUpdate),
}

/// Whether `update` gives the reply at `target` a new text.
pub open spec fn updates_reply(
    update: MessageUpdate,
    target: SingleReplyTarget,
    channel_name: Seq<char>,
    text: Seq<char>,
    format: OutboundFormat,
) -> bool {
    &&& update.channel_name@ == channel_name
    &&& opt_text(update.chat_id) == Some(target.chat_id@)
    &&& update.message_id@ == target.message_id@
    &&& update.text@ == text
    &&& update.format == format
}

/// The id of the reply after the channel has named one: the first that is named
/// stays.
pub open spec fn after_result(known: Option<Seq<char>>, named: Option<Seq<char>>) -> Option<
    Seq<char>,
> {
    if known is Some {
        known
    } else {
        named
    }
}

/// The id of the reply after the channel has named the given ones.
pub open spec fn after_results(known: Option<Seq<char>>, named: Seq<Option<Seq<char>>>) -> Option<
    Seq<char>,
>
    decreases named.len(),
{
    if named.len() == 0 {
        known
    } else {
        after_result(after_results(known, named.drop_last()), named.last())
    }
}

/// Once a message has a reply, it keeps it: whatever is sent later goes to the
/// same reply.
pub proof fn law_first_reply_stays(
    known: Option<Seq<char>>,
    named: Seq<Option<Seq<char>>>,
    n: int,
)
    requires
        0 <= n <= named.len(),
        after_results(known, named.take(n)) is Some,
    ensures
        after_results(known, named) == after_results(known, named.take(n)),
    decreases named.len(),
{
    if n < named.len() {
        assert(named.drop_last().take(n) =~= named.take(n));
        law_first_reply_stays(known, named.drop_last(), n);
    } else {
        assert(named.take(n) =~= named);
    }
}

impl SingleReply {
    /// The id of the reply, once it was sent.
    pub open spec fn reply_id(self) -> Option<Seq<char>> {
        match self.target {
            Some(target) => Some(target.message_id@),
            None => None,
        }
    }

    /// A message without a reply.
    pub fn new(inbound_message_id: Option<String>) -> (r: Self)
        ensures
            r.inbound_message_id == inbound_message_id,
            r.target is None,
    {
        SingleReply { inbound_message_id, target: None }
    }

    /// What is asked of the channel for a message to be sent: a plan is sent as
    /// it is, the first text is sent as the reply, and a later text changes the
    /// reply.
    pub fn plan_send(&self, message: OutboundMessage) -> (r: ReplyStep)
        ensures
            if message.format == OutboundFormat::Plan {
                r == ReplyStep::Send(message)
            } else {
                match self.target {
                    Some(target) => r is Update && updates_reply(
                        r->Update_0,
                        target,
                        message.channel_name@,
                        message.text@,
                        message.format,
                    ),
                    None => r == ReplyStep::Send(
                        OutboundMessage { reply_to: self.inbound_message_id, ..message },
                    ),
                }
            },
    {
        if message.format == OutboundFormat::Plan {
            return ReplyStep::Send(message);
        }
        match &self.target {
            Some(target) => ReplyStep::Update(
                MessageUpdate {
                    channel_name: message.channel_name,
                    chat_id: Some(target.chat_id.clone()),
                    message_id: target.message_id.clone(),
                    text: message.text,
                    format: message.format,
                },
            ),
            None => {
                let mut first = message;
                first.reply_to = clone_opt(&self.inbound_message_id);
                ReplyStep::Send(first)
            },
        }
    }

    /// Notes that the reply was sent, where the platform says under which id.
    pub fn note_sent(&mut self, chat_id: &str, result: &SendResult)
        requires
            old(self).target is None,
        ensures
            final(self).inbound_message_id == old(self).inbound_message_id,
            final(self).reply_id() == after_result(old(self).reply_id(), opt_text(result.message_id)),
            final(self).target is Some ==> final(self).target->0.chat_id@ == chat_id@,
    {
        if let Some(id) = &result.message_id {
            self.target = Some(
                SingleReplyTarget { message_id: id.clone(), chat_id: String::from_str(chat_id) },
            );
        }
    }

    /// The message that a new text is for: the reply, or the named message
    /// where nothing was sent yet.
    pub open spec fn aim(self, message: MessageUpdate) -> (Seq<char>, Seq<char>) {
        match self.target {
            Some(target) => (target.message_id@, target.chat_id@),
            None => (message.message_id@, given_or_empty(opt_text(message.chat_id))),
        }
    }

    /// What is asked of the channel for a new text: a plan is changed as asked,
    /// and any other text changes the reply. With the request comes the reply
    /// to be noted once it has succeeded.
    pub fn plan_update(&self, message: MessageUpdate) -> (r: (
        MessageUpdate,
        Option<SingleReplyTarget>,
    ))
        ensures
            if message.format == OutboundFormat::Plan {
                r.0 == message && r.1 is None
            } else {
                &&& r.1 is Some
                &&& r.1->0.message_id@ == self.aim(message).0
                &&& r.1->0.chat_id@ == self.aim(message).1
                &&& updates_reply(
                    r.0,
                    r.1->0,
                    message.channel_name@,
                    message.text@,
                    message.format,
                )
            },
    {
        if message.format == OutboundFormat::Plan {
            return (message, None);
        }
        let target = match &self.target {
            Some(known) => known.clone(),
            None => {
                let chat_id = match &message.chat_id {
                    Some(id) => id.clone(),
                    None => String::new(),
                };
                assert(chat_id@ =~= given_or_empty(opt_text(message.chat_id)));
                SingleReplyTarget { message_id: message.message_id.clone(), chat_id }
            },
        };
        let update = MessageUpdate {
            channel_name: message.channel_name,
            chat_id: Some(target.chat_id.clone()),
            message_id: target.message_id.clone(),
            text: message.text,
            format: message.format,
        };
        (update, Some(target))
    }

    /// Notes the reply that was changed, and says what came of it: the reply
    /// keeps its id.
    pub fn note_updated(&mut self, target: SingleReplyTarget, result: &SendResult) -> (r: SendResult)
        ensures
            final(self).inbound_message_id == old(self).inbound_message_id,
            final(self).target == if old(self).target is Some {
                old(self).target
            } else {
                Some(target)
            },
            final(self).reply_id() == after_result(
                old(self).reply_id(),
                Some(target.message_id@),
            ),
            r.success == result.success,
            opt_text(r.message_id) == Some(target.message_id@),
    {
        let message_id = target.message_id.clone();
        if self.target.is_none() {
            self.target = Some(target);
        }
        SendResult { success: result.success, message_id: Some(message_id) }
    }
}

} // verus!
