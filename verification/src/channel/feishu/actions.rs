//! How the Feishu channel confirms and replies.

use crate::channel::feishu::cache::{DedupCache, ThreadReplyCache};
use crate::channel::feishu::pending::{PendingUserInputs, PendingView};
use crate::channel::kinds::ChannelAckKind;
use crate::message::{
    clone_opt, outbound_target_from_source, InboundMessage, OutboundFormat, OutboundMessage,
    OutboundRecipient,
};
use vstd::prelude::*;

verus! {

/// How something is confirmed.
pub enum FeishuAck {
    /// Not at all.
    Nothing,
    /// By a reaction.
    Reaction {
        /// The message that is reacted to.
        message_id: String,
        /// The reaction.
        emoji_type: String,
    },
    /// By a message.
    Reply(OutboundMessage),
}

/// Whether `ack` confirms `kind` for `message`.
pub open spec fn confirms(
    ack: FeishuAck,
    channel_name: Seq<char>,
    message: InboundMessage,
    kind: ChannelAckKind,
) -> bool {
    match kind {
        ChannelAckKind::Received => reacts(ack, message, "Typing"@),
        ChannelAckKind::ResetDone => reacts(ack, message, "DONE"@),
        ChannelAckKind::StopDone => match ack {
            FeishuAck::Reply(reply) => {
                let source = message.source;
                &&& reply.channel_name@ == channel_name
                &&& reply.text@ == "done"@
                &&& reply.reply_to == message.message_id
                &&& reply.thread_id is None
                &&& reply.format == OutboundFormat::Text
                &&& if source.addresses_user() {
                    reply.recipient == OutboundRecipient::User && reply.chat_id@
                        == source.user_id->0@
                } else {
                    reply.recipient == OutboundRecipient::Chat && reply.chat_id@ == source.chat_id@
                }
            },
            _ => false,
        },
    }
}

/// Whether `ack` reacts to `message` in the given way; a message without an id
/// gets no reaction.
pub open spec fn reacts(ack: FeishuAck, message: InboundMessage, emoji: Seq<char>) -> bool {
    match message.message_id {
        Some(id) => match ack {
            FeishuAck::Reaction { message_id, emoji_type } => message_id@ == id@ && emoji_type@
                == emoji,
            _ => false,
        },
        None => ack is Nothing,
    }
}

fn reaction(message: &InboundMessage, emoji: &str) -> (r: FeishuAck)
    ensures
        reacts(r, *message, emoji@),
{
    match &message.message_id {
        Some(id) => FeishuAck::Reaction {
            message_id: id.clone(),
            emoji_type: String::from_str(emoji),
        },
        None => FeishuAck::Nothing,
    }
}

/// Decides how something is confirmed.
pub fn feishu_ack(channel_name: &str, message: &InboundMessage, kind: ChannelAckKind) -> (r:
    FeishuAck)
    ensures
        confirms(r, channel_name@, *message, kind),
{
    match kind {
        ChannelAckKind::Received => reaction(message, "Typing"),
        ChannelAckKind::ResetDone => reaction(message, "DONE"),
        ChannelAckKind::StopDone => {
            let (recipient, chat_id) = outbound_target_from_source(&message.source);
            FeishuAck::Reply(
                OutboundMessage {
                    channel_name: String::from_str(channel_name),
                    chat_id,
                    recipient,
                    text: String::from_str("done"),
                    reply_to: clone_opt(&message.message_id),
                    thread_id: None,
                    format: OutboundFormat::Text,
                },
            )
        },
    }
}

/// Forgets everything about a channel's messages when a session is reset.
pub fn forget_on_reset(
    seen: &mut DedupCache,
    thread_replies: &mut ThreadReplyCache,
    pending: &mut PendingUserInputs,
)
    requires
        old(seen).wf(),
        old(thread_replies).wf(),
        old(pending).wf(),
    ensures
        final(seen).wf(),
        final(thread_replies).wf(),
        final(pending).wf(),
        final(seen).room() == old(seen).room(),
        final(thread_replies).room() == old(thread_replies).room(),
        final(seen).ids() == Seq::<Seq<char>>::empty(),
        final(thread_replies).marks() == Seq::<Seq<char>>::empty(),
        final(thread_replies).order() == Seq::<Seq<char>>::empty(),
        final(pending)@ == Seq::<(Seq<char>, PendingView)>::empty(),
{
    seen.clear();
    thread_replies.clear();
    pending.clear();
}

/// Whether a reply goes into the thread of the message that it answers; the
/// mark that says so is used up.
pub fn take_thread_mark(thread_replies: &mut ThreadReplyCache, reply_to: &Option<String>) -> (r:
    bool)
    requires
        old(thread_replies).wf(),
    ensures
        final(thread_replies).wf(),
        final(thread_replies).room() == old(thread_replies).room(),
        final(thread_replies).order() == old(thread_replies).order(),
        r == match reply_to {
            Some(id) => old(thread_replies).marks().contains(id@),
            None => false,
        },
        match reply_to {
            Some(id) => !final(thread_replies).marks().contains(id@) && forall|other: Seq<char>|
                other != id@ ==> final(thread_replies).marks().contains(other) == old(
                    thread_replies,
                ).marks().contains(other),
            None => *final(thread_replies) == *old(thread_replies),
        },
{
    match reply_to {
        Some(id) => thread_replies.remove(id.as_str()),
        None => false,
    }
}

/// A message that is taken up shows that an answer is being written, and one
/// that resets the session is marked as done; a message without an id is not
/// marked. A turn that was stopped is confirmed by a reply to the message.
pub proof fn law_messages_are_confirmed(
    ack: FeishuAck,
    channel_name: Seq<char>,
    message: InboundMessage,
    kind: ChannelAckKind,
)
    requires
        confirms(ack, channel_name, message, kind),
    ensures
        kind != ChannelAckKind::StopDone && message.message_id is None ==> ack is Nothing,
        kind == ChannelAckKind::Received && message.message_id is Some ==> ack is Reaction
            && ack->message_id@ == message.message_id->0@ && ack->emoji_type@ == "Typing"@,
        kind == ChannelAckKind::ResetDone && message.message_id is Some ==> ack is Reaction
            && ack->message_id@ == message.message_id->0@ && ack->emoji_type@ == "DONE"@,
        kind == ChannelAckKind::StopDone ==> ack is Reply && ack->Reply_0.text@ == "done"@
            && ack->Reply_0.reply_to == message.message_id && (!message.source.addresses_user()
            ==> ack->Reply_0.chat_id@ == message.source.chat_id@),
{
}

} // verus!
