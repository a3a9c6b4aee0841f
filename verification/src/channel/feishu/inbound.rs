//! How Feishu events become messages for the daemon.

use crate::assoc::lookup;
use crate::channel::feishu::cache::{
    law_remembered_is_seen, remembered, DedupCache, ThreadReplyCache,
};
use crate::channel::feishu::card::callback_value;
use crate::channel::feishu::event::{text_of_message, FeishuReceiveMessageEvent};
use crate::channel::feishu::pending::{
    after_answer, open_question, PendingUserInputs, PendingView, UserInputAnswerResult,
    UserInputMessageUpdate,
};
use crate::json::{field_of, json_parse, Json, Tree};
use crate::message::{
    clone_opt, is_command, law_command_follows_mentions, InboundMessage, MessageSource,
    UserInputResponse,
};
use crate::text::{blank, is_blank, opt_text, same_text, words};
use vstd::prelude::*;

verus! {

/// Who the bot is, and whether groups have to mention it.
pub struct MentionGate {
    /// Whether messages in groups have to mention the bot.
    pub require_mention: bool,
    /// The bot's open id.
    pub bot_open_id: String,
    /// The bot's name.
    pub bot_name: Option<String>,
}

/// Whether a received message is handled.
#[derive(Debug, Clone, Copy, PartialEq, Eq, Structural)]
pub enum EventGate {
    /// It has no id.
    EmptyId,
    /// It was seen before.
    Duplicate,
    /// It is not for the bot.
    NotMentioned,
    /// It is handled.
    Accepted,
}

/// Whether a received message is handled, given the ids that were seen.
pub open spec fn gate_of(
    event: FeishuReceiveMessageEvent,
    gate: MentionGate,
    seen: Seq<Seq<char>>,
) -> EventGate {
    if is_blank(event.message.message_id@) {
        EventGate::EmptyId
    } else if seen.contains(event.message.message_id@) {
        EventGate::Duplicate
    } else if event.message.chat_type@ == "p2p"@ || !gate.require_mention || event.is_for_bot(
        gate.bot_open_id@,
        opt_text(gate.bot_name),
    ) {
        EventGate::Accepted
    } else {
        EventGate::NotMentioned
    }
}

/// Decides whether a received message is handled, and remembers its id.
pub fn gate_event(
    event: &FeishuReceiveMessageEvent,
    gate: &MentionGate,
    seen: &mut DedupCache,
) -> (r: EventGate)
    requires
        old(seen).wf(),
    ensures
        final(seen).wf(),
        final(seen).room() == old(seen).room(),
        r == gate_of(*event, *gate, old(seen).ids()),
        final(seen).ids() == if r == EventGate::EmptyId || r == EventGate::Duplicate {
            old(seen).ids()
        } else {
            remembered(old(seen).ids(), event.message.message_id@, old(seen).room())
        },
{
    let message_id = event.message.message_id.as_str();
    if blank(message_id) {
        return EventGate::EmptyId;
    }
    if seen.seen_before(message_id) {
        return EventGate::Duplicate;
    }
    if same_text(event.message.chat_type.as_str(), "p2p") || !gate.require_mention {
        return EventGate::Accepted;
    }
    let bot_name = match &gate.bot_name {
        Some(name) => Some(name.as_str()),
        None => None,
    };
    if event.mentions_bot(gate.bot_open_id.as_str(), bot_name) {
        EventGate::Accepted
    } else {
        EventGate::NotMentioned
    }
}

/// What is done with an event.
#[derive(Debug, Clone, Copy, PartialEq, Eq, Structural)]
pub enum EventStep {
    /// It is acknowledged and nothing else.
    Acknowledge,
    /// A button of a card was pressed.
    CardAction,
    /// A message was received.
    Message,
}

/// What is done with an event of the given type, with or without a body.
pub open spec fn event_step_of(event_type: Seq<char>, has_body: bool) -> EventStep {
    if !has_body {
        EventStep::Acknowledge
    } else if event_type == "card.action.trigger"@ {
        EventStep::CardAction
    } else if event_type == "im.message.receive_v1"@ {
        EventStep::Message
    } else {
        EventStep::Acknowledge
    }
}

/// Decides what is done with an event.
pub fn event_step(event_type: &str, has_body: bool) -> (r: EventStep)
    ensures
        r == event_step_of(event_type@, has_body),
{
    if !has_body {
        EventStep::Acknowledge
    } else if same_text(event_type, "card.action.trigger") {
        EventStep::CardAction
    } else if same_text(event_type, "im.message.receive_v1") {
        EventStep::Message
    } else {
        EventStep::Acknowledge
    }
}

/// The first text that is given.
pub open spec fn first_given(
    a: Option<Seq<char>>,
    b: Option<Seq<char>>,
    c: Option<Seq<char>>,
) -> Option<Seq<char>> {
    if a is Some {
        a
    } else if b is Some {
        b
    } else {
        c
    }
}

fn first_of_three(a: &Option<String>, b: &Option<String>, c: &Option<String>) -> (r: Option<String>)
    ensures
        opt_text(r) == first_given(opt_text(*a), opt_text(*b), opt_text(*c)),
{
    match a {
        Some(s) => Some(s.clone()),
        None => match b {
            Some(s) => Some(s.clone()),
            None => clone_opt(c),
        },
    }
}

impl FeishuReceiveMessageEvent {
    /// Whether `source` is where this message comes from.
    pub open spec fn comes_from(
        self,
        source: MessageSource,
        channel_name: Seq<char>,
        platform: Seq<char>,
    ) -> bool {
        let sender = self.sender.sender_id;
        &&& source.channel_name@ == channel_name
        &&& source.platform@ == platform
        &&& source.chat_id@ == self.message.chat_id@
        &&& source.chat_type@ == if self.message.chat_type@ == "p2p"@ {
            "dm"@
        } else {
            "group"@
        }
        &&& opt_text(source.user_id) == first_given(
            opt_text(sender.union_id),
            opt_text(sender.user_id),
            opt_text(sender.open_id),
        )
        &&& opt_text(source.thread_id) == first_given(
            opt_text(self.message.thread_id),
            opt_text(self.message.root_id),
            opt_text(self.message.parent_id),
        )
    }

    /// Whether `message` is this message with the given text.
    pub open spec fn becomes(
        self,
        message: InboundMessage,
        channel_name: Seq<char>,
        platform: Seq<char>,
        text: Seq<char>,
    ) -> bool {
        &&& message.text@ == text
        &&& self.comes_from(message.source, channel_name, platform)
        &&& opt_text(message.message_id) == Some(self.message.message_id@)
        &&& message.attachments@.len() == 0
        &&& !message.scheduled
    }

    /// The message for the daemon, where its type has a text.
    pub fn to_inbound(&self, channel_name: &str, platform: &str) -> (r: Option<InboundMessage>)
        ensures
            match text_of_message(self.message.message_type@, json_parse(self.message.content@)) {
                Some(text) => r is Some && self.becomes(r->0, channel_name@, platform@, text),
                None => r is None,
            },
    {
        match self.message.text() {
            Some(text) => Some(self.to_inbound_with_text(channel_name, platform, text.as_str())),
            None => None,
        }
    }

    /// The message for the daemon, with the given text.
    pub fn to_inbound_with_text(&self, channel_name: &str, platform: &str, text: &str) -> (r:
        InboundMessage)
        ensures
            self.becomes(r, channel_name@, platform@, text@),
    {
        let sender = &self.sender.sender_id;
        let chat_type = if same_text(self.message.chat_type.as_str(), "p2p") {
            "dm"
        } else {
            "group"
        };
        let source = MessageSource {
            channel_name: String::from_str(channel_name),
            platform: String::from_str(platform),
            chat_id: self.message.chat_id.clone(),
            chat_type: String::from_str(chat_type),
            user_id: first_of_three(&sender.union_id, &sender.user_id, &sender.open_id),
            thread_id: first_of_three(
                &self.message.thread_id,
                &self.message.root_id,
                &self.message.parent_id,
            ),
        };
        InboundMessage::text(text, source, Some(self.message.message_id.clone()))
    }

    /// The first message of the chain that this message replies to.
    pub open spec fn reply_root(self) -> Option<Seq<char>> {
        match first_given(opt_text(self.message.root_id), opt_text(self.message.parent_id), None) {
            Some(id) => if is_blank(id) || id == self.message.message_id@ {
                None
            } else {
                Some(id)
            },
            None => None,
        }
    }

    /// The first message of the chain that this message replies to.
    pub fn reply_root_message_id(&self) -> (r: Option<String>)
        ensures
            opt_text(r) == self.reply_root(),
    {
        match first_of_three(&self.message.root_id, &self.message.parent_id, &None) {
            Some(id) => if blank(id.as_str()) || same_text(
                id.as_str(),
                self.message.message_id.as_str(),
            ) {
                None
            } else {
                Some(id)
            },
            None => None,
        }
    }
}

/// What becomes of a message that has been put together.
pub enum InboundRoute {
    /// It was the answer to a question.
    Consumed {
        /// The request that the question belongs to.
        request_id: String,
        /// The new state of the card.
        update: Option<UserInputMessageUpdate>,
        /// All answers, once every question has one.
        response: Option<UserInputResponse>,
        /// The message to react to, once every question has an answer.
        done_reaction: Option<String>,
    },
    /// It goes to the daemon.
    Enqueue(InboundMessage),
}

/// Whether a message may be the answer to a question: a text that is neither
/// of the commands that reset or stop.
pub open spec fn may_answer(message: InboundMessage) -> bool {
    &&& message.attachments@.len() == 0
    &&& !is_command(message.text@, "/reset"@)
    &&& !is_command(message.text@, "/stop"@)
}

/// The question that a message answers.
pub open spec fn answered_question(
    list: Seq<(Seq<char>, PendingView)>,
    message: InboundMessage,
) -> Option<(Seq<char>, PendingView, Seq<char>)> {
    if may_answer(message) {
        open_question(list, message.source)
    } else {
        None
    }
}

/// Decides what becomes of a message: it answers the question that waits for
/// it, or it goes to the daemon. A message of a reply chain is marked to be
/// answered in its thread.
pub fn route_inbound(
    message: InboundMessage,
    reply_context: bool,
    pending: &mut PendingUserInputs,
    thread_replies: &mut ThreadReplyCache,
) -> (r: InboundRoute)
    requires
        old(pending).wf(),
        old(thread_replies).wf(),
    ensures
        final(pending).wf(),
        final(thread_replies).wf(),
        match answered_question(old(pending)@, message) {
            Some((id, p, question_id)) => {
                &&& final(pending)@ == after_answer(
                    old(pending)@,
                    id,
                    p,
                    question_id,
                    message.text@,
                )
                &&& *final(thread_replies) == *old(thread_replies)
                &&& match r {
                    InboundRoute::Consumed { request_id, update, response, done_reaction } => {
                        &&& (UserInputAnswerResult::Accepted {
                            request_id,
                            update,
                            response,
                        }).is_of(id, Some(p), question_id, message.text@)
                        &&& opt_text(done_reaction) == if response is Some {
                            opt_text(message.message_id)
                        } else {
                            None
                        }
                    },
                    InboundRoute::Enqueue(_) => false,
                }
            },
            None => {
                &&& r == InboundRoute::Enqueue(message)
                &&& final(pending)@ == old(pending)@
                &&& if reply_context && message.message_id is Some {
                    final(thread_replies).is_after_marking(
                        *old(thread_replies),
                        message.message_id->0@,
                    )
                } else {
                    *final(thread_replies) == *old(thread_replies)
                }
            },
        },
{
    if message.attachments.len() == 0 && !message.is_reset_command()
        && !message.is_stop_command() {
        let result = pending.answer_next_by_source(&message.source, message.text.clone());
        if let UserInputAnswerResult::Accepted { request_id, update, response } = result {
            let done_reaction = if response.is_some() {
                clone_opt(&message.message_id)
            } else {
                None
            };
            return InboundRoute::Consumed { request_id, update, response, done_reaction };
        }
    }
    if reply_context {
        if let Some(id) = &message.message_id {
            thread_replies.insert(id.as_str());
        }
    }
    InboundRoute::Enqueue(message)
}

/// What a pressed button says.
pub enum CardAction {
    /// Nothing that concerns the library.
    Ignored,
    /// The answer to a question.
    Answer {
        /// The request.
        request_id: String,
        /// The question.
        question_id: String,
        /// The answer.
        answer: String,
    },
}

/// The value that a card event carries.
pub open spec fn action_value(event: Tree) -> Option<Tree> {
    let action = event.get("action"@);
    let value = match action {
        Some(a) => a.get("value"@),
        None => None,
    };
    let option = match action {
        Some(a) => a.get("option"@),
        None => None,
    };
    if value is Some {
        value
    } else if option is Some {
        option
    } else {
        event.get("value"@)
    }
}

/// The answer that a card event carries: the request, the question and the
/// answer itself.
pub open spec fn action_answer(event: Tree) -> Option<(Seq<char>, Seq<char>, Seq<char>)> {
    match action_value(event) {
        Some(value) => {
            let request_id = value.text_field("request_id"@);
            let question_id = value.text_field("question_id"@);
            let answer = value.text_field("answer"@);
            if value.text_field("llm_loop"@) == Some("request_user_input"@) && request_id is Some
                && question_id is Some && answer is Some {
                Some((request_id->0, question_id->0, answer->0))
            } else {
                None
            }
        },
        None => None,
    }
}

fn find_action_value(event: &Json) -> (r: Option<&Json>)
    ensures
        match r {
            Some(value) => action_value(event@) == Some(value@),
            None => action_value(event@) is None,
        },
{
    if let Some(action) = event.get("action") {
        if let Some(value) = action.get("value") {
            return Some(value);
        }
        if let Some(value) = action.get("option") {
            return Some(value);
        }
    }
    event.get("value")
}

/// Reads what a pressed button says.
pub fn card_action(event: &Json) -> (r: CardAction)
    ensures
        match r {
            CardAction::Answer { request_id, question_id, answer } => action_answer(event@)
                == Some((request_id@, question_id@, answer@)),
            CardAction::Ignored => action_answer(event@) is None,
        },
{
    let value = match find_action_value(event) {
        Some(value) => value,
        None => return CardAction::Ignored,
    };
    match value.text_field("llm_loop") {
        Some(mark) => if !same_text(mark, "request_user_input") {
            return CardAction::Ignored;
        },
        None => return CardAction::Ignored,
    }
    match (
        value.text_field("request_id"),
        value.text_field("question_id"),
        value.text_field("answer"),
    ) {
        (Some(request_id), Some(question_id), Some(answer)) => CardAction::Answer {
            request_id: String::from_str(request_id),
            question_id: String::from_str(question_id),
            answer: String::from_str(answer),
        },
        _ => CardAction::Ignored,
    }
}

/// Takes the answer that a card event carries.
pub fn handle_card_action(event: &Json, pending: &mut PendingUserInputs) -> (r:
    UserInputAnswerResult)
    requires
        old(pending).wf(),
    ensures
        final(pending).wf(),
        match action_answer(event@) {
            Some((request_id, question_id, answer)) => {
                let waiting = lookup(old(pending)@, request_id);
                &&& r.is_of(request_id, waiting, question_id, answer)
                &&& final(pending)@ == match waiting {
                    Some(p) => after_answer(old(pending)@, request_id, p, question_id, answer),
                    None => old(pending)@,
                }
            },
            None => r is Missing && final(pending)@ == old(pending)@,
        },
{
    match card_action(event) {
        CardAction::Answer { request_id, question_id, answer } => pending.answer(
            request_id.as_str(),
            question_id.as_str(),
            answer,
        ),
        CardAction::Ignored => UserInputAnswerResult::Missing,
    }
}

/// A button leads back to the choice that it was made for: an event that
/// carries the value of a button answers its question with its label.
pub proof fn law_button_leads_to_its_choice(
    event: Tree,
    action: Tree,
    request_id: Seq<char>,
    question_id: Seq<char>,
    label: Seq<char>,
)
    requires
        event.get("action"@) == Some(action),
        action.get("value"@) == Some(callback_value(request_id, question_id, label)),
    ensures
        action_answer(event) == Some((request_id, question_id, label)),
{
    reveal_strlit("llm_loop");
    reveal_strlit("request_id");
    reveal_strlit("question_id");
    reveal_strlit("answer");
    let value = callback_value(request_id, question_id, label);
    let all = value->Object_0;
    assert("llm_loop"@.len() == 8 && "request_id"@.len() == 10);
    assert("question_id"@.len() == 11 && "answer"@.len() == 6);
    assert(all.skip(1)[0] == all[1] && all.skip(1).skip(1)[0] == all[2]);
    assert(all.skip(1).skip(1).skip(1)[0] == all[3]);
    reveal_with_fuel(field_of, 5);
    assert(value.text_field("llm_loop"@) == Some("request_user_input"@));
    assert(value.text_field("request_id"@) == Some(request_id));
    assert(value.text_field("question_id"@) == Some(question_id));
    assert(value.text_field("answer"@) == Some(label));
}

/// A message with a new id that comes from a private chat, or where no mention
/// is asked for, is handled, and so is one that mentions the bot. One in a
/// group that does not mention it is not, where a mention is asked for.
pub proof fn law_messages_for_the_bot_are_handled(
    event: FeishuReceiveMessageEvent,
    gate: MentionGate,
    seen: Seq<Seq<char>>,
)
    requires
        !is_blank(event.message.message_id@),
        !seen.contains(event.message.message_id@),
    ensures
        event.message.chat_type@ == "p2p"@ ==> gate_of(event, gate, seen) == EventGate::Accepted,
        !gate.require_mention ==> gate_of(event, gate, seen) == EventGate::Accepted,
        event.is_for_bot(gate.bot_open_id@, opt_text(gate.bot_name)) ==> gate_of(event, gate, seen)
            == EventGate::Accepted,
        event.message.chat_type@ == "group"@ && gate.require_mention && !event.is_for_bot(
            gate.bot_open_id@,
            opt_text(gate.bot_name),
        ) ==> gate_of(event, gate, seen) == EventGate::NotMentioned,
{
    reveal_strlit("p2p");
    reveal_strlit("group");
    assert("p2p"@.len() == 3 && "group"@.len() == 5);
}

/// A message is handled once: when it comes again it is a duplicate, whoever
/// it is for.
pub proof fn law_messages_are_handled_once(
    event: FeishuReceiveMessageEvent,
    again: FeishuReceiveMessageEvent,
    gate: MentionGate,
    seen: Seq<Seq<char>>,
    room: nat,
)
    requires
        room > 0,
        seen.len() <= room,
        gate_of(event, gate, seen) == EventGate::Accepted,
        again.message.message_id@ == event.message.message_id@,
    ensures
        gate_of(again, gate, remembered(seen, event.message.message_id@, room))
            == EventGate::Duplicate,
{
    law_remembered_is_seen(seen, event.message.message_id@, room);
}

/// A message keeps its chat; its thread is the thread, else the root, else the
/// message that it answers; its sender is named by the union id, else the user
/// id, else the open id.
pub proof fn law_messages_keep_their_origin(
    event: FeishuReceiveMessageEvent,
    source: MessageSource,
    channel_name: Seq<char>,
    platform: Seq<char>,
)
    requires
        event.comes_from(source, channel_name, platform),
    ensures
        source.chat_id@ == event.message.chat_id@,
        source.channel_name@ == channel_name,
        source.platform@ == platform,
        event.message.chat_type@ == "p2p"@ <==> source.chat_type@ == "dm"@,
        event.message.chat_type@ != "p2p"@ ==> source.chat_type@ == "group"@,
        event.message.thread_id is Some ==> opt_text(source.thread_id) == opt_text(
            event.message.thread_id,
        ),
        event.message.thread_id is None && event.message.root_id is Some ==> opt_text(
            source.thread_id,
        ) == opt_text(event.message.root_id),
        event.message.thread_id is None && event.message.root_id is None ==> opt_text(
            source.thread_id,
        ) == opt_text(event.message.parent_id),
        event.sender.sender_id.union_id is Some ==> opt_text(source.user_id) == opt_text(
            event.sender.sender_id.union_id,
        ),
        event.sender.sender_id.union_id is None && event.sender.sender_id.user_id is Some
            ==> opt_text(source.user_id) == opt_text(event.sender.sender_id.user_id),
        event.sender.sender_id.union_id is None && event.sender.sender_id.user_id is None
            ==> opt_text(source.user_id) == opt_text(event.sender.sender_id.open_id),
{
    reveal_strlit("dm");
    reveal_strlit("group");
    assert("dm"@.len() == 2 && "group"@.len() == 5);
}

/// The message that a chain starts with is another message, and the root goes
/// before the message that is answered.
pub proof fn law_chains_start_elsewhere(event: FeishuReceiveMessageEvent)
    ensures
        event.reply_root() is Some ==> event.reply_root()->0 != event.message.message_id@
            && !is_blank(event.reply_root()->0),
        event.message.root_id is Some && event.message.root_id->0@ != event.message.message_id@
            && !is_blank(event.message.root_id->0@) ==> event.reply_root() == Some(
            event.message.root_id->0@,
        ),
        event.message.root_id is None && event.message.parent_id is Some
            && event.message.parent_id->0@ != event.message.message_id@ && !is_blank(
            event.message.parent_id->0@,
        ) ==> event.reply_root() == Some(event.message.parent_id->0@),
        event.message.root_id is None && event.message.parent_id is None ==> event.reply_root()
            is None,
{
}

/// A message with an attachment and the commands that reset and stop answer no
/// question; any other text answers the one that waits for it.
pub proof fn law_commands_answer_no_question(
    list: Seq<(Seq<char>, PendingView)>,
    message: InboundMessage,
)
    ensures
        message.attachments@.len() > 0 ==> answered_question(list, message) is None,
        words(message.text@) == seq![seq!['/', 's', 't', 'o', 'p']] ==> answered_question(
            list,
            message,
        ) is None,
        words(message.text@) == seq![seq!['/', 'r', 'e', 's', 'e', 't']] ==> answered_question(
            list,
            message,
        ) is None,
        message.attachments@.len() == 0 && (forall|i: int|
            0 <= i < words(message.text@).len() ==> (#[trigger] words(message.text@)[i])[0] != '/')
            ==> answered_question(list, message) == open_question(list, message.source),
{
    reveal_strlit("/stop");
    reveal_strlit("/reset");
    let all = words(message.text@);
    assert("/stop"@ =~= seq!['/', 's', 't', 'o', 'p']);
    assert("/reset"@ =~= seq!['/', 'r', 'e', 's', 'e', 't']);
    reveal_strlit("@_");
    assert("@_"@[0] == '@' && "/stop"@[0] == '/' && "/reset"@[0] == '/');
    law_command_follows_mentions(message.text@, "/stop"@);
    law_command_follows_mentions(message.text@, "/reset"@);
    if is_command(message.text@, "/stop"@) || is_command(message.text@, "/reset"@) {
        assert(all[all.len() - 1][0] == '/');
    }
}

/// Only the events that bring messages and pressed buttons are read.
pub proof fn law_known_events_are_read(event_type: Seq<char>)
    ensures
        event_step_of("im.message.receive_v1"@, true) == EventStep::Message,
        event_step_of("card.action.trigger"@, true) == EventStep::CardAction,
        event_step_of(event_type, false) == EventStep::Acknowledge,
        event_step_of(event_type, true) == EventStep::Acknowledge || event_type
            == "im.message.receive_v1"@ || event_type == "card.action.trigger"@,
{
    reveal_strlit("im.message.receive_v1");
    reveal_strlit("card.action.trigger");
    assert("im.message.receive_v1"@.len() == 21 && "card.action.trigger"@.len() == 19);
}

} // verus!
