//! Events from the QQ gateway.

use crate::channel::feishu::cache::remembered;
use crate::channel::qq::api::{
    law_prefixes_name_the_recipient, prefixed_target, RecipientView,
};
use crate::channel::qq::cache::QqDedupCache;
use crate::channel::qq::text::{clean_qq_text, cleaned_text};
use crate::error::{AppError, AppResult, ErrorView};
use crate::json::{fields, trees, Fields, Json, Tree};
use crate::message::{clone_opt, InboundMessage, MessageSource};
use crate::numbers::{dec, decimal, parse_unsigned, parsed};
use crate::text::{chars_of, opt_text, same_text};
use vstd::prelude::*;

verus! {

/// What the gateway sends.
pub struct QqPayload {
    /// What it is.
    pub op: i64,
    /// Its data.
    pub d: Json,
    /// Its number.
    pub s: Option<u64>,
    /// The kind of an event.
    pub t: Option<String>,
}

/// A message.
#[derive(Debug, Clone, PartialEq, Eq)]
pub struct QqMessageEvent {
    /// The platform's id.
    pub id: String,
    /// The text.
    pub content: String,
    /// The group.
    pub group_openid: Option<String>,
    /// The channel.
    pub channel_id: Option<String>,
    /// The sender.
    pub author: Option<QqAuthor>,
}

/// The sender of a message.
#[derive(Debug, Clone, PartialEq, Eq)]
pub struct QqAuthor {
    /// The id in channels.
    pub id: Option<String>,
    /// The id in private chats.
    pub user_openid: Option<String>,
    /// The id in groups.
    pub member_openid: Option<String>,
}

/// What a payload asks for.
#[derive(Debug, PartialEq, Eq)]
pub enum PayloadStep {
    /// The bot identifies itself; from now on it sends a heartbeat after so
    /// many milliseconds, where the gateway says so.
    Identify(Option<u64>),
    /// An event is handled.
    Dispatch,
    /// A heartbeat is sent.
    Heartbeat,
    /// Nothing.
    Nothing,
}

/// The number in a JSON value that is a whole number.
pub open spec fn whole_number(tree: Tree) -> Option<nat> {
    match tree {
        Tree::Number(n) => parsed(n, u64::MAX as nat),
        _ => None,
    }
}

/// The number in a JSON value that is a whole number.
pub fn as_u64(value: &Json) -> (r: Option<u64>)
    ensures
        match r {
            Some(n) => whole_number(value@) == Some(n as nat),
            None => whole_number(value@) is None,
        },
{
    match value {
        Json::Number(n) => {
            let cs = chars_of(n.as_str());
            match parse_unsigned(&cs, u64::MAX as u128) {
                Some(v) => Some(v as u64),
                None => None,
            }
        },
        _ => None,
    }
}

/// The time between heartbeats that the gateway asks for: a second at least.
pub open spec fn asked_interval(d: Tree) -> Option<nat> {
    match d.get("heartbeat_interval"@) {
        Some(value) => match whole_number(value) {
            Some(n) => Some(
                if n < 1000 {
                    1000
                } else {
                    n
                },
            ),
            None => None,
        },
        None => None,
    }
}

fn heartbeat_interval(d: &Json) -> (r: Option<u64>)
    ensures
        match r {
            Some(n) => asked_interval(d@) == Some(n as nat),
            None => asked_interval(d@) is None,
        },
{
    match d.get("heartbeat_interval") {
        Some(value) => match as_u64(value) {
            Some(n) => if n < 1000 {
                Some(1000)
            } else {
                Some(n)
            },
            None => None,
        },
        None => None,
    }
}

/// Finds out what a payload asks for, and notes its number.
pub fn handle_qq_payload(payload: &QqPayload, seq: &mut Option<u64>) -> (r: AppResult<PayloadStep>)
    ensures
        *final(seq) == if payload.s is Some {
            payload.s
        } else {
            *old(seq)
        },
        match r {
            Ok(step) => {
                &&& payload.op != 7 && payload.op != 9
                &&& match step {
                    PayloadStep::Identify(interval) => payload.op == 10 && match interval {
                        Some(n) => asked_interval(payload.d@) == Some(n as nat),
                        None => asked_interval(payload.d@) is None,
                    },
                    PayloadStep::Dispatch => payload.op == 0,
                    PayloadStep::Heartbeat => payload.op == 1,
                    PayloadStep::Nothing => payload.op != 0 && payload.op != 1 && payload.op != 10,
                }
            },
            Err(e) => {
                ||| payload.op == 7 && e@ == ErrorView::Channel("qq gateway requested reconnect"@)
                ||| payload.op == 9 && e@ == ErrorView::Channel("qq gateway invalid session"@)
            },
        },
{
    if let Some(n) = payload.s {
        *seq = Some(n);
    }
    if payload.op == 10 {
        Ok(PayloadStep::Identify(heartbeat_interval(&payload.d)))
    } else if payload.op == 0 {
        Ok(PayloadStep::Dispatch)
    } else if payload.op == 1 {
        Ok(PayloadStep::Heartbeat)
    } else if payload.op == 7 {
        Err(AppError::channel("qq gateway requested reconnect"))
    } else if payload.op == 9 {
        Err(AppError::channel("qq gateway invalid session"))
    } else {
        Ok(PayloadStep::Nothing)
    }
}

/// The payload by which the bot identifies itself.
pub fn identify_payload(token: &str, intents: u64) -> (r: Json)
    ensures
        r@ == fields().with("op"@, Tree::Number("2"@)).with(
            "d"@,
            fields().text("token"@, "QQBot "@ + token@).with(
                "intents"@,
                Tree::Number(dec(intents as nat)),
            ).with(
                "shard"@,
                Tree::List(Seq::<Tree>::empty().push(Tree::Number("0"@)).push(Tree::Number("1"@))),
            ).with(
                "properties"@,
                fields().text("$os"@, "linux"@).text("$browser"@, "llm-loop"@).text(
                    "$device"@,
                    "llm-loop"@,
                ).tree(),
            ).tree(),
        ).tree(),
{
    let mut auth = String::from_str("QQBot ");
    auth.append(token);
    let mut shard: Vec<Json> = Vec::new();
    shard.push(Json::Number(String::from_str("0")));
    shard.push(Json::Number(String::from_str("1")));
    assert(trees(shard@) =~= Seq::<Tree>::empty().push(Tree::Number("0"@)).push(
        Tree::Number("1"@),
    ));
    let properties = Fields::new().text("$os", "linux").text("$browser", "llm-loop").text(
        "$device",
        "llm-loop",
    ).object();
    let d = Fields::new().text("token", auth.as_str()).with(
        "intents",
        Json::Number(decimal(intents as u128)),
    ).with("shard", Json::list(shard)).with("properties", properties).object();
    Fields::new().with("op", Json::Number(String::from_str("2"))).with("d", d).object()
}

/// A heartbeat: the number of the last payload, where there was one.
pub fn heartbeat_payload(seq: Option<u64>) -> (r: Json)
    ensures
        r@ == fields().with("op"@, Tree::Number("1"@)).with(
            "d"@,
            match seq {
                Some(n) => Tree::Number(dec(n as nat)),
                None => Tree::Null,
            },
        ).tree(),
{
    let d = match seq {
        Some(n) => Json::Number(decimal(n as u128)),
        None => Json::Null,
    };
    Fields::new().with("op", Json::Number(String::from_str("1"))).with("d", d).object()
}

/// What an event asks for.
#[derive(Debug, Clone, Copy, PartialEq, Eq, Structural)]
pub enum DispatchStep {
    /// The gateway is ready; nothing is done.
    Ready,
    /// A button was pressed.
    Interaction,
    /// A message came in.
    Message,
    /// Nothing that is handled.
    Ignore,
}

/// Whether an event brings a message.
pub open spec fn brings_message(event_type: Seq<char>) -> bool {
    event_type == "C2C_MESSAGE_CREATE"@ || event_type == "GROUP_AT_MESSAGE_CREATE"@ || event_type
        == "AT_MESSAGE_CREATE"@
}

/// Finds out what an event asks for, by its kind.
pub fn handle_qq_dispatch(event_type: Option<&str>) -> (r: DispatchStep)
    ensures
        r == match event_type {
            Some(t) => if t@ == "READY"@ {
                DispatchStep::Ready
            } else if t@ == "INTERACTION_CREATE"@ {
                DispatchStep::Interaction
            } else if brings_message(t@) {
                DispatchStep::Message
            } else {
                DispatchStep::Ignore
            },
            None => DispatchStep::Ignore,
        },
{
    match event_type {
        Some(t) => if same_text(t, "READY") {
            DispatchStep::Ready
        } else if same_text(t, "INTERACTION_CREATE") {
            DispatchStep::Interaction
        } else if same_text(t, "C2C_MESSAGE_CREATE") || same_text(t, "GROUP_AT_MESSAGE_CREATE")
            || same_text(t, "AT_MESSAGE_CREATE") {
            DispatchStep::Message
        } else {
            DispatchStep::Ignore
        },
        None => DispatchStep::Ignore,
    }
}

/// Where a message comes from: the conversation, its kind and the sender.
pub struct Origin {
    pub chat_id: Seq<char>,
    pub chat_type: Seq<char>,
    pub user_id: Option<Seq<char>>,
}

/// The first text that is given.
pub open spec fn first_text(a: Option<String>, b: Option<String>) -> Option<Seq<char>> {
    if a is Some {
        opt_text(a)
    } else {
        opt_text(b)
    }
}

/// Where an event's message comes from; other events have no origin, nor do
/// events that lack the id of their conversation.
pub open spec fn origin_of(event_type: Seq<char>, event: QqMessageEvent) -> Option<Origin> {
    if event_type == "C2C_MESSAGE_CREATE"@ {
        if event.author is Some && event.author->0.user_openid is Some {
            let user = event.author->0.user_openid->0@;
            Some(Origin { chat_id: "user:"@ + user, chat_type: "dm"@, user_id: Some(user) })
        } else {
            None
        }
    } else if event_type == "GROUP_AT_MESSAGE_CREATE"@ {
        match event.group_openid {
            Some(group) => Some(
                Origin {
                    chat_id: "group:"@ + group@,
                    chat_type: "group"@,
                    user_id: match event.author {
                        Some(author) => first_text(author.member_openid, author.user_openid),
                        None => None,
                    },
                },
            ),
            None => None,
        }
    } else if event_type == "AT_MESSAGE_CREATE"@ {
        match event.channel_id {
            Some(channel) => Some(
                Origin {
                    chat_id: "channel:"@ + channel@,
                    chat_type: "group"@,
                    user_id: match event.author {
                        Some(author) => if author.id is Some {
                            opt_text(author.id)
                        } else {
                            first_text(author.user_openid, author.member_openid)
                        },
                        None => None,
                    },
                },
            ),
            None => None,
        }
    } else {
        None
    }
}

fn first_given(a: &Option<String>, b: &Option<String>) -> (r: Option<String>)
    ensures
        opt_text(r) == first_text(*a, *b),
{
    match a {
        Some(s) => Some(s.clone()),
        None => clone_opt(b),
    }
}

fn prefixed(prefix: &str, id: &str) -> (r: String)
    ensures
        r@ == prefix@ + id@,
{
    let mut out = String::from_str(prefix);
    out.append(id);
    out
}

fn c2c_event_source(channel_name: &str, event: &QqMessageEvent) -> (r: Option<MessageSource>)
    ensures
        is_source(r, channel_name@, "C2C_MESSAGE_CREATE"@, *event),
{
    let author = match &event.author {
        Some(a) => a,
        None => return None,
    };
    match &author.user_openid {
        Some(user) => Some(
            MessageSource {
                channel_name: String::from_str(channel_name),
                platform: String::from_str("qq"),
                chat_id: prefixed("user:", user.as_str()),
                chat_type: String::from_str("dm"),
                user_id: Some(user.clone()),
                thread_id: None,
            },
        ),
        None => None,
    }
}

fn group_event_source(channel_name: &str, event: &QqMessageEvent) -> (r: Option<MessageSource>)
    ensures
        is_source(r, channel_name@, "GROUP_AT_MESSAGE_CREATE"@, *event),
{
    proof {
        reveal_strlit("C2C_MESSAGE_CREATE");
        reveal_strlit("GROUP_AT_MESSAGE_CREATE");
        assert("C2C_MESSAGE_CREATE"@.len() != "GROUP_AT_MESSAGE_CREATE"@.len());
    }
    let group = match &event.group_openid {
        Some(g) => g,
        None => return None,
    };
    let user_id = match &event.author {
        Some(author) => first_given(&author.member_openid, &author.user_openid),
        None => None,
    };
    Some(
        MessageSource {
            channel_name: String::from_str(channel_name),
            platform: String::from_str("qq"),
            chat_id: prefixed("group:", group.as_str()),
            chat_type: String::from_str("group"),
            user_id,
            thread_id: None,
        },
    )
}

fn channel_event_source(channel_name: &str, event: &QqMessageEvent) -> (r: Option<MessageSource>)
    ensures
        is_source(r, channel_name@, "AT_MESSAGE_CREATE"@, *event),
{
    proof {
        reveal_strlit("C2C_MESSAGE_CREATE");
        reveal_strlit("GROUP_AT_MESSAGE_CREATE");
        reveal_strlit("AT_MESSAGE_CREATE");
        assert("C2C_MESSAGE_CREATE"@.len() != "AT_MESSAGE_CREATE"@.len());
        assert("GROUP_AT_MESSAGE_CREATE"@.len() != "AT_MESSAGE_CREATE"@.len());
    }
    let channel = match &event.channel_id {
        Some(c) => c,
        None => return None,
    };
    let user_id = match &event.author {
        Some(author) => match &author.id {
            Some(id) => Some(id.clone()),
            None => first_given(&author.user_openid, &author.member_openid),
        },
        None => None,
    };
    Some(
        MessageSource {
            channel_name: String::from_str(channel_name),
            platform: String::from_str("qq"),
            chat_id: prefixed("channel:", channel.as_str()),
            chat_type: String::from_str("group"),
            user_id,
            thread_id: None,
        },
    )
}

/// Whether `source` is where an event's message comes from.
pub open spec fn is_source(
    source: Option<MessageSource>,
    channel_name: Seq<char>,
    event_type: Seq<char>,
    event: QqMessageEvent,
) -> bool {
    match (source, origin_of(event_type, event)) {
        (Some(s), Some(o)) => {
            &&& s.channel_name@ == channel_name
            &&& s.platform@ == "qq"@
            &&& s.chat_id@ == o.chat_id
            &&& s.chat_type@ == o.chat_type
            &&& opt_text(s.user_id) == o.user_id
            &&& s.thread_id is None
        },
        (None, None) => true,
        _ => false,
    }
}

/// The message of an event in the daemon's own terms; nothing where it says
/// nothing or has no origin.
pub fn qq_event_to_inbound(channel_name: &str, event_type: &str, event: &QqMessageEvent) -> (r:
    Option<InboundMessage>)
    ensures
        match r {
            Some(message) => {
                &&& cleaned_text(event.content@).len() > 0
                &&& message.text@ == cleaned_text(event.content@)
                &&& is_source(Some(message.source), channel_name@, event_type@, *event)
                &&& opt_text(message.message_id) == Some(event.id@)
                &&& message.attachments@.len() == 0
                &&& !message.scheduled
            },
            None => cleaned_text(event.content@).len() == 0 || origin_of(
                event_type@,
                *event,
            ) is None,
        },
{
    let source = if same_text(event_type, "C2C_MESSAGE_CREATE") {
        c2c_event_source(channel_name, event)
    } else if same_text(event_type, "GROUP_AT_MESSAGE_CREATE") {
        group_event_source(channel_name, event)
    } else if same_text(event_type, "AT_MESSAGE_CREATE") {
        channel_event_source(channel_name, event)
    } else {
        None
    };
    match source {
        Some(s) => {
            let text = clean_qq_text(event.content.as_str());
            if text.as_str().is_empty() {
                return None;
            }
            Some(InboundMessage::text(text.as_str(), s, Some(event.id.clone())))
        },
        None => None,
    }
}

/// Whether a message is passed on: it has an id that was not seen before. The
/// id is remembered.
pub fn accept_message(message: &InboundMessage, seen: &mut QqDedupCache) -> (r: bool)
    requires
        old(seen).wf(),
    ensures
        final(seen).wf(),
        final(seen).room() == old(seen).room(),
        match message.message_id {
            Some(id) => {
                &&& r == !old(seen).ids().contains(id@)
                &&& r ==> final(seen).ids() == remembered(old(seen).ids(), id@, old(seen).room())
                &&& !r ==> final(seen).ids() == old(seen).ids()
            },
            None => !r && final(seen).ids() == old(seen).ids(),
        },
{
    match &message.message_id {
        Some(id) => !seen.seen_before(id.as_str()),
        None => false,
    }
}

/// A private message comes from its sender, one in a group from the group and
/// one in a channel from the channel; the conversation carries the kind of its
/// id in front.
pub proof fn law_messages_keep_their_conversation(event: QqMessageEvent, id: Seq<char>)
    ensures
        event.author is Some && opt_text(event.author->0.user_openid) == Some(id) ==> origin_of(
            "C2C_MESSAGE_CREATE"@,
            event,
        ) == Some(
            Origin {
                chat_id: seq!['u', 's', 'e', 'r', ':'] + id,
                chat_type: seq!['d', 'm'],
                user_id: Some(id),
            },
        ),
        opt_text(event.group_openid) == Some(id) ==> ({
            let origin = origin_of("GROUP_AT_MESSAGE_CREATE"@, event);
            &&& origin is Some
            &&& origin->0.chat_id == seq!['g', 'r', 'o', 'u', 'p', ':'] + id
            &&& origin->0.chat_type == seq!['g', 'r', 'o', 'u', 'p']
            &&& event.author is Some && event.author->0.member_openid is Some
                ==> origin->0.user_id == opt_text(event.author->0.member_openid)
            &&& event.author is Some && event.author->0.member_openid is None
                ==> origin->0.user_id == opt_text(event.author->0.user_openid)
            &&& event.author is None ==> origin->0.user_id is None
        }),
        opt_text(event.channel_id) == Some(id) ==> ({
            let origin = origin_of("AT_MESSAGE_CREATE"@, event);
            &&& origin is Some
            &&& origin->0.chat_id == seq!['c', 'h', 'a', 'n', 'n', 'e', 'l', ':'] + id
            &&& origin->0.chat_type == seq!['g', 'r', 'o', 'u', 'p']
            &&& event.author is Some && event.author->0.id is Some ==> origin->0.user_id
                == opt_text(event.author->0.id)
            &&& event.author is Some && event.author->0.id is None
                && event.author->0.user_openid is Some ==> origin->0.user_id == opt_text(
                event.author->0.user_openid,
            )
            &&& event.author is None ==> origin->0.user_id is None
        }),
{
    reveal_strlit("C2C_MESSAGE_CREATE");
    reveal_strlit("GROUP_AT_MESSAGE_CREATE");
    reveal_strlit("AT_MESSAGE_CREATE");
    reveal_strlit("user:");
    reveal_strlit("group:");
    reveal_strlit("channel:");
    reveal_strlit("dm");
    reveal_strlit("group");
    assert("C2C_MESSAGE_CREATE"@.len() == 18 && "GROUP_AT_MESSAGE_CREATE"@.len() == 23
        && "AT_MESSAGE_CREATE"@.len() == 17);
    assert("user:"@ =~= seq!['u', 's', 'e', 'r', ':']);
    assert("group:"@ =~= seq!['g', 'r', 'o', 'u', 'p', ':']);
    assert("channel:"@ =~= seq!['c', 'h', 'a', 'n', 'n', 'e', 'l', ':']);
    assert("dm"@ =~= seq!['d', 'm']);
    assert("group"@ =~= seq!['g', 'r', 'o', 'u', 'p']);
}

/// Only the three kinds of messages have an origin, and only those bring a
/// message.
pub proof fn law_only_messages_have_an_origin(event_type: Seq<char>, event: QqMessageEvent)
    ensures
        origin_of(event_type, event) is Some ==> brings_message(event_type),
        brings_message("C2C_MESSAGE_CREATE"@),
        brings_message("GROUP_AT_MESSAGE_CREATE"@),
        brings_message("AT_MESSAGE_CREATE"@),
        !brings_message("READY"@),
        !brings_message("INTERACTION_CREATE"@),
{
    reveal_strlit("C2C_MESSAGE_CREATE");
    reveal_strlit("GROUP_AT_MESSAGE_CREATE");
    reveal_strlit("AT_MESSAGE_CREATE");
    reveal_strlit("READY");
    reveal_strlit("INTERACTION_CREATE");
    assert("C2C_MESSAGE_CREATE"@.len() == 18 && "C2C_MESSAGE_CREATE"@[0] == 'C');
    assert("GROUP_AT_MESSAGE_CREATE"@.len() == 23 && "AT_MESSAGE_CREATE"@.len() == 17);
    assert("READY"@.len() == 5);
    assert("INTERACTION_CREATE"@.len() == 18 && "INTERACTION_CREATE"@[0] == 'I');
}

/// A reply finds its way back: the conversation of a message names the one
/// whom the reply is sent to.
pub proof fn law_replies_go_back(event_type: Seq<char>, event: QqMessageEvent)
    requires
        origin_of(event_type, event) is Some,
    ensures
        ({
            let chat_id = origin_of(event_type, event)->0.chat_id;
            prefixed_target(chat_id) == Some(
                if event_type == "C2C_MESSAGE_CREATE"@ {
                    RecipientView::User(event.author->0.user_openid->0@)
                } else if event_type == "GROUP_AT_MESSAGE_CREATE"@ {
                    RecipientView::Group(event.group_openid->0@)
                } else {
                    RecipientView::Channel(event.channel_id->0@)
                },
            )
        }),
{
    if event_type == "C2C_MESSAGE_CREATE"@ {
        let id = event.author->0.user_openid->0@;
        law_messages_keep_their_conversation(event, id);
        law_prefixes_name_the_recipient(id);
    } else if event_type == "GROUP_AT_MESSAGE_CREATE"@ {
        let id = event.group_openid->0@;
        law_messages_keep_their_conversation(event, id);
        law_prefixes_name_the_recipient(id);
    } else {
        let id = event.channel_id->0@;
        law_messages_keep_their_conversation(event, id);
        law_prefixes_name_the_recipient(id);
    }
}

/// Heartbeats are sent as often as the gateway asks for, but not more than
/// once a second.
pub proof fn law_heartbeats_are_a_second_apart(d: Tree, value: Tree, n: nat)
    requires
        d.get("heartbeat_interval"@) == Some(value),
        whole_number(value) == Some(n),
    ensures
        n >= 1000 ==> asked_interval(d) == Some(n),
        n < 1000 ==> asked_interval(d) == Some(1000nat),
{
}

} // verus!
