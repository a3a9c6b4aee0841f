//! What the QQ channel asks of the platform, and what the answers mean.

use crate::assoc::{assign, lookup};
use crate::channel::http::without_slashes_at_end;
use crate::channel::qq::cache::{
    following, newest, next_number, QqSentMessageTarget, QqSentMessageTargets, TargetView,
};
use crate::channel::qq::event::{as_u64, whole_number};
use crate::channel::qq::pending::{
    build_qq_user_input_keyboard, build_qq_user_input_markdown, qq_keyboard, question_markdown,
    QqPendingUserInputs,
};
use crate::channel::qq::text::{qq_outbound_markdown, restored_text};
use crate::config::QqChannelConfig;
use crate::error::{AppError, AppResult, ErrorView};
use crate::json::{fields, FieldList, Fields, Json, Tree};
use crate::message::{
    clone_opt, outbound_target_from_source, questions_of, InboundMessage, MessageSource,
    MessageUpdate, OutboundFormat, OutboundMessage, OutboundRecipient, UserInputRequest,
};
use crate::numbers::{dec, decimal, parse_unsigned, parsed};
use crate::text::{
    blank, chars_of, has_prefix, is_blank, is_white, lemma_trimmed, opt_str, opt_text, same_text,
    string_of, strip_end, trim, trimmed_text,
};
use vstd::prelude::*;
use vstd::slice::slice_subrange;

verus! {

/// The credentials and the addresses of a bot.
pub struct ResolvedQqConfig {
    /// Where tokens come from.
    pub auth_url: String,
    /// The address of the interface.
    pub api_base_url: String,
    /// The application's id.
    pub app_id: String,
    /// The application's secret.
    pub app_secret: String,
    /// The events that are asked for.
    pub intents: u64,
}

/// A secret: the configured one, else that of the environment; white space
/// around it does not count, and a blank one is none.
pub open spec fn qq_secret(value: Option<Seq<char>>, env_value: Option<Seq<char>>) -> Option<
    Seq<char>,
> {
    if value is Some && !is_blank(value->0) {
        Some(trim(value->0))
    } else if env_value is Some && !is_blank(env_value->0) {
        Some(trim(env_value->0))
    } else {
        None
    }
}

/// Finds a secret, given the value of its environment variable.
pub fn resolve_secret(value: &Option<String>, env_value: Option<&str>) -> (r: Option<String>)
    ensures
        opt_text(r) == qq_secret(opt_text(*value), opt_str(env_value)),
{
    if let Some(s) = value {
        if !blank(s.as_str()) {
            return Some(trimmed_text(s.as_str()));
        }
    }
    match env_value {
        Some(s) => if blank(s) {
            None
        } else {
            Some(trimmed_text(s))
        },
        None => None,
    }
}

impl ResolvedQqConfig {
    /// Finds the credentials and the addresses, given the values of the
    /// configured environment variables.
    pub fn resolve(
        config: &QqChannelConfig,
        env_app_id: Option<&str>,
        env_app_secret: Option<&str>,
    ) -> (r: AppResult<Self>)
        ensures
            ({
                let id = qq_secret(opt_text(config.app_id), opt_str(env_app_id));
                let key = qq_secret(opt_text(config.app_secret), opt_str(env_app_secret));
                match r {
                    Ok(found) => {
                        &&& id == Some(found.app_id@)
                        &&& key == Some(found.app_secret@)
                        &&& found.auth_url@ == config.auth_url@
                        &&& found.api_base_url@ == strip_end(config.api_base_url@, '/')
                        &&& found.intents == config.intents
                    },
                    Err(e) => if id is None {
                        e@ == ErrorView::Channel("qq app_id is required"@)
                    } else {
                        key is None && e@ == ErrorView::Channel("qq app_secret is required"@)
                    },
                }
            }),
    {
        let app_id = match resolve_secret(&config.app_id, env_app_id) {
            Some(s) => s,
            None => return Err(AppError::channel("qq app_id is required")),
        };
        let app_secret = match resolve_secret(&config.app_secret, env_app_secret) {
            Some(s) => s,
            None => return Err(AppError::channel("qq app_secret is required")),
        };
        Ok(
            ResolvedQqConfig {
                auth_url: config.auth_url.clone(),
                api_base_url: without_slashes_at_end(config.api_base_url.as_str()),
                app_id,
                app_secret,
                intents: config.intents,
            },
        )
    }
}

/// How many messages are remembered: at least one.
pub fn cache_size(configured: usize) -> (r: usize)
    ensures
        r == if configured < 1 {
            1
        } else {
            configured
        },
{
    if configured < 1 {
        1
    } else {
        configured
    }
}

/// Seconds before the next attempt to connect: at least one.
pub fn reconnect_seconds(configured: u64) -> (r: u64)
    ensures
        r == if configured < 1 {
            1
        } else {
            configured
        },
{
    if configured < 1 {
        1
    } else {
        configured
    }
}

/// The request for a token.
pub fn token_body(config: &ResolvedQqConfig) -> (r: Json)
    ensures
        r@ == fields().text("appId"@, config.app_id@).text(
            "clientSecret"@,
            config.app_secret@,
        ).tree(),
{
    Fields::new().text("appId", config.app_id.as_str()).text(
        "clientSecret",
        config.app_secret.as_str(),
    ).object()
}

/// The lifetime that an answer names, as a number or as a text.
pub open spec fn named_lifetime(tree: Tree) -> Option<nat> {
    match tree {
        Tree::Text(s) => parsed(s, u64::MAX as nat),
        _ => whole_number(tree),
    }
}

/// The lifetime that an answer names, as a number or as a text.
pub fn parse_expires_in(value: &Json) -> (r: Option<u64>)
    ensures
        match r {
            Some(n) => named_lifetime(value@) == Some(n as nat),
            None => named_lifetime(value@) is None,
        },
{
    match value {
        Json::Text(s) => {
            let cs = chars_of(s.as_str());
            match parse_unsigned(&cs, u64::MAX as u128) {
                Some(n) => Some(n as u64),
                None => None,
            }
        },
        _ => as_u64(value),
    }
}

/// The header that carries a token.
pub fn authorization(token: &str) -> (r: String)
    ensures
        r@ == "QQBot "@ + token@,
{
    let mut out = String::from_str("QQBot ");
    out.append(token);
    out
}

/// The address of the gateway.
pub fn gateway_url(config: &ResolvedQqConfig) -> (r: String)
    ensures
        r@ == config.api_base_url@ + "/gateway/bot"@,
{
    let mut out = config.api_base_url.clone();
    out.append("/gateway/bot");
    out
}

/// The address that confirms a pressed button.
pub fn interaction_url(config: &ResolvedQqConfig, interaction_id: &str) -> (r: String)
    ensures
        r@ == config.api_base_url@ + "/interactions/"@ + interaction_id@,
{
    let mut out = config.api_base_url.clone();
    out.append("/interactions/");
    out.append(interaction_id);
    out
}

/// What confirms a pressed button.
pub fn interaction_body(code: i64) -> (r: Json)
    ensures
        r@ == fields().with("code"@, Tree::Number(crate::numbers::dec_int(code as int))).tree(),
{
    Fields::new().with("code", Json::Number(crate::numbers::decimal_i64(code))).object()
}

/// Whom a message is sent to.
#[derive(Debug, PartialEq, Eq)]
pub enum QqMessageTarget {
    /// A user.
    User(String),
    /// A group.
    Group(String),
    /// A channel.
    Channel(String),
}

/// The contents of a target.
pub enum RecipientView {
    User(Seq<char>),
    Group(Seq<char>),
    Channel(Seq<char>),
}

impl View for QqMessageTarget {
    type V = RecipientView;

    open spec fn view(&self) -> RecipientView {
        match self {
            QqMessageTarget::User(id) => RecipientView::User(id@),
            QqMessageTarget::Group(id) => RecipientView::Group(id@),
            QqMessageTarget::Channel(id) => RecipientView::Channel(id@),
        }
    }
}

/// Whom a conversation stands for, by the prefix of its id.
pub open spec fn prefixed_target(chat_id: Seq<char>) -> Option<RecipientView> {
    if "user:"@.is_prefix_of(chat_id) {
        Some(RecipientView::User(chat_id.skip(5)))
    } else if "group:"@.is_prefix_of(chat_id) {
        Some(RecipientView::Group(chat_id.skip(6)))
    } else if "channel:"@.is_prefix_of(chat_id) {
        Some(RecipientView::Channel(chat_id.skip(8)))
    } else {
        None
    }
}

fn after_prefix(cs: &Vec<char>, prefix: &str, Ghost(n): Ghost<nat>) -> (r: Option<String>)
    requires
        prefix@.len() == n,
    ensures
        match r {
            Some(rest) => prefix@.is_prefix_of(cs@) && rest@ == cs@.skip(n as int),
            None => !prefix@.is_prefix_of(cs@),
        },
{
    let p = chars_of(prefix);
    if has_prefix(cs, &p) {
        let rest = slice_subrange(cs, p.len(), cs.len());
        assert(rest@ =~= cs@.skip(n as int));
        Some(string_of(rest))
    } else {
        None
    }
}

fn target_by_prefix(chat_id: &str) -> (r: Option<QqMessageTarget>)
    ensures
        match r {
            Some(target) => prefixed_target(chat_id@) == Some(target@),
            None => prefixed_target(chat_id@) is None,
        },
{
    proof {
        reveal_strlit("user:");
        reveal_strlit("group:");
        reveal_strlit("channel:");
    }
    let cs = chars_of(chat_id);
    if let Some(id) = after_prefix(&cs, "user:", Ghost(5)) {
        return Some(QqMessageTarget::User(id));
    }
    if let Some(id) = after_prefix(&cs, "group:", Ghost(6)) {
        return Some(QqMessageTarget::Group(id));
    }
    match after_prefix(&cs, "channel:", Ghost(8)) {
        Some(id) => Some(QqMessageTarget::Channel(id)),
        None => None,
    }
}

impl QqMessageTarget {
    /// Whom an outbound message is sent to: what the prefix of its
    /// conversation says, else the user that it names.
    pub fn from_outbound(chat_id: &str, recipient: OutboundRecipient) -> (r: AppResult<Self>)
        ensures
            match r {
                Ok(target) => match prefixed_target(chat_id@) {
                    Some(known) => target@ == known,
                    None => recipient == OutboundRecipient::User && target@ == RecipientView::User(
                        chat_id@,
                    ),
                },
                Err(e) => {
                    &&& prefixed_target(chat_id@) is None
                    &&& recipient == OutboundRecipient::Chat
                    &&& e@ == ErrorView::Channel(
                        "qq chat_id must start with user:, group:, or channel:"@,
                    )
                },
            },
    {
        if let Some(target) = target_by_prefix(chat_id) {
            return Ok(target);
        }
        match recipient {
            OutboundRecipient::User => Ok(QqMessageTarget::User(String::from_str(chat_id))),
            OutboundRecipient::Chat => Err(
                AppError::channel("qq chat_id must start with user:, group:, or channel:"),
            ),
        }
    }

    /// Whom questions for a source are sent to: what the prefix of its
    /// conversation says, else the sender of a private message.
    pub fn from_source(source: &MessageSource) -> (r: AppResult<Self>)
        ensures
            ({
                let private = source.chat_type@ == "dm"@ && source.user_id is Some && !is_blank(
                    source.user_id->0@,
                );
                match r {
                    Ok(target) => match prefixed_target(source.chat_id@) {
                        Some(known) => target@ == known,
                        None => private && target@ == RecipientView::User(source.user_id->0@),
                    },
                    Err(e) => {
                        &&& prefixed_target(source.chat_id@) is None
                        &&& !private
                        &&& e@ == ErrorView::Channel(
                            "qq source chat_id must start with user:, group:, or channel:"@,
                        )
                    },
                }
            }),
    {
        if let Some(target) = target_by_prefix(source.chat_id.as_str()) {
            return Ok(target);
        }
        if same_text(source.chat_type.as_str(), "dm") {
            if let Some(user_id) = &source.user_id {
                if !blank(user_id.as_str()) {
                    return Ok(QqMessageTarget::User(user_id.clone()));
                }
            }
        }
        Err(AppError::channel("qq source chat_id must start with user:, group:, or channel:"))
    }
}

impl RecipientView {
    /// The address that messages are sent to.
    pub open spec fn url(self, base: Seq<char>) -> Seq<char> {
        match self {
            RecipientView::User(id) => base + "/v2/users/"@ + id + "/messages"@,
            RecipientView::Group(id) => base + "/v2/groups/"@ + id + "/messages"@,
            RecipientView::Channel(id) => base + "/channels/"@ + id + "/messages"@,
        }
    }
}

/// The address that messages to a target are sent to.
pub fn messages_url(api_base_url: &str, target: &QqMessageTarget) -> (r: String)
    ensures
        r@ == target@.url(api_base_url@),
{
    let mut out = String::from_str(api_base_url);
    match target {
        QqMessageTarget::User(id) => {
            out.append("/v2/users/");
            out.append(id.as_str());
        },
        QqMessageTarget::Group(id) => {
            out.append("/v2/groups/");
            out.append(id.as_str());
        },
        QqMessageTarget::Channel(id) => {
            out.append("/channels/");
            out.append(id.as_str());
        },
    }
    out.append("/messages");
    out
}

/// The fields that make a message a reply: the message that is replied to and
/// the number of the reply, which is one where it is not given.
pub open spec fn with_reply(
    body: FieldList,
    reply_to: Option<Seq<char>>,
    msg_seq: Option<u64>,
) -> FieldList {
    if reply_to is Some && !is_blank(reply_to->0) {
        let n: u64 = match msg_seq {
            Some(n) => n,
            None => 1,
        };
        body.text("msg_id"@, reply_to->0).with("msg_seq"@, Tree::Number(dec(n as nat)))
    } else {
        body
    }
}

fn attach_reply_fields(body: Fields, reply_to: Option<&str>, msg_seq: Option<u64>) -> (r: Fields)
    ensures
        r@ == with_reply(body@, opt_str(reply_to), msg_seq),
{
    match reply_to {
        Some(id) => if blank(id) {
            body
        } else {
            let n: u64 = match msg_seq {
                Some(n) => n,
                None => 1,
            };
            body.text("msg_id", id).with("msg_seq", Json::Number(decimal(n as u128)))
        },
        None => body,
    }
}

/// The request to send a text: as Markdown to users and groups, as it is to
/// channels.
pub open spec fn text_body(
    target: RecipientView,
    text: Seq<char>,
    reply_to: Option<Seq<char>>,
    msg_seq: Option<u64>,
) -> Tree {
    let body = match target {
        RecipientView::Channel(_) => fields().text("content"@, text).with(
            "msg_type"@,
            Tree::Number("0"@),
        ),
        _ => fields().text("content"@, text).with("msg_type"@, Tree::Number("2"@)).with(
            "markdown"@,
            fields().text("content"@, text).tree(),
        ),
    };
    with_reply(body, reply_to, msg_seq).tree()
}

fn make_message_body(
    target: &QqMessageTarget,
    text: &str,
    reply_to: Option<&str>,
    msg_seq: Option<u64>,
) -> (r: Json)
    ensures
        r@ == text_body(target@, text@, opt_str(reply_to), msg_seq),
{
    let body = match target {
        QqMessageTarget::Channel(_) => Fields::new().text("content", text).with(
            "msg_type",
            Json::Number(String::from_str("0")),
        ),
        _ => Fields::new().text("content", text).with(
            "msg_type",
            Json::Number(String::from_str("2")),
        ).with("markdown", Fields::new().text("content", text).object()),
    };
    attach_reply_fields(body, reply_to, msg_seq).object()
}

/// A request to the platform: an address and what is sent to it.
pub struct QqRequest {
    /// The address.
    pub url: String,
    /// What is sent.
    pub body: Json,
}

/// The request to send a text.
pub fn send_text_request(
    api_base_url: &str,
    chat_id: &str,
    recipient: OutboundRecipient,
    text: &str,
    reply_to: Option<&str>,
    msg_seq: Option<u64>,
) -> (r: AppResult<QqRequest>)
    ensures
        ({
            let target = match prefixed_target(chat_id@) {
                Some(known) => known,
                None => RecipientView::User(chat_id@),
            };
            match r {
                Ok(request) => {
                    &&& prefixed_target(chat_id@) is Some || recipient == OutboundRecipient::User
                    &&& request.url@ == target.url(api_base_url@)
                    &&& request.body@ == text_body(
                        target,
                        restored_text(text@),
                        opt_str(reply_to),
                        msg_seq,
                    )
                },
                Err(e) => {
                    &&& prefixed_target(chat_id@) is None
                    &&& recipient == OutboundRecipient::Chat
                    &&& e@ == ErrorView::Channel(
                        "qq chat_id must start with user:, group:, or channel:"@,
                    )
                },
            }
        }),
{
    let target = match QqMessageTarget::from_outbound(chat_id, recipient) {
        Ok(t) => t,
        Err(e) => return Err(e),
    };
    let url = messages_url(api_base_url, &target);
    let shown = qq_outbound_markdown(text);
    let body = make_message_body(&target, shown.as_str(), reply_to, msg_seq);
    Ok(QqRequest { url, body })
}

/// The request to ask questions.
pub fn send_user_input_request(
    config: &ResolvedQqConfig,
    source: &MessageSource,
    request_id: &str,
    request: &UserInputRequest,
) -> (r: AppResult<QqRequest>)
    ensures
        ({
            let private = source.chat_type@ == "dm"@ && source.user_id is Some && !is_blank(
                source.user_id->0@,
            );
            let target = match prefixed_target(source.chat_id@) {
                Some(known) => known,
                None => RecipientView::User(source.user_id->0@),
            };
            let questions = questions_of(*request);
            let markdown = question_markdown(questions);
            match r {
                Ok(sent) => {
                    &&& prefixed_target(source.chat_id@) is Some || private
                    &&& sent.url@ == target.url(config.api_base_url@)
                    &&& sent.body@ == fields().text("content"@, markdown).with(
                        "msg_type"@,
                        Tree::Number("2"@),
                    ).with("markdown"@, fields().text("content"@, markdown).tree()).with(
                        "keyboard"@,
                        qq_keyboard(config.app_id@, request_id@, questions),
                    ).tree()
                },
                Err(e) => {
                    &&& prefixed_target(source.chat_id@) is None
                    &&& !private
                    &&& e@ == ErrorView::Channel(
                        "qq source chat_id must start with user:, group:, or channel:"@,
                    )
                },
            }
        }),
{
    let target = match QqMessageTarget::from_source(source) {
        Ok(t) => t,
        Err(e) => return Err(e),
    };
    let url = messages_url(config.api_base_url.as_str(), &target);
    let markdown = build_qq_user_input_markdown(request);
    let body = Fields::new().text("content", markdown.as_str()).with(
        "msg_type",
        Json::Number(String::from_str("2")),
    ).with("markdown", Fields::new().text("content", markdown.as_str()).object()).with(
        "keyboard",
        build_qq_user_input_keyboard(config.app_id.as_str(), request_id, request),
    ).object();
    Ok(QqRequest { url, body })
}

/// The id of a message that was sent, unless it is blank.
pub fn sent_id(id: Option<String>) -> (r: Option<String>)
    ensures
        r == if id is Some && !is_blank(id->0@) {
            id
        } else {
            None
        },
{
    match id {
        Some(s) => if blank(s.as_str()) {
            None
        } else {
            Some(s)
        },
        None => None,
    }
}

/// How a message is sent.
#[derive(Debug, PartialEq, Eq)]
pub struct QqSendPlan {
    /// The conversation.
    pub chat_id: String,
    /// What kind of recipient it is.
    pub recipient: OutboundRecipient,
    /// The message that is replied to.
    pub reply_to: Option<String>,
    /// The number of the reply, where it is known.
    pub msg_seq: Option<u64>,
    /// The number of the reply after this one.
    pub next_msg_seq: u64,
}

impl QqSendPlan {
    /// What is remembered of a message that was sent by this plan.
    pub open spec fn target(self) -> TargetView {
        TargetView {
            chat_id: self.chat_id@,
            recipient: self.recipient,
            reply_to: opt_text(self.reply_to),
            next_msg_seq: self.next_msg_seq,
        }
    }
}

/// Where a message is sent: a reply to a message that is remembered goes where
/// that one went, with the next number; another message goes where it says.
pub fn plan_send(message: &OutboundMessage, sent: &mut QqSentMessageTargets) -> (r: QqSendPlan)
    requires
        old(sent).wf(),
    ensures
        final(sent).wf(),
        final(sent).room() == old(sent).room(),
        ({
            let known = match message.reply_to {
                Some(id) => lookup(old(sent)@, id@),
                None => None,
            };
            match known {
                Some(t) => {
                    &&& r.chat_id@ == t.chat_id
                    &&& r.recipient == t.recipient
                    &&& opt_text(r.reply_to) == t.reply_to
                    &&& r.msg_seq == Some(t.next_msg_seq)
                    &&& r.next_msg_seq == next_number(t.next_msg_seq)
                    &&& final(sent)@ == assign(old(sent)@, message.reply_to->0@, t.used())
                },
                None => {
                    &&& r.chat_id@ == message.chat_id@
                    &&& r.recipient == message.recipient
                    &&& opt_text(r.reply_to) == opt_text(message.reply_to)
                    &&& r.msg_seq is None
                    &&& r.next_msg_seq == 2
                    &&& final(sent)@ == old(sent)@
                },
            }
        }),
{
    let cached = match &message.reply_to {
        Some(id) => sent.next_target(id.as_str()),
        None => None,
    };
    match cached {
        Some(target) => QqSendPlan {
            chat_id: target.chat_id,
            recipient: target.recipient,
            reply_to: target.reply_to,
            msg_seq: Some(target.msg_seq),
            next_msg_seq: following(target.msg_seq),
        },
        None => QqSendPlan {
            chat_id: message.chat_id.clone(),
            recipient: message.recipient,
            reply_to: clone_opt(&message.reply_to),
            msg_seq: None,
            next_msg_seq: 2,
        },
    }
}

/// Where a message with a new text is sent: as a further reply where the one
/// that it replaces was sent. Messages that are not remembered cannot be
/// replaced.
pub fn plan_update(message: &MessageUpdate, sent: &mut QqSentMessageTargets) -> (r: AppResult<
    QqSendPlan,
>)
    requires
        old(sent).wf(),
    ensures
        final(sent).wf(),
        final(sent).room() == old(sent).room(),
        match lookup(old(sent)@, message.message_id@) {
            Some(t) => {
                &&& r is Ok
                &&& r->Ok_0.chat_id@ == t.chat_id
                &&& r->Ok_0.recipient == t.recipient
                &&& opt_text(r->Ok_0.reply_to) == t.reply_to
                &&& r->Ok_0.msg_seq == if t.reply_to is Some {
                    Some(t.next_msg_seq)
                } else {
                    None
                }
                &&& r->Ok_0.next_msg_seq == next_number(t.next_msg_seq)
                &&& final(sent)@ == assign(old(sent)@, message.message_id@, t.used())
            },
            None => {
                &&& r is Err
                &&& r->Err_0@ == ErrorView::Channel(
                    "qq update target is missing for message_id="@ + message.message_id@,
                )
                &&& final(sent)@ == old(sent)@
            },
        },
{
    match sent.next_target(message.message_id.as_str()) {
        Some(target) => {
            let msg_seq = if target.reply_to.is_some() {
                Some(target.msg_seq)
            } else {
                None
            };
            Ok(
                QqSendPlan {
                    chat_id: target.chat_id,
                    recipient: target.recipient,
                    reply_to: target.reply_to,
                    msg_seq,
                    next_msg_seq: following(target.msg_seq),
                },
            )
        },
        None => {
            let mut text = String::from_str("qq update target is missing for message_id=");
            text.append(message.message_id.as_str());
            Err(AppError::Channel(text))
        },
    }
}

/// Remembers a message that was sent.
pub fn note_sent(plan: QqSendPlan, message_id: &Option<String>, sent: &mut QqSentMessageTargets)
    requires
        old(sent).wf(),
    ensures
        final(sent).wf(),
        final(sent).room() == old(sent).room(),
        final(sent)@ == match message_id {
            Some(id) => newest(assign(old(sent)@, id@, plan.target()), old(sent).room()),
            None => old(sent)@,
        },
{
    if let Some(id) = message_id {
        let target = QqSentMessageTarget {
            chat_id: plan.chat_id,
            recipient: plan.recipient,
            reply_to: plan.reply_to,
            next_msg_seq: plan.next_msg_seq,
        };
        sent.insert(id.clone(), target);
    }
}

/// The message that a confirmation replies to: one with an id that is not
/// blank.
pub open spec fn confirmable(message: InboundMessage) -> Option<Seq<char>> {
    if message.message_id is Some && !is_blank(message.message_id->0@) {
        Some(message.message_id->0@)
    } else {
        None
    }
}

/// How it is confirmed that a message was received: by a short reply, sent as
/// the plan says; a message without an id gets none.
pub fn plan_received(message: &InboundMessage) -> (r: Option<QqSendPlan>)
    ensures
        match r {
            Some(plan) => {
                &&& confirmable(*message) is Some
                &&& opt_text(plan.reply_to) == confirmable(*message)
                &&& plan.msg_seq is None
                &&& plan.next_msg_seq == 2
                &&& if message.source.addresses_user() {
                    plan.recipient == OutboundRecipient::User && plan.chat_id@
                        == message.source.user_id->0@
                } else {
                    plan.recipient == OutboundRecipient::Chat && plan.chat_id@
                        == message.source.chat_id@
                }
            },
            None => confirmable(*message) is None,
        },
{
    let id = match &message.message_id {
        Some(id) => if blank(id.as_str()) {
            return None;
        } else {
            id
        },
        None => return None,
    };
    let (recipient, chat_id) = outbound_target_from_source(&message.source);
    Some(
        QqSendPlan {
            chat_id,
            recipient,
            reply_to: Some(id.clone()),
            msg_seq: None,
            next_msg_seq: 2,
        },
    )
}

/// The text that confirms that a message was received.
pub fn received_text() -> (r: &'static str)
    ensures
        r@ == "ing..."@,
{
    "ing..."
}

/// Remembers a confirmation that was sent: under its own id, and under the id
/// of the message that it confirms, so that the answer to that message gets the
/// next number.
pub fn note_received(
    plan: QqSendPlan,
    message_id: &Option<String>,
    sent: &mut QqSentMessageTargets,
)
    requires
        old(sent).wf(),
        plan.reply_to is Some,
    ensures
        final(sent).wf(),
        final(sent).room() == old(sent).room(),
        ({
            let room = old(sent).room();
            let noted = newest(assign(old(sent)@, plan.reply_to->0@, plan.target()), room);
            final(sent)@ == match message_id {
                Some(id) => newest(assign(noted, id@, plan.target()), room),
                None => noted,
            }
        }),
{
    let target = QqSentMessageTarget {
        chat_id: plan.chat_id,
        recipient: plan.recipient,
        reply_to: plan.reply_to,
        next_msg_seq: plan.next_msg_seq,
    };
    if let Some(original) = &target.reply_to {
        sent.insert(original.clone(), target.clone());
        if let Some(id) = message_id {
            sent.insert(id.clone(), target);
        }
    }
}

/// A short reply to a message.
pub open spec fn is_short_reply(
    reply: OutboundMessage,
    channel_name: Seq<char>,
    message: InboundMessage,
    text: Seq<char>,
) -> bool {
    let source = message.source;
    &&& reply.channel_name@ == channel_name
    &&& reply.text@ == text
    &&& reply.reply_to == message.message_id
    &&& reply.thread_id == source.thread_id
    &&& reply.format == OutboundFormat::Text
    &&& if source.addresses_user() {
        reply.recipient == OutboundRecipient::User && reply.chat_id@ == source.user_id->0@
    } else {
        reply.recipient == OutboundRecipient::Chat && reply.chat_id@ == source.chat_id@
    }
}

fn short_reply(channel_name: &str, message: &InboundMessage, text: &str) -> (r: OutboundMessage)
    ensures
        is_short_reply(r, channel_name@, *message, text@),
{
    let (recipient, chat_id) = outbound_target_from_source(&message.source);
    OutboundMessage {
        channel_name: String::from_str(channel_name),
        chat_id,
        recipient,
        text: String::from_str(text),
        reply_to: clone_opt(&message.message_id),
        thread_id: clone_opt(&message.source.thread_id),
        format: OutboundFormat::Text,
    }
}

/// How a reset is confirmed: all that was remembered is forgotten, and a short
/// reply is sent.
pub fn acknowledge_reset(
    channel_name: &str,
    message: &InboundMessage,
    user_inputs: &mut QqPendingUserInputs,
    sent: &mut QqSentMessageTargets,
) -> (r: OutboundMessage)
    requires
        old(user_inputs).wf(),
        old(sent).wf(),
    ensures
        final(user_inputs).wf(),
        final(user_inputs)@.len() == 0,
        final(sent).wf(),
        final(sent)@.len() == 0,
        final(sent).room() == old(sent).room(),
        is_short_reply(r, channel_name@, *message, "已重置。"@),
{
    user_inputs.clear();
    sent.clear();
    short_reply(channel_name, message, "已重置。")
}

/// How it is confirmed that a task was stopped: by a short reply.
pub fn acknowledge_stop(channel_name: &str, message: &InboundMessage) -> (r: OutboundMessage)
    ensures
        is_short_reply(r, channel_name@, *message, "done"@),
{
    short_reply(channel_name, message, "done")
}

/// The answer to a message whose receipt was confirmed is its second reply:
/// the platform does not take it for a repetition of the first.
pub proof fn law_answer_follows_the_confirmation(
    list: Seq<(Seq<char>, TargetView)>,
    plan: QqSendPlan,
    capacity: nat,
)
    requires
        crate::assoc::distinct(list),
        list.len() <= capacity,
        capacity > 0,
        plan.reply_to is Some,
        plan.next_msg_seq == 2,
    ensures
        ({
            let noted = newest(assign(list, plan.reply_to->0@, plan.target()), capacity);
            let found = lookup(noted, plan.reply_to->0@);
            found is Some && found->0.next_msg_seq == 2 && found->0.reply_to == Some(
                plan.reply_to->0@,
            )
        }),
{
    crate::channel::qq::cache::law_sent_is_remembered(
        list,
        plan.reply_to->0@,
        plan.target(),
        capacity,
    );
}

/// The prefix of a conversation says whom it stands for, and the rest is the
/// id; without one of the prefixes nobody is named.
pub proof fn law_prefixes_name_the_recipient(id: Seq<char>)
    ensures
        prefixed_target(seq!['u', 's', 'e', 'r', ':'] + id) == Some(RecipientView::User(id)),
        prefixed_target(seq!['g', 'r', 'o', 'u', 'p', ':'] + id) == Some(RecipientView::Group(id)),
        prefixed_target(seq!['c', 'h', 'a', 'n', 'n', 'e', 'l', ':'] + id) == Some(
            RecipientView::Channel(id),
        ),
        !id.contains(':') ==> prefixed_target(id) is None,
{
    reveal_strlit("user:");
    reveal_strlit("group:");
    reveal_strlit("channel:");
    let user = seq!['u', 's', 'e', 'r', ':'] + id;
    let group = seq!['g', 'r', 'o', 'u', 'p', ':'] + id;
    let channel = seq!['c', 'h', 'a', 'n', 'n', 'e', 'l', ':'] + id;
    assert("user:"@ =~= user.subrange(0, 5));
    assert("group:"@ =~= group.subrange(0, 6));
    assert("channel:"@ =~= channel.subrange(0, 8));
    assert(user.skip(5) =~= id && group.skip(6) =~= id && channel.skip(8) =~= id);
    assert("user:"@[0] == 'u' && "group:"@[0] == 'g' && "channel:"@[0] == 'c');
    if "user:"@.is_prefix_of(group) {
        assert(group.subrange(0, 5)[0] == 'u');
    }
    if "user:"@.is_prefix_of(channel) {
        assert(channel.subrange(0, 5)[0] == 'u');
    }
    if "group:"@.is_prefix_of(channel) {
        assert(channel.subrange(0, 6)[0] == 'g');
    }
    if !id.contains(':') {
        if "user:"@.is_prefix_of(id) {
            assert(id.subrange(0, 5)[4] == "user:"@[4]);
            assert(id[4] == ':');
        }
        if "group:"@.is_prefix_of(id) {
            assert(id.subrange(0, 6)[5] == "group:"@[5]);
            assert(id[5] == ':');
        }
        if "channel:"@.is_prefix_of(id) {
            assert(id.subrange(0, 8)[7] == "channel:"@[7]);
            assert(id[7] == ':');
        }
    }
}

/// A text that is sent carries the text; a reply names the message that it
/// answers and its number, and other messages name none.
pub proof fn law_sent_texts_carry_their_reply(
    target: RecipientView,
    text: Seq<char>,
    reply_to: Option<Seq<char>>,
    msg_seq: Option<u64>,
)
    ensures
        ({
            let body = text_body(target, text, reply_to, msg_seq);
            &&& body.text_field("content"@) == Some(text)
            &&& body.get("msg_type"@) == Some(
                Tree::Number(
                    if target is Channel {
                        seq!['0']
                    } else {
                        seq!['2']
                    },
                ),
            )
            &&& target !is Channel ==> body.get("markdown"@) is Some && body.get(
                "markdown"@,
            )->0.text_field("content"@) == Some(text)
            &&& reply_to is Some && !is_blank(reply_to->0) ==> body.text_field("msg_id"@)
                == reply_to
            &&& reply_to is Some && !is_blank(reply_to->0) && msg_seq is Some ==> body.get(
                "msg_seq"@,
            ) == Some(Tree::Number(dec(msg_seq->0 as nat)))
            &&& reply_to is Some && !is_blank(reply_to->0) && msg_seq is None ==> body.get(
                "msg_seq"@,
            ) == Some(Tree::Number(dec(1)))
            &&& reply_to is None || is_blank(reply_to->0) ==> body.get("msg_id"@) is None
                && body.get("msg_seq"@) is None
        }),
{
    reveal_strlit("content");
    reveal_strlit("msg_type");
    reveal_strlit("markdown");
    reveal_strlit("msg_id");
    reveal_strlit("msg_seq");
    reveal_strlit("0");
    reveal_strlit("2");
    assert("0"@ =~= seq!['0'] && "2"@ =~= seq!['2']);
    assert("content"@.len() == 7 && "content"@[0] == 'c');
    assert("msg_type"@.len() == 8 && "msg_type"@[1] == 's');
    assert("markdown"@.len() == 8 && "markdown"@[1] == 'a');
    assert("msg_id"@.len() == 6);
    assert("msg_seq"@.len() == 7 && "msg_seq"@[0] == 'm');
    let whole = text_body(target, text, reply_to, msg_seq)->Object_0;
    reveal_with_fuel(crate::json::field_of, 6);
    assert(whole.skip(1) =~= whole.subrange(1, whole.len() as int));
    assert(whole.len() > 1 ==> whole.skip(1)[0] == whole[1]);
    assert(whole.len() > 2 ==> whole.skip(1).skip(1)[0] == whole[2]);
    assert(whole.len() > 3 ==> whole.skip(1).skip(1).skip(1)[0] == whole[3]);
    assert(whole.len() > 4 ==> whole.skip(1).skip(1).skip(1).skip(1)[0] == whole[4]);
}

/// A configured secret goes before that of the environment, which counts where
/// the configured one is missing or blank; white space around a secret does
/// not count.
pub proof fn law_configured_secrets_win(
    value: Option<Seq<char>>,
    env_value: Option<Seq<char>>,
    own: Seq<char>,
    before: Seq<char>,
    after: Seq<char>,
)
    requires
        own.len() > 0,
        !is_white(own[0]),
        !is_white(own.last()),
        forall|i: int| 0 <= i < before.len() ==> is_white(#[trigger] before[i]),
        forall|i: int| 0 <= i < after.len() ==> is_white(#[trigger] after[i]),
    ensures
        value == Some(before + own + after) ==> qq_secret(value, env_value) == Some(own),
        (value is None || is_blank(value->0)) && env_value == Some(before + own + after)
            ==> qq_secret(value, env_value) == Some(own),
        (value is None || is_blank(value->0)) && (env_value is None || is_blank(env_value->0))
            ==> qq_secret(value, env_value) is None,
{
    lemma_trimmed(before, own, after);
}

/// Messages to users, groups and channels go to different addresses, each of
/// which names its recipient.
pub proof fn law_addresses_name_their_recipient(base: Seq<char>, id: Seq<char>)
    ensures
        forall|target: RecipientView|
            target == RecipientView::User(id) || target == RecipientView::Group(id) || target
                == RecipientView::Channel(id) ==> base.is_prefix_of(#[trigger] target.url(base)) && (
            seq!['/'] + id + "/messages"@).is_suffix_of(target.url(base)),
        RecipientView::User(id).url(base)[(base.len() + 4) as int] == 'u',
        RecipientView::Group(id).url(base)[(base.len() + 4) as int] == 'g',
        RecipientView::Channel(id).url(base)[(base.len() + 1) as int] == 'c',
{
    reveal_strlit("/v2/users/");
    reveal_strlit("/v2/groups/");
    reveal_strlit("/channels/");
    let tail = seq!['/'] + id + "/messages"@;
    assert forall|target: RecipientView|
        target == RecipientView::User(id) || target == RecipientView::Group(id) || target
            == RecipientView::Channel(id) implies base.is_prefix_of(#[trigger] target.url(base)) && (
    seq!['/'] + id + "/messages"@).is_suffix_of(target.url(base)) by {
        let url = target.url(base);
        assert(url.subrange(0, base.len() as int) =~= base);
        assert(url.subrange(url.len() - tail.len(), url.len() as int) =~= tail);
    }
}

} // verus!
