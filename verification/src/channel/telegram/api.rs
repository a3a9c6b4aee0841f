//! What the Telegram channel asks of the platform, and what the answers mean.

use crate::assoc::lookup;
use crate::channel::http::without_slashes_at_end;
use crate::channel::kinds::ChannelAckKind;
use crate::channel::telegram::outbound::{
    law_every_text_is_sent, split_telegram_text, text_chunks,
};
use crate::channel::telegram::pending::{
    after_choice, callback_choice, parse_user_input_callback, TelegramPendingUserInputs,
};
use crate::channel::telegram::update::{
    telegram_download_filename, TelegramBehaviorConfig, TelegramCallbackQuery, TelegramFile,
};
use crate::config::TelegramChannelConfig;
use crate::error::{AppError, AppResult, ErrorView};
use crate::home::{join_path, joined, AppPaths};
use crate::json::{fields, lemma_with, trees, Fields, Json, Tree};
use crate::message::{
    answers_of, questions_of, InboundMessage, MessageUpdate, OutboundMessage, SendResult,
    UserInputResponse,
};
use crate::numbers::{dec, dec_int, decimal, decimal_i64, parse_i64, parsed_int};
use crate::path::file_name;
use crate::text::{
    blank, chars_of, given_or_empty, is_blank, opt_str, opt_text, string_of, strip_end,
    strip_start, texts,
};
use vstd::prelude::*;

verus! {

/// The credentials and the addresses of a bot.
pub struct ResolvedTelegramConfig {
    /// The token of the bot.
    pub bot_token: String,
    /// The address of the interface.
    pub api_base_url: String,
    /// The address of files.
    pub file_base_url: String,
}

impl ResolvedTelegramConfig {
    /// Finds the token and the addresses, given the value of the configured
    /// environment variable. A configured token keeps that of the environment
    /// from being used, even where it is blank.
    pub fn resolve(config: &TelegramChannelConfig, env_token: Option<&str>) -> (r: AppResult<Self>)
        ensures
            ({
                let token = if config.bot_token is Some {
                    opt_text(config.bot_token)
                } else {
                    opt_str(env_token)
                };
                match r {
                    Ok(found) => {
                        &&& token == Some(found.bot_token@)
                        &&& !is_blank(found.bot_token@)
                        &&& found.api_base_url@ == config.api_base_url@
                        &&& found.file_base_url@ == config.file_base_url@
                    },
                    Err(e) => (token is None || is_blank(token->0)) && e@ == ErrorView::Channel(
                        "telegram bot token is required"@,
                    ),
                }
            }),
    {
        let token = match &config.bot_token {
            Some(s) => s.clone(),
            None => match env_token {
                Some(s) => String::from_str(s),
                None => return Err(AppError::channel("telegram bot token is required")),
            },
        };
        if blank(token.as_str()) {
            return Err(AppError::channel("telegram bot token is required"));
        }
        Ok(
            ResolvedTelegramConfig {
                bot_token: token,
                api_base_url: config.api_base_url.clone(),
                file_base_url: config.file_base_url.clone(),
            },
        )
    }
}

/// How updates are fetched.
#[derive(Debug, Clone, Copy, PartialEq, Eq, Structural)]
pub struct TelegramPollingConfig {
    /// Whether a webhook is removed first.
    pub delete_webhook_on_start: bool,
    /// For how many seconds the platform may hold back its answer.
    pub poll_timeout_seconds: u64,
    /// How many updates one answer may hold.
    pub poll_limit: u32,
}

/// How updates are fetched: with a timeout of at least one second, and between
/// one and a hundred updates at a time.
pub fn polling_config(config: &TelegramChannelConfig) -> (r: TelegramPollingConfig)
    ensures
        r.delete_webhook_on_start == config.delete_webhook_on_start,
        r.poll_timeout_seconds == if config.poll_timeout_seconds < 1 {
            1
        } else {
            config.poll_timeout_seconds
        },
        r.poll_limit == if config.poll_limit < 1 {
            1
        } else if config.poll_limit > 100 {
            100
        } else {
            config.poll_limit
        },
{
    TelegramPollingConfig {
        delete_webhook_on_start: config.delete_webhook_on_start,
        poll_timeout_seconds: if config.poll_timeout_seconds < 1 {
            1
        } else {
            config.poll_timeout_seconds
        },
        poll_limit: if config.poll_limit < 1 {
            1
        } else if config.poll_limit > 100 {
            100
        } else {
            config.poll_limit
        },
    }
}

/// How messages are handled.
pub fn behavior_config(config: &TelegramChannelConfig) -> (r: TelegramBehaviorConfig)
    ensures
        r.require_mention == config.require_mention,
        r.send_typing == config.send_typing,
        r.download_attachments == config.download_attachments,
        r.max_download_bytes == config.max_download_bytes,
{
    TelegramBehaviorConfig {
        require_mention: config.require_mention,
        send_typing: config.send_typing,
        download_attachments: config.download_attachments,
        max_download_bytes: config.max_download_bytes,
    }
}

fn without_slashes_at_start(s: &str) -> (r: String)
    ensures
        r@ == strip_start(s@, '/'),
{
    let cs = chars_of(s);
    let mut n: usize = 0;
    assert(cs@.skip(0) =~= cs@);
    while n < cs.len() && cs[n] == '/'
        invariant
            n <= cs@.len(),
            strip_start(cs@, '/') == strip_start(cs@.skip(n as int), '/'),
        decreases cs@.len() - n,
    {
        assert(cs@.skip(n as int).skip(1) =~= cs@.skip(n + 1));
        n += 1;
    }
    let rest = vstd::slice::slice_subrange(&cs, n, cs.len());
    assert(rest@ =~= cs@.skip(n as int));
    string_of(rest)
}

/// The address of a method of the interface.
pub fn method_url(config: &ResolvedTelegramConfig, method: &str) -> (r: String)
    ensures
        r@ == strip_end(config.api_base_url@, '/') + "/bot"@ + config.bot_token@ + "/"@ + method@,
{
    let mut out = without_slashes_at_end(config.api_base_url.as_str());
    out.append("/bot");
    out.append(config.bot_token.as_str());
    out.append("/");
    out.append(method);
    out
}

/// The address of a file.
pub fn file_url(config: &ResolvedTelegramConfig, file_path: &str) -> (r: String)
    ensures
        r@ == strip_end(config.file_base_url@, '/') + "/bot"@ + config.bot_token@ + "/"@
            + strip_start(file_path@, '/'),
{
    let mut out = without_slashes_at_end(config.file_base_url.as_str());
    out.append("/bot");
    out.append(config.bot_token.as_str());
    out.append("/");
    out.append(without_slashes_at_start(file_path).as_str());
    out
}

/// The kinds of updates that are asked for.
pub open spec fn update_kinds() -> Seq<Seq<char>> {
    Seq::<Seq<char>>::empty().push("message"@).push("edited_message"@).push("channel_post"@).push(
        "edited_channel_post"@,
    ).push("business_connection"@).push("business_message"@).push("edited_business_message"@).push(
        "deleted_business_messages"@,
    ).push("guest_message"@).push("message_reaction"@).push("message_reaction_count"@).push(
        "inline_query"@,
    ).push("chosen_inline_result"@).push("callback_query"@).push("shipping_query"@).push(
        "pre_checkout_query"@,
    ).push("purchased_paid_media"@).push("poll"@).push("poll_answer"@).push("my_chat_member"@).push(
        "chat_member"@,
    ).push("chat_join_request"@).push("chat_boost"@).push("removed_chat_boost"@).push(
        "managed_bot"@,
    )
}

/// The kinds of updates that are asked for.
pub fn telegram_allowed_updates() -> (r: Vec<&'static str>)
    ensures
        Seq::new(r@.len(), |i: int| r@[i]@) == update_kinds(),
{
    let mut kinds: Vec<&'static str> = Vec::new();
    kinds.push("message");
    kinds.push("edited_message");
    kinds.push("channel_post");
    kinds.push("edited_channel_post");
    kinds.push("business_connection");
    kinds.push("business_message");
    kinds.push("edited_business_message");
    kinds.push("deleted_business_messages");
    kinds.push("guest_message");
    kinds.push("message_reaction");
    kinds.push("message_reaction_count");
    kinds.push("inline_query");
    kinds.push("chosen_inline_result");
    kinds.push("callback_query");
    kinds.push("shipping_query");
    kinds.push("pre_checkout_query");
    kinds.push("purchased_paid_media");
    kinds.push("poll");
    kinds.push("poll_answer");
    kinds.push("my_chat_member");
    kinds.push("chat_member");
    kinds.push("chat_join_request");
    kinds.push("chat_boost");
    kinds.push("removed_chat_boost");
    kinds.push("managed_bot");
    assert(Seq::new(kinds@.len(), |i: int| kinds@[i]@) =~= update_kinds());
    kinds
}

/// A number in JSON.
pub open spec fn number(n: int) -> Tree {
    Tree::Number(dec_int(n))
}

/// The request for updates.
pub open spec fn updates_body(offset: Option<i64>, timeout: u64, limit: u32) -> Tree {
    let kinds = Tree::List(Seq::new(update_kinds().len(), |i: int| Tree::Text(update_kinds()[i])));
    let body = fields().with("timeout"@, number(timeout as int)).with(
        "limit"@,
        number(limit as int),
    ).with("allowed_updates"@, kinds);
    match offset {
        Some(n) => body.with("offset"@, number(n as int)),
        None => body,
    }.tree()
}

/// The request for updates.
pub fn get_updates_body(offset: Option<i64>, timeout: u64, limit: u32) -> (r: Json)
    ensures
        r@ == updates_body(offset, timeout, limit),
{
    let kinds = telegram_allowed_updates();
    let ghost names = Seq::new(kinds@.len(), |i: int| kinds@[i]@);
    let mut list: Vec<Json> = Vec::new();
    let mut i: usize = 0;
    while i < kinds.len()
        invariant
            i <= kinds@.len(),
            list@.len() == i,
            names == Seq::new(kinds@.len(), |i: int| kinds@[i]@),
            forall|k: int| 0 <= k < i ==> (#[trigger] list@[k])@ == Tree::Text(names[k]),
        decreases kinds@.len() - i,
    {
        assert(names[i as int] == kinds@[i as int]@);
        list.push(Json::text(kinds[i]));
        i += 1;
    }
    assert(trees(list@) =~= Seq::new(
        update_kinds().len(),
        |i: int| Tree::Text(update_kinds()[i]),
    ));
    let body = Fields::new().with("timeout", Json::Number(decimal(timeout as u128))).with(
        "limit",
        Json::Number(decimal(limit as u128)),
    ).with("allowed_updates", Json::list(list));
    match offset {
        Some(n) => body.with("offset", Json::Number(decimal_i64(n))).object(),
        None => body.object(),
    }
}

/// The request to remove a webhook.
pub fn delete_webhook_body() -> (r: Json)
    ensures
        r@ == fields().with("drop_pending_updates"@, Tree::Bool(false)).tree(),
{
    Fields::new().with("drop_pending_updates", Json::Bool(false)).object()
}

/// The number that a text stands for.
pub open spec fn number_in(s: Option<Seq<char>>) -> Option<int> {
    match s {
        Some(text) => parsed_int(text, i64::MIN as int, i64::MAX as int),
        None => None,
    }
}

/// The number that an optional text stands for.
pub fn optional_number(s: Option<&str>) -> (r: Option<i64>)
    ensures
        match r {
            Some(n) => number_in(opt_str(s)) == Some(n as int),
            None => number_in(opt_str(s)) is None,
        },
{
    match s {
        Some(text) => {
            let cs = chars_of(text);
            parse_i64(&cs)
        },
        None => None,
    }
}

fn as_ref(v: &Option<String>) -> (r: Option<&str>)
    ensures
        opt_str(r) == opt_text(*v),
{
    match v {
        Some(s) => Some(s.as_str()),
        None => None,
    }
}

/// The request to send one message.
pub open spec fn send_body(
    chat_id: Seq<char>,
    text: Seq<char>,
    thread_id: Option<int>,
    reply_to: Option<int>,
    reply_markup: Option<Tree>,
) -> Tree {
    let plain = fields().text("chat_id"@, chat_id).text("text"@, text).with(
        "disable_web_page_preview"@,
        Tree::Bool(true),
    );
    let threaded = match thread_id {
        Some(id) => plain.with("message_thread_id"@, number(id)),
        None => plain,
    };
    let replying = match reply_to {
        Some(id) => threaded.with(
            "reply_parameters"@,
            fields().with("message_id"@, number(id)).tree(),
        ),
        None => threaded,
    };
    match reply_markup {
        Some(markup) => replying.with("reply_markup"@, markup),
        None => replying,
    }.tree()
}

/// An optional machine number as a mathematical one.
pub open spec fn as_number(n: Option<i64>) -> Option<int> {
    match n {
        Some(v) => Some(v as int),
        None => None,
    }
}

/// What an optional JSON value holds.
pub open spec fn opt_tree(v: Option<Json>) -> Option<Tree> {
    match v {
        Some(json) => Some(json@),
        None => None,
    }
}

fn send_message_body(
    chat_id: &str,
    text: &str,
    thread_id: Option<i64>,
    reply_to: Option<i64>,
    reply_markup: Option<Json>,
) -> (r: Json)
    ensures
        r@ == send_body(
            chat_id@,
            text@,
            as_number(thread_id),
            as_number(reply_to),
            opt_tree(reply_markup),
        ),
{
    let plain = Fields::new().text("chat_id", chat_id).text("text", text).with(
        "disable_web_page_preview",
        Json::Bool(true),
    );
    let threaded = match thread_id {
        Some(id) => plain.with("message_thread_id", Json::Number(decimal_i64(id))),
        None => plain,
    };
    let replying = match reply_to {
        Some(id) => threaded.with(
            "reply_parameters",
            Fields::new().with("message_id", Json::Number(decimal_i64(id))).object(),
        ),
        None => threaded,
    };
    match reply_markup {
        Some(markup) => replying.with("reply_markup", markup).object(),
        None => replying.object(),
    }
}

/// The requests that send a text: one for each message that it becomes. Only
/// the first is a reply and has buttons.
pub open spec fn send_bodies(
    chat_id: Seq<char>,
    text: Seq<char>,
    reply_to: Option<Seq<char>>,
    thread_id: Option<int>,
    reply_markup: Option<Tree>,
) -> Seq<Tree> {
    let chunks = text_chunks(text);
    Seq::new(
        chunks.len(),
        |i: int|
            if i == 0 {
                send_body(chat_id, chunks[i], thread_id, number_in(reply_to), reply_markup)
            } else {
                send_body(chat_id, chunks[i], thread_id, None, None)
            },
    )
}

/// The requests that send a text.
pub fn send_message_bodies(
    chat_id: &str,
    text: &str,
    reply_to: Option<&str>,
    message_thread_id: Option<i64>,
    reply_markup: Option<Json>,
) -> (r: Vec<Json>)
    ensures
        trees(r@) == send_bodies(
            chat_id@,
            text@,
            opt_str(reply_to),
            as_number(message_thread_id),
            opt_tree(reply_markup),
        ),
{
    let chunks = split_telegram_text(text);
    let ghost markup = opt_tree(reply_markup);
    let ghost all = send_bodies(
        chat_id@,
        text@,
        opt_str(reply_to),
        as_number(message_thread_id),
        markup,
    );
    let mut bodies: Vec<Json> = Vec::new();
    let mut left = reply_markup;
    let mut i: usize = 0;
    while i < chunks.len()
        invariant
            i <= chunks@.len(),
            bodies@.len() == i,
            texts(chunks@) == text_chunks(text@),
            i == 0 ==> opt_tree(left) == markup,
            all == send_bodies(
                chat_id@,
                text@,
                opt_str(reply_to),
                as_number(message_thread_id),
                markup,
            ),
            forall|k: int| 0 <= k < i ==> (#[trigger] bodies@[k])@ == all[k],
        decreases chunks@.len() - i,
    {
        assert(texts(chunks@)[i as int] == chunks@[i as int]@);
        let chunk = chunks[i].as_str();
        let body = if i == 0 {
            let reply = optional_number(reply_to);
            send_message_body(chat_id, chunk, message_thread_id, reply, left)
        } else {
            send_message_body(chat_id, chunk, message_thread_id, None, None)
        };
        left = None;
        assert(body@ == all[i as int]);
        bodies.push(body);
        i += 1;
    }
    assert(trees(bodies@) =~= all);
    bodies
}

/// The requests that send an outbound message.
pub fn plan_send(message: &OutboundMessage) -> (r: Vec<Json>)
    ensures
        trees(r@) == send_bodies(
            message.chat_id@,
            message.text@,
            opt_text(message.reply_to),
            number_in(opt_text(message.thread_id)),
            None,
        ),
{
    let thread = optional_number(as_ref(&message.thread_id));
    send_message_bodies(
        message.chat_id.as_str(),
        message.text.as_str(),
        as_ref(&message.reply_to),
        thread,
        None,
    )
}

/// What sending came to, given the ids of the messages that were sent: the
/// last of them counts.
pub fn sent_result(message_ids: &[i64]) -> (r: AppResult<SendResult>)
    ensures
        match r {
            Ok(result) => {
                &&& message_ids@.len() > 0
                &&& result.success
                &&& opt_text(result.message_id) == Some(dec_int(message_ids@.last() as int))
            },
            Err(e) => message_ids@.len() == 0 && e@ == ErrorView::Channel(
                "telegram sendMessage produced no message"@,
            ),
        },
{
    let n: usize = message_ids.len();
    if n == 0 {
        return Err(AppError::channel("telegram sendMessage produced no message"));
    }
    Ok(SendResult { success: true, message_id: Some(decimal_i64(message_ids[n - 1])) })
}

/// Reads the id of a message.
pub fn parse_message_id(value: &str) -> (r: AppResult<i64>)
    ensures
        match r {
            Ok(n) => number_in(Some(value@)) == Some(n as int),
            Err(e) => number_in(Some(value@)) is None && e@ == ErrorView::Channel(
                "invalid telegram message_id="@ + value@,
            ),
        },
{
    let cs = chars_of(value);
    match parse_i64(&cs) {
        Some(n) => Ok(n),
        None => {
            let mut text = String::from_str("invalid telegram message_id=");
            text.append(value);
            Err(AppError::Channel(text))
        },
    }
}

/// The request to change a message. A message can only hold the first part of
/// a long text.
pub open spec fn edit_body(chat_id: Seq<char>, message_id: int, text: Seq<char>) -> Tree {
    let chunks = text_chunks(text);
    let chunk = if chunks.len() > 0 {
        chunks[0]
    } else {
        " "@
    };
    fields().text("chat_id"@, chat_id).with("message_id"@, number(message_id)).text(
        "text"@,
        chunk,
    ).with("disable_web_page_preview"@, Tree::Bool(true)).tree()
}

/// The request to change a message.
pub fn plan_update(message: &MessageUpdate) -> (r: AppResult<Json>)
    ensures
        match r {
            Ok(body) => {
                &&& message.chat_id is Some
                &&& number_in(Some(message.message_id@)) is Some
                &&& body@ == edit_body(
                    message.chat_id->0@,
                    number_in(Some(message.message_id@))->0,
                    message.text@,
                )
            },
            Err(e) => if message.chat_id is None {
                e@ == ErrorView::Channel(
                    "telegram update chat_id is missing for message_id="@ + message.message_id@,
                )
            } else {
                number_in(Some(message.message_id@)) is None && e@ == ErrorView::Channel(
                    "invalid telegram message_id="@ + message.message_id@,
                )
            },
        },
{
    let chat_id = match &message.chat_id {
        Some(id) => id.as_str(),
        None => {
            let mut text = String::from_str("telegram update chat_id is missing for message_id=");
            text.append(message.message_id.as_str());
            return Err(AppError::Channel(text));
        },
    };
    let message_id = match parse_message_id(message.message_id.as_str()) {
        Ok(id) => id,
        Err(e) => return Err(e),
    };
    let chunks = split_telegram_text(message.text.as_str());
    assert(texts(chunks@).len() == chunks@.len());
    let body = Fields::new().text("chat_id", chat_id).with(
        "message_id",
        Json::Number(decimal_i64(message_id)),
    );
    let filled = if chunks.len() > 0 {
        assert(texts(chunks@)[0] == chunks@[0]@);
        body.text("text", chunks[0].as_str())
    } else {
        body.text("text", " ")
    };
    Ok(filled.with("disable_web_page_preview", Json::Bool(true)).object())
}

/// The request to show that the bot is doing something.
pub open spec fn chat_action_body(
    chat_id: Seq<char>,
    action: Seq<char>,
    thread_id: Option<int>,
) -> Tree {
    let body = fields().text("chat_id"@, chat_id).text("action"@, action);
    match thread_id {
        Some(id) => body.with("message_thread_id"@, number(id)),
        None => body,
    }.tree()
}

/// The request to show that the bot is doing something.
pub fn send_chat_action_body(
    chat_id: &str,
    action: &str,
    message_thread_id: Option<i64>,
) -> (r: Json)
    ensures
        r@ == chat_action_body(chat_id@, action@, as_number(message_thread_id)),
{
    let body = Fields::new().text("chat_id", chat_id).text("action", action);
    match message_thread_id {
        Some(id) => body.with("message_thread_id", Json::Number(decimal_i64(id))).object(),
        None => body.object(),
    }
}

/// The request to react to a message.
pub open spec fn reaction_body(
    chat_id: Seq<char>,
    message_id: int,
    emoji: Seq<char>,
    is_big: bool,
) -> Tree {
    let reaction = fields().text("type"@, "emoji"@).text("emoji"@, emoji).tree();
    fields().text("chat_id"@, chat_id).with("message_id"@, number(message_id)).with(
        "reaction"@,
        Tree::List(seq![reaction]),
    ).with("is_big"@, Tree::Bool(is_big)).tree()
}

/// The request to react to a message.
pub fn build_message_reaction_body(
    chat_id: &str,
    message_id: i64,
    emoji: &str,
    is_big: bool,
) -> (r: Json)
    ensures
        r@ == reaction_body(chat_id@, message_id as int, emoji@, is_big),
{
    let reaction = Fields::new().text("type", "emoji").text("emoji", emoji).object();
    let mut list: Vec<Json> = Vec::new();
    list.push(reaction);
    assert(trees(list@) =~= seq![reaction@]);
    Fields::new().text("chat_id", chat_id).with(
        "message_id",
        Json::Number(decimal_i64(message_id)),
    ).with("reaction", Json::list(list)).with("is_big", Json::Bool(is_big)).object()
}

/// The answer to a button that was pressed.
pub open spec fn callback_answer(callback_query_id: Seq<char>, text: Option<Seq<char>>) -> Tree {
    let body = fields().text("callback_query_id"@, callback_query_id);
    match text {
        Some(t) => body.text("text"@, t),
        None => body,
    }.tree()
}

/// The answer to a button that was pressed.
pub fn answer_callback_query_body(callback_query_id: &str, text: Option<&str>) -> (r: Json)
    ensures
        r@ == callback_answer(callback_query_id@, opt_str(text)),
{
    let body = Fields::new().text("callback_query_id", callback_query_id);
    match text {
        Some(t) => body.text("text", t).object(),
        None => body.object(),
    }
}

/// The request for what is known of a file.
pub fn get_file_body(file_id: &str) -> (r: Json)
    ensures
        r@ == fields().text("file_id"@, file_id@).tree(),
{
    Fields::new().text("file_id", file_id).object()
}

/// The choice of a waiting request that a button stands for.
pub open spec fn pressed(callback: TelegramCallbackQuery) -> Option<(Seq<char>, nat, nat)> {
    match callback.data {
        Some(data) => callback_choice(data@),
        None => None,
    }
}

/// A request that was completed.
pub struct CompletedRequest {
    /// The request.
    pub request_id: String,
    /// All its answers.
    pub response: UserInputResponse,
}

/// What came of a button that was pressed.
pub struct CallbackOutcome {
    /// How the platform is answered.
    pub body: Json,
    /// The request that was completed with it.
    pub completed: Option<CompletedRequest>,
}

/// Handles a button that was pressed, and says how the platform is answered:
/// a choice that completes its request is confirmed, one that does not is
/// noted, and other buttons get an empty answer.
pub fn handle_callback_query(
    callback: &TelegramCallbackQuery,
    user_inputs: &mut TelegramPendingUserInputs,
) -> (r: AppResult<CallbackOutcome>)
    requires
        old(user_inputs).wf(),
    ensures
        final(user_inputs).wf(),
        match pressed(*callback) {
            None => {
                &&& final(user_inputs)@ == old(user_inputs)@
                &&& r is Ok
                &&& r->Ok_0.body@ == callback_answer(callback.id@, None)
                &&& r->Ok_0.completed is None
            },
            Some((id, question, option)) => {
                &&& final(user_inputs)@ == after_choice(
                    old(user_inputs)@,
                    id,
                    question as int,
                    option as int,
                )
                &&& match lookup(old(user_inputs)@, id) {
                    None => {
                        &&& r is Ok
                        &&& r->Ok_0.body@ == callback_answer(callback.id@, Some("已记录"@))
                        &&& r->Ok_0.completed is None
                    },
                    Some(p) => if !p.has_choice(question as int, option as int) {
                        r is Err && r->Err_0@ == ErrorView::Channel(
                            if question >= questions_of(p.request).len() {
                                "telegram callback question index invalid"@
                            } else {
                                "telegram callback option index invalid"@
                            },
                        )
                    } else if p.is_complete(p.chosen(question as int, option as int)) {
                        &&& r is Ok
                        &&& r->Ok_0.body@ == callback_answer(callback.id@, Some("已选择"@))
                        &&& r->Ok_0.completed is Some
                        &&& r->Ok_0.completed->0.request_id@ == id
                        &&& answers_of(r->Ok_0.completed->0.response.answers) == p.chosen(
                            question as int,
                            option as int,
                        )
                    } else {
                        &&& r is Ok
                        &&& r->Ok_0.body@ == callback_answer(callback.id@, Some("已记录"@))
                        &&& r->Ok_0.completed is None
                    },
                }
            },
        },
{
    let choice = match &callback.data {
        Some(data) => parse_user_input_callback(data.as_str()),
        None => None,
    };
    let (request_id, question, option) = match choice {
        Some(found) => found,
        None => return Ok(
            CallbackOutcome {
                body: answer_callback_query_body(callback.id.as_str(), None),
                completed: None,
            },
        ),
    };
    match user_inputs.answer_callback(request_id.as_str(), question, option) {
        Ok(Some(response)) => Ok(
            CallbackOutcome {
                body: answer_callback_query_body(callback.id.as_str(), Some("已选择")),
                completed: Some(CompletedRequest { request_id, response }),
            },
        ),
        Ok(None) => Ok(
            CallbackOutcome {
                body: answer_callback_query_body(callback.id.as_str(), Some("已记录")),
                completed: None,
            },
        ),
        Err(e) => Err(e),
    }
}

/// A number as a debugging text shows it where it may be missing.
pub open spec fn shown_number(n: Option<i64>) -> Seq<char> {
    match n {
        Some(v) => "Some("@ + dec_int(v as int) + ")"@,
        None => "None"@,
    }
}

/// Rejects an answer that is no success, given its status and its text.
pub fn check_status(method: &str, success: bool, status: &str, text: &str) -> (r: AppResult<()>)
    ensures
        match r {
            Ok(_) => success,
            Err(e) => !success && e@ == ErrorView::Channel(
                "telegram api "@ + method@ + " failed with "@ + status@ + ": "@ + text@,
            ),
        },
{
    if success {
        return Ok(());
    }
    let mut message = String::from_str("telegram api ");
    message.append(method);
    message.append(" failed with ");
    message.append(status);
    message.append(": ");
    message.append(text);
    Err(AppError::Channel(message))
}

/// An answer of the interface.
pub struct TelegramApiResponse<T> {
    /// Whether the request succeeded.
    pub ok: bool,
    /// What was asked for.
    pub result: Option<T>,
    /// Why the request failed.
    pub description: Option<String>,
    /// The code of the failure.
    pub error_code: Option<i64>,
}

impl<T> TelegramApiResponse<T> {
    /// What was asked for, where the request succeeded.
    pub fn into_result(self, method: &str) -> (r: AppResult<T>)
        ensures
            match r {
                Ok(result) => self.ok && self.result == Some(result),
                Err(e) => if !self.ok {
                    e@ == ErrorView::Channel(
                        "telegram api "@ + method@ + " error code="@ + shown_number(self.error_code)
                            + " desc="@ + given_or_empty(opt_text(self.description)),
                    )
                } else {
                    self.result is None && e@ == ErrorView::Channel(
                        "telegram api "@ + method@ + " missing result"@,
                    )
                },
            },
    {
        if !self.ok {
            let mut message = String::from_str("telegram api ");
            message.append(method);
            message.append(" error code=");
            match self.error_code {
                Some(n) => {
                    let mut shown = String::from_str("Some(");
                    shown.append(decimal_i64(n).as_str());
                    shown.append(")");
                    message.append(shown.as_str());
                },
                None => {
                    message.append("None");
                },
            }
            message.append(" desc=");
            match self.description {
                Some(d) => {
                    message.append(d.as_str());
                },
                None => {
                    assert(message@ + Seq::<char>::empty() =~= message@);
                },
            }
            return Err(AppError::Channel(message));
        }
        match self.result {
            Some(result) => Ok(result),
            None => {
                let mut message = String::from_str("telegram api ");
                message.append(method);
                message.append(" missing result");
                Err(AppError::Channel(message))
            },
        }
    }
}

/// Why a file that is too large is not taken.
pub open spec fn too_large(size: nat, max: nat) -> ErrorView {
    ErrorView::Channel(
        "telegram file exceeds max_download_bytes: "@ + dec(size) + " > "@ + dec(max),
    )
}

fn too_large_error(size: u64, max: u64) -> (r: AppError)
    ensures
        r@ == too_large(size as nat, max as nat),
{
    let mut message = String::from_str("telegram file exceeds max_download_bytes: ");
    message.append(decimal(size as u128).as_str());
    message.append(" > ");
    message.append(decimal(max as u128).as_str());
    AppError::Channel(message)
}

/// Rejects a file that could not be fetched or is too large.
pub fn check_download(
    success: bool,
    status: &str,
    text: &str,
    size: u64,
    max_bytes: u64,
) -> (r: AppResult<()>)
    ensures
        match r {
            Ok(_) => success && size <= max_bytes,
            Err(e) => if !success {
                e@ == ErrorView::Channel(
                    "telegram file download failed with "@ + status@ + ": "@ + text@,
                )
            } else {
                size > max_bytes && e@ == too_large(size as nat, max_bytes as nat)
            },
        },
{
    if !success {
        let mut message = String::from_str("telegram file download failed with ");
        message.append(status);
        message.append(": ");
        message.append(text);
        return Err(AppError::Channel(message));
    }
    if size > max_bytes {
        return Err(too_large_error(size, max_bytes));
    }
    Ok(())
}

/// Where a picture is fetched, unless it is too large or cannot be fetched.
pub fn photo_path(file: &TelegramFile, max_download_bytes: u64) -> (r: AppResult<String>)
    ensures
        match r {
            Ok(path) => {
                &&& file.file_size is Some ==> file.file_size->0 <= max_download_bytes
                &&& opt_text(file.file_path) == Some(path@)
            },
            Err(e) => if file.file_size is Some && file.file_size->0 > max_download_bytes {
                e@ == too_large(file.file_size->0 as nat, max_download_bytes as nat)
            } else {
                file.file_path is None && e@ == ErrorView::Channel(
                    "telegram getFile missing file_path"@,
                )
            },
        },
{
    if let Some(size) = file.file_size {
        if size > max_download_bytes {
            return Err(too_large_error(size, max_download_bytes));
        }
    }
    match &file.file_path {
        Some(path) => Ok(path.clone()),
        None => Err(AppError::channel("telegram getFile missing file_path")),
    }
}

/// Where a file is fetched and what it is called; nothing where it cannot be
/// fetched.
pub fn file_download(file: &TelegramFile, given_name: &Option<String>) -> (r: Option<
    (String, String),
>)
    ensures
        match r {
            Some((path, name)) => {
                &&& opt_text(file.file_path) == Some(path@)
                &&& name@ == match given_name {
                    Some(given) => given@,
                    None => match file_name(path@) {
                        Some(end) => end,
                        None => file.file_unique_id@,
                    },
                }
            },
            None => file.file_path is None,
        },
{
    match &file.file_path {
        Some(path) => {
            let name = match given_name {
                Some(given) => given.clone(),
                None => telegram_download_filename(file, path.as_str()),
            };
            Some((path.clone(), name))
        },
        None => None,
    }
}

/// Where the channel keeps the number of the next update.
pub fn telegram_offset_path(paths: &AppPaths, name: &str) -> (r: String)
    ensures
        r@ == joined(joined(joined(paths.channel_data_dir@, "telegram"@), name@), "offset"@),
{
    let base = join_path(paths.channel_data_dir.as_str(), "telegram");
    let dir = join_path(base.as_str(), name);
    join_path(dir.as_str(), "offset")
}

/// What is done to confirm something.
pub enum TelegramAck {
    /// Nothing is left to do.
    Done,
    /// A reaction is set.
    Reaction(Json),
    /// The bot is shown to be typing.
    Typing(Json),
    /// A short text is sent.
    Text(Vec<Json>),
    /// The failure is passed on.
    Fail,
}

/// The id of the message, where it is a number.
pub open spec fn message_number(message: InboundMessage) -> Option<int> {
    number_in(opt_text(message.message_id))
}

/// Whether `ack` shows that the bot is typing.
pub open spec fn is_typing(ack: TelegramAck, message: InboundMessage) -> bool {
    ack is Typing && ack->Typing_0@ == chat_action_body(
        message.source.chat_id@,
        "typing"@,
        number_in(opt_text(message.source.thread_id)),
    )
}

/// Whether `ack` says that the session was reset.
pub open spec fn is_reset_text(ack: TelegramAck, message: InboundMessage) -> bool {
    ack is Text && trees(ack->Text_0@) == send_bodies(
        message.source.chat_id@,
        "已重置。"@,
        opt_text(message.message_id),
        number_in(opt_text(message.source.thread_id)),
        None,
    )
}

/// Whether `ack` is what is done where no reaction can be set.
pub open spec fn is_fallback(ack: TelegramAck, message: InboundMessage, kind: ChannelAckKind) -> bool {
    match kind {
        ChannelAckKind::Received => is_typing(ack, message),
        ChannelAckKind::ResetDone => is_reset_text(ack, message),
        ChannelAckKind::StopDone => ack is Done,
    }
}

fn fallback_ack(message: &InboundMessage, kind: ChannelAckKind) -> (r: TelegramAck)
    ensures
        is_fallback(r, *message, kind),
{
    let thread = optional_number(as_ref(&message.source.thread_id));
    match kind {
        ChannelAckKind::Received => TelegramAck::Typing(
            send_chat_action_body(message.source.chat_id.as_str(), "typing", thread),
        ),
        ChannelAckKind::ResetDone => TelegramAck::Text(
            send_message_bodies(
                message.source.chat_id.as_str(),
                "已重置。",
                as_ref(&message.message_id),
                thread,
                None,
            ),
        ),
        ChannelAckKind::StopDone => TelegramAck::Done,
    }
}

/// How something is confirmed: by a reaction, where the message can have one.
/// A received message is only confirmed where that is switched on.
pub fn acknowledge(message: &InboundMessage, kind: ChannelAckKind, received_enabled: bool) -> (r:
    TelegramAck)
    ensures
        if kind == ChannelAckKind::Received && !received_enabled {
            r is Done
        } else {
            match message_number(*message) {
                Some(id) => r is Reaction && r->Reaction_0@ == reaction_body(
                    message.source.chat_id@,
                    id,
                    "\u{1F440}"@,
                    true,
                ),
                None => is_fallback(r, *message, kind),
            }
        },
{
    if kind == ChannelAckKind::Received && !received_enabled {
        return TelegramAck::Done;
    }
    match optional_number(as_ref(&message.message_id)) {
        Some(id) => TelegramAck::Reaction(
            build_message_reaction_body(message.source.chat_id.as_str(), id, "\u{1F440}", true),
        ),
        None => fallback_ack(message, kind),
    }
}

/// What is done where the reaction failed. That a task was stopped has no other
/// confirmation.
pub fn acknowledge_without_reaction(message: &InboundMessage, kind: ChannelAckKind) -> (r:
    TelegramAck)
    ensures
        if kind == ChannelAckKind::StopDone {
            r is Fail
        } else {
            is_fallback(r, *message, kind)
        },
{
    if kind == ChannelAckKind::StopDone {
        return TelegramAck::Fail;
    }
    fallback_ack(message, kind)
}

/// The names of the fields of requests are all different.
proof fn lemma_field_names()
    ensures
        "chat_id"@ != "text"@,
        "chat_id"@ != "disable_web_page_preview"@,
        "chat_id"@ != "message_thread_id"@,
        "chat_id"@ != "message_id"@,
        "chat_id"@ != "reply_parameters"@,
        "chat_id"@ != "reply_markup"@,
        "text"@ != "disable_web_page_preview"@,
        "text"@ != "message_thread_id"@,
        "text"@ != "message_id"@,
        "text"@ != "reply_parameters"@,
        "text"@ != "reply_markup"@,
        "disable_web_page_preview"@ != "message_thread_id"@,
        "disable_web_page_preview"@ != "reply_parameters"@,
        "disable_web_page_preview"@ != "reply_markup"@,
        "message_thread_id"@ != "reply_parameters"@,
        "message_thread_id"@ != "reply_markup"@,
        "reply_parameters"@ != "reply_markup"@,
{
    reveal_strlit("chat_id");
    reveal_strlit("text");
    reveal_strlit("disable_web_page_preview");
    reveal_strlit("message_thread_id");
    reveal_strlit("message_id");
    reveal_strlit("reply_parameters");
    reveal_strlit("reply_markup");
    assert("chat_id"@.len() == 7 && "text"@.len() == 4 && "disable_web_page_preview"@.len() == 24);
    assert("message_thread_id"@.len() == 17 && "reply_parameters"@.len() == 16);
    assert("reply_markup"@.len() == 12 && "message_id"@.len() == 10);
}

/// A message that is sent carries its chat and its text, and its thread, the
/// message that it answers and its buttons where it has them; where it has
/// none, the fields are missing.
pub proof fn law_sent_messages_carry_their_parts(
    chat_id: Seq<char>,
    text: Seq<char>,
    thread_id: Option<int>,
    reply_to: Option<int>,
    reply_markup: Option<Tree>,
)
    ensures
        ({
            let body = send_body(chat_id, text, thread_id, reply_to, reply_markup);
            &&& body.text_field("chat_id"@) == Some(chat_id)
            &&& body.text_field("text"@) == Some(text)
            &&& body.get("message_thread_id"@) == match thread_id {
                Some(id) => Some(Tree::Number(dec_int(id))),
                None => None,
            }
            &&& body.get("reply_markup"@) == reply_markup
            &&& reply_to is None ==> body.get("reply_parameters"@) is None
            &&& reply_to matches Some(id) ==> body.get("reply_parameters"@) is Some && body.get(
                "reply_parameters"@,
            )->0.get("message_id"@) == Some(Tree::Number(dec_int(id)))
        }),
{
    lemma_field_names();
    let body = send_body(chat_id, text, thread_id, reply_to, reply_markup);
    lemma_send_field(chat_id, text, thread_id, reply_to, reply_markup, "chat_id"@);
    lemma_send_field(chat_id, text, thread_id, reply_to, reply_markup, "text"@);
    lemma_send_field(chat_id, text, thread_id, reply_to, reply_markup, "message_thread_id"@);
    lemma_send_field(chat_id, text, thread_id, reply_to, reply_markup, "reply_parameters"@);
    lemma_send_field(chat_id, text, thread_id, reply_to, reply_markup, "reply_markup"@);
    if reply_to is Some {
        lemma_with(fields(), "message_id"@, number(reply_to->0), "message_id"@);
    }
}

/// What the field with the given name of a request is.
proof fn lemma_send_field(
    chat_id: Seq<char>,
    text: Seq<char>,
    thread_id: Option<int>,
    reply_to: Option<int>,
    reply_markup: Option<Tree>,
    name: Seq<char>,
)
    ensures
        send_body(chat_id, text, thread_id, reply_to, reply_markup).get(name) == if name
            == "chat_id"@ {
            Some(Tree::Text(chat_id))
        } else if name == "text"@ {
            Some(Tree::Text(text))
        } else if name == "disable_web_page_preview"@ {
            Some(Tree::Bool(true))
        } else if name == "message_thread_id"@ && thread_id is Some {
            Some(number(thread_id->0))
        } else if name == "reply_parameters"@ && reply_to is Some {
            Some(fields().with("message_id"@, number(reply_to->0)).tree())
        } else if name == "reply_markup"@ {
            reply_markup
        } else {
            None
        },
{
    lemma_field_names();
    let a = fields();
    lemma_with(a, "chat_id"@, Tree::Text(chat_id), name);
    let b = a.text("chat_id"@, chat_id);
    lemma_with(b, "text"@, Tree::Text(text), name);
    let c = b.text("text"@, text);
    lemma_with(c, "disable_web_page_preview"@, Tree::Bool(true), name);
    let plain = c.with("disable_web_page_preview"@, Tree::Bool(true));
    let threaded = match thread_id {
        Some(id) => {
            lemma_with(plain, "message_thread_id"@, number(id), name);
            plain.with("message_thread_id"@, number(id))
        },
        None => plain,
    };
    let replying = match reply_to {
        Some(id) => {
            let value = fields().with("message_id"@, number(id)).tree();
            lemma_with(threaded, "reply_parameters"@, value, name);
            threaded.with("reply_parameters"@, value)
        },
        None => threaded,
    };
    match reply_markup {
        Some(markup) => {
            lemma_with(replying, "reply_markup"@, markup, name);
        },
        None => {},
    }
}

/// The messages of a long text all go to its chat and its thread and hold its
/// parts in order; only the first answers a message and has the buttons.
pub proof fn law_long_texts_answer_once(
    chat_id: Seq<char>,
    text: Seq<char>,
    reply_to: Option<Seq<char>>,
    thread_id: Option<int>,
    reply_markup: Option<Tree>,
    i: int,
)
    requires
        0 <= i < text_chunks(text).len(),
    ensures
        ({
            let sent = send_bodies(chat_id, text, reply_to, thread_id, reply_markup);
            &&& sent.len() == text_chunks(text).len()
            &&& sent[i].text_field("chat_id"@) == Some(chat_id)
            &&& sent[i].text_field("text"@) == Some(text_chunks(text)[i])
            &&& sent[i].get("message_thread_id"@) is Some <==> thread_id is Some
            &&& i > 0 ==> sent[i].get("reply_parameters"@) is None && sent[i].get(
                "reply_markup"@,
            ) is None
            &&& i == 0 ==> sent[i].get("reply_markup"@) == reply_markup
            &&& i == 0 && number_in(reply_to) is Some ==> sent[i].get("reply_parameters"@) is Some
        }),
{
    law_sent_messages_carry_their_parts(
        chat_id,
        text_chunks(text)[i],
        thread_id,
        if i == 0 {
            number_in(reply_to)
        } else {
            None
        },
        if i == 0 {
            reply_markup
        } else {
            None
        },
    );
}

/// A changed message carries its chat, its id and the first part of its text.
pub proof fn law_changed_messages_carry_their_parts(
    chat_id: Seq<char>,
    message_id: int,
    text: Seq<char>,
)
    ensures
        ({
            let body = edit_body(chat_id, message_id, text);
            &&& body.text_field("chat_id"@) == Some(chat_id)
            &&& body.get("message_id"@) == Some(Tree::Number(dec_int(message_id)))
            &&& body.text_field("text"@) == Some(text_chunks(text)[0])
        }),
{
    lemma_field_names();
    law_every_text_is_sent(text);
    reveal_strlit("message_id");
    reveal_strlit("disable_web_page_preview");
    assert("message_id"@.len() == 10 && "disable_web_page_preview"@.len() == 24);
    let names = seq!["chat_id"@, "message_id"@, "text"@];
    assert forall|i: int| 0 <= i < 3 implies edit_body(chat_id, message_id, text).get(
        #[trigger] names[i],
    ) == if i == 0 {
        Some(Tree::Text(chat_id))
    } else if i == 1 {
        Some(number(message_id))
    } else {
        Some(Tree::Text(text_chunks(text)[0]))
    } by {
        let a = fields();
        lemma_with(a, "chat_id"@, Tree::Text(chat_id), names[i]);
        let b = a.text("chat_id"@, chat_id);
        lemma_with(b, "message_id"@, number(message_id), names[i]);
        let c = b.with("message_id"@, number(message_id));
        lemma_with(c, "text"@, Tree::Text(text_chunks(text)[0]), names[i]);
        let d = c.text("text"@, text_chunks(text)[0]);
        lemma_with(d, "disable_web_page_preview"@, Tree::Bool(true), names[i]);
    }
    let body = edit_body(chat_id, message_id, text);
    assert(body.get(names[0]) == Some(Tree::Text(chat_id)));
    assert(body.get(names[1]) == Some(number(message_id)));
    assert(body.get(names[2]) == Some(Tree::Text(text_chunks(text)[0])));
}

/// A pressed button is answered by its own id, with the text where there is
/// one.
pub proof fn law_pressed_buttons_are_answered(id: Seq<char>, text: Option<Seq<char>>)
    ensures
        callback_answer(id, text).text_field("callback_query_id"@) == Some(id),
        callback_answer(id, text).text_field("text"@) == text,
{
    reveal_strlit("callback_query_id");
    reveal_strlit("text");
    assert("callback_query_id"@.len() == 17 && "text"@.len() == 4);
    let a = fields();
    let b = a.text("callback_query_id"@, id);
    lemma_with(a, "callback_query_id"@, Tree::Text(id), "callback_query_id"@);
    lemma_with(a, "callback_query_id"@, Tree::Text(id), "text"@);
    if text is Some {
        lemma_with(b, "text"@, Tree::Text(text->0), "callback_query_id"@);
        lemma_with(b, "text"@, Tree::Text(text->0), "text"@);
    }
}

/// A reaction goes to its message, with the sign that was asked for.
pub proof fn law_reactions_go_to_their_message(
    chat_id: Seq<char>,
    message_id: int,
    emoji: Seq<char>,
    is_big: bool,
)
    ensures
        ({
            let body = reaction_body(chat_id, message_id, emoji, is_big);
            &&& body.text_field("chat_id"@) == Some(chat_id)
            &&& body.get("message_id"@) == Some(Tree::Number(dec_int(message_id)))
            &&& body.get("reaction"@) matches Some(Tree::List(list)) && list.len() == 1
                && list[0].text_field("emoji"@) == Some(emoji)
        }),
{
    reveal_strlit("chat_id");
    reveal_strlit("message_id");
    reveal_strlit("reaction");
    reveal_strlit("is_big");
    reveal_strlit("type");
    reveal_strlit("emoji");
    assert("chat_id"@.len() == 7 && "message_id"@.len() == 10 && "reaction"@.len() == 8
        && "is_big"@.len() == 6 && "type"@.len() == 4 && "emoji"@.len() == 5);
    reveal_with_fuel(crate::json::field_of, 5);
    let body = reaction_body(chat_id, message_id, emoji, is_big);
    let all = body->Object_0;
    assert(all.skip(1)[0] == all[1] && all.skip(1).skip(1)[0] == all[2]);
    let list = all[2].1->List_0;
    assert(body.get("reaction"@) == Some(Tree::List(list)));
    let own = list[0]->Object_0;
    assert(own.skip(1)[0] == own[1]);
    assert(list[0].text_field("emoji"@) == Some(emoji));
}

/// Updates are asked for from the given number on, where there is one.
pub proof fn law_updates_start_at_the_offset(offset: Option<i64>, timeout: u64, limit: u32)
    ensures
        updates_body(offset, timeout, limit).get("offset"@) == match offset {
            Some(n) => Some(Tree::Number(dec_int(n as int))),
            None => None,
        },
        updates_body(offset, timeout, limit).get("limit"@) == Some(
            Tree::Number(dec_int(limit as int)),
        ),
        updates_body(offset, timeout, limit).get("timeout"@) == Some(
            Tree::Number(dec_int(timeout as int)),
        ),
{
    reveal_strlit("timeout");
    reveal_strlit("limit");
    reveal_strlit("allowed_updates");
    reveal_strlit("offset");
    assert("timeout"@.len() == 7 && "limit"@.len() == 5 && "allowed_updates"@.len() == 15
        && "offset"@.len() == 6);
    reveal_with_fuel(crate::json::field_of, 5);
    let all = updates_body(offset, timeout, limit)->Object_0;
    assert(all.skip(1)[0] == all[1] && all.skip(1).skip(1)[0] == all[2]);
    assert(all.skip(1).skip(1).skip(1).len() == all.len() - 3);
    if offset is Some {
        assert(all.skip(1).skip(1).skip(1)[0] == all[3]);
    }
}

} // verus!
