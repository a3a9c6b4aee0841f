//! What the Feishu channel asks of the platform, and what the answers mean.

use crate::channel::feishu::card::{build_markdown_card, card, markdown_element};
use crate::channel::feishu::event::or_empty;
use crate::channel::feishu::markdown::{
    card_content, feishu_render_outbound_text, law_batches_are_full, law_batches_lose_nothing,
    law_batches_respect_the_table_limit, rendered, split_markdown_table_batches, table_batches,
    table_count, MAX_MARKDOWN_TABLES_PER_CARD,
};
use crate::error::{AppError, AppResult, ErrorView};
use crate::ids::{is_random_uuid, new_message_uuid};
use crate::json::{
    field_trees, fields, lemma_field_is_smaller, lemma_item_is_smaller, text_of, trees, Fields,
    Json, Tree,
};
use crate::message::{MessageSource, OutboundFormat, OutboundMessage, OutboundRecipient};
use crate::numbers::{dec_int, decimal_i64};
use crate::text::{
    blank, chars_of, is_blank, is_white, join, lines, lower_all, lower_chars, opt_str, opt_text,
    same_chars, same_text, split_chars, split_on, string_of, text_contains, text_has_prefix, texts,
    trim, trim_end, trim_start, trimmed_text, views,
};
use vstd::prelude::*;

verus! {

/// An image that was fetched.
pub struct DownloadedImage {
    /// The MIME type.
    pub mime_type: String,
    /// The bytes.
    pub bytes: Vec<u8>,
}

/// A file that was fetched.
pub struct DownloadedFile {
    /// The MIME type.
    pub mime_type: String,
    /// The bytes.
    pub bytes: Vec<u8>,
}

/// Whom a message is sent to.
#[derive(Debug, PartialEq, Eq)]
pub struct FeishuRecipient {
    /// The id of the recipient.
    pub id: String,
    /// The kind of the id.
    pub id_type: FeishuReceiveIdType,
}

/// The kinds of ids that messages are sent to.
#[derive(Debug, Clone, Copy, PartialEq, Eq, Structural)]
pub enum FeishuReceiveIdType {
    /// A chat.
    ChatId,
    /// A user, within the application.
    OpenId,
    /// A user, within the developer's applications.
    UnionId,
    /// A user, within the tenant.
    UserId,
}

impl FeishuReceiveIdType {
    /// The name that the platform has for the kind.
    pub open spec fn name(self) -> Seq<char> {
        match self {
            FeishuReceiveIdType::ChatId => "chat_id"@,
            FeishuReceiveIdType::OpenId => "open_id"@,
            FeishuReceiveIdType::UnionId => "union_id"@,
            FeishuReceiveIdType::UserId => "user_id"@,
        }
    }

    /// The name that the platform has for the kind.
    pub fn query_value(self) -> (r: &'static str)
        ensures
            r@ == self.name(),
    {
        match self {
            FeishuReceiveIdType::ChatId => "chat_id",
            FeishuReceiveIdType::OpenId => "open_id",
            FeishuReceiveIdType::UnionId => "union_id",
            FeishuReceiveIdType::UserId => "user_id",
        }
    }
}

/// The kind of a user's id, by its prefix.
pub open spec fn user_id_type(id: Seq<char>) -> FeishuReceiveIdType {
    if "on_"@.is_prefix_of(id) {
        FeishuReceiveIdType::UnionId
    } else if "ou_"@.is_prefix_of(id) {
        FeishuReceiveIdType::OpenId
    } else {
        FeishuReceiveIdType::UserId
    }
}

/// The kind of a user's id, by its prefix.
pub fn feishu_user_receive_id_type(id: &str) -> (r: FeishuReceiveIdType)
    ensures
        r == user_id_type(id@),
{
    if text_has_prefix(id, "on_") {
        FeishuReceiveIdType::UnionId
    } else if text_has_prefix(id, "ou_") {
        FeishuReceiveIdType::OpenId
    } else {
        FeishuReceiveIdType::UserId
    }
}

/// Whom an outbound message is sent to.
pub fn feishu_recipient_from_outbound(message: &OutboundMessage) -> (r: AppResult<FeishuRecipient>)
    ensures
        match r {
            Ok(recipient) => {
                &&& !is_blank(message.chat_id@)
                &&& recipient.id@ == trim(message.chat_id@)
                &&& recipient.id_type == match message.recipient {
                    OutboundRecipient::Chat => FeishuReceiveIdType::ChatId,
                    OutboundRecipient::User => user_id_type(trim(message.chat_id@)),
                }
            },
            Err(e) => is_blank(message.chat_id@) && e@ == ErrorView::Channel(
                "feishu outbound recipient id is empty"@,
            ),
        },
{
    let id = trimmed_text(message.chat_id.as_str());
    if id.as_str().is_empty() {
        return Err(AppError::channel("feishu outbound recipient id is empty"));
    }
    let id_type = match message.recipient {
        OutboundRecipient::Chat => FeishuReceiveIdType::ChatId,
        OutboundRecipient::User => feishu_user_receive_id_type(id.as_str()),
    };
    Ok(FeishuRecipient { id, id_type })
}

/// Whether questions for a source go to the user and not to a chat.
pub open spec fn asks_user(source: MessageSource) -> bool {
    source.chat_type@ == "dm"@ && is_blank(source.chat_id@)
}

/// Whom questions for a source are sent to.
pub fn feishu_recipient_from_source(source: &MessageSource) -> (r: AppResult<FeishuRecipient>)
    ensures
        ({
            let user = trim(or_empty(opt_text(source.user_id)));
            let chat = trim(source.chat_id@);
            match r {
                Ok(recipient) => if asks_user(*source) {
                    &&& user.len() > 0
                    &&& recipient.id@ == user
                    &&& recipient.id_type == user_id_type(user)
                } else {
                    &&& chat.len() > 0
                    &&& recipient.id@ == chat
                    &&& recipient.id_type == FeishuReceiveIdType::ChatId
                },
                Err(e) => if asks_user(*source) {
                    user.len() == 0 && e@ == ErrorView::Channel(
                        "feishu user recipient id is empty"@,
                    )
                } else {
                    chat.len() == 0 && e@ == ErrorView::Channel(
                        "feishu chat recipient id is empty"@,
                    )
                },
            }
        }),
{
    if same_text(source.chat_type.as_str(), "dm") && blank(source.chat_id.as_str()) {
        let id = match &source.user_id {
            Some(user_id) => trimmed_text(user_id.as_str()),
            None => trimmed_text(""),
        };
        if id.as_str().is_empty() {
            return Err(AppError::channel("feishu user recipient id is empty"));
        }
        let id_type = feishu_user_receive_id_type(id.as_str());
        return Ok(FeishuRecipient { id, id_type });
    }
    let id = trimmed_text(source.chat_id.as_str());
    if id.as_str().is_empty() {
        return Err(AppError::channel("feishu chat recipient id is empty"));
    }
    Ok(FeishuRecipient { id, id_type: FeishuReceiveIdType::ChatId })
}

/// The name of the platform at the given address.
pub fn platform_name(base_url: &str) -> (r: &'static str)
    ensures
        r@ == if crate::text::occurs("larksuite"@, base_url@) {
            "lark"@
        } else {
            "feishu"@
        },
{
    if text_contains(base_url, "larksuite") {
        "lark"
    } else {
        "feishu"
    }
}

fn concat3(a: &str, b: &str, c: &str) -> (r: String)
    ensures
        r@ == a@ + b@ + c@,
{
    let mut out = String::from_str(a);
    out.append(b);
    out.append(c);
    out
}

/// Where the address of the WebSocket is asked for.
pub fn ws_endpoint_url(base_url: &str) -> (r: String)
    ensures
        r@ == base_url@ + "/callback/ws/endpoint"@,
{
    let mut out = String::from_str(base_url);
    out.append("/callback/ws/endpoint");
    out
}

/// Where a message is read or changed.
pub fn message_url(base_url: &str, message_id: &str) -> (r: String)
    ensures
        r@ == base_url@ + "/open-apis/im/v1/messages/"@ + message_id@,
{
    concat3(base_url, "/open-apis/im/v1/messages/", message_id)
}

/// Where a message is sent to.
pub fn create_url(base_url: &str, id_type: FeishuReceiveIdType) -> (r: String)
    ensures
        r@ == base_url@ + "/open-apis/im/v1/messages?receive_id_type="@ + id_type.name(),
{
    concat3(base_url, "/open-apis/im/v1/messages?receive_id_type=", id_type.query_value())
}

/// Where a reply is sent to.
pub fn reply_url(base_url: &str, message_id: &str) -> (r: String)
    ensures
        r@ == base_url@ + "/open-apis/im/v1/messages/"@ + message_id@ + "/reply"@,
{
    let mut out = message_url(base_url, message_id);
    out.append("/reply");
    out
}

/// Where a reaction is sent to.
pub fn reactions_url(base_url: &str, message_id: &str) -> (r: String)
    ensures
        r@ == base_url@ + "/open-apis/im/v1/messages/"@ + message_id@ + "/reactions"@,
{
    let mut out = message_url(base_url, message_id);
    out.append("/reactions");
    out
}

/// Where a part of a message is fetched from.
pub fn resource_url(base_url: &str, message_id: &str, file_key: &str, kind: &str) -> (r: String)
    ensures
        r@ == base_url@ + "/open-apis/im/v1/messages/"@ + message_id@ + "/resources/"@ + file_key@
            + "?type="@ + kind@,
{
    let mut out = message_url(base_url, message_id);
    out.append("/resources/");
    out.append(file_key);
    out.append("?type=");
    out.append(kind);
    out
}

/// Where the bot is asked about itself.
pub fn bot_info_url(base_url: &str) -> (r: String)
    ensures
        r@ == base_url@ + "/open-apis/bot/v3/info"@,
{
    let mut out = String::from_str(base_url);
    out.append("/open-apis/bot/v3/info");
    out
}

/// Where tokens come from.
pub fn token_url(base_url: &str) -> (r: String)
    ensures
        r@ == base_url@ + "/open-apis/auth/v3/tenant_access_token/internal"@,
{
    let mut out = String::from_str(base_url);
    out.append("/open-apis/auth/v3/tenant_access_token/internal");
    out
}

/// What is sent to ask for the address of the WebSocket.
pub fn endpoint_body(app_id: &str, app_secret: &str) -> (r: Json)
    ensures
        r@ == fields().text("AppID"@, app_id@).text("AppSecret"@, app_secret@).tree(),
{
    Fields::new().text("AppID", app_id).text("AppSecret", app_secret).object()
}

/// What is sent to ask for a token.
pub fn token_body(app_id: &str, app_secret: &str) -> (r: Json)
    ensures
        r@ == fields().text("app_id"@, app_id@).text("app_secret"@, app_secret@).tree(),
{
    Fields::new().text("app_id", app_id).text("app_secret", app_secret).object()
}

/// What is sent to react to a message.
pub fn reaction_body(emoji_type: &str) -> (r: Json)
    ensures
        r@ == fields().with(
            "reaction_type"@,
            fields().text("emoji_type"@, emoji_type@).tree(),
        ).tree(),
{
    Fields::new().with("reaction_type", Fields::new().text("emoji_type", emoji_type).object()).object()
}

/// What is sent to change a card.
pub fn patch_body(card: &Json) -> (r: Json)
    ensures
        r@ == fields().text("content"@, text_of(card@)).tree(),
{
    Fields::new().text("content", card.render().as_str()).object()
}

/// What is sent with a new message: the recipient, the card as JSON text, and
/// an id that tells repeated requests apart.
pub open spec fn create_tree(id: Seq<char>, content: Seq<char>, uuid: Seq<char>) -> Tree {
    fields().text("receive_id"@, id).text("msg_type"@, "interactive"@).text(
        "content"@,
        content,
    ).text("uuid"@, uuid).tree()
}

/// What is sent with a new message.
pub fn create_body_with(recipient: &FeishuRecipient, content: &str, uuid: &str) -> (r: Json)
    ensures
        r@ == create_tree(recipient.id@, content@, uuid@),
{
    Fields::new().text("receive_id", recipient.id.as_str()).text("msg_type", "interactive").text(
        "content",
        content,
    ).text("uuid", uuid).object()
}

/// What is sent with a new message, with a fresh id.
pub fn create_body(recipient: &FeishuRecipient, card: &Json) -> (r: Json)
    ensures
        exists|uuid: Seq<char>|
            is_random_uuid(uuid) && r@ == create_tree(recipient.id@, text_of(card@), uuid),
{
    let uuid = new_message_uuid();
    create_body_with(recipient, card.render().as_str(), uuid.as_str())
}

/// What is sent with a reply.
pub open spec fn reply_tree(content: Seq<char>, uuid: Seq<char>, in_thread: bool) -> Tree {
    let body = fields().text("msg_type"@, "interactive"@).text("content"@, content).text(
        "uuid"@,
        uuid,
    );
    if in_thread {
        body.with("reply_in_thread"@, Tree::Bool(true)).tree()
    } else {
        body.tree()
    }
}

/// What is sent with a reply.
pub fn reply_body_with(content: &str, uuid: &str, in_thread: bool) -> (r: Json)
    ensures
        r@ == reply_tree(content@, uuid@, in_thread),
{
    let body = Fields::new().text("msg_type", "interactive").text("content", content).text(
        "uuid",
        uuid,
    );
    if in_thread {
        body.with("reply_in_thread", Json::Bool(true)).object()
    } else {
        body.object()
    }
}

/// What is sent with a reply, with a fresh id.
pub fn reply_body(card: &Json, in_thread: bool) -> (r: Json)
    ensures
        exists|uuid: Seq<char>|
            is_random_uuid(uuid) && r@ == reply_tree(text_of(card@), uuid, in_thread),
{
    let uuid = new_message_uuid();
    reply_body_with(card.render().as_str(), uuid.as_str(), in_thread)
}

/// One message of a text that is sent.
pub struct SendStep {
    /// The card.
    pub card: Json,
    /// The message that is replied to; without it a new message is sent.
    pub reply_to: Option<String>,
    /// Whether the reply goes into the thread.
    pub in_thread: bool,
}

/// The texts of the messages that an outbound text becomes.
pub open spec fn sent_texts(text: Seq<char>, format: OutboundFormat) -> Seq<Seq<char>> {
    let shown = rendered(text, format);
    let batches = table_batches(shown, MAX_MARKDOWN_TABLES_PER_CARD as int);
    if format == OutboundFormat::Text && batches.len() > 1 {
        batches
    } else {
        seq![shown]
    }
}

/// The card for an ordinary text.
pub open spec fn text_card(text: Seq<char>) -> Tree {
    card(seq![markdown_element(card_content(text))])
}

/// Plans the messages that an outbound text becomes: more tables than one card
/// shows go to further cards, and only the first message is a reply.
pub fn plan_send(
    text: &str,
    reply_to: Option<&str>,
    reply_in_thread: bool,
    format: OutboundFormat,
) -> (r: Vec<SendStep>)
    ensures
        r@.len() == sent_texts(text@, format).len(),
        forall|i: int|
            0 <= i < r@.len() ==> {
                &&& (#[trigger] r@[i]).card@ == text_card(sent_texts(text@, format)[i])
                &&& opt_text(r@[i].reply_to) == if i == 0 && reply_to is Some && !is_blank(
                    reply_to->0@,
                ) {
                    opt_str(reply_to)
                } else {
                    None
                }
                &&& r@[i].in_thread == (r@[i].reply_to is Some && reply_in_thread)
            },
{
    let shown = feishu_render_outbound_text(text, format);
    let mut parts: Vec<String> = Vec::new();
    let batches = split_markdown_table_batches(shown.as_str(), MAX_MARKDOWN_TABLES_PER_CARD);
    assert(texts(batches@).len() == batches@.len());
    match format {
        OutboundFormat::Text => {
            if batches.len() > 1 {
                parts = batches;
            } else {
                parts.push(shown);
            }
        },
        OutboundFormat::Plan => {
            parts.push(shown);
        },
    }
    let ghost all = sent_texts(text@, format);
    assert(texts(parts@) =~= all);
    assert(texts(parts@).len() == parts@.len());
    let mut steps: Vec<SendStep> = Vec::new();
    let mut i: usize = 0;
    while i < parts.len()
        invariant
            i <= parts@.len(),
            texts(parts@) == all,
            steps@.len() == i,
            forall|k: int|
                0 <= k < i ==> {
                    &&& (#[trigger] steps@[k]).card@ == text_card(all[k])
                    &&& opt_text(steps@[k].reply_to) == if k == 0 && reply_to is Some && !is_blank(
                        reply_to->0@,
                    ) {
                        opt_str(reply_to)
                    } else {
                        None
                    }
                    &&& steps@[k].in_thread == (steps@[k].reply_to is Some && reply_in_thread)
                },
        decreases parts@.len() - i,
    {
        let target = match reply_to {
            Some(id) => if i == 0 && !blank(id) {
                Some(String::from_str(id))
            } else {
                None
            },
            None => None,
        };
        let in_thread = target.is_some() && reply_in_thread;
        assert(all[i as int] == parts@[i as int]@);
        steps.push(
            SendStep {
                card: build_markdown_card(parts[i].as_str()),
                reply_to: target,
                in_thread,
            },
        );
        i += 1;
    }
    steps
}

/// The id of the last message that has one.
pub open spec fn last_given(ids: Seq<Option<String>>) -> Option<String>
    decreases ids.len(),
{
    if ids.len() == 0 {
        None
    } else if ids.last() is Some {
        ids.last()
    } else {
        last_given(ids.drop_last())
    }
}

/// The id of the last message that has one.
pub fn last_message_id(ids: &Vec<Option<String>>) -> (r: Option<String>)
    ensures
        r == last_given(ids@),
{
    let mut n: usize = ids.len();
    assert(ids@.take(n as int) =~= ids@);
    while n > 0
        invariant
            n <= ids@.len(),
            last_given(ids@) == last_given(ids@.take(n as int)),
        decreases n,
    {
        if let Some(id) = &ids[n - 1] {
            return Some(id.clone());
        }
        assert(ids@.take(n as int).drop_last() =~= ids@.take(n - 1));
        n -= 1;
    }
    None
}

/// The error of a request that was understood but not carried out.
pub open spec fn code_failure_text(
    what: Seq<char>,
    code: int,
    msg: Option<Seq<char>>,
) -> Seq<char> {
    what + " error "@ + dec_int(code) + ": "@ + or_empty(msg)
}

fn code_failure(what: &str, code: i64, msg: &Option<String>) -> (r: AppError)
    ensures
        r@ == ErrorView::Channel(code_failure_text(what@, code as int, opt_text(*msg))),
{
    let mut out = String::from_str(what);
    out.append(" error ");
    out.append(decimal_i64(code).as_str());
    out.append(": ");
    out.append(crate::channel::feishu::event::str_or_empty(msg));
    AppError::Channel(out)
}

/// What the platform says about a message that was sent or changed.
pub struct MessageReply {
    /// Zero where it went well.
    pub code: i64,
    /// What went wrong.
    pub msg: Option<String>,
    /// The id of the message.
    pub message_id: Option<String>,
    /// The id of the reaction.
    pub reaction_id: Option<String>,
}

/// The id that a reply names: that of the message, else that of the reaction,
/// unless it is blank.
pub open spec fn replied_id(reply: MessageReply) -> Option<Seq<char>> {
    let id = if reply.message_id is Some {
        opt_text(reply.message_id)
    } else {
        opt_text(reply.reaction_id)
    };
    match id {
        Some(s) => if is_blank(s) {
            None
        } else {
            Some(s)
        },
        None => None,
    }
}

/// The id of a message that was sent or changed.
pub fn message_reply_id(what: &str, reply: MessageReply) -> (r: AppResult<Option<String>>)
    ensures
        match r {
            Ok(id) => reply.code == 0 && opt_text(id) == replied_id(reply),
            Err(e) => reply.code != 0 && e@ == ErrorView::Channel(
                code_failure_text(what@, reply.code as int, opt_text(reply.msg)),
            ),
        },
{
    if reply.code != 0 {
        return Err(code_failure(what, reply.code, &reply.msg));
    }
    let id = match reply.message_id {
        Some(id) => Some(id),
        None => reply.reaction_id,
    };
    match id {
        Some(s) => if blank(s.as_str()) {
            Ok(None)
        } else {
            Ok(Some(s))
        },
        None => Ok(None),
    }
}

/// A value that the platform has to give, such as an address or an id.
pub fn required_value(
    what: &str,
    code: i64,
    msg: &Option<String>,
    value: Option<String>,
    missing: &str,
) -> (r: AppResult<String>)
    ensures
        match r {
            Ok(s) => code == 0 && value == Some(s) && !is_blank(s@),
            Err(e) => if code != 0 {
                e@ == ErrorView::Channel(code_failure_text(what@, code as int, opt_text(*msg)))
            } else {
                (value is None || is_blank(value->0@)) && e@ == ErrorView::Channel(missing@)
            },
        },
{
    if code != 0 {
        return Err(code_failure(what, code, msg));
    }
    match value {
        Some(s) => if blank(s.as_str()) {
            Err(AppError::channel(missing))
        } else {
            Ok(s)
        },
        None => Err(AppError::channel(missing)),
    }
}

/// The MIME type in a content type: what stands before the first semicolon.
pub fn mime_of_header(value: Option<&str>) -> (r: String)
    ensures
        r@ == match value {
            Some(s) => split_on(s@, ';')[0],
            None => "application/octet-stream"@,
        },
{
    match value {
        Some(s) => {
            let cs = chars_of(s);
            let parts = split_chars(&cs, ';');
            assert(views(parts@)[0] == parts@[0]@);
            string_of(&parts[0])
        },
        None => String::from_str("application/octet-stream"),
    }
}

/// Whether `bytes` start with `sign`.
pub open spec fn starts(bytes: Seq<u8>, sign: Seq<u8>) -> bool {
    sign.is_prefix_of(bytes)
}

/// The MIME type of an image: what the platform says where it says so, else
/// what the first bytes show, else PNG.
pub open spec fn image_mime(raw: Seq<char>, bytes: Seq<u8>) -> Seq<char> {
    let told = trim(raw);
    if "image/"@.is_prefix_of(told) {
        told
    } else if starts(bytes, seq![0x89u8, 0x50, 0x4e, 0x47, 0x0d, 0x0a, 0x1a, 0x0a]) {
        "image/png"@
    } else if starts(bytes, seq![0xffu8, 0xd8, 0xff]) {
        "image/jpeg"@
    } else if starts(bytes, seq![0x47u8, 0x49, 0x46, 0x38, 0x37, 0x61]) || starts(
        bytes,
        seq![0x47u8, 0x49, 0x46, 0x38, 0x39, 0x61],
    ) {
        "image/gif"@
    } else if bytes.len() >= 12 && starts(bytes, seq![0x52u8, 0x49, 0x46, 0x46]) && bytes.subrange(
        8,
        12,
    ) == seq![0x57u8, 0x45, 0x42, 0x50] {
        "image/webp"@
    } else {
        "image/png"@
    }
}

fn bytes_at(bytes: &[u8], from: usize, sign: &[u8]) -> (r: bool)
    requires
        from <= bytes@.len(),
    ensures
        r == (from + sign@.len() <= bytes@.len() && bytes@.subrange(
            from as int,
            from + sign@.len(),
        ) == sign@),
{
    let total: usize = bytes.len();
    if sign.len() > total - from {
        return false;
    }
    let mut i: usize = 0;
    while i < sign.len()
        invariant
            i <= sign@.len(),
            total == bytes@.len(),
            from + sign@.len() <= bytes@.len(),
            forall|k: int| 0 <= k < i ==> bytes@[from + k] == sign@[k],
        decreases sign@.len() - i,
    {
        if bytes[from + i] != sign[i] {
            assert(bytes@.subrange(from as int, from + sign@.len())[i as int] != sign@[i as int]);
            return false;
        }
        i += 1;
    }
    assert(bytes@.subrange(from as int, from + sign@.len()) =~= sign@);
    true
}

/// Finds the MIME type of an image.
pub fn normalize_image_mime(raw: &str, bytes: &[u8]) -> (r: String)
    ensures
        r@ == image_mime(raw@, bytes@),
{
    let told = trimmed_text(raw);
    if text_has_prefix(told.as_str(), "image/") {
        return told;
    }
    let png: [u8; 8] = [0x89, 0x50, 0x4e, 0x47, 0x0d, 0x0a, 0x1a, 0x0a];
    if bytes_at(bytes, 0, &png) {
        return String::from_str("image/png");
    }
    let jpeg: [u8; 3] = [0xff, 0xd8, 0xff];
    if bytes_at(bytes, 0, &jpeg) {
        return String::from_str("image/jpeg");
    }
    let gif87: [u8; 6] = [0x47, 0x49, 0x46, 0x38, 0x37, 0x61];
    let gif89: [u8; 6] = [0x47, 0x49, 0x46, 0x38, 0x39, 0x61];
    if bytes_at(bytes, 0, &gif87) || bytes_at(bytes, 0, &gif89) {
        return String::from_str("image/gif");
    }
    let riff: [u8; 4] = [0x52, 0x49, 0x46, 0x46];
    let webp: [u8; 4] = [0x57, 0x45, 0x42, 0x50];
    if bytes.len() >= 12 && bytes_at(bytes, 0, &riff) && bytes_at(bytes, 8, &webp) {
        return String::from_str("image/webp");
    }
    String::from_str("image/png")
}

/// The value that an error names for a key: anywhere in the answer, an object
/// whose `key` is that key, in either case, and the text of its `value`.
pub open spec fn detail_of(tree: Tree, key: Seq<char>) -> Option<Seq<char>>
    decreases tree,
{
    match tree {
        Tree::Object(list) => if names_key(tree, key) {
            tree.text_field("value"@)
        } else {
            detail_in_fields(list, key)
        },
        Tree::List(items) => detail_in_items(items, key),
        _ => None,
    }
}

/// Whether an object's `key` is the given key, in either case.
pub open spec fn names_key(tree: Tree, key: Seq<char>) -> bool {
    match tree.text_field("key"@) {
        Some(name) => lower_all(name) == lower_all(key),
        None => false,
    }
}

pub open spec fn detail_in_items(items: Seq<Tree>, key: Seq<char>) -> Option<Seq<char>>
    decreases items,
{
    if items.len() == 0 {
        None
    } else {
        match detail_in_items(items.subrange(0, items.len() - 1), key) {
            Some(text) => Some(text),
            None => detail_of(items[items.len() - 1], key),
        }
    }
}

pub open spec fn detail_in_fields(list: Seq<(Seq<char>, Tree)>, key: Seq<char>) -> Option<Seq<char>>
    decreases list,
{
    if list.len() == 0 {
        None
    } else {
        match detail_in_fields(list.subrange(0, list.len() - 1), key) {
            Some(text) => Some(text),
            None => detail_of(list[list.len() - 1].1, key),
        }
    }
}

/// The first string field with the given name: an object's own field first,
/// then those inside its fields.
pub open spec fn field_anywhere(tree: Tree, name: Seq<char>) -> Option<Seq<char>>
    decreases tree,
{
    match tree {
        Tree::Object(list) => match tree.text_field(name) {
            Some(text) => Some(text),
            None => field_in_fields(list, name),
        },
        Tree::List(items) => field_in_items(items, name),
        _ => None,
    }
}

pub open spec fn field_in_items(items: Seq<Tree>, name: Seq<char>) -> Option<Seq<char>>
    decreases items,
{
    if items.len() == 0 {
        None
    } else {
        match field_in_items(items.subrange(0, items.len() - 1), name) {
            Some(text) => Some(text),
            None => field_anywhere(items[items.len() - 1], name),
        }
    }
}

pub open spec fn field_in_fields(list: Seq<(Seq<char>, Tree)>, name: Seq<char>) -> Option<Seq<char>>
    decreases list,
{
    if list.len() == 0 {
        None
    } else {
        match field_in_fields(list.subrange(0, list.len() - 1), name) {
            Some(text) => Some(text),
            None => field_anywhere(list[list.len() - 1].1, name),
        }
    }
}

proof fn lemma_detail_found(
    items: Seq<Tree>,
    list: Seq<(Seq<char>, Tree)>,
    key: Seq<char>,
    n: int,
)
    ensures
        0 <= n <= items.len() && detail_in_items(items.take(n), key) is Some ==> detail_in_items(
            items,
            key,
        ) == detail_in_items(items.take(n), key),
        0 <= n <= list.len() && detail_in_fields(list.take(n), key) is Some ==> detail_in_fields(
            list,
            key,
        ) == detail_in_fields(list.take(n), key),
    decreases items.len() + list.len(),
{
    reveal_with_fuel(detail_in_items, 2);
    reveal_with_fuel(detail_in_fields, 2);
    if 0 <= n < items.len() {
        let front = items.subrange(0, items.len() - 1);
        lemma_detail_found(front, Seq::empty(), key, n);
        assert(front.take(n) =~= items.take(n));
    } else if n == items.len() {
        assert(items.take(n) =~= items);
    }
    if 0 <= n < list.len() {
        let front = list.subrange(0, list.len() - 1);
        lemma_detail_found(Seq::empty(), front, key, n);
        assert(front.take(n) =~= list.take(n));
    } else if n == list.len() {
        assert(list.take(n) =~= list);
    }
}

proof fn lemma_field_found(
    items: Seq<Tree>,
    list: Seq<(Seq<char>, Tree)>,
    name: Seq<char>,
    n: int,
)
    ensures
        0 <= n <= items.len() && field_in_items(items.take(n), name) is Some ==> field_in_items(
            items,
            name,
        ) == field_in_items(items.take(n), name),
        0 <= n <= list.len() && field_in_fields(list.take(n), name) is Some ==> field_in_fields(
            list,
            name,
        ) == field_in_fields(list.take(n), name),
    decreases items.len() + list.len(),
{
    reveal_with_fuel(field_in_items, 2);
    reveal_with_fuel(field_in_fields, 2);
    if 0 <= n < items.len() {
        let front = items.subrange(0, items.len() - 1);
        lemma_field_found(front, Seq::empty(), name, n);
        assert(front.take(n) =~= items.take(n));
    } else if n == items.len() {
        assert(items.take(n) =~= items);
    }
    if 0 <= n < list.len() {
        let front = list.subrange(0, list.len() - 1);
        lemma_field_found(Seq::empty(), front, name, n);
        assert(front.take(n) =~= list.take(n));
    } else if n == list.len() {
        assert(list.take(n) =~= list);
    }
}

/// Finds the value that an error names for a key.
pub fn find_feishu_detail(value: &Json, key: &str) -> (r: Option<String>)
    ensures
        opt_text(r) == detail_of(value@, key@),
    decreases value@,
{
    match value {
        Json::Object(list) => {
            proof {
                Json::lemma_object_view(*list);
            }
            let ghost all = field_trees(list@);
            if let Some(name) = value.text_field("key") {
                let a = chars_of(name);
                let b = chars_of(key);
                if same_chars(&lower_chars(&a), &lower_chars(&b)) {
                    return match value.text_field("value") {
                        Some(text) => Some(String::from_str(text)),
                        None => None,
                    };
                }
            }
            let mut i: usize = 0;
            while i < list.len()
                invariant
                    i <= list@.len(),
                    all == field_trees(list@),
                    value@ == Tree::Object(all),
                    !names_key(value@, key@),
                    detail_in_fields(all.take(i as int), key@) is None,
                decreases list@.len() - i,
            {
                let ghost next = all.take(i + 1);
                assert(next.subrange(0, next.len() - 1) =~= all.take(i as int));
                assert(next[next.len() - 1].1 == list@[i as int].1@);
                proof {
                    lemma_field_is_smaller(value@, i as int);
                    reveal_with_fuel(detail_in_fields, 2);
                }
                let found = find_feishu_detail(&list[i].1, key);
                if found.is_some() {
                    proof {
                        lemma_detail_found(Seq::empty(), all, key@, i + 1);
                    }
                    return found;
                }
                i += 1;
            }
            assert(all.take(all.len() as int) =~= all);
            None
        },
        Json::List(items) => {
            proof {
                Json::lemma_list_view(*items);
            }
            let ghost all = trees(items@);
            let mut i: usize = 0;
            while i < items.len()
                invariant
                    i <= items@.len(),
                    all == trees(items@),
                    value@ == Tree::List(all),
                    detail_in_items(all.take(i as int), key@) is None,
                decreases items@.len() - i,
            {
                let ghost next = all.take(i + 1);
                assert(next.subrange(0, next.len() - 1) =~= all.take(i as int));
                assert(next[next.len() - 1] == items@[i as int]@);
                proof {
                    lemma_item_is_smaller(value@, i as int);
                    reveal_with_fuel(detail_in_items, 2);
                }
                let found = find_feishu_detail(&items[i], key);
                if found.is_some() {
                    proof {
                        lemma_detail_found(all, Seq::empty(), key@, i + 1);
                    }
                    return found;
                }
                i += 1;
            }
            assert(all.take(all.len() as int) =~= all);
            None
        },
        _ => None,
    }
}

/// Finds the first string field with the given name.
pub fn find_feishu_key_string(value: &Json, name: &str) -> (r: Option<String>)
    ensures
        opt_text(r) == field_anywhere(value@, name@),
    decreases value@,
{
    match value {
        Json::Object(list) => {
            proof {
                Json::lemma_object_view(*list);
            }
            let ghost all = field_trees(list@);
            if let Some(text) = value.text_field(name) {
                return Some(String::from_str(text));
            }
            let mut i: usize = 0;
            while i < list.len()
                invariant
                    i <= list@.len(),
                    all == field_trees(list@),
                    value@ == Tree::Object(all),
                    value@.text_field(name@) is None,
                    field_in_fields(all.take(i as int), name@) is None,
                decreases list@.len() - i,
            {
                let ghost next = all.take(i + 1);
                assert(next.subrange(0, next.len() - 1) =~= all.take(i as int));
                assert(next[next.len() - 1].1 == list@[i as int].1@);
                proof {
                    lemma_field_is_smaller(value@, i as int);
                    reveal_with_fuel(field_in_fields, 2);
                }
                let found = find_feishu_key_string(&list[i].1, name);
                if found.is_some() {
                    proof {
                        lemma_field_found(Seq::empty(), all, name@, i + 1);
                    }
                    return found;
                }
                i += 1;
            }
            assert(all.take(all.len() as int) =~= all);
            None
        },
        Json::List(items) => {
            proof {
                Json::lemma_list_view(*items);
            }
            let ghost all = trees(items@);
            let mut i: usize = 0;
            while i < items.len()
                invariant
                    i <= items@.len(),
                    all == trees(items@),
                    value@ == Tree::List(all),
                    field_in_items(all.take(i as int), name@) is None,
                decreases items@.len() - i,
            {
                let ghost next = all.take(i + 1);
                assert(next.subrange(0, next.len() - 1) =~= all.take(i as int));
                assert(next[next.len() - 1] == items@[i as int]@);
                proof {
                    lemma_item_is_smaller(value@, i as int);
                    reveal_with_fuel(field_in_items, 2);
                }
                let found = find_feishu_key_string(&items[i], name);
                if found.is_some() {
                    proof {
                        lemma_field_found(all, Seq::empty(), name@, i + 1);
                    }
                    return found;
                }
                i += 1;
            }
            assert(all.take(all.len() as int) =~= all);
            None
        },
        _ => None,
    }
}

/// What the log shows of an answer that was read, apart from its text.
pub struct ReplyShape {
    /// What the platform says.
    pub msg: String,
    /// The field that is wrong.
    pub error_field: String,
    /// The value that is wrong.
    pub error_value: String,
}

/// The detail under one key, else the field under another name, else nothing.
pub open spec fn detail_or_field(tree: Tree, key: Seq<char>, name: Seq<char>) -> Seq<char> {
    match detail_of(tree, key) {
        Some(text) => text,
        None => or_empty(field_anywhere(tree, name)),
    }
}

fn find_detail_or_field(value: &Json, key: &str, name: &str) -> (r: String)
    ensures
        r@ == detail_or_field(value@, key@, name@),
{
    match find_feishu_detail(value, key) {
        Some(text) => text,
        None => match find_feishu_key_string(value, name) {
            Some(text) => text,
            None => String::from_str(""),
        },
    }
}

/// Finds what the log shows of an answer.
pub fn reply_shape(value: &Json) -> (r: ReplyShape)
    ensures
        r.msg@ == or_empty(value@.text_field("msg"@)),
        r.error_field@ == detail_or_field(value@, "ErrorField"@, "error_field"@),
        r.error_value@ == detail_or_field(value@, "ErrorValue"@, "error_value"@),
{
    let msg = match value.text_field("msg") {
        Some(text) => String::from_str(text),
        None => String::from_str(""),
    };
    ReplyShape {
        msg,
        error_field: find_detail_or_field(value, "ErrorField", "error_field"),
        error_value: find_detail_or_field(value, "ErrorValue", "error_value"),
    }
}

/// An ordinary text is sent whole, and no card shows more than five tables of
/// it. A plan is sent as one card.
pub proof fn law_texts_are_sent_whole(text: Seq<char>)
    ensures
        ({
            let sent = sent_texts(text, OutboundFormat::Text);
            &&& sent.len() > 0
            &&& sent == seq![text] || join(sent, "\n"@) == join(lines(text), "\n"@)
            &&& forall|i: int| 0 <= i < sent.len() ==> table_count(#[trigger] sent[i]) <= 5
        }),
        sent_texts(text, OutboundFormat::Plan).len() == 1,
{
    let batches = table_batches(text, 5);
    law_batches_are_full(text, 5);
    law_batches_lose_nothing(text, 5);
    let sent = sent_texts(text, OutboundFormat::Text);
    assert forall|i: int| 0 <= i < sent.len() implies table_count(#[trigger] sent[i]) <= 5 by {
        if batches.len() > 1 {
            law_batches_respect_the_table_limit(text, 5, i);
        } else {
            let n = table_count(text);
            if n > 5 {
                assert((n + 5 - 1) / 5 >= 2);
            }
        }
    }
}

/// The card for a text holds one Markdown element, which shows the text.
pub proof fn law_cards_show_their_text(text: Seq<char>)
    ensures
        ({
            let body = text_card(text).get("body"@);
            &&& body is Some
            &&& body->0.get("elements"@) is Some
            &&& body->0.get("elements"@)->0 matches Tree::List(elements) && elements.len() == 1
                && elements[0].text_field("tag"@) == Some("markdown"@) && elements[0].text_field(
                "content"@,
            ) == Some(card_content(text))
        }),
{
    reveal_strlit("schema");
    reveal_strlit("config");
    reveal_strlit("body");
    reveal_strlit("direction");
    reveal_strlit("padding");
    reveal_strlit("vertical_spacing");
    reveal_strlit("elements");
    reveal_strlit("tag");
    reveal_strlit("content");
    reveal_with_fuel(crate::json::field_of, 5);
    assert("body"@.len() == 4 && "schema"@.len() == 6 && "config"@.len() == 6);
    assert("direction"@.len() == 9 && "padding"@.len() == 7 && "vertical_spacing"@.len() == 16);
    assert("elements"@.len() == 8 && "tag"@.len() == 3 && "content"@.len() == 7);
    let element = markdown_element(card_content(text));
    let all = text_card(text)->Object_0;
    assert(all.skip(1)[0] == all[1] && all.skip(1).skip(1)[0] == all[2]);
    let body = all[2].1;
    assert(text_card(text).get("body"@) == Some(body));
    let inner = body->Object_0;
    assert(inner.skip(1)[0] == inner[1] && inner.skip(1).skip(1)[0] == inner[2]);
    assert(inner.skip(1).skip(1).skip(1)[0] == inner[3]);
    assert(body.get("elements"@) == Some(Tree::List(seq![element])));
    let own = element->Object_0;
    assert(own.skip(1)[0] == own[1]);
    assert(element.text_field("tag"@) == Some("markdown"@));
    assert(element.text_field("content"@) == Some(card_content(text)));
}

/// A new message carries its recipient, its content and its own id.
pub proof fn law_new_messages_carry_their_content(
    id: Seq<char>,
    content: Seq<char>,
    uuid: Seq<char>,
)
    ensures
        create_tree(id, content, uuid).text_field("receive_id"@) == Some(id),
        create_tree(id, content, uuid).text_field("content"@) == Some(content),
        create_tree(id, content, uuid).text_field("uuid"@) == Some(uuid),
        create_tree(id, content, uuid).text_field("msg_type"@) == Some("interactive"@),
{
    reveal_strlit("receive_id");
    reveal_strlit("msg_type");
    reveal_strlit("content");
    reveal_strlit("uuid");
    reveal_with_fuel(crate::json::field_of, 5);
    assert("receive_id"@.len() == 10 && "msg_type"@.len() == 8 && "content"@.len() == 7
        && "uuid"@.len() == 4);
    let all = create_tree(id, content, uuid)->Object_0;
    assert(all.skip(1)[0] == all[1] && all.skip(1).skip(1)[0] == all[2]);
    assert(all.skip(1).skip(1).skip(1)[0] == all[3]);
}

/// A reply carries its content and its own id, and says so where it goes into
/// the thread.
pub proof fn law_replies_carry_their_content(
    content: Seq<char>,
    uuid: Seq<char>,
    in_thread: bool,
)
    ensures
        reply_tree(content, uuid, in_thread).text_field("content"@) == Some(content),
        reply_tree(content, uuid, in_thread).text_field("uuid"@) == Some(uuid),
        reply_tree(content, uuid, in_thread).text_field("msg_type"@) == Some("interactive"@),
        reply_tree(content, uuid, in_thread).get("reply_in_thread"@) == if in_thread {
            Some(Tree::Bool(true))
        } else {
            None
        },
{
    reveal_strlit("reply_in_thread");
    reveal_strlit("msg_type");
    reveal_strlit("content");
    reveal_strlit("uuid");
    reveal_with_fuel(crate::json::field_of, 5);
    assert("reply_in_thread"@.len() == 15 && "msg_type"@.len() == 8 && "content"@.len() == 7
        && "uuid"@.len() == 4);
    let all = reply_tree(content, uuid, in_thread)->Object_0;
    assert(all.skip(1)[0] == all[1] && all.skip(1).skip(1)[0] == all[2]);
    if in_thread {
        assert(all.skip(1).skip(1).skip(1)[0] == all[3]);
    }
}

/// The prefix of a user's id tells its kind, by the platform's names.
pub proof fn law_prefixes_tell_the_kind_of_an_id(rest: Seq<char>)
    ensures
        user_id_type(seq!['o', 'n', '_'] + rest).name() == "union_id"@,
        user_id_type(seq!['o', 'u', '_'] + rest).name() == "open_id"@,
        rest.len() == 0 || rest[0] != 'o' ==> user_id_type(rest).name() == "user_id"@,
{
    reveal_strlit("on_");
    reveal_strlit("ou_");
    let union = seq!['o', 'n', '_'] + rest;
    let open = seq!['o', 'u', '_'] + rest;
    assert("on_"@ =~= union.subrange(0, 3));
    assert("ou_"@ =~= open.subrange(0, 3));
    if "on_"@.is_prefix_of(open) {
        assert(open.subrange(0, 3)[1] == "on_"@[1]);
    }
    if "on_"@.is_prefix_of(rest) {
        assert(rest.subrange(0, 3)[0] == "on_"@[0]);
    }
    if "ou_"@.is_prefix_of(rest) {
        assert(rest.subrange(0, 3)[0] == "ou_"@[0]);
    }
}

/// The id of a text that was sent is that of the last message that has one.
pub proof fn law_the_last_id_counts(ids: Seq<Option<String>>, id: String)
    ensures
        last_given(ids.push(Some(id))) == Some(id),
        last_given(ids.push(None)) == last_given(ids),
{
    assert(ids.push(None).drop_last() =~= ids);
}

/// A type that the platform names goes before what the bytes show.
pub proof fn law_named_images_keep_their_type(kind: Seq<char>, bytes: Seq<u8>)
    requires
        kind.len() > 0,
        !is_white(kind.last()),
    ensures
        image_mime(seq!['i', 'm', 'a', 'g', 'e', '/'] + kind, bytes) == seq![
            'i',
            'm',
            'a',
            'g',
            'e',
            '/',
        ] + kind,
{
    reveal_strlit("image/");
    let named = seq!['i', 'm', 'a', 'g', 'e', '/'] + kind;
    assert(trim_start(named) == named);
    assert(trim_end(named) == named);
    assert("image/"@ =~= named.subrange(0, 6));
}

/// Where the platform names no type, the first bytes of the usual formats tell
/// them apart.
pub proof fn law_images_are_recognised(raw: Seq<char>, size: Seq<u8>, rest: Seq<u8>)
    requires
        !"image/"@.is_prefix_of(trim(raw)),
        size.len() == 4,
    ensures
        image_mime(raw, seq![0xffu8, 0xd8, 0xff] + rest) == "image/jpeg"@,
        image_mime(raw, seq![0x47u8, 0x49, 0x46, 0x38, 0x37, 0x61] + rest) == "image/gif"@,
        image_mime(raw, seq![0x47u8, 0x49, 0x46, 0x38, 0x39, 0x61] + rest) == "image/gif"@,
        image_mime(raw, seq![0x52u8, 0x49, 0x46, 0x46] + size + seq![0x57u8, 0x45, 0x42, 0x50] + rest)
            == "image/webp"@,
        image_mime(raw, seq![0x89u8, 0x50, 0x4e, 0x47, 0x0d, 0x0a, 0x1a, 0x0a] + rest)
            == "image/png"@,
{
    let sign = seq![0x89u8, 0x50, 0x4e, 0x47, 0x0d, 0x0a, 0x1a, 0x0a];
    let jpeg = seq![0xffu8, 0xd8, 0xff] + rest;
    let gif7 = seq![0x47u8, 0x49, 0x46, 0x38, 0x37, 0x61] + rest;
    let gif9 = seq![0x47u8, 0x49, 0x46, 0x38, 0x39, 0x61] + rest;
    let webp = seq![0x52u8, 0x49, 0x46, 0x46] + size + seq![0x57u8, 0x45, 0x42, 0x50] + rest;
    assert(jpeg.subrange(0, 3) =~= seq![0xffu8, 0xd8, 0xff]);
    assert(gif7.subrange(0, 6) =~= seq![0x47u8, 0x49, 0x46, 0x38, 0x37, 0x61]);
    assert(gif9.subrange(0, 6) =~= seq![0x47u8, 0x49, 0x46, 0x38, 0x39, 0x61]);
    assert(webp.subrange(0, 4) =~= seq![0x52u8, 0x49, 0x46, 0x46]);
    assert(webp.subrange(8, 12) =~= seq![0x57u8, 0x45, 0x42, 0x50]);
    assert((sign + rest).subrange(0, 8) =~= sign);
    lemma_other_start(jpeg, sign);
    lemma_other_start(gif7, sign);
    lemma_other_start(gif9, sign);
    lemma_other_start(webp, sign);
    lemma_other_start(gif7, seq![0xffu8, 0xd8, 0xff]);
    lemma_other_start(gif9, seq![0xffu8, 0xd8, 0xff]);
    lemma_other_start(webp, seq![0xffu8, 0xd8, 0xff]);
    lemma_other_start(webp, seq![0x47u8, 0x49, 0x46, 0x38, 0x37, 0x61]);
    lemma_other_start(webp, seq![0x47u8, 0x49, 0x46, 0x38, 0x39, 0x61]);
}

proof fn lemma_other_start(bytes: Seq<u8>, sign: Seq<u8>)
    requires
        bytes.len() > 0,
        sign.len() > 0,
        bytes[0] != sign[0],
    ensures
        !starts(bytes, sign),
{
    if starts(bytes, sign) {
        assert(bytes.subrange(0, sign.len() as int)[0] == sign[0]);
    }
}

/// A message that was sent is known by its own id, else by that of the
/// reaction; blank ids are none.
pub proof fn law_sent_messages_are_known_by_their_id(reply: MessageReply)
    ensures
        reply.message_id is Some && !is_blank(reply.message_id->0@) ==> replied_id(reply) == Some(
            reply.message_id->0@,
        ),
        reply.message_id is None && reply.reaction_id is Some && !is_blank(reply.reaction_id->0@)
            ==> replied_id(reply) == Some(reply.reaction_id->0@),
        replied_id(reply) is Some ==> !is_blank(replied_id(reply)->0),
        reply.message_id is None && reply.reaction_id is None ==> replied_id(reply) is None,
{
}

/// A detail is found in the object that names its key, and in what a list
/// holds, where nothing before it has one.
pub proof fn law_details_are_found(tree: Tree, key: Seq<char>, before: Seq<Tree>)
    ensures
        tree is Object && tree.text_field("key"@) == Some(key) ==> detail_of(tree, key)
            == tree.text_field("value"@),
        detail_in_items(before.push(tree), key) == if detail_in_items(before, key) is Some {
            detail_in_items(before, key)
        } else {
            detail_of(tree, key)
        },
        detail_of(Tree::List(before), key) == detail_in_items(before, key),
{
    let more = before.push(tree);
    assert(more.subrange(0, more.len() - 1) =~= before);
    assert(more[more.len() - 1] == tree);
}

} // verus!
