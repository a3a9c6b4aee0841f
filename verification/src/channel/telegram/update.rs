//! Updates from Telegram, and the messages they become.

use crate::channel::telegram::outbound::{mention_of, strip_bot_mention, without_mention};
use crate::message::{clone_opt, InboundAttachment, InboundMessage, MessageSource};
use crate::numbers::{
    dec_int, decimal_i64, law_signed_decimal_round_trip, parse_i64, parsed_int,
};
use crate::path::{file_name, file_name_of};
use crate::text::{
    blank, chars_of, given_or_empty, is_blank, is_white, lemma_not_blank, occurs, occurs_at,
    opt_str, opt_text, same_text, trim, trimmed,
};
use vstd::prelude::*;

verus! {

/// A user.
#[derive(Debug, Clone, PartialEq, Eq)]
pub struct TelegramUser {
    /// The id.
    pub id: i64,
    /// The name without `@`.
    pub username: Option<String>,
}

/// A chat.
#[derive(Debug, Clone, PartialEq, Eq)]
pub struct TelegramChat {
    /// The id.
    pub id: i64,
    /// The kind of the chat.
    pub kind: String,
}

/// A message.
#[derive(Debug, Clone, PartialEq, Eq)]
pub struct TelegramMessage {
    /// The id.
    pub message_id: i64,
    /// The topic.
    pub message_thread_id: Option<i64>,
    /// The sender.
    pub from: Option<TelegramUser>,
    /// The chat in whose name the message was sent.
    pub sender_chat: Option<TelegramChat>,
    /// The chat.
    pub chat: TelegramChat,
    /// The text.
    pub text: Option<String>,
    /// The text below a picture or file.
    pub caption: Option<String>,
    /// The sizes of a picture.
    pub photo: Option<Vec<TelegramPhotoSize>>,
    /// A file.
    pub document: Option<TelegramFileMeta>,
    /// A sound file.
    pub audio: Option<TelegramFileMeta>,
    /// A video.
    pub video: Option<TelegramFileMeta>,
    /// A voice message.
    pub voice: Option<TelegramFileMeta>,
    /// An animation.
    pub animation: Option<TelegramFileMeta>,
}

/// What is known of a file.
#[derive(Debug, Clone, PartialEq, Eq)]
pub struct TelegramFileMeta {
    /// The id that fetches the file.
    pub file_id: String,
    /// The id that stays the same, but does not fetch the file.
    pub file_unique_id: String,
    /// The name.
    pub file_name: Option<String>,
    /// The MIME type.
    pub mime_type: Option<String>,
    /// The size in bytes.
    pub file_size: Option<u64>,
}

/// One size of a picture.
#[derive(Debug, Clone, PartialEq, Eq)]
pub struct TelegramPhotoSize {
    /// The id that fetches the picture.
    pub file_id: String,
    /// The id that stays the same, but does not fetch the picture.
    pub file_unique_id: String,
    /// The width.
    pub width: u32,
    /// The height.
    pub height: u32,
}

/// A file that can be fetched.
#[derive(Debug, Clone, PartialEq, Eq)]
pub struct TelegramFile {
    /// The id that stays the same.
    pub file_unique_id: String,
    /// The size in bytes.
    pub file_size: Option<u64>,
    /// Where it can be fetched.
    pub file_path: Option<String>,
}

/// A button that was pressed.
#[derive(Debug, Clone, PartialEq, Eq)]
pub struct TelegramCallbackQuery {
    /// The id.
    pub id: String,
    /// The user who pressed it.
    pub from: TelegramUser,
    /// The data of the button.
    pub data: Option<String>,
}

/// Something that happened on the platform.
#[derive(Debug, Clone, PartialEq, Eq)]
pub struct TelegramUpdate {
    /// The id.
    pub update_id: i64,
    /// A new message.
    pub message: Option<TelegramMessage>,
    /// A message that was edited.
    pub edited_message: Option<TelegramMessage>,
    /// A new message of a channel.
    pub channel_post: Option<TelegramMessage>,
    /// A message of a channel that was edited.
    pub edited_channel_post: Option<TelegramMessage>,
    /// A button that was pressed.
    pub callback_query: Option<TelegramCallbackQuery>,
}

/// How messages are handled.
#[derive(Debug, Clone, Copy, PartialEq, Eq, Structural)]
pub struct TelegramBehaviorConfig {
    /// Whether messages of groups have to mention the bot.
    pub require_mention: bool,
    /// Whether a received message is confirmed.
    pub send_typing: bool,
    /// Whether files are fetched.
    pub download_attachments: bool,
    /// The size in bytes up to which files are fetched.
    pub max_download_bytes: u64,
}

/// What an update asks for.
pub enum UpdateStep {
    /// A button was pressed.
    Callback(TelegramCallbackQuery),
    /// A message came in.
    Message(TelegramMessage),
    /// Nothing that is handled.
    Ignore,
}

impl UpdateStep {
    /// Whether this is what the update asks for: a button comes before any
    /// message, and of the messages the first that is there counts.
    pub open spec fn is_for(self, update: TelegramUpdate) -> bool {
        if update.callback_query is Some {
            self == UpdateStep::Callback(update.callback_query->0)
        } else if update.message is Some {
            self == UpdateStep::Message(update.message->0)
        } else if update.edited_message is Some {
            self == UpdateStep::Message(update.edited_message->0)
        } else if update.channel_post is Some {
            self == UpdateStep::Message(update.channel_post->0)
        } else if update.edited_channel_post is Some {
            self == UpdateStep::Message(update.edited_channel_post->0)
        } else {
            self is Ignore
        }
    }
}

/// Finds out what an update asks for.
pub fn handle_update(update: TelegramUpdate) -> (r: UpdateStep)
    ensures
        r.is_for(update),
{
    if let Some(callback) = update.callback_query {
        return UpdateStep::Callback(callback);
    }
    if let Some(message) = update.message {
        return UpdateStep::Message(message);
    }
    if let Some(message) = update.edited_message {
        return UpdateStep::Message(message);
    }
    if let Some(message) = update.channel_post {
        return UpdateStep::Message(message);
    }
    match update.edited_channel_post {
        Some(message) => UpdateStep::Message(message),
        None => UpdateStep::Ignore,
    }
}

/// The update to ask for after the one with the given id.
pub fn next_offset(update_id: i64) -> (r: i64)
    ensures
        r == if update_id == i64::MAX {
            i64::MAX
        } else {
            (update_id + 1) as i64
        },
{
    if update_id == i64::MAX {
        i64::MAX
    } else {
        update_id + 1
    }
}

/// An offset as it was stored: a number, with white space around it ignored.
pub fn stored_offset(content: &str) -> (r: Option<i64>)
    ensures
        match r {
            Some(n) => parsed_int(trim(content@), i64::MIN as int, i64::MAX as int) == Some(
                n as int,
            ),
            None => parsed_int(trim(content@), i64::MIN as int, i64::MAX as int) is None,
        },
{
    let cs = chars_of(content);
    parse_i64(trimmed(&cs))
}

/// Whether a chat is a group.
pub open spec fn is_group(kind: Seq<char>) -> bool {
    kind == "group"@ || kind == "supergroup"@
}

/// Whether a chat is a group.
pub fn is_group_chat(kind: &str) -> (r: bool)
    ensures
        r == is_group(kind@),
{
    same_text(kind, "group") || same_text(kind, "supergroup")
}

/// The kind of a chat in the daemon's own terms.
pub open spec fn chat_type(kind: Seq<char>) -> Seq<char> {
    if kind == "private"@ {
        "dm"@
    } else if is_group(kind) {
        "group"@
    } else {
        kind
    }
}

/// The kind of a chat in the daemon's own terms.
pub fn telegram_chat_type(kind: &str) -> (r: &str)
    ensures
        r@ == chat_type(kind@),
{
    if same_text(kind, "private") {
        "dm"
    } else if is_group_chat(kind) {
        "group"
    } else {
        kind
    }
}

/// The sender of a message: the user, else the chat in whose name it was sent.
pub open spec fn sender_of(message: TelegramMessage) -> Option<int> {
    if message.from is Some {
        Some(message.from->0.id as int)
    } else if message.sender_chat is Some {
        Some(message.sender_chat->0.id as int)
    } else {
        None
    }
}

/// Whether `source` is where the message comes from.
pub open spec fn comes_from(
    source: MessageSource,
    channel_name: Seq<char>,
    message: TelegramMessage,
) -> bool {
    &&& source.channel_name@ == channel_name
    &&& source.platform@ == "telegram"@
    &&& source.chat_id@ == dec_int(message.chat.id as int)
    &&& source.chat_type@ == chat_type(message.chat.kind@)
    &&& opt_text(source.user_id) == match sender_of(message) {
        Some(id) => Some(dec_int(id)),
        None => None,
    }
    &&& opt_text(source.thread_id) == match message.message_thread_id {
        Some(id) => Some(dec_int(id as int)),
        None => None,
    }
}

/// Where a message comes from.
pub fn telegram_source(channel_name: &str, message: &TelegramMessage) -> (r: MessageSource)
    ensures
        comes_from(r, channel_name@, *message),
{
    let user_id = match &message.from {
        Some(user) => Some(decimal_i64(user.id)),
        None => match &message.sender_chat {
            Some(chat) => Some(decimal_i64(chat.id)),
            None => None,
        },
    };
    let thread_id = match message.message_thread_id {
        Some(id) => Some(decimal_i64(id)),
        None => None,
    };
    MessageSource {
        channel_name: String::from_str(channel_name),
        platform: String::from_str("telegram"),
        chat_id: decimal_i64(message.chat.id),
        chat_type: String::from_str(telegram_chat_type(message.chat.kind.as_str())),
        user_id,
        thread_id,
    }
}

/// What a message says: its text, else the text below its picture or file.
pub open spec fn said(message: TelegramMessage) -> Seq<char> {
    if message.text is Some {
        message.text->0@
    } else {
        given_or_empty(opt_text(message.caption))
    }
}

/// What a message says to the bot; nothing where it has to mention the bot
/// and does not.
pub open spec fn said_to_bot(
    message: TelegramMessage,
    require_mention: bool,
    bot_username: Option<Seq<char>>,
) -> Option<Seq<char>> {
    if is_group(message.chat.kind@) && require_mention {
        match bot_username {
            Some(username) => without_mention(said(message), username),
            None => None,
        }
    } else {
        Some(said(message))
    }
}

/// The text that stands for a message without any.
pub open spec fn shown_text(text: Seq<char>) -> Seq<char> {
    if is_blank(text) {
        "用户发送了附件"@
    } else {
        text
    }
}

/// The message in the daemon's own terms, without its files; nothing where it
/// has to mention the bot and does not.
pub fn telegram_message_to_inbound(
    channel_name: &str,
    behavior: &TelegramBehaviorConfig,
    bot_username: Option<&str>,
    message: &TelegramMessage,
) -> (r: Option<InboundMessage>)
    ensures
        match (r, said_to_bot(*message, behavior.require_mention, opt_str(bot_username))) {
            (Some(inbound), Some(text)) => {
                &&& inbound.text@ == shown_text(text)
                &&& comes_from(inbound.source, channel_name@, *message)
                &&& opt_text(inbound.message_id) == Some(dec_int(message.message_id as int))
                &&& inbound.attachments@.len() == 0
                &&& !inbound.scheduled
            },
            (None, None) => true,
            _ => false,
        },
{
    let mut text = match &message.text {
        Some(s) => s.clone(),
        None => match &message.caption {
            Some(s) => s.clone(),
            None => String::new(),
        },
    };
    assert(text@ =~= said(*message));
    if is_group_chat(message.chat.kind.as_str()) && behavior.require_mention {
        let username = match bot_username {
            Some(s) => s,
            None => return None,
        };
        match strip_bot_mention(text.as_str(), username) {
            Some(s) => {
                text = s;
            },
            None => return None,
        }
    }
    if blank(text.as_str()) {
        text = String::from_str("用户发送了附件");
    }
    let source = telegram_source(channel_name, message);
    Some(InboundMessage::text(text.as_str(), source, Some(decimal_i64(message.message_id))))
}

/// Whether a message is passed on: it says something or holds files.
pub fn worth_passing_on(inbound: &InboundMessage) -> (r: bool)
    ensures
        r == (!is_blank(inbound.text@) || inbound.attachments@.len() > 0),
{
    !blank(inbound.text.as_str()) || inbound.attachments.len() > 0
}

/// The area of a picture.
pub open spec fn area(photo: TelegramPhotoSize) -> int {
    photo.width * photo.height
}

/// Whether the picture at `i` is the last of the largest.
pub open spec fn is_best(photos: Seq<TelegramPhotoSize>, i: int) -> bool {
    &&& 0 <= i < photos.len()
    &&& forall|j: int| 0 <= j < photos.len() ==> area(#[trigger] photos[j]) <= area(photos[i])
    &&& forall|j: int| i < j < photos.len() ==> area(#[trigger] photos[j]) < area(photos[i])
}

fn area_of(photo: &TelegramPhotoSize) -> (r: u64)
    ensures
        r == area(*photo),
{
    let w: u64 = photo.width as u64;
    let h: u64 = photo.height as u64;
    assert(w * h <= 0xffff_ffff * 0xffff_ffff) by (nonlinear_arith)
        requires
            w <= 0xffff_ffff,
            h <= 0xffff_ffff,
    ;
    w * h
}

/// The largest size of a picture.
pub fn best_photo(photos: &[TelegramPhotoSize]) -> (r: Option<&TelegramPhotoSize>)
    ensures
        match r {
            Some(photo) => exists|i: int| is_best(photos@, i) && photos@[i] == *photo,
            None => photos@.len() == 0,
        },
{
    if photos.len() == 0 {
        return None;
    }
    let mut best: usize = 0;
    let mut i: usize = 1;
    while i < photos.len()
        invariant
            0 <= best < i <= photos@.len(),
            forall|j: int| 0 <= j < i ==> area(#[trigger] photos@[j]) <= area(photos@[best as int]),
            forall|j: int|
                best < j < i ==> area(#[trigger] photos@[j]) < area(photos@[best as int]),
        decreases photos@.len() - i,
    {
        if area_of(&photos[i]) >= area_of(&photos[best]) {
            best = i;
        }
        i += 1;
    }
    assert(is_best(photos@, best as int));
    Some(&photos[best])
}

/// How one file of a message is handled.
#[derive(Debug, Clone, PartialEq, Eq)]
pub enum AttachmentStep {
    /// A picture is fetched and stored.
    Photo {
        /// The id that fetches it.
        file_id: String,
        /// The name to store it under.
        filename: String,
    },
    /// A file is too large and only mentioned.
    TooLarge(InboundAttachment),
    /// A file is fetched and stored.
    File {
        /// The id that fetches it.
        file_id: String,
        /// The name, where it is known.
        filename: Option<String>,
        /// The MIME type.
        mime_type: String,
    },
}

/// The MIME type of a file.
pub open spec fn mime_of(meta: TelegramFileMeta) -> Seq<char> {
    match meta.mime_type {
        Some(m) => m@,
        None => "application/octet-stream"@,
    }
}

impl AttachmentStep {
    /// Whether this is how a file is handled, where files up to `max` bytes
    /// are fetched.
    pub open spec fn handles(self, meta: TelegramFileMeta, max: u64) -> bool {
        if meta.file_size is Some && meta.file_size->0 > max {
            match self {
                AttachmentStep::TooLarge(
                    InboundAttachment::StoredFile { path, filename, mime_type, size },
                ) => {
                    &&& path@ == "<telegram-file-too-large>"@
                    &&& filename@ == match meta.file_name {
                        Some(name) => name@,
                        None => meta.file_unique_id@,
                    }
                    &&& mime_type@ == mime_of(meta)
                    &&& size == meta.file_size->0
                },
                _ => false,
            }
        } else {
            match self {
                AttachmentStep::File { file_id, filename, mime_type } => {
                    &&& file_id@ == meta.file_id@
                    &&& opt_text(filename) == opt_text(meta.file_name)
                    &&& mime_type@ == mime_of(meta)
                },
                _ => false,
            }
        }
    }

    /// Whether this is how a picture is handled: its largest size is fetched.
    pub open spec fn handles_photo(self, photos: Seq<TelegramPhotoSize>) -> bool {
        match self {
            AttachmentStep::Photo { file_id, filename } => exists|i: int|
                {
                    &&& #[trigger] is_best(photos, i)
                    &&& file_id@ == photos[i].file_id@
                    &&& filename@ == photos[i].file_unique_id@ + ".jpg"@
                },
            _ => false,
        }
    }
}

/// The files of a message other than its picture, in the order in which they
/// are handled.
pub open spec fn files_of(message: TelegramMessage) -> Seq<TelegramFileMeta> {
    listed(message.document) + listed(message.audio) + listed(message.video) + listed(
        message.voice,
    ) + listed(message.animation)
}

/// An optional value as a list.
pub open spec fn listed<T>(v: Option<T>) -> Seq<T> {
    match v {
        Some(x) => seq![x],
        None => Seq::empty(),
    }
}

/// Whether a message has a picture.
pub open spec fn has_photo(message: TelegramMessage) -> bool {
    message.photo is Some && message.photo->0@.len() > 0
}

fn file_step(meta: &TelegramFileMeta, max: u64) -> (r: AttachmentStep)
    ensures
        r.handles(*meta, max),
{
    let mime_type = match &meta.mime_type {
        Some(m) => m.clone(),
        None => String::from_str("application/octet-stream"),
    };
    if let Some(size) = meta.file_size {
        if size > max {
            let filename = match &meta.file_name {
                Some(name) => name.clone(),
                None => meta.file_unique_id.clone(),
            };
            return AttachmentStep::TooLarge(
                InboundAttachment::StoredFile {
                    path: String::from_str("<telegram-file-too-large>"),
                    filename,
                    mime_type,
                    size,
                },
            );
        }
    }
    AttachmentStep::File {
        file_id: meta.file_id.clone(),
        filename: clone_opt(&meta.file_name),
        mime_type,
    }
}

fn push_file_step(
    steps: &mut Vec<AttachmentStep>,
    meta: &Option<TelegramFileMeta>,
    max: u64,
    Ghost(first): Ghost<int>,
    Ghost(done): Ghost<Seq<TelegramFileMeta>>,
)
    requires
        first >= 0,
        old(steps)@.len() == first + done.len(),
        forall|i: int| 0 <= i < done.len() ==> old(steps)@[first + i].handles(#[trigger] done[i], max),
    ensures
        final(steps)@.len() == first + (done + listed(*meta)).len(),
        forall|i: int| 0 <= i < first ==> #[trigger] final(steps)@[i] == old(steps)@[i],
        forall|i: int|
            0 <= i < (done + listed(*meta)).len() ==> final(steps)@[first + i].handles(
                #[trigger] (done + listed(*meta))[i],
                max,
            ),
{
    match meta {
        Some(m) => {
            steps.push(file_step(m, max));
        },
        None => {},
    }
    assert forall|i: int| 0 <= i < (done + listed(*meta)).len() implies steps@[first + i].handles(
        #[trigger] (done + listed(*meta))[i],
        max,
    ) by {
        if i < done.len() {
            assert((done + listed(*meta))[i] == done[i]);
        }
    }
}

/// How the files of a message are handled, one after the other: first the
/// picture, then the others.
pub fn attach_telegram_files(message: &TelegramMessage, max_download_bytes: u64) -> (r: Vec<
    AttachmentStep,
>)
    ensures
        ({
            let files = files_of(*message);
            let first: int = if has_photo(*message) {
                1
            } else {
                0
            };
            &&& r@.len() == first + files.len()
            &&& has_photo(*message) ==> r@[0].handles_photo(message.photo->0@)
            &&& forall|i: int|
                0 <= i < files.len() ==> r@[first + i].handles(
                    #[trigger] files[i],
                    max_download_bytes,
                )
        }),
{
    let mut steps: Vec<AttachmentStep> = Vec::new();
    if let Some(photos) = &message.photo {
        if let Some(photo) = best_photo(photos.as_slice()) {
            let mut filename = photo.file_unique_id.clone();
            filename.append(".jpg");
            let step = AttachmentStep::Photo { file_id: photo.file_id.clone(), filename };
            proof {
                let i = choose|i: int| is_best(photos@, i) && photos@[i] == *photo;
                assert(is_best(photos@, i));
                assert(step.handles_photo(photos@));
            }
            steps.push(step);
        }
    }
    let ghost first = steps@.len() as int;
    let ghost done = Seq::<TelegramFileMeta>::empty();
    push_file_step(&mut steps, &message.document, max_download_bytes, Ghost(first), Ghost(done));
    let ghost done = done + listed(message.document);
    push_file_step(&mut steps, &message.audio, max_download_bytes, Ghost(first), Ghost(done));
    let ghost done = done + listed(message.audio);
    push_file_step(&mut steps, &message.video, max_download_bytes, Ghost(first), Ghost(done));
    let ghost done = done + listed(message.video);
    push_file_step(&mut steps, &message.voice, max_download_bytes, Ghost(first), Ghost(done));
    let ghost done = done + listed(message.voice);
    push_file_step(&mut steps, &message.animation, max_download_bytes, Ghost(first), Ghost(done));
    let ghost done = done + listed(message.animation);
    assert(done =~= files_of(*message));
    steps
}

/// The name of a fetched file: the end of its path, else its id.
pub fn telegram_download_filename(file: &TelegramFile, file_path: &str) -> (r: String)
    ensures
        r@ == match file_name(file_path@) {
            Some(name) => name,
            None => file.file_unique_id@,
        },
{
    match file_name_of(file_path) {
        Some(name) => name,
        None => file.file_unique_id.clone(),
    }
}

/// The text that a message becomes for the daemon, where it is passed on.
pub open spec fn passed_text(
    message: TelegramMessage,
    require_mention: bool,
    bot_username: Option<Seq<char>>,
) -> Option<Seq<char>> {
    match said_to_bot(message, require_mention, bot_username) {
        Some(text) => Some(shown_text(text)),
        None => None,
    }
}

/// What the user writes is what the daemon reads: the text of a message, and
/// where it has none the words below its picture or file. Groups that require
/// a mention are left out.
pub proof fn law_the_users_words_are_passed_on(
    message: TelegramMessage,
    require_mention: bool,
    bot_username: Option<Seq<char>>,
    i: int,
)
    requires
        !require_mention || (message.chat.kind@ != "group"@ && message.chat.kind@ != "supergroup"@),
    ensures
        message.text is Some && 0 <= i < message.text->0@.len() && !is_white(message.text->0@[i])
            ==> passed_text(message, require_mention, bot_username) == Some(message.text->0@),
        message.text is None && message.caption is Some && 0 <= i < message.caption->0@.len()
            && !is_white(message.caption->0@[i]) ==> passed_text(
            message,
            require_mention,
            bot_username,
        ) == Some(message.caption->0@),
        passed_text(message, require_mention, bot_username) is Some,
{
    if message.text is Some {
        let s = message.text->0@;
        if 0 <= i < s.len() && !is_white(s[i]) {
            lemma_not_blank(s, i);
        }
    } else if message.caption is Some {
        let s = message.caption->0@;
        if 0 <= i < s.len() && !is_white(s[i]) {
            lemma_not_blank(s, i);
        }
    }
}

/// In a group that requires a mention, a message is passed on exactly where its
/// text, or else the words below its picture or file, mentions the bot.
pub proof fn law_groups_have_to_mention_the_bot(message: TelegramMessage, username: Seq<char>)
    requires
        message.chat.kind@ == "group"@ || message.chat.kind@ == "supergroup"@,
        username.len() > 0 && username[0] != '@',
    ensures
        passed_text(message, true, None) is None,
        message.text is Some ==> (passed_text(message, true, Some(username)) is Some <==> occurs(
            seq!['@'] + username,
            message.text->0@,
        )),
        message.text is None && message.caption is Some ==> (passed_text(
            message,
            true,
            Some(username),
        ) is Some <==> occurs(seq!['@'] + username, message.caption->0@)),
        message.text is None && message.caption is None ==> passed_text(
            message,
            true,
            Some(username),
        ) is None,
{
    if message.text is None && message.caption is None {
        let said = said(message);
        assert(said.len() == 0);
        if occurs(mention_of(username), said) {
            let k = choose|k: int| occurs_at(mention_of(username), said, k);
        }
    }
}

/// A message without a word still reads as something.
pub proof fn law_passed_text_is_never_blank(
    message: TelegramMessage,
    require_mention: bool,
    bot_username: Option<Seq<char>>,
)
    ensures
        passed_text(message, require_mention, bot_username) is Some ==> !is_blank(
            passed_text(message, require_mention, bot_username)->0,
        ),
{
    reveal_strlit("用户发送了附件");
    let sentence = "用户发送了附件"@;
    assert(!is_white(sentence[0]));
    lemma_not_blank(sentence, 0);
}

/// The private chats of the platform are the daemon's private chats, and both
/// kinds of its groups are groups.
pub proof fn law_chats_keep_their_kind(
    source: MessageSource,
    channel_name: Seq<char>,
    message: TelegramMessage,
)
    requires
        comes_from(source, channel_name, message),
    ensures
        message.chat.kind@ == "private"@ ==> source.chat_type@ == "dm"@,
        message.chat.kind@ == "group"@ || message.chat.kind@ == "supergroup"@
            ==> source.chat_type@ == "group"@,
        parsed_int(source.chat_id@, i64::MIN as int, i64::MAX as int) == Some(
            message.chat.id as int,
        ),
        message.from is Some ==> source.user_id is Some && parsed_int(
            source.user_id->0@,
            i64::MIN as int,
            i64::MAX as int,
        ) == Some(message.from->0.id as int),
        message.message_thread_id is Some ==> source.thread_id is Some && parsed_int(
            source.thread_id->0@,
            i64::MIN as int,
            i64::MAX as int,
        ) == Some(message.message_thread_id->0 as int),
        message.message_thread_id is None ==> source.thread_id is None,
{
    reveal_strlit("private");
    reveal_strlit("group");
    reveal_strlit("supergroup");
    assert("private"@.len() == 7 && "group"@.len() == 5 && "supergroup"@.len() == 10);
    law_signed_decimal_round_trip(message.chat.id as int, i64::MIN as int, i64::MAX as int);
    if message.from is Some {
        law_signed_decimal_round_trip(message.from->0.id as int, i64::MIN as int, i64::MAX as int);
    }
    if message.message_thread_id is Some {
        law_signed_decimal_round_trip(
            message.message_thread_id->0 as int,
            i64::MIN as int,
            i64::MAX as int,
        );
    }
}

/// A pressed button is handled before any message, and a new message before a
/// changed one; posts in channels are read like messages, and other updates
/// are not handled.
pub proof fn law_updates_are_read(step: UpdateStep, update: TelegramUpdate)
    requires
        step.is_for(update),
    ensures
        update.callback_query matches Some(callback) ==> step == UpdateStep::Callback(callback),
        update.callback_query is None ==> (update.message matches Some(message) ==> step
            == UpdateStep::Message(message)),
        update.callback_query is None && update.message is None ==> (
        update.edited_message matches Some(message) ==> step == UpdateStep::Message(message)),
        update.callback_query is None && update.message is None && update.edited_message is None
            ==> (update.channel_post matches Some(message) ==> step == UpdateStep::Message(
            message,
        )),
        update.callback_query is None && update.message is None && update.edited_message is None
            && update.channel_post is None ==> (update.edited_channel_post matches Some(message)
            ==> step == UpdateStep::Message(message)),
{
}

/// Every file of a message is handled, of whatever kind it is, and nothing
/// else is.
pub proof fn law_every_file_is_handled(message: TelegramMessage, file: TelegramFileMeta)
    ensures
        files_of(message).contains(file) <==> message.document == Some(file) || message.audio
            == Some(file) || message.video == Some(file) || message.voice == Some(file)
            || message.animation == Some(file),
{
    let a = listed(message.document);
    let b = a + listed(message.audio);
    let c = b + listed(message.video);
    let d = c + listed(message.voice);
    let e = d + listed(message.animation);
    assert(files_of(message) == e);
    if message.document == Some(file) {
        assert(e[0] == file);
    }
    if message.audio == Some(file) {
        assert(e[a.len() as int] == file);
    }
    if message.video == Some(file) {
        assert(e[b.len() as int] == file);
    }
    if message.voice == Some(file) {
        assert(e[c.len() as int] == file);
    }
    if message.animation == Some(file) {
        assert(e[d.len() as int] == file);
    }
}

/// A file up to the limit is fetched by its id and keeps its name; a larger
/// one is only mentioned, with its size.
pub proof fn law_large_files_are_only_mentioned(
    step: AttachmentStep,
    file: TelegramFileMeta,
    max: u64,
)
    requires
        step.handles(file, max),
    ensures
        file.file_size is Some && file.file_size->0 > max <==> step is TooLarge,
        file.file_size is None || file.file_size->0 <= max ==> step is File,
        step matches AttachmentStep::File { file_id, filename, mime_type } ==> file_id@
            == file.file_id@ && opt_text(filename) == opt_text(file.file_name) && (
        file.mime_type is Some ==> mime_type@ == file.mime_type->0@),
        step matches AttachmentStep::TooLarge(
            InboundAttachment::StoredFile { path, filename, mime_type, size },
        ) ==> size == file.file_size->0 && (file.file_name is Some ==> filename@
            == file.file_name->0@) && (file.file_name is None ==> filename@
            == file.file_unique_id@),
{
}

/// Of a picture the largest size is fetched: no other has more points.
pub proof fn law_the_largest_picture_is_fetched(
    step: AttachmentStep,
    photos: Seq<TelegramPhotoSize>,
    k: int,
)
    requires
        step.handles_photo(photos),
        0 <= k < photos.len(),
    ensures
        step matches AttachmentStep::Photo { file_id, filename } && exists|i: int|
            0 <= i < photos.len() && (#[trigger] photos[i]).file_id@ == file_id@ && photos[i].width
                * photos[i].height >= photos[k].width * photos[k].height,
{
    let id = step->Photo_file_id;
    let name = step->Photo_filename;
    let i = choose|i: int|
        #[trigger] is_best(photos, i) && id@ == photos[i].file_id@ && name@
            == photos[i].file_unique_id@ + ".jpg"@;
    assert(area(photos[k]) <= area(photos[i]));
    assert(photos[i].file_id@ == id@);
}

/// A message keeps its chat and its thread; its sender is the user, else the
/// chat in whose name it was sent.
pub proof fn law_messages_keep_their_origin(
    source: MessageSource,
    channel_name: Seq<char>,
    message: TelegramMessage,
)
    requires
        comes_from(source, channel_name, message),
    ensures
        source.chat_id@ == dec_int(message.chat.id as int),
        source.channel_name@ == channel_name,
        message.from matches Some(user) ==> opt_text(source.user_id) == Some(
            dec_int(user.id as int),
        ),
        message.from is None ==> (message.sender_chat matches Some(chat) ==> opt_text(
            source.user_id,
        ) == Some(dec_int(chat.id as int))),
        message.from is None && message.sender_chat is None ==> source.user_id is None,
        message.message_thread_id matches Some(id) ==> opt_text(source.thread_id) == Some(
            dec_int(id as int),
        ),
        message.message_thread_id is None ==> source.thread_id is None,
{
}

} // verus!
