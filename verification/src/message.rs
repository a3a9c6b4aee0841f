//! Messages in the daemon's own terms, whatever channel they come from.

use crate::assoc::Assoc;
use crate::text::{
    blank, chars_of, has_prefix, is_blank, is_white, same_chars, same_text, texts, views, words,
    words_of,
};
use std::time::SystemTime;
use vstd::prelude::*;

verus! {

/// A message that a channel received.
#[derive(Debug, PartialEq, Eq)]
pub struct InboundMessage {
    /// The text of the message.
    pub text: String,
    /// Where the message comes from; it routes the reply and keys the session.
    pub source: MessageSource,
    /// The platform's id of the message.
    pub message_id: Option<String>,
    /// What came with the text.
    pub attachments: Vec<InboundAttachment>,
    /// When the message came in.
    pub timestamp: SystemTime,
    /// Whether the local scheduler made the message.
    pub scheduled: bool,
}

/// Something that came with a message.
#[derive(Debug, Clone, PartialEq, Eq)]
pub enum InboundAttachment {
    /// An image, in memory.
    Image {
        /// The MIME type.
        mime_type: String,
        /// The bytes of the image.
        bytes: Vec<u8>,
    },
    /// A file that has been stored on disk.
    StoredFile {
        /// The local path.
        path: String,
        /// The name to show.
        filename: String,
        /// The MIME type.
        mime_type: String,
        /// The size in bytes.
        size: u64,
    },
}

/// A message for a channel to send.
#[derive(Debug, Clone, PartialEq, Eq)]
pub struct OutboundMessage {
    /// The channel that sends the message.
    pub channel_name: String,
    /// The recipient: a chat, or a user in the channel's own terms.
    pub chat_id: String,
    /// What kind of recipient `chat_id` names.
    pub recipient: OutboundRecipient,
    /// The text of the message.
    pub text: String,
    /// The message that is replied to.
    pub reply_to: Option<String>,
    /// The topic or thread that the message goes to.
    pub thread_id: Option<String>,
    /// The format of the message.
    pub format: OutboundFormat,
}

/// A new text for a message that was sent before.
#[derive(Debug, Clone, PartialEq, Eq)]
pub struct MessageUpdate {
    /// The channel that sent the message.
    pub channel_name: String,
    /// The chat of the message, where the caller knows it.
    pub chat_id: Option<String>,
    /// The platform's id of the message.
    pub message_id: String,
    /// The new text.
    pub text: String,
    /// The format of the new text.
    pub format: OutboundFormat,
}

/// The format of an outbound message.
#[derive(Debug, Clone, Copy, PartialEq, Eq, Structural)]
pub enum OutboundFormat {
    /// An ordinary text.
    Text,
    /// A list of plan steps that will be updated in place.
    Plan,
}

/// What kind of recipient a message has.
#[derive(Debug, Clone, Copy, PartialEq, Eq, Structural)]
pub enum OutboundRecipient {
    /// A group or a conversation.
    Chat,
    /// A single user.
    User,
}

/// Where a message comes from.
#[derive(Debug, PartialEq, Eq)]
pub struct MessageSource {
    /// The name of the channel instance.
    pub channel_name: String,
    /// The platform of the channel.
    pub platform: String,
    /// The conversation: a group, a channel or a private chat.
    pub chat_id: String,
    /// The kind of the conversation, such as `dm`, `group` or `thread`.
    pub chat_type: String,
    /// The sender.
    pub user_id: Option<String>,
    /// The thread or topic.
    pub thread_id: Option<String>,
}

/// What came of sending a message.
#[derive(Debug, Clone, PartialEq, Eq)]
pub struct SendResult {
    /// Whether the message was sent.
    pub success: bool,
    /// The platform's id of the message.
    pub message_id: Option<String>,
}

/// One choice of a question to the user.
#[derive(Debug, Clone, PartialEq, Eq)]
pub struct UserInputOption {
    /// The label to show.
    pub label: String,
    /// What the choice means.
    pub description: String,
}

/// One question to the user.
#[derive(Debug, Clone, PartialEq, Eq)]
pub struct UserInputQuestion {
    /// The id under which the answer is returned.
    pub id: String,
    /// A short title.
    pub header: String,
    /// The question itself.
    pub question: String,
    /// The choices.
    pub options: Vec<UserInputOption>,
}

/// Questions to the user.
#[derive(Debug, Clone, PartialEq, Eq)]
pub struct UserInputRequest {
    /// The questions.
    pub questions: Vec<UserInputQuestion>,
    /// After how many milliseconds the questions are settled without the user.
    pub auto_resolution_ms: Option<u64>,
}

/// The answers to a `UserInputRequest`.
#[derive(Debug, Clone, PartialEq, Eq)]
pub struct UserInputResponse {
    /// The answers by question id.
    pub answers: Answers,
}

/// Answers by question id.
pub type Answers = Assoc<Vec<String>>;

/// The contents of a question.
pub struct QuestionView {
    pub id: Seq<char>,
    pub header: Seq<char>,
    pub question: Seq<char>,
    pub labels: Seq<Seq<char>>,
}

impl View for UserInputQuestion {
    type V = QuestionView;

    open spec fn view(&self) -> QuestionView {
        QuestionView {
            id: self.id@,
            header: self.header@,
            question: self.question@,
            labels: Seq::new(self.options@.len(), |i: int| self.options@[i].label@),
        }
    }
}

/// The contents of the questions of a request.
pub open spec fn questions_of(request: UserInputRequest) -> Seq<QuestionView> {
    Seq::new(request.questions@.len(), |i: int| request.questions@[i]@)
}

/// The contents of answers.
pub open spec fn answers_of(answers: Answers) -> Seq<(Seq<char>, Seq<Seq<char>>)> {
    Seq::new(answers@.len(), |i: int| (answers@[i].0, texts(answers@[i].1@)))
}

impl Clone for MessageSource {
    fn clone(&self) -> (r: Self)
        ensures
            r == *self,
    {
        MessageSource {
            channel_name: self.channel_name.clone(),
            platform: self.platform.clone(),
            chat_id: self.chat_id.clone(),
            chat_type: self.chat_type.clone(),
            user_id: clone_opt(&self.user_id),
            thread_id: clone_opt(&self.thread_id),
        }
    }
}

/// A copy of an optional string.
pub fn clone_opt(v: &Option<String>) -> (r: Option<String>)
    ensures
        r == *v,
{
    match v {
        Some(s) => Some(s.clone()),
        None => None,
    }
}

impl Default for MessageSource {
    /// An empty source, which counts as a private chat.
    fn default() -> (r: Self)
        ensures
            r.channel_name@ == Seq::<char>::empty(),
            r.platform@ == Seq::<char>::empty(),
            r.chat_id@ == Seq::<char>::empty(),
            r.chat_type@ == "dm"@,
            r.user_id is None,
            r.thread_id is None,
    {
        MessageSource {
            channel_name: String::new(),
            platform: String::new(),
            chat_id: String::new(),
            chat_type: String::from_str("dm"),
            user_id: None,
            thread_id: None,
        }
    }
}

impl MessageSource {
    /// Whether a reply has to be addressed to the sender: a private message
    /// without a chat but with a known sender.
    pub open spec fn addresses_user(self) -> bool {
        &&& self.chat_type@ == "dm"@
        &&& is_blank(self.chat_id@)
        &&& self.user_id is Some
        &&& !is_blank(self.user_id->0@)
    }
}

/// The recipient of a reply to `source`.
pub fn outbound_target_from_source(source: &MessageSource) -> (r: (OutboundRecipient, String))
    ensures
        source.addresses_user() ==> r.0 == OutboundRecipient::User && r.1@ == source.user_id->0@,
        !source.addresses_user() ==> r.0 == OutboundRecipient::Chat && r.1@ == source.chat_id@,
{
    if same_text(source.chat_type.as_str(), "dm") && blank(source.chat_id.as_str()) {
        if let Some(user_id) = &source.user_id {
            if !blank(user_id.as_str()) {
                return (OutboundRecipient::User, user_id.clone());
            }
        }
    }
    (OutboundRecipient::Chat, source.chat_id.clone())
}

/// Whether a word stands for a mention of the bot.
pub open spec fn is_mention(word: Seq<char>) -> bool {
    "@_"@.is_prefix_of(word)
}

/// The words from the first one that is no mention.
pub open spec fn drop_mentions(list: Seq<Seq<char>>) -> Seq<Seq<char>>
    decreases list.len(),
{
    if list.len() > 0 && is_mention(list[0]) {
        drop_mentions(list.skip(1))
    } else {
        list
    }
}

/// Whether a text is one command and nothing else, after any mentions.
pub open spec fn is_command(text: Seq<char>, command: Seq<char>) -> bool {
    drop_mentions(words(text)) == seq![command]
}

impl InboundMessage {
    /// A text message that has just come in.
    pub fn text(text: &str, source: MessageSource, message_id: Option<String>) -> (r: Self)
        ensures
            r.text@ == text@,
            r.source == source,
            r.message_id == message_id,
            r.attachments@ == Seq::<InboundAttachment>::empty(),
            !r.scheduled,
    {
        InboundMessage {
            text: String::from_str(text),
            source,
            message_id,
            attachments: Vec::new(),
            timestamp: SystemTime::now(),
            scheduled: false,
        }
    }

    /// Marks the message as made by the local scheduler.
    pub fn scheduled(self) -> (r: Self)
        ensures
            r == (InboundMessage { scheduled: true, ..self }),
    {
        let mut r = self;
        r.scheduled = true;
        r
    }

    /// Adds an image.
    pub fn with_image(self, mime_type: &str, bytes: Vec<u8>) -> (r: Self)
        ensures
            r.text == self.text,
            r.source == self.source,
            r.message_id == self.message_id,
            r.timestamp == self.timestamp,
            r.scheduled == self.scheduled,
            r.attachments@.len() == self.attachments@.len() + 1,
            r.attachments@.drop_last() == self.attachments@,
            match r.attachments@.last() {
                InboundAttachment::Image { mime_type: m, bytes: b } => m@ == mime_type@ && b
                    == bytes,
                InboundAttachment::StoredFile { .. } => false,
            },
    {
        let mut r = self;
        r.attachments.push(
            InboundAttachment::Image { mime_type: String::from_str(mime_type), bytes },
        );
        assert(r.attachments@.drop_last() =~= self.attachments@);
        r
    }

    /// Whether the message is the `/reset` command.
    pub fn is_reset_command(&self) -> (r: bool)
        ensures
            r == is_command(self.text@, "/reset"@),
    {
        is_single_command_text(self.text.as_str(), "/reset")
    }

    /// Whether the message is the `/stop` command.
    pub fn is_stop_command(&self) -> (r: bool)
        ensures
            r == is_command(self.text@, "/stop"@),
    {
        is_single_command_text(self.text.as_str(), "/stop")
    }

    /// Whether the message is the `/status` command.
    pub fn is_status_command(&self) -> (r: bool)
        ensures
            r == is_command(self.text@, "/status"@),
    {
        is_single_command_text(self.text.as_str(), "/status")
    }

    /// Whether the message comes from the local scheduler.
    pub fn is_cron_task(&self) -> (r: bool)
        ensures
            r == self.scheduled,
    {
        self.scheduled
    }
}

/// Whether a text is one command and nothing else, after any mentions.
pub fn is_single_command_text(text: &str, command: &str) -> (r: bool)
    ensures
        r == is_command(text@, command@),
{
    let cs = chars_of(text);
    let list = words_of(&cs);
    let mark = chars_of("@_");
    let want = chars_of(command);
    let ghost all = words(text@);
    let mut i: usize = 0;
    assert(all.skip(0) =~= all);
    while i < list.len() && has_prefix(&list[i], &mark)
        invariant
            i <= list@.len(),
            all == views(list@),
            mark@ == "@_"@,
            drop_mentions(all) == drop_mentions(all.skip(i as int)),
        decreases list@.len() - i,
    {
        assert(all.skip(i as int).skip(1) =~= all.skip(i + 1));
        i += 1;
    }
    let ghost rest = all.skip(i as int);
    assert(drop_mentions(all) == rest);
    if i < list.len() && i == list.len() - 1 && same_chars(&list[i], &want) {
        assert(rest =~= seq![command@]);
        true
    } else {
        proof {
            if rest == seq![command@] {
                assert(rest.len() == 1);
                assert(rest[0] == all[i as int]);
            }
        }
        false
    }
}

/// Where a text counts as a command, the command is its last word, and all
/// words before it are mentions; and the other way round.
pub proof fn law_command_follows_mentions(text: Seq<char>, command: Seq<char>)
    requires
        !is_mention(command),
    ensures
        is_command(text, command) <==> {
            let list = words(text);
            &&& list.len() > 0
            &&& list.last() == command
            &&& forall|i: int| 0 <= i < list.len() - 1 ==> is_mention(#[trigger] list[i])
        },
{
    lemma_drop_mentions(words(text), command);
}

proof fn lemma_drop_mentions(list: Seq<Seq<char>>, command: Seq<char>)
    requires
        !is_mention(command),
    ensures
        drop_mentions(list) == seq![command] <==> {
            &&& list.len() > 0
            &&& list.last() == command
            &&& forall|i: int| 0 <= i < list.len() - 1 ==> is_mention(#[trigger] list[i])
        },
    decreases list.len(),
{
    if list.len() > 0 && is_mention(list[0]) {
        let rest = list.skip(1);
        lemma_drop_mentions(rest, command);
        if drop_mentions(list) == seq![command] {
            assert forall|i: int| 0 <= i < list.len() - 1 implies is_mention(
                #[trigger] list[i],
            ) by {
                if i > 0 {
                    assert(rest[i - 1] == list[i]);
                }
            }
        } else if list.len() > 1 && list.last() == command {
            if forall|i: int| 0 <= i < list.len() - 1 ==> is_mention(#[trigger] list[i]) {
                assert forall|i: int| 0 <= i < rest.len() - 1 implies is_mention(
                    #[trigger] rest[i],
                ) by {
                    assert(list[i + 1] == rest[i]);
                }
            }
        }
    } else if list.len() > 0 {
        if drop_mentions(list) == seq![command] {
            assert(list.len() == 1);
            assert(list[0] == command);
        } else if list.len() == 1 && list.last() == command {
            assert(list =~= seq![command]);
        } else if list.len() > 1 {
            assert(!is_mention(list[0]));
        }
    } else {
        assert(seq![command].len() == 1);
    }
}

/// No message is two of the commands that reset, stop and report.
pub proof fn law_control_commands_exclude_each_other(text: Seq<char>)
    ensures
        !(is_command(text, "/reset"@) && is_command(text, "/stop"@)),
        !(is_command(text, "/reset"@) && is_command(text, "/status"@)),
        !(is_command(text, "/stop"@) && is_command(text, "/status"@)),
{
    reveal_strlit("/reset");
    reveal_strlit("/stop");
    reveal_strlit("/status");
    assert("/reset"@.len() == 6 && "/stop"@.len() == 5 && "/status"@.len() == 7);
    if is_command(text, "/reset"@) && is_command(text, "/stop"@) {
        law_commands_exclude_each_other(text, "/reset"@, "/stop"@);
    }
    if is_command(text, "/reset"@) && is_command(text, "/status"@) {
        law_commands_exclude_each_other(text, "/reset"@, "/status"@);
    }
    if is_command(text, "/stop"@) && is_command(text, "/status"@) {
        law_commands_exclude_each_other(text, "/stop"@, "/status"@);
    }
}

/// No text is two different commands.
pub proof fn law_commands_exclude_each_other(text: Seq<char>, a: Seq<char>, b: Seq<char>)
    requires
        is_command(text, a),
        is_command(text, b),
    ensures
        a == b,
{
    assert(seq![a][0] == seq![b][0]);
}

proof fn lemma_words_after_a_word(word: Seq<char>, text: Seq<char>)
    requires
        word.len() > 0,
        forall|i: int| 0 <= i < word.len() ==> !is_white(#[trigger] word[i]),
    ensures
        words(word + seq![' '] + text) == seq![word] + words(text),
    decreases text.len(),
{
    let whole = word + seq![' '] + text;
    if text.len() == 0 {
        assert(whole =~= word + seq![' ']);
        assert(whole.drop_last() =~= word);
        lemma_one_word(word);
        assert(seq![word] + words(text) =~= seq![word]);
    } else {
        lemma_words_after_a_word(word, text.drop_last());
        assert(whole.drop_last() =~= word + seq![' '] + text.drop_last());
        let before = words(text.drop_last());
        assert(whole.last() == text.last());
        if is_white(text.last()) {
        } else if text.len() == 1 {
            assert(whole[whole.len() - 2] == ' ');
            assert(words(whole) =~= seq![word] + words(text));
        } else {
            assert(whole[whole.len() - 2] == text[text.len() - 2]);
            if !is_white(text[text.len() - 2]) {
                lemma_words_end_open(text.drop_last());
            }
            assert(words(whole) =~= seq![word] + words(text));
        }
    }
}

proof fn lemma_words_end_open(s: Seq<char>)
    requires
        s.len() > 0,
        !is_white(s.last()),
    ensures
        words(s).len() > 0,
{
}

proof fn lemma_one_word(word: Seq<char>)
    requires
        word.len() > 0,
        forall|i: int| 0 <= i < word.len() ==> !is_white(#[trigger] word[i]),
    ensures
        words(word) == seq![word],
    decreases word.len(),
{
    let front = word.drop_last();
    if word.len() == 1 {
        assert(words(front) =~= Seq::<Seq<char>>::empty());
        assert(word =~= seq![word.last()]);
        assert(words(word) =~= seq![word]);
    } else {
        assert forall|i: int| 0 <= i < front.len() implies !is_white(#[trigger] front[i]) by {
            assert(front[i] == word[i]);
        }
        lemma_one_word(front);
        assert(!is_white(word[word.len() - 2]));
        assert(front.push(word.last()) =~= word);
        assert(words(word) =~= seq![word]);
    }
}

/// A mention in front of a text changes nothing about which command it is.
pub proof fn law_leading_mention_is_ignored(
    mention: Seq<char>,
    text: Seq<char>,
    command: Seq<char>,
)
    requires
        is_mention(mention),
        forall|i: int| 0 <= i < mention.len() ==> !is_white(#[trigger] mention[i]),
    ensures
        is_command(mention + seq![' '] + text, command) == is_command(text, command),
{
    reveal_strlit("@_");
    lemma_words_after_a_word(mention, text);
    let list = seq![mention] + words(text);
    assert(list.skip(1) =~= words(text));
    assert(list[0] == mention);
}

/// Replies go to the chat that a message came from; only a private message
/// without one is answered to its sender.
pub proof fn law_replies_go_to_the_chat(source: MessageSource)
    ensures
        !is_blank(source.chat_id@) ==> !source.addresses_user(),
        source.chat_type@ != seq!['d', 'm'] ==> !source.addresses_user(),
        source.chat_type@ == seq!['d', 'm'] && is_blank(source.chat_id@) && source.user_id is Some
            && !is_blank(source.user_id->0@) ==> source.addresses_user(),
        source.user_id is None ==> !source.addresses_user(),
{
    reveal_strlit("dm");
    assert("dm"@ =~= seq!['d', 'm']);
}

/// A mention starts with an at sign and an underscore, and no other word is
/// one.
pub proof fn law_mentions_start_alike(rest: Seq<char>, word: Seq<char>)
    ensures
        is_mention(seq!['@', '_'] + rest),
        is_mention(word) ==> word.len() >= 2 && word[0] == '@' && word[1] == '_',
{
    reveal_strlit("@_");
    let mention = seq!['@', '_'] + rest;
    assert("@_"@ =~= mention.subrange(0, 2));
    if is_mention(word) {
        assert(word.subrange(0, 2)[0] == "@_"@[0] && word.subrange(0, 2)[1] == "@_"@[1]);
    }
}

} // verus!
