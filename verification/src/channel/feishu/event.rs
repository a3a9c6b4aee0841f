//! What Feishu events say.

use crate::assoc::{at, has_entry, keyed, lemma_at, lemma_at_is, lookup};
use crate::json::{
    field_trees, fields, json_parse, lemma_field_is_smaller, lemma_item_is_smaller, text_of,
    trees, Json, Tree,
};
use crate::message::{clone_opt, is_mention};
use crate::order::{before, insert_new, ordered};
use crate::text::{
    blank, chars_of, copy_chars, has_prefix, is_blank, is_white, join, join_chars,
    lemma_not_blank, lemma_words_apart, lemma_words_are_solid, lemma_words_of_joined, occurs,
    opt_text, same_text, string_of, text_contains, texts, views, words, words_of,
};
use vstd::prelude::*;

verus! {

/// An event with its header.
#[derive(Debug)]
pub struct FeishuEventEnvelope {
    /// The header.
    pub header: FeishuEventHeader,
    /// The event itself.
    pub event: Option<Json>,
}

/// The header of an event.
#[derive(Debug)]
pub struct FeishuEventHeader {
    /// The type of the event.
    pub event_type: String,
}

/// A message that was received.
#[derive(Debug)]
pub struct FeishuReceiveMessageEvent {
    /// Who sent the message.
    pub sender: FeishuSender,
    /// The message.
    pub message: FeishuMessage,
}

/// The sender of a message.
#[derive(Debug)]
pub struct FeishuSender {
    /// The ids of the sender.
    pub sender_id: FeishuSenderId,
}

/// The ids of a sender.
#[derive(Debug)]
pub struct FeishuSenderId {
    /// The id within the application.
    pub open_id: Option<String>,
    /// The id within the tenant.
    pub user_id: Option<String>,
    /// The id within the developer's applications.
    pub union_id: Option<String>,
}

/// A message.
#[derive(Debug)]
pub struct FeishuMessage {
    /// The message id.
    pub message_id: String,
    /// The first message of the reply chain.
    pub root_id: Option<String>,
    /// The message that is replied to.
    pub parent_id: Option<String>,
    /// The thread.
    pub thread_id: Option<String>,
    /// The chat.
    pub chat_id: String,
    /// The type of the chat.
    pub chat_type: String,
    /// The type of the message.
    pub message_type: String,
    /// The content, a JSON text.
    pub content: String,
    /// Who is mentioned.
    pub mentions: Vec<FeishuMention>,
}

/// Someone who is mentioned in a message.
#[derive(Debug)]
pub struct FeishuMention {
    /// The placeholder in the text, such as `@_user_1`.
    pub key: Option<String>,
    /// The id: a text, or an object with an id of each kind.
    pub id: Option<Json>,
    /// The kind of a textual id.
    pub id_type: Option<String>,
    /// The name.
    pub name: Option<String>,
}

/// A file that is part of a message.
#[derive(Debug, PartialEq, Eq)]
pub struct FeishuFileResource {
    /// The key to fetch the file with.
    pub file_key: String,
    /// The name of the file.
    pub filename: Option<String>,
}

impl FeishuMention {
    /// Whether the mention's id is the given open id.
    pub open spec fn has_open_id(self, bot_open_id: Seq<char>) -> bool {
        match self.id {
            Some(id) => {
                ||| opt_text(self.id_type) == Some("open_id"@) && id@.as_text() == Some(bot_open_id)
                ||| id@.text_field("open_id"@) == Some(bot_open_id)
            },
            None => false,
        }
    }

    /// Whether the mention is of the bot, or of everyone.
    pub open spec fn is_of_bot(self, bot_open_id: Seq<char>, bot_name: Option<Seq<char>>) -> bool {
        ||| opt_text(self.key) == Some("@_all"@)
        ||| self.has_open_id(bot_open_id)
        ||| bot_name is Some && opt_text(self.name) == bot_name
    }

    fn matches_bot(&self, bot_open_id: &str, bot_name: Option<&str>) -> (r: bool)
        ensures
            r == self.is_of_bot(bot_open_id@, crate::text::opt_str(bot_name)),
    {
        let key_hit = match &self.key {
            Some(key) => same_text(key.as_str(), "@_all"),
            None => false,
        };
        let name_hit = match (bot_name, &self.name) {
            (Some(bot), Some(name)) => same_text(bot, name.as_str()),
            _ => false,
        };
        key_hit || self.matches_open_id(bot_open_id) || name_hit
    }

    fn matches_open_id(&self, bot_open_id: &str) -> (r: bool)
        ensures
            r == self.has_open_id(bot_open_id@),
    {
        match &self.id {
            Some(id) => {
                let typed = match &self.id_type {
                    Some(kind) => same_text(kind.as_str(), "open_id"),
                    None => false,
                };
                if typed {
                    if let Some(value) = id.as_str() {
                        if same_text(value, bot_open_id) {
                            return true;
                        }
                    }
                }
                match id.text_field("open_id") {
                    Some(value) => same_text(value, bot_open_id),
                    None => false,
                }
            },
            None => false,
        }
    }

    /// The id as a JSON text.
    pub open spec fn id_text(self) -> Seq<char> {
        match self.id {
            Some(id) => text_of(id@),
            None => ""@,
        }
    }

    /// The mention as the log shows it.
    pub open spec fn summary_view(self) -> Seq<char> {
        "key="@ + or_empty(opt_text(self.key)) + " id_type="@ + or_empty(opt_text(self.id_type))
            + " id="@ + self.id_text() + " name="@ + or_empty(opt_text(self.name))
    }

    /// The mention as the log shows it.
    pub fn summary(&self) -> (r: String)
        ensures
            r@ == self.summary_view(),
    {
        let id_text = match &self.id {
            Some(id) => id.render(),
            None => String::from_str(""),
        };
        let mut out = String::from_str("key=");
        out.append(str_or_empty(&self.key));
        out.append(" id_type=");
        out.append(str_or_empty(&self.id_type));
        out.append(" id=");
        out.append(id_text.as_str());
        out.append(" name=");
        out.append(str_or_empty(&self.name));
        out
    }
}

/// An optional text, or nothing.
pub open spec fn or_empty(v: Option<Seq<char>>) -> Seq<char> {
    match v {
        Some(s) => s,
        None => ""@,
    }
}

/// An optional string, or an empty one.
pub fn str_or_empty(v: &Option<String>) -> (r: &str)
    ensures
        r@ == or_empty(opt_text(*v)),
{
    match v {
        Some(s) => s.as_str(),
        None => "",
    }
}

impl FeishuReceiveMessageEvent {
    /// Whether the message mentions the bot or everyone.
    pub open spec fn is_for_bot(self, bot_open_id: Seq<char>, bot_name: Option<Seq<char>>) -> bool {
        ||| occurs("@_all"@, self.message.content@)
        ||| exists|i: int|
            0 <= i < self.message.mentions@.len() && (#[trigger] self.message.mentions@[i]).is_of_bot(
                bot_open_id,
                bot_name,
            )
    }

    /// Whether the message mentions the bot or everyone.
    pub fn mentions_bot(&self, bot_open_id: &str, bot_name: Option<&str>) -> (r: bool)
        ensures
            r == self.is_for_bot(bot_open_id@, crate::text::opt_str(bot_name)),
    {
        if text_contains(self.message.content.as_str(), "@_all") {
            return true;
        }
        let ghost name = crate::text::opt_str(bot_name);
        let mut i: usize = 0;
        while i < self.message.mentions.len()
            invariant
                i <= self.message.mentions@.len(),
                name == crate::text::opt_str(bot_name),
                forall|k: int|
                    0 <= k < i ==> !(#[trigger] self.message.mentions@[k]).is_of_bot(
                        bot_open_id@,
                        name,
                    ),
            decreases self.message.mentions@.len() - i,
        {
            if self.message.mentions[i].matches_bot(bot_open_id, bot_name) {
                return true;
            }
            i += 1;
        }
        false
    }

    /// All mentions as the log shows them.
    pub fn mentions_summary(&self) -> (r: String)
        ensures
            r@ == join(
                Seq::new(
                    self.message.mentions@.len(),
                    |i: int| self.message.mentions@[i].summary_view(),
                ),
                ";"@,
            ),
    {
        let mut parts: Vec<String> = Vec::new();
        let mut i: usize = 0;
        while i < self.message.mentions.len()
            invariant
                i <= self.message.mentions@.len(),
                parts@.len() == i,
                forall|k: int|
                    0 <= k < i ==> (#[trigger] parts@[k])@
                        == self.message.mentions@[k].summary_view(),
            decreases self.message.mentions@.len() - i,
        {
            parts.push(self.message.mentions[i].summary());
            i += 1;
        }
        assert(texts(parts@) =~= Seq::new(
            self.message.mentions@.len(),
            |i: int| self.message.mentions@[i].summary_view(),
        ));
        crate::text::join_strings(&parts, ";")
    }
}

impl FeishuMessage {
    /// The text of the message, where its type has one.
    pub fn text(&self) -> (r: Option<String>)
        ensures
            opt_text(r) == text_of_message(self.message_type@, json_parse(self.content@)),
    {
        message_text(self.message_type.as_str(), self.content.as_str())
    }

    /// Whether the message is part of a reply chain.
    pub open spec fn in_reply_chain(self) -> bool {
        ||| self.thread_id is Some && self.thread_id->0@.len() > 0
        ||| self.root_id is Some && self.root_id->0@.len() > 0
        ||| self.parent_id is Some && self.parent_id->0@.len() > 0
    }

    /// Whether the message is part of a reply chain; the reply then goes into
    /// the thread.
    pub fn is_reply_context(&self) -> (r: bool)
        ensures
            r == self.in_reply_chain(),
    {
        not_empty(&self.thread_id) || not_empty(&self.root_id) || not_empty(&self.parent_id)
    }
}

fn not_empty(v: &Option<String>) -> (r: bool)
    ensures
        r == (*v is Some && v->0@.len() > 0),
{
    match v {
        Some(s) => !s.as_str().is_empty(),
        None => false,
    }
}

/// The words that are no placeholders of mentions, in order.
pub open spec fn without_placeholders(list: Seq<Seq<char>>) -> Seq<Seq<char>>
    decreases list.len(),
{
    if list.len() == 0 {
        list
    } else {
        let before = without_placeholders(list.drop_last());
        if is_mention(list.last()) {
            before
        } else {
            before.push(list.last())
        }
    }
}

/// The words of a text without the placeholders of mentions, with one space
/// between them.
pub open spec fn clean(text: Seq<char>) -> Seq<char> {
    join(without_placeholders(words(text)), " "@)
}

/// The strings under the given field name anywhere in a value: an object's own
/// field first, then those inside its fields.
pub open spec fn collected(tree: Tree, name: Seq<char>) -> Seq<Seq<char>>
    decreases tree,
{
    match tree {
        Tree::Object(fields) => own_text(tree, name) + collected_fields(fields, name),
        Tree::List(items) => collected_items(items, name),
        _ => Seq::empty(),
    }
}

pub open spec fn own_text(tree: Tree, name: Seq<char>) -> Seq<Seq<char>> {
    match tree.text_field(name) {
        Some(text) => seq![text],
        None => Seq::empty(),
    }
}

pub open spec fn collected_items(items: Seq<Tree>, name: Seq<char>) -> Seq<Seq<char>>
    decreases items,
{
    if items.len() == 0 {
        Seq::empty()
    } else {
        collected_items(items.subrange(0, items.len() - 1), name) + collected(
            items[items.len() - 1],
            name,
        )
    }
}

pub open spec fn collected_fields(fields: Seq<(Seq<char>, Tree)>, name: Seq<char>) -> Seq<
    Seq<char>,
>
    decreases fields,
{
    if fields.len() == 0 {
        Seq::empty()
    } else {
        collected_fields(fields.subrange(0, fields.len() - 1), name) + collected(
            fields[fields.len() - 1].1,
            name,
        )
    }
}

/// The file that an object describes itself, where it has a file key.
pub open spec fn own_resource(tree: Tree) -> Seq<(Seq<char>, Option<Seq<char>>)> {
    match tree.text_field("file_key"@) {
        Some(key) => seq![(key, file_name_of(tree))],
        None => Seq::empty(),
    }
}

/// The name of the file that an object describes.
pub open spec fn file_name_of(tree: Tree) -> Option<Seq<char>> {
    match tree.get("file_name"@) {
        Some(value) => value.as_text(),
        None => tree.text_field("name"@),
    }
}

/// The files that are described anywhere in a value.
pub open spec fn resources_in(tree: Tree) -> Seq<(Seq<char>, Option<Seq<char>>)>
    decreases tree,
{
    match tree {
        Tree::Object(fields) => own_resource(tree) + resources_in_fields(fields),
        Tree::List(items) => resources_in_items(items),
        _ => Seq::empty(),
    }
}

pub open spec fn resources_in_items(items: Seq<Tree>) -> Seq<(Seq<char>, Option<Seq<char>>)>
    decreases items,
{
    if items.len() == 0 {
        Seq::empty()
    } else {
        resources_in_items(items.subrange(0, items.len() - 1)) + resources_in(
            items[items.len() - 1],
        )
    }
}

pub open spec fn resources_in_fields(fields: Seq<(Seq<char>, Tree)>) -> Seq<
    (Seq<char>, Option<Seq<char>>),
>
    decreases fields,
{
    if fields.len() == 0 {
        Seq::empty()
    } else {
        resources_in_fields(fields.subrange(0, fields.len() - 1)) + resources_in(
            fields[fields.len() - 1].1,
        )
    }
}

/// `text`, unless it is blank.
pub open spec fn unless_blank(text: Seq<char>) -> Option<Seq<char>> {
    if is_blank(text) {
        None
    } else {
        Some(text)
    }
}

/// What a file message reads as.
pub open spec fn file_label(content: Option<Tree>) -> Seq<char> {
    match content {
        Some(tree) => match file_name_of(tree) {
            Some(name) => "[文件] "@ + name,
            None => "[文件]"@,
        },
        None => "[文件]"@,
    }
}

/// The text of a message of the given type, given what its content holds.
pub open spec fn text_of_message(kind: Seq<char>, content: Option<Tree>) -> Option<Seq<char>> {
    if kind == "text"@ {
        match content {
            Some(tree) => match tree.text_field("text"@) {
                Some(text) => unless_blank(clean(text)),
                None => None,
            },
            None => None,
        }
    } else if kind == "post"@ {
        match content {
            Some(tree) => unless_blank(clean(join(collected(tree, "text"@), "\n"@))),
            None => None,
        }
    } else if kind == "image"@ {
        Some("[图片]"@)
    } else if kind == "file"@ {
        Some(file_label(content))
    } else if kind == "audio"@ {
        Some("[语音]"@)
    } else if kind == "video"@ {
        Some("[视频]"@)
    } else if kind == "sticker"@ {
        Some("[表情]"@)
    } else {
        None
    }
}

/// The text of a message.
pub fn message_text(message_type: &str, content: &str) -> (r: Option<String>)
    ensures
        opt_text(r) == text_of_message(message_type@, json_parse(content@)),
{
    let parsed = Json::parse(content);
    message_text_from_value(message_type, &parsed)
}

/// The content of an optional JSON value.
pub open spec fn opt_tree(v: Option<Json>) -> Option<Tree> {
    match v {
        Some(json) => Some(json@),
        None => None,
    }
}

/// The text of a message whose content has been read; a content that is no
/// JSON is missing.
pub fn message_text_from_value(message_type: &str, content: &Option<Json>) -> (r: Option<String>)
    ensures
        opt_text(r) == text_of_message(message_type@, opt_tree(*content)),
{
    if same_text(message_type, "text") {
        match content {
            Some(value) => match value.text_field("text") {
                Some(text) => filter_blank(clean_text(text)),
                None => None,
            },
            None => None,
        }
    } else if same_text(message_type, "post") {
        match content {
            Some(value) => {
                let mut parts: Vec<String> = Vec::new();
                assert(texts(parts@) =~= Seq::<Seq<char>>::empty());
                collect_strings(value, "text", &mut parts);
                assert(texts(parts@) =~= collected(value@, "text"@));
                filter_blank(clean_text(crate::text::join_strings(&parts, "\n").as_str()))
            },
            None => None,
        }
    } else if same_text(message_type, "image") {
        Some(String::from_str("[图片]"))
    } else if same_text(message_type, "file") {
        Some(file_text(content))
    } else if same_text(message_type, "audio") {
        Some(String::from_str("[语音]"))
    } else if same_text(message_type, "video") {
        Some(String::from_str("[视频]"))
    } else if same_text(message_type, "sticker") {
        Some(String::from_str("[表情]"))
    } else {
        None
    }
}

fn filter_blank(text: String) -> (r: Option<String>)
    ensures
        opt_text(r) == unless_blank(text@),
{
    if blank(text.as_str()) {
        None
    } else {
        Some(text)
    }
}

fn clean_text(text: &str) -> (r: String)
    ensures
        r@ == clean(text@),
{
    let cs = chars_of(text);
    let space = chars_of(" ");
    let mark = chars_of("@_");
    let list = words_of(&cs);
    let ghost all = words(text@);
    let mut kept: Vec<Vec<char>> = Vec::new();
    let mut i: usize = 0;
    assert(all.take(0) =~= Seq::<Seq<char>>::empty());
    assert(views(kept@) =~= Seq::<Seq<char>>::empty());
    while i < list.len()
        invariant
            i <= list@.len(),
            all == views(list@),
            mark@ == "@_"@,
            views(kept@) == without_placeholders(all.take(i as int)),
        decreases list@.len() - i,
    {
        assert(all.take(i + 1).drop_last() =~= all.take(i as int));
        assert(all.take(i + 1).last() == list@[i as int]@);
        if !has_prefix(&list[i], &mark) {
            let ghost before = views(kept@);
            kept.push(copy_chars(&list[i]));
            assert(views(kept@) =~= before.push(list@[i as int]@));
        }
        i += 1;
    }
    assert(all.take(all.len() as int) =~= all);
    string_of(&join_chars(&kept, &space))
}

fn file_text(content: &Option<Json>) -> (r: String)
    ensures
        r@ == file_label(opt_tree(*content)),
{
    if let Some(value) = content {
        if let Some(name) = file_name(value) {
            let mut out = String::from_str("[文件] ");
            out.append(name);
            return out;
        }
    }
    String::from_str("[文件]")
}

fn file_name(value: &Json) -> (r: Option<&str>)
    ensures
        crate::text::opt_str(r) == file_name_of(value@),
{
    match value.get("file_name") {
        Some(name) => name.as_str(),
        None => value.text_field("name"),
    }
}

/// Appends the strings under the given field name anywhere in a value.
fn collect_strings(value: &Json, name: &str, out: &mut Vec<String>)
    ensures
        texts(final(out)@) == texts(old(out)@) + collected(value@, name@),
    decreases value@,
{
    let ghost start = texts(out@);
    match value {
        Json::Object(fields) => {
            proof {
                Json::lemma_object_view(*fields);
            }
            let ghost all = field_trees(fields@);
            if let Some(text) = value.text_field(name) {
                out.push(String::from_str(text));
                assert(texts(out@) =~= start + own_text(value@, name@));
            } else {
                assert(texts(out@) =~= start + own_text(value@, name@));
            }
            let ghost base = texts(out@);
            let mut i: usize = 0;
            assert(texts(out@) =~= base + collected_fields(all.take(0), name@));
            while i < fields.len()
                invariant
                    i <= fields@.len(),
                    all == field_trees(fields@),
                    value@ == Tree::Object(all),
                    texts(out@) == base + collected_fields(all.take(i as int), name@),
                decreases fields@.len() - i,
            {
                let ghost next = all.take(i + 1);
                assert(next.subrange(0, next.len() - 1) =~= all.take(i as int));
                assert(next[next.len() - 1].1 == fields@[i as int].1@);
                let ghost so_far = texts(out@);
                proof {
                    lemma_field_is_smaller(value@, i as int);
                }
                collect_strings(&fields[i].1, name, out);
                proof {
                    reveal_with_fuel(collected_fields, 2);
                }
                assert(texts(out@) =~= base + collected_fields(next, name@));
                i += 1;
            }
            assert(all.take(all.len() as int) =~= all);
            assert(texts(out@) =~= start + collected(value@, name@));
        },
        Json::List(items) => {
            proof {
                Json::lemma_list_view(*items);
            }
            let ghost all = trees(items@);
            let mut i: usize = 0;
            assert(texts(out@) =~= start + collected_items(all.take(0), name@));
            while i < items.len()
                invariant
                    i <= items@.len(),
                    all == trees(items@),
                    value@ == Tree::List(all),
                    texts(out@) == start + collected_items(all.take(i as int), name@),
                decreases items@.len() - i,
            {
                let ghost next = all.take(i + 1);
                assert(next.subrange(0, next.len() - 1) =~= all.take(i as int));
                assert(next[next.len() - 1] == items@[i as int]@);
                proof {
                    lemma_item_is_smaller(value@, i as int);
                }
                collect_strings(&items[i], name, out);
                proof {
                    reveal_with_fuel(collected_items, 2);
                }
                assert(texts(out@) =~= start + collected_items(next, name@));
                i += 1;
            }
            assert(all.take(all.len() as int) =~= all);
        },
        _ => {
            assert(texts(out@) =~= start + collected(value@, name@));
        },
    }
}

/// Whether `r` holds the texts of `all`, each once and in order.
pub open spec fn is_sorted_set(r: Seq<Seq<char>>, all: Seq<Seq<char>>) -> bool {
    &&& forall|i: int, j: int| 0 <= i < j < r.len() ==> before(#[trigger] r[i], #[trigger] r[j])
    &&& forall|key: Seq<char>| r.contains(key) <==> all.contains(key)
}

/// The image keys of a message content, each once and in order.
pub fn image_keys_from_content(content: &str) -> (r: Vec<String>)
    ensures
        match json_parse(content@) {
            Some(tree) => is_sorted_set(texts(r@), collected(tree, "image_key"@)),
            None => r@.len() == 0,
        },
{
    match Json::parse(content) {
        Some(value) => image_keys_from_value(&value),
        None => Vec::new(),
    }
}

/// The image keys of a message content that has been read.
pub fn image_keys_from_value(value: &Json) -> (r: Vec<String>)
    ensures
        is_sorted_set(texts(r@), collected(value@, "image_key"@)),
{
    let mut keys: Vec<String> = Vec::new();
    assert(texts(keys@) =~= Seq::<Seq<char>>::empty());
    collect_strings(value, "image_key", &mut keys);
    let ghost all = collected(value@, "image_key"@);
    assert(texts(keys@) =~= all);
    let mut list: Vec<(String, ())> = Vec::new();
    let mut i: usize = 0;
    while i < keys.len()
        invariant
            i <= keys@.len(),
            texts(keys@) == all,
            ordered(keyed(list@)),
            forall|key: Seq<char>|
                lookup(keyed(list@), key) is Some <==> #[trigger] all.take(i as int).contains(key),
        decreases keys@.len() - i,
    {
        let ghost past = all.take(i as int);
        let ghost next = all.take(i + 1);
        assert(next =~= past.push(keys@[i as int]@));
        let ghost before_list = keyed(list@);
        insert_new(&mut list, keys[i].clone(), ());
        assert forall|key: Seq<char>| lookup(keyed(list@), key) is Some <==> #[trigger] next.contains(
            key,
        ) by {
            assert(past.contains(key) <==> lookup(before_list, key) is Some);
            if past.contains(key) {
                let k = choose|k: int| 0 <= k < past.len() && past[k] == key;
                assert(next[k] == key);
            }
            if key == keys@[i as int]@ {
                assert(next[i as int] == key);
            }
            if next.contains(key) {
                let k = choose|k: int| 0 <= k < next.len() && next[k] == key;
                if k < i {
                    assert(past[k] == key);
                }
            }
        }
        i += 1;
    }
    assert(all.take(all.len() as int) =~= all);
    let mut out: Vec<String> = Vec::new();
    let mut j: usize = 0;
    while j < list.len()
        invariant
            j <= list@.len(),
            out@.len() == j,
            forall|k: int| 0 <= k < j ==> (#[trigger] out@[k])@ == list@[k].0@,
        decreases list@.len() - j,
    {
        out.push(list[j].0.clone());
        j += 1;
    }
    proof {
        let r = texts(out@);
        let entries = keyed(list@);
        assert forall|a: int, b: int| 0 <= a < b < r.len() implies before(
            #[trigger] r[a],
            #[trigger] r[b],
        ) by {
            assert(before(entries[a].0, entries[b].0));
        }
        assert forall|key: Seq<char>| r.contains(key) <==> all.contains(key) by {
            lemma_at(entries, key);
            assert(all.take(all.len() as int).contains(key) <==> lookup(entries, key) is Some);
            if r.contains(key) {
                let k = choose|k: int| 0 <= k < r.len() && r[k] == key;
                assert(entries[k].0 == key);
                assert(at(entries, key) <= k);
            }
            if has_entry(entries, key) {
                assert(r[at(entries, key)] == key);
            }
        }
    }
    out
}

/// The key and name of each file.
pub open spec fn resource_views(list: Seq<FeishuFileResource>) -> Seq<
    (Seq<char>, Option<Seq<char>>),
> {
    Seq::new(list.len(), |i: int| (list[i].file_key@, opt_text(list[i].filename)))
}

/// Whether `r` holds the files of `all` in the order of their keys, each key
/// once and with the name that it has first.
pub open spec fn is_sorted_by_key(
    r: Seq<(Seq<char>, Option<Seq<char>>)>,
    all: Seq<(Seq<char>, Option<Seq<char>>)>,
) -> bool {
    &&& ordered(r)
    &&& forall|key: Seq<char>| #[trigger] lookup(r, key) == lookup(all, key)
}

/// The files of a message content, each once and in the order of their keys.
pub fn file_resources_from_content(content: &str) -> (r: Vec<FeishuFileResource>)
    ensures
        match json_parse(content@) {
            Some(tree) => is_sorted_by_key(resource_views(r@), resources_in(tree)),
            None => r@.len() == 0,
        },
{
    match Json::parse(content) {
        Some(value) => file_resources_from_value(&value),
        None => Vec::new(),
    }
}

/// The entries of a list, with their names as texts.
pub open spec fn named(list: Seq<(Seq<char>, Option<String>)>) -> Seq<
    (Seq<char>, Option<Seq<char>>),
> {
    Seq::new(list.len(), |i: int| (list[i].0, opt_text(list[i].1)))
}

proof fn lemma_named_lookup(list: Seq<(Seq<char>, Option<String>)>, key: Seq<char>)
    ensures
        lookup(named(list), key) == match lookup(list, key) {
            Some(name) => Some(opt_text(name)),
            None => None,
        },
{
    lemma_at(list, key);
    let n = named(list);
    assert forall|k: int| 0 <= k < at(list, key) implies (#[trigger] n[k]).0 != key by {
        assert(list[k].0 != key);
    }
    lemma_at_is(n, key, at(list, key));
}

proof fn lemma_lookup_pushed<T>(
    list: Seq<(Seq<char>, T)>,
    key: Seq<char>,
    value: T,
    other: Seq<char>,
)
    ensures
        lookup(list.push((key, value)), other) == if other == key && !has_entry(list, key) {
            Some(value)
        } else {
            lookup(list, other)
        },
{
    let next = list.push((key, value));
    lemma_at(list, other);
    let n = if has_entry(list, other) {
        at(list, other)
    } else if other == key {
        list.len() as int
    } else {
        next.len() as int
    };
    assert forall|k: int| 0 <= k < n implies (#[trigger] next[k]).0 != other by {
        if k < list.len() {
            assert(next[k] == list[k]);
        }
    }
    lemma_at_is(next, other, n);
}

/// The files of a message content that has been read.
pub fn file_resources_from_value(value: &Json) -> (r: Vec<FeishuFileResource>)
    ensures
        is_sorted_by_key(resource_views(r@), resources_in(value@)),
{
    let mut found: Vec<FeishuFileResource> = Vec::new();
    assert(resource_views(found@) =~= Seq::<(Seq<char>, Option<Seq<char>>)>::empty());
    collect_file_resources(value, &mut found);
    let ghost all = resources_in(value@);
    assert(resource_views(found@) =~= all);
    let mut list: Vec<(String, Option<String>)> = Vec::new();
    let ghost mut past: Seq<(Seq<char>, Option<String>)> = Seq::empty();
    let mut i: usize = 0;
    while i < found.len()
        invariant
            i <= found@.len(),
            resource_views(found@) == all,
            ordered(keyed(list@)),
            named(past) == all.take(i as int),
            forall|key: Seq<char>| #[trigger] lookup(keyed(list@), key) == lookup(past, key),
        decreases found@.len() - i,
    {
        let ghost key = found@[i as int].file_key@;
        let ghost name = found@[i as int].filename;
        let ghost before_list = keyed(list@);
        let ghost next = past.push((key, name));
        assert(named(next) =~= named(past).push((key, opt_text(name))));
        assert(all.take(i + 1) =~= all.take(i as int).push(all[i as int]));
        insert_new(&mut list, found[i].file_key.clone(), clone_opt(&found[i].filename));
        assert forall|other: Seq<char>| #[trigger] lookup(keyed(list@), other) == lookup(
            next,
            other,
        ) by {
            lemma_lookup_pushed(past, key, name, other);
            assert(lookup(before_list, other) == lookup(past, other));
            assert(lookup(before_list, key) == lookup(past, key));
        }
        proof {
            past = next;
        }
        i += 1;
    }
    assert(all.take(all.len() as int) =~= all);
    let mut out: Vec<FeishuFileResource> = Vec::new();
    let mut j: usize = 0;
    while j < list.len()
        invariant
            j <= list@.len(),
            out@.len() == j,
            forall|k: int|
                0 <= k < j ==> (#[trigger] out@[k]).file_key@ == list@[k].0@ && out@[k].filename
                    == list@[k].1,
        decreases list@.len() - j,
    {
        out.push(
            FeishuFileResource { file_key: list[j].0.clone(), filename: clone_opt(&list[j].1) },
        );
        j += 1;
    }
    proof {
        let r = resource_views(out@);
        let entries = keyed(list@);
        assert(r =~= named(entries));
        assert forall|a: int, b: int| 0 <= a < b < r.len() implies before(
            (#[trigger] r[a]).0,
            (#[trigger] r[b]).0,
        ) by {
            assert(before(entries[a].0, entries[b].0));
        }
        assert forall|key: Seq<char>| #[trigger] lookup(r, key) == lookup(all, key) by {
            lemma_named_lookup(entries, key);
            lemma_named_lookup(past, key);
            assert(lookup(entries, key) == lookup(past, key));
        }
    }
    out
}

/// Appends the files that are described anywhere in a value.
fn collect_file_resources(value: &Json, out: &mut Vec<FeishuFileResource>)
    ensures
        resource_views(final(out)@) == resource_views(old(out)@) + resources_in(value@),
    decreases value@,
{
    let ghost start = resource_views(out@);
    match value {
        Json::Object(fields) => {
            proof {
                Json::lemma_object_view(*fields);
            }
            let ghost all = field_trees(fields@);
            if let Some(key) = value.text_field("file_key") {
                let filename = match file_name(value) {
                    Some(name) => Some(String::from_str(name)),
                    None => None,
                };
                out.push(FeishuFileResource { file_key: String::from_str(key), filename });
                assert(resource_views(out@) =~= start + own_resource(value@));
            } else {
                assert(resource_views(out@) =~= start + own_resource(value@));
            }
            let ghost base = resource_views(out@);
            let mut i: usize = 0;
            assert(resource_views(out@) =~= base + resources_in_fields(all.take(0)));
            while i < fields.len()
                invariant
                    i <= fields@.len(),
                    all == field_trees(fields@),
                    value@ == Tree::Object(all),
                    resource_views(out@) == base + resources_in_fields(all.take(i as int)),
                decreases fields@.len() - i,
            {
                let ghost next = all.take(i + 1);
                assert(next.subrange(0, next.len() - 1) =~= all.take(i as int));
                assert(next[next.len() - 1].1 == fields@[i as int].1@);
                proof {
                    lemma_field_is_smaller(value@, i as int);
                }
                collect_file_resources(&fields[i].1, out);
                proof {
                    reveal_with_fuel(resources_in_fields, 2);
                }
                assert(resource_views(out@) =~= base + resources_in_fields(next));
                i += 1;
            }
            assert(all.take(all.len() as int) =~= all);
            assert(resource_views(out@) =~= start + resources_in(value@));
        },
        Json::List(items) => {
            proof {
                Json::lemma_list_view(*items);
            }
            let ghost all = trees(items@);
            let mut i: usize = 0;
            assert(resource_views(out@) =~= start + resources_in_items(all.take(0)));
            while i < items.len()
                invariant
                    i <= items@.len(),
                    all == trees(items@),
                    value@ == Tree::List(all),
                    resource_views(out@) == start + resources_in_items(all.take(i as int)),
                decreases items@.len() - i,
            {
                let ghost next = all.take(i + 1);
                assert(next.subrange(0, next.len() - 1) =~= all.take(i as int));
                assert(next[next.len() - 1] == items@[i as int]@);
                proof {
                    lemma_item_is_smaller(value@, i as int);
                }
                collect_file_resources(&items[i], out);
                proof {
                    reveal_with_fuel(resources_in_items, 2);
                }
                assert(resource_views(out@) =~= start + resources_in_items(next));
                i += 1;
            }
            assert(all.take(all.len() as int) =~= all);
        },
        _ => {
            assert(resource_views(out@) =~= start + resources_in(value@));
        },
    }
}

/// The words of a list that are no placeholders of mentions.
pub open spec fn spoken(list: Seq<Seq<char>>) -> Seq<Seq<char>> {
    list.filter(|word: Seq<char>| !"@_"@.is_prefix_of(word))
}

proof fn lemma_spoken(list: Seq<Seq<char>>)
    ensures
        without_placeholders(list) == spoken(list),
    decreases list.len(),
{
    reveal(Seq::filter);
    if list.len() > 0 {
        lemma_spoken(list.drop_last());
        assert(without_placeholders(list) =~= spoken(list));
    } else {
        assert(without_placeholders(list) =~= spoken(list));
    }
}

proof fn lemma_kept_words(list: Seq<Seq<char>>)
    ensures
        forall|i: int|
            0 <= i < without_placeholders(list).len() ==> list.contains(
                #[trigger] without_placeholders(list)[i],
            ),
        forall|i: int|
            0 <= i < list.len() && !is_mention(#[trigger] list[i]) ==> without_placeholders(
                list,
            ).contains(list[i]),
    decreases list.len(),
{
    if list.len() > 0 {
        let front = list.drop_last();
        lemma_kept_words(front);
        let before = without_placeholders(front);
        let all = without_placeholders(list);
        assert forall|i: int| 0 <= i < all.len() implies list.contains(#[trigger] all[i]) by {
            if i < before.len() {
                assert(all[i] == before[i]);
                let k = choose|k: int| 0 <= k < front.len() && front[k] == before[i];
                assert(list[k] == all[i]);
            } else {
                assert(list[list.len() - 1] == all[i]);
            }
        }
        assert forall|i: int| 0 <= i < list.len() && !is_mention(#[trigger] list[i]) implies all.contains(
            list[i],
        ) by {
            if i < front.len() {
                assert(front[i] == list[i]);
                let k = choose|k: int| 0 <= k < before.len() && before[k] == list[i];
                assert(all[k] == list[i]);
            } else {
                assert(all[all.len() - 1] == list[i]);
            }
        }
    }
}

/// A cleaned text has the words that are kept, and is blank only without any.
proof fn lemma_clean(text: Seq<char>)
    ensures
        words(clean(text)) == without_placeholders(words(text)),
        is_blank(clean(text)) <==> without_placeholders(words(text)).len() == 0,
{
    let list = words(text);
    let kept = without_placeholders(list);
    lemma_words_are_solid(text);
    lemma_kept_words(list);
    assert forall|i: int| 0 <= i < kept.len() implies (#[trigger] kept[i]).len() > 0 by {
        let k = choose|k: int| 0 <= k < list.len() && list[k] == kept[i];
    }
    assert forall|i: int, k: int| 0 <= i < kept.len() && 0 <= k < kept[i].len() implies !is_white(
        #[trigger] kept[i][k],
    ) by {
        let m = choose|m: int| 0 <= m < list.len() && list[m] == kept[i];
        assert(list[m][k] == kept[i][k]);
    }
    lemma_words_of_joined(kept);
    let joined = clean(text);
    if kept.len() > 0 {
        lemma_join_begins(kept, " "@);
        assert(joined[0] == kept[0][0]);
        lemma_not_blank(joined, 0);
    }
}

proof fn lemma_join_begins(parts: Seq<Seq<char>>, sep: Seq<char>)
    requires
        parts.len() > 0,
        parts[0].len() > 0,
    ensures
        join(parts, sep).len() > 0,
        join(parts, sep)[0] == parts[0][0],
    decreases parts.len(),
{
    if parts.len() > 1 {
        lemma_join_begins(parts.drop_last(), sep);
    }
}

/// A text message says the words of its text, without the placeholders of
/// mentions, one space apart; without such a word it says nothing.
pub proof fn law_text_says_its_words(content: Tree, text: Seq<char>)
    requires
        content.text_field("text"@) == Some(text),
    ensures
        text_of_message("text"@, Some(content)) == if spoken(words(text)).len() > 0 {
            Some(join(spoken(words(text)), " "@))
        } else {
            None
        },
{
    lemma_clean(text);
    lemma_spoken(words(text));
}

/// A text node of a rich text.
pub open spec fn text_node(text: Seq<char>) -> Tree {
    fields().text("tag"@, "text"@).text("text"@, text).tree()
}

/// A paragraph of text nodes.
pub open spec fn paragraph(nodes: Seq<Seq<char>>) -> Tree {
    Tree::List(Seq::new(nodes.len(), |i: int| text_node(nodes[i])))
}

/// A rich text with a title and paragraphs of text nodes.
pub open spec fn rich_text(title: Seq<char>, paragraphs: Seq<Seq<Seq<char>>>) -> Tree {
    fields().with(
        "content"@,
        Tree::List(Seq::new(paragraphs.len(), |i: int| paragraph(paragraphs[i]))),
    ).text("title"@, title).tree()
}

/// The words of all texts of a list, in order.
pub open spec fn all_words(list: Seq<Seq<char>>) -> Seq<Seq<char>>
    decreases list.len(),
{
    if list.len() == 0 {
        Seq::empty()
    } else {
        all_words(list.drop_last()) + words(list.last())
    }
}

/// The texts of all paragraphs, in order.
pub open spec fn all_nodes(paragraphs: Seq<Seq<Seq<char>>>) -> Seq<Seq<char>>
    decreases paragraphs.len(),
{
    if paragraphs.len() == 0 {
        Seq::empty()
    } else {
        all_nodes(paragraphs.drop_last()) + paragraphs.last()
    }
}

proof fn lemma_words_of_lines(list: Seq<Seq<char>>)
    ensures
        words(join(list, "\n"@)) == all_words(list),
    decreases list.len(),
{
    reveal_strlit("\n");
    assert("\n"@ =~= seq!['\n']);
    assert(is_white('\n'));
    if list.len() == 0 {
        assert(words(join(list, "\n"@)) =~= all_words(list));
    } else if list.len() == 1 {
        assert(all_words(list.drop_last()) =~= Seq::<Seq<char>>::empty());
        assert(all_words(list) =~= words(list[0]));
    } else {
        lemma_words_of_lines(list.drop_last());
        lemma_words_apart(join(list.drop_last(), "\n"@), '\n', list.last());
    }
}

proof fn lemma_node_texts(text: Seq<char>)
    ensures
        collected(text_node(text), "text"@) == seq![text],
{
    reveal_strlit("tag");
    reveal_strlit("text");
    assert("tag"@.len() == 3 && "text"@.len() == 4);
    let node = text_node(text);
    let all = node->Object_0;
    assert(all.skip(1)[0] == all[1]);
    reveal_with_fuel(crate::json::field_of, 3);
    assert(node.text_field("text"@) == Some(text));
    reveal_with_fuel(collected_fields, 3);
    assert(collected_fields(all, "text"@) =~= Seq::<Seq<char>>::empty());
    assert(collected(node, "text"@) =~= seq![text]);
}

proof fn lemma_paragraph_texts(nodes: Seq<Seq<char>>)
    ensures
        collected(paragraph(nodes), "text"@) == nodes,
    decreases nodes.len(),
{
    let items = Seq::new(nodes.len(), |i: int| text_node(nodes[i]));
    if nodes.len() == 0 {
        assert(collected_items(items, "text"@) =~= nodes);
    } else {
        let front = nodes.drop_last();
        lemma_paragraph_texts(front);
        lemma_node_texts(nodes.last());
        let before = Seq::new(front.len(), |i: int| text_node(front[i]));
        assert(items.subrange(0, items.len() - 1) =~= before);
        assert(items[items.len() - 1] == text_node(nodes.last()));
        assert(paragraph(front) == Tree::List(before));
        assert(collected_items(before, "text"@) == front);
        assert(collected_items(items, "text"@) == front + collected(
            text_node(nodes.last()),
            "text"@,
        ));
        assert(collected_items(items, "text"@) =~= front + seq![nodes.last()]);
        assert(front + seq![nodes.last()] =~= nodes);
    }
}

proof fn lemma_content_texts(paragraphs: Seq<Seq<Seq<char>>>)
    ensures
        collected_items(
            Seq::new(paragraphs.len(), |i: int| paragraph(paragraphs[i])),
            "text"@,
        ) == all_nodes(paragraphs),
    decreases paragraphs.len(),
{
    let items = Seq::new(paragraphs.len(), |i: int| paragraph(paragraphs[i]));
    if paragraphs.len() > 0 {
        let front = paragraphs.drop_last();
        lemma_content_texts(front);
        lemma_paragraph_texts(paragraphs.last());
        let before = Seq::new(front.len(), |i: int| paragraph(front[i]));
        assert(items.subrange(0, items.len() - 1) =~= before);
        assert(collected_items(items, "text"@) =~= all_nodes(paragraphs));
    } else {
        assert(collected_items(items, "text"@) =~= all_nodes(paragraphs));
    }
}

/// A rich text says the words of its text nodes, in order and without the
/// placeholders of mentions, whatever its title is.
pub proof fn law_rich_text_says_its_nodes(title: Seq<char>, paragraphs: Seq<Seq<Seq<char>>>)
    ensures
        ({
            let said = spoken(all_words(all_nodes(paragraphs)));
            text_of_message("post"@, Some(rich_text(title, paragraphs))) == if said.len() > 0 {
                Some(join(said, " "@))
            } else {
                None
            }
        }),
{
    reveal_strlit("content");
    reveal_strlit("title");
    reveal_strlit("text");
    reveal_strlit("post");
    assert("content"@.len() == 7 && "title"@.len() == 5 && "text"@.len() == 4);
    assert("post"@[0] != "text"@[0]);
    let tree = rich_text(title, paragraphs);
    let all = tree->Object_0;
    assert(all.skip(1)[0] == all[1]);
    reveal_with_fuel(crate::json::field_of, 3);
    assert(tree.text_field("text"@) is None);
    lemma_content_texts(paragraphs);
    reveal_with_fuel(collected_fields, 3);
    assert(all.subrange(0, 1)[0] == all[0]);
    assert(collected_fields(all, "text"@) =~= all_nodes(paragraphs));
    assert(collected(tree, "text"@) =~= all_nodes(paragraphs));
    let whole = join(all_nodes(paragraphs), "\n"@);
    lemma_words_of_lines(all_nodes(paragraphs));
    lemma_clean(whole);
    lemma_spoken(words(whole));
}

/// Whether a value holds a text under the field `text`, at any depth.
pub open spec fn holds_text(tree: Tree, text: Seq<char>) -> bool
    decreases tree,
{
    match tree {
        Tree::Object(fields) => tree.text_field("text"@) == Some(text) || exists|i: int|
            0 <= i < fields.len() && holds_text((#[trigger] fields[i]).1, text),
        Tree::List(items) => exists|i: int|
            0 <= i < items.len() && holds_text(#[trigger] items[i], text),
        _ => false,
    }
}

proof fn lemma_held_text_is_collected(tree: Tree, text: Seq<char>)
    requires
        holds_text(tree, text),
    ensures
        collected(tree, "text"@).contains(text),
    decreases tree, 0int,
{
    match tree {
        Tree::Object(fields) => {
            let own = own_text(tree, "text"@);
            let inner = collected_fields(fields, "text"@);
            if tree.text_field("text"@) == Some(text) {
                assert((own + inner)[0] == text);
            } else {
                let i = choose|i: int|
                    0 <= i < fields.len() && holds_text((#[trigger] fields[i]).1, text);
                lemma_field_is_smaller(tree, i);
                lemma_held_text_is_collected(fields[i].1, text);
                lemma_field_is_collected(fields, i, text);
                let k = choose|k: int| 0 <= k < inner.len() && inner[k] == text;
                assert((own + inner)[own.len() + k] == text);
            }
        },
        Tree::List(items) => {
            let i = choose|i: int| 0 <= i < items.len() && holds_text(#[trigger] items[i], text);
            lemma_item_is_smaller(tree, i);
            lemma_held_text_is_collected(items[i], text);
            lemma_item_is_collected(items, i, text);
        },
        _ => {},
    }
}

proof fn lemma_field_is_collected(fields: Seq<(Seq<char>, Tree)>, i: int, text: Seq<char>)
    requires
        0 <= i < fields.len(),
        collected(fields[i].1, "text"@).contains(text),
    ensures
        collected_fields(fields, "text"@).contains(text),
    decreases fields.len(),
{
    let n = fields.len() - 1;
    let front = collected_fields(fields.subrange(0, n), "text"@);
    let back = collected(fields[n].1, "text"@);
    if i == n {
        let k = choose|k: int| 0 <= k < back.len() && back[k] == text;
        assert((front + back)[front.len() + k] == text);
    } else {
        lemma_field_is_collected(fields.subrange(0, n), i, text);
        let k = choose|k: int| 0 <= k < front.len() && front[k] == text;
        assert((front + back)[k] == text);
    }
}

proof fn lemma_item_is_collected(items: Seq<Tree>, i: int, text: Seq<char>)
    requires
        0 <= i < items.len(),
        collected(items[i], "text"@).contains(text),
    ensures
        collected_items(items, "text"@).contains(text),
    decreases items.len(),
{
    let n = items.len() - 1;
    let front = collected_items(items.subrange(0, n), "text"@);
    let back = collected(items[n], "text"@);
    if i == n {
        let k = choose|k: int| 0 <= k < back.len() && back[k] == text;
        assert((front + back)[front.len() + k] == text);
    } else {
        lemma_item_is_collected(items.subrange(0, n), i, text);
        let k = choose|k: int| 0 <= k < front.len() && front[k] == text;
        assert((front + back)[k] == text);
    }
}

proof fn lemma_word_of_part(list: Seq<Seq<char>>, k: int, word: Seq<char>)
    requires
        0 <= k < list.len(),
        words(list[k]).contains(word),
    ensures
        all_words(list).contains(word),
    decreases list.len(),
{
    let front = all_words(list.drop_last());
    let back = words(list.last());
    if k == list.len() - 1 {
        let m = choose|m: int| 0 <= m < back.len() && back[m] == word;
        assert((front + back)[front.len() + m] == word);
    } else {
        lemma_word_of_part(list.drop_last(), k, word);
        let m = choose|m: int| 0 <= m < front.len() && front[m] == word;
        assert((front + back)[m] == word);
    }
}

/// Every word of every text node of a rich text is read, unless it stands for a
/// mention; and no placeholder of a mention is.
pub proof fn law_every_text_node_is_read(tree: Tree, text: Seq<char>, word: Seq<char>)
    requires
        holds_text(tree, text),
        words(text).contains(word),
        !"@_"@.is_prefix_of(word),
    ensures
        ({
            let read = text_of_message("post"@, Some(tree));
            &&& read is Some
            &&& words(read->0).contains(word)
            &&& forall|i: int|
                0 <= i < words(read->0).len() ==> !"@_"@.is_prefix_of(#[trigger] words(read->0)[i])
        }),
{
    reveal_strlit("post");
    reveal_strlit("text");
    assert("post"@[0] != "text"@[0]);
    lemma_held_text_is_collected(tree, text);
    let list = collected(tree, "text"@);
    let k = choose|k: int| 0 <= k < list.len() && list[k] == text;
    lemma_word_of_part(list, k, word);
    lemma_words_of_lines(list);
    let whole = join(list, "\n"@);
    let all = words(whole);
    lemma_clean(whole);
    lemma_kept_words(all);
    let m = choose|m: int| 0 <= m < all.len() && all[m] == word;
    assert(!is_mention(all[m]));
    lemma_no_placeholder_stays(all);
}

proof fn lemma_no_placeholder_stays(list: Seq<Seq<char>>)
    ensures
        forall|i: int|
            0 <= i < without_placeholders(list).len() ==> !is_mention(
                #[trigger] without_placeholders(list)[i],
            ),
    decreases list.len(),
{
    if list.len() > 0 {
        let front = list.drop_last();
        lemma_no_placeholder_stays(front);
        let before = without_placeholders(front);
        let all = without_placeholders(list);
        assert forall|i: int| 0 <= i < all.len() implies !is_mention(#[trigger] all[i]) by {
            if i < before.len() {
                assert(all[i] == before[i]);
            }
        }
    }
}

/// A file reads as its name, where it has one.
pub proof fn law_files_read_as_their_name(content: Tree, name: Seq<char>)
    requires
        content.text_field("file_name"@) == Some(name),
    ensures
        text_of_message("file"@, Some(content)) is Some,
        name.is_suffix_of(text_of_message("file"@, Some(content))->0),
{
    reveal_strlit("file");
    reveal_strlit("text");
    reveal_strlit("post");
    reveal_strlit("image");
    assert("file"@[0] == 'f' && "text"@[0] == 't' && "post"@[0] == 'p' && "image"@[0] == 'i');
    let read = text_of_message("file"@, Some(content))->0;
    assert(read.subrange(read.len() - name.len(), read.len() as int) =~= name);
}

/// A message is for the bot where one of its mentions has the bot's open id, as
/// a text or in an object, and where everyone is mentioned. A mention of
/// somebody else is not enough.
pub proof fn law_mentions_of_the_bot_count(
    event: FeishuReceiveMessageEvent,
    bot: Seq<char>,
    name: Option<Seq<char>>,
    i: int,
)
    ensures
        occurs("@_all"@, event.message.content@) ==> event.is_for_bot(bot, name),
        ({
            let list = event.message.mentions@;
            &&& 0 <= i < list.len() && list[i].id is Some && list[i].id->0@.text_field("open_id"@)
                == Some(bot) ==> event.is_for_bot(bot, name)
            &&& 0 <= i < list.len() && list[i].id is Some && list[i].id->0@ == Tree::Text(bot)
                && opt_text(list[i].id_type) == Some("open_id"@) ==> event.is_for_bot(bot, name)
            &&& 0 <= i < list.len() && name is Some && opt_text(list[i].name) == name
                ==> event.is_for_bot(bot, name)
        }),
        ({
            let list = event.message.mentions@;
            !occurs("@_all"@, event.message.content@) && (forall|k: int|
                0 <= k < list.len() ==> {
                    &&& opt_text((#[trigger] list[k]).key) != Some("@_all"@)
                    &&& list[k].id is Some ==> list[k].id->0@.as_text() != Some(bot)
                        && list[k].id->0@.text_field("open_id"@) != Some(bot)
                    &&& name is None || opt_text(list[k].name) != name
                }) ==> !event.is_for_bot(bot, name)
        }),
{
    let list = event.message.mentions@;
    if 0 <= i < list.len() {
        if list[i].is_of_bot(bot, name) {
            assert(event.is_for_bot(bot, name));
        }
    }
}

/// A file is found wherever its key stands in the content of a message: in an
/// object, or in what an object or a list holds.
pub proof fn law_files_are_found_anywhere(
    fields: Seq<(Seq<char>, Tree)>,
    items: Seq<Tree>,
    i: int,
    file: (Seq<char>, Option<Seq<char>>),
)
    ensures
        Tree::Object(fields).text_field("file_key"@) == Some(file.0) && file_name_of(
            Tree::Object(fields),
        ) == file.1 ==> resources_in(Tree::Object(fields)).contains(file),
        0 <= i < fields.len() && resources_in(fields[i].1).contains(file) ==> resources_in(
            Tree::Object(fields),
        ).contains(file),
        0 <= i < items.len() && resources_in(items[i]).contains(file) ==> resources_in(
            Tree::List(items),
        ).contains(file),
{
    let whole = Tree::Object(fields);
    let own = own_resource(whole);
    let inner = resources_in_fields(fields);
    assert(resources_in(whole) == own + inner);
    if whole.text_field("file_key"@) == Some(file.0) && file_name_of(whole) == file.1 {
        assert((own + inner)[0] == file);
    }
    if 0 <= i < fields.len() && resources_in(fields[i].1).contains(file) {
        lemma_resource_in_fields(fields, i, file);
        let k = choose|k: int| 0 <= k < inner.len() && inner[k] == file;
        assert((own + inner)[own.len() + k] == file);
    }
    if 0 <= i < items.len() && resources_in(items[i]).contains(file) {
        lemma_resource_in_items(items, i, file);
    }
}

proof fn lemma_resource_in_fields(
    fields: Seq<(Seq<char>, Tree)>,
    i: int,
    file: (Seq<char>, Option<Seq<char>>),
)
    requires
        0 <= i < fields.len(),
        resources_in(fields[i].1).contains(file),
    ensures
        resources_in_fields(fields).contains(file),
    decreases fields.len(),
{
    let front = fields.subrange(0, fields.len() - 1);
    let before = resources_in_fields(front);
    let last = resources_in(fields[fields.len() - 1].1);
    if i == fields.len() - 1 {
        let k = choose|k: int| 0 <= k < last.len() && last[k] == file;
        assert((before + last)[before.len() + k] == file);
    } else {
        assert(front[i] == fields[i]);
        lemma_resource_in_fields(front, i, file);
        let k = choose|k: int| 0 <= k < before.len() && before[k] == file;
        assert((before + last)[k] == file);
    }
}

proof fn lemma_resource_in_items(
    items: Seq<Tree>,
    i: int,
    file: (Seq<char>, Option<Seq<char>>),
)
    requires
        0 <= i < items.len(),
        resources_in(items[i]).contains(file),
    ensures
        resources_in_items(items).contains(file),
    decreases items.len(),
{
    let front = items.subrange(0, items.len() - 1);
    let before = resources_in_items(front);
    let last = resources_in(items[items.len() - 1]);
    if i == items.len() - 1 {
        let k = choose|k: int| 0 <= k < last.len() && last[k] == file;
        assert((before + last)[before.len() + k] == file);
    } else {
        assert(front[i] == items[i]);
        lemma_resource_in_items(front, i, file);
        let k = choose|k: int| 0 <= k < before.len() && before[k] == file;
        assert((before + last)[k] == file);
    }
}

/// Messages without words read as labels that tell them apart; a file that
/// has no file name reads as its other name, else as a label too.
pub proof fn law_media_read_as_labels(content: Option<Tree>, name: Seq<char>)
    ensures
        text_of_message("image"@, content) == Some(seq!['[', '图', '片', ']']),
        text_of_message("audio"@, content) == Some(seq!['[', '语', '音', ']']),
        text_of_message("video"@, content) == Some(seq!['[', '视', '频', ']']),
        text_of_message("sticker"@, content) == Some(seq!['[', '表', '情', ']']),
        text_of_message("file"@, None) == Some(seq!['[', '文', '件', ']']),
        content matches Some(tree) ==> (tree.get("file_name"@) is None && tree.text_field("name"@)
            == Some(name) ==> text_of_message("file"@, content) == Some(
            seq!['[', '文', '件', ']', ' '] + name,
        )),
{
    reveal_strlit("text");
    reveal_strlit("post");
    reveal_strlit("image");
    reveal_strlit("file");
    reveal_strlit("audio");
    reveal_strlit("video");
    reveal_strlit("sticker");
    reveal_strlit("[图片]");
    reveal_strlit("[语音]");
    reveal_strlit("[视频]");
    reveal_strlit("[表情]");
    reveal_strlit("[文件]");
    reveal_strlit("[文件] ");
    assert("text"@.len() == 4 && "text"@[0] == 't' && "post"@.len() == 4 && "post"@[0] == 'p');
    assert("file"@.len() == 4 && "file"@[0] == 'f' && "image"@.len() == 5 && "image"@[0] == 'i');
    assert("audio"@.len() == 5 && "audio"@[0] == 'a' && "video"@.len() == 5 && "video"@[0] == 'v');
    assert("sticker"@.len() == 7);
    assert("[图片]"@ =~= seq!['[', '图', '片', ']']);
    assert("[语音]"@ =~= seq!['[', '语', '音', ']']);
    assert("[视频]"@ =~= seq!['[', '视', '频', ']']);
    assert("[表情]"@ =~= seq!['[', '表', '情', ']']);
    assert("[文件]"@ =~= seq!['[', '文', '件', ']']);
    assert("[文件] "@ =~= seq!['[', '文', '件', ']', ' ']);
}

/// Only the known kinds of messages have a text.
pub proof fn law_other_messages_say_nothing(kind: Seq<char>, content: Option<Tree>)
    requires
        kind != "text"@ && kind != "post"@ && kind != "image"@ && kind != "file"@ && kind
            != "audio"@ && kind != "video"@ && kind != "sticker"@,
    ensures
        text_of_message(kind, content) is None,
{
}

} // verus!
