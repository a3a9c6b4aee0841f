//! Forwarded conversations, told as one text.

use crate::assoc::{assign, erase, has_entry, lemma_at, lemma_same_keys, lookup, Assoc};
use crate::channel::feishu::event::{message_text, text_of_message};
use crate::json::json_parse;
use crate::numbers::{dec, decimal_usize};
use crate::text::{
    chars_of, join, join_chars, join_strings, lemma_joined_part, lines, lines_of, occurs,
    occurs_at, opt_text, same_text, string_of, texts, trim, trimmed_text,
};
use vstd::prelude::*;

verus! {

/// A message of a forwarded conversation.
#[derive(Debug, Clone)]
pub struct FeishuMessageDetail {
    /// The message id.
    pub message_id: String,
    /// The type of the message.
    pub msg_type: String,
    /// The forwarding message that it is part of.
    pub upper_message_id: Option<String>,
    /// The sender.
    pub sender: Option<FeishuMessageSender>,
    /// The content.
    pub body: Option<FeishuMessageBody>,
}

/// The sender of a forwarded message.
#[derive(Debug, Clone)]
pub struct FeishuMessageSender {
    /// The id of the sender.
    pub id: String,
    /// The kind of sender.
    pub _sender_type: Option<String>,
}

/// The content of a forwarded message.
#[derive(Debug, Clone)]
pub struct FeishuMessageBody {
    /// The content, a JSON text.
    pub content: String,
}

/// Names for senders, in the order in which they first speak.
pub type AliasViews = Seq<(Seq<char>, Seq<char>)>;

/// The names that a map of senders holds.
pub open spec fn alias_views(aliases: Assoc<String>) -> AliasViews {
    Seq::new(aliases@.len(), |i: int| (aliases@[i].0, aliases@[i].1@))
}

/// What has been told of a conversation so far.
pub struct MergeView {
    pub lines: Seq<Seq<char>>,
    pub aliases: AliasViews,
}

impl FeishuMessageDetail {
    /// Whether the message is part of the given forwarding message.
    pub open spec fn is_part_of(self, message_id: Seq<char>) -> bool {
        self.message_id@ != message_id && opt_text(self.upper_message_id) == Some(message_id)
    }

    /// The id that tells the sender apart, where there is one.
    pub open spec fn sender_key(self) -> Option<Seq<char>> {
        match self.sender {
            Some(sender) => if trim(sender.id@).len() > 0 {
                Some(trim(sender.id@))
            } else {
                None
            },
            None => None,
        }
    }
}

/// The name of a sender: ids are not shown, senders are numbered as they
/// first speak.
pub open spec fn sender_name(item: FeishuMessageDetail, aliases: AliasViews) -> Seq<char> {
    match item.sender_key() {
        Some(key) => match lookup(aliases, key) {
            Some(name) => name,
            None => "用户"@ + dec(aliases.len() + 1),
        },
        None => "未知用户"@,
    }
}

/// The known senders after one has spoken.
pub open spec fn known_after(item: FeishuMessageDetail, aliases: AliasViews) -> AliasViews {
    match item.sender_key() {
        Some(key) => if has_entry(aliases, key) {
            aliases
        } else {
            aliases.push((key, sender_name(item, aliases)))
        },
        None => aliases,
    }
}

/// A text whose lines are set in under a number.
pub open spec fn indented(text: Seq<char>) -> Seq<char> {
    join(lines(text), "\n   "@)
}

/// What is told of the given messages of a conversation, given the text of
/// each, where it has one.
pub open spec fn merged(
    items: Seq<FeishuMessageDetail>,
    bodies: Seq<Option<Seq<char>>>,
    message_id: Seq<char>,
) -> MergeView
    decreases items.len(),
{
    if items.len() == 0 {
        MergeView { lines: Seq::empty(), aliases: Seq::empty() }
    } else {
        let before = merged(items.drop_last(), bodies, message_id);
        let item = items.last();
        if !item.is_part_of(message_id) {
            before
        } else {
            let aliases = known_after(item, before.aliases);
            match bodies[items.len() - 1] {
                Some(text) => MergeView {
                    lines: before.lines.push(
                        dec(before.lines.len() + 1) + ". "@ + indented(
                            sender_name(item, before.aliases) + ": "@ + text,
                        ),
                    ),
                    aliases,
                },
                None => MergeView { lines: before.lines, aliases },
            }
        }
    }
}

/// The conversation as one text, unless nothing can be told of it.
pub open spec fn merged_text(
    items: Seq<FeishuMessageDetail>,
    bodies: Seq<Option<Seq<char>>>,
    message_id: Seq<char>,
) -> Option<Seq<char>> {
    let told = merged(items, bodies, message_id).lines;
    if told.len() == 0 {
        None
    } else {
        Some(join(seq!["[合并转发消息]"@] + told, "\n"@))
    }
}

/// The contents of optional strings.
pub open spec fn opt_texts(list: Seq<Option<String>>) -> Seq<Option<Seq<char>>> {
    Seq::new(list.len(), |i: int| opt_text(list[i]))
}

/// Whether the message is part of the given forwarding message.
pub fn is_part_of(item: &FeishuMessageDetail, message_id: &str) -> (r: bool)
    ensures
        r == item.is_part_of(message_id@),
{
    if same_text(item.message_id.as_str(), message_id) {
        return false;
    }
    match &item.upper_message_id {
        Some(upper) => same_text(upper.as_str(), message_id),
        None => false,
    }
}

/// The text of a forwarded message that is no conversation itself.
pub fn item_text(item: &FeishuMessageDetail) -> (r: Option<String>)
    ensures
        opt_text(r) == match item.body {
            Some(body) => text_of_message(item.msg_type@, json_parse(body.content@)),
            None => None,
        },
{
    match &item.body {
        Some(body) => message_text(item.msg_type.as_str(), body.content.as_str()),
        None => None,
    }
}

fn render_merge_sender(item: &FeishuMessageDetail, aliases: &mut Assoc<String>) -> (r: String)
    requires
        old(aliases)@.len() < usize::MAX,
    ensures
        r@ == sender_name(*item, alias_views(*old(aliases))),
        alias_views(*final(aliases)) == known_after(*item, alias_views(*old(aliases))),
        final(aliases)@.len() <= old(aliases)@.len() + 1,
{
    let key = match &item.sender {
        Some(sender) => trimmed_text(sender.id.as_str()),
        None => String::new(),
    };
    if key.as_str().is_empty() {
        return String::from_str("未知用户");
    }
    let ghost before = *aliases;
    proof {
        lemma_same_keys(before@, alias_views(before), key@);
        lemma_at(before@, key@);
    }
    if let Some(name) = aliases.get(key.as_str()) {
        return name.clone();
    }
    let mut name = String::from_str("用户");
    name.append(decimal_usize(aliases.len() + 1).as_str());
    let ghost k = key@;
    let ghost n = name@;
    aliases.insert(key, name.clone());
    assert(alias_views(*aliases) =~= alias_views(before).push((k, n)));
    name
}

/// Sets the lines of a text in under a number.
pub fn indent_multiline(text: &str) -> (r: String)
    ensures
        r@ == indented(text@),
{
    let cs = chars_of(text);
    let sep = chars_of("\n   ");
    string_of(&join_chars(&lines_of(&cs), &sep))
}

/// Tells a forwarded conversation, given the text of each message.
pub fn render_merge_forward_items(
    message_id: &str,
    items: &Vec<FeishuMessageDetail>,
    bodies: &Vec<Option<String>>,
) -> (r: Option<String>)
    requires
        items@.len() == bodies@.len(),
    ensures
        opt_text(r) == merged_text(items@, opt_texts(bodies@), message_id@),
{
    let ghost texts_of = opt_texts(bodies@);
    let mut told: Vec<String> = Vec::new();
    let mut aliases: Assoc<String> = Assoc::new();
    let mut i: usize = 0;
    assert(texts(told@) =~= Seq::<Seq<char>>::empty());
    assert(alias_views(aliases) =~= Seq::empty());
    assert(items@.take(0) =~= Seq::<FeishuMessageDetail>::empty());
    while i < items.len()
        invariant
            i <= items@.len(),
            items@.len() == bodies@.len(),
            texts_of == opt_texts(bodies@),
            texts(told@) == merged(items@.take(i as int), texts_of, message_id@).lines,
            alias_views(aliases) == merged(items@.take(i as int), texts_of, message_id@).aliases,
            told@.len() <= i,
            aliases@.len() <= i,
        decreases items@.len() - i,
    {
        let item = &items[i];
        assert(items@.take(i + 1).drop_last() =~= items@.take(i as int));
        if is_part_of(item, message_id) {
            let sender = render_merge_sender(item, &mut aliases);
            if let Some(text) = &bodies[i] {
                let mut told_text = sender;
                told_text.append(": ");
                told_text.append(text.as_str());
                let mut line = decimal_usize(told.len() + 1);
                line.append(". ");
                line.append(indent_multiline(told_text.as_str()).as_str());
                let ghost before = texts(told@);
                let ghost l = line@;
                assert(before.len() == told@.len());
                told.push(line);
                assert(texts(told@) =~= before.push(l));
            }
        }
        i += 1;
    }
    assert(items@.take(items@.len() as int) =~= items@);
    assert(texts(told@).len() == told@.len());
    if told.len() == 0 {
        return None;
    }
    let mut all: Vec<String> = Vec::new();
    all.push(String::from_str("[合并转发消息]"));
    let ghost lines_told = texts(told@);
    all.append(&mut told);
    assert(texts(all@) =~= seq!["[合并转发消息]"@] + lines_told);
    Some(join_strings(&all, "\n"))
}

/// The text of a message with the conversation that it asks about in front.
pub open spec fn with_root(context: Seq<char>, text: Seq<char>) -> Seq<char> {
    context + "\n\n[用户追问]\n"@ + text
}

/// Puts the conversation that a message asks about in front of its text.
pub fn with_root_context(context: &str, text: &str) -> (r: String)
    ensures
        r@ == with_root(context@, text@),
{
    let mut out = String::from_str(context);
    out.append("\n\n[用户追问]\n");
    out.append(text);
    out
}

/// Notes that a forwarding message is being read; tells whether it was not
/// being read already.
pub fn enter_forward(visited: &mut Assoc<()>, message_id: &str) -> (r: bool)
    ensures
        r == !has_entry(old(visited)@, message_id@),
        final(visited)@ == assign(old(visited)@, message_id@, ()),
{
    let fresh = !visited.contains(message_id);
    visited.insert(String::from_str(message_id), ());
    fresh
}

/// Notes that a forwarding message has been read.
pub fn leave_forward(visited: &mut Assoc<()>, message_id: &str)
    ensures
        final(visited)@ == erase(old(visited)@, message_id@),
{
    visited.remove(message_id);
}

/// What is told of a forwarding message that is part of itself.
pub fn cyclic_forward_text() -> (r: String)
    ensures
        r@ == "[合并转发消息]\n已跳过循环引用"@,
{
    String::from_str("[合并转发消息]\n已跳过循环引用")
}

/// What is told of a forwarding message that nothing can be told of.
pub fn empty_forward_text() -> (r: String)
    ensures
        r@ == "[合并转发消息]\n未读取到可解析的子消息"@,
{
    String::from_str("[合并转发消息]\n未读取到可解析的子消息")
}

/// A sender keeps its name through a conversation.
pub proof fn law_sender_keeps_its_name(
    first: FeishuMessageDetail,
    later: FeishuMessageDetail,
    aliases: AliasViews,
)
    requires
        first.sender_key() is Some,
        later.sender_key() == first.sender_key(),
    ensures
        sender_name(later, known_after(first, aliases)) == sender_name(first, aliases),
{
    let key = first.sender_key()->0;
    lemma_at(aliases, key);
    if !has_entry(aliases, key) {
        let after = known_after(first, aliases);
        crate::assoc::lemma_at_is(after, key, aliases.len() as int);
    }
}

/// How many of the given messages are told: those that are part of the
/// forwarding message and have a text.
pub open spec fn told_count(
    items: Seq<FeishuMessageDetail>,
    bodies: Seq<Option<Seq<char>>>,
    message_id: Seq<char>,
) -> nat
    decreases items.len(),
{
    if items.len() == 0 {
        0
    } else {
        told_count(items.drop_last(), bodies, message_id) + if items.last().is_part_of(message_id)
            && bodies[items.len() - 1] is Some {
            1nat
        } else {
            0nat
        }
    }
}

proof fn lemma_told(
    items: Seq<FeishuMessageDetail>,
    bodies: Seq<Option<Seq<char>>>,
    message_id: Seq<char>,
    i: int,
)
    requires
        0 <= i < items.len(),
        items[i].is_part_of(message_id),
        bodies[i] is Some,
    ensures
        ({
            let told = merged(items, bodies, message_id).lines;
            let k = told_count(items.take(i), bodies, message_id);
            &&& k < told.len()
            &&& exists|sender: Seq<char>|
                told[k as int] == dec(k + 1) + ". "@ + #[trigger] indented(
                    sender + ": "@ + bodies[i]->0,
                )
        }),
    decreases items.len(),
{
    let front = items.drop_last();
    let before = merged(front, bodies, message_id);
    let told = merged(items, bodies, message_id).lines;
    lemma_told_count(front, bodies, message_id);
    if i == items.len() - 1 {
        assert(items.take(i) =~= front);
        let sender = sender_name(items[i], before.aliases);
        assert(told[before.lines.len() as int] == dec(before.lines.len() + 1) + ". "@ + indented(
            sender + ": "@ + bodies[i]->0,
        ));
    } else {
        lemma_told(front, bodies, message_id, i);
        assert(front.take(i) =~= items.take(i));
        let k = told_count(items.take(i), bodies, message_id);
        assert(told[k as int] == before.lines[k as int]);
    }
}

proof fn lemma_told_count(
    items: Seq<FeishuMessageDetail>,
    bodies: Seq<Option<Seq<char>>>,
    message_id: Seq<char>,
)
    ensures
        merged(items, bodies, message_id).lines.len() == told_count(items, bodies, message_id),
    decreases items.len(),
{
    if items.len() > 0 {
        lemma_told_count(items.drop_last(), bodies, message_id);
    }
}

/// Every part of a forwarded conversation that has a text is told: under the
/// number of its place among them, its sender and then its text.
pub proof fn law_every_part_is_told(
    items: Seq<FeishuMessageDetail>,
    bodies: Seq<Option<Seq<char>>>,
    message_id: Seq<char>,
    i: int,
)
    requires
        0 <= i < items.len(),
        items[i].is_part_of(message_id),
        bodies[i] is Some,
    ensures
        merged_text(items, bodies, message_id) is Some,
        exists|sender: Seq<char>|
            occurs(
                dec(told_count(items.take(i), bodies, message_id) + 1) + ". "@ + #[trigger] join(
                    lines(sender + ": "@ + bodies[i]->0),
                    "\n   "@,
                ),
                merged_text(items, bodies, message_id)->0,
            ),
{
    lemma_told(items, bodies, message_id, i);
    let told = merged(items, bodies, message_id).lines;
    let k = told_count(items.take(i), bodies, message_id);
    let sender = choose|sender: Seq<char>|
        told[k as int] == dec(k + 1) + ". "@ + #[trigger] indented(sender + ": "@ + bodies[i]->0);
    let all = seq!["[合并转发消息]"@] + told;
    assert(all[(k + 1) as int] == told[k as int]);
    lemma_joined_part(all, "\n"@, (k + 1) as int);
    assert(occurs(
        dec(k + 1) + ". "@ + join(lines(sender + ": "@ + bodies[i]->0), "\n   "@),
        merged_text(items, bodies, message_id)->0,
    ));
}

/// Nothing is told of a conversation without a part that has a text, and a
/// message that is no part changes nothing.
pub proof fn law_only_parts_are_told(
    items: Seq<FeishuMessageDetail>,
    bodies: Seq<Option<Seq<char>>>,
    message_id: Seq<char>,
    other: FeishuMessageDetail,
)
    requires
        !other.is_part_of(message_id),
    ensures
        merged_text(items, bodies, message_id) is Some ==> exists|i: int|
            0 <= i < items.len() && (#[trigger] items[i]).is_part_of(message_id)
                && bodies[i] is Some,
        merged_text(items.push(other), bodies, message_id) == merged_text(
            items,
            bodies,
            message_id,
        ),
{
    assert(items.push(other).drop_last() =~= items);
    lemma_told_count(items, bodies, message_id);
    if merged_text(items, bodies, message_id) is Some {
        lemma_some_part(items, bodies, message_id);
    }
}

proof fn lemma_some_part(
    items: Seq<FeishuMessageDetail>,
    bodies: Seq<Option<Seq<char>>>,
    message_id: Seq<char>,
)
    requires
        told_count(items, bodies, message_id) > 0,
    ensures
        exists|i: int|
            0 <= i < items.len() && (#[trigger] items[i]).is_part_of(message_id)
                && bodies[i] is Some,
    decreases items.len(),
{
    let last = items.len() - 1;
    if items[last].is_part_of(message_id) && bodies[last] is Some {
    } else {
        let front = items.drop_last();
        lemma_some_part(front, bodies, message_id);
        let i = choose|i: int|
            0 <= i < front.len() && (#[trigger] front[i]).is_part_of(message_id)
                && bodies[i] is Some;
        assert(items[i] == front[i]);
    }
}

/// The messages that belong to a conversation name it as the one above them,
/// and the conversation is no part of itself.
pub proof fn law_parts_name_their_conversation(item: FeishuMessageDetail, message_id: Seq<char>)
    ensures
        item.upper_message_id is None ==> !item.is_part_of(message_id),
        item.is_part_of(message_id) ==> item.upper_message_id->0@ == message_id,
        item.message_id@ == message_id ==> !item.is_part_of(message_id),
        item.upper_message_id is Some && item.upper_message_id->0@ == message_id
            && item.message_id@ != message_id ==> item.is_part_of(message_id),
{
}

/// Senders are numbered from one in the order in which they first speak, and
/// nobody is numbered twice.
pub proof fn law_senders_are_numbered(
    items: Seq<FeishuMessageDetail>,
    bodies: Seq<Option<Seq<char>>>,
    message_id: Seq<char>,
)
    ensures
        ({
            let aliases = merged(items, bodies, message_id).aliases;
            &&& forall|i: int|
                0 <= i < aliases.len() ==> (#[trigger] aliases[i]).1 == seq!['用', '户'] + dec(
                    (i + 1) as nat,
                )
            &&& forall|i: int, j: int|
                0 <= i < j < aliases.len() ==> (#[trigger] aliases[i]).0 != (
                #[trigger] aliases[j]).0
        }),
    decreases items.len(),
{
    reveal_strlit("用户");
    assert("用户"@ =~= seq!['用', '户']);
    if items.len() > 0 {
        let before = merged(items.drop_last(), bodies, message_id).aliases;
        law_senders_are_numbered(items.drop_last(), bodies, message_id);
        let item = items.last();
        if item.is_part_of(message_id) && item.sender_key() is Some {
            let key = item.sender_key()->0;
            if !has_entry(before, key) {
                lemma_unknown(before, key);
            }
        }
    }
}

proof fn lemma_unknown(aliases: AliasViews, key: Seq<char>)
    requires
        !has_entry(aliases, key),
    ensures
        lookup(aliases, key) is None,
        forall|i: int| 0 <= i < aliases.len() ==> (#[trigger] aliases[i]).0 != key,
{
    lemma_at(aliases, key);
}

/// A question about a conversation is put behind it, and neither is cut.
pub proof fn law_questions_follow_the_conversation(context: Seq<char>, text: Seq<char>)
    ensures
        context.is_prefix_of(with_root(context, text)),
        text.is_suffix_of(with_root(context, text)),
        occurs("[用户追问]"@, with_root(context, text)),
{
    reveal_strlit("[用户追问]");
    reveal_strlit("\n\n[用户追问]\n");
    let whole = with_root(context, text);
    assert(whole.subrange(0, context.len() as int) =~= context);
    assert(whole.subrange(whole.len() - text.len(), whole.len() as int) =~= text);
    let at = context.len() + 2;
    assert(whole.subrange(at as int, (at + 6) as int) =~= "[用户追问]"@);
    assert(occurs_at("[用户追问]"@, whole, at as int));
}

} // verus!
