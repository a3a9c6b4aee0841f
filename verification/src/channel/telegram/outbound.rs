//! What the Telegram channel sends.

use crate::channel::feishu::markdown::lemma_lines_hold_no_feed;
use crate::text::{
    chars_of, copy_chars, find_chars, is_white, join, lemma_first_part, lemma_occurs_between,
    lemma_trim_end_edges, lemma_trim_start_edges, lines, lines_of, occurs, occurs_at, opt_text,
    push_all, replace_chars, replaced, split_on, string_of, strip_cr, strip_start, texts, trim,
    trim_start, trimmed, views,
};
use vstd::prelude::*;
use vstd::slice::slice_subrange;

verus! {

/// The characters up to which lines are put together in one message.
pub const CHUNK_LIMIT: usize = 3900;

/// The characters that the platform takes in one message; a longer line is cut.
pub const MESSAGE_LIMIT: usize = 4096;

/// The pieces of a line: all but the last are as long as a message can be.
pub open spec fn pieces(line: Seq<char>) -> Seq<Seq<char>>
    decreases line.len(),
{
    if line.len() <= MESSAGE_LIMIT {
        seq![line]
    } else {
        seq![line.take(MESSAGE_LIMIT as int)] + pieces(line.skip(MESSAGE_LIMIT as int))
    }
}

/// The pieces of all lines, in order.
pub open spec fn all_pieces(ls: Seq<Seq<char>>) -> Seq<Seq<char>>
    decreases ls.len(),
{
    if ls.len() == 0 {
        Seq::empty()
    } else {
        all_pieces(ls.drop_last()) + pieces(ls.last())
    }
}

/// A text that is being split: the messages that are full, and the one that is
/// being filled.
pub struct Packing {
    pub chunks: Seq<Seq<char>>,
    pub open: Seq<char>,
}

impl Packing {
    /// The packing after one more line: a line that does not fit starts a new
    /// message.
    pub open spec fn add_line(self, line: Seq<char>) -> Packing {
        let fits = self.open.len() == 0 || self.open.len() + 1 + line.len() <= CHUNK_LIMIT;
        let chunks = if fits {
            self.chunks
        } else {
            self.chunks.push(self.open)
        };
        let open = if fits && self.open.len() > 0 {
            self.open + "\n"@ + line
        } else {
            line
        };
        Packing { chunks, open }
    }

    /// All messages.
    pub open spec fn all(self) -> Seq<Seq<char>> {
        if self.open.len() > 0 {
            self.chunks.push(self.open)
        } else {
            self.chunks
        }
    }
}

/// The packing of the given lines.
pub open spec fn packed(ls: Seq<Seq<char>>) -> Packing
    decreases ls.len(),
{
    if ls.len() == 0 {
        Packing { chunks: Seq::empty(), open: Seq::empty() }
    } else {
        packed(ls.drop_last()).add_line(ls.last())
    }
}

/// The messages that a text becomes; a blank text becomes one space.
pub open spec fn text_chunks(text: Seq<char>) -> Seq<Seq<char>> {
    let body = trim(text);
    if body.len() == 0 {
        seq![" "@]
    } else {
        packed(all_pieces(lines(body))).all()
    }
}

/// Appends the pieces of a line.
fn push_pieces(out: &mut Vec<Vec<char>>, line: &Vec<char>)
    ensures
        views(final(out)@) == views(old(out)@) + pieces(line@),
{
    let ghost before = views(out@);
    let mut start: usize = 0;
    assert(line@.skip(0) =~= line@);
    assert(before + pieces(line@) =~= views(out@) + pieces(line@.skip(0)));
    while line.len() - start > MESSAGE_LIMIT
        invariant
            start <= line@.len(),
            before + pieces(line@) == views(out@) + pieces(line@.skip(start as int)),
        decreases line@.len() - start,
    {
        let end: usize = start + MESSAGE_LIMIT;
        let ghost rest = line@.skip(start as int);
        let ghost known = views(out@);
        out.push(copy_chars(slice_subrange(line, start, end)));
        assert(out@.last()@ =~= rest.take(MESSAGE_LIMIT as int));
        assert(views(out@) =~= known.push(rest.take(MESSAGE_LIMIT as int)));
        assert(rest.skip(MESSAGE_LIMIT as int) =~= line@.skip(end as int));
        assert(known + pieces(rest) =~= views(out@) + pieces(line@.skip(end as int)));
        start = end;
    }
    let ghost rest = line@.skip(start as int);
    let ghost known = views(out@);
    out.push(copy_chars(slice_subrange(line, start, line.len())));
    assert(out@.last()@ =~= rest);
    assert(views(out@) =~= known + seq![rest]);
}

/// Cuts the lines that are too long for a message.
fn cut_lines(ls: &Vec<Vec<char>>) -> (r: Vec<Vec<char>>)
    ensures
        views(r@) == all_pieces(views(ls@)),
{
    let ghost all = views(ls@);
    let mut out: Vec<Vec<char>> = Vec::new();
    let mut i: usize = 0;
    assert(all.take(0) =~= Seq::<Seq<char>>::empty());
    assert(views(out@) =~= Seq::<Seq<char>>::empty());
    while i < ls.len()
        invariant
            i <= ls@.len(),
            all == views(ls@),
            views(out@) == all_pieces(all.take(i as int)),
        decreases ls@.len() - i,
    {
        assert(all.take(i + 1).drop_last() =~= all.take(i as int));
        assert(all.take(i + 1).last() == ls@[i as int]@);
        push_pieces(&mut out, &ls[i]);
        i += 1;
    }
    assert(all.take(all.len() as int) =~= all);
    out
}

/// Splits a text into messages that the platform takes.
pub fn split_telegram_text(text: &str) -> (r: Vec<String>)
    ensures
        texts(r@) == text_chunks(text@),
        r@.len() > 0,
        forall|i: int| 0 <= i < r@.len() ==> 0 < (#[trigger] r@[i])@.len() <= MESSAGE_LIMIT,
{
    let r = pack_text(text);
    proof {
        law_every_text_is_sent(text@);
        assert forall|i: int| 0 <= i < r@.len() implies 0 < (#[trigger] r@[i])@.len()
            <= MESSAGE_LIMIT by {
            law_chunks_are_short(text@, i);
            assert(texts(r@)[i] == r@[i]@);
        }
    }
    r
}

fn pack_text(text: &str) -> (r: Vec<String>)
    ensures
        texts(r@) == text_chunks(text@),
{
    let cs = chars_of(text);
    let body = trimmed(&cs);
    let mut chunks: Vec<String> = Vec::new();
    if body.len() == 0 {
        chunks.push(String::from_str(" "));
        assert(texts(chunks@) =~= seq![" "@]);
        return chunks;
    }
    let whole = lines_of(body);
    let ls = cut_lines(&whole);
    let ghost all = views(ls@);
    let mut open: Vec<char> = Vec::new();
    let newline = chars_of("\n");
    proof {
        reveal_strlit("\n");
    }
    let mut i: usize = 0;
    assert(all.take(0) =~= Seq::<Seq<char>>::empty());
    assert(texts(chunks@) =~= Seq::<Seq<char>>::empty());
    while i < ls.len()
        invariant
            i <= ls@.len(),
            all == views(ls@),
            newline@ == "\n"@,
            newline@.len() == 1,
            texts(chunks@) == packed(all.take(i as int)).chunks,
            open@ == packed(all.take(i as int)).open,
        decreases ls@.len() - i,
    {
        assert(all.take(i + 1).drop_last() =~= all.take(i as int));
        assert(all.take(i + 1).last() == ls@[i as int]@);
        let line_len: usize = ls[i].len();
        let open_len: usize = open.len();
        let fits = open_len == 0 || (open_len < CHUNK_LIMIT && line_len <= CHUNK_LIMIT - open_len
            - 1);
        if !fits {
            let ghost before = texts(chunks@);
            let ghost full = open@;
            chunks.push(string_of(&open));
            assert(texts(chunks@) =~= before.push(full));
            open = Vec::new();
        }
        if open.len() > 0 {
            push_all(&mut open, &newline);
        }
        let ghost start = open@;
        push_all(&mut open, &ls[i]);
        assert(start.len() == 0 ==> open@ =~= ls@[i as int]@);
        i += 1;
    }
    assert(all.take(all.len() as int) =~= all);
    if open.len() > 0 {
        let ghost before = texts(chunks@);
        chunks.push(string_of(&open));
        assert(texts(chunks@) =~= before.push(open@));
    }
    chunks
}

proof fn lemma_pieces(line: Seq<char>)
    ensures
        pieces(line).len() > 0,
        forall|i: int| 0 <= i < pieces(line).len() ==> (#[trigger] pieces(line)[i]).len()
            <= MESSAGE_LIMIT,
        line.len() > 0 ==> pieces(line)[0].len() > 0,
    decreases line.len(),
{
    if line.len() > MESSAGE_LIMIT {
        lemma_pieces(line.skip(MESSAGE_LIMIT as int));
    }
}

proof fn lemma_all_pieces(ls: Seq<Seq<char>>)
    ensures
        forall|i: int| 0 <= i < all_pieces(ls).len() ==> (#[trigger] all_pieces(ls)[i]).len()
            <= MESSAGE_LIMIT,
        ls.len() > 0 ==> all_pieces(ls).len() > 0,
        ls.len() > 0 && ls[0].len() > 0 ==> all_pieces(ls)[0].len() > 0,
    decreases ls.len(),
{
    if ls.len() > 0 {
        lemma_all_pieces(ls.drop_last());
        lemma_pieces(ls.last());
        let front = all_pieces(ls.drop_last());
        let back = pieces(ls.last());
        assert forall|i: int| 0 <= i < all_pieces(ls).len() implies (
        #[trigger] all_pieces(ls)[i]).len() <= MESSAGE_LIMIT by {
            assert(all_pieces(ls)[i] == if i < front.len() {
                front[i]
            } else {
                back[i - front.len()]
            });
        }
    }
}

proof fn lemma_packed_short(ls: Seq<Seq<char>>)
    requires
        forall|i: int| 0 <= i < ls.len() ==> (#[trigger] ls[i]).len() <= MESSAGE_LIMIT,
    ensures
        packed(ls).open.len() <= MESSAGE_LIMIT,
        forall|i: int|
            0 <= i < packed(ls).chunks.len() ==> 0 < (#[trigger] packed(ls).chunks[i]).len()
                <= MESSAGE_LIMIT,
    decreases ls.len(),
{
    reveal_strlit("\n");
    if ls.len() > 0 {
        lemma_packed_short(ls.drop_last());
        let before = packed(ls.drop_last());
        let after = packed(ls);
        assert(ls[ls.len() - 1] == ls.last());
        assert forall|i: int| 0 <= i < after.chunks.len() implies 0 < (
        #[trigger] after.chunks[i]).len() <= MESSAGE_LIMIT by {
            if i < before.chunks.len() {
                assert(after.chunks[i] == before.chunks[i]);
            } else {
                assert(after.chunks[i] == before.open);
            }
        }
    }
}

/// Every message that a text becomes is one that the platform takes: it is not
/// empty and not too long.
pub proof fn law_chunks_are_short(text: Seq<char>, i: int)
    requires
        0 <= i < text_chunks(text).len(),
    ensures
        0 < text_chunks(text)[i].len() <= MESSAGE_LIMIT,
{
    reveal_strlit(" ");
    if trim(text).len() > 0 {
        lemma_all_pieces(lines(trim(text)));
        lemma_packed_short(all_pieces(lines(trim(text))));
    }
}

/// A text without its line feeds.
pub open spec fn unbroken(s: Seq<char>) -> Seq<char>
    decreases s.len(),
{
    if s.len() == 0 {
        s
    } else if s.last() == '\n' {
        unbroken(s.drop_last())
    } else {
        unbroken(s.drop_last()).push(s.last())
    }
}

/// The texts of a list, one after the other and without line feeds.
pub open spec fn flat(list: Seq<Seq<char>>) -> Seq<char>
    decreases list.len(),
{
    if list.len() == 0 {
        Seq::empty()
    } else {
        flat(list.drop_last()) + unbroken(list.last())
    }
}

proof fn lemma_unbroken_append(a: Seq<char>, b: Seq<char>)
    ensures
        unbroken(a + b) == unbroken(a) + unbroken(b),
    decreases b.len(),
{
    if b.len() == 0 {
        assert(a + b =~= a);
        assert(unbroken(a) + unbroken(b) =~= unbroken(a));
    } else {
        assert((a + b).drop_last() =~= a + b.drop_last());
        lemma_unbroken_append(a, b.drop_last());
        assert(unbroken(a + b) =~= unbroken(a) + unbroken(b));
    }
}

proof fn lemma_packed_flat(ls: Seq<Seq<char>>)
    ensures
        flat(packed(ls).chunks) + unbroken(packed(ls).open) == flat(ls),
    decreases ls.len(),
{
    reveal_strlit("\n");
    if ls.len() == 0 {
        assert(flat(packed(ls).chunks) + unbroken(packed(ls).open) =~= flat(ls));
    } else {
        let before = packed(ls.drop_last());
        let after = packed(ls);
        let line = ls.last();
        lemma_packed_flat(ls.drop_last());
        let fits = before.open.len() == 0 || before.open.len() + 1 + line.len() <= CHUNK_LIMIT;
        if fits && before.open.len() > 0 {
            lemma_unbroken_append(before.open + "\n"@, line);
            lemma_unbroken_append(before.open, "\n"@);
            assert("\n"@ =~= seq!['\n']);
            assert("\n"@.drop_last() =~= Seq::<char>::empty());
            assert(unbroken("\n"@.drop_last()) =~= Seq::<char>::empty());
            assert("\n"@.last() == '\n');
            assert(unbroken("\n"@) =~= Seq::<char>::empty());
            assert(flat(after.chunks) + unbroken(after.open) =~= flat(ls));
        } else if fits {
            assert(unbroken(before.open) =~= Seq::<char>::empty());
            assert(flat(after.chunks) + unbroken(after.open) =~= flat(ls));
        } else {
            assert(after.chunks.drop_last() =~= before.chunks);
            assert(flat(after.chunks) + unbroken(after.open) =~= flat(ls));
        }
    }
}

proof fn lemma_flat_append(a: Seq<Seq<char>>, b: Seq<Seq<char>>)
    ensures
        flat(a + b) == flat(a) + flat(b),
    decreases b.len(),
{
    if b.len() == 0 {
        assert(a + b =~= a);
        assert(flat(a) + flat(b) =~= flat(a));
    } else {
        assert((a + b).drop_last() =~= a + b.drop_last());
        lemma_flat_append(a, b.drop_last());
        assert(flat(a + b) =~= flat(a) + flat(b));
    }
}

proof fn lemma_flat_one(line: Seq<char>)
    ensures
        flat(seq![line]) == unbroken(line),
{
    assert(seq![line].drop_last() =~= Seq::<Seq<char>>::empty());
    assert(flat(seq![line].drop_last()) =~= Seq::<char>::empty());
    assert(flat(seq![line]) =~= unbroken(line));
}

proof fn lemma_pieces_flat(line: Seq<char>)
    ensures
        flat(pieces(line)) == unbroken(line),
    decreases line.len(),
{
    if line.len() <= MESSAGE_LIMIT {
        lemma_flat_one(line);
    } else {
        let front = line.take(MESSAGE_LIMIT as int);
        let rest = line.skip(MESSAGE_LIMIT as int);
        lemma_pieces_flat(rest);
        lemma_flat_append(seq![front], pieces(rest));
        lemma_flat_one(front);
        lemma_unbroken_append(front, rest);
        assert(front + rest =~= line);
    }
}

proof fn lemma_all_pieces_flat(ls: Seq<Seq<char>>)
    ensures
        flat(all_pieces(ls)) == flat(ls),
    decreases ls.len(),
{
    if ls.len() > 0 {
        lemma_all_pieces_flat(ls.drop_last());
        lemma_flat_append(all_pieces(ls.drop_last()), pieces(ls.last()));
        lemma_pieces_flat(ls.last());
    }
}

/// Splitting a text loses nothing but line breaks: the messages hold the
/// characters of its lines, in order.
pub proof fn law_chunks_lose_no_text(text: Seq<char>)
    requires
        trim(text).len() > 0,
    ensures
        flat(text_chunks(text)) == flat(lines(trim(text))),
{
    let cut = all_pieces(lines(trim(text)));
    let p = packed(cut);
    lemma_all_pieces_flat(lines(trim(text)));
    lemma_packed_flat(cut);
    if p.open.len() > 0 {
        assert(p.all().drop_last() =~= p.chunks);
    } else {
        assert(unbroken(p.open) =~= Seq::<char>::empty());
        assert(flat(p.chunks) + unbroken(p.open) =~= flat(p.chunks));
    }
}

proof fn lemma_packed_something(ls: Seq<Seq<char>>)
    requires
        ls.len() > 0,
        ls[0].len() > 0,
    ensures
        packed(ls).all().len() > 0,
    decreases ls.len(),
{
    reveal_strlit("\n");
    if ls.len() > 1 {
        lemma_packed_something(ls.drop_last());
    } else {
        assert(packed(ls.drop_last()).open.len() == 0);
    }
}

/// Every text becomes at least one message.
pub proof fn law_every_text_is_sent(text: Seq<char>)
    ensures
        text_chunks(text).len() > 0,
{
    let body = trim(text);
    if body.len() > 0 {
        lemma_trim_start_edges(text);
        lemma_trim_end_edges(trim_start(text));
        assert(body[0] == trim_start(text)[0]);
        lemma_first_part(body);
        let parts = split_on(body, '\n');
        assert(lines(body)[0] == strip_cr(parts[0]) || lines(body)[0] == parts[0]);
        if parts[0].last() == '\r' && parts[0].len() == 1 {
            assert(is_white(parts[0][0]));
        }
        lemma_all_pieces(lines(body));
        lemma_packed_something(all_pieces(lines(body)));
    }
}

/// The mention of a bot.
pub open spec fn mention_of(username: Seq<char>) -> Seq<char> {
    seq!['@'] + strip_start(username, '@')
}

/// A text without the mentions of the bot, where it has any.
pub open spec fn without_mention(text: Seq<char>, username: Seq<char>) -> Option<Seq<char>> {
    let mention = mention_of(username);
    if occurs(mention, text) {
        Some(trim(replaced(text, mention, Seq::empty())))
    } else {
        None
    }
}

/// Removes the mentions of the bot from a text; without any there is no
/// result.
pub fn strip_bot_mention(text: &str, username: &str) -> (r: Option<String>)
    ensures
        opt_text(r) == without_mention(text@, username@),
{
    let name = chars_of(username);
    let mut mention: Vec<char> = Vec::new();
    mention.push('@');
    assert(mention@ =~= seq!['@']);
    let mut i: usize = 0;
    assert(name@.skip(0) =~= name@);
    while i < name.len() && name[i] == '@'
        invariant
            i <= name@.len(),
            strip_start(name@, '@') == strip_start(name@.skip(i as int), '@'),
        decreases name@.len() - i,
    {
        assert(name@.skip(i as int).skip(1) =~= name@.skip(i + 1));
        i += 1;
    }
    let rest = slice_subrange(&name, i, name.len());
    assert(rest@ =~= name@.skip(i as int));
    push_all(&mut mention, rest);
    let cs = chars_of(text);
    if find_chars(&cs, &mention).is_none() {
        return None;
    }
    let nothing: Vec<char> = Vec::new();
    assert(nothing@ =~= Seq::<char>::empty());
    let cleaned = replace_chars(&cs, &mention, &nothing);
    Some(string_of(trimmed(&cleaned)))
}

proof fn lemma_short_pieces(ls: Seq<Seq<char>>)
    requires
        forall|i: int| 0 <= i < ls.len() ==> (#[trigger] ls[i]).len() <= 4096,
    ensures
        all_pieces(ls) == ls,
    decreases ls.len(),
{
    if ls.len() > 0 {
        let front = ls.drop_last();
        assert forall|i: int| 0 <= i < front.len() implies (#[trigger] front[i]).len() <= 4096 by {
            assert(front[i] == ls[i]);
        }
        lemma_short_pieces(front);
        assert(ls[ls.len() - 1].len() <= 4096);
        assert(front + seq![ls.last()] =~= ls);
    } else {
        assert(all_pieces(ls) =~= ls);
    }
}

proof fn lemma_packed_together(ls: Seq<Seq<char>>)
    requires
        ls.len() > 0,
        ls[0].len() > 0,
        join(ls, "\n"@).len() <= 3900,
    ensures
        packed(ls).chunks.len() == 0,
        packed(ls).open == join(ls, "\n"@),
        packed(ls).open.len() > 0,
        forall|i: int| 0 <= i < ls.len() ==> (#[trigger] ls[i]).len() <= 3900,
    decreases ls.len(),
{
    reveal_strlit("\n");
    if ls.len() == 1 {
        assert(packed(ls.drop_last()).open.len() == 0);
        assert(ls[0] == ls.last());
    } else {
        let front = ls.drop_last();
        assert(front[0] == ls[0]);
        lemma_packed_together(front);
        assert forall|i: int| 0 <= i < ls.len() implies (#[trigger] ls[i]).len() <= 3900 by {
            if i < front.len() {
                assert(front[i] == ls[i]);
            }
        }
    }
}

/// A text of up to 3900 characters is sent as one message.
pub proof fn law_short_texts_are_one_message(text: Seq<char>)
    requires
        trim(text).len() > 0,
        join(lines(trim(text)), "\n"@).len() <= 3900,
    ensures
        text_chunks(text) == seq![join(lines(trim(text)), "\n"@)],
{
    let body = trim(text);
    let ls = lines(body);
    lemma_first_line(text);
    lemma_packed_together(ls);
    lemma_short_pieces(ls);
    assert(packed(ls).all() =~= seq![join(ls, "\n"@)]);
}

proof fn lemma_first_line(text: Seq<char>)
    requires
        trim(text).len() > 0,
    ensures
        lines(trim(text)).len() > 0,
        lines(trim(text))[0].len() > 0,
{
    let body = trim(text);
    lemma_trim_start_edges(text);
    lemma_trim_end_edges(trim_start(text));
    lemma_first_part(body);
    let parts = split_on(body, '\n');
    if parts.len() == 1 {
        assert(lines(body)[0] == parts[0]);
    } else {
        assert(lines(body)[0] == strip_cr(parts[0]));
        if parts[0].len() == 1 {
            assert(parts[0][0] == body[0]);
        }
    }
}

proof fn lemma_packed_breaks(ls: Seq<Seq<char>>)
    requires
        forall|i: int| 0 <= i < ls.len() ==> !(#[trigger] ls[i]).contains('\n'),
    ensures
        packed(ls).open.len() <= 3900 || !packed(ls).open.contains('\n'),
        forall|i: int|
            0 <= i < packed(ls).chunks.len() ==> (#[trigger] packed(ls).chunks[i]).len() <= 3900
                || !packed(ls).chunks[i].contains('\n'),
    decreases ls.len(),
{
    reveal_strlit("\n");
    if ls.len() > 0 {
        let front = ls.drop_last();
        assert forall|i: int| 0 <= i < front.len() implies !(#[trigger] front[i]).contains('\n') by {
            assert(front[i] == ls[i]);
        }
        lemma_packed_breaks(front);
        let before = packed(front);
        let after = packed(ls);
        assert(!ls[ls.len() - 1].contains('\n'));
        assert forall|i: int| 0 <= i < after.chunks.len() implies (#[trigger] after.chunks[i]).len()
            <= 3900 || !after.chunks[i].contains('\n') by {
            if i < before.chunks.len() {
                assert(after.chunks[i] == before.chunks[i]);
            } else {
                assert(after.chunks[i] == before.open);
            }
        }
    }
}

/// Lines are only put together in a message up to 3900 characters, and no
/// message is longer than the 4096 that the platform takes.
pub proof fn law_messages_are_not_overfull(text: Seq<char>, i: int)
    requires
        0 <= i < text_chunks(text).len(),
    ensures
        text_chunks(text)[i].len() <= 4096,
        text_chunks(text)[i].contains('\n') ==> text_chunks(text)[i].len() <= 3900,
{
    law_chunks_are_short(text, i);
    reveal_strlit(" ");
    if trim(text).len() > 0 {
        let ls = lines(trim(text));
        lemma_lines_hold_no_feed(trim(text));
        lemma_pieces_hold_no_feed(ls);
        lemma_packed_breaks(all_pieces(ls));
        assert(packed(all_pieces(ls)).all()[i] == text_chunks(text)[i]);
    }
}

proof fn lemma_pieces_hold_no_feed(ls: Seq<Seq<char>>)
    requires
        forall|i: int| 0 <= i < ls.len() ==> !(#[trigger] ls[i]).contains('\n'),
    ensures
        forall|i: int|
            0 <= i < all_pieces(ls).len() ==> !(#[trigger] all_pieces(ls)[i]).contains('\n'),
    decreases ls.len(),
{
    if ls.len() > 0 {
        let front = ls.drop_last();
        assert forall|i: int| 0 <= i < front.len() implies !(#[trigger] front[i]).contains('\n') by {
            assert(front[i] == ls[i]);
        }
        lemma_pieces_hold_no_feed(front);
        assert(!ls[ls.len() - 1].contains('\n'));
        lemma_pieces_of_line_hold_no_feed(ls.last());
        let a = all_pieces(front);
        let b = pieces(ls.last());
        assert forall|i: int| 0 <= i < all_pieces(ls).len() implies !(
        #[trigger] all_pieces(ls)[i]).contains('\n') by {
            assert(all_pieces(ls)[i] == if i < a.len() {
                a[i]
            } else {
                b[i - a.len()]
            });
        }
    }
}

proof fn lemma_pieces_of_line_hold_no_feed(line: Seq<char>)
    requires
        !line.contains('\n'),
    ensures
        forall|i: int| 0 <= i < pieces(line).len() ==> !(#[trigger] pieces(line)[i]).contains('\n'),
    decreases line.len(),
{
    if line.len() > MESSAGE_LIMIT {
        let rest = line.skip(MESSAGE_LIMIT as int);
        let first = line.take(MESSAGE_LIMIT as int);
        if rest.contains('\n') {
            let k = choose|k: int| 0 <= k < rest.len() && rest[k] == '\n';
            assert(line[k + MESSAGE_LIMIT] == '\n');
        }
        if first.contains('\n') {
            let k = choose|k: int| 0 <= k < first.len() && first[k] == '\n';
            assert(line[k] == '\n');
        }
        lemma_pieces_of_line_hold_no_feed(rest);
        assert forall|i: int| 0 <= i < pieces(line).len() implies !(
        #[trigger] pieces(line)[i]).contains('\n') by {
            if i > 0 {
                assert(pieces(line)[i] == pieces(rest)[i - 1]);
            }
        }
    }
}

proof fn lemma_nothing_replaced(s: Seq<char>, mention: Seq<char>)
    requires
        mention.len() > 0,
        !s.contains(mention[0]),
    ensures
        replaced(s, mention, Seq::empty()) == s,
    decreases s.len(),
{
    if s.len() >= mention.len() {
        assert(s.contains(s[0]));
        if mention.is_prefix_of(s) {
            assert(s.subrange(0, mention.len() as int)[0] == mention[0]);
        }
        let rest = s.skip(1);
        if rest.contains(mention[0]) {
            let k = choose|k: int| 0 <= k < rest.len() && rest[k] == mention[0];
            assert(s[k + 1] == mention[0]);
        }
        lemma_nothing_replaced(rest, mention);
        assert(seq![s[0]] + rest =~= s);
    }
}

proof fn lemma_mention_replaced(before: Seq<char>, mention: Seq<char>, after: Seq<char>)
    requires
        mention.len() > 0,
        !before.contains(mention[0]),
        !after.contains(mention[0]),
    ensures
        replaced(before + mention + after, mention, Seq::empty()) == before + after,
    decreases before.len(),
{
    let s = before + mention + after;
    if before.len() == 0 {
        assert(s.subrange(0, mention.len() as int) =~= mention);
        assert(s.skip(mention.len() as int) =~= after);
        lemma_nothing_replaced(after, mention);
        assert(Seq::<char>::empty() + after =~= before + after);
    } else {
        assert(before.contains(before[0]));
        assert(s[0] == before[0]);
        if mention.is_prefix_of(s) {
            assert(s.subrange(0, mention.len() as int)[0] == mention[0]);
        }
        let rest = before.skip(1);
        if rest.contains(mention[0]) {
            let k = choose|k: int| 0 <= k < rest.len() && rest[k] == mention[0];
            assert(before[k + 1] == mention[0]);
        }
        lemma_mention_replaced(rest, mention, after);
        assert(s.skip(1) =~= rest + mention + after);
        assert(seq![s[0]] + (rest + after) =~= before + after);
    }
}

/// A text that mentions the bot is passed on without the mention, and with all
/// the rest; a text without an at sign mentions nobody. It makes no difference
/// whether the bot's name is given with the sign.
pub proof fn law_only_the_mention_is_removed(
    before: Seq<char>,
    name: Seq<char>,
    after: Seq<char>,
)
    requires
        name.len() > 0,
        !before.contains('@'),
        !name.contains('@'),
        !after.contains('@'),
    ensures
        without_mention(before + seq!['@'] + name + after, name) == Some(trim(before + after)),
        without_mention(before + seq!['@'] + name + after, seq!['@'] + name) == Some(
            trim(before + after),
        ),
        without_mention(before + after, name) is None,
{
    let mention = seq!['@'] + name;
    assert(name.contains(name[0]));
    assert(strip_start(name, '@') == name);
    assert(mention.skip(1) =~= name);
    reveal_with_fuel(strip_start, 2);
    assert(strip_start(mention, '@') == name);
    let text = before + seq!['@'] + name + after;
    assert(text =~= before + mention + after);
    lemma_occurs_between(before, mention, after);
    lemma_mention_replaced(before, mention, after);
    let plain = before + after;
    if occurs(mention, plain) {
        let i = choose|i: int| occurs_at(mention, plain, i);
        assert(plain.subrange(i, i + mention.len())[0] == '@');
        assert(plain[i] == '@');
        if i < before.len() {
            assert(before[i] == '@');
        } else {
            assert(after[i - before.len()] == '@');
        }
    }
}

} // verus!
