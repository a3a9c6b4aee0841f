//! The texts that the QQ channel reads and writes.

use crate::channel::feishu::markdown::{
    escaped_line, indent_of, is_numbering, lemma_escaped_line_has_no_marker, lemma_indent,
    marker_at, rendered,
};
use crate::message::OutboundFormat;
use crate::text::{
    chars_of, copy_chars, digit, has_prefix, has_suffix, is_digit, is_white, join, join_chars,
    lemma_join_of_split, lemma_split_of_join, lemma_split_parts, lemma_trimmed,
    lemma_words_are_solid, lemma_words_of_joined, push_all, split_chars, split_on, string_of, trim,
    trim_start, trimmed, trimmed_start, views, words, words_of,
};
use vstd::prelude::*;
use vstd::slice::slice_subrange;

verus! {

/// Whether a word is a mention.
pub open spec fn is_qq_mention(word: Seq<char>) -> bool {
    "<@"@.is_prefix_of(word) && ">"@.is_suffix_of(word)
}

/// The words that are no mentions.
pub open spec fn without_mentions(list: Seq<Seq<char>>) -> Seq<Seq<char>>
    decreases list.len(),
{
    if list.len() == 0 {
        list
    } else {
        let before = without_mentions(list.drop_last());
        if is_qq_mention(list.last()) {
            before
        } else {
            before.push(list.last())
        }
    }
}

/// What a text says apart from its mentions.
pub open spec fn cleaned_text(text: Seq<char>) -> Seq<char> {
    trim(join(without_mentions(words(text)), " "@))
}

/// What a text says apart from its mentions.
pub fn clean_qq_text(text: &str) -> (r: String)
    ensures
        r@ == cleaned_text(text@),
{
    let cs = chars_of(text);
    let list = words_of(&cs);
    let ghost all = views(list@);
    let open = chars_of("<@");
    let close = chars_of(">");
    let mut kept: Vec<Vec<char>> = Vec::new();
    let mut i: usize = 0;
    assert(all.take(0) =~= Seq::<Seq<char>>::empty());
    assert(views(kept@) =~= Seq::<Seq<char>>::empty());
    while i < list.len()
        invariant
            i <= list@.len(),
            all == views(list@),
            open@ == "<@"@,
            close@ == ">"@,
            views(kept@) == without_mentions(all.take(i as int)),
        decreases list@.len() - i,
    {
        assert(all.take(i + 1).drop_last() =~= all.take(i as int));
        assert(all.take(i + 1).last() == list@[i as int]@);
        if !has_prefix(&list[i], &open) || !has_suffix(&list[i], &close) {
            let ghost before = views(kept@);
            kept.push(copy_chars(&list[i]));
            assert(views(kept@) =~= before.push(all[i as int]));
        }
        i += 1;
    }
    assert(all.take(all.len() as int) =~= all);
    let space = chars_of(" ");
    let joined = join_chars(&kept, &space);
    string_of(trimmed(&joined))
}

/// How many digits `s` starts with.
pub open spec fn digit_run(s: Seq<char>) -> nat
    decreases s.len(),
{
    if s.len() > 0 && is_digit(s[0]) {
        1 + digit_run(s.skip(1))
    } else {
        0
    }
}

/// Whether a line starts with a number whose dot is escaped, after white space.
pub open spec fn has_escaped_number(line: Seq<char>) -> bool {
    let body = trim_start(line);
    let n = digit_run(body) as int;
    n > 0 && "\\."@.is_prefix_of(body.skip(n))
}

/// A line whose number has a plain dot.
pub open spec fn restored_line(line: Seq<char>) -> Seq<char> {
    if has_escaped_number(line) {
        let body = trim_start(line);
        let n = digit_run(body) as int;
        line.take(line.len() - body.len()) + body.take(n) + "."@ + body.skip(n + 2)
    } else {
        line
    }
}

/// A text whose lines have plain dots behind their numbers.
pub open spec fn restored_text(text: Seq<char>) -> Seq<char> {
    let parts = split_on(text, '\n');
    join(Seq::new(parts.len(), |i: int| restored_line(parts[i])), "\n"@)
}

proof fn lemma_trim_start_length(s: Seq<char>)
    ensures
        trim_start(s).len() <= s.len(),
        trim_start(s) == s.skip(s.len() - trim_start(s).len()),
    decreases s.len(),
{
    if s.len() > 0 && is_white(s[0]) {
        lemma_trim_start_length(s.skip(1));
        assert(trim_start(s) =~= s.skip(s.len() - trim_start(s).len()));
    } else {
        assert(s.skip(0) =~= s);
    }
}

proof fn lemma_digit_run(s: Seq<char>)
    ensures
        digit_run(s) <= s.len(),
        forall|k: int| 0 <= k < digit_run(s) ==> is_digit(#[trigger] s[k]),
        digit_run(s) < s.len() ==> !is_digit(s[digit_run(s) as int]),
    decreases s.len(),
{
    if s.len() > 0 && is_digit(s[0]) {
        let t = s.skip(1);
        lemma_digit_run(t);
        assert forall|k: int| 0 <= k < digit_run(s) implies is_digit(#[trigger] s[k]) by {
            if k > 0 {
                assert(t[k - 1] == s[k]);
            }
        }
    }
}

proof fn lemma_digit_run_is(s: Seq<char>, n: int)
    requires
        0 <= n <= s.len(),
        forall|k: int| 0 <= k < n ==> is_digit(#[trigger] s[k]),
        n < s.len() ==> !is_digit(s[n]),
    ensures
        digit_run(s) == n,
{
    lemma_digit_run(s);
    if digit_run(s) < n {
        assert(is_digit(s[digit_run(s) as int]));
    }
    if digit_run(s) > n {
        assert(is_digit(s[n]));
    }
}

fn restore_ordered_list_marker_line(line: &[char]) -> (r: Vec<char>)
    ensures
        r@ == restored_line(line@),
{
    let body = trimmed_start(line);
    let mut n: usize = 0;
    assert(body@.skip(0) =~= body@);
    while n < body.len() && digit(body[n])
        invariant
            n <= body@.len(),
            digit_run(body@) == n + digit_run(body@.skip(n as int)),
        decreases body@.len() - n,
    {
        assert(body@.skip(n as int).skip(1) =~= body@.skip(n + 1));
        n += 1;
    }
    let rest = slice_subrange(body, n, body.len());
    assert(rest@ =~= body@.skip(n as int));
    let marker = chars_of("\\.");
    if n == 0 || !has_prefix(rest, &marker) {
        return copy_chars(line);
    }
    proof {
        lemma_trim_start_length(line@);
        reveal_strlit("\\.");
        assert(body@.len() >= n + 2);
    }
    let indent: usize = line.len() - body.len();
    let mut out = copy_chars(slice_subrange(line, 0, indent));
    push_all(&mut out, slice_subrange(body, 0, n));
    let dot = chars_of(".");
    push_all(&mut out, &dot);
    push_all(&mut out, slice_subrange(body, n + 2, body.len()));
    assert(line@.subrange(0, indent as int) =~= line@.take(line@.len() - body@.len()));
    assert(body@.subrange(0, n as int) =~= body@.take(n as int));
    assert(body@.subrange(n + 2, body@.len() as int) =~= body@.skip(n + 2));
    out
}

/// The Markdown that is sent to QQ: numbers at the start of lines, which other
/// platforms need escaped, have plain dots.
pub fn qq_outbound_markdown(text: &str) -> (r: String)
    ensures
        r@ == restored_text(text@),
{
    let cs = chars_of(text);
    let parts = split_chars(&cs, '\n');
    let ghost all = views(parts@);
    let mut out: Vec<Vec<char>> = Vec::new();
    let mut i: usize = 0;
    while i < parts.len()
        invariant
            i <= parts@.len(),
            all == views(parts@),
            out@.len() == i,
            forall|k: int| 0 <= k < i ==> (#[trigger] out@[k])@ == restored_line(all[k]),
        decreases parts@.len() - i,
    {
        out.push(restore_ordered_list_marker_line(&parts[i]));
        i += 1;
    }
    let newline = chars_of("\n");
    assert(views(out@) =~= Seq::new(all.len(), |i: int| restored_line(all[i])));
    string_of(&join_chars(&out, &newline))
}

proof fn lemma_trim_start_is(s: Seq<char>, n: int)
    requires
        0 <= n <= s.len(),
        forall|k: int| 0 <= k < n ==> is_white(#[trigger] s[k]),
        n < s.len() ==> !is_white(s[n]),
    ensures
        trim_start(s) == s.skip(n),
    decreases s.len(),
{
    if n == 0 {
        assert(s.skip(0) =~= s);
    } else {
        assert(is_white(s[0]));
        let t = s.skip(1);
        assert forall|k: int| 0 <= k < n - 1 implies is_white(#[trigger] t[k]) by {
            assert(t[k] == s[k + 1]);
        }
        lemma_trim_start_is(t, n - 1);
        assert(t.skip(n - 1) =~= s.skip(n));
    }
}

proof fn lemma_trim_start_white(s: Seq<char>)
    ensures
        trim_start(s).len() <= s.len(),
        forall|k: int| 0 <= k < s.len() - trim_start(s).len() ==> is_white(#[trigger] s[k]),
    decreases s.len(),
{
    if s.len() > 0 && is_white(s[0]) {
        let t = s.skip(1);
        lemma_trim_start_white(t);
        assert forall|k: int| 0 <= k < s.len() - trim_start(s).len() implies is_white(
            #[trigger] s[k],
        ) by {
            if k > 0 {
                assert(t[k - 1] == s[k]);
            }
        }
    }
}

proof fn lemma_restored_line(line: Seq<char>)
    ensures
        restored_line(restored_line(line)) == restored_line(line),
        !line.contains('\n') ==> !restored_line(line).contains('\n'),
{
    reveal_strlit("\\.");
    reveal_strlit(".");
    if has_escaped_number(line) {
        lemma_trim_start_length(line);
        lemma_trim_start_white(line);
        let body = trim_start(line);
        let n = digit_run(body) as int;
        lemma_digit_run(body);
        let indent = line.len() - body.len();
        let out = restored_line(line);
        assert("\\."@[0] == body.skip(n).subrange(0, 2)[0]);
        assert(body.skip(n)[0] == '\\');
        assert(body.len() >= n + 2);
        assert forall|k: int| 0 <= k < indent implies is_white(#[trigger] out[k]) by {
            assert(out[k] == line[k]);
        }
        assert(out[indent] == body[0]);
        assert(is_digit(body[0]));
        lemma_trim_start_is(out, indent);
        let after = out.skip(indent);
        assert forall|k: int| 0 <= k < n implies is_digit(#[trigger] after[k]) by {
            assert(after[k] == body[k]);
        }
        assert(after[n] == '.');
        lemma_digit_run_is(after, n);
        assert(after.skip(n)[0] == '.');
        if "\\."@.is_prefix_of(after.skip(n)) {
            assert("\\."@[0] == after.skip(n).subrange(0, 2)[0]);
        }
        if out.contains('\n') {
            let k = choose|k: int| 0 <= k < out.len() && out[k] == '\n';
            if k < indent {
                assert(line[k] == '\n');
            } else if k < indent + n {
                assert(body[k - indent] == line[k]);
                assert(out[k] == body[k - indent]);
            } else if k > indent + n {
                assert(out[k] == body[k - indent + 1]);
                assert(body[k - indent + 1] == line[k + 1]);
            }
        }
    }
}

/// Restoring the numbers of a text a second time changes nothing.
pub proof fn law_restoring_is_idempotent(text: Seq<char>)
    ensures
        restored_text(restored_text(text)) == restored_text(text),
{
    let parts = split_on(text, '\n');
    let once = Seq::new(parts.len(), |i: int| restored_line(parts[i]));
    lemma_split_parts(text, '\n');
    assert forall|i: int| 0 <= i < once.len() implies !(#[trigger] once[i]).contains('\n') by {
        assert(!parts[i].contains('\n'));
        lemma_restored_line(parts[i]);
    }
    reveal_strlit("\n");
    assert("\n"@ =~= seq!['\n']);
    lemma_split_of_join(once, '\n');
    let twice = Seq::new(once.len(), |i: int| restored_line(once[i]));
    assert forall|i: int| 0 <= i < once.len() implies twice[i] == once[i] by {
        lemma_restored_line(parts[i]);
    }
    assert(twice =~= once);
}

/// Whether a line starts with a plan number of several levels, such as `1.2.`,
/// after spaces.
pub open spec fn has_deep_number(line: Seq<char>) -> bool {
    let rest = line.skip(indent_of(line) as int);
    exists|m: int| #[trigger] marker_at(rest, m) && rest.take(m - 1).contains('.')
}

/// Whether a line can be escaped and restored: its number is not escaped yet
/// and has one level.
pub open spec fn is_restorable(line: Seq<char>) -> bool {
    !has_escaped_number(line) && !has_deep_number(line)
}

proof fn lemma_restorable_line(line: Seq<char>)
    requires
        is_restorable(line),
    ensures
        restored_line(escaped_line(line)) == line,
{
    let ind = indent_of(line) as int;
    let rest = line.skip(ind);
    lemma_indent(line);
    if exists|m: int| marker_at(rest, m) {
        let m = choose|m: int| marker_at(rest, m);
        let head = rest.take(m);
        let digits = rest.take(m - 1);
        let tail = rest.skip(m + 1);
        assert(head.last() == head[m - 1]);
        assert(!digits.contains('.'));
        assert forall|k: int| 0 <= k < digits.len() implies is_digit(#[trigger] digits[k]) by {
            assert(digits[k] == head[k]);
            assert(digits.contains(digits[k]));
        }
        assert(digits.len() > 0) by {
            assert(is_digit(head[0]));
            assert(head[m - 1] == '.');
        }
        reveal_strlit(". ");
        let spaces = Seq::new(ind as nat, |i: int| ' ');
        assert(line =~= spaces + digits + ". "@ + tail) by {
            assert(rest[m - 1] == '.');
            assert(rest[m] == ' ');
            assert(rest =~= digits + ". "@ + tail);
            assert(line.take(ind) =~= spaces);
            assert(line =~= line.take(ind) + rest);
        }
        lemma_restoring_one_line(ind as nat, digits, tail);
    }
}

/// A plan whose numbers were escaped for Feishu reads on QQ as it was written,
/// and nothing else changes. Left out are lines whose number was escaped
/// before, or has several levels.
pub proof fn law_restoring_undoes_escaping(text: Seq<char>)
    requires
        forall|i: int|
            0 <= i < split_on(text, '\n').len() ==> is_restorable(
                #[trigger] split_on(text, '\n')[i],
            ),
    ensures
        restored_text(rendered(text, OutboundFormat::Plan)) == text,
{
    let parts = split_on(text, '\n');
    let escaped = Seq::new(parts.len(), |i: int| escaped_line(parts[i]));
    lemma_split_parts(text, '\n');
    assert forall|i: int| 0 <= i < escaped.len() implies !(#[trigger] escaped[i]).contains(
        '\n',
    ) by {
        assert(!parts[i].contains('\n'));
        lemma_escaped_line_has_no_marker(parts[i]);
    }
    reveal_strlit("\n");
    assert("\n"@ =~= seq!['\n']);
    lemma_split_of_join(escaped, '\n');
    let back = Seq::new(escaped.len(), |i: int| restored_line(escaped[i]));
    assert forall|i: int| 0 <= i < parts.len() implies back[i] == parts[i] by {
        lemma_restorable_line(parts[i]);
    }
    assert(back =~= parts);
    lemma_join_of_split(text, '\n');
}

/// A line of spaces, digits, a dot, a space and a rest reads as it was written.
proof fn lemma_restoring_one_line(indent: nat, digits: Seq<char>, tail: Seq<char>)
    requires
        digits.len() > 0,
        forall|k: int| 0 <= k < digits.len() ==> is_digit(#[trigger] digits[k]),
    ensures
        ({
            let line = Seq::new(indent, |i: int| ' ') + digits + ". "@ + tail;
            restored_line(escaped_line(line)) == line
        }),
{
    reveal_strlit(". ");
    reveal_strlit("\\.");
    reveal_strlit(".");
    let spaces = Seq::new(indent, |i: int| ' ');
    let line = spaces + digits + ". "@ + tail;
    let n = digits.len() as int;
    let ind = indent as int;
    assert(line[ind] == digits[0]);
    lemma_spaces(line, ind);
    let rest = line.skip(ind);
    assert(rest =~= digits + ". "@ + tail);
    let m = n + 1;
    assert(marker_at(rest, m)) by {
        let p = rest.take(m);
        assert(p.last() == '.');
        assert forall|i: int| 0 <= i < p.len() implies (is_digit(#[trigger] p[i]) || (p[i] == '.' && i
            > 0 && is_digit(p[i - 1]))) by {
            if i < n {
                assert(p[i] == digits[i]);
            } else {
                assert(p[i - 1] == digits[n - 1]);
            }
        }
        assert(is_numbering(p));
    }
    let chosen = choose|k: int| marker_at(rest, k);
    crate::channel::feishu::markdown::lemma_marker_unique(rest, chosen, m);
    let out = line.insert(ind + n, '\\');
    assert(escaped_line(line) == out);
    assert forall|k: int| 0 <= k < ind implies is_white(#[trigger] out[k]) by {
        assert(out[k] == ' ');
    }
    assert(out[ind] == digits[0]);
    lemma_trim_start_is(out, ind);
    let body = out.skip(ind);
    assert forall|k: int| 0 <= k < n implies is_digit(#[trigger] body[k]) by {
        assert(body[k] == digits[k]);
    }
    assert(body[n] == '\\');
    lemma_digit_run_is(body, n);
    assert("\\."@ =~= body.skip(n).subrange(0, 2));
    assert(has_escaped_number(out));
    assert(restored_line(out) =~= line);
}

proof fn lemma_spaces(s: Seq<char>, n: int)
    requires
        0 <= n < s.len(),
        forall|k: int| 0 <= k < n ==> s[k] == ' ',
        s[n] != ' ',
    ensures
        indent_of(s) == n,
    decreases n,
{
    if n > 0 {
        assert(s[0] == ' ');
        lemma_spaces(s.skip(1), n - 1);
    }
}

/// Whether a word is a mention: it stands in angle brackets and starts with an
/// at sign.
pub open spec fn in_mention_brackets(word: Seq<char>) -> bool {
    word.len() >= 2 && word[0] == '<' && word[1] == '@' && word.last() == '>'
}

proof fn lemma_without_mentions(list: Seq<Seq<char>>)
    ensures
        without_mentions(list) == list.filter(|word: Seq<char>| !in_mention_brackets(word)),
    decreases list.len(),
{
    reveal(Seq::filter);
    reveal_strlit("<@");
    reveal_strlit(">");
    if list.len() > 0 {
        lemma_without_mentions(list.drop_last());
        let word = list.last();
        if is_qq_mention(word) {
            assert(word.subrange(0, 2)[0] == "<@"@[0] && word.subrange(0, 2)[1] == "<@"@[1]);
            assert(word.subrange(word.len() - 1, word.len() as int)[0] == ">"@[0]);
        }
        if in_mention_brackets(word) {
            assert("<@"@ =~= word.subrange(0, 2));
            assert(">"@ =~= word.subrange(word.len() - 1, word.len() as int));
        }
    }
}

proof fn lemma_joined_edges(list: Seq<Seq<char>>)
    requires
        list.len() > 0,
        forall|i: int| 0 <= i < list.len() ==> (#[trigger] list[i]).len() > 0,
    ensures
        join(list, " "@).len() > 0,
        join(list, " "@)[0] == list[0][0],
        join(list, " "@).last() == list.last().last(),
    decreases list.len(),
{
    if list.len() > 1 {
        let front = list.drop_last();
        assert forall|i: int| 0 <= i < front.len() implies (#[trigger] front[i]).len() > 0 by {
            assert(front[i] == list[i]);
        }
        lemma_joined_edges(front);
    }
}

/// Cleaning a text takes the mentions out and leaves every other word, in
/// order.
pub proof fn law_only_mentions_are_taken_out(text: Seq<char>)
    ensures
        words(cleaned_text(text)) == words(text).filter(
            |word: Seq<char>| !in_mention_brackets(word),
        ),
{
    let kept = without_mentions(words(text));
    lemma_without_mentions(words(text));
    lemma_words_are_solid(text);
    lemma_kept_are_words(words(text));
    assert forall|i: int| 0 <= i < kept.len() implies (#[trigger] kept[i]).len() > 0 by {
        assert(words(text).contains(kept[i]));
        let k = choose|k: int| 0 <= k < words(text).len() && words(text)[k] == kept[i];
    }
    assert forall|i: int, k: int| 0 <= i < kept.len() && 0 <= k < kept[i].len() implies !is_white(
        #[trigger] kept[i][k],
    ) by {
        assert(words(text).contains(kept[i]));
        let n = choose|n: int| 0 <= n < words(text).len() && words(text)[n] == kept[i];
        assert(!is_white(words(text)[n][k]));
    }
    lemma_words_of_joined(kept);
    if kept.len() > 0 {
        let said = join(kept, " "@);
        lemma_joined_edges(kept);
        assert(!is_white(kept[0][0]));
        let last = kept.len() - 1;
        assert(!is_white(kept[last][kept[last].len() - 1]));
        lemma_trimmed(Seq::empty(), said, Seq::empty());
        assert(Seq::<char>::empty() + said + Seq::<char>::empty() =~= said);
    } else {
        assert(cleaned_text(text) =~= Seq::<char>::empty());
        assert(words(cleaned_text(text)) =~= kept);
    }
}

proof fn lemma_kept_are_words(list: Seq<Seq<char>>)
    ensures
        forall|i: int|
            0 <= i < without_mentions(list).len() ==> list.contains(
                #[trigger] without_mentions(list)[i],
            ),
    decreases list.len(),
{
    if list.len() > 0 {
        let front = list.drop_last();
        lemma_kept_are_words(front);
        let kept = without_mentions(list);
        assert forall|i: int| 0 <= i < kept.len() implies list.contains(#[trigger] kept[i]) by {
            if i < without_mentions(front).len() {
                assert(kept[i] == without_mentions(front)[i]);
                assert(front.contains(kept[i]));
                let n = choose|n: int| 0 <= n < front.len() && front[n] == kept[i];
                assert(list[n] == kept[i]);
            } else {
                assert(list[list.len() - 1] == kept[i]);
            }
        }
    }
}

/// A line without an escaped number is sent as it is.
pub proof fn law_lines_without_backslash_stay(text: Seq<char>)
    requires
        !text.contains('\\'),
    ensures
        restored_text(text) == text,
{
    reveal_strlit("\\.");
    let parts = split_on(text, '\n');
    lemma_split_parts_within(text, '\n');
    let restored = Seq::new(parts.len(), |i: int| restored_line(parts[i]));
    assert forall|i: int| 0 <= i < parts.len() implies restored_line(#[trigger] parts[i])
        == parts[i] by {
        let line = parts[i];
        if has_escaped_number(line) {
            let body = trim_start(line);
            lemma_trim_start_length(line);
            let n = digit_run(body) as int;
            lemma_digit_run(body);
            assert(body.skip(n).subrange(0, 2)[0] == "\\."@[0]);
            let at = line.len() - body.len() + n;
            assert(line[at] == '\\');
            assert(text.contains(line[at]));
        }
    }
    assert(restored =~= parts);
    lemma_join_of_split(text, '\n');
    reveal_strlit("\n");
    assert("\n"@ =~= seq!['\n']);
}

proof fn lemma_split_parts_within(s: Seq<char>, sep: char)
    ensures
        forall|i: int, k: int|
            0 <= i < split_on(s, sep).len() && 0 <= k < split_on(s, sep)[i].len() ==> s.contains(
                #[trigger] split_on(s, sep)[i][k],
            ),
    decreases s.len(),
{
    if s.len() > 0 {
        let front = s.drop_last();
        lemma_split_parts_within(front, sep);
        let before = split_on(front, sep);
        let all = split_on(s, sep);
        assert forall|i: int, k: int| 0 <= i < all.len() && 0 <= k < all[i].len() implies s.contains(
            #[trigger] all[i][k],
        ) by {
            if i < before.len() && k < before[i].len() {
                assert(all[i][k] == before[i][k]);
                assert(front.contains(before[i][k]));
                let n = choose|n: int| 0 <= n < front.len() && front[n] == before[i][k];
                assert(s[n] == all[i][k]);
            } else {
                assert(s[s.len() - 1] == all[i][k]);
            }
        }
    }
}

} // verus!
