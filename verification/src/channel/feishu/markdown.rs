//! Markdown as Feishu cards show it: tables are limited, blank lines are wide
//! and plan numbers would be renumbered.

use crate::message::OutboundFormat;
use crate::text::{
    chars_of, copy_chars, digit, find_char, has_prefix, is_blank, is_digit, is_white, join,
    join_chars, lemma_first_part, lemma_join_append, lemma_join_of_split, lemma_split_of_join,
    lemma_split_parts, lemma_trim_end_edges, lemma_trim_end_keeps, lemma_trim_start_edges,
    lemma_trim_start_keeps, lines, lines_of, occurs, occurs_at, split_chars, split_on,
    string_of, strip_cr, strip_end, strip_start, stripped, texts, trim, trim_end, trim_start,
    trimmed, trimmed_start, views,
};
use vstd::prelude::*;
use vstd::slice::slice_subrange;

verus! {

/// Markdown tables that one card shows at most.
pub const MAX_MARKDOWN_TABLES_PER_CARD: usize = 5;

/// Whether a line opens or closes a code block.
pub open spec fn is_fence(line: Seq<char>) -> bool {
    "```"@.is_prefix_of(trim_start(line))
}

/// Whether a cell of a separator row is one: dashes, with colons and blanks.
pub open spec fn is_separator_cell(cell: Seq<char>) -> bool {
    let body = trim(cell);
    &&& body.contains('-')
    &&& forall|i: int|
        0 <= i < body.len() ==> (#[trigger] body[i] == '-' || body[i] == ':' || body[i] == ' '
            || body[i] == '\t')
}

/// Whether a line separates the head of a table from its rows.
pub open spec fn is_separator(line: Seq<char>) -> bool {
    let body = strip_end(strip_start(trim(line), '|'), '|');
    &&& body.contains('|')
    &&& forall|i: int|
        0 <= i < split_on(body, '|').len() ==> is_separator_cell(#[trigger] split_on(body, '|')[i])
}

/// Whether a table starts at line `i`.
pub open spec fn is_table_start(ls: Seq<Seq<char>>, i: int) -> bool {
    0 <= i && i + 1 < ls.len() && ls[i].contains('|') && is_separator(ls[i + 1])
}

/// The first line from `i` on that is no row of a table.
pub open spec fn rows_end(ls: Seq<Seq<char>>, i: int) -> int
    decreases ls.len() - i,
{
    if 0 <= i < ls.len() && ls[i].contains('|') {
        rows_end(ls, i + 1)
    } else {
        i
    }
}

/// Where tables start from line `i` on, given whether a code block is open.
/// What stands in a code block is no table.
pub open spec fn table_starts_from(ls: Seq<Seq<char>>, i: int, in_code: bool) -> Seq<int>
    decreases ls.len() - i,
    when i >= 0
    via table_starts_decreases
{
    if i >= ls.len() {
        Seq::empty()
    } else if is_fence(ls[i]) {
        table_starts_from(ls, i + 1, !in_code)
    } else if !in_code && is_table_start(ls, i) {
        seq![i] + table_starts_from(ls, rows_end(ls, i + 2), in_code)
    } else {
        table_starts_from(ls, i + 1, in_code)
    }
}

#[via_fn]
proof fn table_starts_decreases(ls: Seq<Seq<char>>, i: int, in_code: bool) {
    lemma_rows_end(ls, i + 2);
}

/// Where the tables of a text start.
pub open spec fn table_starts(ls: Seq<Seq<char>>) -> Seq<int> {
    table_starts_from(ls, 0, false)
}

/// The lines from `from` on in batches, given where later tables start: a new
/// batch begins at the first table that the current one has no room for.
pub open spec fn line_batches(
    ls: Seq<Seq<char>>,
    from: int,
    starts: Seq<int>,
    max: int,
) -> Seq<Seq<Seq<char>>>
    decreases starts.len(),
{
    if max < 1 || starts.len() <= max {
        seq![ls.subrange(from, ls.len() as int)]
    } else {
        seq![ls.subrange(from, starts[max])] + line_batches(
            ls,
            starts[max],
            starts.skip(max),
            max,
        )
    }
}

/// The lines of each batch put together again.
pub open spec fn joined_batches(batches: Seq<Seq<Seq<char>>>) -> Seq<Seq<char>> {
    Seq::new(batches.len(), |i: int| join(batches[i], "\n"@))
}

/// The room for tables that a limit gives: at least one table fits.
pub open spec fn table_room(max_tables: int) -> int {
    if max_tables < 1 {
        1
    } else {
        max_tables
    }
}

/// A text in batches of at most `max_tables` tables.
pub open spec fn table_batches(text: Seq<char>, max_tables: int) -> Seq<Seq<char>> {
    let ls = lines(text);
    joined_batches(line_batches(ls, 0, table_starts(ls), table_room(max_tables)))
}

/// How many tables a text holds, once its line ends are unified.
pub open spec fn table_count(text: Seq<char>) -> nat {
    table_starts(lines(join(lines(text), "\n"@))).len()
}

pub proof fn lemma_rows_end(ls: Seq<Seq<char>>, i: int)
    ensures
        rows_end(ls, i) >= i,
        i <= ls.len() ==> rows_end(ls, i) <= ls.len(),
    decreases ls.len() - i,
{
    if 0 <= i < ls.len() && ls[i].contains('|') {
        lemma_rows_end(ls, i + 1);
    }
}

/// Table starts are distinct lines, in order.
pub proof fn lemma_table_starts(ls: Seq<Seq<char>>, i: int, in_code: bool)
    requires
        i >= 0,
    ensures
        ({
            let s = table_starts_from(ls, i, in_code);
            &&& forall|k: int| 0 <= k < s.len() ==> i <= #[trigger] s[k] < ls.len()
            &&& forall|j: int, k: int| 0 <= j < k < s.len() ==> #[trigger] s[j] < #[trigger] s[k]
            &&& s.len() <= if i <= ls.len() {
                ls.len() - i
            } else {
                0
            }
        }),
    decreases ls.len() - i,
{
    if i < ls.len() {
        if is_fence(ls[i]) {
            lemma_table_starts(ls, i + 1, !in_code);
        } else if !in_code && is_table_start(ls, i) {
            lemma_rows_end(ls, i + 2);
            lemma_table_starts(ls, rows_end(ls, i + 2), in_code);
            let rest = table_starts_from(ls, rows_end(ls, i + 2), in_code);
            let s = table_starts_from(ls, i, in_code);
            assert(s == seq![i] + rest);
            assert forall|j: int, k: int| 0 <= j < k < s.len() implies #[trigger] s[j]
                < #[trigger] s[k] by {
                assert(s[k] == rest[k - 1]);
                if j > 0 {
                    assert(s[j] == rest[j - 1]);
                }
            }
            assert forall|k: int| 0 <= k < s.len() implies i <= #[trigger] s[k] < ls.len() by {
                if k > 0 {
                    assert(s[k] == rest[k - 1]);
                }
            }
        } else {
            lemma_table_starts(ls, i + 1, in_code);
        }
    }
}

fn is_markdown_fence(line: &[char]) -> (r: bool)
    ensures
        r == is_fence(line@),
{
    let mark = chars_of("```");
    has_prefix(trimmed_start(line), &mark)
}

fn is_markdown_separator_cell(cell: &[char]) -> (r: bool)
    ensures
        r == is_separator_cell(cell@),
{
    let body = trimmed(cell);
    let mut dash = false;
    let mut i: usize = 0;
    while i < body.len()
        invariant
            i <= body@.len(),
            body@ == trim(cell@),
            dash == body@.take(i as int).contains('-'),
            forall|k: int|
                0 <= k < i ==> (#[trigger] body@[k] == '-' || body@[k] == ':' || body@[k] == ' '
                    || body@[k] == '\t'),
        decreases body@.len() - i,
    {
        let c = body[i];
        if !(c == '-' || c == ':' || c == ' ' || c == '\t') {
            return false;
        }
        let ghost before = body@.take(i as int);
        let ghost after = body@.take(i + 1);
        assert(after =~= before.push(c));
        if c == '-' {
            dash = true;
            assert(after[i as int] == '-');
        } else {
            proof {
                if after.contains('-') {
                    let k = choose|k: int| 0 <= k < after.len() && after[k] == '-';
                    assert(before[k] == '-');
                }
                if before.contains('-') {
                    let k = choose|k: int| 0 <= k < before.len() && before[k] == '-';
                    assert(after[k] == '-');
                }
            }
        }
        i += 1;
    }
    assert(body@.take(body@.len() as int) =~= body@);
    dash
}

fn is_markdown_table_separator(line: &[char]) -> (r: bool)
    ensures
        r == is_separator(line@),
{
    let body = stripped(trimmed(line), '|');
    if find_char(body, '|').is_none() {
        return false;
    }
    let cells = split_chars(body, '|');
    let mut i: usize = 0;
    while i < cells.len()
        invariant
            i <= cells@.len(),
            views(cells@) == split_on(body@, '|'),
            body@ == strip_end(strip_start(trim(line@), '|'), '|'),
            forall|k: int| 0 <= k < i ==> is_separator_cell(#[trigger] split_on(body@, '|')[k]),
        decreases cells@.len() - i,
    {
        assert(split_on(body@, '|')[i as int] == cells@[i as int]@);
        if !is_markdown_separator_cell(&cells[i]) {
            return false;
        }
        i += 1;
    }
    true
}

fn is_markdown_table_start(ls: &Vec<Vec<char>>, index: usize) -> (r: bool)
    requires
        index < ls@.len(),
    ensures
        r == is_table_start(views(ls@), index as int),
{
    if index >= ls.len() - 1 {
        return false;
    }
    find_char(&ls[index], '|').is_some() && is_markdown_table_separator(&ls[index + 1])
}

/// Where the tables of a text start.
fn find_table_starts(ls: &Vec<Vec<char>>) -> (r: Vec<usize>)
    ensures
        r@.len() == table_starts(views(ls@)).len(),
        forall|k: int| 0 <= k < r@.len() ==> r@[k] as int == #[trigger] table_starts(views(ls@))[k],
{
    let ghost all = views(ls@);
    let mut starts: Vec<usize> = Vec::new();
    let mut in_code = false;
    let mut index: usize = 0;
    while index < ls.len()
        invariant
            index <= ls@.len(),
            all == views(ls@),
            table_starts(all) =~= Seq::new(starts@.len(), |k: int| starts@[k] as int)
                + table_starts_from(all, index as int, in_code),
        decreases ls@.len() - index,
    {
        if is_markdown_fence(&ls[index]) {
            in_code = !in_code;
            index += 1;
        } else if !in_code && is_markdown_table_start(ls, index) {
            let ghost before = Seq::new(starts@.len(), |k: int| starts@[k] as int);
            let ghost here = index as int;
            starts.push(index);
            assert(Seq::new(starts@.len(), |k: int| starts@[k] as int) =~= before.push(here));
            index += 2;
            while index < ls.len() && find_char(&ls[index], '|').is_some()
                invariant
                    here + 2 <= index <= ls@.len(),
                    all == views(ls@),
                    rows_end(all, here + 2) == rows_end(all, index as int),
                decreases ls@.len() - index,
            {
                index += 1;
            }
        } else {
            index += 1;
        }
    }
    starts
}

fn copy_lines(ls: &Vec<Vec<char>>, from: usize, to: usize) -> (r: Vec<Vec<char>>)
    requires
        from <= to <= ls@.len(),
    ensures
        views(r@) == views(ls@).subrange(from as int, to as int),
{
    let mut out: Vec<Vec<char>> = Vec::new();
    let mut i: usize = from;
    while i < to
        invariant
            from <= i <= to <= ls@.len(),
            out@.len() == i - from,
            forall|k: int| 0 <= k < i - from ==> (#[trigger] out@[k])@ == ls@[from + k]@,
        decreases to - i,
    {
        out.push(copy_chars(&ls[i]));
        i += 1;
    }
    assert(views(out@) =~= views(ls@).subrange(from as int, to as int));
    out
}

/// Splits a text so that each part holds at most `max_tables` tables.
pub fn split_markdown_table_batches(text: &str, max_tables: usize) -> (r: Vec<String>)
    ensures
        texts(r@) == table_batches(text@, max_tables as int),
{
    let max: usize = if max_tables < 1 {
        1
    } else {
        max_tables
    };
    let cs = chars_of(text);
    let ls = lines_of(&cs);
    let starts = find_table_starts(&ls);
    let newline = chars_of("\n");
    let ghost all = views(ls@);
    let ghost marks = table_starts(all);
    proof {
        lemma_table_starts(all, 0, false);
    }
    let ghost want = line_batches(all, 0, marks, max as int);
    let mut batches: Vec<String> = Vec::new();
    let mut from: usize = 0;
    let mut k: usize = 0;
    let ghost mut done: Seq<Seq<Seq<char>>> = Seq::empty();
    assert(marks.skip(0) =~= marks);
    assert(texts(batches@) =~= joined_batches(done));
    while starts.len() - k > max
        invariant
            max >= 1,
            k <= starts@.len(),
            all == views(ls@),
            marks == table_starts(all),
            starts@.len() == marks.len(),
            forall|i: int| 0 <= i < starts@.len() ==> starts@[i] as int == #[trigger] marks[i],
            forall|i: int| 0 <= i < marks.len() ==> 0 <= #[trigger] marks[i] < all.len(),
            forall|i: int, j: int| 0 <= i < j < marks.len() ==> #[trigger] marks[i]
                < #[trigger] marks[j],
            newline@ == "\n"@,
            from <= ls@.len(),
            k > 0 ==> k < starts@.len() && from == marks[k as int],
            k == 0 ==> from == 0,
            want == done + line_batches(all, from as int, marks.skip(k as int), max as int),
            texts(batches@) == joined_batches(done),
        decreases starts@.len() - k,
    {
        let to: usize = starts[k + max];
        let ghost rest = marks.skip(k as int);
        assert(rest[max as int] == marks[k + max]);
        if k > 0 {
            assert(marks[k as int] < marks[k + max]);
        }
        let part = copy_lines(&ls, from, to);
        let ghost piece = all.subrange(from as int, to as int);
        let ghost before = texts(batches@);
        let joined = string_of(&join_chars(&part, &newline));
        let ghost j = joined@;
        batches.push(joined);
        assert(texts(batches@) =~= before.push(j));
        assert(joined_batches(done.push(piece)) =~= joined_batches(done).push(j));
        assert(rest.skip(max as int) =~= marks.skip(k + max));
        assert(done + (seq![piece] + line_batches(all, to as int, rest.skip(max as int), max as int))
            =~= done.push(piece) + line_batches(all, to as int, rest.skip(max as int), max as int));
        proof {
            done = done.push(piece);
        }
        from = to;
        k += max;
    }
    let part = copy_lines(&ls, from, ls.len());
    let ghost piece = all.subrange(from as int, all.len() as int);
    let ghost before = texts(batches@);
    let joined = string_of(&join_chars(&part, &newline));
    let ghost j = joined@;
    batches.push(joined);
    assert(texts(batches@) =~= before.push(j));
    assert(joined_batches(done.push(piece)) =~= joined_batches(done).push(j));
    assert(want =~= done.push(piece));
    batches
}

/// Counts the tables of a text.
pub fn count_markdown_tables(text: &str) -> (r: usize)
    ensures
        r == table_count(text@),
{
    let cs = chars_of(text);
    let newline = chars_of("\n");
    let unified = join_chars(&lines_of(&cs), &newline);
    find_table_starts(&lines_of(&unified)).len()
}

/// Whether a code block is open after the given lines.
pub open spec fn code_open(ls: Seq<Seq<char>>) -> bool
    decreases ls.len(),
{
    if ls.len() == 0 {
        false
    } else if is_fence(ls.last()) {
        !code_open(ls.drop_last())
    } else {
        code_open(ls.drop_last())
    }
}

/// The lines without the blank ones outside code blocks.
pub open spec fn compacted(ls: Seq<Seq<char>>) -> Seq<Seq<char>>
    decreases ls.len(),
{
    if ls.len() == 0 {
        Seq::empty()
    } else {
        let before = compacted(ls.drop_last());
        if is_fence(ls.last()) || code_open(ls.drop_last()) || !is_blank(ls.last()) {
            before.push(ls.last())
        } else {
            before
        }
    }
}

/// The text that a card shows: trimmed and without blank lines outside code
/// blocks; a blank text becomes one space.
pub open spec fn card_content(text: Seq<char>) -> Seq<char> {
    if is_blank(text) {
        " "@
    } else {
        join(compacted(lines(trim(text))), "\n"@)
    }
}

/// Removes the blank lines that a card would show too wide.
pub fn compact_markdown_card_content(text: &str) -> (r: String)
    ensures
        r@ == card_content(text@),
{
    let cs = chars_of(text);
    let body = trimmed(&cs);
    if body.len() == 0 {
        return String::from_str(" ");
    }
    let ls = lines_of(body);
    let ghost all = views(ls@);
    let mut kept: Vec<Vec<char>> = Vec::new();
    let mut in_code = false;
    let mut i: usize = 0;
    assert(views(kept@) =~= compacted(all.take(0)));
    while i < ls.len()
        invariant
            i <= ls@.len(),
            all == views(ls@),
            in_code == code_open(all.take(i as int)),
            views(kept@) == compacted(all.take(i as int)),
        decreases ls@.len() - i,
    {
        assert(all.take(i + 1).drop_last() =~= all.take(i as int));
        let fence = is_markdown_fence(&ls[i]);
        if fence || in_code || trimmed(&ls[i]).len() > 0 {
            let ghost before = views(kept@);
            kept.push(copy_chars(&ls[i]));
            assert(views(kept@) =~= before.push(all[i as int]));
        }
        if fence {
            in_code = !in_code;
        }
        i += 1;
    }
    assert(all.take(all.len() as int) =~= all);
    let newline = chars_of("\n");
    string_of(&join_chars(&kept, &newline))
}

/// Whether `s` is a plan number: groups of digits, each with a dot behind it.
pub open spec fn is_numbering(s: Seq<char>) -> bool {
    &&& s.len() > 0
    &&& s.last() == '.'
    &&& forall|i: int|
        0 <= i < s.len() ==> (is_digit(#[trigger] s[i]) || (s[i] == '.' && i > 0 && is_digit(
            s[i - 1],
        )))
}

/// Whether the first `m` characters of `s` are a plan number with a space
/// behind it.
pub open spec fn marker_at(s: Seq<char>, m: int) -> bool {
    0 < m < s.len() && s[m] == ' ' && is_numbering(s.take(m))
}

/// How many spaces `s` starts with.
pub open spec fn indent_of(s: Seq<char>) -> nat
    decreases s.len(),
{
    if s.len() > 0 && s[0] == ' ' {
        1 + indent_of(s.skip(1))
    } else {
        0
    }
}

/// A plan line with a backslash before the last dot of its number; another
/// line as it is.
pub open spec fn escaped_line(line: Seq<char>) -> Seq<char> {
    let indent = indent_of(line) as int;
    let rest = line.skip(indent);
    if exists|m: int| marker_at(rest, m) {
        let m = choose|m: int| marker_at(rest, m);
        line.insert(indent + m - 1, '\\')
    } else {
        line
    }
}

/// A text with its plan lines escaped.
pub open spec fn escaped_plan(text: Seq<char>) -> Seq<char> {
    let parts = split_on(text, '\n');
    join(Seq::new(parts.len(), |i: int| escaped_line(parts[i])), "\n"@)
}

/// The text that is put into a card for a message.
pub open spec fn rendered(text: Seq<char>, format: OutboundFormat) -> Seq<char> {
    if format == OutboundFormat::Plan {
        escaped_plan(text)
    } else {
        text
    }
}

/// A text starts with one plan number at most.
pub proof fn lemma_marker_unique(s: Seq<char>, a: int, b: int)
    requires
        marker_at(s, a),
        marker_at(s, b),
    ensures
        a == b,
{
    if a < b {
        assert(s.take(b)[a] == ' ');
    }
    if b < a {
        assert(s.take(a)[b] == ' ');
    }
}

fn ordered_marker_len(line: &[char]) -> (r: Option<usize>)
    ensures
        match r {
            Some(m) => marker_at(line@, m as int),
            None => forall|m: int| !marker_at(line@, m),
        },
{
    let mut index: usize = 0;
    let mut saw_digit = false;
    while index < line.len()
        invariant
            index <= line@.len(),
            forall|k: int|
                0 <= k < index ==> (is_digit(#[trigger] line@[k]) || (line@[k] == '.' && k > 0
                    && is_digit(line@[k - 1]))),
            saw_digit == (index > 0 && is_digit(line@[index - 1])),
            index > 0 && line@[index - 1] == '.' ==> index == line@.len() || line@[index as int]
                != ' ',
        decreases line@.len() - index,
    {
        if digit(line[index]) {
            saw_digit = true;
            index += 1;
            continue;
        }
        if line[index] == '.' && saw_digit {
            if index < line.len() - 1 && line[index + 1] == ' ' {
                let ghost p = line@.take(index + 1);
                assert forall|i: int| 0 <= i < p.len() implies (is_digit(#[trigger] p[i]) || (p[i]
                    == '.' && i > 0 && is_digit(p[i - 1]))) by {
                    assert(p[i] == line@[i]);
                    if i > 0 {
                        assert(p[i - 1] == line@[i - 1]);
                    }
                }
                return Some(index + 1);
            }
            saw_digit = false;
            index += 1;
            continue;
        }
        assert forall|m: int| !marker_at(line@, m) by {
            if marker_at(line@, m) {
                let p = line@.take(m);
                if m <= index {
                    assert(p.last() == line@[m - 1]);
                } else {
                    assert(p[index as int] == line@[index as int]);
                    if index > 0 {
                        assert(p[index - 1] == line@[index - 1]);
                    }
                }
            }
        }
        return None;
    }
    None
}

fn escape_feishu_plan_ordered_marker_line(line: &[char]) -> (r: Vec<char>)
    ensures
        r@ == escaped_line(line@),
{
    let mut indent: usize = 0;
    assert(line@.skip(0) =~= line@);
    while indent < line.len() && line[indent] == ' '
        invariant
            indent <= line@.len(),
            indent_of(line@) == indent + indent_of(line@.skip(indent as int)),
        decreases line@.len() - indent,
    {
        assert(line@.skip(indent as int).skip(1) =~= line@.skip(indent + 1));
        indent += 1;
    }
    let rest = slice_subrange(line, indent, line.len());
    assert(rest@ =~= line@.skip(indent as int));
    let mut out = copy_chars(line);
    if let Some(m) = ordered_marker_len(rest) {
        proof {
            let chosen = choose|k: int| marker_at(rest@, k);
            lemma_marker_unique(rest@, chosen, m as int);
        }
        out.insert(indent + m - 1, '\\');
    }
    out
}

fn escape_feishu_plan_ordered_markers(text: &str) -> (r: String)
    ensures
        r@ == escaped_plan(text@),
{
    let cs = chars_of(text);
    let parts = split_chars(&cs, '\n');
    let ghost all = views(parts@);
    let mut out: Vec<Vec<char>> = Vec::new();
    let mut i: usize = 0;
    while i < parts.len()
        invariant
            i <= parts@.len(),
            all == views(parts@),
            out@.len() == i,
            forall|k: int| 0 <= k < i ==> (#[trigger] out@[k])@ == escaped_line(all[k]),
        decreases parts@.len() - i,
    {
        out.push(escape_feishu_plan_ordered_marker_line(&parts[i]));
        i += 1;
    }
    let newline = chars_of("\n");
    assert(views(out@) =~= Seq::new(all.len(), |i: int| escaped_line(all[i])));
    string_of(&join_chars(&out, &newline))
}

/// The text that is put into a card for a message.
pub fn feishu_render_outbound_text(text: &str, format: OutboundFormat) -> (r: String)
    ensures
        r@ == rendered(text@, format),
{
    match format {
        OutboundFormat::Plan => escape_feishu_plan_ordered_markers(text),
        OutboundFormat::Text => String::from_str(text),
    }
}

proof fn lemma_starts_from_a_start(ls: Seq<Seq<char>>, i: int, in_code: bool, k: int)
    requires
        i >= 0,
        0 <= k < table_starts_from(ls, i, in_code).len(),
    ensures
        table_starts_from(ls, table_starts_from(ls, i, in_code)[k], false) == table_starts_from(
            ls,
            i,
            in_code,
        ).skip(k),
    decreases ls.len() - i,
{
    let s = table_starts_from(ls, i, in_code);
    if i < ls.len() {
        if is_fence(ls[i]) {
            lemma_starts_from_a_start(ls, i + 1, !in_code, k);
        } else if !in_code && is_table_start(ls, i) {
            lemma_rows_end(ls, i + 2);
            let rest = table_starts_from(ls, rows_end(ls, i + 2), in_code);
            if k == 0 {
                assert(s.skip(0) =~= s);
            } else {
                lemma_starts_from_a_start(ls, rows_end(ls, i + 2), in_code, k - 1);
                assert(s[k] == rest[k - 1]);
                assert(s.skip(k) =~= rest.skip(k - 1));
            }
        } else {
            lemma_starts_from_a_start(ls, i + 1, in_code, k);
        }
    }
}

proof fn lemma_rows_end_in_part(ls: Seq<Seq<char>>, from: int, to: int, i: int)
    requires
        0 <= from <= i <= to <= ls.len(),
        rows_end(ls, i) <= to,
    ensures
        rows_end(ls.subrange(from, to), i - from) == rows_end(ls, i) - from,
    decreases ls.len() - i,
{
    let part = ls.subrange(from, to);
    if i < ls.len() && ls[i].contains('|') {
        lemma_rows_end(ls, i + 1);
        assert(part[i - from] == ls[i]);
        lemma_rows_end_in_part(ls, from, to, i + 1);
    } else if i < to {
        assert(part[i - from] == ls[i]);
    }
}

proof fn lemma_starts_in_part(
    ls: Seq<Seq<char>>,
    from: int,
    to: int,
    i: int,
    in_code: bool,
    n: int,
)
    requires
        0 <= from <= i <= to <= ls.len(),
        0 <= n <= table_starts_from(ls, i, in_code).len(),
        n < table_starts_from(ls, i, in_code).len() ==> to == table_starts_from(ls, i, in_code)[n],
        n == table_starts_from(ls, i, in_code).len() ==> to == ls.len(),
    ensures
        table_starts_from(ls.subrange(from, to), i - from, in_code).len() == n,
    decreases ls.len() - i,
{
    let part = ls.subrange(from, to);
    let s = table_starts_from(ls, i, in_code);
    lemma_table_starts(ls, i, in_code);
    if i == to {
        if 0 < n < s.len() {
            assert(s[0] < s[n]);
        }
    } else {
        assert(part[i - from] == ls[i]);
        if is_fence(ls[i]) {
            lemma_starts_in_part(ls, from, to, i + 1, !in_code, n);
        } else if !in_code && is_table_start(ls, i) {
            let end = rows_end(ls, i + 2);
            lemma_rows_end(ls, i + 2);
            let rest = table_starts_from(ls, end, in_code);
            lemma_table_starts(ls, end, in_code);
            if n == 0 {
                assert(s[0] == i);
            } else if n < s.len() {
                assert(s[n] == rest[n - 1]);
            }
            assert(end <= to);
            assert(part[i + 1 - from] == ls[i + 1]);
            assert(is_table_start(part, i - from));
            lemma_rows_end_in_part(ls, from, to, i + 2);
            lemma_starts_in_part(ls, from, to, end, in_code, n - 1);
        } else {
            if is_table_start(part, i - from) {
                assert(part[i + 1 - from] == ls[i + 1]);
            }
            lemma_starts_in_part(ls, from, to, i + 1, in_code, n);
        }
    }
}

/// Whether two lines count as the same where tables are looked for.
spec fn alike(a: Seq<char>, b: Seq<char>) -> bool {
    &&& is_fence(a) == is_fence(b)
    &&& a.contains('|') == b.contains('|')
    &&& is_separator(a) == is_separator(b)
}

/// Whether `b` is `a` with lines that count as the same, perhaps without an
/// empty line at the end.
spec fn lines_alike(a: Seq<Seq<char>>, b: Seq<Seq<char>>) -> bool {
    &&& b.len() <= a.len()
    &&& forall|i: int| 0 <= i < b.len() ==> alike(#[trigger] a[i], b[i])
    &&& forall|i: int| b.len() <= i < a.len() ==> (#[trigger] a[i]).len() == 0
}

proof fn lemma_empty_line(line: Seq<char>)
    requires
        line.len() == 0,
    ensures
        !is_fence(line),
        !line.contains('|'),
        !is_separator(line),
{
    reveal_strlit("```");
    let body = strip_end(strip_start(trim(line), '|'), '|');
    assert(body.len() == 0);
}

proof fn lemma_trim_start_with_return(s: Seq<char>)
    ensures
        trim_start(s).len() == 0 ==> trim_start(s.push('\r')).len() == 0,
        trim_start(s).len() > 0 ==> trim_start(s.push('\r')) == trim_start(s).push('\r'),
    decreases s.len(),
{
    let t = s.push('\r');
    if s.len() == 0 {
        assert(is_white('\r'));
        assert(t.skip(1) =~= s);
    } else if is_white(s[0]) {
        assert(t[0] == s[0]);
        assert(t.skip(1) =~= s.skip(1).push('\r'));
        lemma_trim_start_with_return(s.skip(1));
    } else {
        assert(t[0] == s[0]);
    }
}

proof fn lemma_return_does_not_count(line: Seq<char>)
    ensures
        alike(line, strip_cr(line)),
{
    if line.len() > 0 && line.last() == '\r' {
        let s = line.drop_last();
        assert(s.push('\r') =~= line);
        lemma_trim_start_with_return(s);
        reveal_strlit("```");
        let with = trim_start(line);
        let without = trim_start(s);
        if without.len() > 0 {
            assert(with.drop_last() =~= without);
            assert(is_white('\r'));
            assert(trim(line) == trim(s));
            if is_fence(line) {
                let mark = "```"@;
                assert(mark =~= with.subrange(0, 3));
                assert(with[2] == mark[2]);
                assert(without.len() >= 3);
                assert(without.subrange(0, 3) =~= mark);
            }
            if is_fence(s) {
                assert(with.subrange(0, 3) =~= without.subrange(0, 3));
            }
        } else {
            assert(with =~= without);
        }
        if line.contains('|') {
            let k = choose|k: int| 0 <= k < line.len() && line[k] == '|';
            assert(s[k] == '|');
        }
        if s.contains('|') {
            let k = choose|k: int| 0 <= k < s.len() && s[k] == '|';
            assert(line[k] == '|');
        }
    }
}

proof fn lemma_rows_end_alike(a: Seq<Seq<char>>, b: Seq<Seq<char>>, i: int)
    requires
        lines_alike(a, b),
        0 <= i <= b.len(),
    ensures
        rows_end(a, i) == rows_end(b, i),
    decreases b.len() - i,
{
    if i < b.len() {
        assert(alike(a[i], b[i]));
        if b[i].contains('|') {
            lemma_rows_end_alike(a, b, i + 1);
        }
    } else if i < a.len() {
        lemma_empty_line(a[i]);
    }
}

proof fn lemma_starts_alike(a: Seq<Seq<char>>, b: Seq<Seq<char>>, i: int, in_code: bool)
    requires
        lines_alike(a, b),
        i >= 0,
    ensures
        table_starts_from(a, i, in_code) == table_starts_from(b, i, in_code),
    decreases a.len() - i,
{
    if i < b.len() {
        assert(alike(a[i], b[i]));
        if i + 1 < b.len() {
            assert(alike(a[i + 1], b[i + 1]));
        } else if i + 1 < a.len() {
            lemma_empty_line(a[i + 1]);
        }
        assert(is_table_start(a, i) == is_table_start(b, i));
        if is_fence(b[i]) {
            lemma_starts_alike(a, b, i + 1, !in_code);
        } else if !in_code && is_table_start(b, i) {
            lemma_rows_end_alike(a, b, i + 2);
            lemma_rows_end(b, i + 2);
            lemma_starts_alike(a, b, rows_end(b, i + 2), in_code);
        } else {
            lemma_starts_alike(a, b, i + 1, in_code);
        }
    } else if i < a.len() {
        lemma_empty_line(a[i]);
        lemma_starts_alike(a, b, i + 1, in_code);
    }
}

/// No line holds a line feed.
pub proof fn lemma_lines_hold_no_feed(text: Seq<char>)
    ensures
        forall|i: int| 0 <= i < lines(text).len() ==> !(#[trigger] lines(text)[i]).contains('\n'),
{
    lemma_split_parts(text, '\n');
    let parts = split_on(text, '\n');
    assert forall|i: int| 0 <= i < lines(text).len() implies !(#[trigger] lines(
        text,
    )[i]).contains('\n') by {
        assert(!parts[i].contains('\n'));
        let line = lines(text)[i];
        assert(line == strip_cr(parts[i]) || line == parts[i]);
        if line.contains('\n') {
            let k = choose|k: int| 0 <= k < line.len() && line[k] == '\n';
            assert(parts[i][k] == '\n');
        }
    }
}

/// Joined lines hold the tables of the lines.
proof fn lemma_tables_of_joined(ls: Seq<Seq<char>>)
    requires
        forall|i: int| 0 <= i < ls.len() ==> !(#[trigger] ls[i]).contains('\n'),
    ensures
        table_starts(lines(join(ls, "\n"@))) == table_starts(ls),
{
    reveal_strlit("\n");
    assert("\n"@ =~= seq!['\n']);
    let again = lines(join(ls, "\n"@));
    if ls.len() == 0 {
        assert(split_on(join(ls, "\n"@), '\n') =~= seq![Seq::<char>::empty()]);
        assert(again =~= ls);
    } else {
        lemma_split_of_join(ls, '\n');
        assert forall|i: int| 0 <= i < again.len() implies alike(#[trigger] ls[i], again[i]) by {
            lemma_return_does_not_count(ls[i]);
            assert(again[i] == strip_cr(ls[i]) || again[i] == ls[i]);
        }
        assert(lines_alike(ls, again));
        lemma_starts_alike(ls, again, 0, false);
    }
}

/// The tables of joined lines are counted as those of the lines.
proof fn lemma_count_of_joined(ls: Seq<Seq<char>>)
    requires
        forall|i: int| 0 <= i < ls.len() ==> !(#[trigger] ls[i]).contains('\n'),
    ensures
        table_count(join(ls, "\n"@)) == table_starts(ls).len(),
{
    let text = join(ls, "\n"@);
    lemma_tables_of_joined(ls);
    lemma_lines_hold_no_feed(text);
    lemma_tables_of_joined(lines(text));
}

/// The tables of all texts of a list.
pub open spec fn total_tables(batches: Seq<Seq<char>>) -> nat
    decreases batches.len(),
{
    if batches.len() == 0 {
        0
    } else {
        table_count(batches[0]) + total_tables(batches.skip(1))
    }
}

/// The fewest batches of at most `max` tables that `n` tables need; a text
/// without tables needs one too.
pub open spec fn batches_needed(n: nat, max: int) -> int {
    if n == 0 {
        1
    } else {
        (n + max - 1) / max
    }
}

proof fn lemma_batch_counts(ls: Seq<Seq<char>>, from: int, starts: Seq<int>, max: int)
    requires
        max >= 1,
        0 <= from <= ls.len(),
        starts == table_starts_from(ls, from, false),
        forall|i: int| 0 <= i < ls.len() ==> !(#[trigger] ls[i]).contains('\n'),
    ensures
        ({
            let r = joined_batches(line_batches(ls, from, starts, max));
            &&& r.len() == batches_needed(starts.len(), max)
            &&& r.len() > 0
            &&& forall|b: int| 0 <= b < r.len() - 1 ==> table_count(#[trigger] r[b]) == max
            &&& table_count(r.last()) <= max
            &&& total_tables(r) == starts.len()
        }),
    decreases starts.len(),
{
    let r = joined_batches(line_batches(ls, from, starts, max));
    let n = starts.len();
    lemma_table_starts(ls, from, false);
    reveal_with_fuel(total_tables, 2);
    if n <= max {
        let part = ls.subrange(from, ls.len() as int);
        lemma_starts_in_part(ls, from, ls.len() as int, from, false, n as int);
        lemma_count_of_joined(part);
        assert(r =~= seq![join(part, "\n"@)]);
        assert(r.skip(1) =~= Seq::<Seq<char>>::empty());
        if n > 0 {
            vstd::arithmetic::div_mod::lemma_fundamental_div_mod_converse(
                n + max - 1,
                max,
                1,
                n - 1,
            );
        }
    } else {
        let part = ls.subrange(from, starts[max]);
        assert(starts[0] < starts[max]);
        lemma_starts_in_part(ls, from, starts[max], from, false, max);
        lemma_count_of_joined(part);
        lemma_starts_from_a_start(ls, from, false, max);
        let later = starts.skip(max);
        lemma_batch_counts(ls, starts[max], later, max);
        let rest = joined_batches(line_batches(ls, starts[max], later, max));
        assert(r =~= seq![join(part, "\n"@)] + rest);
        assert(r.skip(1) =~= rest);
        assert forall|b: int| 0 <= b < r.len() - 1 implies table_count(#[trigger] r[b]) == max by {
            if b > 0 {
                assert(r[b] == rest[b - 1]);
            }
        }
        assert(r.last() == rest.last());
        vstd::arithmetic::div_mod::lemma_div_plus_one(n - max + max - 1, max);
        assert(max + (n - max + max - 1) == n + max - 1);
    }
}

/// Splitting a text makes as few batches as its tables allow: every batch but
/// the last holds as many tables as there is room for, the last one no more,
/// and together they hold the tables of the text.
pub proof fn law_batches_are_full(text: Seq<char>, max_tables: int)
    ensures
        ({
            let max = table_room(max_tables);
            let r = table_batches(text, max_tables);
            &&& r.len() == batches_needed(table_count(text), max)
            &&& forall|b: int| 0 <= b < r.len() - 1 ==> table_count(#[trigger] r[b]) == max
            &&& table_count(r.last()) <= max
            &&& total_tables(r) == table_count(text)
        }),
{
    let ls = lines(text);
    lemma_lines_hold_no_feed(text);
    lemma_tables_of_joined(ls);
    lemma_batch_counts(ls, 0, table_starts(ls), table_room(max_tables));
}

/// No batch holds more tables than there is room for.
pub proof fn law_batches_respect_the_table_limit(text: Seq<char>, max_tables: int, b: int)
    requires
        0 <= b < table_batches(text, max_tables).len(),
    ensures
        table_count(table_batches(text, max_tables)[b]) <= table_room(max_tables),
{
    law_batches_are_full(text, max_tables);
    let r = table_batches(text, max_tables);
    assert(r[r.len() - 1] == r.last());
}

proof fn lemma_batches_cover(ls: Seq<Seq<char>>, from: int, starts: Seq<int>, max: int)
    requires
        max >= 1,
        0 <= from < ls.len(),
        starts == table_starts_from(ls, from, false),
    ensures
        line_batches(ls, from, starts, max).len() > 0,
        join(joined_batches(line_batches(ls, from, starts, max)), "\n"@) == join(
            ls.skip(from),
            "\n"@,
        ),
    decreases starts.len(),
{
    let batches = line_batches(ls, from, starts, max);
    let whole = joined_batches(batches);
    lemma_table_starts(ls, from, false);
    if starts.len() <= max {
        assert(ls.subrange(from, ls.len() as int) =~= ls.skip(from));
        assert(whole =~= seq![join(ls.skip(from), "\n"@)]);
    } else {
        assert(starts[0] < starts[max]);
        lemma_starts_from_a_start(ls, from, false, max);
        lemma_batches_cover(ls, starts[max], starts.skip(max), max);
        let rest = line_batches(ls, starts[max], starts.skip(max), max);
        let head = ls.subrange(from, starts[max]);
        assert(whole =~= seq![join(head, "\n"@)] + joined_batches(rest));
        lemma_join_append(seq![join(head, "\n"@)], joined_batches(rest), "\n"@);
        lemma_join_append(head, ls.skip(starts[max]), "\n"@);
        assert(ls.skip(from) =~= head + ls.skip(starts[max]));
    }
}

/// Splitting a text into batches loses no line: the batches, joined, are the
/// lines of the text, joined.
pub proof fn law_batches_lose_nothing(text: Seq<char>, max_tables: int)
    ensures
        join(table_batches(text, max_tables), "\n"@) == join(lines(text), "\n"@),
{
    let ls = lines(text);
    let max = table_room(max_tables);
    lemma_table_starts(ls, 0, false);
    if ls.len() == 0 {
        assert(ls.subrange(0, 0) =~= ls);
        assert(table_batches(text, max_tables) =~= seq![join(ls, "\n"@)]);
    } else {
        lemma_batches_cover(ls, 0, table_starts(ls), max);
        assert(ls.skip(0) =~= ls);
    }
}

/// A text whose tables fit one card stays in one batch.
pub proof fn law_few_tables_stay_together(text: Seq<char>, max_tables: int)
    requires
        table_count(text) <= table_room(max_tables),
    ensures
        table_batches(text, max_tables) == seq![join(lines(text), "\n"@)],
{
    let ls = lines(text);
    lemma_lines_hold_no_feed(text);
    lemma_tables_of_joined(ls);
    assert(ls.subrange(0, ls.len() as int) =~= ls);
    assert(table_batches(text, max_tables) =~= seq![join(ls, "\n"@)]);
}

proof fn lemma_fence_is_not_blank(line: Seq<char>)
    requires
        is_fence(line),
    ensures
        !is_blank(line),
{
    reveal_strlit("```");
    let body = trim_start(line);
    assert("```"@[0] == body.subrange(0, "```"@.len() as int)[0]);
    lemma_trim_end_keeps_text(body, 0);
}

proof fn lemma_trim_end_keeps_text(s: Seq<char>, i: int)
    requires
        0 <= i < s.len(),
        !is_white(s[i]),
    ensures
        trim_end(s).len() > i,
    decreases s.len(),
{
    if is_white(s.last()) {
        lemma_trim_end_keeps_text(s.drop_last(), i);
    }
}

/// Removing blank lines opens and closes the same code blocks.
proof fn lemma_compacted_code_open(ls: Seq<Seq<char>>)
    ensures
        code_open(compacted(ls)) == code_open(ls),
    decreases ls.len(),
{
    if ls.len() > 0 {
        lemma_compacted_code_open(ls.drop_last());
        let before = compacted(ls.drop_last());
        if compacted(ls) != before {
            assert(compacted(ls).drop_last() =~= before);
        } else if is_fence(ls.last()) {
            assert(compacted(ls).len() == before.len() + 1);
        }
    }
}

/// Removing blank lines a second time changes nothing.
proof fn lemma_compacted_twice(ls: Seq<Seq<char>>)
    ensures
        compacted(compacted(ls)) == compacted(ls),
    decreases ls.len(),
{
    if ls.len() > 0 {
        lemma_compacted_twice(ls.drop_last());
        lemma_compacted_code_open(ls.drop_last());
        let before = compacted(ls.drop_last());
        if is_fence(ls.last()) || code_open(ls.drop_last()) || !is_blank(ls.last()) {
            assert(compacted(ls).drop_last() =~= before);
            assert(compacted(ls).last() == ls.last());
        }
    }
}

/// What is left has no blank line outside its code blocks.
proof fn lemma_compacted_line(ls: Seq<Seq<char>>, i: int)
    requires
        0 <= i < compacted(ls).len(),
        !code_open(compacted(ls).take(i)),
    ensures
        !is_blank(compacted(ls)[i]),
    decreases ls.len(),
{
    let all = compacted(ls);
    let before = compacted(ls.drop_last());
    if i < before.len() {
        assert(all.take(i) =~= before.take(i));
        lemma_compacted_line(ls.drop_last(), i);
    } else {
        assert(all.take(i) =~= before);
        lemma_compacted_code_open(ls.drop_last());
        if is_fence(ls.last()) {
            lemma_fence_is_not_blank(ls.last());
        }
    }
}

/// Whether a line stays: one that is not blank, and every line of a code block.
pub open spec fn stays(ls: Seq<Seq<char>>, i: int) -> bool {
    is_fence(ls[i]) || code_open(ls.take(i)) || !is_blank(ls[i])
}

/// The positions of the lines that stay, in order.
pub open spec fn staying(ls: Seq<Seq<char>>) -> Seq<int>
    decreases ls.len(),
{
    if ls.len() == 0 {
        Seq::empty()
    } else if stays(ls, ls.len() - 1) {
        staying(ls.drop_last()).push(ls.len() - 1)
    } else {
        staying(ls.drop_last())
    }
}

/// The lines at the given positions.
pub open spec fn lines_at(ls: Seq<Seq<char>>, at: Seq<int>) -> Seq<Seq<char>> {
    Seq::new(at.len(), |k: int| ls[at[k]])
}

proof fn lemma_staying(ls: Seq<Seq<char>>)
    ensures
        compacted(ls) == lines_at(ls, staying(ls)),
        forall|k: int| 0 <= k < staying(ls).len() ==> 0 <= #[trigger] staying(ls)[k] < ls.len(),
        forall|j: int, k: int|
            0 <= j < k < staying(ls).len() ==> #[trigger] staying(ls)[j] < #[trigger] staying(
                ls,
            )[k],
        forall|i: int| 0 <= i < ls.len() ==> (staying(ls).contains(i) <==> #[trigger] stays(ls, i)),
    decreases ls.len(),
{
    if ls.len() > 0 {
        let front = ls.drop_last();
        let n = ls.len() - 1;
        let before = staying(front);
        let at = staying(ls);
        lemma_staying(front);
        assert(ls.take(n) =~= front);
        assert(lines_at(ls, before) =~= lines_at(front, before));
        if stays(ls, n) {
            assert(lines_at(ls, at) =~= lines_at(ls, before).push(ls.last()));
        }
        assert forall|i: int| 0 <= i < ls.len() implies (at.contains(i) <==> #[trigger] stays(
            ls,
            i,
        )) by {
            if i < n {
                assert(ls.take(i) =~= front.take(i));
                assert(stays(front, i) == stays(ls, i));
                if before.contains(i) {
                    let k = choose|k: int| 0 <= k < before.len() && before[k] == i;
                    assert(at[k] == i);
                }
                if at.contains(i) {
                    let k = choose|k: int| 0 <= k < at.len() && at[k] == i;
                    assert(k < before.len());
                    assert(before[k] == i);
                }
            } else {
                if stays(ls, n) {
                    assert(at[at.len() - 1] == n);
                }
                if at.contains(n) && !stays(ls, n) {
                    let k = choose|k: int| 0 <= k < before.len() && before[k] == n;
                    assert(before[k] < front.len());
                }
            }
        }
    }
}

proof fn lemma_part_chars(s: Seq<char>, c: char)
    ensures
        forall|i: int, k: int|
            0 <= i < split_on(s, c).len() && 0 <= k < split_on(s, c)[i].len() ==> s.contains(
                #[trigger] split_on(s, c)[i][k],
            ),
    decreases s.len(),
{
    lemma_split_parts(s, c);
    if s.len() > 0 {
        let front = s.drop_last();
        lemma_part_chars(front, c);
        lemma_split_parts(front, c);
        let before = split_on(front, c);
        let parts = split_on(s, c);
        assert forall|i: int, k: int| 0 <= i < parts.len() && 0 <= k < parts[i].len() implies s.contains(
            #[trigger] parts[i][k],
        ) by {
            if i < before.len() && k < before[i].len() {
                assert(parts[i][k] == before[i][k]);
                assert(front.contains(before[i][k]));
                let m = choose|m: int| 0 <= m < front.len() && front[m] == before[i][k];
                assert(s[m] == parts[i][k]);
            } else {
                assert(parts[i][k] == s.last());
                assert(s[s.len() - 1] == s.last());
            }
        }
    }
}

proof fn lemma_edges_are_not_blank(line: Seq<char>)
    requires
        line.len() > 0,
        !is_white(line[0]) || !is_white(line.last()),
    ensures
        !is_blank(line),
{
    lemma_trim_start_edges(line);
    if !is_white(line[0]) {
        lemma_trim_end_keeps_text(line, 0);
    } else {
        let t = trim_start(line);
        assert(t.last() == line.last());
    }
}

/// The lines of a text that is not blank: the first and the last one are not
/// blank either.
proof fn lemma_body_lines(text: Seq<char>)
    requires
        !is_blank(text),
    ensures
        ({
            let ls = lines(trim(text));
            &&& ls.len() > 0
            &&& ls[0].len() > 0
            &&& !is_white(ls[0][0])
            &&& ls.last().len() > 0
            &&& !is_white(ls.last().last())
        }),
{
    let body = trim(text);
    let t = trim_start(text);
    lemma_trim_start_edges(text);
    lemma_trim_end_edges(t);
    assert(body[0] == t[0]);
    assert(is_white('\n') && is_white('\r'));
    lemma_first_part(body);
    lemma_split_parts(body, '\n');
    lemma_split_parts(body.drop_last(), '\n');
    let parts = split_on(body, '\n');
    let ls = lines(body);
    assert(parts.last().last() == body.last());
    assert(ls.len() == parts.len());
    assert(ls.last() == parts.last());
    assert(ls[0] == parts[0] || ls[0] == strip_cr(parts[0]));
    if parts[0].len() == 1 {
        assert(parts[0].last() == parts[0][0]);
    }
}

proof fn lemma_first_line_stays(ls: Seq<Seq<char>>)
    requires
        ls.len() > 0,
        !is_blank(ls[0]),
    ensures
        compacted(ls).len() > 0,
        compacted(ls)[0] == ls[0],
    decreases ls.len(),
{
    if ls.len() > 1 {
        lemma_first_line_stays(ls.drop_last());
    } else {
        assert(compacted(ls.drop_last()).len() == 0);
    }
}

proof fn lemma_join_edges(parts: Seq<Seq<char>>)
    requires
        parts.len() > 0,
        parts[0].len() > 0,
        parts.last().len() > 0,
    ensures
        join(parts, "\n"@).len() > 0,
        join(parts, "\n"@)[0] == parts[0][0],
        join(parts, "\n"@).last() == parts.last().last(),
    decreases parts.len(),
{
    if parts.len() > 1 {
        lemma_join_first(parts.drop_last());
    }
}

proof fn lemma_join_first(parts: Seq<Seq<char>>)
    requires
        parts.len() > 0,
        parts[0].len() > 0,
    ensures
        join(parts, "\n"@).len() > 0,
        join(parts, "\n"@)[0] == parts[0][0],
    decreases parts.len(),
{
    if parts.len() > 1 {
        lemma_join_first(parts.drop_last());
    }
}

/// What a card shows has neither white space around it nor is it empty.
proof fn lemma_card_edges(text: Seq<char>)
    requires
        !is_blank(text),
    ensures
        compacted(lines(trim(text))).len() > 0,
        compacted(lines(trim(text))).last().len() > 0,
        card_content(text).len() > 0,
        trim(card_content(text)) == card_content(text),
{
    let ls = lines(trim(text));
    let kept = compacted(ls);
    let r = card_content(text);
    lemma_body_lines(text);
    lemma_edges_are_not_blank(ls[0]);
    lemma_edges_are_not_blank(ls.last());
    lemma_first_line_stays(ls);
    assert(kept.last() == ls.last());
    lemma_join_edges(kept);
}

/// The lines of what a card shows are the lines that stay.
proof fn lemma_card_lines(text: Seq<char>)
    requires
        !is_blank(text),
        !text.contains('\r'),
    ensures
        lines(card_content(text)) == compacted(lines(trim(text))),
{
    let body = trim(text);
    let ls = lines(body);
    let kept = compacted(ls);
    lemma_card_edges(text);
    lemma_staying(ls);
    lemma_lines_hold_no_feed(body);
    assert forall|i: int| 0 <= i < kept.len() implies !(#[trigger] kept[i]).contains('\n') by {
        assert(kept[i] == ls[staying(ls)[i]]);
    }
    reveal_strlit("\n");
    assert("\n"@ =~= seq!['\n']);
    lemma_split_of_join(kept, '\n');
    lemma_part_chars(body, '\n');
    let t = trim_start(text);
    lemma_trim_start_edges(text);
    lemma_trim_end_edges(t);
    let parts = split_on(body, '\n');
    assert forall|i: int| 0 <= i < kept.len() implies strip_cr(#[trigger] kept[i]) == kept[i] by {
        let m = staying(ls)[i];
        assert(kept[i] == ls[m]);
        assert(ls[m] == parts[m] || ls[m] == strip_cr(parts[m]));
        if kept[i].len() > 0 && kept[i].last() == '\r' {
            let k = kept[i].len() - 1;
            assert(parts[m][k] == '\r');
            assert(body.contains(parts[m][k]));
            let p = choose|p: int| 0 <= p < body.len() && body[p] == '\r';
            assert(t[p] == '\r');
            assert(text[text.len() - t.len() + p] == '\r');
        }
    }
    assert(lines(card_content(text)) =~= kept);
}

/// What a card shows is never empty, and compacting it a second time changes
/// nothing. Left out are texts with carriage returns, of which a line break
/// takes one each time.
pub proof fn law_compacting_is_idempotent(text: Seq<char>)
    requires
        !text.contains('\r'),
    ensures
        card_content(card_content(text)) == card_content(text),
        card_content(text).len() > 0,
{
    let r = card_content(text);
    reveal_strlit(" ");
    if is_blank(text) {
        assert(is_white(' '));
        assert(" "@.skip(1) =~= Seq::<char>::empty());
        reveal_with_fuel(trim_start, 3);
        assert(is_blank(" "@));
    } else {
        lemma_card_edges(text);
        lemma_card_lines(text);
        lemma_compacted_twice(lines(trim(text)));
    }
}

/// A card shows, in order, every line of a text that is not blank and every
/// line of its code blocks, and no other.
pub proof fn law_cards_keep_their_lines(text: Seq<char>)
    requires
        !is_blank(text),
        !text.contains('\r'),
    ensures
        ({
            let ls = lines(trim(text));
            let at = staying(ls);
            &&& lines(card_content(text)) == lines_at(ls, at)
            &&& forall|j: int, k: int|
                0 <= j < k < at.len() ==> 0 <= #[trigger] at[j] < #[trigger] at[k] < ls.len()
            &&& forall|i: int|
                0 <= i < ls.len() ==> (at.contains(i) <==> #[trigger] stays(ls, i))
        }),
{
    lemma_card_lines(text);
    lemma_staying(lines(trim(text)));
}

/// A card shows no blank line outside code blocks.
pub proof fn law_no_blank_line_outside_code(text: Seq<char>, i: int)
    requires
        !is_blank(text),
        !text.contains('\r'),
        0 <= i < lines(card_content(text)).len(),
        !code_open(lines(card_content(text)).take(i)),
    ensures
        !is_blank(lines(card_content(text))[i]),
{
    lemma_card_lines(text);
    lemma_compacted_line(lines(trim(text)), i);
}

pub proof fn lemma_escaped_line_has_no_marker(line: Seq<char>)
    ensures
        escaped_line(escaped_line(line)) == escaped_line(line),
        line.contains('\n') == escaped_line(line).contains('\n'),
{
    let indent = indent_of(line) as int;
    let rest = line.skip(indent);
    lemma_indent(line);
    if exists|m: int| marker_at(rest, m) {
        let m = choose|m: int| marker_at(rest, m);
        let at = indent + m - 1;
        let out = line.insert(at, '\\');
        assert(rest.take(m).last() == rest[m - 1]);
        assert(m > 1) by {
            assert(rest.take(m)[m - 1] == '.');
        }
        assert forall|k: int| 0 <= k < indent implies out[k] == ' ' by {
            assert(line[k] == ' ');
        }
        assert(is_digit(rest.take(m)[0]) || rest.take(m)[0] == '.');
        assert(out[indent] == rest[0]);
        lemma_indent_is(out, indent);
        let after = out.skip(indent);
        assert forall|k: int| !marker_at(after, k) by {
            if marker_at(after, k) {
                assert(after[m - 1] == '\\');
                if k > m - 1 {
                    assert(after.take(k)[m - 1] == '\\');
                } else {
                    assert(after[k] == rest[k] || k == m - 1);
                    assert(rest.take(m)[k] == rest[k]);
                    assert(is_digit(rest.take(m)[k]) || rest.take(m)[k] == '.');
                }
            }
        }
        if line.contains('\n') {
            let k = choose|k: int| 0 <= k < line.len() && line[k] == '\n';
            assert(out[if k < at { k } else { k + 1 }] == '\n');
        }
        if out.contains('\n') {
            let k = choose|k: int| 0 <= k < out.len() && out[k] == '\n';
            assert(line[if k < at { k } else { k - 1 }] == '\n');
        }
    }
}

pub proof fn lemma_indent(s: Seq<char>)
    ensures
        indent_of(s) <= s.len(),
        forall|k: int| 0 <= k < indent_of(s) ==> #[trigger] s[k] == ' ',
        indent_of(s) < s.len() ==> s[indent_of(s) as int] != ' ',
    decreases s.len(),
{
    if s.len() > 0 && s[0] == ' ' {
        let t = s.skip(1);
        lemma_indent(t);
        assert forall|k: int| 0 <= k < indent_of(s) implies #[trigger] s[k] == ' ' by {
            if k > 0 {
                assert(t[k - 1] == s[k]);
            }
        }
    }
}

proof fn lemma_indent_is(s: Seq<char>, n: int)
    requires
        0 <= n < s.len(),
        forall|k: int| 0 <= k < n ==> s[k] == ' ',
        s[n] != ' ',
    ensures
        indent_of(s) == n,
    decreases s.len(),
{
    lemma_indent(s);
    if indent_of(s) < n {
        assert(s[indent_of(s) as int] == ' ');
    }
    if indent_of(s) > n {
        assert(s[n] == ' ');
    }
}

/// Escaping a plan a second time changes nothing.
pub proof fn law_escaping_is_idempotent(text: Seq<char>)
    ensures
        escaped_plan(escaped_plan(text)) == escaped_plan(text),
{
    let parts = split_on(text, '\n');
    let once = Seq::new(parts.len(), |i: int| escaped_line(parts[i]));
    lemma_split_parts(text, '\n');
    assert forall|i: int| 0 <= i < once.len() implies !(#[trigger] once[i]).contains('\n') by {
        assert(!parts[i].contains('\n'));
        lemma_escaped_line_has_no_marker(parts[i]);
    }
    reveal_strlit("\n");
    assert("\n"@ =~= seq!['\n']);
    lemma_split_of_join(once, '\n');
    let twice = Seq::new(once.len(), |i: int| escaped_line(once[i]));
    assert forall|i: int| 0 <= i < once.len() implies twice[i] == once[i] by {
        lemma_escaped_line_has_no_marker(parts[i]);
    }
    assert(twice =~= once);
}

/// A number of dashes, with or without a colon on either side.
pub open spec fn rule_cell(left: bool, dashes: nat, right: bool) -> Seq<char> {
    let body = Seq::new(dashes, |i: int| '-');
    let start = if left {
        seq![':'] + body
    } else {
        body
    };
    if right {
        start.push(':')
    } else {
        start
    }
}

/// Spaces, a cell and more spaces.
pub open spec fn spaced(before: nat, cell: Seq<char>, after: nat) -> Seq<char> {
    Seq::new(before, |i: int| ' ') + cell + Seq::new(after, |i: int| ' ')
}

proof fn lemma_rule_cell(left: bool, dashes: nat, right: bool)
    requires
        dashes > 0,
    ensures
        ({
            let cell = rule_cell(left, dashes, right);
            &&& cell.len() > 0
            &&& !is_white(cell[0])
            &&& !is_white(cell.last())
            &&& cell.contains('-')
            &&& forall|i: int| 0 <= i < cell.len() ==> #[trigger] cell[i] == '-' || cell[i] == ':'
        }),
{
    let cell = rule_cell(left, dashes, right);
    assert(cell[if left {
        1
    } else {
        0int
    }] == '-');
}

proof fn lemma_spaced_rule(before: nat, left: bool, dashes: nat, right: bool, after: nat)
    requires
        dashes > 0,
    ensures
        is_separator_cell(spaced(before, rule_cell(left, dashes, right), after)),
        !spaced(before, rule_cell(left, dashes, right), after).contains('|'),
{
    let cell = rule_cell(left, dashes, right);
    let whole = spaced(before, cell, after);
    lemma_rule_cell(left, dashes, right);
    lemma_trim_start_edges(whole);
    let t = trim_start(whole);
    lemma_trim_end_edges(t);
    let body = trim(whole);
    let k = choose|k: int| 0 <= k < cell.len() && cell[k] == '-';
    assert(whole[before + k] == '-');
    lemma_trim_start_keeps(whole, before + k);
    let m = before + k - (whole.len() - t.len());
    assert(t[m] == '-');
    lemma_trim_end_keeps(t, m);
    assert(body[m] == '-');
    assert forall|i: int| 0 <= i < body.len() implies (#[trigger] body[i] == '-' || body[i] == ':'
        || body[i] == ' ' || body[i] == '\t') by {
        assert(body[i] == t[i]);
        let p = i + (whole.len() - t.len());
        assert(t[i] == whole[p]);
        if before <= p < before + cell.len() {
            assert(whole[p] == cell[p - before]);
        }
    }
}

/// Whether a cell is a rule with spaces around it.
pub open spec fn is_spaced_rule(cell: Seq<char>) -> bool {
    exists|before: nat, left: bool, dashes: nat, right: bool, after: nat|
        dashes > 0 && cell == #[trigger] spaced(before, rule_cell(left, dashes, right), after)
}

proof fn lemma_is_spaced_rule(cell: Seq<char>)
    requires
        is_spaced_rule(cell),
    ensures
        is_separator_cell(cell),
        !cell.contains('|'),
        cell.len() > 0,
        cell.contains('-'),
{
    let (before, left, dashes, right, after) = choose|
        before: nat,
        left: bool,
        dashes: nat,
        right: bool,
        after: nat,
    |
        dashes > 0 && cell == #[trigger] spaced(before, rule_cell(left, dashes, right), after);
    lemma_spaced_rule(before, left, dashes, right, after);
    lemma_rule_cell(left, dashes, right);
    let k = choose|k: int|
        0 <= k < rule_cell(left, dashes, right).len() && rule_cell(left, dashes, right)[k] == '-';
    assert(cell[before + k] == '-');
}

/// A row of two or more rules between pipes separates the head of a table from
/// its rows, however its columns are aligned.
pub proof fn law_rules_between_pipes_separate(cells: Seq<Seq<char>>)
    requires
        cells.len() >= 2,
        forall|i: int| 0 <= i < cells.len() ==> is_spaced_rule(#[trigger] cells[i]),
    ensures
        is_separator(seq!['|'] + join(cells, seq!['|']) + seq!['|']),
{
    let inner = join(cells, seq!['|']);
    let line = seq!['|'] + inner + seq!['|'];
    assert forall|i: int| 0 <= i < cells.len() implies !(#[trigger] cells[i]).contains('|')
        && cells[i].len() > 0 by {
        lemma_is_spaced_rule(cells[i]);
    }
    lemma_split_of_join(cells, '|');
    lemma_pipes_inside(cells);
    assert(inner[0] != '|') by {
        assert(cells[0][0] == inner[0]);
        if cells[0][0] == '|' {
            assert(cells[0].contains('|'));
        }
    }
    assert(inner.last() != '|') by {
        assert(cells.last().last() == inner.last());
        if cells.last().last() == '|' {
            assert(cells.last()[cells.last().len() - 1] == '|');
            assert(cells[cells.len() - 1].contains('|'));
        }
    }
    assert(!is_white('|'));
    assert(line.last() == '|' && line[0] == '|');
    assert(trim(line) == line);
    assert(line.skip(1) =~= inner + seq!['|']);
    assert((inner + seq!['|'])[0] == inner[0]);
    reveal_with_fuel(strip_start, 2);
    reveal_with_fuel(strip_end, 2);
    assert(strip_start(line, '|') == inner + seq!['|']);
    assert((inner + seq!['|']).drop_last() =~= inner);
    assert(strip_end(inner + seq!['|'], '|') == inner);
    assert forall|i: int| 0 <= i < cells.len() implies is_separator_cell(#[trigger] cells[i]) by {
        lemma_is_spaced_rule(cells[i]);
    }
}

proof fn lemma_pipes_inside(cells: Seq<Seq<char>>)
    requires
        cells.len() >= 1,
        forall|i: int| 0 <= i < cells.len() ==> (#[trigger] cells[i]).len() > 0,
    ensures
        join(cells, seq!['|']).len() > 0,
        join(cells, seq!['|'])[0] == cells[0][0],
        join(cells, seq!['|']).last() == cells.last().last(),
        cells.len() >= 2 ==> join(cells, seq!['|']).contains('|'),
    decreases cells.len(),
{
    if cells.len() >= 2 {
        let front = cells.drop_last();
        lemma_pipes_inside(front);
        let whole = join(cells, seq!['|']);
        assert(whole[join(front, seq!['|']).len() as int] == '|');
    }
}

/// A head with a pipe and a separator below it are a table, where no code block
/// is open and no line before them has a pipe.
pub proof fn law_head_and_separator_are_a_table(
    before: Seq<Seq<char>>,
    head: Seq<char>,
    separator: Seq<char>,
    after: Seq<Seq<char>>,
)
    requires
        !code_open(before),
        forall|i: int| 0 <= i < before.len() ==> !(#[trigger] before[i]).contains('|'),
        head.contains('|'),
        !is_fence(head),
        is_separator(separator),
    ensures
        table_starts(before + seq![head, separator] + after).contains(before.len() as int),
{
    let ls = before + seq![head, separator] + after;
    let n = before.len() as int;
    lemma_plain_lines(ls, 0, n);
    assert(ls.take(0) =~= Seq::<Seq<char>>::empty());
    assert(ls.take(n) =~= before);
    assert(ls[n] == head && ls[n + 1] == separator);
    assert(is_table_start(ls, n));
    let rest = table_starts_from(ls, n, false);
    assert(rest[0] == n);
    assert(table_starts(ls)[0] == n);
}

/// Lines without pipes start no table.
proof fn lemma_plain_lines(ls: Seq<Seq<char>>, i: int, n: int)
    requires
        0 <= i <= n < ls.len(),
        forall|k: int| 0 <= k < n ==> !(#[trigger] ls[k]).contains('|'),
    ensures
        table_starts_from(ls, i, code_open(ls.take(i))) == table_starts_from(
            ls,
            n,
            code_open(ls.take(n)),
        ),
    decreases n - i,
{
    if i < n {
        assert(ls.take(i + 1).drop_last() =~= ls.take(i));
        assert(ls.take(i + 1).last() == ls[i]);
        lemma_plain_lines(ls, i + 1, n);
    }
}

/// Wherever a table is counted, a line with a pipe stands above a separator,
/// outside every code block. A fence with a pipe is left out: below a head it
/// reads as a row.
pub proof fn law_tables_are_tables(ls: Seq<Seq<char>>, k: int)
    requires
        0 <= k < table_starts(ls).len(),
        forall|i: int|
            0 <= i < ls.len() && (#[trigger] ls[i]).contains('|') ==> !is_fence(ls[i]),
    ensures
        ({
            let at = table_starts(ls)[k];
            &&& 0 <= at < ls.len() - 1
            &&& ls[at].contains('|')
            &&& is_separator(ls[at + 1])
            &&& !is_fence(ls[at])
            &&& !code_open(ls.take(at))
        }),
{
    assert(ls.take(0) =~= Seq::<Seq<char>>::empty());
    lemma_tables_are_tables(ls, 0, false, k);
}

proof fn lemma_tables_are_tables(ls: Seq<Seq<char>>, i: int, in_code: bool, k: int)
    requires
        0 <= i <= ls.len(),
        in_code == code_open(ls.take(i)),
        0 <= k < table_starts_from(ls, i, in_code).len(),
        forall|m: int|
            0 <= m < ls.len() && (#[trigger] ls[m]).contains('|') ==> !is_fence(ls[m]),
    ensures
        ({
            let at = table_starts_from(ls, i, in_code)[k];
            &&& 0 <= at < ls.len() - 1
            &&& ls[at].contains('|')
            &&& is_separator(ls[at + 1])
            &&& !is_fence(ls[at])
            &&& !code_open(ls.take(at))
        }),
    decreases ls.len() - i,
{
    if i < ls.len() {
        assert(ls.take(i + 1).drop_last() =~= ls.take(i));
        assert(ls.take(i + 1).last() == ls[i]);
        if is_fence(ls[i]) {
            lemma_tables_are_tables(ls, i + 1, !in_code, k);
        } else if !in_code && is_table_start(ls, i) {
            lemma_rows_end(ls, i + 2);
            let end = rows_end(ls, i + 2);
            let sep = ls[i + 1];
            assert(sep.contains('|')) by {
                lemma_separator_has_pipe(sep);
            }
            assert(ls.take(i + 2).drop_last() =~= ls.take(i + 1));
            assert(ls.take(i + 2).last() == sep);
            assert(!code_open(ls.take(i + 1)));
            assert(!is_fence(ls[i + 1]));
            assert(!code_open(ls.take(i + 2)));
            lemma_rows_open_no_code(ls, i + 2);
            if k > 0 {
                lemma_tables_are_tables(ls, end, in_code, k - 1);
            }
        } else {
            lemma_tables_are_tables(ls, i + 1, in_code, k);
        }
    }
}

proof fn lemma_separator_has_pipe(line: Seq<char>)
    requires
        is_separator(line),
    ensures
        line.contains('|'),
{
    let t = trim_start(line);
    let u = trim(line);
    let a = strip_start(u, '|');
    let body = strip_end(a, '|');
    lemma_trim_start_edges(line);
    lemma_trim_end_edges(t);
    lemma_stripped_start(u, '|');
    lemma_stripped_end(a, '|');
    let d = choose|d: int| 0 <= d < body.len() && body[d] == '|';
    assert(line[line.len() - t.len() + (u.len() - a.len()) + d] == '|');
}

/// A separator is made of pipes, dashes, colons and white space, and has both a
/// pipe and a dash.
pub proof fn law_separators_hold_no_words(line: Seq<char>, i: int)
    requires
        is_separator(line),
        0 <= i < line.len(),
    ensures
        line[i] == '|' || line[i] == '-' || line[i] == ':' || is_white(line[i]),
        line.contains('|'),
        line.contains('-'),
{
    let t = trim_start(line);
    let u = trim(line);
    lemma_trim_start_edges(line);
    lemma_trim_end_edges(t);
    let a = strip_start(u, '|');
    let body = strip_end(a, '|');
    lemma_stripped_start(u, '|');
    lemma_stripped_end(a, '|');
    lemma_join_of_split(body, '|');
    lemma_split_parts(body, '|');
    let parts = split_on(body, '|');
    let cut = u.len() - a.len();
    let off = line.len() - t.len();
    assert forall|p: int| 0 <= p < body.len() implies body[p] == '|' || body[p] == '-' || body[p]
        == ':' || is_white(#[trigger] body[p]) by {
        lemma_char_of_joined(parts, seq!['|'], p);
        if body[p] != '|' {
            let q = choose|q: int| 0 <= q < parts.len() && (#[trigger] parts[q]).contains(body[p]);
            lemma_cell_chars(parts[q], body[p]);
        }
    }
    let d = choose|d: int| 0 <= d < body.len() && body[d] == '|';
    assert(line[off + cut + d] == '|');
    assert(is_separator_cell(parts[0]));
    let c0 = trim(parts[0]);
    lemma_trim_start_edges(parts[0]);
    lemma_trim_end_edges(trim_start(parts[0]));
    let e = choose|e: int| 0 <= e < c0.len() && c0[e] == '-';
    let shift = parts[0].len() - trim_start(parts[0]).len();
    assert(parts[0][shift + e] == '-');
    lemma_join_starts_with(parts, seq!['|']);
    assert(body.subrange(0, parts[0].len() as int)[shift + e] == '-');
    assert(line[off + cut + shift + e] == '-');
    if i < off {
        lemma_trim_start_cut(line, i);
    } else if i >= off + u.len() {
        lemma_trim_end_cut(t, i - off);
    } else if i < off + cut {
        assert(line[i] == u[i - off]);
    } else if i >= off + cut + body.len() {
        assert(line[i] == a[i - off - cut]);
    } else {
        assert(line[i] == body[i - off - cut]);
    }
}

proof fn lemma_cell_chars(cell: Seq<char>, c: char)
    requires
        is_separator_cell(cell),
        cell.contains(c),
    ensures
        c == '-' || c == ':' || is_white(c),
{
    let t = trim_start(cell);
    let u = trim(cell);
    lemma_trim_start_edges(cell);
    lemma_trim_end_edges(t);
    let k = choose|k: int| 0 <= k < cell.len() && cell[k] == c;
    let off = cell.len() - t.len();
    if k < off {
        lemma_trim_start_cut(cell, k);
    } else if k >= off + u.len() {
        lemma_trim_end_cut(t, k - off);
    } else {
        assert(u[k - off] == c);
    }
}

proof fn lemma_trim_start_cut(s: Seq<char>, i: int)
    requires
        0 <= i < s.len() - trim_start(s).len(),
    ensures
        is_white(s[i]),
    decreases s.len(),
{
    if i > 0 {
        lemma_trim_start_cut(s.skip(1), i - 1);
    }
}

proof fn lemma_trim_end_cut(s: Seq<char>, i: int)
    requires
        trim_end(s).len() <= i < s.len(),
    ensures
        is_white(s[i]),
    decreases s.len(),
{
    if i < s.len() - 1 {
        lemma_trim_end_cut(s.drop_last(), i);
    }
}

proof fn lemma_stripped_start(s: Seq<char>, c: char)
    ensures
        strip_start(s, c).len() <= s.len(),
        strip_start(s, c) == s.skip(s.len() - strip_start(s, c).len()),
        forall|i: int| 0 <= i < s.len() - strip_start(s, c).len() ==> #[trigger] s[i] == c,
    decreases s.len(),
{
    if s.len() > 0 && s[0] == c {
        let t = s.skip(1);
        lemma_stripped_start(t, c);
        assert(t.skip(t.len() - strip_start(t, c).len()) =~= s.skip(
            s.len() - strip_start(s, c).len(),
        ));
        assert forall|i: int| 0 <= i < s.len() - strip_start(s, c).len() implies #[trigger] s[i]
            == c by {
            if i > 0 {
                assert(t[i - 1] == s[i]);
            }
        }
    } else {
        assert(s.skip(0) =~= s);
    }
}

proof fn lemma_stripped_end(s: Seq<char>, c: char)
    ensures
        strip_end(s, c).len() <= s.len(),
        strip_end(s, c) == s.take(strip_end(s, c).len() as int),
        forall|i: int| strip_end(s, c).len() <= i < s.len() ==> #[trigger] s[i] == c,
    decreases s.len(),
{
    if s.len() > 0 && s.last() == c {
        let t = s.drop_last();
        lemma_stripped_end(t, c);
        assert(t.take(strip_end(s, c).len() as int) =~= s.take(strip_end(s, c).len() as int));
        assert forall|i: int| strip_end(s, c).len() <= i < s.len() implies #[trigger] s[i]
            == c by {
            if i < t.len() {
                assert(t[i] == s[i]);
            }
        }
    } else {
        assert(s.take(s.len() as int) =~= s);
    }
}

proof fn lemma_char_of_joined(parts: Seq<Seq<char>>, sep: Seq<char>, p: int)
    requires
        parts.len() > 0,
        sep.len() == 1,
        0 <= p < join(parts, sep).len(),
    ensures
        join(parts, sep)[p] == sep[0] || exists|q: int|
            0 <= q < parts.len() && (#[trigger] parts[q]).contains(join(parts, sep)[p]),
    decreases parts.len(),
{
    let whole = join(parts, sep);
    if parts.len() == 1 {
        assert(parts[0].contains(whole[p]));
    } else {
        let front = join(parts.drop_last(), sep);
        if p < front.len() {
            lemma_char_of_joined(parts.drop_last(), sep, p);
            assert(whole[p] == front[p]);
            if whole[p] != sep[0] {
                let q = choose|q: int|
                    0 <= q < parts.drop_last().len() && (#[trigger] parts.drop_last()[q]).contains(
                        front[p],
                    );
                assert(parts[q].contains(whole[p]));
            }
        } else if p > front.len() {
            let last = parts[parts.len() - 1];
            assert(whole[p] == last[p - front.len() - 1]);
            assert(last.contains(whole[p]));
        }
    }
}

proof fn lemma_join_starts_with(parts: Seq<Seq<char>>, sep: Seq<char>)
    requires
        parts.len() > 0,
    ensures
        parts[0].len() <= join(parts, sep).len(),
        join(parts, sep).subrange(0, parts[0].len() as int) == parts[0],
    decreases parts.len(),
{
    if parts.len() > 1 {
        lemma_join_starts_with(parts.drop_last(), sep);
        assert(join(parts, sep).subrange(0, parts[0].len() as int) =~= join(
            parts.drop_last(),
            sep,
        ).subrange(0, parts[0].len() as int));
    } else {
        assert(join(parts, sep).subrange(0, parts[0].len() as int) =~= parts[0]);
    }
}

/// Lines with pipes that are no fences open and close no code block.
proof fn lemma_rows_open_no_code(ls: Seq<Seq<char>>, i: int)
    requires
        0 <= i <= ls.len(),
        forall|k: int|
            0 <= k < ls.len() && (#[trigger] ls[k]).contains('|') ==> !is_fence(ls[k]),
    ensures
        code_open(ls.take(rows_end(ls, i))) == code_open(ls.take(i)),
    decreases ls.len() - i,
{
    if i < ls.len() && ls[i].contains('|') {
        assert(ls.take(i + 1).drop_last() =~= ls.take(i));
        assert(ls.take(i + 1).last() == ls[i]);
        lemma_rows_open_no_code(ls, i + 1);
    }
}

/// A text with a head of a table and a row of rules below it holds a table,
/// where no line before them has a pipe and no code block is open.
pub proof fn law_aligned_tables_are_counted(
    before: Seq<Seq<char>>,
    head: Seq<char>,
    cells: Seq<Seq<char>>,
    after: Seq<Seq<char>>,
)
    requires
        !code_open(before),
        forall|i: int|
            0 <= i < before.len() ==> !(#[trigger] before[i]).contains('|') && !before[i].contains(
                '\n',
            ),
        head.contains('|') && !head.contains('\n') && !is_fence(head),
        cells.len() >= 2,
        forall|i: int| 0 <= i < cells.len() ==> is_spaced_rule(#[trigger] cells[i]),
        forall|i: int| 0 <= i < after.len() ==> !(#[trigger] after[i]).contains('\n'),
    ensures
        ({
            let rules = seq!['|'] + join(cells, seq!['|']) + seq!['|'];
            table_count(join(before + seq![head, rules] + after, "\n"@)) > 0
        }),
{
    let rules = seq!['|'] + join(cells, seq!['|']) + seq!['|'];
    let ls = before + seq![head, rules] + after;
    law_rules_between_pipes_separate(cells);
    law_head_and_separator_are_a_table(before, head, rules, after);
    if rules.contains('\n') {
        let k = choose|k: int| 0 <= k < rules.len() && rules[k] == '\n';
        let inner = join(cells, seq!['|']);
        lemma_char_of_joined(cells, seq!['|'], k - 1);
        let q = choose|q: int| 0 <= q < cells.len() && (#[trigger] cells[q]).contains(inner[k - 1]);
        assert(is_spaced_rule(cells[q]));
        let (a, l, d, r, b) = choose|a: nat, l: bool, d: nat, r: bool, b: nat|
            d > 0 && cells[q] == #[trigger] spaced(a, rule_cell(l, d, r), b);
        lemma_rule_cell(l, d, r);
        let cell = rule_cell(l, d, r);
        let m = choose|m: int| 0 <= m < cells[q].len() && cells[q][m] == '\n';
        if a <= m < a + cell.len() {
            assert(cells[q][m] == cell[m - a]);
        }
    }
    assert forall|i: int| 0 <= i < ls.len() implies !(#[trigger] ls[i]).contains('\n') by {
        if i < before.len() {
            assert(ls[i] == before[i]);
        } else if i >= before.len() + 2 {
            assert(ls[i] == after[i - before.len() - 2]);
        }
    }
    lemma_count_of_joined(ls);
}

/// Three backticks after spaces open or close a code block, and nothing else
/// does: a line without them is no fence.
pub proof fn law_backticks_are_fences(indent: nat, rest: Seq<char>, other: Seq<char>)
    ensures
        is_fence(Seq::new(indent, |i: int| ' ') + "```"@ + rest),
        is_fence(other) ==> occurs("```"@, other),
{
    reveal_strlit("```");
    let spaces = Seq::new(indent, |i: int| ' ');
    let line = spaces + "```"@ + rest;
    lemma_spaces_go(indent, "```"@ + rest);
    assert(line =~= spaces + ("```"@ + rest));
    assert(("```"@ + rest).subrange(0, 3) =~= "```"@);
    if is_fence(other) {
        lemma_trim_start_edges(other);
        let t = trim_start(other);
        let at = other.len() - t.len();
        assert(t.subrange(0, 3) =~= "```"@);
        assert(other.subrange(at, at + 3) =~= "```"@);
        assert(occurs_at("```"@, other, at));
    }
}

proof fn lemma_spaces_go(indent: nat, rest: Seq<char>)
    requires
        rest.len() > 0,
        !is_white(rest[0]),
    ensures
        trim_start(Seq::new(indent, |i: int| ' ') + rest) == rest,
    decreases indent,
{
    let line = Seq::new(indent, |i: int| ' ') + rest;
    if indent > 0 {
        assert(line[0] == ' ');
        assert(line.skip(1) =~= Seq::new((indent - 1) as nat, |i: int| ' ') + rest);
        lemma_spaces_go((indent - 1) as nat, rest);
    } else {
        assert(line =~= rest);
    }
}

/// Whether all characters of a group are digits.
pub open spec fn is_digits(group: Seq<char>) -> bool {
    group.len() > 0 && forall|i: int| 0 <= i < group.len() ==> is_digit(#[trigger] group[i])
}

proof fn lemma_numbering(groups: Seq<Seq<char>>)
    requires
        groups.len() > 0,
        forall|i: int| 0 <= i < groups.len() ==> is_digits(#[trigger] groups[i]),
    ensures
        ({
            let p = join(groups, seq!['.']);
            &&& p.len() > 0
            &&& is_digit(p[0])
            &&& is_digit(p.last())
            &&& forall|i: int|
                0 <= i < p.len() ==> (is_digit(#[trigger] p[i]) || (p[i] == '.' && i > 0
                    && is_digit(p[i - 1])))
        }),
    decreases groups.len(),
{
    let p = join(groups, seq!['.']);
    let last = groups[groups.len() - 1];
    assert(is_digits(last));
    if groups.len() > 1 {
        let front = join(groups.drop_last(), seq!['.']);
        assert forall|i: int| 0 <= i < groups.drop_last().len() implies is_digits(
            #[trigger] groups.drop_last()[i],
        ) by {
            assert(is_digits(groups[i]));
        }
        lemma_numbering(groups.drop_last());
        assert forall|i: int| 0 <= i < p.len() implies (is_digit(#[trigger] p[i]) || (p[i] == '.'
            && i > 0 && is_digit(p[i - 1]))) by {
            if i < front.len() {
                assert(p[i] == front[i]);
                if i > 0 {
                    assert(p[i - 1] == front[i - 1]);
                }
            } else if i == front.len() {
                assert(p[i - 1] == front.last());
            } else {
                assert(p[i] == last[i - front.len() - 1]);
            }
        }
        assert(p[0] == front[0]);
        assert(p.last() == last.last());
    }
}

/// The dot behind the number of a plan line gets a backslash, however many
/// levels the number has; the rest of the line stays.
pub proof fn law_plan_numbers_are_escaped(
    indent: nat,
    groups: Seq<Seq<char>>,
    tail: Seq<char>,
)
    requires
        groups.len() > 0,
        forall|i: int| 0 <= i < groups.len() ==> is_digits(#[trigger] groups[i]),
    ensures
        ({
            let spaces = Seq::new(indent, |i: int| ' ');
            let number = join(groups, seq!['.']);
            escaped_line(spaces + number + seq!['.', ' '] + tail) == spaces + number + seq![
                '\\',
                '.',
                ' ',
            ] + tail
        }),
{
    let spaces = Seq::new(indent, |i: int| ' ');
    let number = join(groups, seq!['.']);
    let line = spaces + number + seq!['.', ' '] + tail;
    let ind = indent as int;
    lemma_numbering(groups);
    assert(line[ind] == number[0]);
    lemma_indent_is(line, ind);
    let rest = line.skip(ind);
    let m = number.len() + 1;
    assert(marker_at(rest, m as int)) by {
        let p = rest.take(m as int);
        assert(p =~= number.push('.'));
        assert forall|i: int| 0 <= i < p.len() implies (is_digit(#[trigger] p[i]) || (p[i] == '.'
            && i > 0 && is_digit(p[i - 1]))) by {
            if i < number.len() {
                assert(p[i] == number[i]);
                if i > 0 {
                    assert(p[i - 1] == number[i - 1]);
                }
            } else {
                assert(p[i - 1] == number.last());
            }
        }
        assert(is_numbering(p));
    }
    let chosen = choose|k: int| marker_at(rest, k);
    lemma_marker_unique(rest, chosen, m as int);
    assert(line.insert(ind + m - 1, '\\') =~= spaces + number + seq!['\\', '.', ' '] + tail);
}

/// A line that does not start with a number and a dot, after spaces, stays as
/// it is.
pub proof fn law_other_lines_stay(indent: nat, rest: Seq<char>)
    requires
        rest.len() == 0 || (rest[0] != ' ' && !is_digit(rest[0])),
    ensures
        escaped_line(Seq::new(indent, |i: int| ' ') + rest) == Seq::new(indent, |i: int| ' ')
            + rest,
{
    let line = Seq::new(indent, |i: int| ' ') + rest;
    let ind = indent as int;
    if rest.len() > 0 {
        assert(line[ind] == rest[0]);
        lemma_indent_is(line, ind);
        let after = line.skip(ind);
        assert(after =~= rest);
        if exists|m: int| marker_at(after, m) {
            let m = choose|m: int| marker_at(after, m);
            assert(after.take(m)[0] == rest[0]);
        }
    } else {
        lemma_indent(line);
        let after = line.skip(indent_of(line) as int);
        if indent_of(line) < line.len() {
            assert(line[indent_of(line) as int] == ' ');
        }
        assert(after.len() == 0);
    }
}

} // verus!
