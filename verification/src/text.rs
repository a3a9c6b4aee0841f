//! Text as a sequence of characters: classification, trimming, splitting,
//! joining and searching, with exact contracts over `Seq<char>`.

use vstd::prelude::*;
use vstd::slice::slice_subrange;

verus! {

/// `String::push` appends one character to the end of the string.
pub assume_specification[ String::push ](s: &mut String, c: char)
    ensures
        final(s)@ == old(s)@.push(c),
;

/// The characters of a string slice, in order.
pub fn chars_of(s: &str) -> (r: Vec<char>)
    ensures
        r@ == s@,
{
    let mut out: Vec<char> = Vec::new();
    for c in iter: s.chars()
        invariant
            iter.seq() == s@,
            out@ == s@.take(iter.index() as int),
    {
        out.push(c);
    }
    assert(s@.take(s@.len() as int) =~= s@);
    out
}

/// The string made of the given characters.
pub fn string_of(s: &[char]) -> (r: String)
    ensures
        r@ == s@,
{
    let mut out = String::new();
    let mut i: usize = 0;
    while i < s.len()
        invariant
            i <= s@.len(),
            out@ == s@.take(i as int),
        decreases s@.len() - i,
    {
        out.push(s[i]);
        i += 1;
        assert(s@.take(i as int) =~= s@.take(i - 1).push(s@[i - 1]));
    }
    assert(s@.take(s@.len() as int) =~= s@);
    out
}

/// Whether two character slices hold the same characters.
pub fn same_chars(a: &[char], b: &[char]) -> (r: bool)
    ensures
        r == (a@ == b@),
{
    if a.len() != b.len() {
        return false;
    }
    let mut i: usize = 0;
    while i < a.len()
        invariant
            i <= a@.len(),
            a@.len() == b@.len(),
            forall|k: int| 0 <= k < i ==> a@[k] == b@[k],
        decreases a@.len() - i,
    {
        if a[i] != b[i] {
            return false;
        }
        i += 1;
    }
    assert(a@ =~= b@);
    true
}

/// Whether two strings hold the same characters.
pub fn same_text(a: &str, b: &str) -> (r: bool)
    ensures
        r == (a@ == b@),
{
    let x = chars_of(a);
    let y = chars_of(b);
    same_chars(&x, &y)
}

/// The characters with the Unicode `White_Space` property.
pub open spec fn is_white(c: char) -> bool {
    let n = c as int;
    ||| 0x9 <= n <= 0xd
    ||| n == 0x20
    ||| n == 0x85
    ||| n == 0xa0
    ||| n == 0x1680
    ||| 0x2000 <= n <= 0x200a
    ||| n == 0x2028
    ||| n == 0x2029
    ||| n == 0x202f
    ||| n == 0x205f
    ||| n == 0x3000
}

/// The characters of the Unicode general category `Cc`.
pub open spec fn is_control(c: char) -> bool {
    let n = c as int;
    n <= 0x1f || 0x7f <= n <= 0x9f
}

pub open spec fn is_digit(c: char) -> bool {
    '0' <= c <= '9'
}

pub open spec fn is_ascii_letter(c: char) -> bool {
    'a' <= c <= 'z' || 'A' <= c <= 'Z'
}

pub open spec fn is_ascii_alnum(c: char) -> bool {
    is_digit(c) || is_ascii_letter(c)
}

/// The ASCII lower case of a character; other characters stay as they are.
pub open spec fn lower(c: char) -> char {
    if 'A' <= c <= 'Z' {
        (c as int + 32) as char
    } else {
        c
    }
}

pub fn white(c: char) -> (r: bool)
    ensures
        r == is_white(c),
{
    let n: u32 = c as u32;
    (0x9 <= n && n <= 0xd) || n == 0x20 || n == 0x85 || n == 0xa0 || n == 0x1680 || (0x2000 <= n
        && n <= 0x200a) || n == 0x2028 || n == 0x2029 || n == 0x202f || n == 0x205f || n == 0x3000
}

pub fn control(c: char) -> (r: bool)
    ensures
        r == is_control(c),
{
    let n: u32 = c as u32;
    n <= 0x1f || (0x7f <= n && n <= 0x9f)
}

pub fn digit(c: char) -> (r: bool)
    ensures
        r == is_digit(c),
{
    '0' <= c && c <= '9'
}

pub fn ascii_letter(c: char) -> (r: bool)
    ensures
        r == is_ascii_letter(c),
{
    ('a' <= c && c <= 'z') || ('A' <= c && c <= 'Z')
}

pub fn ascii_alnum(c: char) -> (r: bool)
    ensures
        r == is_ascii_alnum(c),
{
    digit(c) || ascii_letter(c)
}

pub fn ascii_lower(c: char) -> (r: char)
    ensures
        r == lower(c),
{
    if 'A' <= c && c <= 'Z' {
        let b: u8 = c as u8;
        (b + 32) as char
    } else {
        c
    }
}

/// `s` with a capital letter at its start, where that is an ASCII letter.
pub open spec fn capitalised(s: Seq<char>) -> Seq<char> {
    if s.len() > 0 && 'a' <= s[0] <= 'z' {
        s.update(0, (s[0] as int - 32) as char)
    } else {
        s
    }
}

/// `s` with a capital letter at its start.
pub fn capitalised_text(s: &str) -> (r: String)
    ensures
        r@ == capitalised(s@),
{
    let mut cs = chars_of(s);
    if cs.len() > 0 && 'a' <= cs[0] && cs[0] <= 'z' {
        let b: u8 = cs[0] as u8;
        cs.set(0, (b - 32) as char);
    }
    string_of(&cs)
}

/// `s` without the white space at its start.
pub open spec fn trim_start(s: Seq<char>) -> Seq<char>
    decreases s.len(),
{
    if s.len() > 0 && is_white(s[0]) {
        trim_start(s.skip(1))
    } else {
        s
    }
}

/// `s` without the white space at its end.
pub open spec fn trim_end(s: Seq<char>) -> Seq<char>
    decreases s.len(),
{
    if s.len() > 0 && is_white(s.last()) {
        trim_end(s.drop_last())
    } else {
        s
    }
}

/// `s` without the white space at either end.
pub open spec fn trim(s: Seq<char>) -> Seq<char> {
    trim_end(trim_start(s))
}

/// Whether nothing but white space is in `s`.
pub open spec fn is_blank(s: Seq<char>) -> bool {
    trim(s).len() == 0
}

pub fn trimmed_start<'a>(s: &'a [char]) -> (r: &'a [char])
    ensures
        r@ == trim_start(s@),
{
    let mut i: usize = 0;
    assert(s@.skip(0) =~= s@);
    while i < s.len() && white(s[i])
        invariant
            i <= s@.len(),
            trim_start(s@) == trim_start(s@.skip(i as int)),
        decreases s@.len() - i,
    {
        assert(s@.skip(i as int).skip(1) =~= s@.skip(i + 1));
        i += 1;
    }
    let r = slice_subrange(s, i, s.len());
    assert(r@ =~= s@.skip(i as int));
    r
}

pub fn trimmed_end<'a>(s: &'a [char]) -> (r: &'a [char])
    ensures
        r@ == trim_end(s@),
{
    let mut n: usize = s.len();
    assert(s@.take(n as int) =~= s@);
    while n > 0 && white(s[n - 1])
        invariant
            n <= s@.len(),
            trim_end(s@) == trim_end(s@.take(n as int)),
        decreases n,
    {
        assert(s@.take(n as int).drop_last() =~= s@.take(n - 1));
        n -= 1;
    }
    let r = slice_subrange(s, 0, n);
    assert(r@ =~= s@.take(n as int));
    r
}

pub fn trimmed<'a>(s: &'a [char]) -> (r: &'a [char])
    ensures
        r@ == trim(s@),
{
    trimmed_end(trimmed_start(s))
}

/// The text of a string without the white space at either end.
pub fn trimmed_text(s: &str) -> (r: String)
    ensures
        r@ == trim(s@),
{
    let cs = chars_of(s);
    string_of(trimmed(&cs))
}

/// Whether a string holds nothing but white space.
pub fn blank(s: &str) -> (r: bool)
    ensures
        r == is_blank(s@),
{
    let cs = chars_of(s);
    trimmed(&cs).len() == 0
}

/// Appends all characters of `s` to `out`.
pub fn push_all(out: &mut Vec<char>, s: &[char])
    ensures
        final(out)@ == old(out)@ + s@,
{
    let mut i: usize = 0;
    assert(s@.take(0) =~= Seq::<char>::empty());
    while i < s.len()
        invariant
            i <= s@.len(),
            out@ == old(out)@ + s@.take(i as int),
        decreases s@.len() - i,
    {
        out.push(s[i]);
        i += 1;
        assert(s@.take(i as int) =~= s@.take(i - 1).push(s@[i - 1]));
    }
    assert(s@.take(s@.len() as int) =~= s@);
}

/// The contents of a list of character vectors.
pub open spec fn views(v: Seq<Vec<char>>) -> Seq<Seq<char>> {
    Seq::new(v.len(), |i: int| v[i]@)
}

/// The contents of a list of strings.
pub open spec fn texts(v: Seq<String>) -> Seq<Seq<char>> {
    Seq::new(v.len(), |i: int| v[i]@)
}

/// The contents of an optional string.
pub open spec fn opt_text(v: Option<String>) -> Option<Seq<char>> {
    match v {
        Some(s) => Some(s@),
        None => None,
    }
}

/// The contents of an optional string slice.
pub open spec fn opt_str(v: Option<&str>) -> Option<Seq<char>> {
    match v {
        Some(s) => Some(s@),
        None => None,
    }
}

/// The strings made of a list of character vectors.
pub fn strings_of(v: &Vec<Vec<char>>) -> (r: Vec<String>)
    ensures
        texts(r@) == views(v@),
{
    let mut out: Vec<String> = Vec::new();
    let mut i: usize = 0;
    while i < v.len()
        invariant
            i <= v@.len(),
            out@.len() == i,
            forall|k: int| 0 <= k < i ==> out@[k]@ == v@[k]@,
        decreases v@.len() - i,
    {
        out.push(string_of(&v[i]));
        i += 1;
    }
    assert(texts(out@) =~= views(v@));
    out
}

/// The parts of `s` between the occurrences of `c`; one part more than there
/// are occurrences.
pub open spec fn split_on(s: Seq<char>, c: char) -> Seq<Seq<char>>
    decreases s.len(),
{
    if s.len() == 0 {
        seq![Seq::<char>::empty()]
    } else {
        let parts = split_on(s.drop_last(), c);
        if s.last() == c {
            parts.push(Seq::<char>::empty())
        } else {
            parts.drop_last().push(parts.last().push(s.last()))
        }
    }
}

pub fn split_chars(s: &[char], c: char) -> (r: Vec<Vec<char>>)
    ensures
        views(r@) == split_on(s@, c),
        r@.len() > 0,
{
    let mut out: Vec<Vec<char>> = Vec::new();
    let mut part: Vec<char> = Vec::new();
    let mut i: usize = 0;
    assert(s@.take(0) =~= Seq::<char>::empty());
    assert(views(out@).push(part@) =~= seq![Seq::<char>::empty()]);
    while i < s.len()
        invariant
            i <= s@.len(),
            views(out@).push(part@) == split_on(s@.take(i as int), c),
        decreases s@.len() - i,
    {
        let x = s[i];
        i += 1;
        assert(s@.take(i as int).drop_last() =~= s@.take(i - 1));
        let ghost before = views(out@);
        assert(before.push(part@).drop_last() =~= before);
        if x == c {
            let ghost p = part@;
            out.push(part);
            part = Vec::new();
            assert(views(out@) =~= before.push(p));
        } else {
            part.push(x);
        }
    }
    assert(s@.take(s@.len() as int) =~= s@);
    let ghost before = views(out@);
    let ghost p = part@;
    out.push(part);
    assert(views(out@) =~= before.push(p));
    out
}

/// A line without the carriage return before its line feed.
pub open spec fn strip_cr(line: Seq<char>) -> Seq<char> {
    if line.len() > 0 && line.last() == '\r' {
        line.drop_last()
    } else {
        line
    }
}

/// The lines of `s`. A line ends in a line feed, or in a carriage return and a
/// line feed, or at the end of the text; nothing follows a final line feed.
pub open spec fn lines(s: Seq<char>) -> Seq<Seq<char>> {
    let parts = split_on(s, '\n');
    let ended = Seq::new((parts.len() - 1) as nat, |i: int| strip_cr(parts[i]));
    if parts.last().len() == 0 {
        ended
    } else {
        ended.push(parts.last())
    }
}

pub fn lines_of(s: &[char]) -> (r: Vec<Vec<char>>)
    ensures
        views(r@) == lines(s@),
{
    let mut parts = split_chars(s, '\n');
    let ghost all = views(parts@);
    let n: usize = parts.len();
    let mut i: usize = 0;
    while i < n - 1
        invariant
            i <= n - 1,
            n == parts@.len(),
            n == all.len(),
            all == split_on(s@, '\n'),
            forall|k: int| 0 <= k < i ==> parts@[k]@ == strip_cr(all[k]),
            forall|k: int| i <= k < n ==> parts@[k]@ == all[k],
        decreases n - i,
    {
        let len: usize = parts[i].len();
        if len > 0 && parts[i][len - 1] == '\r' {
            let mut line: Vec<char> = Vec::new();
            push_all(&mut line, slice_subrange(&parts[i], 0, len - 1));
            assert(line@ =~= all[i as int].drop_last());
            parts.set(i, line);
        }
        i += 1;
    }
    if parts[n - 1].len() == 0 {
        parts.pop();
    }
    parts
}

/// The maximal runs of `s` without white space, in order.
pub open spec fn words(s: Seq<char>) -> Seq<Seq<char>>
    decreases s.len(),
{
    if s.len() == 0 {
        Seq::empty()
    } else {
        let before = words(s.drop_last());
        if is_white(s.last()) {
            before
        } else if s.len() == 1 || is_white(s[s.len() - 2]) {
            before.push(seq![s.last()])
        } else {
            before.drop_last().push(before.last().push(s.last()))
        }
    }
}

pub fn words_of(s: &[char]) -> (r: Vec<Vec<char>>)
    ensures
        views(r@) == words(s@),
{
    let mut out: Vec<Vec<char>> = Vec::new();
    let mut part: Vec<char> = Vec::new();
    let mut i: usize = 0;
    assert(s@.take(0) =~= Seq::<char>::empty());
    assert(views(out@) =~= Seq::empty());
    while i < s.len()
        invariant
            i <= s@.len(),
            part@.len() > 0 <==> i > 0 && !is_white(s@[i - 1]),
            words(s@.take(i as int)) == if part@.len() > 0 {
                views(out@).push(part@)
            } else {
                views(out@)
            },
        decreases s@.len() - i,
    {
        let x = s[i];
        i += 1;
        assert(s@.take(i as int).drop_last() =~= s@.take(i - 1));
        let ghost before = views(out@);
        let ghost p = part@;
        assert(before.push(p).drop_last() =~= before);
        if white(x) {
            if part.len() > 0 {
                out.push(part);
                part = Vec::new();
                assert(views(out@) =~= before.push(p));
            }
        } else {
            part.push(x);
            assert(p.len() == 0 ==> part@ =~= seq![x]);
        }
    }
    assert(s@.take(s@.len() as int) =~= s@);
    if part.len() > 0 {
        let ghost before = views(out@);
        let ghost p = part@;
        out.push(part);
        assert(views(out@) =~= before.push(p));
    }
    out
}

/// The parts one after the other, with `sep` between neighbours.
pub open spec fn join(parts: Seq<Seq<char>>, sep: Seq<char>) -> Seq<char>
    decreases parts.len(),
{
    if parts.len() == 0 {
        Seq::empty()
    } else if parts.len() == 1 {
        parts[0]
    } else {
        join(parts.drop_last(), sep) + sep + parts.last()
    }
}

pub fn join_chars(parts: &Vec<Vec<char>>, sep: &[char]) -> (r: Vec<char>)
    ensures
        r@ == join(views(parts@), sep@),
{
    let mut out: Vec<char> = Vec::new();
    let mut i: usize = 0;
    let ghost all = views(parts@);
    while i < parts.len()
        invariant
            i <= parts@.len(),
            all == views(parts@),
            out@ == join(all.take(i as int), sep@),
        decreases parts@.len() - i,
    {
        if i > 0 {
            push_all(&mut out, sep);
        }
        push_all(&mut out, &parts[i]);
        i += 1;
        assert(all.take(i as int).drop_last() =~= all.take(i - 1));
        if i == 1 {
            assert(out@ =~= all[0]);
        }
    }
    assert(all.take(all.len() as int) =~= all);
    out
}

/// The strings one after the other, with `sep` between neighbours.
pub fn join_strings(parts: &Vec<String>, sep: &str) -> (r: String)
    ensures
        r@ == join(texts(parts@), sep@),
{
    let mut out = String::new();
    let mut i: usize = 0;
    let ghost all = texts(parts@);
    while i < parts.len()
        invariant
            i <= parts@.len(),
            all == texts(parts@),
            out@ == join(all.take(i as int), sep@),
        decreases parts@.len() - i,
    {
        if i > 0 {
            out.append(sep);
        }
        out.append(parts[i].as_str());
        i += 1;
        assert(all.take(i as int).drop_last() =~= all.take(i - 1));
        if i == 1 {
            assert(out@ =~= all[0]);
        }
    }
    assert(all.take(all.len() as int) =~= all);
    out
}

pub fn has_prefix(s: &[char], p: &[char]) -> (r: bool)
    ensures
        r == p@.is_prefix_of(s@),
{
    if p.len() > s.len() {
        return false;
    }
    let r = same_chars(slice_subrange(s, 0, p.len()), p);
    r
}

pub fn has_suffix(s: &[char], p: &[char]) -> (r: bool)
    ensures
        r == p@.is_suffix_of(s@),
{
    if p.len() > s.len() {
        return false;
    }
    let r = same_chars(slice_subrange(s, s.len() - p.len(), s.len()), p);
    r
}

/// Whether the string starts with the given text.
pub fn text_has_prefix(s: &str, p: &str) -> (r: bool)
    ensures
        r == p@.is_prefix_of(s@),
{
    let x = chars_of(s);
    let y = chars_of(p);
    has_prefix(&x, &y)
}

/// Whether `p` stands in `s` at position `i`.
pub open spec fn occurs_at(p: Seq<char>, s: Seq<char>, i: int) -> bool {
    0 <= i && i + p.len() <= s.len() && s.subrange(i, i + p.len()) == p
}

/// Whether `p` stands anywhere in `s`.
pub open spec fn occurs(p: Seq<char>, s: Seq<char>) -> bool {
    exists|i: int| occurs_at(p, s, i)
}

/// The first position at which `p` stands in `s`.
pub fn find_chars(s: &[char], p: &[char]) -> (r: Option<usize>)
    ensures
        match r {
            Some(i) => occurs_at(p@, s@, i as int) && forall|k: int|
                0 <= k < i ==> !occurs_at(p@, s@, k),
            None => !occurs(p@, s@),
        },
{
    if p.len() > s.len() {
        return None;
    }
    let mut i: usize = 0;
    while i <= s.len() - p.len()
        invariant
            p@.len() <= s@.len(),
            i <= s@.len() - p@.len() + 1,
            forall|k: int| 0 <= k < i ==> !occurs_at(p@, s@, k),
        decreases s@.len() + 1 - i,
    {
        if same_chars(slice_subrange(s, i, i + p.len()), p) {
            return Some(i);
        }
        if i == s.len() - p.len() {
            assert forall|k: int| !occurs_at(p@, s@, k) by {}
            return None;
        }
        i += 1;
    }
    None
}

/// Whether the string holds the given text.
pub fn text_contains(s: &str, p: &str) -> (r: bool)
    ensures
        r == occurs(p@, s@),
{
    let x = chars_of(s);
    let y = chars_of(p);
    find_chars(&x, &y).is_some()
}

/// The first position of `c` in `s`.
pub fn find_char(s: &[char], c: char) -> (r: Option<usize>)
    ensures
        match r {
            Some(i) => i < s@.len() && s@[i as int] == c && !s@.take(i as int).contains(c),
            None => !s@.contains(c),
        },
{
    let mut i: usize = 0;
    while i < s.len()
        invariant
            i <= s@.len(),
            forall|k: int| 0 <= k < i ==> s@[k] != c,
        decreases s@.len() - i,
    {
        if s[i] == c {
            return Some(i);
        }
        i += 1;
    }
    None
}

/// A copy of the characters of a slice.
pub fn copy_chars(s: &[char]) -> (r: Vec<char>)
    ensures
        r@ == s@,
{
    let mut out: Vec<char> = Vec::new();
    push_all(&mut out, s);
    assert(out@ =~= s@);
    out
}

/// `s` with its ASCII letters in lower case.
pub open spec fn lower_all(s: Seq<char>) -> Seq<char> {
    Seq::new(s.len(), |i: int| lower(s[i]))
}

pub fn lower_chars(s: &[char]) -> (r: Vec<char>)
    ensures
        r@ == lower_all(s@),
{
    let mut out: Vec<char> = Vec::new();
    let mut i: usize = 0;
    while i < s.len()
        invariant
            i <= s@.len(),
            out@ =~= lower_all(s@).take(i as int),
        decreases s@.len() - i,
    {
        out.push(ascii_lower(s[i]));
        i += 1;
    }
    out
}

/// At most the first `max` characters of `s`.
pub open spec fn clip(s: Seq<char>, max: int) -> Seq<char> {
    if s.len() > max {
        s.take(max)
    } else {
        s
    }
}

/// At most the first `max` characters of `s`, followed by `...` where some are
/// left out.
pub open spec fn ellipsis(s: Seq<char>, max: int) -> Seq<char> {
    if s.len() > max {
        s.take(max) + "..."@
    } else {
        s
    }
}

pub fn clipped<'a>(s: &'a [char], max: usize) -> (r: &'a [char])
    ensures
        r@ == clip(s@, max as int),
{
    if s.len() > max {
        slice_subrange(s, 0, max)
    } else {
        s
    }
}

pub fn with_ellipsis(s: &[char], max: usize) -> (r: String)
    ensures
        r@ == ellipsis(s@, max as int),
{
    let mut out = string_of(clipped(s, max));
    if s.len() > max {
        out.append("...");
    }
    out
}

/// No part of a split holds the character that was split on.
pub proof fn lemma_split_parts(s: Seq<char>, c: char)
    ensures
        split_on(s, c).len() > 0,
        forall|i: int| 0 <= i < split_on(s, c).len() ==> !(#[trigger] split_on(s, c)[i]).contains(c),
    decreases s.len(),
{
    if s.len() > 0 {
        lemma_split_parts(s.drop_last(), c);
        let before = split_on(s.drop_last(), c);
        if s.last() != c {
            let last = before.last().push(s.last());
            assert(!before.last().contains(c));
            assert forall|k: int| 0 <= k < last.len() implies last[k] != c by {
                if k < before.last().len() {
                    assert(last[k] == before.last()[k]);
                }
            }
        }
    }
}

/// Putting the parts of a split together again gives the text.
pub proof fn lemma_join_of_split(s: Seq<char>, c: char)
    ensures
        join(split_on(s, c), seq![c]) == s,
    decreases s.len(),
{
    lemma_split_parts(s, c);
    if s.len() > 0 {
        lemma_join_of_split(s.drop_last(), c);
        lemma_split_parts(s.drop_last(), c);
        let before = split_on(s.drop_last(), c);
        let after = split_on(s, c);
        if s.last() == c {
            assert(after.drop_last() =~= before);
            assert(join(after, seq![c]) =~= s.drop_last() + seq![c]);
            assert(s =~= s.drop_last() + seq![c]);
        } else {
            assert(after.drop_last() =~= before.drop_last());
            assert(join(after, seq![c]) =~= join(before, seq![c]).push(s.last()));
            assert(s =~= s.drop_last().push(s.last()));
        }
    }
}

proof fn lemma_split_append(s: Seq<char>, t: Seq<char>, c: char)
    requires
        !t.contains(c),
    ensures
        split_on(s + t, c) == split_on(s, c).drop_last().push(split_on(s, c).last() + t),
    decreases t.len(),
{
    lemma_split_parts(s, c);
    if t.len() == 0 {
        assert(s + t =~= s);
        assert(split_on(s, c).last() + t =~= split_on(s, c).last());
        assert(split_on(s, c).drop_last().push(split_on(s, c).last()) =~= split_on(s, c));
    } else {
        assert forall|k: int| 0 <= k < t.drop_last().len() implies t.drop_last()[k] != c by {
            assert(t[k] != c);
        }
        lemma_split_append(s, t.drop_last(), c);
        assert((s + t).drop_last() =~= s + t.drop_last());
        assert(t.last() != c);
        let before = split_on(s + t.drop_last(), c);
        assert(before.drop_last() =~= split_on(s, c).drop_last());
        assert(split_on(s, c).last() + t.drop_last() + seq![t.last()] =~= split_on(s, c).last() + t);
        assert(before.last().push(t.last()) =~= split_on(s, c).last() + t);
    }
}

/// Splitting what was joined gives the parts back, where no part holds the
/// separator.
pub proof fn lemma_split_of_join(parts: Seq<Seq<char>>, c: char)
    requires
        parts.len() > 0,
        forall|i: int| 0 <= i < parts.len() ==> !(#[trigger] parts[i]).contains(c),
    ensures
        split_on(join(parts, seq![c]), c) == parts,
    decreases parts.len(),
{
    if parts.len() == 1 {
        let e = Seq::<char>::empty();
        lemma_split_append(e, parts[0], c);
        assert(e + parts[0] =~= parts[0]);
        assert(split_on(e, c) =~= seq![e]);
        assert(split_on(e, c).drop_last().push(split_on(e, c).last() + parts[0]) =~= parts);
    } else {
        let front = parts.drop_last();
        assert forall|i: int| 0 <= i < front.len() implies !(#[trigger] front[i]).contains(c) by {
            assert(front[i] == parts[i]);
        }
        lemma_split_of_join(front, c);
        let head = join(front, seq![c]) + seq![c];
        assert(head.drop_last() =~= join(front, seq![c]));
        assert(split_on(head, c) =~= front.push(Seq::empty()));
        lemma_split_append(head, parts.last(), c);
        assert(Seq::<char>::empty() + parts.last() =~= parts.last());
        assert(front.push(Seq::empty()).drop_last() =~= front);
        assert(front.push(parts.last()) =~= parts);
    }
}

/// Joining two lists that are not empty puts one separator between them.
pub proof fn lemma_join_append(a: Seq<Seq<char>>, b: Seq<Seq<char>>, sep: Seq<char>)
    requires
        a.len() > 0,
        b.len() > 0,
    ensures
        join(a + b, sep) == join(a, sep) + sep + join(b, sep),
    decreases b.len(),
{
    assert((a + b).drop_last() =~= a + b.drop_last());
    if b.len() == 1 {
        assert(a + b.drop_last() =~= a);
    } else {
        lemma_join_append(a, b.drop_last(), sep);
        assert(join(a + b, sep) =~= join(a, sep) + sep + join(b, sep));
    }
}

/// `s` without the occurrences of `c` at its start.
pub open spec fn strip_start(s: Seq<char>, c: char) -> Seq<char>
    decreases s.len(),
{
    if s.len() > 0 && s[0] == c {
        strip_start(s.skip(1), c)
    } else {
        s
    }
}

/// `s` without the occurrences of `c` at its end.
pub open spec fn strip_end(s: Seq<char>, c: char) -> Seq<char>
    decreases s.len(),
{
    if s.len() > 0 && s.last() == c {
        strip_end(s.drop_last(), c)
    } else {
        s
    }
}

/// `s` without the occurrences of `c` at either end.
pub fn stripped<'a>(s: &'a [char], c: char) -> (r: &'a [char])
    ensures
        r@ == strip_end(strip_start(s@, c), c),
{
    let mut i: usize = 0;
    assert(s@.skip(0) =~= s@);
    while i < s.len() && s[i] == c
        invariant
            i <= s@.len(),
            strip_start(s@, c) == strip_start(s@.skip(i as int), c),
        decreases s@.len() - i,
    {
        assert(s@.skip(i as int).skip(1) =~= s@.skip(i + 1));
        i += 1;
    }
    let t = slice_subrange(s, i, s.len());
    assert(t@ =~= s@.skip(i as int));
    let mut n: usize = t.len();
    assert(t@.take(n as int) =~= t@);
    while n > 0 && t[n - 1] == c
        invariant
            n <= t@.len(),
            strip_end(t@, c) == strip_end(t@.take(n as int), c),
        decreases n,
    {
        assert(t@.take(n as int).drop_last() =~= t@.take(n - 1));
        n -= 1;
    }
    let r = slice_subrange(t, 0, n);
    assert(r@ =~= t@.take(n as int));
    r
}

/// `s` with `to` in place of each occurrence of `from`, found from left to right
/// without overlap.
pub open spec fn replaced(s: Seq<char>, from: Seq<char>, to: Seq<char>) -> Seq<char>
    decreases s.len(),
{
    if from.len() == 0 || s.len() < from.len() {
        s
    } else if from.is_prefix_of(s) {
        to + replaced(s.skip(from.len() as int), from, to)
    } else {
        seq![s[0]] + replaced(s.skip(1), from, to)
    }
}

/// Replaces each occurrence of a text that is not empty.
pub fn replace_chars(s: &[char], from: &[char], to: &[char]) -> (r: Vec<char>)
    requires
        from@.len() > 0,
    ensures
        r@ == replaced(s@, from@, to@),
{
    let mut out: Vec<char> = Vec::new();
    let mut i: usize = 0;
    assert(s@.skip(0) =~= s@);
    assert(out@ + replaced(s@, from@, to@) =~= replaced(s@, from@, to@));
    while s.len() - i >= from.len()
        invariant
            i <= s@.len(),
            from@.len() > 0,
            replaced(s@, from@, to@) == out@ + replaced(s@.skip(i as int), from@, to@),
        decreases s@.len() - i,
    {
        let rest = slice_subrange(s, i, s.len());
        assert(rest@ =~= s@.skip(i as int));
        let ghost before = out@;
        if has_prefix(rest, from) {
            push_all(&mut out, to);
            assert(rest@.skip(from@.len() as int) =~= s@.skip(i + from@.len()));
            assert(before + (to@ + replaced(s@.skip(i + from@.len()), from@, to@)) =~= out@
                + replaced(s@.skip(i + from@.len()), from@, to@));
            i += from.len();
        } else {
            out.push(s[i]);
            assert(rest@.skip(1) =~= s@.skip(i + 1));
            assert(before + (seq![rest@[0]] + replaced(s@.skip(i + 1), from@, to@)) =~= out@
                + replaced(s@.skip(i + 1), from@, to@));
            i += 1;
        }
    }
    let rest = slice_subrange(s, i, s.len());
    assert(rest@ =~= s@.skip(i as int));
    push_all(&mut out, rest);
    out
}

/// A string that is given, or an empty one.
pub open spec fn given_or_empty(v: Option<Seq<char>>) -> Seq<char> {
    match v {
        Some(s) => s,
        None => Seq::empty(),
    }
}

/// The first place from `i` on at which `p` occurs in `s`, where there is one.
pub open spec fn first_at(p: Seq<char>, s: Seq<char>, i: int) -> int
    decreases s.len() - i,
{
    if i >= s.len() || occurs_at(p, s, i) {
        i
    } else {
        first_at(p, s, i + 1)
    }
}

pub proof fn lemma_first_at(p: Seq<char>, s: Seq<char>, i: int, n: int)
    requires
        0 <= i <= n <= s.len(),
        occurs_at(p, s, n),
        forall|k: int| i <= k < n ==> !#[trigger] occurs_at(p, s, k),
    ensures
        first_at(p, s, i) == n,
    decreases n - i,
{
    if i < n {
        assert(!occurs_at(p, s, i));
        lemma_first_at(p, s, i + 1, n);
    }
}

pub proof fn lemma_first_part(s: Seq<char>)
    requires
        s.len() > 0,
        s[0] != '\n',
    ensures
        split_on(s, '\n').len() > 0,
        split_on(s, '\n')[0].len() > 0,
        split_on(s, '\n')[0][0] == s[0],
    decreases s.len(),
{
    let front = s.drop_last();
    if front.len() > 0 {
        lemma_first_part(front);
    } else {
        assert(split_on(front, '\n') =~= seq![Seq::<char>::empty()]);
    }
}

pub proof fn lemma_trim_start_edges(s: Seq<char>)
    ensures
        trim_start(s).len() > 0 ==> !is_white(trim_start(s)[0]),
        trim_start(s).len() <= s.len(),
        trim_start(s) == s.skip(s.len() - trim_start(s).len()),
        s.len() > 0 && !is_white(s.last()) ==> trim_start(s).len() > 0,
    decreases s.len(),
{
    if s.len() > 0 && is_white(s[0]) {
        let t = s.skip(1);
        lemma_trim_start_edges(t);
        assert(t.skip(t.len() - trim_start(t).len()) =~= s.skip(s.len() - trim_start(s).len()));
        if !is_white(s.last()) {
            assert(s.len() > 1);
            assert(t.last() == s.last());
        }
    } else {
        assert(s.skip(0) =~= s);
    }
}

pub proof fn lemma_trim_end_edges(s: Seq<char>)
    ensures
        trim_end(s).len() > 0 ==> !is_white(trim_end(s).last()),
        trim_end(s).len() <= s.len(),
        trim_end(s) == s.take(trim_end(s).len() as int),
    decreases s.len(),
{
    if s.len() > 0 && is_white(s.last()) {
        lemma_trim_end_edges(s.drop_last());
        assert(s.drop_last().take(trim_end(s).len() as int) =~= s.take(trim_end(s).len() as int));
    } else {
        assert(s.take(s.len() as int) =~= s);
    }
}

/// A part of a list stands in the joined text.
pub proof fn lemma_joined_part(parts: Seq<Seq<char>>, sep: Seq<char>, k: int)
    requires
        0 <= k < parts.len(),
    ensures
        occurs(parts[k], join(parts, sep)),
    decreases parts.len(),
{
    let whole = join(parts, sep);
    if parts.len() == 1 {
        assert(whole.subrange(0, whole.len() as int) =~= parts[0]);
        assert(occurs_at(parts[0], whole, 0));
    } else if k == parts.len() - 1 {
        let at = whole.len() - parts[k].len();
        assert(whole.subrange(at, whole.len() as int) =~= parts[k]);
        assert(occurs_at(parts[k], whole, at));
    } else {
        let front = join(parts.drop_last(), sep);
        lemma_joined_part(parts.drop_last(), sep, k);
        assert(parts.drop_last()[k] == parts[k]);
        let at = choose|at: int| occurs_at(parts[k], front, at);
        assert(whole.subrange(at, at + parts[k].len()) =~= front.subrange(
            at,
            at + parts[k].len(),
        ));
        assert(occurs_at(parts[k], whole, at));
    }
}

/// A text with a character that is no white space is not blank.
pub proof fn lemma_not_blank(s: Seq<char>, i: int)
    requires
        0 <= i < s.len(),
        !is_white(s[i]),
    ensures
        !is_blank(s),
{
    lemma_trim_start_edges(s);
    lemma_trim_start_keeps(s, i);
    let t = trim_start(s);
    let k = i - (s.len() - t.len());
    assert(t[k] == s[i]);
    lemma_trim_end_keeps(t, k);
}

pub proof fn lemma_trim_start_keeps(s: Seq<char>, i: int)
    requires
        0 <= i < s.len(),
        !is_white(s[i]),
    ensures
        trim_start(s).len() >= s.len() - i,
    decreases s.len(),
{
    if is_white(s[0]) {
        assert(i > 0);
        lemma_trim_start_keeps(s.skip(1), i - 1);
    }
}

pub proof fn lemma_trim_end_keeps(s: Seq<char>, i: int)
    requires
        0 <= i < s.len(),
        !is_white(s[i]),
    ensures
        trim_end(s).len() > i,
    decreases s.len(),
{
    if is_white(s.last()) {
        lemma_trim_end_keeps(s.drop_last(), i);
    }
}

/// The words of a text are not empty and hold no white space.
pub proof fn lemma_words_are_solid(s: Seq<char>)
    ensures
        s.len() > 0 && !is_white(s.last()) ==> words(s).len() > 0,
        forall|i: int| 0 <= i < words(s).len() ==> (#[trigger] words(s)[i]).len() > 0,
        forall|i: int, k: int|
            0 <= i < words(s).len() && 0 <= k < words(s)[i].len() ==> !is_white(
                #[trigger] words(s)[i][k],
            ),
    decreases s.len(),
{
    if s.len() > 0 {
        lemma_words_are_solid(s.drop_last());
        let before = words(s.drop_last());
        let all = words(s);
        assert forall|i: int, k: int| 0 <= i < all.len() && 0 <= k < all[i].len() implies !is_white(
            #[trigger] all[i][k],
        ) by {
            if i < before.len() && k < before[i].len() {
                assert(all[i][k] == before[i][k]);
            }
        }
    }
}

/// The words of two texts with white space between them are those of both.
pub proof fn lemma_words_apart(a: Seq<char>, c: char, b: Seq<char>)
    requires
        is_white(c),
    ensures
        words(a + seq![c] + b) == words(a) + words(b),
    decreases b.len(),
{
    let whole = a + seq![c] + b;
    if b.len() == 0 {
        assert(whole =~= a.push(c));
        assert(whole.drop_last() =~= a);
        assert(words(a) + words(b) =~= words(a));
    } else {
        lemma_words_apart(a, c, b.drop_last());
        assert(whole.drop_last() =~= a + seq![c] + b.drop_last());
        assert(whole.last() == b.last());
        if is_white(b.last()) {
        } else if b.len() == 1 {
            assert(whole[whole.len() - 2] == c);
            assert(words(b.drop_last()) =~= Seq::<Seq<char>>::empty());
            assert(words(whole) =~= words(a) + words(b));
        } else {
            assert(whole[whole.len() - 2] == b[b.len() - 2]);
            lemma_words_are_solid(b.drop_last());
            assert(words(whole) =~= words(a) + words(b));
        }
    }
}

/// A text without white space is one word.
pub proof fn lemma_solid_is_one_word(word: Seq<char>)
    requires
        word.len() > 0,
        forall|i: int| 0 <= i < word.len() ==> !is_white(#[trigger] word[i]),
    ensures
        words(word) == seq![word],
    decreases word.len(),
{
    let front = word.drop_last();
    if word.len() == 1 {
        assert(words(front) =~= Seq::<Seq<char>>::empty());
        assert(word =~= seq![word.last()]);
        assert(words(word) =~= seq![word]);
    } else {
        lemma_solid_is_one_word(front);
        assert(!is_white(word[word.len() - 2]));
        assert(front.push(word.last()) =~= word);
        assert(words(word) =~= seq![word]);
    }
}

/// Words that are joined by spaces are the words of the joined text.
pub proof fn lemma_words_of_joined(list: Seq<Seq<char>>)
    requires
        forall|i: int| 0 <= i < list.len() ==> (#[trigger] list[i]).len() > 0,
        forall|i: int, k: int|
            0 <= i < list.len() && 0 <= k < list[i].len() ==> !is_white(#[trigger] list[i][k]),
    ensures
        words(join(list, " "@)) == list,
    decreases list.len(),
{
    reveal_strlit(" ");
    assert(" "@ =~= seq![' ']);
    if list.len() == 1 {
        lemma_solid_is_one_word(list[0]);
        assert(list =~= seq![list[0]]);
    } else if list.len() > 1 {
        let front = list.drop_last();
        assert forall|i: int, k: int| 0 <= i < front.len() && 0 <= k < front[i].len() implies !is_white(
            #[trigger] front[i][k],
        ) by {
            assert(front[i][k] == list[i][k]);
        }
        lemma_words_of_joined(front);
        lemma_words_apart(join(front, " "@), ' ', list.last());
        let n = list.len() - 1;
        assert forall|k: int| 0 <= k < list.last().len() implies !is_white(
            #[trigger] list.last()[k],
        ) by {
            assert(list[n][k] == list.last()[k]);
        }
        lemma_solid_is_one_word(list.last());
        assert(front + seq![list.last()] =~= list);
    } else {
        assert(join(list, " "@) =~= Seq::<char>::empty());
        assert(words(join(list, " "@)) =~= list);
    }
}

proof fn lemma_trim_start_drops(before: Seq<char>, rest: Seq<char>)
    requires
        forall|i: int| 0 <= i < before.len() ==> is_white(#[trigger] before[i]),
        rest.len() > 0,
        !is_white(rest[0]),
    ensures
        trim_start(before + rest) == rest,
    decreases before.len(),
{
    if before.len() == 0 {
        assert(before + rest =~= rest);
    } else {
        let tail = before.skip(1);
        assert forall|i: int| 0 <= i < tail.len() implies is_white(#[trigger] tail[i]) by {
            assert(tail[i] == before[i + 1]);
        }
        lemma_trim_start_drops(tail, rest);
        assert((before + rest).skip(1) =~= tail + rest);
    }
}

proof fn lemma_trim_end_drops(rest: Seq<char>, after: Seq<char>)
    requires
        forall|i: int| 0 <= i < after.len() ==> is_white(#[trigger] after[i]),
        rest.len() > 0,
        !is_white(rest.last()),
    ensures
        trim_end(rest + after) == rest,
    decreases after.len(),
{
    if after.len() == 0 {
        assert(rest + after =~= rest);
    } else {
        lemma_trim_end_drops(rest, after.drop_last());
        assert((rest + after).drop_last() =~= rest + after.drop_last());
    }
}

/// White space around a text is trimmed, and nothing else.
pub proof fn lemma_trimmed(before: Seq<char>, own: Seq<char>, after: Seq<char>)
    requires
        own.len() > 0,
        !is_white(own[0]),
        !is_white(own.last()),
        forall|i: int| 0 <= i < before.len() ==> is_white(#[trigger] before[i]),
        forall|i: int| 0 <= i < after.len() ==> is_white(#[trigger] after[i]),
    ensures
        trim(before + own + after) == own,
{
    assert(before + own + after =~= before + (own + after));
    lemma_trim_start_drops(before, own + after);
    lemma_trim_end_drops(own, after);
}

/// What occurs in a part of a text occurs in the text.
pub proof fn lemma_occurs_within(p: Seq<char>, part: Seq<char>, s: Seq<char>)
    requires
        occurs(p, part),
        occurs(part, s),
    ensures
        occurs(p, s),
{
    let i = choose|i: int| occurs_at(p, part, i);
    let k = choose|k: int| occurs_at(part, s, k);
    assert(s.subrange(k + i, k + i + p.len()) =~= part.subrange(i, i + p.len()));
    assert(occurs_at(p, s, k + i));
}

/// A text occurs between any two others.
pub proof fn lemma_occurs_between(before: Seq<char>, p: Seq<char>, after: Seq<char>)
    ensures
        occurs(p, before + p + after),
{
    let whole = before + p + after;
    assert(whole.subrange(before.len() as int, (before.len() + p.len()) as int) =~= p);
    assert(occurs_at(p, whole, before.len() as int));
}

/// The lines of lines that were joined are those lines, whether they were
/// joined by a line feed alone or after a carriage return.
pub proof fn law_joined_lines_are_found(ls: Seq<Seq<char>>)
    requires
        ls.len() > 0,
        ls.last().len() > 0,
        forall|i: int| 0 <= i < ls.len() ==> !(#[trigger] ls[i]).contains('\n'),
        forall|i: int| 0 <= i < ls.len() ==> !(#[trigger] ls[i]).contains('\r'),
    ensures
        lines(join(ls, seq!['\n'])) == ls,
        lines(join(ls, seq!['\r', '\n'])) == ls,
{
    lemma_split_of_join(ls, '\n');
    assert forall|i: int| 0 <= i < ls.len() implies strip_cr(#[trigger] ls[i]) == ls[i] by {
        if ls[i].len() > 0 && ls[i].last() == '\r' {
            assert(ls[i].contains('\r'));
        }
    }
    assert(lines(join(ls, seq!['\n'])) =~= ls);
    let ended = Seq::new(
        ls.len(),
        |i: int|
            if i < ls.len() - 1 {
                ls[i].push('\r')
            } else {
                ls[i]
            },
    );
    assert forall|i: int| 0 <= i < ended.len() implies !(#[trigger] ended[i]).contains('\n') by {
        if ended[i].contains('\n') {
            let k = choose|k: int| 0 <= k < ended[i].len() && ended[i][k] == '\n';
            assert(ls[i][k] == '\n');
            assert(ls[i].contains('\n'));
        }
    }
    lemma_ended_lines(ls, ended);
    lemma_split_of_join(ended, '\n');
    assert forall|i: int| 0 <= i < ls.len() - 1 implies strip_cr(#[trigger] ended[i]) == ls[i] by {
        assert(ended[i].drop_last() =~= ls[i]);
    }
    assert(lines(join(ended, seq!['\n'])) =~= ls);
}

proof fn lemma_ended_lines(ls: Seq<Seq<char>>, ended: Seq<Seq<char>>)
    requires
        ls.len() > 0,
        ended.len() == ls.len(),
        ended.last() == ls.last() || ended.last() == ls.last().push('\r'),
        forall|i: int| 0 <= i < ls.len() - 1 ==> #[trigger] ended[i] == ls[i].push('\r'),
    ensures
        join(ended, seq!['\n']) == if ended.last() == ls.last() {
            join(ls, seq!['\r', '\n'])
        } else {
            join(ls, seq!['\r', '\n']).push('\r')
        },
    decreases ls.len(),
{
    if ls.len() > 1 {
        let front = ls.drop_last();
        let front_ended = ended.drop_last();
        assert(front_ended.last() == ended[ls.len() - 2]);
        assert(front.last() == ls[ls.len() - 2]);
        assert forall|i: int| 0 <= i < front.len() - 1 implies #[trigger] front_ended[i]
            == front[i].push('\r') by {
            assert(front_ended[i] == ended[i]);
        }
        lemma_ended_lines(front, front_ended);
        assert(front_ended.last().len() != front.last().len());
        assert(join(front_ended, seq!['\n']) + seq!['\n'] =~= join(front, seq!['\r', '\n'])
            + seq!['\r', '\n']);
        assert(join(ended, seq!['\n']) =~= join(front, seq!['\r', '\n']) + seq!['\r', '\n']
            + ended.last());
        if ended.last() != ls.last() {
            assert(join(ended, seq!['\n']) =~= join(ls, seq!['\r', '\n']).push('\r'));
        }
    }
}

/// Texts that stand one after the other occur in the whole.
pub proof fn lemma_occur_in_turn(a: Seq<char>, p: Seq<char>, b: Seq<char>, q: Seq<char>)
    ensures
        occurs(p, a + p + b + q),
        occurs(q, a + p + b + q),
{
    let whole = a + p + b + q;
    let i = a.len() as int;
    let k = (a.len() + p.len() + b.len()) as int;
    assert(whole.subrange(i, i + p.len()) =~= p);
    assert(occurs_at(p, whole, i));
    assert(whole.subrange(k, k + q.len()) =~= q);
    assert(occurs_at(q, whole, k));
}

} // verus!
