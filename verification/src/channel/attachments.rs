//! Attachments that are stored on disk.

use crate::message::InboundAttachment;
use crate::numbers::{dec, decimal, law_numbers_are_told_apart};
use crate::text::{
    chars_of, clip, clipped, control, is_control, is_white, lemma_trimmed, string_of, strip_end,
    strip_start, stripped, trim, trim_end, trim_start, trimmed,
};
use vstd::prelude::*;

verus! {

/// An attachment that has been downloaded.
pub struct DownloadedAttachment<'a> {
    /// The name that the platform gives.
    pub filename: &'a str,
    /// The MIME type.
    pub mime_type: &'a str,
    /// The contents.
    pub bytes: &'a [u8],
}

/// The longest name, in characters, that a stored file gets.
pub const MAX_FILENAME_CHARS: usize = 120;

/// Whether a character may not stand in a file name.
pub open spec fn is_unsafe(c: char) -> bool {
    ||| c == '/' || c == '\\' || c == ':' || c == '*' || c == '?' || c == '"' || c == '<' || c == '>'
        || c == '|'
    ||| is_control(c)
}

/// `s` with an underscore in place of each character that may not stand in a
/// file name.
pub open spec fn cleaned(s: Seq<char>) -> Seq<char> {
    Seq::new(
        s.len(),
        |i: int|
            if is_unsafe(s[i]) {
                '_'
            } else {
                s[i]
            },
    )
}

/// The name under which a file may be stored.
pub open spec fn safe_name(s: Seq<char>) -> Seq<char> {
    let body = clip(
        strip_end(strip_start(trim(cleaned(s)), '.'), '.'),
        MAX_FILENAME_CHARS as int,
    );
    if body.len() == 0 {
        "file"@
    } else {
        body
    }
}

fn unsafe_char(c: char) -> (r: bool)
    ensures
        r == is_unsafe(c),
{
    c == '/' || c == '\\' || c == ':' || c == '*' || c == '?' || c == '"' || c == '<' || c == '>' || c
        == '|' || control(c)
}

/// Makes a name that is safe to store a file under.
pub fn sanitize_filename(filename: &str) -> (r: String)
    ensures
        r@ == safe_name(filename@),
{
    let cs = chars_of(filename);
    let mut out: Vec<char> = Vec::new();
    let mut i: usize = 0;
    while i < cs.len()
        invariant
            i <= cs@.len(),
            cs@ == filename@,
            out@ =~= cleaned(filename@).take(i as int),
        decreases cs@.len() - i,
    {
        if unsafe_char(cs[i]) {
            out.push('_');
        } else {
            out.push(cs[i]);
        }
        i += 1;
    }
    assert(out@ =~= cleaned(filename@));
    let body = clipped(stripped(trimmed(&out), '.'), MAX_FILENAME_CHARS);
    if body.len() == 0 {
        String::from_str("file")
    } else {
        string_of(body)
    }
}

/// The name that keeps files of the same name apart: the time in front of it.
pub open spec fn unique_name(nanos: nat, filename: Seq<char>) -> Seq<char> {
    dec(nanos) + "_"@ + filename
}

/// Makes a name that keeps files of the same name apart.
pub fn unique_store_filename(nanos: u128, filename: &str) -> (r: String)
    ensures
        r@ == unique_name(nanos as nat, filename@),
{
    let mut out = decimal(nanos);
    out.append("_");
    out.append(filename);
    out
}

/// Where an attachment is stored, and how it is told about afterwards: its
/// contents go to the returned path.
pub fn plan_inbound_attachment(
    session_dir: &str,
    nanos: u128,
    attachment: &DownloadedAttachment,
) -> (r: InboundAttachment)
    ensures
        match r {
            InboundAttachment::StoredFile { path, filename, mime_type, size } => {
                &&& filename@ == safe_name(attachment.filename@)
                &&& path@ == crate::home::joined(
                    session_dir@,
                    unique_name(nanos as nat, safe_name(attachment.filename@)),
                )
                &&& mime_type@ == attachment.mime_type@
                &&& size == attachment.bytes@.len()
            },
            InboundAttachment::Image { .. } => false,
        },
{
    let filename = sanitize_filename(attachment.filename);
    let stored = unique_store_filename(nanos, filename.as_str());
    InboundAttachment::StoredFile {
        path: crate::home::join_path(session_dir, stored.as_str()),
        filename,
        mime_type: String::from_str(attachment.mime_type),
        size: attachment.bytes.len() as u64,
    }
}

proof fn lemma_part_of(s: Seq<char>)
    ensures
        forall|i: int| 0 <= i < trim(s).len() ==> s.contains(#[trigger] trim(s)[i]),
{
    lemma_trim_start_part(s);
    lemma_trim_end_part(trim_start(s));
    assert forall|i: int| 0 <= i < trim(s).len() implies s.contains(#[trigger] trim(s)[i]) by {
        let t = trim_start(s);
        assert(t.contains(trim_end(t)[i]));
        let k = choose|k: int| 0 <= k < t.len() && t[k] == trim_end(t)[i];
        assert(s.contains(t[k]));
    }
}

proof fn lemma_trim_start_part(s: Seq<char>)
    ensures
        forall|i: int| 0 <= i < trim_start(s).len() ==> s.contains(#[trigger] trim_start(s)[i]),
    decreases s.len(),
{
    if s.len() > 0 && is_white(s[0]) {
        let t = s.skip(1);
        lemma_trim_start_part(t);
        assert forall|i: int| 0 <= i < trim_start(s).len() implies s.contains(
            #[trigger] trim_start(s)[i],
        ) by {
            assert(t.contains(trim_start(t)[i]));
            let k = choose|k: int| 0 <= k < t.len() && t[k] == trim_start(t)[i];
            assert(s[k + 1] == t[k]);
        }
    }
}

proof fn lemma_trim_end_part(s: Seq<char>)
    ensures
        forall|i: int| 0 <= i < trim_end(s).len() ==> s.contains(#[trigger] trim_end(s)[i]),
    decreases s.len(),
{
    if s.len() > 0 && is_white(s.last()) {
        let t = s.drop_last();
        lemma_trim_end_part(t);
        assert forall|i: int| 0 <= i < trim_end(s).len() implies s.contains(
            #[trigger] trim_end(s)[i],
        ) by {
            assert(t.contains(trim_end(t)[i]));
            let k = choose|k: int| 0 <= k < t.len() && t[k] == trim_end(t)[i];
            assert(s[k] == t[k]);
        }
    }
}

proof fn lemma_strip_part(s: Seq<char>, c: char)
    ensures
        forall|i: int|
            0 <= i < strip_end(strip_start(s, c), c).len() ==> s.contains(
                #[trigger] strip_end(strip_start(s, c), c)[i],
            ),
{
    lemma_strip_start_part(s, c);
    lemma_strip_end_part(strip_start(s, c), c);
    let t = strip_start(s, c);
    assert forall|i: int| 0 <= i < strip_end(t, c).len() implies s.contains(
        #[trigger] strip_end(t, c)[i],
    ) by {
        assert(t.contains(strip_end(t, c)[i]));
        let k = choose|k: int| 0 <= k < t.len() && t[k] == strip_end(t, c)[i];
        assert(s.contains(t[k]));
    }
}

proof fn lemma_strip_start_part(s: Seq<char>, c: char)
    ensures
        forall|i: int|
            0 <= i < strip_start(s, c).len() ==> s.contains(#[trigger] strip_start(s, c)[i]),
    decreases s.len(),
{
    if s.len() > 0 && s[0] == c {
        let t = s.skip(1);
        lemma_strip_start_part(t, c);
        assert forall|i: int| 0 <= i < strip_start(s, c).len() implies s.contains(
            #[trigger] strip_start(s, c)[i],
        ) by {
            assert(t.contains(strip_start(t, c)[i]));
            let k = choose|k: int| 0 <= k < t.len() && t[k] == strip_start(t, c)[i];
            assert(s[k + 1] == t[k]);
        }
    }
}

proof fn lemma_strip_end_part(s: Seq<char>, c: char)
    ensures
        forall|i: int|
            0 <= i < strip_end(s, c).len() ==> s.contains(#[trigger] strip_end(s, c)[i]),
    decreases s.len(),
{
    if s.len() > 0 && s.last() == c {
        let t = s.drop_last();
        lemma_strip_end_part(t, c);
        assert forall|i: int| 0 <= i < strip_end(s, c).len() implies s.contains(
            #[trigger] strip_end(s, c)[i],
        ) by {
            assert(t.contains(strip_end(t, c)[i]));
            let k = choose|k: int| 0 <= k < t.len() && t[k] == strip_end(t, c)[i];
            assert(s[k] == t[k]);
        }
    }
}

proof fn lemma_strip_start_first(s: Seq<char>, c: char)
    ensures
        strip_start(s, c).len() > 0 ==> strip_start(s, c)[0] != c,
    decreases s.len(),
{
    if s.len() > 0 && s[0] == c {
        lemma_strip_start_first(s.skip(1), c);
    }
}

proof fn lemma_strip_end_first(s: Seq<char>, c: char)
    ensures
        strip_end(s, c).len() > 0 ==> s.len() > 0 && strip_end(s, c)[0] == s[0],
    decreases s.len(),
{
    if s.len() > 0 && s.last() == c {
        lemma_strip_end_first(s.drop_last(), c);
    }
}

/// A safe name is never empty, is not too long, holds no character that
/// separates directories and does not begin with a dot, so that it cannot leave
/// the directory it is stored in.
pub proof fn law_safe_name_is_safe(s: Seq<char>)
    ensures
        0 < safe_name(s).len() <= MAX_FILENAME_CHARS,
        forall|i: int| 0 <= i < safe_name(s).len() ==> !is_unsafe(#[trigger] safe_name(s)[i]),
        safe_name(s)[0] != '.',
{
    reveal_strlit("file");
    let c = cleaned(s);
    let t = trim(c);
    let u = strip_end(strip_start(t, '.'), '.');
    lemma_part_of(c);
    lemma_strip_part(t, '.');
    lemma_strip_start_first(t, '.');
    lemma_strip_end_first(strip_start(t, '.'), '.');
    assert forall|i: int| 0 <= i < safe_name(s).len() implies !is_unsafe(
        #[trigger] safe_name(s)[i],
    ) by {
        if clip(u, MAX_FILENAME_CHARS as int).len() > 0 {
            assert(safe_name(s)[i] == u[i]);
            assert(t.contains(u[i]));
            let k = choose|k: int| 0 <= k < t.len() && t[k] == u[i];
            assert(c.contains(t[k]));
            let m = choose|m: int| 0 <= m < c.len() && c[m] == t[k];
            assert(!is_unsafe(c[m]));
        }
    }
}

/// A name that can stand on disk as it is stays, and of a long one the first
/// 120 characters are kept.
pub proof fn law_plain_names_stay(s: Seq<char>)
    requires
        s.len() > 0,
        forall|i: int|
            0 <= i < s.len() ==> !is_control(#[trigger] s[i]) && s[i] != '/' && s[i] != '\\' && s[i]
                != ':' && s[i] != '*' && s[i] != '?' && s[i] != '"' && s[i] != '<' && s[i] != '>'
                && s[i] != '|',
        !is_white(s[0]) && s[0] != '.',
        !is_white(s.last()) && s.last() != '.',
    ensures
        s.len() <= 120 ==> safe_name(s) == s,
        s.len() > 120 ==> safe_name(s) == s.take(120),
{
    assert(cleaned(s) =~= s);
    lemma_trimmed(Seq::empty(), s, Seq::empty());
    assert(Seq::<char>::empty() + s + Seq::<char>::empty() =~= s);
}

/// A character that may not stand on disk becomes an underscore.
pub proof fn law_unsafe_characters_are_replaced(s: Seq<char>, i: int)
    requires
        0 <= i < s.len(),
    ensures
        cleaned(s).len() == s.len(),
        s[i] == '/' || s[i] == '\\' || s[i] == ':' || s[i] == '*' || s[i] == '?' || s[i] == '"'
            || s[i] == '<' || s[i] == '>' || s[i] == '|' || is_control(s[i]) ==> cleaned(s)[i]
            == '_',
{
}

/// Files that are stored at different times have different names, and each
/// keeps the name that it was given at its end.
pub proof fn law_stored_names_are_told_apart(a: nat, b: nat, filename: Seq<char>)
    requires
        a != b,
    ensures
        unique_name(a, filename) != unique_name(b, filename),
        filename.is_suffix_of(unique_name(a, filename)),
{
    reveal_strlit("_");
    law_numbers_are_told_apart(a, b);
    let x = unique_name(a, filename);
    let y = unique_name(b, filename);
    assert(x.take(x.len() - filename.len() - 1) =~= dec(a));
    assert(y.take(y.len() - filename.len() - 1) =~= dec(b));
    assert(x.subrange(x.len() - filename.len(), x.len() as int) =~= filename);
}

} // verus!
