//! What the channels have in common when they talk to their platforms.

use crate::error::{AppError, ErrorView};
use crate::text::{
    chars_of, ellipsis, join, join_chars, lemma_words_are_solid, lemma_words_of_joined,
    split_chars, split_on, string_of, strip_end, views, with_ellipsis, words, words_of,
};
use vstd::prelude::*;

verus! {

/// The error of a request that the platform refused.
pub fn http_failure(what: &str, status: &str, body: &str) -> (r: AppError)
    ensures
        r@ == ErrorView::Channel(what@ + " failed with "@ + status@ + ": "@ + body@),
{
    let mut out = String::from_str(what);
    out.append(" failed with ");
    out.append(status);
    out.append(": ");
    out.append(body);
    AppError::Channel(out)
}

/// How many seconds a token is used: a minute less than it is valid.
pub fn token_lifetime(expire: Option<u64>) -> (r: u64)
    ensures
        r == match expire {
            Some(n) => if n >= 60 {
                (n - 60) as u64
            } else {
                0
            },
            None => 7140,
        },
{
    match expire {
        Some(n) => n.saturating_sub(60),
        None => 7140,
    }
}

/// An address without its query.
pub fn redact_query(url: &str) -> (r: String)
    ensures
        r@ == split_on(url@, '?')[0],
{
    let cs = chars_of(url);
    let parts = split_chars(&cs, '?');
    assert(views(parts@)[0] == parts@[0]@);
    string_of(&parts[0])
}

/// A text for the log: its words, clipped.
pub open spec fn preview(text: Seq<char>, max: int) -> Seq<char> {
    ellipsis(join(words(text), " "@), max)
}

/// A text for the log: its words, clipped.
pub fn log_preview(text: &str, max_chars: usize) -> (r: String)
    ensures
        r@ == preview(text@, max_chars as int),
{
    let cs = chars_of(text);
    let space = chars_of(" ");
    with_ellipsis(&join_chars(&words_of(&cs), &space), max_chars)
}

/// An address without slashes at its end.
pub fn without_slashes_at_end(s: &str) -> (r: String)
    ensures
        r@ == strip_end(s@, '/'),
{
    let cs = chars_of(s);
    let mut n: usize = cs.len();
    assert(cs@.take(n as int) =~= cs@);
    while n > 0 && cs[n - 1] == '/'
        invariant
            n <= cs@.len(),
            strip_end(cs@, '/') == strip_end(cs@.take(n as int), '/'),
        decreases n,
    {
        assert(cs@.take(n as int).drop_last() =~= cs@.take(n - 1));
        n -= 1;
    }
    let rest = vstd::slice::slice_subrange(&cs, 0, n);
    assert(rest@ =~= cs@.take(n as int));
    string_of(rest)
}

/// A short text is shown whole but for its line breaks and double spaces; of a
/// long one the beginning is shown, and that it goes on.
pub proof fn law_previews_show_the_beginning(text: Seq<char>, max: int)
    requires
        max >= 0,
    ensures
        join(words(text), " "@).len() <= max ==> words(preview(text, max)) == words(text),
        join(words(text), " "@).len() > max ==> preview(text, max) == join(
            words(text),
            " "@,
        ).take(max) + seq!['.', '.', '.'],
{
    reveal_strlit("...");
    assert("..."@ =~= seq!['.', '.', '.']);
    lemma_words_are_solid(text);
    lemma_words_of_joined(words(text));
}

} // verus!
