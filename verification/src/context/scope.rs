//! The directories that belong to one user.

use crate::message::MessageSource;
use crate::text::{
    ascii_alnum, blank, chars_of, is_ascii_alnum, is_blank, lemma_trimmed, opt_text, string_of,
    trim, trimmed_text,
};
use vstd::prelude::*;

verus! {

/// Whether a character may stand in the name of a user's directory.
pub open spec fn is_scope_char(c: char) -> bool {
    is_ascii_alnum(c) || c == '-' || c == '_'
}

/// A name in which other characters are replaced by underscores.
pub open spec fn scope_part(s: Seq<char>) -> Seq<char> {
    Seq::new(
        s.len(),
        |i: int|
            if is_scope_char(s[i]) {
                s[i]
            } else {
                '_'
            },
    )
}

/// Replaces the characters that may not stand in the name of a user's
/// directory.
pub fn normalize_scope_part(value: &str) -> (r: String)
    ensures
        r@ == scope_part(value@),
{
    let cs = chars_of(value);
    let mut out: Vec<char> = Vec::new();
    let mut i: usize = 0;
    while i < cs.len()
        invariant
            i <= cs@.len(),
            out@.len() == i,
            forall|k: int| 0 <= k < i ==> out@[k] == scope_part(cs@)[k],
        decreases cs@.len() - i,
    {
        let c = cs[i];
        if ascii_alnum(c) || c == '-' || c == '_' {
            out.push(c);
        } else {
            out.push('_');
        }
        i += 1;
    }
    assert(out@ =~= scope_part(cs@));
    string_of(&out)
}

/// The name of the directory that holds a user's memories.
pub open spec fn user_key(source: MessageSource) -> Option<Seq<char>> {
    match source.user_id {
        Some(id) => if is_blank(id@) {
            None
        } else {
            Some(scope_part(trim(id@)))
        },
        None => None,
    }
}

/// The name of the directory that holds a user's memories; a message without a
/// known sender has none.
pub fn memory_user_key(source: &MessageSource) -> (r: Option<String>)
    ensures
        opt_text(r) == user_key(*source),
{
    match &source.user_id {
        Some(id) => if blank(id.as_str()) {
            None
        } else {
            Some(normalize_scope_part(trimmed_text(id.as_str()).as_str()))
        },
        None => None,
    }
}

/// The channel that a user's skills belong to: its name, else its platform.
pub open spec fn scope_channel(source: MessageSource) -> Seq<char> {
    if is_blank(source.channel_name@) {
        trim(source.platform@)
    } else {
        trim(source.channel_name@)
    }
}

/// The name of the directory that holds a user's skills.
pub open spec fn skill_scope(source: MessageSource) -> Option<Seq<char>> {
    if source.user_id is None || is_blank(source.user_id->0@) || scope_channel(source).len() == 0 {
        None
    } else {
        Some(
            scope_part(scope_channel(source)) + "__"@ + scope_part(trim(source.user_id->0@)),
        )
    }
}

/// The name of the directory that holds a user's skills; a message without a
/// known sender or channel has none.
pub fn user_skill_scope(source: &MessageSource) -> (r: Option<String>)
    ensures
        opt_text(r) == skill_scope(*source),
{
    let channel = if blank(source.channel_name.as_str()) {
        trimmed_text(source.platform.as_str())
    } else {
        trimmed_text(source.channel_name.as_str())
    };
    let user_id = match &source.user_id {
        Some(id) => id,
        None => return None,
    };
    if channel.as_str().is_empty() || blank(user_id.as_str()) {
        return None;
    }
    let mut out = normalize_scope_part(channel.as_str());
    out.append("__");
    out.append(normalize_scope_part(trimmed_text(user_id.as_str()).as_str()).as_str());
    Some(out)
}

/// The name of a user's directory holds no character that leads elsewhere.
pub proof fn law_user_directories_stay_inside(source: MessageSource)
    ensures
        match user_key(source) {
            Some(key) => key.len() > 0 && forall|i: int|
                0 <= i < key.len() ==> is_scope_char(#[trigger] key[i]),
            None => true,
        },
        match skill_scope(source) {
            Some(scope) => scope.len() > 0 && forall|i: int|
                0 <= i < scope.len() ==> is_scope_char(#[trigger] scope[i]),
            None => true,
        },
{
    reveal_strlit("__");
    if let Some(scope) = skill_scope(source) {
        let a = scope_part(scope_channel(source));
        let b = scope_part(trim(source.user_id->0@));
        assert forall|i: int| 0 <= i < scope.len() implies is_scope_char(#[trigger] scope[i]) by {
            if i < a.len() {
                assert(scope[i] == a[i]);
            } else if i >= a.len() + 2 {
                assert(scope[i] == b[i - a.len() - 2]);
            } else {
                assert(scope[i] == "__"@[i - a.len()]);
            }
        }
    }
}

/// An id of letters, digits, dashes and underscores names its user's
/// directories as it is; white space around it does not count.
pub proof fn law_plain_names_stay(source: MessageSource, id: Seq<char>, channel: Seq<char>)
    requires
        id.len() > 0,
        channel.len() > 0,
        forall|i: int| 0 <= i < id.len() ==> is_scope_char(#[trigger] id[i]),
        forall|i: int| 0 <= i < channel.len() ==> is_scope_char(#[trigger] channel[i]),
        opt_text(source.user_id) == Some(id),
    ensures
        user_key(source) == Some(id),
        source.channel_name@ == channel ==> skill_scope(source) == Some(
            channel + seq!['_', '_'] + id,
        ),
        is_blank(source.channel_name@) && source.platform@ == channel ==> skill_scope(source)
            == Some(channel + seq!['_', '_'] + id),
{
    reveal_strlit("__");
    assert("__"@ =~= seq!['_', '_']);
    lemma_plain(id);
    lemma_plain(channel);
}

proof fn lemma_plain(s: Seq<char>)
    requires
        s.len() > 0,
        forall|i: int| 0 <= i < s.len() ==> is_scope_char(#[trigger] s[i]),
    ensures
        trim(s) == s,
        scope_part(s) == s,
{
    assert(is_scope_char(s[0]) && is_scope_char(s[s.len() - 1]));
    lemma_trimmed(Seq::empty(), s, Seq::empty());
    assert(Seq::<char>::empty() + s + Seq::<char>::empty() =~= s);
    assert(scope_part(s) =~= s);
}

/// A message without a known sender has no directory of its own.
pub proof fn law_unknown_senders_have_no_directory(source: MessageSource)
    requires
        source.user_id is None || is_blank(source.user_id->0@),
    ensures
        user_key(source) is None,
        skill_scope(source) is None,
{
}

} // verus!
