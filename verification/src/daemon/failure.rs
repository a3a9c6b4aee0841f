//! What the user is told of a provider's failure.

use crate::error::{AppError, ErrorView};
use crate::text::{
    chars_of, digit, find_char, find_chars, first_at, is_digit, is_white, lemma_first_at,
    lemma_occur_in_turn, lemma_occurs_between, lemma_trimmed, occurs, occurs_at, opt_text,
    string_of, trim, trimmed,
};
use vstd::prelude::*;
use vstd::slice::slice_subrange;

verus! {

/// Whether a status code of a server's failure stands at a place: a five and
/// two more digits.
pub open spec fn code_at(s: Seq<char>, i: int) -> bool {
    0 <= i && i + 2 < s.len() && s[i] == '5' && is_digit(s[i + 1]) && is_digit(s[i + 2])
}

/// The first status code of a server's failure in a text.
pub open spec fn status_code(s: Seq<char>) -> Option<Seq<char>> {
    status_code_from(s, 0)
}

/// The first status code from a place on.
pub open spec fn status_code_from(s: Seq<char>, i: int) -> Option<Seq<char>>
    decreases s.len() - i,
{
    if i < 0 || i >= s.len() {
        None
    } else if code_at(s, i) {
        Some(s.subrange(i, i + 3))
    } else {
        status_code_from(s, i + 1)
    }
}

/// Finds the first status code of a server's failure in a text.
pub fn provider_status_code(message: &str) -> (r: Option<String>)
    ensures
        opt_text(r) == status_code(message@),
{
    let cs = chars_of(message);
    let mut i: usize = 0;
    while i < cs.len()
        invariant
            i <= cs@.len(),
            cs@ == message@,
            status_code(message@) == status_code_from(cs@, i as int),
        decreases cs@.len() - i,
    {
        if cs.len() - i > 2 && cs[i] == '5' && digit(cs[i + 1]) && digit(cs[i + 2]) {
            let code = slice_subrange(&cs, i, i + 3);
            assert(code@ =~= cs@.subrange(i as int, i + 3));
            return Some(string_of(code));
        }
        i += 1;
    }
    None
}

/// What stands before the first quotation mark.
pub open spec fn before_quote(s: Seq<char>) -> Seq<char>
    decreases s.len(),
{
    if s.len() == 0 || s[0] == '"' {
        Seq::empty()
    } else {
        seq![s[0]] + before_quote(s.skip(1))
    }
}

/// The message that a provider's answer holds: the text of its first field of
/// that name, unless it is blank.
pub open spec fn provider_message(s: Seq<char>) -> Option<Seq<char>> {
    let mark = "\"message\":\""@;
    if occurs(mark, s) {
        let value = trim(before_quote(s.skip(first_at(mark, s, 0) + mark.len())));
        if value.len() == 0 {
            None
        } else {
            Some(value)
        }
    } else {
        None
    }
}

proof fn lemma_before_quote(s: Seq<char>, n: int)
    requires
        0 <= n <= s.len(),
        n < s.len() ==> s[n] == '"',
        forall|k: int| 0 <= k < n ==> s[k] != '"',
    ensures
        before_quote(s) == s.take(n),
    decreases n,
{
    if n > 0 {
        let t = s.skip(1);
        assert forall|k: int| 0 <= k < n - 1 implies t[k] != '"' by {
            assert(t[k] == s[k + 1]);
        }
        lemma_before_quote(t, n - 1);
        assert(s.take(n) =~= seq![s[0]] + t.take(n - 1));
    } else {
        assert(s.take(0) =~= Seq::<char>::empty());
    }
}

/// Finds the message that a provider's answer holds.
pub fn provider_error_message(message: &str) -> (r: Option<String>)
    ensures
        opt_text(r) == provider_message(message@),
{
    let cs = chars_of(message);
    let mark = chars_of("\"message\":\"");
    let at: usize = match find_chars(&cs, &mark) {
        Some(i) => i,
        None => return None,
    };
    proof {
        assert(occurs_at(mark@, cs@, at as int));
        lemma_first_at(mark@, cs@, 0, at as int);
    }
    let size: usize = cs.len();
    let width: usize = mark.len();
    assert(at + width <= size);
    let rest = slice_subrange(&cs, at + width, size);
    assert(rest@ =~= cs@.skip(at + mark@.len()));
    let end: usize = match find_char(rest, '"') {
        Some(i) => i,
        None => rest.len(),
    };
    proof {
        assert forall|k: int| 0 <= k < end implies rest@[k] != '"' by {
            assert(rest@.take(end as int)[k] == rest@[k]);
        }
        lemma_before_quote(rest@, end as int);
    }
    let inner = slice_subrange(rest, 0, end);
    assert(inner@ =~= rest@.take(end as int));
    let value = trimmed(inner);
    if value.len() == 0 {
        None
    } else {
        Some(string_of(value))
    }
}

/// What the user is told: the status code and the provider's own message, as
/// far as they are known.
pub open spec fn failure_text(error: ErrorView) -> Seq<char> {
    let text = error.text();
    match status_code(text) {
        Some(code) => match provider_message(text) {
            Some(message) => "provider "@ + code + "，"@ + message,
            None => "provider "@ + code + "，上游请求失败"@,
        },
        None => "provider 请求失败"@,
    }
}

/// Describes a failure to the user.
pub fn provider_error_desc(error: &AppError) -> (r: String)
    ensures
        r@ == failure_text(error@),
{
    let text = error.to_text();
    let code = match provider_status_code(text.as_str()) {
        Some(code) => code,
        None => return String::from_str("provider 请求失败"),
    };
    let mut out = String::from_str("provider ");
    out.append(code.as_str());
    match provider_error_message(text.as_str()) {
        Some(message) => {
            out.append("，");
            out.append(message.as_str());
        },
        None => {
            out.append("，上游请求失败");
        },
    }
    out
}

/// The first code of a server's failure is found wherever it stands, and a
/// text without the digit five has none.
pub proof fn law_the_first_code_is_found(
    before: Seq<char>,
    a: char,
    b: char,
    after: Seq<char>,
)
    requires
        !before.contains('5'),
        is_digit(a),
        is_digit(b),
    ensures
        status_code(before + seq!['5', a, b] + after) == Some(seq!['5', a, b]),
        status_code(before) is None,
{
    let s = before + seq!['5', a, b] + after;
    lemma_code_from(s, 0, before.len() as int);
    assert(s.subrange(before.len() as int, (before.len() + 3) as int) =~= seq!['5', a, b]);
    lemma_no_code(before, 0);
}

proof fn lemma_code_from(s: Seq<char>, i: int, n: int)
    requires
        0 <= i <= n,
        code_at(s, n),
        forall|k: int| 0 <= k < n ==> s[k] != '5',
    ensures
        status_code_from(s, i) == Some(s.subrange(n, n + 3)),
    decreases n - i,
{
    if i < n {
        lemma_code_from(s, i + 1, n);
    }
}

proof fn lemma_no_code(s: Seq<char>, i: int)
    requires
        0 <= i,
        !s.contains('5'),
    ensures
        status_code_from(s, i) is None,
    decreases s.len() - i,
{
    if i < s.len() {
        assert(s.contains(s[i]));
        lemma_no_code(s, i + 1);
    }
}

/// The message of a provider's answer is what its first field of that name
/// holds.
pub proof fn law_the_providers_message_is_found(
    before: Seq<char>,
    own: Seq<char>,
    after: Seq<char>,
)
    requires
        !before.contains('"'),
        !own.contains('"'),
        own.len() > 0,
        !is_white(own[0]),
        !is_white(own.last()),
    ensures
        provider_message(before + "\"message\":\""@ + own + seq!['"'] + after) == Some(own),
        provider_message(before) is None,
{
    reveal_strlit("\"message\":\"");
    let mark = "\"message\":\""@;
    let s = before + mark + own + seq!['"'] + after;
    let n = before.len() as int;
    assert(s.subrange(n, n + mark.len()) =~= mark);
    assert(occurs_at(mark, s, n));
    assert forall|k: int| 0 <= k < n implies !#[trigger] occurs_at(mark, s, k) by {
        if occurs_at(mark, s, k) {
            assert(s.subrange(k, k + mark.len())[0] == mark[0]);
            assert(before[k] == '"');
        }
    }
    lemma_first_at(mark, s, 0, n);
    let rest = own + seq!['"'] + after;
    assert(s.skip(n + mark.len()) =~= rest);
    assert forall|k: int| 0 <= k < own.len() implies rest[k] != '"' by {
        assert(own.contains(own[k]));
    }
    lemma_before_quote(rest, own.len() as int);
    assert(rest.take(own.len() as int) =~= own);
    lemma_trimmed(Seq::empty(), own, Seq::empty());
    assert(Seq::<char>::empty() + own + Seq::<char>::empty() =~= own);
    if occurs(mark, before) {
        let k = choose|k: int| occurs_at(mark, before, k);
        assert(before.subrange(k, k + mark.len())[0] == mark[0]);
        assert(before[k] == '"');
    }
}

/// The user is told the code, and the provider's own words where there are
/// any; without a code the user is told that the request failed.
pub proof fn law_failures_name_the_code(error: ErrorView)
    ensures
        status_code(error.text()) matches Some(code) ==> occurs(code, failure_text(error)),
        status_code(error.text()) is Some && provider_message(error.text()) is Some ==> occurs(
            provider_message(error.text())->0,
            failure_text(error),
        ),
        status_code(error.text()) is None ==> failure_text(error) == "provider 请求失败"@,
{
    let text = error.text();
    let said = failure_text(error);
    match status_code(text) {
        Some(code) => match provider_message(text) {
            Some(message) => {
                lemma_occur_in_turn("provider "@, code, "，"@, message);
            },
            None => {
                lemma_occurs_between("provider "@, code, "，上游请求失败"@);
            },
        },
        None => {},
    }
}

} // verus!
