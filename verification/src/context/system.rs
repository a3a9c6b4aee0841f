//! Texts that are read from bytes.

use crate::text::{blank, is_blank};
use vstd::prelude::*;
use vstd::slice::slice_subrange;
use vstd::utf8::{decode_utf8, valid_utf8};

verus! {

/// The text that bytes stand for; what is no UTF-8 is replaced.
pub uninterp spec fn utf8_text(bytes: Seq<u8>) -> Seq<char>;

/// `String::from_utf8_lossy`: the text that bytes stand for, with the
/// replacement character for what is no UTF-8. Where all is UTF-8, it is the
/// text that the bytes encode.
#[verifier::external_body]
fn lossy_text(bytes: &[u8]) -> (r: String)
    ensures
        r@ == utf8_text(bytes@),
        valid_utf8(bytes@) ==> r@ == decode_utf8(bytes@),
{
    String::from_utf8_lossy(bytes).to_string()
}

/// The text of a prompt, unless it is blank.
pub fn prompt_text(bytes: &[u8]) -> (r: Option<String>)
    ensures
        match r {
            Some(text) => text@ == utf8_text(bytes@) && !is_blank(text@),
            None => is_blank(utf8_text(bytes@)),
        },
        valid_utf8(bytes@) ==> utf8_text(bytes@) == decode_utf8(bytes@),
{
    let text = lossy_text(bytes);
    if blank(text.as_str()) {
        None
    } else {
        Some(text)
    }
}

/// The bytes of a file that are read.
pub open spec fn first_bytes(bytes: Seq<u8>, limit: nat) -> Seq<u8> {
    if bytes.len() > limit {
        bytes.take(limit as int)
    } else {
        bytes
    }
}

/// The text of a file up to a number of bytes, unless it is blank.
pub fn limited_text(bytes: &[u8], limit: usize) -> (r: Option<String>)
    ensures
        ({
            let text = utf8_text(first_bytes(bytes@, limit as nat));
            match r {
                Some(s) => s@ == text && !is_blank(text),
                None => is_blank(text),
            }
        }),
        ({
            let front = first_bytes(bytes@, limit as nat);
            valid_utf8(front) ==> utf8_text(front) == decode_utf8(front)
        }),
{
    if bytes.len() > limit {
        let front = slice_subrange(bytes, 0, limit);
        assert(front@ =~= bytes@.take(limit as int));
        prompt_text(front)
    } else {
        prompt_text(bytes)
    }
}

} // verus!
