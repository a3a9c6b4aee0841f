//! Identifiers that the daemon makes up: session ids and short reply hashes.

use crate::numbers::{
    hex, hexadecimal, is_hex_digit, law_numbers_are_told_apart, lemma_hex_digits,
    lemma_zero_padded, pad_zeros, zero_padded,
};
use std::time::{Duration, SystemTime, SystemTimeError, UNIX_EPOCH};
use vstd::prelude::*;

verus! {

/// A point in time of the system clock.
#[verifier::external_type_specification]
#[verifier::external_body]
pub struct ExSystemTime(SystemTime);

/// The error of a clock that stands before the epoch.
#[verifier::external_type_specification]
#[verifier::external_body]
pub struct ExSystemTimeError(SystemTimeError);

/// `SystemTime::now` reads the system clock; nothing is claimed of what it
/// shows.
pub assume_specification[ SystemTime::now ]() -> SystemTime
;

/// `SystemTime::duration_since` with the epoch: the time since then, or an error where
/// the clock stands before it. Nothing is claimed of the value.
#[verifier::external_body]
fn since_epoch(now: SystemTime) -> Result<Duration, SystemTimeError> {
    now.duration_since(UNIX_EPOCH)
}

/// The nanoseconds of a duration.
pub uninterp spec fn nanos_of(duration: Duration) -> nat;

/// `Duration::as_nanos` gives the nanoseconds of a duration.
pub assume_specification[ Duration::as_nanos ](duration: &Duration) -> (r: u128)
    ensures
        r == nanos_of(*duration),
;

/// `Duration::as_millis` gives the whole milliseconds of a duration.
pub assume_specification[ Duration::as_millis ](duration: &Duration) -> (r: u128)
    ensures
        r == nanos_of(*duration) / 1_000_000,
;

/// The text of a session id: the time and a sequence number, in hexadecimal.
pub open spec fn session_id_text(millis: nat, seq: nat) -> Seq<char> {
    "sess_"@ + hex(millis) + "_"@ + hex(seq)
}

/// The `count` lowest bytes of `n`, the lowest first.
pub open spec fn le_bytes(n: nat, count: nat) -> Seq<u8>
    decreases count,
{
    if count == 0 {
        Seq::empty()
    } else {
        seq![(n % 256) as u8] + le_bytes(n / 256, (count - 1) as nat)
    }
}

/// One step of the 64 bit FNV-1a hash.
pub open spec fn fnv_step(hash: u64, byte: u8) -> u64 {
    (hash ^ (byte as u64)).wrapping_mul(0x100000001b3)
}

/// The 64 bit FNV-1a hash of `bytes`, continued from `hash`.
pub open spec fn fnv(hash: u64, bytes: Seq<u8>) -> u64
    decreases bytes.len(),
{
    if bytes.len() == 0 {
        hash
    } else {
        fnv_step(fnv(hash, bytes.drop_last()), bytes.last())
    }
}

/// The reply hash: the lower half of the FNV-1a hash of the session key's
/// UTF-8 bytes and the sixteen bytes of the time, as eight hexadecimal digits.
pub open spec fn reply_hash(session_key: Seq<char>, nanos: nat) -> Seq<char> {
    let bytes = vstd::utf8::encode_utf8(session_key) + le_bytes(nanos, 16);
    let hash = fnv(0xcbf29ce484222325, bytes);
    zero_padded(hex((hash % 0x1_0000_0000) as nat), 8)
}

/// Writes the session id for a time and a sequence number.
pub fn session_id_from_parts(millis: u128, seq: u64) -> (r: String)
    ensures
        r@ == session_id_text(millis as nat, seq as nat),
{
    let mut out = String::from_str("sess_");
    out.append(hexadecimal(millis).as_str());
    out.append("_");
    out.append(hexadecimal(seq as u128).as_str());
    out
}

/// Makes a session id from the milliseconds of the system clock and the
/// caller's sequence number, which tells ids of the same millisecond apart. A
/// clock that stands before the epoch counts as zero.
pub fn new_session_id(seq: u64) -> (r: String)
    ensures
        r@ == session_id_text(0, seq as nat) || exists|since: Duration|
            r@ == session_id_text(#[trigger] nanos_of(since) / 1_000_000, seq as nat),
{
    let millis: u128 = match since_epoch(SystemTime::now()) {
        Ok(duration) => duration.as_millis(),
        Err(_) => 0,
    };
    session_id_from_parts(millis, seq)
}

/// Makes the short hash that marks one reply of a session, from the nanoseconds
/// of the system clock; one that stands before the epoch counts as zero.
pub fn new_reply_hash(session_key: &str) -> (r: String)
    ensures
        r@ == reply_hash(session_key@, 0) || exists|since: Duration|
            r@ == reply_hash(session_key@, #[trigger] nanos_of(since)),
{
    let nanos: u128 = match since_epoch(SystemTime::now()) {
        Ok(duration) => duration.as_nanos(),
        Err(_) => 0,
    };
    reply_hash_from_parts(session_key, nanos)
}

/// Computes the reply hash of a session key and a time.
pub fn reply_hash_from_parts(session_key: &str, nanos: u128) -> (r: String)
    ensures
        r@ == reply_hash(session_key@, nanos as nat),
{
    let key = session_key.as_bytes();
    let ghost all = key@ + le_bytes(nanos as nat, 16);
    proof {
        lemma_le_bytes_len(nanos as nat, 16);
    }
    let mut hash: u64 = 0xcbf29ce484222325;
    let mut i: usize = 0;
    while i < key.len()
        invariant
            i <= key@.len(),
            all == key@ + le_bytes(nanos as nat, 16),
            all.len() == key@.len() + 16,
            hash == fnv(0xcbf29ce484222325, all.take(i as int)),
        decreases key@.len() - i,
    {
        assert(all.take(i + 1).drop_last() =~= all.take(i as int));
        hash = (hash ^ (key[i] as u64)).wrapping_mul(0x100000001b3);
        i += 1;
    }
    let mut rest: u128 = nanos;
    let mut count: usize = 0;
    assert(all.skip(key@.len() as int) =~= le_bytes(nanos as nat, 16));
    while count < 16
        invariant
            count <= 16,
            all.len() == key@.len() + 16,
            all.skip(key@.len() + count) == le_bytes(rest as nat, (16 - count) as nat),
            hash == fnv(0xcbf29ce484222325, all.take(key@.len() + count)),
        decreases 16 - count,
    {
        let byte: u8 = (rest % 256) as u8;
        let ghost at = key@.len() + count;
        assert(all[at as int] == all.skip(at as int)[0]);
        assert(all[at as int] == byte);
        assert(all.take(at + 1).drop_last() =~= all.take(at as int));
        assert(all.skip(at as int).skip(1) =~= all.skip(at + 1));
        assert(le_bytes(rest as nat, (16 - count) as nat).skip(1) =~= le_bytes(
            rest as nat / 256,
            (16 - count - 1) as nat,
        ));
        hash = (hash ^ (byte as u64)).wrapping_mul(0x100000001b3);
        rest = rest / 256;
        count += 1;
    }
    assert(all.take((key@.len() + 16) as int) =~= all);
    pad_zeros(hexadecimal((hash % 0x1_0000_0000) as u128), 8)
}

/// The hyphenated form of a random UUID: hexadecimal digits in groups of
/// eight, four, four, four and twelve, the third group of which starts with
/// the version.
pub open spec fn is_random_uuid(s: Seq<char>) -> bool {
    &&& s.len() == 36
    &&& s[14] == '4'
    &&& forall|i: int|
        0 <= i < 36 ==> if i == 8 || i == 13 || i == 18 || i == 23 {
            #[trigger] s[i] == '-'
        } else {
            is_hex_digit(s[i])
        }
}

/// The simple form of a random UUID: thirty-two hexadecimal digits, the
/// thirteenth of which is the version.
pub open spec fn is_simple_uuid(s: Seq<char>) -> bool {
    &&& s.len() == 32
    &&& s[12] == '4'
    &&& forall|i: int| 0 <= i < 32 ==> is_hex_digit(#[trigger] s[i])
}

/// `uuid::Uuid::new_v4`, displayed: a random UUID in its hyphenated form.
#[verifier::external_body]
fn random_uuid() -> (r: String)
    ensures
        is_random_uuid(r@),
{
    uuid::Uuid::new_v4().to_string()
}

/// `uuid::Uuid::new_v4`, displayed by `simple`: a random UUID without hyphens.
#[verifier::external_body]
fn random_simple_uuid() -> (r: String)
    ensures
        is_simple_uuid(r@),
{
    uuid::Uuid::new_v4().simple().to_string()
}

/// Makes an id that marks one message to a platform.
pub fn new_message_uuid() -> (r: String)
    ensures
        is_random_uuid(r@),
{
    random_uuid()
}

/// Makes an id for questions to a user.
pub fn new_request_id() -> (r: String)
    ensures
        is_simple_uuid(r@),
{
    random_simple_uuid()
}

proof fn lemma_le_bytes_len(n: nat, count: nat)
    ensures
        le_bytes(n, count).len() == count,
    decreases count,
{
    if count > 0 {
        lemma_le_bytes_len(n / 256, (count - 1) as nat);
    }
}

/// A reply hash is always eight lower case hexadecimal digits.
pub proof fn law_reply_hash_is_eight_hex_digits(session_key: Seq<char>, nanos: nat)
    ensures
        reply_hash(session_key, nanos).len() == 8,
        forall|i: int| 0 <= i < 8 ==> is_hex_digit(#[trigger] reply_hash(session_key, nanos)[i]),
{
    let bytes = vstd::utf8::encode_utf8(session_key) + le_bytes(nanos, 16);
    let low = (fnv(0xcbf29ce484222325, bytes) % 0x1_0000_0000) as nat;
    assert(vstd::arithmetic::power::pow(16, 8) == 0x1_0000_0000) by {
        reveal_with_fuel(vstd::arithmetic::power::pow, 9);
    }
    lemma_hex_digits(low, 8);
    lemma_zero_padded(hex(low), 8);
}

/// Sessions that start at the same time have different ids, and every id says
/// that it is one of a session.
pub proof fn law_session_ids_are_told_apart(millis: nat, a: nat, b: nat)
    requires
        a != b,
    ensures
        session_id_text(millis, a) != session_id_text(millis, b),
        seq!['s', 'e', 's', 's', '_'].is_prefix_of(session_id_text(millis, a)),
{
    reveal_strlit("sess_");
    law_numbers_are_told_apart(a, b);
    let head = "sess_"@ + hex(millis) + "_"@;
    let x = session_id_text(millis, a);
    let y = session_id_text(millis, b);
    assert(x.skip(head.len() as int) =~= hex(a));
    assert(y.skip(head.len() as int) =~= hex(b));
    assert(x.subrange(0, 5) =~= seq!['s', 'e', 's', 's', '_']);
}

/// The bytes of a number stand for it: the first is its lowest part.
pub proof fn law_bytes_stand_for_their_number(n: nat, count: nat)
    requires
        count > 0,
    ensures
        le_bytes(n, count).len() == count,
        le_bytes(n, count)[0] == n % 256,
        le_bytes(n, count).skip(1) == le_bytes(n / 256, (count - 1) as nat),
{
    lemma_le_bytes_len(n, count);
    lemma_le_bytes_len(n / 256, (count - 1) as nat);
    assert(le_bytes(n, count).skip(1) =~= le_bytes(n / 256, (count - 1) as nat));
}

} // verus!
