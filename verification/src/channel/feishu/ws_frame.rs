//! The frames of the Feishu WebSocket.

use crate::error::{AppError, AppResult, ErrorView};
use crate::json::{fields, text_of, Fields, Json, Tree};
use crate::numbers::{
    dec, dec_int, decimal_i64, law_signed_decimal_round_trip, lemma_dec_digits, parse_i32,
    parse_unsigned, parsed, parsed_int,
};
use crate::text::{
    chars_of, is_digit, join, lemma_split_of_join, same_chars, same_text, split_chars, split_on,
    views,
};
use vstd::prelude::*;
use vstd::slice::slice_subrange;

verus! {

/// A header of a frame.
#[derive(Debug, PartialEq, Eq)]
pub struct FeishuHeader {
    /// The name.
    pub key: String,
    /// The value.
    pub value: String,
}

/// A frame.
#[derive(Debug, PartialEq, Eq)]
pub struct FeishuFrame {
    /// The sequence id.
    pub seq_id: u64,
    /// The log id.
    pub log_id: u64,
    /// The service id.
    pub service: i32,
    /// The type of the frame: 0 is control, 1 is data.
    pub method: i32,
    /// The headers.
    pub headers: Vec<FeishuHeader>,
    /// The encoding of the payload.
    pub payload_encoding: String,
    /// The type of the payload.
    pub payload_type: String,
    /// The payload.
    pub payload: Vec<u8>,
    /// The log id in its newer form.
    pub log_id_new: String,
}

/// What is done with a received frame.
#[derive(Debug, Clone, Copy, PartialEq, Eq, Structural)]
pub enum FrameStep {
    /// Nothing.
    Ignore,
    /// The frame goes back as it is.
    Echo,
    /// The payload is an event.
    Event,
}

/// The value of the first header with the given name.
pub open spec fn header_of(headers: Seq<FeishuHeader>, key: Seq<char>) -> Option<Seq<char>>
    decreases headers.len(),
{
    if headers.len() == 0 {
        None
    } else if headers[0].key@ == key {
        Some(headers[0].value@)
    } else {
        header_of(headers.skip(1), key)
    }
}

/// The number in a header, or the given one where there is none.
pub open spec fn header_number(headers: Seq<FeishuHeader>, key: Seq<char>, other: nat) -> nat {
    match header_of(headers, key) {
        Some(value) => match parsed(value, usize::MAX as nat) {
            Some(n) => n,
            None => other,
        },
        None => other,
    }
}

/// Whether a frame carries only a part of a payload.
pub open spec fn is_split(frame: FeishuFrame) -> bool {
    header_number(frame.headers@, "sum"@, 1) > 1 || header_number(frame.headers@, "seq"@, 0) > 0
}

/// What is done with a frame; `None` where it cannot be handled.
pub open spec fn step_of(frame: FeishuFrame) -> Option<FrameStep> {
    let kind = header_of(frame.headers@, "type"@);
    if frame.method == 0 {
        if kind == Some("pong"@) {
            Some(FrameStep::Echo)
        } else {
            Some(FrameStep::Ignore)
        }
    } else if frame.method != 1 || kind != Some("event"@) {
        Some(FrameStep::Ignore)
    } else if is_split(frame) {
        None
    } else {
        Some(FrameStep::Event)
    }
}

/// The value of the first header with the given name.
pub fn header_value<'a>(headers: &'a Vec<FeishuHeader>, key: &str) -> (r: Option<&'a str>)
    ensures
        crate::text::opt_str(r) == header_of(headers@, key@),
{
    let ghost all = headers@;
    let mut i: usize = 0;
    assert(all.skip(0) =~= all);
    while i < headers.len()
        invariant
            i <= headers@.len(),
            all == headers@,
            header_of(all, key@) == header_of(all.skip(i as int), key@),
        decreases headers@.len() - i,
    {
        assert(all.skip(i as int)[0] == all[i as int]);
        if same_text(headers[i].key.as_str(), key) {
            return Some(headers[i].value.as_str());
        }
        assert(all.skip(i as int).skip(1) =~= all.skip(i + 1));
        i += 1;
    }
    None
}

fn number_in_header(headers: &Vec<FeishuHeader>, key: &str, other: usize) -> (r: usize)
    ensures
        r == header_number(headers@, key@, other as nat),
{
    match header_value(headers, key) {
        Some(value) => {
            let cs = chars_of(value);
            match parse_unsigned(&cs, usize::MAX as u128) {
                Some(n) => n as usize,
                None => other,
            }
        },
        None => other,
    }
}

fn is_header(headers: &Vec<FeishuHeader>, key: &str, value: &str) -> (r: bool)
    ensures
        r == (header_of(headers@, key@) == Some(value@)),
{
    match header_value(headers, key) {
        Some(found) => same_text(found, value),
        None => false,
    }
}

/// Decides what is done with a received frame.
pub fn frame_step(frame: &FeishuFrame) -> (r: AppResult<FrameStep>)
    ensures
        match r {
            Ok(step) => step_of(*frame) == Some(step),
            Err(e) => step_of(*frame) is None && e@ == ErrorView::Channel(
                "feishu split websocket frame is not supported yet"@,
            ),
        },
{
    if frame.method == 0 {
        return if is_header(&frame.headers, "type", "pong") {
            Ok(FrameStep::Echo)
        } else {
            Ok(FrameStep::Ignore)
        };
    }
    if frame.method != 1 || !is_header(&frame.headers, "type", "event") {
        return Ok(FrameStep::Ignore);
    }
    let sum: usize = number_in_header(&frame.headers, "sum", 1);
    let seq: usize = number_in_header(&frame.headers, "seq", 0);
    if sum > 1 || seq > 0 {
        return Err(AppError::channel("feishu split websocket frame is not supported yet"));
    }
    Ok(FrameStep::Event)
}

/// The frame that keeps the connection alive.
pub fn ping_frame(service_id: i32) -> (r: FeishuFrame)
    ensures
        r.method == 0,
        r.service == service_id,
        r.headers@.len() == 1,
        r.headers@[0].key@ == "type"@,
        r.headers@[0].value@ == "ping"@,
        r.seq_id == 0,
        r.log_id == 0,
        r.payload@.len() == 0,
        r.payload_encoding@.len() == 0,
        r.payload_type@.len() == 0,
        r.log_id_new@.len() == 0,
{
    let mut headers: Vec<FeishuHeader> = Vec::new();
    headers.push(FeishuHeader { key: String::from_str("type"), value: String::from_str("ping") });
    FeishuFrame {
        seq_id: 0,
        log_id: 0,
        service: service_id,
        method: 0,
        headers,
        payload_encoding: String::new(),
        payload_type: String::new(),
        payload: Vec::new(),
        log_id_new: String::new(),
    }
}

/// What an acknowledgement says.
pub open spec fn ack_tree(code: int) -> Tree {
    fields().with("code"@, Tree::Number(dec_int(code))).with("headers"@, fields().tree()).with(
        "data"@,
        Tree::List(Seq::empty()),
    ).tree()
}

/// What an acknowledgement says.
pub fn ack_payload(code: i32) -> (r: Json)
    ensures
        r@ == ack_tree(code as int),
{
    let none: Vec<Json> = Vec::new();
    assert(crate::json::trees(none@) =~= Seq::empty());
    Fields::new().with("code", Json::Number(decimal_i64(code as i64))).with(
        "headers",
        Fields::new().object(),
    ).with("data", Json::list(none)).object()
}

/// The frame that acknowledges a received one: the same with another payload.
pub fn response_frame(frame: FeishuFrame, code: i32) -> (r: FeishuFrame)
    ensures
        r == (FeishuFrame { payload: r.payload, ..frame }),
        r.payload@ == vstd::utf8::encode_utf8(text_of(ack_tree(code as int))),
{
    let text = ack_payload(code).render();
    let bytes = text.as_str().as_bytes();
    let mut payload: Vec<u8> = Vec::new();
    let mut i: usize = 0;
    while i < bytes.len()
        invariant
            i <= bytes@.len(),
            payload@ == bytes@.take(i as int),
        decreases bytes@.len() - i,
    {
        payload.push(bytes[i]);
        i += 1;
        assert(payload@ =~= bytes@.take(i as int));
    }
    assert(bytes@.take(i as int) =~= bytes@);
    let mut r = frame;
    r.payload = payload;
    r
}

/// The service id in the parts of a query; the first part that holds a number
/// under that name counts.
pub open spec fn service_in(pairs: Seq<Seq<char>>) -> Option<int>
    decreases pairs.len(),
{
    if pairs.len() == 0 {
        None
    } else {
        match service_value(pairs[0]) {
            Some(n) => Some(n),
            None => service_in(pairs.skip(1)),
        }
    }
}

/// The service id in one part of a query.
pub open spec fn service_value(pair: Seq<char>) -> Option<int> {
    let parts = split_on(pair, '=');
    if parts.len() >= 2 && parts[0] == "service_id"@ {
        parsed_int(pair.skip(parts[0].len() as int + 1), i32::MIN as int, i32::MAX as int)
    } else {
        None
    }
}

/// The service id that the address of a WebSocket names.
pub open spec fn service_id_of(endpoint: Seq<char>) -> Option<int> {
    let parts = split_on(endpoint, '?');
    if parts.len() >= 2 {
        service_in(split_on(parts[1], '&'))
    } else {
        None
    }
}

fn service_id_in_pair(pair: &Vec<char>) -> (r: Option<i32>)
    ensures
        match r {
            Some(n) => service_value(pair@) == Some(n as int),
            None => service_value(pair@) is None,
        },
{
    let parts = split_chars(pair, '=');
    let ghost all = split_on(pair@, '=');
    assert(parts@.len() == views(parts@).len());
    if parts.len() < 2 {
        return None;
    }
    let name = chars_of("service_id");
    assert(all[0] == parts@[0]@);
    if !same_chars(&parts[0], &name) {
        return None;
    }
    proof {
        lemma_first_part(pair@, '=');
    }
    let total: usize = pair.len();
    assert(parts@[0]@.len() < total);
    let rest = slice_subrange(pair, parts[0].len() + 1, total);
    assert(rest@ =~= pair@.skip(all[0].len() as int + 1));
    parse_i32(rest)
}

/// The first part of a split is what stands before the first separator.
proof fn lemma_first_part(s: Seq<char>, c: char)
    ensures
        split_on(s, c).len() > 0,
        split_on(s, c)[0].len() <= s.len(),
        split_on(s, c).len() >= 2 ==> split_on(s, c)[0].len() < s.len(),
    decreases s.len(),
{
    if s.len() > 0 {
        lemma_first_part(s.drop_last(), c);
    }
}

/// Reads the service id from the address of a WebSocket.
pub fn parse_service_id(endpoint: &str) -> (r: Option<i32>)
    ensures
        match r {
            Some(n) => service_id_of(endpoint@) == Some(n as int),
            None => service_id_of(endpoint@) is None,
        },
{
    let cs = chars_of(endpoint);
    let parts = split_chars(&cs, '?');
    assert(parts@.len() == views(parts@).len());
    if parts.len() < 2 {
        return None;
    }
    assert(split_on(endpoint@, '?')[1] == parts@[1]@);
    let pairs = split_chars(&parts[1], '&');
    let ghost all = views(pairs@);
    let mut i: usize = 0;
    assert(all.skip(0) =~= all);
    while i < pairs.len()
        invariant
            i <= pairs@.len(),
            all == views(pairs@),
            service_id_of(endpoint@) == service_in(all),
            service_in(all) == service_in(all.skip(i as int)),
        decreases pairs@.len() - i,
    {
        assert(all.skip(i as int)[0] == pairs@[i as int]@);
        if let Some(n) = service_id_in_pair(&pairs[i]) {
            return Some(n);
        }
        assert(all.skip(i as int).skip(1) =~= all.skip(i + 1));
        i += 1;
    }
    None
}

/// The first header of a name counts, and headers of other names do not.
pub proof fn law_the_first_header_counts(
    header: FeishuHeader,
    rest: Seq<FeishuHeader>,
    key: Seq<char>,
)
    ensures
        header.key@ == key ==> header_of(seq![header] + rest, key) == Some(header.value@),
        header.key@ != key ==> header_of(seq![header] + rest, key) == header_of(rest, key),
        header_of(Seq::empty(), key) is None,
{
    let all = seq![header] + rest;
    assert(all.skip(1) =~= rest);
}

/// Events that come in one frame are handled, the answer to a ping is taken
/// note of, and an event that comes in several frames is refused.
pub proof fn law_whole_events_are_handled(frame: FeishuFrame)
    ensures
        frame.method == 1 && header_of(frame.headers@, "type"@) == Some("event"@) && header_of(
            frame.headers@,
            "sum"@,
        ) is None && header_of(frame.headers@, "seq"@) is None ==> step_of(frame) == Some(
            FrameStep::Event,
        ),
        frame.method == 1 && header_of(frame.headers@, "type"@) == Some("event"@)
            && header_number(frame.headers@, "sum"@, 1) > 1 ==> step_of(frame) is None,
        frame.method == 1 && header_of(frame.headers@, "type"@) == Some("event"@)
            && header_number(frame.headers@, "seq"@, 0) > 0 ==> step_of(frame) is None,
        frame.method == 0 && header_of(frame.headers@, "type"@) == Some("pong"@) ==> step_of(frame)
            == Some(FrameStep::Echo),
        frame.method != 0 && frame.method != 1 ==> step_of(frame) == Some(FrameStep::Ignore),
        header_of(frame.headers@, "type"@) is None ==> step_of(frame) == Some(FrameStep::Ignore),
{
}

/// The service id is found among the parts of a query, whatever stands behind
/// it, and whatever stands before it without a value.
pub proof fn law_the_service_id_is_found(
    before: Seq<Seq<char>>,
    n: int,
    after: Seq<Seq<char>>,
)
    requires
        i32::MIN <= n <= i32::MAX,
        forall|i: int| 0 <= i < before.len() ==> !(#[trigger] before[i]).contains('='),
    ensures
        service_in(before + seq!["service_id="@ + dec_int(n)] + after) == Some(n),
{
    let own = "service_id="@ + dec_int(n);
    lemma_own_pair(n);
    lemma_pairs_before(before, seq![own] + after);
    assert(before + seq![own] + after =~= before + (seq![own] + after));
    assert((seq![own] + after)[0] == own);
}

proof fn lemma_own_pair(n: int)
    requires
        i32::MIN <= n <= i32::MAX,
    ensures
        service_value("service_id="@ + dec_int(n)) == Some(n),
{
    reveal_strlit("service_id=");
    reveal_strlit("service_id");
    let digits = dec_int(n);
    let own = "service_id="@ + digits;
    let parts = seq!["service_id"@, digits];
    assert(!"service_id"@.contains('='));
    lemma_number_has_no_sign(n);
    assert forall|i: int| 0 <= i < parts.len() implies !(#[trigger] parts[i]).contains('=') by {
        if i == 1 {
            assert(parts[1] == digits);
        }
    }
    lemma_split_of_join(parts, '=');
    assert(parts.drop_last() =~= seq!["service_id"@]);
    reveal_with_fuel(join, 2);
    assert(own =~= join(parts, seq!['=']));
    assert(own.skip(11) =~= digits);
    law_signed_decimal_round_trip(n, i32::MIN as int, i32::MAX as int);
}

proof fn lemma_number_has_no_sign(n: int)
    ensures
        !dec_int(n).contains('='),
{
    let s = dec_int(n);
    if n < 0 {
        lemma_dec_digits((-n) as nat);
    } else {
        lemma_dec_digits(n as nat);
    }
    if s.contains('=') {
        let k = choose|k: int| 0 <= k < s.len() && s[k] == '=';
        if n < 0 {
            assert(k > 0);
            assert(dec((-n) as nat)[k - 1] == '=');
            assert(is_digit(dec((-n) as nat)[k - 1]));
        } else {
            assert(is_digit(dec(n as nat)[k]));
        }
    }
}

proof fn lemma_pairs_before(before: Seq<Seq<char>>, rest: Seq<Seq<char>>)
    requires
        forall|i: int| 0 <= i < before.len() ==> !(#[trigger] before[i]).contains('='),
    ensures
        service_in(before + rest) == service_in(rest),
    decreases before.len(),
{
    if before.len() == 0 {
        assert(before + rest =~= rest);
    } else {
        let tail = before.skip(1);
        assert forall|i: int| 0 <= i < tail.len() implies !(#[trigger] tail[i]).contains('=') by {
            assert(tail[i] == before[i + 1]);
        }
        lemma_pairs_before(tail, rest);
        assert((before + rest).skip(1) =~= tail + rest);
        assert((before + rest)[0] == before[0]);
        lemma_unsplit(before[0], '=');
    }
}

proof fn lemma_unsplit(s: Seq<char>, c: char)
    requires
        !s.contains(c),
    ensures
        split_on(s, c).len() == 1,
    decreases s.len(),
{
    if s.len() > 0 {
        let front = s.drop_last();
        if front.contains(c) {
            let k = choose|k: int| 0 <= k < front.len() && front[k] == c;
            assert(s[k] == c);
        }
        assert(s.contains(s.last()));
        lemma_unsplit(front, c);
    }
}

/// Without a query an address names no service.
pub proof fn law_addresses_without_a_query_name_no_service(endpoint: Seq<char>)
    requires
        !endpoint.contains('?'),
    ensures
        service_id_of(endpoint) is None,
{
    lemma_unsplit(endpoint, '?');
}

/// The query of an address is what stands behind its question mark, and its
/// parts stand between ampersands.
pub proof fn law_the_query_stands_behind_the_question_mark(
    host: Seq<char>,
    pairs: Seq<Seq<char>>,
)
    requires
        !host.contains('?'),
        pairs.len() > 0,
        forall|i: int| 0 <= i < pairs.len() ==> !(#[trigger] pairs[i]).contains('&'),
        !join(pairs, seq!['&']).contains('?'),
    ensures
        service_id_of(host + seq!['?'] + join(pairs, seq!['&'])) == service_in(pairs),
{
    let query = join(pairs, seq!['&']);
    let parts = seq![host, query];
    assert forall|i: int| 0 <= i < parts.len() implies !(#[trigger] parts[i]).contains('?') by {
        if i == 1 {
            assert(parts[1] == query);
        }
    }
    lemma_split_of_join(parts, '?');
    lemma_split_of_join(pairs, '&');
    assert(parts.drop_last() =~= seq![host]);
    reveal_with_fuel(join, 2);
    assert(host + seq!['?'] + query =~= join(parts, seq!['?']));
}

} // verus!
