//! Numbers in positional notation: how they are written and read.

use crate::text::{digit, is_digit};
use vstd::prelude::*;
use vstd::slice::slice_subrange;

verus! {

/// The lower case digit for a value below sixteen.
pub open spec fn digit_char(d: nat) -> char {
    if d < 10 {
        ('0' as int + d) as char
    } else {
        ('a' as int + d - 10) as char
    }
}

/// `n` written in the given base, without leading zeros.
pub open spec fn in_base(n: nat, base: nat) -> Seq<char>
    decreases n,
{
    if base < 2 || n < base {
        seq![digit_char(n)]
    } else {
        proof {
            assert(n / base < n) by (nonlinear_arith)
                requires
                    n >= base,
                    base >= 2,
            ;
        }
        in_base(n / base, base).push(digit_char(n % base))
    }
}

/// `n` in decimal notation.
pub open spec fn dec(n: nat) -> Seq<char> {
    in_base(n, 10)
}

/// `n` in lower case hexadecimal notation.
pub open spec fn hex(n: nat) -> Seq<char> {
    in_base(n, 16)
}

/// `n` in decimal notation, with a minus sign in front where it is negative.
pub open spec fn dec_int(n: int) -> Seq<char> {
    if n < 0 {
        seq!['-'] + dec((-n) as nat)
    } else {
        dec(n as nat)
    }
}

/// `s` with zeros in front of it up to the given width.
pub open spec fn zero_padded(s: Seq<char>, width: nat) -> Seq<char>
    decreases width - s.len(),
{
    if s.len() < width {
        zero_padded(seq!['0'] + s, width)
    } else {
        s
    }
}

/// The number whose decimal digits are `s`.
pub open spec fn nat_of(s: Seq<char>) -> nat
    decreases s.len(),
{
    if s.len() == 0 {
        0
    } else {
        nat_of(s.drop_last()) * 10 + (s.last() as nat - '0' as nat) as nat
    }
}

pub open spec fn all_digits(s: Seq<char>) -> bool {
    forall|i: int| 0 <= i < s.len() ==> is_digit(#[trigger] s[i])
}

/// `s` without a plus sign at its start.
pub open spec fn without_plus(s: Seq<char>) -> Seq<char> {
    if s.len() > 0 && s[0] == '+' {
        s.skip(1)
    } else {
        s
    }
}

/// The number that `s` denotes: decimal digits after an optional plus sign,
/// with a value of at most `max`.
pub open spec fn parsed(s: Seq<char>, max: nat) -> Option<nat> {
    let body = without_plus(s);
    if body.len() > 0 && all_digits(body) && nat_of(body) <= max {
        Some(nat_of(body))
    } else {
        None
    }
}

fn digit_of(d: u8) -> (r: char)
    requires
        d < 16,
    ensures
        r == digit_char(d as nat),
{
    if d < 10 {
        (48u8 + d) as char
    } else {
        (97u8 + (d - 10)) as char
    }
}

fn push_in_base(out: &mut String, n: u128, base: u128)
    requires
        2 <= base <= 16,
    ensures
        final(out)@ == old(out)@ + in_base(n as nat, base as nat),
    decreases n,
{
    if n < base {
        out.push(digit_of(n as u8));
    } else {
        assert(n / base < n) by (nonlinear_arith)
            requires
                n >= base,
                base >= 2,
        ;
        assert(n % base < base) by (nonlinear_arith)
            requires
                base >= 2,
        ;
        push_in_base(out, n / base, base);
        out.push(digit_of((n % base) as u8));
        assert(out@ =~= old(out)@ + in_base(n as nat, base as nat));
    }
}

/// Writes `n` in decimal notation.
pub fn decimal(n: u128) -> (r: String)
    ensures
        r@ == dec(n as nat),
{
    let mut out = String::new();
    push_in_base(&mut out, n, 10);
    assert(out@ =~= dec(n as nat));
    out
}

/// Writes a size in decimal notation.
pub fn decimal_usize(n: usize) -> (r: String)
    ensures
        r@ == dec(n as nat),
{
    decimal(n as u128)
}

/// Writes a signed number in decimal notation.
pub fn decimal_i64(n: i64) -> (r: String)
    ensures
        r@ == dec_int(n as int),
{
    if n < 0 {
        let mut out = String::new();
        out.push('-');
        assert(out@ =~= seq!['-']);
        let size: i128 = 0 - (n as i128);
        out.append(decimal(size as u128).as_str());
        out
    } else {
        decimal(n as u128)
    }
}

/// Writes `n` in hexadecimal notation.
pub fn hexadecimal(n: u128) -> (r: String)
    ensures
        r@ == hex(n as nat),
{
    let mut out = String::new();
    push_in_base(&mut out, n, 16);
    assert(out@ =~= hex(n as nat));
    out
}

/// Pads a number on the left with zeros.
pub fn pad_zeros(s: String, width: usize) -> (r: String)
    ensures
        r@ == zero_padded(s@, width as nat),
{
    let mut out = s;
    let mut n: usize = out.as_str().unicode_len();
    while n < width
        invariant
            n == out@.len(),
            zero_padded(s@, width as nat) == zero_padded(out@, width as nat),
        decreases width - n,
    {
        let mut next = String::new();
        next.push('0');
        assert(next@ =~= seq!['0']);
        next.append(out.as_str());
        out = next;
        n += 1;
    }
    out
}

proof fn lemma_nat_of_prefix(s: Seq<char>, i: int)
    requires
        0 <= i <= s.len(),
    ensures
        nat_of(s.take(i)) <= nat_of(s),
    decreases s.len(),
{
    if i == s.len() {
        assert(s.take(i) =~= s);
    } else {
        lemma_nat_of_prefix(s.drop_last(), i);
        assert(s.drop_last().take(i) =~= s.take(i));
    }
}

/// Reads an unsigned number of at most `max`.
pub fn parse_unsigned(s: &[char], max: u128) -> (r: Option<u128>)
    requires
        max <= u64::MAX,
    ensures
        match r {
            Some(n) => parsed(s@, max as nat) == Some(n as nat),
            None => parsed(s@, max as nat) is None,
        },
{
    let start: usize = if s.len() > 0 && s[0] == '+' {
        1
    } else {
        0
    };
    let ghost body = without_plus(s@);
    assert(body =~= s@.skip(start as int));
    if start == s.len() {
        return None;
    }
    let mut acc: u128 = 0;
    let mut i: usize = start;
    while i < s.len()
        invariant
            start <= i <= s@.len(),
            max <= u64::MAX,
            acc <= max,
            body == s@.skip(start as int),
            body == without_plus(s@),
            forall|k: int| 0 <= k < i - start ==> is_digit(#[trigger] body[k]),
            acc == nat_of(body.take(i - start)),
        decreases s@.len() - i,
    {
        let c = s[i];
        assert(body[i - start] == c);
        if !digit(c) {
            return None;
        }
        let d: u128 = (c as u32 - 48) as u128;
        assert(body.take(i - start + 1).drop_last() =~= body.take(i - start));
        acc = acc * 10 + d;
        assert(acc == nat_of(body.take(i - start + 1)));
        if acc > max {
            proof {
                lemma_nat_of_prefix(body, i - start + 1);
            }
            return None;
        }
        i += 1;
    }
    assert(body.take(body.len() as int) =~= body);
    Some(acc)
}

/// The integer that `s` denotes: decimal digits after an optional sign, with a
/// value of at least `min` and at most `max`.
pub open spec fn parsed_int(s: Seq<char>, min: int, max: int) -> Option<int> {
    if s.len() > 0 && s[0] == '-' {
        let body = s.skip(1);
        if body.len() > 0 && all_digits(body) && -nat_of(body) >= min {
            Some(-nat_of(body))
        } else {
            None
        }
    } else {
        match parsed(s, max as nat) {
            Some(n) => Some(n as int),
            None => None,
        }
    }
}

/// Reads a 64 bit integer.
pub fn parse_i64(s: &[char]) -> (r: Option<i64>)
    ensures
        match r {
            Some(n) => parsed_int(s@, i64::MIN as int, i64::MAX as int) == Some(n as int),
            None => parsed_int(s@, i64::MIN as int, i64::MAX as int) is None,
        },
{
    match parse_within(s, i64::MIN as i128, i64::MAX as i128) {
        Some(n) => Some(n as i64),
        None => None,
    }
}

/// Reads a 32 bit integer.
pub fn parse_i32(s: &[char]) -> (r: Option<i32>)
    ensures
        match r {
            Some(n) => parsed_int(s@, i32::MIN as int, i32::MAX as int) == Some(n as int),
            None => parsed_int(s@, i32::MIN as int, i32::MAX as int) is None,
        },
{
    match parse_within(s, i32::MIN as i128, i32::MAX as i128) {
        Some(n) => Some(n as i32),
        None => None,
    }
}

fn parse_within(s: &[char], min: i128, max: i128) -> (r: Option<i128>)
    requires
        i64::MIN <= min <= 0 <= max <= i64::MAX,
    ensures
        match r {
            Some(n) => parsed_int(s@, min as int, max as int) == Some(n as int) && min <= n <= max,
            None => parsed_int(s@, min as int, max as int) is None,
        },
{
    if s.len() > 0 && s[0] == '-' {
        let body = slice_subrange(s, 1, s.len());
        assert(body@ =~= s@.skip(1));
        if body.len() > 0 && body[0] == '+' {
            assert(!is_digit(body@[0]));
            return None;
        }
        assert(without_plus(body@) == body@);
        match parse_unsigned(body, (0 - min) as u128) {
            Some(n) => Some(0 - (n as i128)),
            None => None,
        }
    } else {
        match parse_unsigned(s, max as u128) {
            Some(n) => Some(n as i128),
            None => None,
        }
    }
}

proof fn lemma_dec_is_read_back(n: nat)
    ensures
        dec(n).len() > 0,
        all_digits(dec(n)),
        nat_of(dec(n)) == n,
    decreases n,
{
    if n < 10 {
        assert(dec(n) =~= seq![digit_char(n)]);
        assert(dec(n).drop_last() =~= Seq::<char>::empty());
        assert(nat_of(Seq::<char>::empty()) == 0);
        assert(nat_of(dec(n)) == nat_of(dec(n).drop_last()) * 10 + (dec(n).last() as nat - '0' as nat));
    } else {
        lemma_dec_is_read_back(n / 10);
        let front = dec(n / 10);
        assert(dec(n) == front.push(digit_char(n % 10)));
        assert(dec(n).drop_last() =~= front);
        assert(nat_of(dec(n)) == nat_of(front) * 10 + (dec(n).last() as nat - '0' as nat));
    }
}

/// Decimal notation consists of digits.
pub proof fn lemma_dec_digits(n: nat)
    ensures
        dec(n).len() > 0,
        all_digits(dec(n)),
{
    lemma_dec_is_read_back(n);
}

/// What is written in decimal notation is read back as the same number.
pub proof fn law_decimal_round_trip(n: nat, max: nat)
    requires
        n <= max,
    ensures
        parsed(dec(n), max) == Some(n),
{
    lemma_dec_is_read_back(n);
    assert(is_digit(dec(n)[0]));
    assert(without_plus(dec(n)) == dec(n));
}

/// A lower case hexadecimal digit.
pub open spec fn is_hex_digit(c: char) -> bool {
    is_digit(c) || 'a' <= c <= 'f'
}

pub proof fn lemma_hex_digits(n: nat, width: nat)
    requires
        n < vstd::arithmetic::power::pow(16, width),
        width > 0,
    ensures
        0 < hex(n).len() <= width,
        forall|i: int| 0 <= i < hex(n).len() ==> is_hex_digit(#[trigger] hex(n)[i]),
    decreases width,
{
    if n >= 16 {
        vstd::arithmetic::power::lemma_pow1(16);
        vstd::arithmetic::power::lemma_pow_adds(16, (width - 1) as nat, 1);
        lemma_hex_digits(n / 16, (width - 1) as nat);
        assert(hex(n) == hex(n / 16).push(digit_char(n % 16)));
    } else {
        assert(hex(n) =~= seq![digit_char(n)]);
    }
}

pub proof fn lemma_zero_padded(s: Seq<char>, width: nat)
    requires
        forall|i: int| 0 <= i < s.len() ==> is_hex_digit(#[trigger] s[i]),
    ensures
        zero_padded(s, width).len() == if s.len() < width {
            width
        } else {
            s.len()
        },
        forall|i: int|
            0 <= i < zero_padded(s, width).len() ==> is_hex_digit(#[trigger] zero_padded(s, width)[i]),
    decreases width - s.len(),
{
    if s.len() < width {
        let t = seq!['0'] + s;
        assert forall|i: int| 0 <= i < t.len() implies is_hex_digit(#[trigger] t[i]) by {
            if i > 0 {
                assert(t[i] == s[i - 1]);
            }
        }
        lemma_zero_padded(t, width);
    }
}

/// A signed number that is written in decimal notation is read back as the
/// same number.
pub proof fn law_signed_decimal_round_trip(n: int, min: int, max: int)
    requires
        min <= n <= max,
        max >= 0,
    ensures
        parsed_int(dec_int(n), min, max) == Some(n),
{
    if n < 0 {
        let body = dec((-n) as nat);
        lemma_dec_is_read_back((-n) as nat);
        assert(dec_int(n).skip(1) =~= body);
    } else {
        law_decimal_round_trip(n as nat, max as nat);
        lemma_dec_is_read_back(n as nat);
        assert(is_digit(dec(n as nat)[0]));
    }
}

proof fn lemma_in_base_is_injective(a: nat, b: nat, base: nat)
    requires
        2 <= base <= 16,
        in_base(a, base) == in_base(b, base),
    ensures
        a == b,
    decreases a,
{
    let s = in_base(a, base);
    let t = in_base(b, base);
    lemma_in_base_len(a, base);
    lemma_in_base_len(b, base);
    assert(s.last() == t.last());
    let da = a % base;
    let db = b % base;
    assert(s.last() == digit_char(da)) by {
        if a < base {
            vstd::arithmetic::div_mod::lemma_small_mod(a, base);
        }
    }
    assert(t.last() == digit_char(db)) by {
        if b < base {
            vstd::arithmetic::div_mod::lemma_small_mod(b, base);
        }
    }
    vstd::arithmetic::div_mod::lemma_mod_bound(a as int, base as int);
    vstd::arithmetic::div_mod::lemma_mod_bound(b as int, base as int);
    assert(da == db);
    vstd::arithmetic::div_mod::lemma_fundamental_div_mod(a as int, base as int);
    vstd::arithmetic::div_mod::lemma_fundamental_div_mod(b as int, base as int);
    if a < base {
        assert(s.len() == 1);
        vstd::arithmetic::div_mod::lemma_small_mod(a, base);
        vstd::arithmetic::div_mod::lemma_small_mod(b, base);
    } else {
        assert(a / base < a) by (nonlinear_arith)
            requires
                a >= base,
                base >= 2,
        ;
        assert(in_base(a / base, base) =~= s.drop_last());
        assert(in_base(b / base, base) =~= t.drop_last());
        lemma_in_base_is_injective(a / base, b / base, base);
    }
}

proof fn lemma_in_base_len(n: nat, base: nat)
    requires
        2 <= base,
    ensures
        in_base(n, base).len() > 0,
        in_base(n, base).len() == 1 <==> n < base,
    decreases n,
{
    if n >= base {
        assert(n / base < n) by (nonlinear_arith)
            requires
                n >= base,
                base >= 2,
        ;
        lemma_in_base_len(n / base, base);
    }
}

/// Different numbers are written differently.
pub proof fn law_numbers_are_told_apart(a: nat, b: nat)
    requires
        a != b,
    ensures
        dec(a) != dec(b),
        hex(a) != hex(b),
{
    if dec(a) == dec(b) {
        lemma_in_base_is_injective(a, b, 10);
    }
    if hex(a) == hex(b) {
        lemma_in_base_is_injective(a, b, 16);
    }
}

} // verus!
