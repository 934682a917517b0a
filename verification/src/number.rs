//! Reading numbers out of tokens.
//!
//! Two notations are read: an unsigned integer, and a signed decimal, of
//! which either the whole part or the value in thousandths is handed out.
//! A decimal is written with digits and at most one point: an exponent or a
//! word such as `inf` makes a token that is no number here. Digits are the
//! ASCII digits; nothing else counts as one.

use crate::error::SampleError;
use vstd::prelude::*;

verus! {

/// The byte `0`.
pub const ZERO: u8 = 48;

/// The byte `9`.
pub const NINE: u8 = 57;

/// The byte `+`.
pub const PLUS: u8 = 43;

/// The byte `-`.
pub const MINUS: u8 = 45;

/// The byte `.`.
pub const POINT: u8 = 46;

/// Whether `byte` is one of `0` to `9`.
pub open spec fn is_digit(byte: u8) -> bool {
    ZERO <= byte <= NINE
}

/// Whether `s` holds digits only. The empty string does.
pub open spec fn all_digits(s: Seq<u8>) -> bool {
    forall|i: int| 0 <= i < s.len() ==> is_digit(#[trigger] s[i])
}

/// The number that a string of digits denotes in base ten; 0 for the empty
/// string.
pub open spec fn digits_value(s: Seq<u8>) -> nat
    decreases s.len(),
{
    if s.len() == 0 {
        0
    } else {
        (digits_value(s.drop_last()) * 10 + (s.last() - ZERO)) as nat
    }
}

/// The shortest decimal notation of `n`.
pub open spec fn spec_decimal(n: nat) -> Seq<u8>
    decreases n,
{
    if n < 10 {
        seq![(ZERO + n) as u8]
    } else {
        spec_decimal(n / 10).push((ZERO + n % 10) as u8)
    }
}

/// `s` without one leading `+`.
pub open spec fn spec_strip_plus(s: Seq<u8>) -> Seq<u8> {
    if s.len() > 0 && s[0] == PLUS {
        s.skip(1)
    } else {
        s
    }
}

/// Whether `s` starts with `-`.
pub open spec fn spec_negative(s: Seq<u8>) -> bool {
    s.len() > 0 && s[0] == MINUS
}

/// `s` without one leading `+` or `-`.
pub open spec fn spec_strip_sign(s: Seq<u8>) -> Seq<u8> {
    if s.len() > 0 && (s[0] == PLUS || s[0] == MINUS) {
        s.skip(1)
    } else {
        s
    }
}

/// The unsigned integer that `s` denotes: an optional `+`, then one digit
/// or more, with a value that fits in 64 bits.
pub open spec fn spec_parse_u64(s: Seq<u8>) -> Result<u64, SampleError> {
    let digits = spec_strip_plus(s);
    if digits.len() > 0 && all_digits(digits) && digits_value(digits) <= u64::MAX {
        Ok(digits_value(digits) as u64)
    } else {
        Err(SampleError::ParseError)
    }
}

/// The position of the first `.` in `s`, or the length of `s` where there
/// is none.
pub open spec fn spec_point_index(s: Seq<u8>) -> int
    decreases s.len(),
{
    if s.len() == 0 {
        0
    } else if s[0] == POINT {
        0
    } else {
        1 + spec_point_index(s.drop_first())
    }
}

/// The digits before the first `.` of an unsigned decimal.
pub open spec fn spec_whole_part(body: Seq<u8>) -> Seq<u8> {
    body.take(spec_point_index(body))
}

/// The digits behind the first `.` of an unsigned decimal; none where it
/// has no `.`.
pub open spec fn spec_fraction_part(body: Seq<u8>) -> Seq<u8> {
    if spec_point_index(body) < body.len() {
        body.skip(spec_point_index(body) + 1)
    } else {
        Seq::<u8>::empty()
    }
}

/// The digit of `fraction` at `place`, and 0 behind its end.
pub open spec fn spec_fraction_digit(fraction: Seq<u8>, place: int) -> int {
    if 0 <= place < fraction.len() {
        fraction[place] - ZERO
    } else {
        0
    }
}

/// The first three places of a fraction, in thousandths. Further places are
/// cut off.
pub open spec fn spec_fraction_thousandths(fraction: Seq<u8>) -> int {
    spec_fraction_digit(fraction, 0) * 100 + spec_fraction_digit(fraction, 1) * 10
        + spec_fraction_digit(fraction, 2)
}

/// Whether `body` is an unsigned decimal: digits, optionally a `.` and more
/// digits, with a digit on at least one side.
pub open spec fn spec_decimal_shape(body: Seq<u8>) -> bool {
    &&& all_digits(spec_whole_part(body))
    &&& all_digits(spec_fraction_part(body))
    &&& spec_whole_part(body).len() + spec_fraction_part(body).len() > 0
}

/// The magnitude of an unsigned decimal in thousandths, places beyond the
/// third cut off.
pub open spec fn spec_decimal_thousandths(body: Seq<u8>) -> int {
    digits_value(spec_whole_part(body)) * 1000 + spec_fraction_thousandths(
        spec_fraction_part(body),
    )
}

/// The decimal that `s` denotes, in thousandths: an optional sign and an
/// unsigned decimal whose magnitude in thousandths is at most `i64::MAX`.
pub open spec fn spec_parse_thousandths(s: Seq<u8>) -> Result<i64, SampleError> {
    let body = spec_strip_sign(s);
    if spec_decimal_shape(body) && spec_decimal_thousandths(body) <= i64::MAX {
        if spec_negative(s) {
            Ok((-spec_decimal_thousandths(body)) as i64)
        } else {
            Ok(spec_decimal_thousandths(body) as i64)
        }
    } else {
        Err(SampleError::ParseError)
    }
}

/// The whole part of the decimal that `s` denotes: an optional sign and an
/// unsigned decimal with a whole part of at most `i64::MAX`. The places
/// behind the point are cut off.
pub open spec fn spec_parse_whole(s: Seq<u8>) -> Result<i64, SampleError> {
    let body = spec_strip_sign(s);
    if spec_decimal_shape(body) && digits_value(spec_whole_part(body)) <= i64::MAX {
        if spec_negative(s) {
            Ok((-(digits_value(spec_whole_part(body)) as int)) as i64)
        } else {
            Ok(digits_value(spec_whole_part(body)) as i64)
        }
    } else {
        Err(SampleError::ParseError)
    }
}

/// A string of digits is worth at least as much as any of its beginnings.
pub proof fn lemma_digits_value_grows(s: Seq<u8>, n: int)
    requires
        all_digits(s),
        0 <= n <= s.len(),
    ensures
        digits_value(s.take(n)) <= digits_value(s),
    decreases s.len(),
{
    if n == s.len() {
        assert(s.take(n) =~= s);
    } else {
        let shorter = s.drop_last();
        assert(is_digit(s[s.len() - 1]));
        assert forall|i: int| 0 <= i < shorter.len() implies is_digit(#[trigger] shorter[i]) by {
            assert(shorter[i] == s[i]);
        }
        lemma_digits_value_grows(shorter, n);
        assert(shorter.take(n) =~= s.take(n));
    }
}

/// Whether `text[from..to]` holds digits only.
pub fn digits_only(text: &[u8], from: usize, to: usize) -> (yes: bool)
    requires
        from <= to <= text.len(),
    ensures
        yes == all_digits(text@.subrange(from as int, to as int)),
{
    let ghost run = text@.subrange(from as int, to as int);
    let mut i: usize = from;
    while i < to
        invariant
            from <= i <= to <= text.len(),
            run == text@.subrange(from as int, to as int),
            forall|k: int| 0 <= k < i - from ==> is_digit(#[trigger] run[k]),
        decreases to - i,
    {
        let byte: u8 = text[i];
        if byte < ZERO || byte > NINE {
            assert(run[i - from] == byte);
            return false;
        }
        assert(run[i - from] == byte);
        i += 1;
    }
    true
}

/// The value of the digits `text[from..to]`, where it fits in 64 bits.
/// Nothing is handed out where a byte is no digit or the value is too
/// large. An empty range is worth 0.
pub fn digits_to_u64(text: &[u8], from: usize, to: usize) -> (value: Option<u64>)
    requires
        from <= to <= text.len(),
    ensures
        value is Some <==> all_digits(text@.subrange(from as int, to as int)) && digits_value(
            text@.subrange(from as int, to as int),
        ) <= u64::MAX,
        value is Some ==> value->0 == digits_value(text@.subrange(from as int, to as int)),
{
    if !digits_only(text, from, to) {
        return None;
    }
    let ghost run = text@.subrange(from as int, to as int);
    let mut total: u64 = 0;
    let mut i: usize = from;
    assert(run.take(0) =~= Seq::<u8>::empty());
    while i < to
        invariant
            from <= i <= to <= text.len(),
            run == text@.subrange(from as int, to as int),
            all_digits(run),
            total == digits_value(run.take(i - from)),
        decreases to - i,
    {
        let byte: u8 = text[i];
        proof {
            assert(run[i - from] == byte);
            assert(is_digit(run[i - from]));
            assert(run.take(i - from + 1).drop_last() =~= run.take(i - from));
            assert(run.take(i - from + 1).last() == byte);
            lemma_digits_value_grows(run, i - from + 1);
        }
        let digit: u64 = (byte - ZERO) as u64;
        if total > (u64::MAX - digit) / 10 {
            return None;
        }
        total = total * 10 + digit;
        i += 1;
    }
    assert(run.take(to - from) =~= run);
    Some(total)
}

/// Reads an unsigned integer: an optional `+` and one digit or more.
pub fn parse_u64(token: &[u8]) -> (parsed: Result<u64, SampleError>)
    ensures
        parsed == spec_parse_u64(token@),
{
    let from: usize = if token.len() > 0 && token[0] == PLUS {
        1
    } else {
        0
    };
    assert(token@.subrange(from as int, token.len() as int) =~= spec_strip_plus(token@));
    if from == token.len() {
        return Err(SampleError::ParseError);
    }
    match digits_to_u64(token, from, token.len()) {
        Some(value) => Ok(value),
        None => Err(SampleError::ParseError),
    }
}

/// The position of the first `.` at or behind `from`, or the length of the
/// token where there is none.
pub fn point_index(token: &[u8], from: usize) -> (at: usize)
    requires
        from <= token.len(),
    ensures
        from <= at <= token.len(),
        at - from == spec_point_index(token@.skip(from as int)),
{
    let ghost body = token@.skip(from as int);
    let mut i: usize = from;
    assert(body.skip(0) =~= body);
    while i < token.len()
        invariant
            from <= i <= token.len(),
            body == token@.skip(from as int),
            spec_point_index(body) == (i - from) + spec_point_index(body.skip(i - from)),
        decreases token.len() - i,
    {
        proof {
            assert(body.skip(i - from)[0] == token@[i as int]);
            assert(body.skip(i - from).drop_first() =~= body.skip(i - from + 1));
        }
        if token[i] == POINT {
            return i;
        }
        i += 1;
    }
    i
}

/// The digit of the fraction `text[from..to]` at `place`, and 0 behind its
/// end.
fn fraction_digit(text: &[u8], from: usize, to: usize, place: usize) -> (digit: u64)
    requires
        from <= to <= text.len(),
        place < 3,
        all_digits(text@.subrange(from as int, to as int)),
    ensures
        digit == spec_fraction_digit(text@.subrange(from as int, to as int), place as int),
        digit <= 9,
{
    if place < to - from {
        let byte: u8 = text[from + place];
        assert(text@.subrange(from as int, to as int)[place as int] == byte);
        assert(is_digit(text@.subrange(from as int, to as int)[place as int]));
        (byte - ZERO) as u64
    } else {
        0
    }
}

/// What a decimal is made of: its sign, the value of the digits before the
/// point, and the first three places behind it, in thousandths.
#[derive(Clone, Copy, Debug, PartialEq, Eq, Structural)]
pub struct DecimalParts {
    pub negative: bool,
    pub whole: u64,
    pub thousandths: u64,
}

/// Takes a decimal apart: an optional sign, digits, and optionally a `.`
/// and more digits, with a digit on at least one side of it. Nothing is
/// handed out where the token has another shape or its whole part does not
/// fit in 64 bits.
pub fn decimal_parts(token: &[u8]) -> (parts: Option<DecimalParts>)
    ensures
        parts is Some <==> spec_decimal_shape(spec_strip_sign(token@)) && digits_value(
            spec_whole_part(spec_strip_sign(token@)),
        ) <= u64::MAX,
        parts is Some ==> {
            &&& parts->0.negative == spec_negative(token@)
            &&& parts->0.whole == digits_value(spec_whole_part(spec_strip_sign(token@)))
            &&& parts->0.thousandths == spec_fraction_thousandths(
                spec_fraction_part(spec_strip_sign(token@)),
            )
            &&& parts->0.thousandths <= 999
        },
{
    let signed: bool = token.len() > 0 && (token[0] == PLUS || token[0] == MINUS);
    let negative: bool = token.len() > 0 && token[0] == MINUS;
    let from: usize = if signed {
        1
    } else {
        0
    };
    let ghost body = spec_strip_sign(token@);
    assert(token@.skip(from as int) =~= body);
    let point: usize = point_index(token, from);
    let behind: usize = if point < token.len() {
        point + 1
    } else {
        point
    };
    proof {
        assert(token@.subrange(from as int, point as int) =~= spec_whole_part(body));
        assert(token@.subrange(behind as int, token.len() as int) =~= spec_fraction_part(body));
    }
    if point - from + (token.len() - behind) == 0 {
        return None;
    }
    if !digits_only(token, behind, token.len()) {
        return None;
    }
    let whole: u64 = match digits_to_u64(token, from, point) {
        Some(value) => value,
        None => {
            return None;
        },
    };
    let tenths: u64 = fraction_digit(token, behind, token.len(), 0);
    let hundredths: u64 = fraction_digit(token, behind, token.len(), 1);
    let thousandths: u64 = fraction_digit(token, behind, token.len(), 2);
    Some(DecimalParts { negative, whole, thousandths: tenths * 100 + hundredths * 10 + thousandths })
}

/// Reads a decimal and hands it out in thousandths. Places beyond the
/// third are cut off.
pub fn parse_thousandths(token: &[u8]) -> (parsed: Result<i64, SampleError>)
    ensures
        parsed == spec_parse_thousandths(token@),
{
    let parts: DecimalParts = match decimal_parts(token) {
        Some(parts) => parts,
        None => {
            return Err(SampleError::ParseError);
        },
    };
    if parts.whole > (0x7fff_ffff_ffff_ffff - parts.thousandths) / 1000 {
        return Err(SampleError::ParseError);
    }
    let magnitude: u64 = parts.whole * 1000 + parts.thousandths;
    if parts.negative {
        Ok(-(magnitude as i64))
    } else {
        Ok(magnitude as i64)
    }
}

/// Reads a decimal and hands out its whole part. The places behind the
/// point are cut off.
pub fn parse_whole(token: &[u8]) -> (parsed: Result<i64, SampleError>)
    ensures
        parsed == spec_parse_whole(token@),
{
    let parts: DecimalParts = match decimal_parts(token) {
        Some(parts) => parts,
        None => {
            return Err(SampleError::ParseError);
        },
    };
    if parts.whole > 0x7fff_ffff_ffff_ffff {
        Err(SampleError::ParseError)
    } else if parts.negative {
        Ok(-(parts.whole as i64))
    } else {
        Ok(parts.whole as i64)
    }
}

/// Appends the shortest decimal notation of `n` to `out`.
pub fn push_decimal(out: &mut Vec<u8>, n: u64)
    ensures
        final(out)@ == old(out)@ + spec_decimal(n as nat),
    decreases n,
{
    if n >= 10 {
        push_decimal(out, n / 10);
    }
    let digit: u8 = (n % 10) as u8;
    out.push(ZERO + digit);
    assert(out@ =~= old(out)@ + spec_decimal(n as nat));
}

/// The decimal notation of a number is one digit or more, and denotes the
/// number.
pub proof fn lemma_decimal_round_trip(n: nat)
    ensures
        spec_decimal(n).len() >= 1,
        all_digits(spec_decimal(n)),
        digits_value(spec_decimal(n)) == n,
    decreases n,
{
    let s = spec_decimal(n);
    if n < 10 {
        assert(s.drop_last() =~= Seq::<u8>::empty());
        assert(digits_value(s.drop_last()) == 0);
    } else {
        lemma_decimal_round_trip(n / 10);
        assert(s.drop_last() =~= spec_decimal(n / 10));
        assert forall|i: int| 0 <= i < s.len() implies is_digit(#[trigger] s[i]) by {
            if i < s.len() - 1 {
                assert(s[i] == spec_decimal(n / 10)[i]);
            }
        }
    }
}

/// In digits followed by a `.`, the `.` is the first one.
pub proof fn lemma_point_behind_digits(digits: Seq<u8>, tail: Seq<u8>)
    requires
        all_digits(digits),
    ensures
        spec_point_index(digits + seq![POINT] + tail) == digits.len(),
    decreases digits.len(),
{
    let whole = digits + seq![POINT] + tail;
    if digits.len() == 0 {
        assert(whole[0] == POINT);
    } else {
        let rest = digits.drop_first();
        assert(is_digit(digits[0]));
        assert(whole[0] == digits[0]);
        assert forall|i: int| 0 <= i < rest.len() implies is_digit(#[trigger] rest[i]) by {
            assert(rest[i] == digits[i + 1]);
        }
        lemma_point_behind_digits(rest, tail);
        assert(whole.drop_first() =~= rest + seq![POINT] + tail);
    }
}

/// Digits hold no `.`.
pub proof fn lemma_no_point_in_digits(digits: Seq<u8>)
    requires
        all_digits(digits),
    ensures
        spec_point_index(digits) == digits.len(),
    decreases digits.len(),
{
    if digits.len() > 0 {
        let rest = digits.drop_first();
        assert(is_digit(digits[0]));
        assert forall|i: int| 0 <= i < rest.len() implies is_digit(#[trigger] rest[i]) by {
            assert(rest[i] == digits[i + 1]);
        }
        lemma_no_point_in_digits(rest);
    }
}

/// How many thousandths up to three places behind the point are worth:
/// the value of the digits, times 100 for one place and times 10 for two.
pub open spec fn spec_places_thousandths(fraction: Seq<u8>) -> nat {
    if fraction.len() == 0 {
        0
    } else if fraction.len() == 1 {
        digits_value(fraction) * 100
    } else if fraction.len() == 2 {
        digits_value(fraction) * 10
    } else {
        digits_value(fraction)
    }
}

/// Up to three places behind the point are read in full.
pub proof fn lemma_three_places_are_exact(fraction: Seq<u8>)
    requires
        all_digits(fraction),
        fraction.len() <= 3,
    ensures
        spec_fraction_thousandths(fraction) == spec_places_thousandths(fraction),
        0 <= spec_places_thousandths(fraction) <= 999,
{
    reveal_with_fuel(digits_value, 4);
    if fraction.len() >= 1 {
        assert(is_digit(fraction[0]));
    }
    if fraction.len() >= 2 {
        assert(is_digit(fraction[1]));
        assert(fraction.drop_last()[0] == fraction[0]);
    }
    if fraction.len() >= 3 {
        assert(is_digit(fraction[2]));
        assert(fraction.drop_last()[1] == fraction[1]);
        assert(fraction.drop_last().drop_last()[0] == fraction[0]);
    }
}

} // verus!
