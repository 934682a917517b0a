//! Taking the white space off the ends of a text.
//!
//! White space is what Unicode gives the property White_Space: the ASCII
//! space and the controls from tab to carriage return, and the characters
//! U+0085, U+00A0, U+1680, U+2000 to U+200A, U+2028, U+2029, U+202F, U+205F
//! and U+3000. A text is a sequence of bytes, so white space is found by
//! the UTF-8 encodings of these characters, which take one, two or three
//! bytes.

use vstd::prelude::*;
use vstd::slice::slice_subrange;
use vstd::utf8::encode_scalar;

verus! {

/// Whether the scalar value `c` has the property White_Space.
pub open spec fn is_white_space(c: u32) -> bool {
    ||| 0x09 <= c <= 0x0d
    ||| c == 0x20
    ||| c == 0x85
    ||| c == 0xa0
    ||| c == 0x1680
    ||| 0x2000 <= c <= 0x200a
    ||| c == 0x2028
    ||| c == 0x2029
    ||| c == 0x202f
    ||| c == 0x205f
    ||| c == 0x3000
}

/// Whether the one byte `a` encodes a white space character.
pub open spec fn is_space_byte(a: u8) -> bool {
    a == 0x20 || (0x09 <= a <= 0x0d)
}

/// Whether the two bytes `a`, `b` encode a white space character.
pub open spec fn is_space_pair(a: u8, b: u8) -> bool {
    a == 0xc2 && (b == 0x85 || b == 0xa0)
}

/// Whether the three bytes `a`, `b`, `c` encode a white space character.
pub open spec fn is_space_triple(a: u8, b: u8, c: u8) -> bool {
    ||| a == 0xe1 && b == 0x9a && c == 0x80
    ||| a == 0xe2 && b == 0x80 && (0x80 <= c <= 0x8a || c == 0xa8 || c == 0xa9 || c == 0xaf)
    ||| a == 0xe2 && b == 0x81 && c == 0x9f
    ||| a == 0xe3 && b == 0x80 && c == 0x80
}

/// Whether `bytes` is the encoding of one white space character.
pub open spec fn is_space_encoding(bytes: Seq<u8>) -> bool {
    ||| bytes.len() == 1 && is_space_byte(bytes[0])
    ||| bytes.len() == 2 && is_space_pair(bytes[0], bytes[1])
    ||| bytes.len() == 3 && is_space_triple(bytes[0], bytes[1], bytes[2])
}

/// How many bytes the white space character takes that `text` ends with;
/// 0 where it ends with none.
pub open spec fn spec_space_at_end(text: Seq<u8>) -> int {
    let n = text.len() as int;
    if n >= 1 && is_space_byte(text[n - 1]) {
        1
    } else if n >= 2 && is_space_pair(text[n - 2], text[n - 1]) {
        2
    } else if n >= 3 && is_space_triple(text[n - 3], text[n - 2], text[n - 1]) {
        3
    } else {
        0
    }
}

/// How many bytes the white space character takes that `text` starts with;
/// 0 where it starts with none.
pub open spec fn spec_space_at_start(text: Seq<u8>) -> int {
    if text.len() >= 1 && is_space_byte(text[0]) {
        1
    } else if text.len() >= 2 && is_space_pair(text[0], text[1]) {
        2
    } else if text.len() >= 3 && is_space_triple(text[0], text[1], text[2]) {
        3
    } else {
        0
    }
}

/// `text` without the white space at its end.
pub open spec fn spec_trim_end(text: Seq<u8>) -> Seq<u8>
    decreases text.len(),
{
    if spec_space_at_end(text) > 0 {
        spec_trim_end(text.take(text.len() - spec_space_at_end(text)))
    } else {
        text
    }
}

/// `text` without the white space at its start.
pub open spec fn spec_trim_start(text: Seq<u8>) -> Seq<u8>
    decreases text.len(),
{
    if spec_space_at_start(text) > 0 {
        spec_trim_start(text.skip(spec_space_at_start(text)))
    } else {
        text
    }
}

/// `text` without the white space at both ends.
pub open spec fn spec_trim(text: Seq<u8>) -> Seq<u8> {
    spec_trim_start(spec_trim_end(text))
}

/// Whether `run` is white space from end to end.
pub open spec fn is_space_run(run: Seq<u8>) -> bool {
    spec_trim_end(run).len() == 0
}

/// Whether the one byte `a` encodes a white space character.
pub fn space_byte(a: u8) -> (yes: bool)
    ensures
        yes == is_space_byte(a),
{
    a == 0x20 || (0x09 <= a && a <= 0x0d)
}

/// Whether the two bytes `a`, `b` encode a white space character.
pub fn space_pair(a: u8, b: u8) -> (yes: bool)
    ensures
        yes == is_space_pair(a, b),
{
    a == 0xc2 && (b == 0x85 || b == 0xa0)
}

/// Whether the three bytes `a`, `b`, `c` encode a white space character.
pub fn space_triple(a: u8, b: u8, c: u8) -> (yes: bool)
    ensures
        yes == is_space_triple(a, b, c),
{
    (a == 0xe1 && b == 0x9a && c == 0x80) || (a == 0xe2 && b == 0x80 && ((0x80 <= c && c <= 0x8a)
        || c == 0xa8 || c == 0xa9 || c == 0xaf)) || (a == 0xe2 && b == 0x81 && c == 0x9f) || (a
        == 0xe3 && b == 0x80 && c == 0x80)
}

/// How many bytes the white space character takes that `text[..len]` ends
/// with; 0 where it ends with none.
pub fn space_at_end(text: &[u8], len: usize) -> (n: usize)
    requires
        len <= text.len(),
    ensures
        n == spec_space_at_end(text@.take(len as int)),
        n <= len,
        n <= 3,
{
    if len >= 1 && space_byte(text[len - 1]) {
        1
    } else if len >= 2 && space_pair(text[len - 2], text[len - 1]) {
        2
    } else if len >= 3 && space_triple(text[len - 3], text[len - 2], text[len - 1]) {
        3
    } else {
        0
    }
}

/// How many bytes the white space character takes that `text[from..]`
/// starts with; 0 where it starts with none.
pub fn space_at_start(text: &[u8], from: usize) -> (n: usize)
    requires
        from <= text.len(),
    ensures
        n == spec_space_at_start(text@.skip(from as int)),
        n <= text.len() - from,
        n <= 3,
{
    let left: usize = text.len() - from;
    if left >= 1 && space_byte(text[from]) {
        1
    } else if left >= 2 && space_pair(text[from], text[from + 1]) {
        2
    } else if left >= 3 && space_triple(text[from], text[from + 1], text[from + 2]) {
        3
    } else {
        0
    }
}

/// `text` up to the white space at its end.
pub fn trim_end(text: &[u8]) -> (trimmed: &[u8])
    ensures
        trimmed@ == spec_trim_end(text@),
{
    let mut len: usize = text.len();
    assert(text@.take(len as int) =~= text@);
    let mut n: usize = space_at_end(text, len);
    while n > 0
        invariant
            len <= text.len(),
            n <= len,
            n == spec_space_at_end(text@.take(len as int)),
            spec_trim_end(text@) == spec_trim_end(text@.take(len as int)),
        decreases len,
    {
        assert(text@.take(len as int).take(len - n) =~= text@.take(len - n));
        len -= n;
        n = space_at_end(text, len);
    }
    let trimmed: &[u8] = slice_subrange(text, 0, len);
    assert(trimmed@ =~= text@.take(len as int));
    trimmed
}

/// `text` from the end of the white space at its start.
pub fn trim_start(text: &[u8]) -> (trimmed: &[u8])
    ensures
        trimmed@ == spec_trim_start(text@),
{
    let mut from: usize = 0;
    assert(text@.skip(0) =~= text@);
    let mut n: usize = space_at_start(text, from);
    while n > 0
        invariant
            from <= text.len(),
            n <= text.len() - from,
            n == spec_space_at_start(text@.skip(from as int)),
            spec_trim_start(text@) == spec_trim_start(text@.skip(from as int)),
        decreases text.len() - from,
    {
        assert(text@.skip(from as int).skip(n as int) =~= text@.skip(from + n));
        from += n;
        n = space_at_start(text, from);
    }
    let trimmed: &[u8] = slice_subrange(text, from, text.len());
    assert(trimmed@ =~= text@.skip(from as int));
    trimmed
}

/// `text` between the white space at its two ends.
pub fn trim(text: &[u8]) -> (trimmed: &[u8])
    ensures
        trimmed@ == spec_trim(text@),
{
    trim_start(trim_end(text))
}

/// White space behind a text that does not end in white space is all that
/// trimming the end takes off.
pub proof fn lemma_trim_end_run(text: Seq<u8>, run: Seq<u8>)
    requires
        spec_space_at_end(text) == 0,
        is_space_run(run),
    ensures
        spec_trim_end(text + run) == text,
    decreases run.len(),
{
    if run.len() == 0 {
        assert(text + run =~= text);
    } else {
        let n = spec_space_at_end(run);
        let joined = text + run;
        assert(n > 0);
        let shorter = run.take(run.len() - n);
        assert(spec_space_at_end(joined) == n) by {
            assert(joined[joined.len() - 1] == run[run.len() - 1]);
            if run.len() >= 2 {
                assert(joined[joined.len() - 2] == run[run.len() - 2]);
            }
            if run.len() >= 3 {
                assert(joined[joined.len() - 3] == run[run.len() - 3]);
            }
        }
        assert(joined.take(joined.len() - n) =~= text + shorter);
        lemma_trim_end_run(text, shorter);
    }
}

/// Trimming the end of a run of white space takes it off encoding by
/// encoding, so what is left of the run at any stage is a run again.
pub proof fn lemma_space_run_start(run: Seq<u8>)
    requires
        is_space_run(run),
        run.len() > 0,
    ensures
        spec_space_at_start(run) > 0,
        is_space_run(run.skip(spec_space_at_start(run))),
    decreases run.len(),
{
    let n = spec_space_at_end(run);
    assert(n > 0);
    let shorter = run.take(run.len() - n);
    if shorter.len() == 0 {
        assert(run.skip(n) =~= shorter);
    } else {
        lemma_space_run_start(shorter);
        let m = spec_space_at_start(shorter);
        assert(spec_space_at_start(run) == m);
        let rest = run.skip(m);
        assert(spec_space_at_end(rest) == n) by {
            assert(rest[rest.len() - 1] == run[run.len() - 1]);
            if rest.len() >= 2 {
                assert(rest[rest.len() - 2] == run[run.len() - 2]);
            }
            if rest.len() >= 3 {
                assert(rest[rest.len() - 3] == run[run.len() - 3]);
            }
        }
        assert(rest.take(rest.len() - n) =~= shorter.skip(m));
    }
}

/// White space before a text that does not start with white space is all
/// that trimming the start takes off.
pub proof fn lemma_trim_start_run(run: Seq<u8>, text: Seq<u8>)
    requires
        is_space_run(run),
        text.len() > 0,
        text[0] < 0x80,
        !is_space_byte(text[0]),
    ensures
        spec_trim_start(run + text) == text,
    decreases run.len(),
{
    if run.len() == 0 {
        assert(run + text =~= text);
    } else {
        lemma_space_run_start(run);
        let m = spec_space_at_start(run);
        let joined = run + text;
        assert(spec_space_at_start(joined) == m) by {
            assert(joined[0] == run[0]);
            if run.len() >= 2 {
                assert(joined[1] == run[1]);
            }
            if run.len() >= 3 {
                assert(joined[2] == run[2]);
            }
        }
        assert(joined.skip(m) =~= run.skip(m) + text);
        lemma_trim_start_run(run.skip(m), text);
    }
}

/// The bytes of the UTF-8 encoding of each white space character.
pub proof fn lemma_white_space_bytes(c: u32)
    requires
        is_white_space(c),
    ensures
        c <= 0x7f ==> encode_scalar(c) == seq![c as u8],
        c == 0x85 || c == 0xa0 ==> encode_scalar(c) == seq![0xc2u8, c as u8],
        c == 0x1680 ==> encode_scalar(c) == seq![0xe1u8, 0x9au8, 0x80u8],
        0x2000 <= c <= 0x202f ==> encode_scalar(c) == seq![
            0xe2u8,
            0x80u8,
            (c - 0x2000 + 0x80) as u8,
        ],
        c == 0x205f ==> encode_scalar(c) == seq![0xe2u8, 0x81u8, 0x9fu8],
        c == 0x3000 ==> encode_scalar(c) == seq![0xe3u8, 0x80u8, 0x80u8],
{
    let bytes = encode_scalar(c);
    assert((c <= 0x7f) ==> ((c & 0x7f) as u8 == c)) by (bit_vector);
    assert((c == 0x85 || c == 0xa0) ==> (0xc0u8 | (((c >> 6) & 0x1f) as u8) == 0xc2 && 0x80u8 | ((c
        & 0x3f) as u8) == c)) by (bit_vector);
    assert((c == 0x1680) ==> (0xe0u8 | (((c >> 12) & 0x0f) as u8) == 0xe1 && 0x80u8 | (((c >> 6)
        & 0x3f) as u8) == 0x9a && 0x80u8 | ((c & 0x3f) as u8) == 0x80)) by (bit_vector);
    assert((0x2000 <= c <= 0x203f) ==> (0xe0u8 | (((c >> 12) & 0x0f) as u8) == 0xe2 && 0x80u8 | (((c
        >> 6) & 0x3f) as u8) == 0x80 && 0x80u8 | ((c & 0x3f) as u8) == c - 0x2000 + 0x80))
        by (bit_vector);
    assert((c == 0x205f) ==> (0xe0u8 | (((c >> 12) & 0x0f) as u8) == 0xe2 && 0x80u8 | (((c >> 6)
        & 0x3f) as u8) == 0x81 && 0x80u8 | ((c & 0x3f) as u8) == 0x9f)) by (bit_vector);
    assert((c == 0x3000) ==> (0xe0u8 | (((c >> 12) & 0x0f) as u8) == 0xe3 && 0x80u8 | (((c >> 6)
        & 0x3f) as u8) == 0x80 && 0x80u8 | ((c & 0x3f) as u8) == 0x80)) by (bit_vector);
    if c <= 0x7f {
        assert(bytes =~= seq![c as u8]);
    } else if c == 0x85 || c == 0xa0 {
        assert(bytes =~= seq![0xc2u8, c as u8]);
    } else if c == 0x1680 {
        assert(bytes =~= seq![0xe1u8, 0x9au8, 0x80u8]);
    } else if c <= 0x202f {
        assert(bytes =~= seq![0xe2u8, 0x80u8, (c - 0x2000 + 0x80) as u8]);
    } else if c == 0x205f {
        assert(bytes =~= seq![0xe2u8, 0x81u8, 0x9fu8]);
    } else {
        assert(bytes =~= seq![0xe3u8, 0x80u8, 0x80u8]);
    }
}

/// The UTF-8 encoding of a white space character is one of the byte
/// patterns that trimming takes off.
pub proof fn lemma_white_space_is_trimmed(c: u32)
    requires
        is_white_space(c),
    ensures
        is_space_encoding(encode_scalar(c)),
{
    lemma_white_space_bytes(c);
}

/// The white space character that a byte pattern encodes.
pub open spec fn spec_space_scalar(bytes: Seq<u8>) -> u32 {
    if bytes.len() == 1 {
        bytes[0] as u32
    } else if bytes.len() == 2 {
        bytes[1] as u32
    } else if bytes[0] == 0xe1 {
        0x1680
    } else if bytes[0] == 0xe3 {
        0x3000
    } else if bytes[1] == 0x81 {
        0x205f
    } else {
        (0x2000 + (bytes[2] - 0x80)) as u32
    }
}

/// Every byte pattern that trimming takes off is the UTF-8 encoding of a
/// white space character.
pub proof fn lemma_trimmed_is_white_space(bytes: Seq<u8>)
    requires
        is_space_encoding(bytes),
    ensures
        is_white_space(spec_space_scalar(bytes)),
        encode_scalar(spec_space_scalar(bytes)) == bytes,
{
    lemma_white_space_bytes(spec_space_scalar(bytes));
    assert(encode_scalar(spec_space_scalar(bytes)) =~= bytes);
}

} // verus!
