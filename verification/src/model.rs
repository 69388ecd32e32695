//! Mathematical model of the codec.
//!
//! The spec functions here say, over plain integers and sequences, what the
//! decoder and the encoder return for every input. The executable functions
//! in the crate root are proved against them, and the laws at the end of
//! this module relate the two directions.
use vstd::prelude::*;

verus! {

/// Number of consecutive one bits at the top of a byte, read from the most
/// significant bit down. A leading byte declares the length of its sequence
/// this way: `0xxxxxxx` opens a one-byte sequence, `110xxxxx` a two-byte
/// one, and so on up to `1111110x` for six bytes.
pub open spec fn leading_ones(b: u8) -> int {
    if b < 0x80 {
        0
    } else if b < 0xC0 {
        1
    } else if b < 0xE0 {
        2
    } else if b < 0xF0 {
        3
    } else if b < 0xF8 {
        4
    } else if b < 0xFC {
        5
    } else if b < 0xFE {
        6
    } else if b == 0xFE {
        7
    } else {
        8
    }
}

/// Payload bits of the leading byte of an `n`-byte sequence: the bits below
/// its length marker, `7 - n` of them.
pub open spec fn leading_payload(b: u8, n: int) -> int
    recommends
        2 <= n <= 6,
{
    if n == 2 {
        b as int % 0x20
    } else if n == 3 {
        b as int % 0x10
    } else if n == 4 {
        b as int % 0x08
    } else if n == 5 {
        b as int % 0x04
    } else {
        b as int % 0x02
    }
}

/// Payload bits of a continuation byte: its low six bits.
pub open spec fn continuation_payload(b: u8) -> int {
    b as int % 0x40
}

/// The code point assembled from the first `n` bytes of `s`: the leading
/// byte's payload followed by six payload bits from each continuation byte,
/// most significant first.
pub open spec fn assembled(s: Seq<u8>, n: int) -> int
    recommends
        2 <= n <= 6,
        n <= s.len(),
{
    if n == 2 {
        leading_payload(s[0], 2) * 0x40 + continuation_payload(s[1])
    } else if n == 3 {
        leading_payload(s[0], 3) * 0x1000 + continuation_payload(s[1]) * 0x40 + continuation_payload(
            s[2],
        )
    } else if n == 4 {
        leading_payload(s[0], 4) * 0x40000 + continuation_payload(s[1]) * 0x1000
            + continuation_payload(s[2]) * 0x40 + continuation_payload(s[3])
    } else if n == 5 {
        leading_payload(s[0], 5) * 0x1000000 + continuation_payload(s[1]) * 0x40000
            + continuation_payload(s[2]) * 0x1000 + continuation_payload(s[3]) * 0x40
            + continuation_payload(s[4])
    } else {
        leading_payload(s[0], 6) * 0x40000000 + continuation_payload(s[1]) * 0x1000000
            + continuation_payload(s[2]) * 0x40000 + continuation_payload(s[3]) * 0x1000
            + continuation_payload(s[4]) * 0x40 + continuation_payload(s[5])
    }
}

/// What a byte sequence decodes to before the scalar-value check: the code
/// point as a plain integer, or `None` where the sequence is structurally
/// malformed. Malformed means: empty input, a single byte with its high bit
/// set, a first byte of a longer input that carries no multi-byte length
/// marker, or fewer bytes than the leading byte declares. Bytes past the
/// declared length are ignored, continuation bytes contribute only their
/// low six bits, and overlong encodings are accepted: the decoder checks
/// structure, not minimality.
pub open spec fn spec_decode_scalar(s: Seq<u8>) -> Option<int> {
    if s.len() == 0 {
        None
    } else if s.len() == 1 {
        if s[0] < 0x80 {
            Some(s[0] as int)
        } else {
            None
        }
    } else {
        let n = leading_ones(s[0]);
        if n < 2 || n > 6 {
            None
        } else if s.len() < n {
            None
        } else {
            Some(assembled(s, n))
        }
    }
}

/// A Unicode scalar value: a code point outside the surrogate range and no
/// greater than the largest Unicode code point. These are exactly the
/// values a `char` can hold.
pub open spec fn is_scalar_value(v: int) -> bool {
    0 <= v && (v < 0xD800 || (0xE000 <= v && v <= 0x10FFFF))
}

/// What the decoder returns: the decoded code point as a `char`, or `None`
/// where the sequence is malformed or its code point is no Unicode scalar
/// value (a surrogate, or a value past the largest code point).
pub open spec fn spec_decode(s: Seq<u8>) -> Option<char> {
    match spec_decode_scalar(s) {
        Some(v) => if is_scalar_value(v) {
            Some((v as u32) as char)
        } else {
            None
        },
        None => None,
    }
}

/// Length of the encoding of code point `c`, fixed by the range `c` falls
/// in.
pub open spec fn utf8_len(c: u32) -> int
    recommends
        c <= 0x7FFFFFFF,
{
    if c < 0x80 {
        1
    } else if c < 0x800 {
        2
    } else if c < 0x10000 {
        3
    } else if c < 0x200000 {
        4
    } else if c < 0x4000000 {
        5
    } else {
        6
    }
}

/// The encoding of code point `c`: a leading byte holding the length marker
/// and the most significant payload bits, then one continuation byte, marked
/// `10xxxxxx`, for each further six payload bits.
pub open spec fn spec_encode(c: u32) -> Seq<u8>
    recommends
        c <= 0x7FFFFFFF,
{
    if c < 0x80 {
        seq![c as u8]
    } else if c < 0x800 {
        seq![(0xC0 + c / 0x40) as u8, (0x80 + c % 0x40) as u8]
    } else if c < 0x10000 {
        seq![
            (0xE0 + c / 0x1000) as u8,
            (0x80 + c / 0x40 % 0x40) as u8,
            (0x80 + c % 0x40) as u8,
        ]
    } else if c < 0x200000 {
        seq![
            (0xF0 + c / 0x40000) as u8,
            (0x80 + c / 0x1000 % 0x40) as u8,
            (0x80 + c / 0x40 % 0x40) as u8,
            (0x80 + c % 0x40) as u8,
        ]
    } else if c < 0x4000000 {
        seq![
            (0xF8 + c / 0x1000000) as u8,
            (0x80 + c / 0x40000 % 0x40) as u8,
            (0x80 + c / 0x1000 % 0x40) as u8,
            (0x80 + c / 0x40 % 0x40) as u8,
            (0x80 + c % 0x40) as u8,
        ]
    } else {
        seq![
            (0xFC + c / 0x40000000) as u8,
            (0x80 + c / 0x1000000 % 0x40) as u8,
            (0x80 + c / 0x40000 % 0x40) as u8,
            (0x80 + c / 0x1000 % 0x40) as u8,
            (0x80 + c / 0x40 % 0x40) as u8,
            (0x80 + c % 0x40) as u8,
        ]
    }
}

/// Length correctness: the encoding of `c` has exactly the length that
/// `c`'s range fixes.
pub proof fn lemma_encode_len(c: u32)
    requires
        c <= 0x7FFFFFFF,
    ensures
        spec_encode(c).len() == utf8_len(c),
{
}

/// Structural round trip: for every code point the encoder accepts, the
/// decoder reassembles exactly that code point from its encoding.
pub proof fn lemma_encode_decode_scalar(c: u32)
    requires
        c <= 0x7FFFFFFF,
    ensures
        spec_decode_scalar(spec_encode(c)) == Some(c as int),
{
    let s = spec_encode(c);
    if c < 0x80 {
        assert(s[0] == c as u8);
    } else if c < 0x800 {
        assert(leading_ones(s[0]) == 2);
        assert(leading_payload(s[0], 2) == c / 0x40);
        assert(continuation_payload(s[1]) == c % 0x40);
        assert(c / 0x40 * 0x40 + c % 0x40 == c) by (bit_vector);
    } else if c < 0x10000 {
        assert(leading_ones(s[0]) == 3);
        assert(leading_payload(s[0], 3) == c / 0x1000);
        assert(continuation_payload(s[1]) == c / 0x40 % 0x40);
        assert(continuation_payload(s[2]) == c % 0x40);
        assert(c / 0x1000 * 0x1000 + (c / 0x40 % 0x40) * 0x40 + c % 0x40 == c) by (bit_vector);
    } else if c < 0x200000 {
        assert(leading_ones(s[0]) == 4);
        assert(leading_payload(s[0], 4) == c / 0x40000);
        assert(continuation_payload(s[1]) == c / 0x1000 % 0x40);
        assert(continuation_payload(s[2]) == c / 0x40 % 0x40);
        assert(continuation_payload(s[3]) == c % 0x40);
        assert(c / 0x40000 * 0x40000 + (c / 0x1000 % 0x40) * 0x1000 + (c / 0x40 % 0x40) * 0x40 + c
            % 0x40 == c) by (bit_vector);
    } else if c < 0x4000000 {
        assert(leading_ones(s[0]) == 5);
        assert(leading_payload(s[0], 5) == c / 0x1000000);
        assert(continuation_payload(s[1]) == c / 0x40000 % 0x40);
        assert(continuation_payload(s[2]) == c / 0x1000 % 0x40);
        assert(continuation_payload(s[3]) == c / 0x40 % 0x40);
        assert(continuation_payload(s[4]) == c % 0x40);
        assert(c / 0x1000000 * 0x1000000 + (c / 0x40000 % 0x40) * 0x40000 + (c / 0x1000 % 0x40)
            * 0x1000 + (c / 0x40 % 0x40) * 0x40 + c % 0x40 == c) by (bit_vector);
    } else {
        assert(leading_ones(s[0]) == 6);
        assert(leading_payload(s[0], 6) == c / 0x40000000);
        assert(continuation_payload(s[1]) == c / 0x1000000 % 0x40);
        assert(continuation_payload(s[2]) == c / 0x40000 % 0x40);
        assert(continuation_payload(s[3]) == c / 0x1000 % 0x40);
        assert(continuation_payload(s[4]) == c / 0x40 % 0x40);
        assert(continuation_payload(s[5]) == c % 0x40);
        assert(c / 0x40000000 * 0x40000000 + (c / 0x1000000 % 0x40) * 0x1000000 + (c / 0x40000
            % 0x40) * 0x40000 + (c / 0x1000 % 0x40) * 0x1000 + (c / 0x40 % 0x40) * 0x40 + c % 0x40
            == c) by (bit_vector);
    }
}

/// Round trip: decoding the encoding of any Unicode scalar value gives back
/// the `char` holding exactly that value.
pub proof fn lemma_round_trip(c: u32)
    requires
        is_scalar_value(c as int),
    ensures
        spec_decode(spec_encode(c)) == Some(c as char),
{
    lemma_encode_decode_scalar(c);
}

} // verus!
