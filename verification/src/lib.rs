//! A bidirectional codec between Unicode code points and their UTF-8 byte
//! sequences.
//!
//! [`FromUtf8`] decodes the byte sequence of one encoded character into a
//! code point; [`ToUtf8`] encodes a 32-bit code point into its byte
//! sequence. The codec follows the historical, extended form of UTF-8:
//! the encoder accepts every code point up to `0x7FFF_FFFF` and produces
//! sequences of up to six bytes, while the decoder hands back only values
//! that fit a `char` and is deliberately permissive about everything but
//! structure — it ignores bytes past the declared sequence length, reads
//! only the low six bits of each continuation byte, and accepts overlong
//! encodings.
use vstd::prelude::*;

pub mod model;

use model::is_scalar_value;
use model::spec_decode;
use model::spec_decode_scalar;
use model::spec_encode;

verus! {

/// Decoding a type's value out of the UTF-8 byte sequence of one encoded
/// character.
pub trait FromUtf8 {
    type Output;

    /// What decoding gives for each byte sequence: the decoded value, or
    /// `None` where the sequence is rejected.
    spec fn spec_from_utf8(code_units: Seq<u8>) -> Option<Self::Output>;

    /// Decode the byte sequence of one encoded character.
    fn from_utf8(code_units: &[u8]) -> (r: Option<Self::Output>)
        ensures
            r == Self::spec_from_utf8(code_units@),
    ;
}

/// Encoding a value as the UTF-8 byte sequence of one character.
pub trait ToUtf8 {
    /// What encoding gives for each value: the byte sequence, or `None`
    /// where the value cannot be encoded.
    spec fn spec_to_utf8(&self) -> Option<Seq<u8>>;

    /// Encode the value as the byte sequence of one character.
    fn to_utf8(&self) -> (r: Option<Vec<u8>>)
        ensures
            match (r, self.spec_to_utf8()) {
                (Some(v), Some(s)) => v@ == s,
                (None, None) => true,
                _ => false,
            },
    ;
}

/// Relies on char::from_u32 of std: it returns the `char` with the given
/// code point exactly when the value is a Unicode scalar value (outside the
/// surrogate range and at most 0x10FFFF), and `None` otherwise.
pub assume_specification[ char::from_u32 ](i: u32) -> (r: Option<char>)
    ensures
        is_scalar_value(i as int) ==> r == Some(i as char),
        !is_scalar_value(i as int) ==> r is None,
;

impl FromUtf8 for char {
    type Output = char;

    open spec fn spec_from_utf8(code_units: Seq<u8>) -> Option<char> {
        spec_decode(code_units)
    }

    fn from_utf8(code_units: &[u8]) -> (r: Option<char>) {
        match decode_code_point(code_units) {
            Some(code) => char::from_u32(code),
            None => None,
        }
    }
}

/// Decode the byte sequence of one encoded character into its code point,
/// before any scalar-value check: the structural half of the decoder.
/// Rejects an empty input, a single byte with its high bit set, a first
/// byte of a longer input that carries no multi-byte length marker, and a
/// sequence shorter than its leading byte declares; bytes past the declared
/// length are ignored.
pub fn decode_code_point(code_units: &[u8]) -> (r: Option<u32>)
    ensures
        match spec_decode_scalar(code_units@) {
            Some(v) => r == Some(v as u32),
            None => r is None,
        },
{
    if code_units.len() == 0 {
        return None;
    }
    if code_units.len() == 1 {
        let byte = code_units[0];
        if byte >= 0x80 {
            return None;
        }
        return Some(byte as u32);
    }
    let first = code_units[0];
    if first < 0xC0 || first >= 0xFE {
        // no length marker for two to six bytes: a stray continuation byte,
        // a one-byte form before extra bytes, or the unused 0xFE and 0xFF
        return None;
    }
    let n: usize = if first < 0xE0 {
        2
    } else if first < 0xF0 {
        3
    } else if first < 0xF8 {
        4
    } else if first < 0xFC {
        5
    } else {
        6
    };
    if code_units.len() < n {
        return None;
    }
    let code: u32 = if n == 2 {
        ((first % 0x20) as u32) * 0x40 + (code_units[1] % 0x40) as u32
    } else if n == 3 {
        ((first % 0x10) as u32) * 0x1000 + ((code_units[1] % 0x40) as u32) * 0x40 + (code_units[2]
            % 0x40) as u32
    } else if n == 4 {
        ((first % 0x08) as u32) * 0x40000 + ((code_units[1] % 0x40) as u32) * 0x1000 + ((
        code_units[2] % 0x40) as u32) * 0x40 + (code_units[3] % 0x40) as u32
    } else if n == 5 {
        ((first % 0x04) as u32) * 0x1000000 + ((code_units[1] % 0x40) as u32) * 0x40000 + ((
        code_units[2] % 0x40) as u32) * 0x1000 + ((code_units[3] % 0x40) as u32) * 0x40 + (
        code_units[4] % 0x40) as u32
    } else {
        ((first % 0x02) as u32) * 0x40000000 + ((code_units[1] % 0x40) as u32) * 0x1000000 + ((
        code_units[2] % 0x40) as u32) * 0x40000 + ((code_units[3] % 0x40) as u32) * 0x1000 + ((
        code_units[4] % 0x40) as u32) * 0x40 + (code_units[5] % 0x40) as u32
    };
    Some(code)
}

impl ToUtf8 for u32 {
    open spec fn spec_to_utf8(&self) -> Option<Seq<u8>> {
        if *self <= 0x7FFFFFFF {
            Some(spec_encode(*self))
        } else {
            None
        }
    }

    fn to_utf8(&self) -> (r: Option<Vec<u8>>) {
        encode_code_point(*self)
    }
}

/// Encode a 32-bit code point as its UTF-8 byte sequence, of one to six
/// bytes by the range the code point falls in, or `None` for a value past
/// the six-byte maximum of `0x7FFF_FFFF`.
pub fn encode_code_point(code: u32) -> (r: Option<Vec<u8>>)
    ensures
        code <= 0x7FFFFFFF ==> (r matches Some(v) && v@ == spec_encode(code)),
        code > 0x7FFFFFFF ==> r is None,
{
    if code < 0x80 {
        Some(vec![code as u8])
    } else if code < 0x800 {
        let v = vec![0xC0 + (code / 0x40) as u8, 0x80 + (code % 0x40) as u8];
        proof {
            assert(v@ =~= spec_encode(code));
        }
        Some(v)
    } else if code < 0x10000 {
        let v = vec![
            0xE0 + (code / 0x1000) as u8,
            0x80 + (code / 0x40 % 0x40) as u8,
            0x80 + (code % 0x40) as u8,
        ];
        proof {
            assert(v@ =~= spec_encode(code));
        }
        Some(v)
    } else if code < 0x200000 {
        let v = vec![
            0xF0 + (code / 0x40000) as u8,
            0x80 + (code / 0x1000 % 0x40) as u8,
            0x80 + (code / 0x40 % 0x40) as u8,
            0x80 + (code % 0x40) as u8,
        ];
        proof {
            assert(v@ =~= spec_encode(code));
        }
        Some(v)
    } else if code < 0x4000000 {
        let v = vec![
            0xF8 + (code / 0x1000000) as u8,
            0x80 + (code / 0x40000 % 0x40) as u8,
            0x80 + (code / 0x1000 % 0x40) as u8,
            0x80 + (code / 0x40 % 0x40) as u8,
            0x80 + (code % 0x40) as u8,
        ];
        proof {
            assert(v@ =~= spec_encode(code));
        }
        Some(v)
    } else if code <= 0x7FFFFFFF {
        let v = vec![
            0xFC + (code / 0x40000000) as u8,
            0x80 + (code / 0x1000000 % 0x40) as u8,
            0x80 + (code / 0x40000 % 0x40) as u8,
            0x80 + (code / 0x1000 % 0x40) as u8,
            0x80 + (code / 0x40 % 0x40) as u8,
            0x80 + (code % 0x40) as u8,
        ];
        proof {
            assert(v@ =~= spec_encode(code));
        }
        Some(v)
    } else {
        None
    }
}

} // verus!
