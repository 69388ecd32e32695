use utf8_codec::FromUtf8;
use utf8_codec::ToUtf8;
use utf8_codec::decode_code_point;
use utf8_codec::encode_code_point;

#[test]
fn char_from_utf8() {
    assert_eq!(char::from_utf8(&[0x61]), Some('a'));
    assert_eq!(char::from_utf8(&[0xC3, 0x80]), Some('\u{C0}'));
    assert_eq!(char::from_utf8(&[0xE6, 0x88, 0x91]), Some('\u{6211}'));
    assert_eq!(char::from_utf8(&[0xF0, 0x93, 0x83, 0xB0]), Some('\u{130F0}'));
}

#[test]
fn utf8_to_unicode() {
    assert_eq!(0x61u32.to_utf8(), Some(vec![0x61]));
    assert_eq!(0xC0u32.to_utf8(), Some(vec![0xC3, 0x80]));
    assert_eq!(0x6211u32.to_utf8(), Some(vec![0xE6, 0x88, 0x91]));
    assert_eq!(0x130F0u32.to_utf8(), Some(vec![0xF0, 0x93, 0x83, 0xB0]));
}

#[test]
fn round_trip_scalar_values() {
    let samples: [u32; 12] = [
        0x0, 0x41, 0x7F, 0x80, 0x7FF, 0x800, 0xD7FF, 0xE000, 0xFFFF, 0x10000, 0x130F0, 0x10FFFF,
    ];
    for &c in samples.iter() {
        let bytes = c.to_utf8().expect("every scalar value encodes");
        assert_eq!(char::from_utf8(&bytes), char::from_u32(c));
    }
}

#[test]
fn encode_length_by_range() {
    let cases: [(u32, usize); 12] = [
        (0x0, 1),
        (0x7F, 1),
        (0x80, 2),
        (0x7FF, 2),
        (0x800, 3),
        (0xFFFF, 3),
        (0x10000, 4),
        (0x1FFFFF, 4),
        (0x200000, 5),
        (0x3FFFFFF, 5),
        (0x4000000, 6),
        (0x7FFFFFFF, 6),
    ];
    for &(c, len) in cases.iter() {
        assert_eq!(c.to_utf8().expect("in range").len(), len);
    }
}

#[test]
fn decode_rejects_empty() {
    assert_eq!(char::from_utf8(&[]), None);
    assert_eq!(decode_code_point(&[]), None);
}

#[test]
fn decode_rejects_lone_continuation_byte() {
    assert_eq!(char::from_utf8(&[0x80]), None);
    assert_eq!(char::from_utf8(&[0xBF]), None);
}

#[test]
fn decode_rejects_invalid_single_byte() {
    assert_eq!(char::from_utf8(&[0xC3]), None);
    assert_eq!(char::from_utf8(&[0xFF]), None);
}

#[test]
fn decode_rejects_truncated_sequence() {
    assert_eq!(char::from_utf8(&[0xE6, 0x88]), None);
    assert_eq!(char::from_utf8(&[0xF0, 0x93, 0x83]), None);
    assert_eq!(char::from_utf8(&[0xFC, 0x84, 0x80, 0x80, 0x80]), None);
}

#[test]
fn decode_rejects_unmarked_leading_byte() {
    // an ASCII byte, a continuation byte, or 0xFE/0xFF cannot open a
    // multi-byte sequence
    assert_eq!(char::from_utf8(&[0x41, 0x42]), None);
    assert_eq!(char::from_utf8(&[0x80, 0x80]), None);
    assert_eq!(char::from_utf8(&[0xFE, 0x80, 0x80, 0x80, 0x80, 0x80, 0x80]), None);
    assert_eq!(char::from_utf8(&[0xFF, 0x80]), None);
}

#[test]
fn decode_rejects_surrogate() {
    // 0xED 0xA0 0x80 assembles 0xD800, the first surrogate
    assert_eq!(char::from_utf8(&[0xED, 0xA0, 0x80]), None);
    assert_eq!(decode_code_point(&[0xED, 0xA0, 0x80]), Some(0xD800));
}

#[test]
fn decode_rejects_past_max_code_point() {
    // 0xF4 0x90 0x80 0x80 assembles 0x110000, one past the last code point
    assert_eq!(char::from_utf8(&[0xF4, 0x90, 0x80, 0x80]), None);
    assert_eq!(decode_code_point(&[0xF4, 0x90, 0x80, 0x80]), Some(0x110000));
    assert_eq!(char::from_utf8(&[0xF8, 0x90, 0x80, 0x80, 0x80]), None);
}

#[test]
fn decode_ignores_trailing_bytes() {
    assert_eq!(char::from_utf8(&[0xC3, 0x80, 0xFF]), Some('\u{C0}'));
    assert_eq!(char::from_utf8(&[0xE6, 0x88, 0x91, 0x91, 0x91]), Some('\u{6211}'));
}

#[test]
fn decode_reads_low_bits_of_continuation() {
    // a continuation byte contributes its low six bits whatever its two
    // high bits hold
    assert_eq!(char::from_utf8(&[0xC3, 0x00]), Some('\u{C0}'));
}

#[test]
fn decode_accepts_overlong() {
    // 'a' spelled with five bytes instead of one
    assert_eq!(char::from_utf8(&[0xF8, 0x80, 0x80, 0x81, 0xA1]), Some('a'));
}

#[test]
fn decode_code_point_structural() {
    // the structural half assembles values no char can hold
    assert_eq!(
        decode_code_point(&[0xFC, 0x84, 0x80, 0x80, 0x80, 0x80]),
        Some(0x4000000)
    );
    assert_eq!(
        decode_code_point(&[0xFD, 0xBF, 0xBF, 0xBF, 0xBF, 0xBF]),
        Some(0x7FFFFFFF)
    );
    assert_eq!(decode_code_point(&[0x61]), Some(0x61));
    assert_eq!(decode_code_point(&[0x80]), None);
}

#[test]
fn encode_boundary_bytes() {
    assert_eq!(encode_code_point(0x80), Some(vec![0xC2, 0x80]));
    assert_eq!(encode_code_point(0x7FF), Some(vec![0xDF, 0xBF]));
    assert_eq!(encode_code_point(0x800), Some(vec![0xE0, 0xA0, 0x80]));
    assert_eq!(encode_code_point(0xFFFF), Some(vec![0xEF, 0xBF, 0xBF]));
    assert_eq!(encode_code_point(0x10000), Some(vec![0xF0, 0x90, 0x80, 0x80]));
    assert_eq!(encode_code_point(0x10FFFF), Some(vec![0xF4, 0x8F, 0xBF, 0xBF]));
    assert_eq!(
        encode_code_point(0x200000),
        Some(vec![0xF8, 0x88, 0x80, 0x80, 0x80])
    );
    assert_eq!(
        encode_code_point(0x3FFFFFF),
        Some(vec![0xFB, 0xBF, 0xBF, 0xBF, 0xBF])
    );
    assert_eq!(
        encode_code_point(0x4000000),
        Some(vec![0xFC, 0x84, 0x80, 0x80, 0x80, 0x80])
    );
    assert_eq!(
        encode_code_point(0x7FFFFFFF),
        Some(vec![0xFD, 0xBF, 0xBF, 0xBF, 0xBF, 0xBF])
    );
}

#[test]
fn encode_rejects_past_maximum() {
    assert_eq!(0x80000000u32.to_utf8(), None);
    assert_eq!(u32::MAX.to_utf8(), None);
    assert_eq!(encode_code_point(0x80000000), None);
}

#[test]
fn encoder_keeps_surrogates_and_extended_range() {
    // the encoder checks only the upper bound: surrogates and values past
    // 0x10FFFF still get byte sequences
    assert_eq!(0xD800u32.to_utf8(), Some(vec![0xED, 0xA0, 0x80]));
    assert_eq!(0x110000u32.to_utf8(), Some(vec![0xF4, 0x90, 0x80, 0x80]));
}
