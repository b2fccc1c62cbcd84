//! Lossy renderer tests: verbatim valid runs, `\xHH` escapes, and the
//! round-trip against the offset translator.

use regex_utf16::render::str_from_utf8_rep;
use regex_utf16::utf16::utf16_index_bytes;

#[test]
fn test_str_utf8_replace() {
    let s = "a😀b";
    let expected: &[(usize, usize, &str)] = &[
        (0, 1, "a"),
        (0, 3, "a\\xf0\\x9f"),
        (1, 4, "\\xf0\\x9f\\x98"),
        (2, 3, "\\x9f"),
    ];

    for (start, end, res) in expected.iter() {
        let got = str_from_utf8_rep(s, *start, *end);
        assert_eq!(&got.as_str(), res, "failed at {start}..{end}");
    }
}

#[test]
fn test_round_trip_sample() {
    // byte range [1,5) maps to UTF-16 [1,3) and renders as the first emoji;
    // byte range [5,14) maps to UTF-16 [3,8)
    let s = "x😀🤣a🤩😛🏴‍☠️🤑";
    assert_eq!(utf16_index_bytes(s, 1), 1);
    assert_eq!(utf16_index_bytes(s, 5), 3);
    assert_eq!(str_from_utf8_rep(s, 1, 5), "😀");
    assert_eq!(utf16_index_bytes(s, 5), 3);
    assert_eq!(utf16_index_bytes(s, 14), 8);
    assert_eq!(str_from_utf8_rep(s, 5, 14), "🤣a🤩");
}

#[test]
fn test_all_invalid_slice() {
    // a range that cuts the emoji renders every byte as its own escape
    let s = "a😀b";
    assert_eq!(str_from_utf8_rep(s, 1, 4), "\\xf0\\x9f\\x98");
}

#[test]
fn test_render_full_valid_range() {
    // a fully valid, boundary-aligned range passes through verbatim
    let s = "héllo wörld 😀";
    assert_eq!(str_from_utf8_rep(s, 0, s.len()), s);
}

#[test]
fn test_render_empty_range() {
    assert_eq!(str_from_utf8_rep("abc", 1, 1), "");
}

#[test]
fn test_render_escape_hex_digits() {
    // lowercase hex, zero padded, one escape per byte, in byte order
    let s = "\u{7f}😀";
    // cut the emoji after one byte: 0x7f passes through, 0xf0 is escaped
    assert_eq!(str_from_utf8_rep(s, 0, 2), "\u{7f}\\xf0");
}
