//! Offset-translation tests: scalar and batched byte-to-UTF-16 mapping.

use regex_utf16::utf16::{
    utf16_boundary_bytes, utf16_index_bytes, utf16_index_bytes_slice, utf16_index_chars,
};

/// UTF8 test string
const TEST_S: &str = "x😀🤣a🤩😛🏴‍☠️🤑";

fn test_idx() -> Vec<(usize, usize, usize, usize, &'static str)> {
    // u8 start, u8 end, u16 start, u16 end, substring
    vec![
        (0, 1, 0, 1, "x"),
        (1, 5, 1, 3, "😀"),
        (5, 14, 3, 8, "🤣a🤩"),
        (18, 31, 10, 15, "🏴‍☠️"),
        (31, 35, 15, 17, "🤑"),
    ]
}

#[test]
fn test_u16_byte_index() {
    let str16: Vec<u16> = TEST_S.encode_utf16().collect();

    for (s8, e8, s16_ex, e16_ex, r8) in test_idx().iter().copied() {
        let s16 = utf16_index_bytes(TEST_S, s8);
        let e16 = utf16_index_bytes(TEST_S, e8);
        let r16: Vec<u16> = r8.encode_utf16().collect();

        assert_eq!(s16, s16_ex);
        assert_eq!(e16, e16_ex);
        assert_eq!(&TEST_S[s8..e8], r8);
        assert_eq!(&str16[s16..e16], r16);
    }
}

#[test]
fn test_u16_slice() {
    let mut expected_vec: Vec<_> = test_idx()
        .iter()
        .copied()
        .map(|(s8, _, s16_ex, _, _)| (s8, s16_ex))
        .collect();
    let mut end_vec: Vec<_> = test_idx()
        .iter()
        .copied()
        .map(|(_, e8, _, e16_ex, _)| (e8, e16_ex))
        .collect();

    expected_vec.append(&mut end_vec);
    let input_vec: Vec<usize> = expected_vec.iter().map(|x| x.0).collect();

    expected_vec.sort_by_key(|v| v.0);
    expected_vec.dedup();

    let res = utf16_index_bytes_slice(TEST_S, input_vec.clone());
    assert_eq!(expected_vec, res);

    test_byte_slice_sparse(TEST_S, &input_vec, &expected_vec);
}

#[test]
fn test_u16_byte_slice_index_allemojis() {
    let s = "😀😃😄";
    let input = vec![0, 12];
    let expected = vec![(0, 0), (12, 6)];
    let map = utf16_index_bytes_slice(s, input.clone());
    assert_eq!(expected, map);

    test_byte_slice_sparse(s, &input, &expected);
}

// Test on non-utf8 boundaries
#[test]
fn test_u16_slice_nonutf8_endemoji() {
    let s = "xx😀";
    let input: Vec<usize> = (0..=s.len()).collect();
    let expected = vec![(0, 0), (1, 1), (2, 2), (3, 4), (4, 4), (5, 4), (6, 4)];
    let res = utf16_index_bytes_slice(s, input.clone());
    assert_eq!(expected, res);

    test_byte_slice_sparse(s, &input, &expected);
}

#[test]
fn test_u16_slice_nonutf8_enchar() {
    let s = "xx😀xx";
    let input: Vec<usize> = (0..=s.len()).collect();
    let expected = vec![
        (0, 0),
        (1, 1),
        (2, 2),
        (3, 4),
        (4, 4),
        (5, 4),
        (6, 4),
        (7, 5),
        (8, 6),
    ];
    let res = utf16_index_bytes_slice(s, input.clone());
    assert_eq!(expected, res);

    test_byte_slice_sparse(s, &input, &expected);
}

#[test]
fn test_u16_slice_nonutf8_startemoji() {
    let s = "😀xx";
    let input: Vec<usize> = (0..=s.len()).collect();
    let expected = vec![(0, 0), (1, 2), (2, 2), (3, 2), (4, 2), (5, 3), (6, 4)];
    let res = utf16_index_bytes_slice(s, input.clone());
    assert_eq!(expected, res);

    test_byte_slice_sparse(s, &input, &expected);
}

/// Given an input vector and an expected vector, test first, last, and middle
/// items separately. This helps fuzz errors with char counting
fn test_byte_slice_sparse(s: &str, input: &[usize], expected: &[(usize, usize)]) {
    let mut in_srt = Vec::from_iter(input.iter().copied());
    let mut ex_srt = Vec::from_iter(expected.iter().copied());
    in_srt.sort_unstable();
    in_srt.dedup();
    ex_srt.sort_by_key(|k| k.0);
    ex_srt.dedup_by_key(|k| k.0);

    let len = in_srt.len();
    let to_test = [
        (
            vec![*in_srt.first().unwrap()],
            vec![*ex_srt.first().unwrap()],
        ),
        (vec![*in_srt.last().unwrap()], vec![*ex_srt.last().unwrap()]),
        (
            vec![*in_srt.first().unwrap(), *in_srt.last().unwrap()],
            vec![*ex_srt.first().unwrap(), *ex_srt.last().unwrap()],
        ),
        (vec![in_srt[len / 2]], vec![ex_srt[len / 2]]),
    ];

    for (in_t, ex_t) in to_test.into_iter() {
        let fail_msg = format!(
            "\nfailed at input: {input:?}\nexpected: {expected:?}\ntesting: ({in_t:?}, {ex_t:?})"
        );
        let res = utf16_index_bytes_slice(s, in_t);
        assert_eq!(ex_t, res, "{}", fail_msg);
    }
}

#[test]
fn test_monotonic_concrete() {
    // byte-to-UTF-16 mapping never decreases as the byte offset grows
    let s = "a😀b🤣";
    let mut last = 0;
    for off in 0..=s.len() {
        let cur = utf16_index_bytes(s, off);
        assert!(last <= cur, "not monotonic at {off}");
        last = cur;
    }
}

#[test]
fn test_ceiling_idempotent_concrete() {
    // re-querying an already-snapped boundary returns the same value
    let s = "x😀🤣a";
    for off in 0..=s.len() {
        let b = utf16_boundary_bytes(s, off);
        assert!(off <= b && b <= s.len());
        assert_eq!(utf16_index_bytes(s, b), utf16_index_bytes(s, off));
        assert_eq!(utf16_boundary_bytes(s, b), b);
    }
}

#[test]
fn test_batch_matches_scalar_full_range() {
    // the batched form agrees with per-offset scalar calls, for the full
    // offset range and unsorted duplicated input
    let s = "ab😀c🤩";
    let mut input: Vec<usize> = (0..=s.len()).rev().collect();
    input.push(3);
    input.push(0);
    let res = utf16_index_bytes_slice(s, input);
    assert_eq!(res.len(), s.len() + 1);
    for (k, (off, u16off)) in res.iter().copied().enumerate() {
        assert_eq!(off, k);
        assert_eq!(u16off, utf16_index_bytes(s, off));
    }
}

#[test]
fn test_boundary_snap_exact() {
    // an offset inside the emoji's four bytes snaps forward to its end
    let s = "a😀b";
    assert_eq!(utf16_boundary_bytes(s, 0), 0);
    assert_eq!(utf16_boundary_bytes(s, 1), 1);
    assert_eq!(utf16_boundary_bytes(s, 2), 5);
    assert_eq!(utf16_boundary_bytes(s, 4), 5);
    assert_eq!(utf16_boundary_bytes(s, 5), 5);
    assert_eq!(utf16_boundary_bytes(s, 6), 6);
}

#[test]
fn test_batch_empty_input() {
    let res = utf16_index_bytes_slice("abc", vec![]);
    assert!(res.is_empty());
}

#[test]
fn test_char_index_widths() {
    // 'a' is one UTF-16 unit, the emoji is two
    let s = "a😀b";
    assert_eq!(utf16_index_chars(s, 0), 0);
    assert_eq!(utf16_index_chars(s, 1), 1);
    assert_eq!(utf16_index_chars(s, 2), 3);
    assert_eq!(utf16_index_chars(s, 3), 4);
}
