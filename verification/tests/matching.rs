//! End-to-end tests of the match/capture model, replacement, and the error
//! model, with the real matching engine linked in.

use regex_utf16::error::{check_pattern, make_span, Error, Position, RegexFailure, Span};
use regex_utf16::results::{re_find, re_replace, re_replace_list, CapSer};

fn only_match(r: Result<regex_utf16::results::MatchSer, Error>) -> Vec<CapSer> {
    let m = r.expect("expected a successful match");
    assert_eq!(m.matches.len(), 1, "expected exactly one match");
    m.matches.into_iter().next().unwrap()
}

#[test]
fn test_find_unicode() {
    let s = "😃";
    let caps = only_match(re_find(s, ".", "u"));
    assert_eq!(caps.len(), 1);
    let c = &caps[0];
    assert_eq!(c.group_name, None);
    assert_eq!(c.match_num, 0);
    assert_eq!(c.group_num, 0);
    assert!(c.is_participating);
    assert!(c.entire_match);
    assert_eq!(c.content.as_deref(), Some(s));
    assert_eq!(c.start_utf16, Some(0));
    assert_eq!(c.start, Some(0));
    assert_eq!(c.end_utf16, Some(2));
    assert_eq!(c.end, Some(4));
}

#[test]
fn test_find_indices() {
    let s = "😀😃😄";
    let caps = only_match(re_find(s, ".*", "u"));
    assert_eq!(caps.len(), 1);
    let c = &caps[0];
    assert_eq!(c.group_name, None);
    assert_eq!(c.match_num, 0);
    assert_eq!(c.group_num, 0);
    assert!(c.is_participating);
    assert!(c.entire_match);
    assert_eq!(c.content.as_deref(), Some(s));
    assert_eq!(c.start_utf16, Some(0));
    assert_eq!(c.start, Some(0));
    assert_eq!(c.end_utf16, Some(6));
    assert_eq!(c.end, Some(12));
}

#[test]
fn test_find_invalid_utf8() {
    // test without unicode flag
    let s = "a😀a";
    let m = re_find(s, "..", "g").expect("expected matches");
    assert_eq!(m.matches.len(), 3);
    let expected: &[(&str, usize, usize, usize, usize)] = &[
        (r"a\xf0", 0, 0, 3, 2),
        (r"\x9f\x98", 3, 2, 3, 4),
        (r"\x80a", 3, 4, 4, 6),
    ];
    for (i, (content, start_utf16, start, end_utf16, end)) in expected.iter().enumerate() {
        let caps = &m.matches[i];
        assert_eq!(caps.len(), 1);
        let c = &caps[0];
        assert_eq!(c.group_name, None);
        assert_eq!(c.match_num, i);
        assert_eq!(c.group_num, 0);
        assert!(c.is_participating);
        assert!(c.entire_match);
        assert_eq!(c.content.as_deref(), Some(*content), "match {i}");
        assert_eq!(c.start_utf16, Some(*start_utf16));
        assert_eq!(c.start, Some(*start));
        assert_eq!(c.end_utf16, Some(*end_utf16));
        assert_eq!(c.end, Some(*end));
    }
}

#[test]
fn test_replace() {
    let res = re_replace("test 1234 end", r#"test (?P<cap>\d+)\s?"#, "$cap: ", "");
    assert_eq!(res.expect("replacement should succeed"), "1234: end");
}

#[test]
fn test_replace_list() {
    let res = re_replace_list("foo bar!", r#"\w+"#, "$0\n", "g");
    assert_eq!(res.expect("replacement should succeed"), "foo\nbar\n");
}

#[test]
fn test_named_group_capture() {
    let caps = only_match(re_find("test 1234 end", r"test (?P<cap>\d+)", ""));
    assert_eq!(caps.len(), 2);
    assert!(caps[0].entire_match);
    assert_eq!(caps[1].group_name.as_deref(), Some("cap"));
    assert_eq!(caps[1].group_num, 1);
    assert!(caps[1].is_participating);
    assert_eq!(caps[1].content.as_deref(), Some("1234"));
    assert_eq!(caps[1].start, Some(5));
    assert_eq!(caps[1].end, Some(9));
}

#[test]
fn test_non_participating_group() {
    let caps = only_match(re_find("ab", "a(x)?b", ""));
    assert_eq!(caps.len(), 2);
    assert!(!caps[1].is_participating);
    assert_eq!(caps[1].content, None);
    assert_eq!(caps[1].start, None);
    assert_eq!(caps[1].end, None);
    assert_eq!(caps[1].start_utf16, None);
    assert_eq!(caps[1].end_utf16, None);
}

#[test]
fn test_duplicate_name_error_spans() {
    // a duplicate named capture group yields a syntax error with both a
    // primary and an auxiliary span, resolving to distinct positions
    let pattern = "(?P<dup>a)(?P<dup>b)";
    let err = check_pattern(pattern).expect("pattern must be rejected");
    match err {
        Error::RegexSyntax(rs) => {
            assert_eq!(rs.pattern, pattern);
            assert!(!rs.kind.is_empty());
            assert!(!rs.message.is_empty());
            let aux = rs.auxiliary_span.expect("duplicate-name error has two spans");
            assert_ne!(rs.span, aux);
            let max16: usize = pattern.encode_utf16().count();
            for p in [rs.span.start, rs.span.end, aux.start, aux.end] {
                assert!(p.offset <= max16);
                assert_eq!(p.line, 1);
                assert!(p.column >= 1);
            }
        }
        other => panic!("expected a syntax error, got {other:?}"),
    }
}

#[test]
fn test_syntax_error_unclosed_group() {
    let err = check_pattern("(").expect("pattern must be rejected");
    match err {
        Error::RegexSyntax(rs) => {
            assert_eq!(rs.pattern, "(");
            assert!(!rs.message.is_empty());
        }
        other => panic!("expected a syntax error, got {other:?}"),
    }
    assert!(matches!(re_find("x", "(", ""), Err(Error::RegexSyntax(_))));
}

#[test]
fn test_pattern_accepted() {
    assert!(check_pattern("a(b)c").is_none());
}

#[test]
fn test_encoding_error_on_broken_replacement() {
    // replacing one byte inside the emoji leaves invalid UTF-8 behind
    let res = re_replace("😀", ".", "z", "");
    assert!(matches!(res, Err(Error::Encoding(_))));
}

#[test]
fn test_span_translation_multiline_unicode() {
    // pattern bytes: "ab\nc😀d"; line 2 is "c😀d"; the diagnostic column is
    // a 1-based char column, translated to a 1-based UTF-16 column
    let pattern = "ab\nc😀d";
    let raw = Span {
        start: Position { offset: 3, line: 2, column: 1 },
        end: Position { offset: 8, line: 2, column: 3 },
    };
    let translated = make_span(pattern, &raw).expect("well-formed span");
    // bytes [0,3) are "ab\n": three UTF-16 units
    assert_eq!(translated.start, Position { offset: 3, line: 2, column: 1 });
    // bytes [0,8) are "ab\nc😀": 4 + 2 units; chars "c😀" left of the column
    assert_eq!(translated.end, Position { offset: 6, line: 2, column: 4 });
}

#[test]
fn test_span_translation_rejects_missing_line() {
    let raw = Span {
        start: Position { offset: 0, line: 2, column: 1 },
        end: Position { offset: 0, line: 2, column: 1 },
    };
    assert!(make_span("abc", &raw).is_none());
}

#[test]
fn test_error_variant_construction() {
    let e = Error::from_failure(RegexFailure::CompiledTooBig, "too big".to_owned());
    assert!(matches!(e, Error::RegexCompiledTooBig(_)));
    let e = Error::from_failure(RegexFailure::Other, "other".to_owned());
    assert!(matches!(e, Error::RegexUnspecified(_)));
}

#[test]
fn test_find_no_match_is_empty() {
    let m = re_find("abc", "z", "g").expect("valid pattern");
    assert!(m.matches.is_empty());
}
