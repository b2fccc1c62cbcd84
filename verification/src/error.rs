//! The error model: pattern-compilation failures with translated source
//! positions.
//!
//! A pattern-syntax diagnostic arrives with a byte offset and a 1-based line
//! and character column. The byte offset is translated through the scalar
//! offset translator against the pattern text; the column is translated
//! against the specific source line into a 1-based UTF-16 column. Failures
//! without a source location (a compiled pattern over the size budget, an
//! unclassified matcher failure, a text-encoding failure) carry a message
//! only.

use vstd::prelude::*;
use vstd::string::StringSliceAdditionalSpecFns;
use vstd::utf8::*;

use crate::utf16::{utf16_col_in_range, utf16_index_bytes, utf16_index_of, utf16_len_chars};

verus! {

broadcast use vstd::seq::group_seq_axioms;

/// A source position: a byte or UTF-16 offset into the whole pattern, plus a
/// 1-based line and a 1-based column within that line.
#[derive(Debug, Clone, Copy, PartialEq, Eq, Structural)]
pub struct Position {
    pub offset: usize,
    pub line: usize,
    pub column: usize,
}

/// A pair of positions delimiting a pattern-syntax error location.
#[derive(Debug, Clone, Copy, PartialEq, Eq, Structural)]
pub struct Span {
    pub start: Position,
    pub end: Position,
}

/// A translated pattern-syntax error report: the diagnostic category name,
/// the display message, the offending pattern, the primary location, and an
/// optional auxiliary location (a duplicate-name error has two).
#[derive(Debug, Clone)]
pub struct ReSyntax {
    pub kind: String,
    pub message: String,
    pub pattern: String,
    pub span: Span,
    pub auxiliary_span: Option<Span>,
}

/// The raw data of one syntax diagnostic as the pattern parser reports it:
/// byte offsets and 1-based line/char columns, not yet translated to UTF-16.
#[derive(Debug, Clone)]
pub struct RawSyntaxError {
    pub kind: String,
    pub message: String,
    pub pattern: String,
    pub span: Span,
    pub auxiliary_span: Option<Span>,
}

/// The error taxonomy exposed to the caller: a full syntax report, a
/// compiled-pattern size overflow, an unclassified matcher failure, or a
/// text-encoding failure.
#[derive(Debug, Clone)]
pub enum Error {
    RegexSyntax(Box<ReSyntax>),
    RegexCompiledTooBig(String),
    RegexUnspecified(String),
    Encoding(String),
}

/// The failure classes the matching engine reports besides a full syntax
/// diagnostic.
#[derive(Debug, Clone, Copy, PartialEq, Eq, Structural)]
pub enum RegexFailure {
    Syntax,
    CompiledTooBig,
    Other,
}

/// The position of the first line feed at or after `i`, or the buffer length.
pub open spec fn next_newline(s: Seq<u8>, i: int) -> int
    decreases s.len() - i
        when 0 <= i <= s.len()
{
    if i >= s.len() {
        i
    } else if s[i] == 0x0A {
        i
    } else {
        next_newline(s, i + 1)
    }
}

/// The byte position where the 0-based line `k` starts: position 0, or just
/// after the `k`-th line feed. A value above the buffer length means the line
/// does not exist.
pub open spec fn line_start(s: Seq<u8>, k: int) -> int
    decreases k
        when k >= 0
{
    if k <= 0 {
        0
    } else {
        let p = line_start(s, k - 1);
        if p > s.len() {
            p
        } else {
            next_newline(s, p) + 1
        }
    }
}

/// The bytes of the 0-based line `k`: from its start to the next line feed,
/// with a carriage return directly before the line feed trimmed off.
pub open spec fn line_text(s: Seq<u8>, k: int) -> Seq<u8> {
    let ls = line_start(s, k);
    let le = next_newline(s, ls);
    if le > ls && s[le - 1] == 0x0D {
        s.subrange(ls, le - 1)
    } else {
        s.subrange(ls, le)
    }
}

/// A well-formed diagnostic position for pattern bytes `s`: the byte offset
/// is in range, the 1-based line exists, and the 1-based character column is
/// at most one past the line's character count.
pub open spec fn position_wf(s: Seq<u8>, p: Position) -> bool {
    &&& p.offset <= s.len()
    &&& 1 <= p.line
    &&& line_start(s, p.line - 1) < s.len()
    &&& 1 <= p.column
    &&& p.column - 1 <= decode_utf8(line_text(s, p.line - 1)).len()
}

/// Both ends of a diagnostic span are well-formed.
pub open spec fn span_wf(s: Seq<u8>, sp: Span) -> bool {
    position_wf(s, sp.start) && position_wf(s, sp.end)
}

/// The UTF-16 translation of a diagnostic position: the offset becomes the
/// UTF-16 offset of its byte offset, the line stays, and the column becomes
/// 1 plus the UTF-16 width of the characters left of it on its line.
pub open spec fn translated_position(s: Seq<u8>, p: Position) -> Position {
    Position {
        offset: utf16_index_of(s, p.offset as int) as usize,
        line: p.line,
        column: (1 + utf16_len_chars(
            decode_utf8(line_text(s, p.line - 1)).take(p.column - 1),
        )) as usize,
    }
}

/// The UTF-16 translation of both ends of a span.
pub open spec fn translated_span(s: Seq<u8>, sp: Span) -> Span {
    Span { start: translated_position(s, sp.start), end: translated_position(s, sp.end) }
}

/// A raw diagnostic fits its own pattern: the pattern is under the machine
/// size limit and both spans (and the auxiliary span, when present) are
/// well-formed against it.
pub open spec fn raw_wf(raw: RawSyntaxError) -> bool {
    let bytes = encode_utf8(raw.pattern@);
    &&& bytes.len() < usize::MAX
    &&& span_wf(bytes, raw.span)
    &&& (match raw.auxiliary_span {
        Some(a) => span_wf(bytes, a),
        None => true,
    })
}

/// The translated syntax report for a raw diagnostic: kind, message and
/// pattern carried through, both spans translated to UTF-16.
pub open spec fn translated_report(raw: RawSyntaxError) -> ReSyntax {
    let bytes = encode_utf8(raw.pattern@);
    ReSyntax {
        kind: raw.kind,
        message: raw.message,
        pattern: raw.pattern,
        span: translated_span(bytes, raw.span),
        auxiliary_span: match raw.auxiliary_span {
            Some(a) => Some(translated_span(bytes, a)),
            None => None,
        },
    }
}

proof fn lemma_next_newline_props(s: Seq<u8>, i: int)
    requires
        0 <= i <= s.len(),
    ensures
        i <= next_newline(s, i) <= s.len(),
        next_newline(s, i) < s.len() ==> s[next_newline(s, i)] == 0x0A,
    decreases s.len() - i,
{
    if i < s.len() && s[i] != 0x0A {
        lemma_next_newline_props(s, i + 1);
    }
}

proof fn lemma_next_newline_at(s: Seq<u8>, i: int, j: int)
    requires
        0 <= i <= j <= s.len(),
        forall|m: int| i <= m < j ==> s[m] != 0x0A,
        j == s.len() || s[j] == 0x0A,
    ensures
        next_newline(s, i) == j,
    decreases j - i,
{
    if i < j {
        lemma_next_newline_at(s, i + 1, j);
    }
}

proof fn lemma_line_start_mono(s: Seq<u8>, a: int, b: int)
    requires
        0 <= a <= b,
    ensures
        line_start(s, a) <= line_start(s, b),
    decreases b - a,
{
    if a < b {
        lemma_line_start_mono(s, a, b - 1);
        lemma_line_start_nonneg(s, b - 1);
        let p = line_start(s, b - 1);
        if p <= s.len() {
            lemma_next_newline_props(s, p);
        }
    }
}

proof fn lemma_line_start_nonneg(s: Seq<u8>, k: int)
    requires
        k >= 0,
    ensures
        line_start(s, k) >= 0,
    decreases k,
{
    if k > 0 {
        lemma_line_start_nonneg(s, k - 1);
        let p = line_start(s, k - 1);
        if p <= s.len() {
            lemma_next_newline_props(s, p);
        }
    }
}

/// In valid UTF-8, the byte directly after a line feed starts a new decode
/// unit: it is never a continuation byte.
proof fn lemma_not_cont_after_newline(s: Seq<u8>, ls: int)
    requires
        valid_utf8(s),
        1 <= ls < s.len(),
        s[ls - 1] == 0x0A,
    ensures
        !is_continuation_byte(s[ls]),
{
    is_char_boundary_iff_not_is_continuation_byte(s, ls - 1);
    assert(is_char_boundary(s, ls - 1));
    valid_utf8_split(s, ls - 1);
    let tail = s.subrange(ls - 1, s.len() as int);
    assert(valid_utf8(tail));
    assert(tail.len() > 0);
    assert(valid_first_scalar(tail));
    assert(tail[0] == 0x0A);
    assert(length_of_first_scalar(tail) == 1);
    let tail2 = pop_first_scalar(tail);
    assert(valid_utf8(tail2));
    assert(tail2 =~= s.subrange(ls, s.len() as int));
    assert(tail2.len() > 0);
    assert(valid_first_scalar(tail2));
    assert(tail2[0] == s[ls]);
}

/// A line's byte range — delimited by line feeds (or the buffer ends), with
/// an optional trailing carriage return trimmed — is itself valid UTF-8.
proof fn lemma_line_segment_valid(s: Seq<u8>, ls: int, le: int)
    requires
        valid_utf8(s),
        0 <= ls <= le <= s.len(),
        ls == 0 || s[ls - 1] == 0x0A,
        le == s.len() || s[le] == 0x0A || s[le] == 0x0D,
    ensures
        valid_utf8(s.subrange(ls, le)),
{
    if ls == le {
        assert(s.subrange(ls, le) =~= Seq::<u8>::empty());
        assert(valid_utf8(s.subrange(ls, le)));
    } else {
        if le < s.len() {
            is_char_boundary_iff_not_is_continuation_byte(s, le);
        } else {
            is_char_boundary_start_end_of_seq(s);
        }
        assert(is_char_boundary(s, le));
        valid_utf8_split(s, le);
        let pre = s.subrange(0, le);
        assert(valid_utf8(pre));
        if ls == 0 {
            is_char_boundary_start_end_of_seq(pre);
        } else {
            lemma_not_cont_after_newline(s, ls);
            assert(pre[ls] == s[ls]);
            is_char_boundary_iff_not_is_continuation_byte(pre, ls);
        }
        assert(is_char_boundary(pre, ls));
        valid_utf8_split(pre, ls);
        assert(pre.subrange(ls, le) =~= s.subrange(ls, le));
    }
}

/// The position of the first line feed at or after `from`, or the length.
fn find_newline(bytes: &[u8], from: usize) -> (r: usize)
    requires
        from <= bytes@.len(),
    ensures
        r == next_newline(bytes@, from as int),
        from <= r <= bytes@.len(),
        r < bytes@.len() ==> bytes@[r as int] == 0x0A,
{
    let mut j = from;
    while j < bytes.len() && bytes[j] != 0x0A
        invariant
            from <= j <= bytes@.len(),
            forall|m: int| from <= m < j ==> bytes@[m] != 0x0A,
        decreases bytes@.len() - j,
    {
        j = j + 1;
    }
    proof {
        lemma_next_newline_at(bytes@, from as int, j as int);
    }
    j
}

/// Translate one diagnostic position against the pattern text: `None` exactly
/// when the position is not well-formed for this pattern (out-of-range
/// offset, missing line, or column past the line's character count).
pub fn translate_position(s: &str, p: &Position) -> (r: Option<Position>)
    requires
        s.spec_bytes().len() < usize::MAX,
    ensures
        r is Some <==> position_wf(s.spec_bytes(), *p),
        r matches Some(q) ==> q == translated_position(s.spec_bytes(), *p),
{
    let bytes = s.as_bytes();
    let n = bytes.len();
    proof {
        assert(bytes@ == encode_utf8(s@));
        encode_utf8_valid_utf8(s@);
    }
    if p.offset > n || p.line < 1 || p.column < 1 {
        return None;
    }
    let target = p.line - 1;
    let mut ls: usize = 0;
    let mut k: usize = 0;
    while k < target
        invariant
            k <= target,
            target == p.line - 1,
            n == bytes@.len(),
            bytes@ == s.spec_bytes(),
            ls <= n,
            ls as int == line_start(bytes@, k as int),
            ls == 0 || bytes@[ls - 1] == 0x0A,
        decreases target - k,
    {
        let nl = find_newline(bytes, ls);
        if nl == n {
            // the pattern has no further line, so the diagnostic's line
            // cannot exist
            proof {
                assert(next_newline(bytes@, ls as int) == n);
                assert(line_start(bytes@, k + 1) == n + 1);
                lemma_line_start_mono(bytes@, k + 1, target as int);
                assert(line_start(bytes@, target as int) >= n + 1);
                assert(bytes@ == s.spec_bytes());
                assert(!position_wf(s.spec_bytes(), *p));
            }
            return None;
        }
        ls = nl + 1;
        k = k + 1;
    }
    if ls == n {
        // the line would start at the buffer end: it does not exist
        return None;
    }
    let le = find_newline(bytes, ls);
    let lt = if le > ls && bytes[le - 1] == 0x0D {
        le - 1
    } else {
        le
    };
    proof {
        lemma_line_segment_valid(bytes@, ls as int, lt as int);
        assert(bytes@.subrange(ls as int, lt as int) == line_text(bytes@, (p.line - 1) as int));
    }
    let col16 = match utf16_col_in_range(bytes, ls, lt, p.column - 1) {
        None => {
            return None;
        },
        Some(u) => u + 1,
    };
    let off16 = utf16_index_bytes(s, p.offset);
    Some(Position { offset: off16, line: p.line, column: col16 })
}

/// Translate a diagnostic span (both ends) against the pattern text: the
/// byte offsets become UTF-16 offsets and the char columns become UTF-16
/// columns, each against its own source line. `None` exactly when either end
/// is not well-formed for this pattern.
pub fn make_span(s: &str, raw: &Span) -> (r: Option<Span>)
    requires
        s.spec_bytes().len() < usize::MAX,
    ensures
        r is Some <==> span_wf(s.spec_bytes(), *raw),
        r matches Some(sp) ==> sp == translated_span(s.spec_bytes(), *raw),
{
    let start = match translate_position(s, &raw.start) {
        None => {
            return None;
        },
        Some(q) => q,
    };
    let end = match translate_position(s, &raw.end) {
        None => {
            return None;
        },
        Some(q) => q,
    };
    Some(Span { start, end })
}

impl ReSyntax {
    /// Build the translated syntax report from one raw diagnostic: `None`
    /// exactly when a location in the diagnostic is not well-formed for the
    /// pattern it reports on (or the pattern is at the machine size limit).
    pub fn from_raw(raw: RawSyntaxError) -> (r: Option<ReSyntax>)
        ensures
            r is Some <==> raw_wf(raw),
            r matches Some(t) ==> t == translated_report(raw),
    {
        let pat = raw.pattern.as_str();
        let pb = pat.as_bytes();
        if pb.len() == usize::MAX {
            return None;
        }
        proof {
            assert(pb@.len() <= usize::MAX);
        }
        let span = match make_span(pat, &raw.span) {
            None => {
                return None;
            },
            Some(sp) => sp,
        };
        let auxiliary_span = match &raw.auxiliary_span {
            None => None,
            Some(a) => match make_span(pat, a) {
                None => {
                    return None;
                },
                Some(sp) => Some(sp),
            },
        };
        Some(
            ReSyntax {
                kind: raw.kind,
                message: raw.message,
                pattern: raw.pattern,
                span,
                auxiliary_span,
            },
        )
    }
}

impl Error {
    /// Wrap a matcher failure that carries no syntax diagnostic: the
    /// size-budget overflow keeps its own class, everything else is reported
    /// as unspecified. A syntax failure is never expected here — the caller
    /// validates the pattern before compiling it — so it is folded into the
    /// unspecified class rather than aborting.
    pub fn from_failure(class: RegexFailure, message: String) -> (r: Error)
        ensures
            class is CompiledTooBig ==> r == Error::RegexCompiledTooBig(message),
            !(class is CompiledTooBig) ==> r == Error::RegexUnspecified(message),
    {
        match class {
            RegexFailure::CompiledTooBig => Error::RegexCompiledTooBig(message),
            RegexFailure::Syntax => Error::RegexUnspecified(message),
            RegexFailure::Other => Error::RegexUnspecified(message),
        }
    }
}

/// Whether the syntax crate rejects a pattern: a deterministic function of
/// the pattern text alone, named here so that contracts can say when a
/// validation succeeds.
pub uninterp spec fn syntax_rejects(p: Seq<char>) -> bool;

/// The raw concrete-syntax (parse-stage) diagnostic the syntax crate reports
/// for a pattern, if that is the family it rejects it with: a deterministic
/// function of the pattern text alone.
pub uninterp spec fn ast_diagnostic(p: Seq<char>) -> Option<RawSyntaxError>;

/// The raw translate-stage (semantic) diagnostic the syntax crate reports
/// for a pattern, if that is the family it rejects it with: a deterministic
/// function of the pattern text alone.
pub uninterp spec fn hir_diagnostic(p: Seq<char>) -> Option<RawSyntaxError>;

/// Relies on regex_syntax::parse: true exactly when the syntax crate rejects
/// the pattern, which depends on the pattern text alone.
#[verifier::external_body]
fn pattern_rejected(pattern: &str) -> (r: bool)
    ensures
        r == syntax_rejects(pattern@),
{
    regex_syntax::parse(pattern).is_err()
}

/// Relies on regex_syntax::parse and ast::Error's accessors: for a pattern
/// rejected at the concrete-syntax stage, the kind (debug name and display
/// message), the pattern, the span, and the optional auxiliary span (present
/// for duplicate-name errors). Spans carry byte offsets and 1-based
/// line/char columns.
#[verifier::external_body]
fn ast_error_of(pattern: &str) -> (r: Option<RawSyntaxError>)
    ensures
        r == ast_diagnostic(pattern@),
        r matches Some(d) ==> d.pattern@ == pattern@,
{
    let pos = |p: &regex_syntax::ast::Position| Position { offset: p.offset, line: p.line, column: p.column };
    let sp = |s: &regex_syntax::ast::Span| Span { start: pos(&s.start), end: pos(&s.end) };
    match regex_syntax::parse(pattern) {
        Err(regex_syntax::Error::Parse(e)) => Some(RawSyntaxError {
            kind: format!("{:?}", e.kind()),
            message: e.kind().to_string(),
            pattern: e.pattern().to_owned(),
            span: sp(e.span()),
            auxiliary_span: e.auxiliary_span().map(|a| sp(a)),
        }),
        _ => None,
    }
}

/// Relies on regex_syntax::parse and hir::Error's accessors: for a pattern
/// rejected at the translate (semantic) stage, the kind, the pattern and the
/// span; a translate error has no auxiliary span.
#[verifier::external_body]
fn hir_error_of(pattern: &str) -> (r: Option<RawSyntaxError>)
    ensures
        r == hir_diagnostic(pattern@),
        r matches Some(d) ==> d.pattern@ == pattern@ && d.auxiliary_span is None,
{
    let pos = |p: &regex_syntax::ast::Position| Position { offset: p.offset, line: p.line, column: p.column };
    let sp = |s: &regex_syntax::ast::Span| Span { start: pos(&s.start), end: pos(&s.end) };
    match regex_syntax::parse(pattern) {
        Err(regex_syntax::Error::Translate(e)) => Some(RawSyntaxError {
            kind: format!("{:?}", e.kind()),
            message: e.kind().to_string(),
            pattern: e.pattern().to_owned(),
            span: sp(e.span()),
            auxiliary_span: None,
        }),
        _ => None,
    }
}

/// What a single raw diagnostic becomes in the error model: the translated
/// syntax report when the diagnostic fits its own pattern, and an
/// unspecified error carrying the diagnostic's message when it does not.
pub open spec fn diagnostic_error_fits(e: Error, d: RawSyntaxError) -> bool {
    if raw_wf(d) {
        e matches Error::RegexSyntax(b) && *b == translated_report(d)
    } else {
        e matches Error::RegexUnspecified(m) && m == d.message
    }
}

/// What the error for a rejected pattern must be: built from the pattern's
/// parse-stage diagnostic when there is one, else from its translate-stage
/// diagnostic, else (an unknown diagnostic family) unspecified.
pub open spec fn rejection_error_fits(e: Error, p: Seq<char>) -> bool {
    match ast_diagnostic(p) {
        Some(d) => diagnostic_error_fits(e, d),
        None => match hir_diagnostic(p) {
            Some(d) => diagnostic_error_fits(e, d),
            None => e is RegexUnspecified,
        },
    }
}

/// Validate a pattern with the syntax crate: `None` exactly when it is
/// accepted; a parse or translate diagnostic becomes a full translated
/// syntax report, and anything else — an unknown diagnostic family, or a
/// diagnostic whose locations do not fit its own pattern — is reported as
/// unspecified.
pub fn check_pattern(pattern: &str) -> (r: Option<Error>)
    ensures
        r is Some <==> syntax_rejects(pattern@),
        r matches Some(e) ==> rejection_error_fits(e, pattern@),
{
    if !pattern_rejected(pattern) {
        return None;
    }
    let parts = match ast_error_of(pattern) {
        Some(p) => p,
        None => match hir_error_of(pattern) {
            Some(p) => p,
            None => {
                return Some(Error::RegexUnspecified("unspecified error".to_owned()));
            },
        },
    };
    let message = parts.message.clone();
    Some(
        match ReSyntax::from_raw(parts) {
            Some(rs) => Error::RegexSyntax(Box::new(rs)),
            None => Error::RegexUnspecified(message),
        },
    )
}

} // verus!
