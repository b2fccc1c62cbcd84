//! The match/capture result model, and the matching and replacing entry
//! points built on the external matching engine.
//!
//! The engine reports byte-offset spans. For every capture group of every
//! match this module builds a record carrying the rendered content and the
//! byte and UTF-16 start/end offsets, through the verified offset translator
//! and renderer.

use regex::bytes::RegexBuilder;
use vstd::prelude::*;
use vstd::string::StringSliceAdditionalSpecFns;
use vstd::utf8::*;

use crate::error::{check_pattern, rejection_error_fits, syntax_rejects, Error, RegexFailure};
use crate::render::{render_seq, str_from_utf8_rep};
use crate::utf16::{utf16_index_bytes, utf16_index_of};

verus! {

broadcast use vstd::seq::group_seq_axioms;

/// One capture group's result within one match attempt. Group 0 is the whole
/// match. A non-participating group (present in the pattern, unmatched in
/// this attempt) carries neither content nor offsets.
#[derive(Debug, Clone)]
pub struct CapSer {
    pub group_name: Option<String>,
    pub match_num: usize,
    pub group_num: usize,
    pub is_participating: bool,
    pub entire_match: bool,
    pub content: Option<String>,
    pub start_utf16: Option<usize>,
    pub start: Option<usize>,
    pub end_utf16: Option<usize>,
    pub end: Option<usize>,
}

/// All match attempts of one find operation, in document order; each attempt
/// holds its capture records indexed by group number.
#[derive(Debug, Clone)]
pub struct MatchSer {
    pub matches: Vec<Vec<CapSer>>,
}

/// The flag characters recognised by the matching entry points.
#[derive(Debug, Clone, Copy, PartialEq, Eq, Structural)]
pub struct FlagSet {
    pub global: bool,
    pub unicode: bool,
    pub case_insensitive: bool,
    pub multi_line: bool,
    pub dot_all: bool,
}

/// A capture record is internally consistent with the subject bytes `s`: a
/// participating record's UTF-16 offsets are the translations of its byte
/// offsets and its content is the rendering of its byte range; a
/// non-participating record carries nothing.
pub open spec fn cap_wf(s: Seq<u8>, c: CapSer) -> bool {
    match (c.start, c.end) {
        (Some(a), Some(b)) => {
            &&& c.is_participating
            &&& a <= b <= s.len()
            &&& c.start_utf16 == Some(utf16_index_of(s, a as int) as usize)
            &&& c.end_utf16 == Some(utf16_index_of(s, b as int) as usize)
            &&& c.content matches Some(t) && t@ == render_seq(s.subrange(a as int, b as int))
        },
        (None, None) => {
            &&& !c.is_participating
            &&& c.content is None
            &&& c.start_utf16 is None
            &&& c.end_utf16 is None
        },
        _ => false,
    }
}

/// One attempt's records are consistent: group numbers are the indices,
/// group 0 exists, participates and is the only `entire_match` record, and
/// every record satisfies `cap_wf`.
pub open spec fn match_wf(s: Seq<u8>, caps: Seq<CapSer>, match_num: int) -> bool {
    &&& caps.len() >= 1
    &&& caps[0].is_participating
    &&& forall|j: int|
        0 <= j < caps.len() ==> cap_wf(s, #[trigger] caps[j]) && caps[j].match_num == match_num
            && caps[j].group_num == j && caps[j].entire_match == (j == 0)
}

/// A find result is consistent: every attempt satisfies `match_wf` with its
/// own index, and the whole-match spans come in strictly ascending,
/// non-overlapping document order.
pub open spec fn matches_wf(s: Seq<u8>, m: MatchSer) -> bool {
    &&& forall|i: int| 0 <= i < m.matches@.len() ==> match_wf(s, (#[trigger] m.matches@[i])@, i)
    &&& forall|i1: int, i2: int|
        0 <= i1 < i2 < m.matches@.len() ==> ((#[trigger] m.matches@[i1])@[0].end matches Some(e)
            && (#[trigger] m.matches@[i2])@[0].start matches Some(a) && e <= a)
}

/// A capture record carries exactly the given byte span: its `start`/`end`
/// fields are the span's ends, or `None` for a non-participating group.
pub open spec fn cap_carries(c: CapSer, sp: Option<(usize, usize)>) -> bool {
    match sp {
        Some(s) => c.start == Some(s.0) && c.end == Some(s.1),
        None => c.start is None && c.end is None,
    }
}

/// A find result carries exactly the given span table: one attempt per row,
/// one record per entry, each record holding that entry's byte span.
pub open spec fn matches_carry_spans(m: MatchSer, sp: Seq<Seq<Option<(usize, usize)>>>) -> bool {
    &&& m.matches@.len() == sp.len()
    &&& forall|i: int| 0 <= i < sp.len() ==> (#[trigger] m.matches@[i])@.len() == sp[i].len()
    &&& forall|i: int, j: int|
        0 <= i < sp.len() && 0 <= j < sp[i].len() ==> #[trigger] cap_carries(
            m.matches@[i]@[j],
            sp[i][j],
        )
}

/// What the error for a classified matcher failure must be: the size-budget
/// overflow keeps its own class, everything else is unspecified.
pub open spec fn failure_error_fits(e: Error, k: Option<RegexFailure>) -> bool {
    match k {
        Some(RegexFailure::CompiledTooBig) => e is RegexCompiledTooBig,
        Some(_) => e is RegexUnspecified,
        None => false,
    }
}

/// Build one capture record from the byte span the matcher reported: the
/// content is the lossy rendering of the span and the UTF-16 offsets are the
/// ceiling-snapped translations of the byte offsets.
pub fn cap_ser_of(
    s: &str,
    group_name: Option<String>,
    match_num: usize,
    group_num: usize,
    span: Option<(usize, usize)>,
) -> (r: CapSer)
    requires
        span matches Some(sp) ==> sp.0 <= sp.1 <= s.spec_bytes().len(),
    ensures
        cap_wf(s.spec_bytes(), r),
        r.group_name == group_name,
        r.match_num == match_num,
        r.group_num == group_num,
        r.entire_match == (group_num == 0),
        r.is_participating == (span is Some),
        r.start == (match span {
            Some(sp) => Some(sp.0),
            None => None,
        }),
        r.end == (match span {
            Some(sp) => Some(sp.1),
            None => None,
        }),
{
    match span {
        None => CapSer {
            group_name,
            match_num,
            group_num,
            is_participating: false,
            entire_match: group_num == 0,
            content: None,
            start_utf16: None,
            start: None,
            end_utf16: None,
            end: None,
        },
        Some((a, b)) => {
            let content = str_from_utf8_rep(s, a, b);
            let start_utf16 = utf16_index_bytes(s, a);
            let end_utf16 = utf16_index_bytes(s, b);
            CapSer {
                group_name,
                match_num,
                group_num,
                is_participating: true,
                entire_match: group_num == 0,
                content: Some(content),
                start_utf16: Some(start_utf16),
                start: Some(a),
                end_utf16: Some(end_utf16),
                end: Some(b),
            }
        },
    }
}

/// Whether the byte `t` occurs in `s`.
fn has_byte(s: &[u8], t: u8) -> (r: bool)
    ensures
        r == s@.contains(t),
{
    let mut i: usize = 0;
    while i < s.len()
        invariant
            i <= s@.len(),
            forall|j: int| 0 <= j < i ==> s@[j] != t,
        decreases s@.len() - i,
    {
        if s[i] == t {
            proof {
                assert(s@[i as int] == t);
            }
            return true;
        }
        i = i + 1;
    }
    proof {
        if s@.contains(t) {
            let j = choose|j: int| 0 <= j < s@.len() && s@[j] == t;
        }
    }
    false
}

/// The flag set a flag string denotes: each known flag (`g`, `u`, `i`, `m`,
/// `s`, named here by its ASCII value) is set exactly when its character
/// occurs; unknown characters are ignored.
pub open spec fn flag_set_of(s: Seq<u8>) -> FlagSet {
    FlagSet {
        global: s.contains(0x67u8),
        unicode: s.contains(0x75u8),
        case_insensitive: s.contains(0x69u8),
        multi_line: s.contains(0x6Du8),
        dot_all: s.contains(0x73u8),
    }
}

/// Parse a flag string into the flag set it denotes.
pub fn parse_flags(flags: &str) -> (r: FlagSet)
    ensures
        r == flag_set_of(flags.spec_bytes()),
{
    let b = flags.as_bytes();
    FlagSet {
        global: has_byte(b, 0x67u8),
        unicode: has_byte(b, 0x75u8),
        case_insensitive: has_byte(b, 0x69u8),
        multi_line: has_byte(b, 0x6Du8),
        dot_all: has_byte(b, 0x73u8),
    }
}

/// The matcher's compile outcome for a pattern under a flag set: `None` when
/// the pattern compiles, or the classified failure. A deterministic function
/// of pattern and flags alone.
pub uninterp spec fn compile_failure(p: Seq<char>, f: FlagSet) -> Option<RegexFailure>;

/// The byte spans of the matcher's successive non-overlapping matches of a
/// compiling pattern against a haystack: one row per match (only the first
/// with `limit_one`), one entry per capture group, `None` for a group that
/// does not participate. A deterministic function of its arguments alone.
pub uninterp spec fn match_spans(p: Seq<char>, f: FlagSet, hay: Seq<u8>, limit_one: bool) -> Seq<
    Seq<Option<(usize, usize)>>,
>;

/// The bytes of the haystack with the first (or, with `all`, every) match of
/// a compiling pattern replaced by the template expansion. A deterministic
/// function of its arguments alone.
pub uninterp spec fn replaced_bytes(
    p: Seq<char>,
    f: FlagSet,
    hay: Seq<u8>,
    rep: Seq<u8>,
    all: bool,
) -> Seq<u8>;

/// The concatenation of the template expansion for every successive match of
/// a compiling pattern, dropping the unmatched text between them. A
/// deterministic function of its arguments alone.
pub uninterp spec fn expanded_bytes(p: Seq<char>, f: FlagSet, hay: Seq<u8>, rep: Seq<u8>) -> Seq<
    u8,
>;

/// Relies on regex::bytes::RegexBuilder::build and Regex::captures_iter:
/// compiles the pattern with the given flag settings, matching on raw bytes
/// (with `unicode(false)` a match may split UTF-8 sequences), and collects
/// the capture spans of the successive non-overlapping matches in document
/// order. The whole-match group 0 is always present, every group's byte
/// offsets lie within the haystack with start at most end, and with
/// `limit_one` only the first match is taken. A build error is classified by
/// its variant — a syntax failure, the compiled-size budget, or anything
/// else — with its display message.
#[verifier::external_body]
fn find_spans(pattern: &str, f: &FlagSet, hay: &[u8], limit_one: bool) -> (r: Result<
    Vec<Vec<Option<(usize, usize)>>>,
    (RegexFailure, String),
>)
    ensures
        r is Ok <==> compile_failure(pattern@, *f) is None,
        r matches Err(e) ==> compile_failure(pattern@, *f) == Some(e.0),
        r matches Ok(v) ==> ({
            let ms = match_spans(pattern@, *f, hay@, limit_one);
            &&& v@.len() == ms.len()
            &&& forall|i: int| 0 <= i < v@.len() ==> (#[trigger] v@[i])@ == ms[i]
        }),
        r matches Ok(v) ==> forall|i: int, j: int|
            0 <= i < v@.len() && 0 <= j < v@[i]@.len() && (#[trigger] v@[i]@[j]) is Some ==> (
            v@[i]@[j]->0).0 <= (v@[i]@[j]->0).1 <= hay@.len(),
        r matches Ok(v) ==> forall|i: int|
            0 <= i < v@.len() ==> (#[trigger] v@[i])@.len() >= 1 && v@[i]@[0] is Some,
        r matches Ok(v) ==> forall|i1: int, i2: int|
            0 <= i1 < i2 < v@.len() ==> ((#[trigger] v@[i1])@[0]->0).1 <= ((
            #[trigger] v@[i2])@[0]->0).0,
{
    let mut b = RegexBuilder::new(pattern);
    b.unicode(f.unicode).case_insensitive(f.case_insensitive);
    b.multi_line(f.multi_line).dot_matches_new_line(f.dot_all);
    match b.build() {
        Ok(re) => Ok(re.captures_iter(hay).take(if limit_one { 1 } else { usize::MAX })
            .map(|c| c.iter().map(|m| m.map(|m| (m.start(), m.end()))).collect()).collect()),
        Err(e) => { let k = match &e { regex::Error::Syntax(_) => RegexFailure::Syntax,
            regex::Error::CompiledTooBig(_) => RegexFailure::CompiledTooBig, _ => RegexFailure::Other };
            Err((k, e.to_string())) },
    }
}

/// Relies on regex::bytes::RegexBuilder::build and Regex::capture_names: one
/// entry per capture group in group-number order, carrying the name where
/// the group has one; empty when the pattern does not compile.
#[verifier::external_body]
fn group_names_of(pattern: &str, f: &FlagSet) -> (r: Vec<Option<String>>) {
    let mut b = RegexBuilder::new(pattern);
    b.unicode(f.unicode).case_insensitive(f.case_insensitive);
    b.multi_line(f.multi_line).dot_matches_new_line(f.dot_all);
    match b.build() {
        Ok(re) => re.capture_names().map(|n| n.map(String::from)).collect(),
        Err(_) => Vec::new(),
    }
}

/// Relies on regex::bytes::RegexBuilder::build and Regex::replace /
/// replace_all: the haystack with the first (or, with `all`, every) match
/// replaced by the expansion of the template. A build error is classified as
/// in `find_spans`.
#[verifier::external_body]
fn run_replace(pattern: &str, f: &FlagSet, hay: &[u8], rep: &[u8], all: bool) -> (r: Result<
    Vec<u8>,
    (RegexFailure, String),
>)
    ensures
        r is Ok <==> compile_failure(pattern@, *f) is None,
        r matches Err(e) ==> compile_failure(pattern@, *f) == Some(e.0),
        r matches Ok(v) ==> v@ == replaced_bytes(pattern@, *f, hay@, rep@, all),
{
    let mut b = RegexBuilder::new(pattern);
    b.unicode(f.unicode).case_insensitive(f.case_insensitive);
    b.multi_line(f.multi_line).dot_matches_new_line(f.dot_all);
    match b.build() {
        Ok(re) => Ok(if all { re.replace_all(hay, rep).into_owned() } else {
            re.replace(hay, rep).into_owned() }),
        Err(e) => { let k = match &e { regex::Error::Syntax(_) => RegexFailure::Syntax,
            regex::Error::CompiledTooBig(_) => RegexFailure::CompiledTooBig, _ => RegexFailure::Other };
            Err((k, e.to_string())) },
    }
}

/// Relies on regex::bytes::RegexBuilder::build, Regex::captures_iter and
/// Captures::expand: the concatenation of the template expansion for each
/// successive match, dropping the unmatched text between them. A build error
/// is classified as in `find_spans`.
#[verifier::external_body]
fn run_expand(pattern: &str, f: &FlagSet, hay: &[u8], rep: &[u8]) -> (r: Result<
    Vec<u8>,
    (RegexFailure, String),
>)
    ensures
        r is Ok <==> compile_failure(pattern@, *f) is None,
        r matches Err(e) ==> compile_failure(pattern@, *f) == Some(e.0),
        r matches Ok(v) ==> v@ == expanded_bytes(pattern@, *f, hay@, rep@),
{
    let mut b = RegexBuilder::new(pattern);
    b.unicode(f.unicode).case_insensitive(f.case_insensitive);
    b.multi_line(f.multi_line).dot_matches_new_line(f.dot_all);
    match b.build() {
        Ok(re) => { let mut dst = Vec::new();
            for caps in re.captures_iter(hay) { caps.expand(rep, &mut dst); }
            Ok(dst) },
        Err(e) => { let k = match &e { regex::Error::Syntax(_) => RegexFailure::Syntax,
            regex::Error::CompiledTooBig(_) => RegexFailure::CompiledTooBig, _ => RegexFailure::Other };
            Err((k, e.to_string())) },
    }
}

/// Relies on String::from_utf8: succeeds exactly on valid UTF-8 and carries
/// the bytes through unchanged; the error case carries the display message.
#[verifier::external_body]
fn string_of_bytes(v: Vec<u8>) -> (r: Result<String, String>)
    ensures
        r is Ok <==> valid_utf8(v@),
        r matches Ok(s) ==> encode_utf8(s@) == v@,
{
    String::from_utf8(v).map_err(|e| e.to_string())
}

/// Interpret the matcher's replacement output as text: the string reading of
/// the bytes when they are valid UTF-8, and an encoding error otherwise.
pub fn replaced_to_result(bytes: Vec<u8>) -> (r: Result<String, Error>)
    ensures
        r is Ok <==> valid_utf8(bytes@),
        r matches Ok(s) ==> encode_utf8(s@) == bytes@,
        r matches Err(e) ==> e is Encoding,
{
    match string_of_bytes(bytes) {
        Ok(s) => Ok(s),
        Err(msg) => Err(Error::Encoding(msg)),
    }
}

fn clone_opt_name(o: &Option<String>) -> (r: Option<String>)
    ensures
        r == *o,
{
    match o {
        None => None,
        Some(s) => Some(s.clone()),
    }
}

/// Run the pattern against the subject and build the full result model: one
/// attempt per match (all matches with the `g` flag, at most one without),
/// one record per capture group, each carrying the matcher's byte span, its
/// UTF-16 translation and the rendered content. Succeeds exactly when the
/// pattern is accepted by the syntax check and compiles; a rejected pattern
/// yields its translated syntax error, a failed compile its classified
/// failure.
pub fn re_find(text: &str, pattern: &str, flags: &str) -> (r: Result<MatchSer, Error>)
    ensures
        ({
            let f = flag_set_of(flags.spec_bytes());
            &&& (r is Ok <==> !syntax_rejects(pattern@) && compile_failure(pattern@, f) is None)
            &&& (r matches Ok(m) ==> matches_wf(text.spec_bytes(), m) && matches_carry_spans(
                m,
                match_spans(pattern@, f, text.spec_bytes(), !f.global),
            ))
            &&& (r matches Err(e) ==> (if syntax_rejects(pattern@) {
                rejection_error_fits(e, pattern@)
            } else {
                failure_error_fits(e, compile_failure(pattern@, f))
            }))
        }),
{
    let f = parse_flags(flags);
    if let Some(e) = check_pattern(pattern) {
        return Err(e);
    }
    let tb = text.as_bytes();
    let spans = match find_spans(pattern, &f, tb, !f.global) {
        Err((k, msg)) => {
            return Err(Error::from_failure(k, msg));
        },
        Ok(v) => v,
    };
    let names = group_names_of(pattern, &f);
    let mut built: Vec<Vec<CapSer>> = Vec::new();
    let mut i: usize = 0;
    while i < spans.len()
        invariant
            i <= spans@.len(),
            built@.len() == i,
            tb@ == text.spec_bytes(),
            forall|x: int, y: int|
                0 <= x < spans@.len() && 0 <= y < spans@[x]@.len() && (#[trigger] spans@[x]@[y])
                    is Some ==> (spans@[x]@[y]->0).0 <= (spans@[x]@[y]->0).1 <= tb@.len(),
            forall|x: int|
                0 <= x < spans@.len() ==> (#[trigger] spans@[x])@.len() >= 1 && spans@[x]@[0]
                    is Some,
            forall|x1: int, x2: int|
                0 <= x1 < x2 < spans@.len() ==> ((#[trigger] spans@[x1])@[0]->0).1 <= ((
                #[trigger] spans@[x2])@[0]->0).0,
            forall|x: int|
                0 <= x < i ==> match_wf(text.spec_bytes(), (#[trigger] built@[x])@, x),
            forall|x: int| 0 <= x < i ==> (#[trigger] built@[x])@.len() == spans@[x]@.len(),
            forall|x: int, y: int|
                0 <= x < i && 0 <= y < spans@[x]@.len() ==> #[trigger] cap_carries(
                    built@[x]@[y],
                    spans@[x]@[y],
                ),
        decreases spans@.len() - i,
    {
        let row = &spans[i];
        let mut caps: Vec<CapSer> = Vec::new();
        let mut j: usize = 0;
        while j < row.len()
            invariant
                0 <= i < spans@.len(),
                j <= row@.len(),
                caps@.len() == j,
                row@ == spans@[i as int]@,
                tb@ == text.spec_bytes(),
                forall|x: int, y: int|
                    0 <= x < spans@.len() && 0 <= y < spans@[x]@.len() && (#[trigger] spans@[x]@[y])
                        is Some ==> (spans@[x]@[y]->0).0 <= (spans@[x]@[y]->0).1 <= tb@.len(),
                forall|y: int|
                    0 <= y < j ==> cap_wf(text.spec_bytes(), #[trigger] caps@[y]) && caps@[y].match_num
                        == i && caps@[y].group_num == y && caps@[y].entire_match == (y == 0),
                forall|y: int|
                    0 <= y < j ==> #[trigger] cap_carries(caps@[y], row@[y])
                        && caps@[y].is_participating == (row@[y] is Some),
            decreases row@.len() - j,
        {
            let name = if j < names.len() {
                clone_opt_name(&names[j])
            } else {
                None
            };
            let sp = row[j];
            proof {
                assert(spans@[i as int]@[j as int] == sp);
            }
            let c = cap_ser_of(text, name, i, j, sp);
            caps.push(c);
            j = j + 1;
        }
        proof {
            assert(spans@[i as int]@[0] is Some);
            assert(cap_carries(caps@[0], row@[0]));
            assert(caps@[0].is_participating);
            assert(match_wf(text.spec_bytes(), caps@, i as int));
        }
        built.push(caps);
        i = i + 1;
    }
    proof {
        let f0 = flag_set_of(flags.spec_bytes());
        let ms = match_spans(pattern@, f0, text.spec_bytes(), !f0.global);
        let m = MatchSer { matches: built };
        assert forall|x: int|
            0 <= x < m.matches@.len() implies match_wf(
            text.spec_bytes(),
            (#[trigger] m.matches@[x])@,
            x,
        ) by {
            assert(match_wf(text.spec_bytes(), built@[x]@, x));
        }
        assert forall|i1: int, i2: int|
            0 <= i1 < i2 < m.matches@.len() implies ((#[trigger] m.matches@[i1])@[0].end matches
        Some(e) && (#[trigger] m.matches@[i2])@[0].start matches Some(a) && e <= a) by {
            assert(spans@[i1]@[0] is Some && spans@[i2]@[0] is Some);
            assert(cap_carries(built@[i1]@[0], spans@[i1]@[0]));
            assert(cap_carries(built@[i2]@[0], spans@[i2]@[0]));
            assert(((spans@[i1])@[0]->0).1 <= ((spans@[i2])@[0]->0).0);
        }
        assert(matches_wf(text.spec_bytes(), m));
        assert(spans@.len() == ms.len());
        assert forall|x: int| 0 <= x < ms.len() implies (#[trigger] m.matches@[x])@.len()
            == ms[x].len() by {
            assert(built@[x]@.len() == spans@[x]@.len());
            assert(spans@[x]@ == ms[x]);
        }
        assert forall|x: int, y: int|
            0 <= x < ms.len() && 0 <= y < ms[x].len() implies #[trigger] cap_carries(
            m.matches@[x]@[y],
            ms[x][y],
        ) by {
            assert(spans@[x]@ == ms[x]);
            assert(cap_carries(built@[x]@[y], spans@[x]@[y]));
        }
        assert(matches_carry_spans(m, ms));
    }
    Ok(MatchSer { matches: built })
}

/// Replace the first match (or, with the `g` flag, every match) of the
/// pattern in the subject with the expansion of the replacement template,
/// and hand the result back as text. Succeeds exactly when the pattern is
/// accepted and compiles and the replaced bytes are valid UTF-8; a rejected
/// pattern yields its translated syntax error, a failed compile its
/// classified failure, and non-UTF-8 output an encoding error.
pub fn re_replace(text: &str, pattern: &str, rep: &str, flags: &str) -> (r: Result<String, Error>)
    ensures
        ({
            let f = flag_set_of(flags.spec_bytes());
            let out = replaced_bytes(pattern@, f, text.spec_bytes(), rep.spec_bytes(), f.global);
            &&& (r is Ok <==> !syntax_rejects(pattern@) && compile_failure(pattern@, f) is None
                && valid_utf8(out))
            &&& (r matches Ok(s) ==> encode_utf8(s@) == out)
            &&& (r matches Err(e) ==> (if syntax_rejects(pattern@) {
                rejection_error_fits(e, pattern@)
            } else if compile_failure(pattern@, f) is Some {
                failure_error_fits(e, compile_failure(pattern@, f))
            } else {
                e is Encoding && !valid_utf8(out)
            }))
        }),
{
    let f = parse_flags(flags);
    if let Some(e) = check_pattern(pattern) {
        return Err(e);
    }
    let out = match run_replace(pattern, &f, text.as_bytes(), rep.as_bytes(), f.global) {
        Err((k, msg)) => {
            return Err(Error::from_failure(k, msg));
        },
        Ok(v) => v,
    };
    replaced_to_result(out)
}

/// Expand the replacement template once per match and concatenate the
/// expansions, dropping the unmatched text between them. Succeeds exactly
/// when the pattern is accepted and compiles and the expanded bytes are
/// valid UTF-8; the errors are classified as for `re_replace`.
pub fn re_replace_list(text: &str, pattern: &str, rep: &str, flags: &str) -> (r: Result<
    String,
    Error,
>)
    ensures
        ({
            let f = flag_set_of(flags.spec_bytes());
            let out = expanded_bytes(pattern@, f, text.spec_bytes(), rep.spec_bytes());
            &&& (r is Ok <==> !syntax_rejects(pattern@) && compile_failure(pattern@, f) is None
                && valid_utf8(out))
            &&& (r matches Ok(s) ==> encode_utf8(s@) == out)
            &&& (r matches Err(e) ==> (if syntax_rejects(pattern@) {
                rejection_error_fits(e, pattern@)
            } else if compile_failure(pattern@, f) is Some {
                failure_error_fits(e, compile_failure(pattern@, f))
            } else {
                e is Encoding && !valid_utf8(out)
            }))
        }),
{
    let f = parse_flags(flags);
    if let Some(e) = check_pattern(pattern) {
        return Err(e);
    }
    let out = match run_expand(pattern, &f, text.as_bytes(), rep.as_bytes()) {
        Err((k, msg)) => {
            return Err(Error::from_failure(k, msg));
        },
        Ok(v) => v,
    };
    replaced_to_result(out)
}

} // verus!
