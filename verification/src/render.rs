//! Lossy rendering of arbitrary byte ranges as displayable text.
//!
//! A byte range of the subject buffer — not necessarily aligned to scalar
//! boundaries on either end — is decoded greedily from left to right. Runs
//! that decode as valid UTF-8 are passed through verbatim; every byte that
//! cannot begin a valid encoding at its position is rendered as the
//! 4-character escape `\xHH` (lowercase hex, zero padded), and decoding
//! resumes at the next byte. Adjacent invalid bytes are never merged.

use vstd::prelude::*;
use vstd::string::StringSliceAdditionalSpecFns;
use vstd::utf8::*;

use crate::utf16::{lemma_snap_bounds, lemma_unit_len_bounds, snap_from, unit_len};

verus! {

broadcast use vstd::seq::group_seq_axioms;

/// The lowercase hex digit for a value below 16.
pub open spec fn hex_digit(n: u8) -> char {
    if n < 10 {
        ((n + 0x30) as u8) as char
    } else {
        ((n + 0x57) as u8) as char
    }
}

/// The 4-character escape `\xHH` standing for one unrenderable byte.
pub open spec fn escape_seq(b: u8) -> Seq<char> {
    seq!['\\', 'x', hex_digit(b / 16), hex_digit(b % 16)]
}

/// Greedy lossy decoding of a byte range taken as a buffer of its own: each
/// valid scalar encoding becomes its character, every other byte becomes its
/// `\xHH` escape.
pub open spec fn render_seq(sub: Seq<u8>) -> Seq<char>
    decreases sub.len(),
{
    if sub.len() == 0 {
        seq![]
    } else if valid_first_scalar(sub) && length_of_first_scalar(sub) <= sub.len() {
        seq![decode_first_scalar(sub) as char] + render_seq(
            sub.subrange(length_of_first_scalar(sub), sub.len() as int),
        )
    } else {
        escape_seq(sub[0]) + render_seq(sub.subrange(1, sub.len() as int))
    }
}

/// Relies on char::from_u32 of core: returns `Some` exactly for Unicode
/// scalar values (not a surrogate, at most 0x10FFFF), and the returned char
/// has the given value.
pub assume_specification[ char::from_u32 ](i: u32) -> (r: Option<char>)
    ensures
        r is Some <==> is_scalar(i),
        r is Some ==> r->0 as u32 == i,
;

/// Relies on String::push of alloc: appends the given character to the end
/// of the string.
pub assume_specification[ String::push ](s: &mut String, ch: char)
    ensures
        final(s)@ == old(s)@.push(ch),
;

/// The character carrying a Unicode scalar value.
fn char_of_scalar(cp: u32) -> (c: char)
    requires
        is_scalar(cp),
    ensures
        c as u32 == cp,
{
    match char::from_u32(cp) {
        Some(c) => c,
        // unreachable: `cp` is a scalar value, so `from_u32` returns `Some`
        None => ' ',
    }
}

/// Exec mirror of `hex_digit`.
fn hex_digit_exec(n: u8) -> (r: char)
    requires
        n < 16,
    ensures
        r == hex_digit(n),
{
    if n < 10 {
        (n + 0x30) as char
    } else {
        (n + 0x57) as char
    }
}

/// Render the byte range `[start, end)` of `s` as displayable text: valid
/// scalar encodings pass through verbatim, every other byte appears as its
/// own `\xHH` escape, in byte order.
pub fn str_from_utf8_rep(s: &str, start: usize, end: usize) -> (r: String)
    requires
        start <= end <= s.spec_bytes().len(),
    ensures
        r@ == render_seq(s.spec_bytes().subrange(start as int, end as int)),
{
    let bytes = s.as_bytes();
    let ghost sub = bytes@.subrange(start as int, end as int);
    let mut out = String::new();
    let mut i = start;
    while i < end
        invariant
            start <= i <= end <= bytes@.len(),
            bytes@ == s.spec_bytes(),
            sub == bytes@.subrange(start as int, end as int),
            render_seq(sub) == out@ + render_seq(bytes@.subrange(i as int, end as int)),
        decreases end - i,
    {
        let ghost w = bytes@.subrange(i as int, end as int);
        let ghost out0 = out@;
        let (len, cp, valid) = crate::utf16::decode_unit(bytes, i, end);
        if valid {
            let c = char_of_scalar(cp);
            out.push(c);
            proof {
                char_u32_cast(c, cp);
                assert(w.subrange(length_of_first_scalar(w), w.len() as int) =~= bytes@.subrange(
                    i + len,
                    end as int,
                ));
                assert(render_seq(w) == seq![c] + render_seq(
                    bytes@.subrange(i + len, end as int),
                ));
                assert(out0 + render_seq(w) =~= out@ + render_seq(
                    bytes@.subrange(i + len, end as int),
                ));
            }
        } else {
            let b = bytes[i];
            out.push('\\');
            out.push('x');
            out.push(hex_digit_exec(b / 16));
            out.push(hex_digit_exec(b % 16));
            proof {
                assert(w[0] == b);
                assert(w.subrange(1, w.len() as int) =~= bytes@.subrange(i + 1, end as int));
                assert(render_seq(w) == escape_seq(b) + render_seq(
                    bytes@.subrange(i + 1, end as int),
                ));
                assert(out0 + render_seq(w) =~= out@ + render_seq(
                    bytes@.subrange(i + 1, end as int),
                ));
            }
        }
        i = i + len;
    }
    proof {
        assert(bytes@.subrange(i as int, end as int).len() == 0);
        assert(out@ + render_seq(bytes@.subrange(i as int, end as int)) =~= out@);
    }
    out
}

/// Validity preservation: a range that is entirely valid UTF-8 renders
/// exactly as its decoded characters, with no escapes introduced.
pub proof fn lemma_render_valid_utf8(sub: Seq<u8>)
    requires
        valid_utf8(sub),
    ensures
        render_seq(sub) == decode_utf8(sub),
    decreases sub.len(),
{
    if sub.len() == 0 {
    } else {
        lemma_render_valid_utf8(pop_first_scalar(sub));
        assert(pop_first_scalar(sub) =~= sub.subrange(
            length_of_first_scalar(sub),
            sub.len() as int,
        ));
    }
}

/// The first decode unit of a prefix agrees with the first decode unit of
/// the whole sequence, as long as the prefix is not shorter than that unit.
proof fn lemma_first_unit_of_prefix(sub: Seq<u8>, p: int)
    requires
        0 < p <= sub.len(),
        unit_len(sub, 0) <= p,
    ensures
        valid_first_scalar(sub.subrange(0, p)) == valid_first_scalar(sub),
        valid_first_scalar(sub) ==> length_of_first_scalar(sub.subrange(0, p))
            == length_of_first_scalar(sub) && decode_first_scalar(sub.subrange(0, p))
            == decode_first_scalar(sub),
{
    let w = sub.subrange(0, p);
    assert(sub.subrange(0, sub.len() as int) =~= sub);
    assert(forall|j: int| 0 <= j < p ==> w[j] == sub[j]);
    if valid_first_scalar(sub) {
        assert(valid_first_scalar(w));
    }
    if valid_first_scalar(w) {
        assert(valid_first_scalar(sub));
    }
}

/// Decomposition at a decode-unit boundary: rendering a range splits into
/// rendering the part before the boundary and the part after it.
pub proof fn lemma_render_split(sub: Seq<u8>, p: int)
    requires
        0 <= p <= sub.len(),
        snap_from(sub, 0, p) == p,
    ensures
        render_seq(sub) == render_seq(sub.subrange(0, p)) + render_seq(
            sub.subrange(p, sub.len() as int),
        ),
    decreases sub.len(),
{
    assert(sub.subrange(0, sub.len() as int) =~= sub);
    if p == 0 {
        assert(render_seq(sub.subrange(0, 0)) == Seq::<char>::empty());
        assert(sub.subrange(0, sub.len() as int) =~= sub);
        assert(render_seq(sub.subrange(0, 0)) + render_seq(sub.subrange(p, sub.len() as int))
            =~= render_seq(sub));
    } else {
        lemma_unit_len_bounds(sub, 0);
        let l0 = unit_len(sub, 0);
        lemma_snap_bounds(sub, l0, p);
        assert(l0 <= p);
        let tail = sub.subrange(l0, sub.len() as int);
        crate::utf16::lemma_snap_shift(sub, l0, l0, p);
        assert(snap_from(tail, 0, p - l0) == p - l0);
        lemma_render_split(tail, p - l0);
        lemma_first_unit_of_prefix(sub, p);
        let head = sub.subrange(0, p);
        assert(tail.subrange(0, p - l0) =~= head.subrange(l0, p));
        assert(tail.subrange(p - l0, tail.len() as int) =~= sub.subrange(p, sub.len() as int));
        if valid_first_scalar(sub) {
            assert(render_seq(sub) == seq![decode_first_scalar(sub) as char] + render_seq(tail));
            assert(render_seq(head) == seq![decode_first_scalar(head) as char] + render_seq(
                head.subrange(length_of_first_scalar(head), head.len() as int),
            ));
            assert(head.subrange(length_of_first_scalar(head), head.len() as int) =~= tail.subrange(
                0,
                p - l0,
            ));
            assert(render_seq(sub) =~= render_seq(head) + render_seq(
                sub.subrange(p, sub.len() as int),
            ));
        } else {
            assert(l0 == 1);
            assert(head[0] == sub[0]);
            assert(render_seq(sub) == escape_seq(sub[0]) + render_seq(tail));
            assert(render_seq(head) == escape_seq(head[0]) + render_seq(
                head.subrange(1, head.len() as int),
            ));
            assert(head.subrange(1, head.len() as int) =~= tail.subrange(0, p - l0));
            assert(render_seq(sub) =~= render_seq(head) + render_seq(
                sub.subrange(p, sub.len() as int),
            ));
        }
    }
}

/// Escape correctness: a byte at a decode-unit boundary that starts no valid
/// scalar encoding appears in the output as exactly one `\xHH` escape, with
/// the renderings of the bytes before and after it unchanged around it.
#[verifier::rlimit(60)]
pub proof fn lemma_render_escape(sub: Seq<u8>, p: int)
    requires
        0 <= p < sub.len(),
        snap_from(sub, 0, p) == p,
        !valid_first_scalar(sub.subrange(p, sub.len() as int)),
    ensures
        render_seq(sub) == render_seq(sub.subrange(0, p)) + escape_seq(sub[p]) + render_seq(
            sub.subrange(p + 1, sub.len() as int),
        ),
{
    lemma_render_split(sub, p);
    let rest = sub.subrange(p, sub.len() as int);
    assert(rest[0] == sub[p]);
    assert(render_seq(rest) == escape_seq(rest[0]) + render_seq(
        rest.subrange(1, rest.len() as int),
    ));
    assert(rest.subrange(1, rest.len() as int) =~= sub.subrange(p + 1, sub.len() as int));
    assert(render_seq(sub.subrange(0, p)) + render_seq(rest) =~= render_seq(sub.subrange(0, p))
        + escape_seq(sub[p]) + render_seq(sub.subrange(p + 1, sub.len() as int)));
}

} // verus!
