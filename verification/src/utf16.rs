//! Byte-offset to UTF-16-offset translation over UTF-8-ish byte buffers.
//!
//! A buffer is decoded greedily from the front into *decode units*: each unit
//! is either a maximal valid UTF-8 scalar encoding, or a single byte that
//! starts no valid encoding. A *boundary* is a byte offset where a decode
//! unit starts (or the buffer end). A byte offset that falls strictly inside
//! a unit is snapped forward ("ceiling snap") to the next boundary.
//!
//! In UTF-16 terms a unit contributes 1 code unit for a scalar in the Basic
//! Multilingual Plane, 2 for a scalar above it (a surrogate pair), and 4 for
//! an invalid byte, which is rendered as the 4-character literal escape
//! `\xHH` (see the renderer).

use vstd::prelude::*;
use vstd::string::StringSliceAdditionalSpecFns;
use vstd::utf8::*;

verus! {

broadcast use vstd::seq::group_seq_axioms;

/// Length in bytes of the decode unit starting at position `i` of `s`: the
/// length of the valid UTF-8 scalar encoding starting there, or 1 for a byte
/// that starts none. (The bounds conjunct is redundant for well-formed
/// encodings but keeps the walk functions below total.)
pub open spec fn unit_len(s: Seq<u8>, i: int) -> int {
    let rest = s.subrange(i, s.len() as int);
    if valid_first_scalar(rest) && i + length_of_first_scalar(rest) <= s.len() {
        length_of_first_scalar(rest)
    } else {
        1
    }
}

/// UTF-16 code units contributed by the decode unit starting at position `i`:
/// 1 for a scalar in the Basic Multilingual Plane, 2 for a scalar above it,
/// 4 for an invalid byte (the length of its `\xHH` escape).
pub open spec fn unit_utf16(s: Seq<u8>, i: int) -> int {
    let rest = s.subrange(i, s.len() as int);
    if valid_first_scalar(rest) && i + length_of_first_scalar(rest) <= s.len() {
        if decode_first_scalar(rest) <= 0xFFFF {
            1
        } else {
            2
        }
    } else {
        4
    }
}

/// The first decode-unit boundary at or after `off` (the "ceiling snap"),
/// walking decode units from position `b`.
pub open spec fn snap_from(s: Seq<u8>, b: int, off: int) -> int
    decreases s.len() - b
        when 0 <= b <= s.len()
{
    if b >= off || b >= s.len() {
        b
    } else {
        snap_from(s, b + unit_len(s, b), off)
    }
}

/// UTF-16 code units contributed by all decode units that start in `[b, off)`,
/// walking decode units from position `b`. The last unit counts in full even
/// if it straddles `off`: this realises the ceiling-snap policy.
pub open spec fn utf16_units_from(s: Seq<u8>, b: int, off: int) -> int
    decreases s.len() - b
        when 0 <= b <= s.len()
{
    if b >= off || b >= s.len() {
        0
    } else {
        unit_utf16(s, b) + utf16_units_from(s, b + unit_len(s, b), off)
    }
}

/// The UTF-16 code-unit offset corresponding to byte offset `off`: the UTF-16
/// width of all content in `[0, c)`, where `c` is `off` ceiling-snapped to
/// the next decode-unit boundary.
pub open spec fn utf16_index_of(s: Seq<u8>, off: int) -> int {
    utf16_units_from(s, 0, off)
}

/// The ceiling-snapped boundary for byte offset `off`.
pub open spec fn boundary_of(s: Seq<u8>, off: int) -> int {
    snap_from(s, 0, off)
}

/// A decode unit always advances by at least one byte and never past the end.
pub proof fn lemma_unit_len_bounds(s: Seq<u8>, i: int)
    requires
        0 <= i < s.len(),
    ensures
        1 <= unit_len(s, i),
        i + unit_len(s, i) <= s.len(),
        1 <= unit_utf16(s, i) <= 4,
{
}

/// Exec mirror of `is_continuation_byte`.
fn is_cont(b: u8) -> (r: bool)
    ensures
        r == is_continuation_byte(b),
{
    0x80 <= b && b <= 0xBF
}

/// One decode step at position `i` of the window `s[i..end]`.
///
/// Returns `(len, cp, valid)`: if a valid UTF-8 scalar encoding starts at `i`
/// and fits inside the window, `len` is its byte length and `cp` the decoded
/// scalar; otherwise `len == 1` and `cp` is the offending byte's value.
pub(crate) fn decode_unit(s: &[u8], i: usize, end: usize) -> (r: (usize, u32, bool))
    requires
        i < end <= s@.len(),
    ensures
        ({
            let w = s@.subrange(i as int, end as int);
            &&& r.2 == valid_first_scalar(w)
            &&& (r.2 ==> r.0 == length_of_first_scalar(w) && r.1 == decode_first_scalar(w))
            &&& (r.2 ==> is_scalar(r.1) && i + r.0 <= end && 1 <= r.0 <= 4)
            &&& (r.2 ==> (r.1 > 0xFFFF <==> r.0 == 4))
            &&& (!r.2 ==> r.0 == 1 && r.1 == s@[i as int] as u32)
        }),
{
    let ghost w = s@.subrange(i as int, end as int);
    let b0 = s[i];
    proof {
        assert(w[0] == b0);
        assert(w.len() == end - i);
    }
    if b0 < 0x80 {
        proof {
            assert((b0 & 0x7F) == b0) by (bit_vector)
                requires
                    b0 < 0x80,
            ;
        }
        (1, b0 as u32, true)
    } else if b0 < 0xC2 {
        // a continuation byte, or an overlong two-byte lead (0xC0, 0xC1)
        proof {
            if valid_first_scalar(w) {
                let b1 = w[1];
                assert((((b0 & 0x1F) as u32) << 6) | ((b1 & 0x3F) as u32) < 0x80) by (bit_vector)
                    requires
                        0xC0 <= b0 < 0xC2,
                ;
            }
        }
        (1, b0 as u32, false)
    } else if b0 < 0xE0 {
        if end - i > 1 && is_cont(s[i + 1]) {
            let cp = (((b0 & 0x1F) as u32) << 6) | ((s[i + 1] & 0x3F) as u32);
            proof {
                let b1 = w[1];
                assert(b1 == s@[i + 1]);
                assert(0x80 <= ((((b0 & 0x1F) as u32) << 6) | ((b1 & 0x3F) as u32)) < 0x800)
                    by (bit_vector)
                    requires
                        0xC2 <= b0 < 0xE0,
                ;
            }
            (2, cp, true)
        } else {
            (1, b0 as u32, false)
        }
    } else if b0 < 0xF0 {
        if end - i > 2 && is_cont(s[i + 1]) && is_cont(s[i + 2]) {
            let cp = (((b0 & 0x0F) as u32) << 12) | (((s[i + 1] & 0x3F) as u32) << 6) | ((s[i + 2]
                & 0x3F) as u32);
            proof {
                let b1 = w[1];
                let b2 = w[2];
                assert(b1 == s@[i + 1] && b2 == s@[i + 2]);
                assert(((((b0 & 0x0F) as u32) << 12) | ((((b1 & 0x3F) as u32) << 6)) | ((b2
                    & 0x3F) as u32)) <= 0xFFFF) by (bit_vector);
            }
            if 0x800 <= cp && !(0xD800 <= cp && cp <= 0xDFFF) {
                (3, cp, true)
            } else {
                // an overlong encoding or a surrogate codepoint
                (1, b0 as u32, false)
            }
        } else {
            (1, b0 as u32, false)
        }
    } else if b0 < 0xF8 {
        if end - i > 3 && is_cont(s[i + 1]) && is_cont(s[i + 2]) && is_cont(s[i + 3]) {
            let cp = (((b0 & 0x07) as u32) << 18) | (((s[i + 1] & 0x3F) as u32) << 12) | (((s[i + 2]
                & 0x3F) as u32) << 6) | ((s[i + 3] & 0x3F) as u32);
            proof {
                let b1 = w[1];
                let b2 = w[2];
                let b3 = w[3];
                assert(b1 == s@[i + 1] && b2 == s@[i + 2] && b3 == s@[i + 3]);
            }
            if 0x10000 <= cp && cp <= 0x10FFFF {
                (4, cp, true)
            } else {
                // an overlong encoding or a value beyond the Unicode range
                (1, b0 as u32, false)
            }
        } else {
            (1, b0 as u32, false)
        }
    } else {
        // no UTF-8 leading byte has this form
        (1, b0 as u32, false)
    }
}

/// Walk decode units from state `(b0, u0)` until the first boundary at or
/// after `target`, accumulating UTF-16 widths. Requires the unwalked tail to
/// be valid UTF-8 (the walk itself is defined for any bytes; the executable
/// entry points only ever walk the bytes of `str` values).
fn walk_to(s: &[u8], b0: usize, u0: usize, target: usize) -> (r: (usize, usize))
    requires
        b0 <= s@.len(),
        target <= s@.len(),
        u0 <= b0,
        valid_utf8(s@.subrange(b0 as int, s@.len() as int)),
    ensures
        r.0 == snap_from(s@, b0 as int, target as int),
        r.1 == u0 + utf16_units_from(s@, b0 as int, target as int),
        r.1 <= r.0 <= s@.len(),
        valid_utf8(s@.subrange(r.0 as int, s@.len() as int)),
{
    let n = s.len();
    let mut b = b0;
    let mut u = u0;
    while b < n && b < target
        invariant
            b <= n == s@.len(),
            target <= n,
            u <= b,
            valid_utf8(s@.subrange(b as int, n as int)),
            snap_from(s@, b0 as int, target as int) == snap_from(s@, b as int, target as int),
            u0 + utf16_units_from(s@, b0 as int, target as int) == u + utf16_units_from(
                s@,
                b as int,
                target as int,
            ),
        decreases n - b,
    {
        let (len, cp, valid) = decode_unit(s, b, n);
        proof {
            let rest = s@.subrange(b as int, n as int);
            assert(rest.len() > 0);
            assert(valid_first_scalar(rest));
            assert(unit_len(s@, b as int) == len);
            assert(unit_utf16(s@, b as int) == if cp <= 0xFFFF {
                1int
            } else {
                2int
            });
            assert(pop_first_scalar(rest) =~= s@.subrange(b + len, n as int));
        }
        u = u + (if cp <= 0xFFFF {
            1
        } else {
            2
        });
        b = b + len;
    }
    (b, u)
}

/// Monotonicity of the offset translation: walking toward a nearer target
/// never yields more UTF-16 units than walking toward a farther one.
proof fn lemma_units_from_monotonic(s: Seq<u8>, c: int, a: int, b: int)
    requires
        0 <= c <= s.len(),
        a <= b,
    ensures
        0 <= utf16_units_from(s, c, a) <= utf16_units_from(s, c, b),
    decreases s.len() - c,
{
    if c >= a || c >= s.len() {
        lemma_units_from_nonneg(s, c, b);
    } else {
        lemma_unit_len_bounds(s, c);
        lemma_units_from_monotonic(s, c + unit_len(s, c), a, b);
    }
}

proof fn lemma_units_from_nonneg(s: Seq<u8>, c: int, a: int)
    requires
        0 <= c <= s.len(),
    ensures
        utf16_units_from(s, c, a) >= 0,
    decreases s.len() - c,
{
    if !(c >= a || c >= s.len()) {
        lemma_unit_len_bounds(s, c);
        lemma_units_from_nonneg(s, c + unit_len(s, c), a);
    }
}

/// Monotonicity: for byte offsets `a <= b`, the UTF-16 offset of `a` is at
/// most that of `b`, on any buffer.
pub proof fn lemma_utf16_index_monotonic(s: Seq<u8>, a: int, b: int)
    requires
        a <= b,
    ensures
        utf16_index_of(s, a) <= utf16_index_of(s, b),
{
    lemma_units_from_monotonic(s, 0, a, b);
}

/// The snapped boundary lies between the walk's start and the buffer end, and
/// at or after the target when the target is in range.
pub proof fn lemma_snap_bounds(s: Seq<u8>, c: int, off: int)
    requires
        0 <= c <= s.len(),
    ensures
        c <= snap_from(s, c, off) <= s.len(),
        off <= s.len() ==> off <= snap_from(s, c, off) || snap_from(s, c, off) == c,
        c <= off <= s.len() ==> off <= snap_from(s, c, off),
    decreases s.len() - c,
{
    if c >= off || c >= s.len() {
    } else {
        lemma_unit_len_bounds(s, c);
        lemma_snap_bounds(s, c + unit_len(s, c), off);
    }
}

/// Dropping a prefix that ends at or before the walk's start position shifts
/// the walk: decode units are determined by the bytes from the current
/// position on, so the snapped boundary shifts with the prefix length.
pub proof fn lemma_snap_shift(s: Seq<u8>, d: int, c: int, off: int)
    requires
        0 <= d <= c <= s.len(),
    ensures
        snap_from(s, c, off) == d + snap_from(s.subrange(d, s.len() as int), c - d, off - d),
    decreases s.len() - c,
{
    let t = s.subrange(d, s.len() as int);
    assert(s.subrange(c, s.len() as int) =~= t.subrange(c - d, t.len() as int));
    if c >= off || c >= s.len() {
    } else {
        assert(unit_len(s, c) == unit_len(t, c - d));
        lemma_unit_len_bounds(s, c);
        lemma_snap_shift(s, d, c + unit_len(s, c), off);
    }
}

/// The walk toward a target `q` passes through the snapped boundary of any
/// earlier target `p`: both the boundary and the unit count compose.
pub proof fn lemma_walk_compose(s: Seq<u8>, c: int, p: int, q: int)
    requires
        0 <= c <= s.len(),
        p <= q,
    ensures
        snap_from(s, c, q) == snap_from(s, snap_from(s, c, p), q),
        utf16_units_from(s, c, q) == utf16_units_from(s, c, p) + utf16_units_from(
            s,
            snap_from(s, c, p),
            q,
        ),
    decreases s.len() - c,
{
    if c >= p || c >= s.len() {
    } else {
        lemma_unit_len_bounds(s, c);
        lemma_walk_compose(s, c + unit_len(s, c), p, q);
    }
}

/// Ceiling idempotence: re-querying an already-snapped boundary returns the
/// same UTF-16 offset, and the boundary snaps to itself.
pub proof fn lemma_ceiling_idempotent(s: Seq<u8>, x: int)
    requires
        0 <= x <= s.len(),
    ensures
        utf16_index_of(s, boundary_of(s, x)) == utf16_index_of(s, x),
        boundary_of(s, boundary_of(s, x)) == boundary_of(s, x),
{
    lemma_snap_bounds(s, 0, x);
    lemma_walk_compose(s, 0, x, boundary_of(s, x));
}

/// The UTF-16 code-unit offset for byte offset `idx` into `s`, under the
/// ceiling-snap policy: an offset strictly inside a scalar's encoding maps as
/// if it were the offset just after that scalar.
pub fn utf16_index_bytes(s: &str, idx: usize) -> (r: usize)
    requires
        idx <= s.spec_bytes().len(),
    ensures
        r == utf16_index_of(s.spec_bytes(), idx as int),
{
    let bytes = s.as_bytes();
    proof {
        assert(bytes@ == encode_utf8(s@));
        encode_utf8_valid_utf8(s@);
        assert(bytes@.subrange(0, bytes@.len() as int) =~= bytes@);
    }
    let (_, u) = walk_to(bytes, 0, 0, idx);
    u
}

/// The boundary that byte offset `idx` ceiling-snaps to: the start of the
/// next decode unit at or after `idx`, or the buffer length.
pub fn utf16_boundary_bytes(s: &str, idx: usize) -> (r: usize)
    requires
        idx <= s.spec_bytes().len(),
    ensures
        r == boundary_of(s.spec_bytes(), idx as int),
{
    let bytes = s.as_bytes();
    proof {
        assert(bytes@ == encode_utf8(s@));
        encode_utf8_valid_utf8(s@);
        assert(bytes@.subrange(0, bytes@.len() as int) =~= bytes@);
    }
    let (b, _) = walk_to(bytes, 0, 0, idx);
    b
}

/// True when some entry of `r` carries the byte offset `x`.
pub open spec fn has_offset_entry(r: Seq<(usize, usize)>, x: usize) -> bool {
    exists|j: int| 0 <= j < r.len() && r[j].0 == x
}

/// The number of UTF-16 code units needed to represent one character.
pub open spec fn utf16_width_char(c: char) -> int {
    if c as u32 <= 0xFFFF {
        1
    } else {
        2
    }
}

/// The number of UTF-16 code units needed to represent a character sequence.
pub open spec fn utf16_len_chars(cs: Seq<char>) -> int
    decreases cs.len(),
{
    if cs.len() == 0 {
        0
    } else {
        utf16_width_char(cs[0]) + utf16_len_chars(cs.drop_first())
    }
}

proof fn lemma_utf16_len_chars_push(cs: Seq<char>, c: char)
    ensures
        utf16_len_chars(cs.push(c)) == utf16_len_chars(cs) + utf16_width_char(c),
    decreases cs.len(),
{
    let p = cs.push(c);
    assert(p.len() == cs.len() + 1);
    assert(utf16_len_chars(p) == utf16_width_char(p[0]) + utf16_len_chars(p.drop_first()));
    if cs.len() == 0 {
        assert(p[0] == c);
        assert(p.drop_first() =~= Seq::<char>::empty());
        assert(utf16_len_chars(p.drop_first()) == 0);
    } else {
        assert(p[0] == cs[0]);
        assert(p.drop_first() =~= cs.drop_first().push(c));
        lemma_utf16_len_chars_push(cs.drop_first(), c);
        assert(utf16_len_chars(p.drop_first()) == utf16_len_chars(cs.drop_first())
            + utf16_width_char(c));
        assert(utf16_len_chars(cs) == utf16_width_char(cs[0]) + utf16_len_chars(cs.drop_first()));
    }
}

proof fn lemma_utf16_len_chars_take_step(cs: Seq<char>, k: int)
    requires
        0 <= k < cs.len(),
    ensures
        utf16_len_chars(cs.take(k + 1)) == utf16_len_chars(cs.take(k)) + utf16_width_char(cs[k]),
{
    assert(cs.take(k + 1) =~= cs.take(k).push(cs[k]));
    lemma_utf16_len_chars_push(cs.take(k), cs[k]);
}

/// The UTF-16 column walker over a byte window `[ls, le)` that holds valid
/// UTF-8: sums the UTF-16 widths of the first `idx` characters of the window.
/// Returns `None` when the window has fewer than `idx` characters.
pub(crate) fn utf16_col_in_range(bytes: &[u8], ls: usize, le: usize, idx: usize) -> (r: Option<
    usize,
>)
    requires
        ls <= le <= bytes@.len(),
        valid_utf8(bytes@.subrange(ls as int, le as int)),
    ensures
        ({
            let cs = decode_utf8(bytes@.subrange(ls as int, le as int));
            &&& (r is Some <==> idx <= cs.len())
            &&& (r matches Some(u) ==> u == utf16_len_chars(cs.take(idx as int)) && u <= le - ls)
        }),
{
    let ghost cs = decode_utf8(bytes@.subrange(ls as int, le as int));
    proof {
        assert(cs.skip(0) =~= cs);
        assert(cs.take(0) =~= Seq::<char>::empty());
    }
    let mut b: usize = ls;
    let mut k: usize = 0;
    let mut u: usize = 0;
    while k < idx
        invariant
            k <= idx,
            ls <= b <= le <= bytes@.len(),
            u <= b - ls,
            cs == decode_utf8(bytes@.subrange(ls as int, le as int)),
            valid_utf8(bytes@.subrange(b as int, le as int)),
            decode_utf8(bytes@.subrange(b as int, le as int)) == cs.skip(k as int),
            k <= cs.len(),
            u == utf16_len_chars(cs.take(k as int)),
        decreases idx - k,
    {
        proof {
            let rest = bytes@.subrange(b as int, le as int);
            if rest.len() == 0 {
                assert(decode_utf8(rest).len() == 0);
            }
        }
        if b == le {
            // the window has only `k` characters, fewer than asked for
            return None;
        }
        let (len, _cp, _valid) = decode_unit(bytes, b, le);
        proof {
            let rest = bytes@.subrange(b as int, le as int);
            assert(valid_first_scalar(rest));
            assert(cs.skip(k as int).len() > 0);
            let c = cs[k as int];
            assert(decode_utf8(rest)[0] == decode_first_scalar(rest) as char);
            assert(c == decode_first_scalar(rest) as char);
            char_is_scalar(c);
            decode_utf8_first_scalar(rest);
            // the byte length of this scalar's encoding determines the
            // character's UTF-16 width: 4 encoded bytes mean a surrogate pair
            assert(encode_scalar(c as u32).len() == len);
            assert(utf16_width_char(c) == if len == 4 {
                2int
            } else {
                1int
            });
            lemma_utf16_len_chars_take_step(cs, k as int);
            assert(pop_first_scalar(rest) =~= bytes@.subrange(b + len, le as int));
            assert(decode_utf8(rest).drop_first() =~= cs.skip(k + 1));
        }
        u = u + (if len == 4 {
            2
        } else {
            1
        });
        b = b + len;
        k = k + 1;
    }
    proof {
        assert(cs.skip(k as int).len() >= 0);
    }
    Some(u)
}

/// The UTF-16 code-unit width of the first `idx` characters of `s`: every
/// scalar in the Basic Multilingual Plane counts 1 unit, every other scalar
/// counts 2 (a surrogate pair). Used to translate the 1-based character
/// columns of pattern diagnostics into UTF-16 columns.
pub fn utf16_index_chars(s: &str, idx: usize) -> (r: usize)
    requires
        idx <= s@.len(),
    ensures
        r == utf16_len_chars(s@.take(idx as int)),
{
    let bytes = s.as_bytes();
    let n = bytes.len();
    proof {
        assert(bytes@ == encode_utf8(s@));
        encode_utf8_valid_utf8(s@);
        encode_utf8_decode_utf8(s@);
        assert(bytes@.subrange(0, n as int) =~= bytes@);
    }
    match utf16_col_in_range(bytes, 0, n, idx) {
        Some(u) => u,
        // unreachable: `idx` is at most the character count of `s`
        None => 0,
    }
}

/// Sort the given offsets ascending and drop duplicates: the result is
/// strictly increasing and holds exactly the distinct values of the input.
fn sort_dedup(v: &Vec<usize>) -> (r: Vec<usize>)
    ensures
        forall|k1: int, k2: int| 0 <= k1 < k2 < r@.len() ==> r@[k1] < r@[k2],
        forall|k: int| 0 <= k < r@.len() ==> v@.contains(r@[k]),
        forall|k: int| 0 <= k < v@.len() ==> r@.contains(v@[k]),
{
    let mut r: Vec<usize> = Vec::new();
    let mut i: usize = 0;
    while i < v.len()
        invariant
            i <= v@.len(),
            forall|k1: int, k2: int| 0 <= k1 < k2 < r@.len() ==> r@[k1] < r@[k2],
            forall|k: int| 0 <= k < r@.len() ==> v@.contains(r@[k]),
            forall|k: int| 0 <= k < i ==> r@.contains(v@[k]),
        decreases v@.len() - i,
    {
        let x = v[i];
        let mut j: usize = 0;
        while j < r.len() && r[j] < x
            invariant
                j <= r@.len(),
                forall|k: int| 0 <= k < j ==> r@[k] < x,
            decreases r@.len() - j,
        {
            j = j + 1;
        }
        if j == r.len() || x < r[j] {
            let ghost old_r = r@;
            r.insert(j, x);
            proof {
                assert(forall|k: int| 0 <= k < j ==> r@[k] == old_r[k]);
                assert(r@[j as int] == x);
                assert(forall|k: int|
                    j < k < r@.len() ==> r@[k] == old_r[k - 1] && old_r[k - 1] >= x);
                assert forall|k: int| 0 <= k < old_r.len() implies r@.contains(
                    #[trigger] old_r[k],
                ) by {
                    if k < j {
                        assert(r@[k] == old_r[k]);
                    } else {
                        assert(r@[k + 1] == old_r[k]);
                    }
                }
                assert(r@[j as int] == v@[i as int]);
                assert(r@.contains(v@[i as int]));
            }
        } else {
            proof {
                assert(r@[j as int] == x);
                assert(r@.contains(v@[i as int]));
            }
        }
        i = i + 1;
    }
    r
}

/// The batched form of [`utf16_index_bytes`]: translate an arbitrary
/// (possibly unsorted, possibly duplicated) set of byte offsets in one linear
/// sweep over the buffer. The result holds one pair per distinct input
/// offset, sorted ascending by byte offset, and each pair carries exactly the
/// value the scalar form returns for that offset.
pub fn utf16_index_bytes_slice(s: &str, v: Vec<usize>) -> (r: Vec<(usize, usize)>)
    requires
        forall|k: int| 0 <= k < v@.len() ==> v@[k] <= s.spec_bytes().len(),
    ensures
        forall|k1: int, k2: int| 0 <= k1 < k2 < r@.len() ==> r@[k1].0 < r@[k2].0,
        forall|k: int| 0 <= k < r@.len() ==> v@.contains(r@[k].0),
        forall|k: int| 0 <= k < v@.len() ==> has_offset_entry(r@, #[trigger] v@[k]),
        forall|k: int|
            0 <= k < r@.len() ==> r@[k].1 == utf16_index_of(s.spec_bytes(), r@[k].0 as int),
{
    let sorted = sort_dedup(&v);
    let bytes = s.as_bytes();
    let n = bytes.len();
    proof {
        assert(bytes@ == encode_utf8(s@));
        encode_utf8_valid_utf8(s@);
        assert(bytes@.subrange(0, n as int) =~= bytes@);
    }
    let mut r: Vec<(usize, usize)> = Vec::new();
    let mut b: usize = 0;
    let mut u: usize = 0;
    let ghost mut prev: int = 0;
    let mut i: usize = 0;
    while i < sorted.len()
        invariant
            i <= sorted@.len(),
            n == bytes@.len(),
            bytes@ == s.spec_bytes(),
            forall|k1: int, k2: int| 0 <= k1 < k2 < sorted@.len() ==> sorted@[k1] < sorted@[k2],
            forall|k: int| 0 <= k < sorted@.len() ==> v@.contains(sorted@[k]),
            forall|k: int| 0 <= k < v@.len() ==> sorted@.contains(v@[k]),
            forall|k: int| 0 <= k < sorted@.len() ==> sorted@[k] <= n,
            0 <= prev <= n,
            i < sorted@.len() ==> prev <= sorted@[i as int],
            b == snap_from(bytes@, 0, prev),
            u == utf16_units_from(bytes@, 0, prev),
            u <= b <= n,
            valid_utf8(bytes@.subrange(b as int, n as int)),
            r@.len() == i,
            forall|k: int| 0 <= k < i ==> r@[k].0 == sorted@[k],
            forall|k: int|
                0 <= k < i ==> r@[k].1 == utf16_index_of(bytes@, r@[k].0 as int),
        decreases sorted@.len() - i,
    {
        let q = sorted[i];
        proof {
            assert(v@.contains(sorted@[i as int]));
            lemma_walk_compose(bytes@, 0, prev, q as int);
        }
        let (b2, u2) = walk_to(bytes, b, u, q);
        r.push((q, u2));
        b = b2;
        u = u2;
        proof {
            prev = q as int;
        }
        i = i + 1;
    }
    proof {
        assert(r@.len() == sorted@.len());
        assert forall|k: int| 0 <= k < r@.len() implies v@.contains(#[trigger] r@[k].0) by {
            assert(r@[k].0 == sorted@[k]);
            assert(v@.contains(sorted@[k]));
        }
        assert forall|k: int| 0 <= k < v@.len() implies has_offset_entry(
            r@,
            #[trigger] v@[k],
        ) by {
            let x = v@[k];
            assert(sorted@.contains(x));
            let j = choose|j: int| 0 <= j < sorted@.len() && sorted@[j] == x;
            assert(0 <= j < r@.len() && r@[j].0 == x);
        }
        assert forall|k1: int, k2: int| 0 <= k1 < k2 < r@.len() implies r@[k1].0 < r@[k2].0 by {
            assert(r@[k1].0 == sorted@[k1] && r@[k2].0 == sorted@[k2]);
        }
    }
    r
}

} // verus!
