//! Verified text utilities shared by the transforms.
//!
//! The engine is byte-accurate: spans coming from the syntax tree are byte
//! ranges into the source, so most reasoning happens over `Seq<u8>` (the
//! UTF-8 encoding of a string's characters, `vstd::utf8::encode_utf8`).
//! This module provides the bridge: string equality, byte-range slicing at
//! character boundaries, and decimal rendering of counters for diagnostics.

use vstd::prelude::*;
use vstd::utf8::{encode_utf8, valid_utf8, is_char_boundary, is_continuation_byte};
use vstd::string::StringSliceAdditionalSpecFns;
use vstd::std_specs::iter::IteratorSpec;

verus! {

broadcast use vstd::utf8::group_utf8_lib;

/// `encode_utf8` distributes over concatenation.
pub proof fn lemma_encode_utf8_concat(a: Seq<char>, b: Seq<char>)
    ensures
        encode_utf8(a + b) == encode_utf8(a) + encode_utf8(b),
    decreases a.len(),
{
    if a.len() == 0 {
        assert(a + b =~= b);
        assert(encode_utf8(a) + encode_utf8(b) =~= encode_utf8(b));
    } else {
        assert((a + b)[0] == a[0]);
        assert((a + b).drop_first() =~= a.drop_first() + b);
        lemma_encode_utf8_concat(a.drop_first(), b);
        assert(encode_utf8(a + b) =~= encode_utf8(a) + encode_utf8(b));
    }
}

/// Equal UTF-8 encodings come from equal character sequences.
pub proof fn lemma_encode_utf8_injective(a: Seq<char>, b: Seq<char>)
    requires
        encode_utf8(a) == encode_utf8(b),
    ensures
        a == b,
{
    vstd::utf8::encode_utf8_decode_utf8(a);
    vstd::utf8::encode_utf8_decode_utf8(b);
}

/// The byte range `[start, end)` of a string, as a borrowed slice.
///
/// The range must lie on character boundaries of the UTF-8 encoding, as the
/// splice engine guarantees for every range it keeps.
pub fn slice_range<'a>(s: &'a str, start: usize, end: usize) -> (r: &'a str)
    requires
        start <= end <= s.spec_bytes().len(),
        is_char_boundary(s.spec_bytes(), start as int),
        is_char_boundary(s.spec_bytes(), end as int),
    ensures
        r.spec_bytes() == s.spec_bytes().subrange(start as int, end as int),
{
    let ghost b = s.spec_bytes();
    proof {
        assert(b == encode_utf8(s@));
        assert(valid_utf8(b));
    }
    let (_, tail) = s.split_at(start);
    proof {
        let tb = b.subrange(start as int, b.len() as int);
        assert(tail.spec_bytes() == tb);
        assert(valid_utf8(tb));
        if end < b.len() {
            assert(!is_continuation_byte(b[end as int]));
            assert(tb[end - start] == b[end as int]);
            assert(is_char_boundary(tb, end - start));
        } else {
            assert(end - start == tb.len());
            assert(is_char_boundary(tb, end - start));
        }
    }
    let (head, _) = tail.split_at(end - start);
    proof {
        assert(head.spec_bytes() =~= b.subrange(start as int, end as int));
    }
    head
}

/// The decimal digit character for a value below ten.
pub open spec fn digit_char(d: int) -> char {
    if d == 0 {
        '0'
    } else if d == 1 {
        '1'
    } else if d == 2 {
        '2'
    } else if d == 3 {
        '3'
    } else if d == 4 {
        '4'
    } else if d == 5 {
        '5'
    } else if d == 6 {
        '6'
    } else if d == 7 {
        '7'
    } else if d == 8 {
        '8'
    } else {
        '9'
    }
}

/// The decimal rendering of a number.
pub open spec fn dec_str(n: nat) -> Seq<char>
    decreases n,
{
    if n < 10 {
        seq![digit_char(n as int)]
    } else {
        dec_str(n / 10).push(digit_char((n % 10) as int))
    }
}

fn digit_char_exec(d: usize) -> (c: char)
    requires
        d < 10,
    ensures
        c == digit_char(d as int),
{
    if d == 0 {
        '0'
    } else if d == 1 {
        '1'
    } else if d == 2 {
        '2'
    } else if d == 3 {
        '3'
    } else if d == 4 {
        '4'
    } else if d == 5 {
        '5'
    } else if d == 6 {
        '6'
    } else if d == 7 {
        '7'
    } else if d == 8 {
        '8'
    } else {
        '9'
    }
}

/// Render a number in decimal.
pub fn usize_to_string(n: usize) -> (s: String)
    ensures
        s@ == dec_str(n as nat),
{
    let mut digits: Vec<char> = Vec::new();
    let mut m: usize = n;
    loop
        invariant_except_break
            m == 0 ==> digits@.len() == 0,
        invariant
            dec_str(n as nat) == (if m > 0 || digits@.len() == 0 {
                dec_str(m as nat)
            } else {
                Seq::<char>::empty()
            }) + digits@.reverse(),
        ensures
            dec_str(n as nat) == digits@.reverse(),
        decreases m,
    {
        let ghost old_digits = digits@;
        let ghost old_m = m as nat;
        let d = m % 10;
        digits.push(digit_char_exec(d));
        proof {
            assert(digits@.reverse() =~= seq![digit_char(d as int)] + old_digits.reverse());
        }
        m = m / 10;
        proof {
            assert(old_m == 10 * (old_m / 10) + old_m % 10) by (nonlinear_arith);
            if m > 0 {
                assert(old_m >= 10);
                assert(dec_str(old_m) == dec_str(old_m / 10).push(digit_char((old_m % 10) as int)));
                assert(dec_str(old_m) + old_digits.reverse() =~= dec_str(m as nat) + digits@
                    .reverse());
            } else {
                assert(old_m < 10);
                assert(dec_str(old_m) == seq![digit_char(old_m as int)]);
                assert(dec_str(old_m) + old_digits.reverse() =~= digits@.reverse());
            }
        }
        if m == 0 {
            break;
        }
    }
    let k = digits.len();
    let mut s = String::new();
    let mut i: usize = 0;
    while i < k
        invariant
            k == digits@.len(),
            dec_str(n as nat) == digits@.reverse(),
            0 <= i <= k,
            s@ == digits@.reverse().take(i as int),
        decreases k - i,
    {
        push_char(&mut s, digits[k - 1 - i]);
        proof {
            assert(digits@.reverse()[i as int] == digits@[k - 1 - i]);
            assert(digits@.reverse().take(i as int) + seq![digits@[k - 1 - i]] =~= digits@
                .reverse().take(i + 1));
        }
        i += 1;
    }
    proof {
        assert(digits@.reverse().take(k as int) =~= digits@.reverse());
    }
    s
}

/// Render a number in decimal.
pub fn u128_to_string(n: u128) -> (s: String)
    ensures
        s@ == dec_str(n as nat),
{
    let mut digits: Vec<char> = Vec::new();
    let mut m: u128 = n;
    loop
        invariant_except_break
            m == 0 ==> digits@.len() == 0,
        invariant
            dec_str(n as nat) == (if m > 0 || digits@.len() == 0 {
                dec_str(m as nat)
            } else {
                Seq::<char>::empty()
            }) + digits@.reverse(),
        ensures
            dec_str(n as nat) == digits@.reverse(),
        decreases m,
    {
        let ghost old_digits = digits@;
        let ghost old_m = m as nat;
        let d = (m % 10) as usize;
        digits.push(digit_char_exec(d));
        proof {
            assert(digits@.reverse() =~= seq![digit_char(d as int)] + old_digits.reverse());
        }
        m = m / 10;
        proof {
            assert(old_m == 10 * (old_m / 10) + old_m % 10) by (nonlinear_arith);
            if m > 0 {
                assert(old_m >= 10);
                assert(dec_str(old_m) == dec_str(old_m / 10).push(digit_char((old_m % 10) as int)));
                assert(dec_str(old_m) + old_digits.reverse() =~= dec_str(m as nat) + digits@
                    .reverse());
            } else {
                assert(old_m < 10);
                assert(dec_str(old_m) == seq![digit_char(old_m as int)]);
                assert(dec_str(old_m) + old_digits.reverse() =~= digits@.reverse());
            }
        }
        if m == 0 {
            break;
        }
    }
    let k = digits.len();
    let mut s = String::new();
    let mut i: usize = 0;
    while i < k
        invariant
            k == digits@.len(),
            dec_str(n as nat) == digits@.reverse(),
            0 <= i <= k,
            s@ == digits@.reverse().take(i as int),
        decreases k - i,
    {
        push_char(&mut s, digits[k - 1 - i]);
        proof {
            assert(digits@.reverse()[i as int] == digits@[k - 1 - i]);
            assert(digits@.reverse().take(i as int) + seq![digits@[k - 1 - i]] =~= digits@
                .reverse().take(i + 1));
        }
        i += 1;
    }
    proof {
        assert(digits@.reverse().take(k as int) =~= digits@.reverse());
    }
    s
}

/// The characters `[lo, hi)` of a vector, collected into a string.
pub fn chars_range_to_string(v: &Vec<char>, lo: usize, hi: usize) -> (s: String)
    requires
        lo <= hi <= v@.len(),
    ensures
        s@ == v@.subrange(lo as int, hi as int),
{
    let mut s = String::new();
    let mut p: usize = lo;
    proof {
        assert(s@ =~= v@.subrange(lo as int, lo as int));
    }
    while p < hi
        invariant
            lo <= p <= hi <= v@.len(),
            s@ == v@.subrange(lo as int, p as int),
        decreases hi - p,
    {
        push_char(&mut s, v[p]);
        proof {
            assert(v@.subrange(lo as int, p as int) + seq![v@[p as int]] =~= v@.subrange(
                lo as int,
                p + 1,
            ));
        }
        p += 1;
    }
    s
}

// ============================================================================
// Whitespace trimming over UTF-8 bytes
// ============================================================================
//
// Trimming matches Rust's `str::trim`: the characters with the Unicode
// White_Space property are stripped from both ends.  Those characters are
// U+0009..U+000D and U+0020 (one UTF-8 byte each), U+0085 and U+00A0 (two
// bytes, `C2 85` / `C2 A0`), and U+1680, U+2000..U+200A, U+2028, U+2029,
// U+202F, U+205F and U+3000 (three bytes each).  The scans below recognize
// those encodings directly, leading byte included, so on valid UTF-8 they
// strip exactly the whitespace characters.

/// True for the single-byte (ASCII) whitespace encodings.
pub open spec fn is_ws_byte1(b: u8) -> bool {
    b == 9 || b == 10 || b == 11 || b == 12 || b == 13 || b == 32
}

/// True for the three-byte whitespace encodings.
pub open spec fn is_ws_bytes3(a: u8, b: u8, c: u8) -> bool {
    (a == 0xe1 && b == 0x9a && c == 0x80) || (a == 0xe2 && b == 0x80 && (0x80 <= c <= 0x8a || c
        == 0xa8 || c == 0xa9 || c == 0xaf)) || (a == 0xe2 && b == 0x81 && c == 0x9f) || (a == 0xe3
        && b == 0x80 && c == 0x80)
}

/// The width of the whitespace encoding starting at `i` within `[i, hi)`,
/// or zero when none starts there.
pub open spec fn ws_width_in(s: Seq<u8>, i: int, hi: int) -> int {
    if 0 <= i && i < hi && hi <= s.len() {
        if is_ws_byte1(s[i]) {
            1
        } else if i + 2 <= hi && s[i] == 0xc2 && (s[i + 1] == 0x85 || s[i + 1] == 0xa0) {
            2
        } else if i + 3 <= hi && is_ws_bytes3(s[i], s[i + 1], s[i + 2]) {
            3
        } else {
            0
        }
    } else {
        0
    }
}

/// The width of the whitespace encoding ending at `e` within `[lo, e)`,
/// or zero when none ends there.
pub open spec fn ws_suffix_width_in(s: Seq<u8>, lo: int, e: int) -> int {
    if 0 <= lo && lo <= e && e <= s.len() {
        if lo + 1 <= e && is_ws_byte1(s[e - 1]) {
            1
        } else if e - lo >= 2 && s[e - 2] == 0xc2 && (s[e - 1] == 0x85 || s[e - 1] == 0xa0) {
            2
        } else if lo + 3 <= e && is_ws_bytes3(s[e - 3], s[e - 2], s[e - 1]) {
            3
        } else {
            0
        }
    } else {
        0
    }
}

/// The position after the leading whitespace of `[i, hi)`.
pub open spec fn trim_start_in(s: Seq<u8>, i: int, hi: int) -> int
    decreases hi - i,
{
    let w = ws_width_in(s, i, hi);
    if w > 0 {
        trim_start_in(s, i + w, hi)
    } else {
        i
    }
}

/// The position before the trailing whitespace of `[lo, e)`.
pub open spec fn trim_end_in(s: Seq<u8>, lo: int, e: int) -> int
    decreases e - lo,
{
    let w = ws_suffix_width_in(s, lo, e);
    if w > 0 {
        trim_end_in(s, lo, e - w)
    } else {
        e
    }
}

/// The subrange of `[lo, hi)` that remains after trimming whitespace from
/// both ends.
pub open spec fn trimmed_range(s: Seq<u8>, lo: int, hi: int) -> (int, int) {
    let a = trim_start_in(s, lo, hi);
    (a, trim_end_in(s, a, hi))
}

/// The bytes of `[lo, hi)` that remain after trimming whitespace.
pub open spec fn trimmed_sub(s: Seq<u8>, lo: int, hi: int) -> Seq<u8> {
    s.subrange(trimmed_range(s, lo, hi).0, trimmed_range(s, lo, hi).1)
}

proof fn lemma_trim_start_le(s: Seq<u8>, i: int, hi: int)
    requires
        0 <= i <= hi <= s.len(),
    ensures
        i <= trim_start_in(s, i, hi) <= hi,
    decreases hi - i,
{
    let w = ws_width_in(s, i, hi);
    if w > 0 {
        lemma_trim_start_le(s, i + w, hi);
    }
}

proof fn lemma_trim_end_ge(s: Seq<u8>, lo: int, e: int)
    requires
        0 <= lo <= e <= s.len(),
    ensures
        lo <= trim_end_in(s, lo, e) <= e,
    decreases e - lo,
{
    let w = ws_suffix_width_in(s, lo, e);
    if w > 0 {
        lemma_trim_end_ge(s, lo, e - w);
    }
}

/// The bounds of the trimmed range.
pub proof fn lemma_trimmed_range_bounds(s: Seq<u8>, lo: int, hi: int)
    requires
        0 <= lo <= hi <= s.len(),
    ensures
        lo <= trimmed_range(s, lo, hi).0 <= trimmed_range(s, lo, hi).1 <= hi,
{
    lemma_trim_start_le(s, lo, hi);
    lemma_trim_end_ge(s, trim_start_in(s, lo, hi), hi);
}

/// Stepping over one whitespace encoding from a character boundary lands on
/// a character boundary.
proof fn lemma_ws_step_boundary(s: Seq<u8>, i: int, hi: int)
    requires
        valid_utf8(s),
        0 <= i <= hi <= s.len(),
        is_char_boundary(s, i),
        ws_width_in(s, i, hi) > 0,
    ensures
        is_char_boundary(s, i + ws_width_in(s, i, hi)),
{
    let w = ws_width_in(s, i, hi);
    let tail = s.subrange(i, s.len() as int);
    assert(valid_utf8(tail));
    assert(tail[0] == s[i]);
    if w == 2 {
        assert(tail[1] == s[i + 1]);
    }
    if w == 3 {
        assert(tail[1] == s[i + 1]);
        assert(tail[2] == s[i + 2]);
    }
    assert(vstd::utf8::length_of_first_scalar(tail) == w);
    assert(is_char_boundary(tail, w)) by {
        reveal_with_fuel(vstd::utf8::valid_utf8, 2);
        reveal_with_fuel(vstd::utf8::is_char_boundary, 2);
    }
    if i + w < s.len() {
        assert(tail[w] == s[i + w]);
        assert(!vstd::utf8::is_continuation_byte(tail[w]));
        assert(is_char_boundary(s, i + w));
    } else {
        assert(is_char_boundary(s, i + w));
    }
}

/// The start of the trimmed range is a character boundary.
pub proof fn lemma_trim_start_boundary(s: Seq<u8>, i: int, hi: int)
    requires
        valid_utf8(s),
        0 <= i <= hi <= s.len(),
        is_char_boundary(s, i),
    ensures
        is_char_boundary(s, trim_start_in(s, i, hi)),
    decreases hi - i,
{
    let w = ws_width_in(s, i, hi);
    if w > 0 {
        lemma_ws_step_boundary(s, i, hi);
        lemma_trim_start_boundary(s, i + w, hi);
    }
}

/// The end of the trimmed range is a character boundary.
pub proof fn lemma_trim_end_boundary(s: Seq<u8>, lo: int, e: int)
    requires
        valid_utf8(s),
        0 <= lo <= e <= s.len(),
        is_char_boundary(s, e),
    ensures
        is_char_boundary(s, trim_end_in(s, lo, e)),
    decreases e - lo,
{
    let w = ws_suffix_width_in(s, lo, e);
    if w > 0 {
        assert(!is_continuation_byte(s[e - w]));
        assert(is_char_boundary(s, e - w));
        lemma_trim_end_boundary(s, lo, e - w);
    }
}

/// The width of the whitespace encoding starting at `i` within `[i, hi)`.
pub fn ws_width_exec(s: &[u8], i: usize, hi: usize) -> (w: usize)
    requires
        i < hi <= s@.len(),
    ensures
        w == ws_width_in(s@, i as int, hi as int),
{
    let b = s[i];
    if b == 9 || b == 10 || b == 11 || b == 12 || b == 13 || b == 32 {
        1
    } else if hi - i >= 2 && b == 0xc2 && (s[i + 1] == 0x85 || s[i + 1] == 0xa0) {
        2
    } else if hi - i >= 3 && ((b == 0xe1 && s[i + 1] == 0x9a && s[i + 2] == 0x80) || (b == 0xe2
        && s[i + 1] == 0x80 && (0x80 <= s[i + 2] && s[i + 2] <= 0x8a || s[i + 2] == 0xa8 || s[i
        + 2] == 0xa9 || s[i + 2] == 0xaf)) || (b == 0xe2 && s[i + 1] == 0x81 && s[i + 2] == 0x9f)
        || (b == 0xe3 && s[i + 1] == 0x80 && s[i + 2] == 0x80)) {
        3
    } else {
        0
    }
}

fn ws_suffix_width_exec(s: &[u8], lo: usize, e: usize) -> (w: usize)
    requires
        lo < e,
        e <= s@.len(),
    ensures
        w == ws_suffix_width_in(s@, lo as int, e as int),
{
    let b = s[e - 1];
    if b == 9 || b == 10 || b == 11 || b == 12 || b == 13 || b == 32 {
        1
    } else if e - lo >= 2 && s[e - 2] == 0xc2 && (b == 0x85 || b == 0xa0) {
        2
    } else if e - lo >= 3 && ((s[e - 3] == 0xe1 && s[e - 2] == 0x9a && b == 0x80) || (s[e - 3]
        == 0xe2 && s[e - 2] == 0x80 && (0x80 <= b && b <= 0x8a || b == 0xa8 || b == 0xa9 || b
        == 0xaf)) || (s[e - 3] == 0xe2 && s[e - 2] == 0x81 && b == 0x9f) || (s[e - 3] == 0xe3 && s[e
        - 2] == 0x80 && b == 0x80)) {
        3
    } else {
        0
    }
}

/// The trimmed subrange of `[lo, hi)`: whitespace stripped from both ends.
pub fn trim_span(s: &[u8], lo: usize, hi: usize) -> (r: (usize, usize))
    requires
        lo <= hi <= s@.len(),
    ensures
        (r.0 as int, r.1 as int) == trimmed_range(s@, lo as int, hi as int),
        lo <= r.0 <= r.1 <= hi,
{
    proof {
        lemma_trimmed_range_bounds(s@, lo as int, hi as int);
    }
    let mut a = lo;
    while a < hi && ws_width_exec(s, a, hi) > 0
        invariant
            lo <= a <= hi <= s@.len(),
            trim_start_in(s@, lo as int, hi as int) == trim_start_in(s@, a as int, hi as int),
        decreases hi - a,
    {
        let w = ws_width_exec(s, a, hi);
        a += w;
    }
    proof {
        assert(ws_width_in(s@, a as int, hi as int) == 0);
        assert(trim_start_in(s@, a as int, hi as int) == a);
        lemma_trim_end_ge(s@, a as int, hi as int);
    }
    let mut e = hi;
    while e > a && ws_suffix_width_exec(s, a, e) > 0
        invariant
            lo <= a <= e <= hi <= s@.len(),
            trim_start_in(s@, lo as int, hi as int) == a,
            trim_end_in(s@, a as int, hi as int) == trim_end_in(s@, a as int, e as int),
        decreases e,
    {
        let w = ws_suffix_width_exec(s, a, e);
        proof {
            lemma_trim_end_ge(s@, a as int, e - w);
        }
        e -= w;
    }
    proof {
        assert(ws_suffix_width_in(s@, a as int, e as int) == 0);
        assert(trim_end_in(s@, a as int, e as int) == e);
    }
    (a, e)
}

// ============================================================================
// Whitespace over characters
// ============================================================================

/// True for the characters with the Unicode White_Space property, the set
/// `str::trim` strips.
pub open spec fn is_ws_char(c: char) -> bool {
    let u = c as u32;
    u == 9 || u == 10 || u == 11 || u == 12 || u == 13 || u == 32 || u == 0x85 || u == 0xa0 || u
        == 0x1680 || (0x2000 <= u && u <= 0x200a) || u == 0x2028 || u == 0x2029 || u == 0x202f || u
        == 0x205f || u == 0x3000
}

/// True when a character is whitespace.
pub fn is_ws_char_exec(c: char) -> (r: bool)
    ensures
        r == is_ws_char(c),
{
    let u = c as u32;
    u == 9 || u == 10 || u == 11 || u == 12 || u == 13 || u == 32 || u == 0x85 || u == 0xa0 || u
        == 0x1680 || (0x2000 <= u && u <= 0x200a) || u == 0x2028 || u == 0x2029 || u == 0x202f || u
        == 0x205f || u == 0x3000
}

/// The characters left after dropping leading whitespace.
pub open spec fn trim_chars_start(s: Seq<char>) -> Seq<char>
    decreases s.len(),
{
    if s.len() > 0 && is_ws_char(s[0]) {
        trim_chars_start(s.drop_first())
    } else {
        s
    }
}

/// The characters left after dropping trailing whitespace.
pub open spec fn trim_chars_end(s: Seq<char>) -> Seq<char>
    decreases s.len(),
{
    if s.len() > 0 && is_ws_char(s.last()) {
        trim_chars_end(s.drop_last())
    } else {
        s
    }
}

/// The characters left after trimming whitespace from both ends.
pub open spec fn trim_chars(s: Seq<char>) -> Seq<char> {
    trim_chars_end(trim_chars_start(s))
}

/// True when every character is whitespace, that is, trimming leaves
/// nothing.
pub open spec fn is_blank(s: Seq<char>) -> bool {
    forall|i: int| 0 <= i < s.len() ==> is_ws_char(#[trigger] s[i])
}

proof fn lemma_trim_chars_start_blank(s: Seq<char>)
    ensures
        (trim_chars_start(s).len() == 0) <==> is_blank(s),
        trim_chars_start(s).len() > 0 ==> !is_ws_char(trim_chars_start(s)[0]),
    decreases s.len(),
{
    if s.len() > 0 && is_ws_char(s[0]) {
        lemma_trim_chars_start_blank(s.drop_first());
        assert(is_blank(s.drop_first()) ==> is_blank(s)) by {
            if is_blank(s.drop_first()) {
                assert forall|i: int| 0 <= i < s.len() implies is_ws_char(#[trigger] s[i]) by {
                    if i > 0 {
                        assert(s.drop_first()[i - 1] == s[i]);
                    }
                }
            }
        }
        assert(is_blank(s) ==> is_blank(s.drop_first())) by {
            if is_blank(s) {
                assert forall|i: int| 0 <= i < s.drop_first().len() implies is_ws_char(
                    #[trigger] s.drop_first()[i],
                ) by {
                    assert(s.drop_first()[i] == s[i + 1]);
                }
            }
        }
    }
}

proof fn lemma_trim_chars_end_keeps_head(s: Seq<char>)
    requires
        s.len() > 0,
        !is_ws_char(s[0]),
    ensures
        trim_chars_end(s).len() > 0,
    decreases s.len(),
{
    if is_ws_char(s.last()) {
        assert(s.drop_last()[0] == s[0]);
        lemma_trim_chars_end_keeps_head(s.drop_last());
    }
}

/// Trimming leaves nothing exactly when every character is whitespace.
pub proof fn lemma_trim_chars_empty_iff(s: Seq<char>)
    ensures
        (trim_chars(s).len() == 0) <==> is_blank(s),
{
    lemma_trim_chars_start_blank(s);
    let ts = trim_chars_start(s);
    if ts.len() > 0 {
        lemma_trim_chars_end_keeps_head(ts);
    }
}

/// The subrange of `[lo, hi)` left after trimming whitespace characters.
pub fn trim_chars_range(v: &Vec<char>, lo: usize, hi: usize) -> (r: (usize, usize))
    requires
        lo <= hi <= v@.len(),
    ensures
        lo <= r.0 <= r.1 <= hi,
        v@.subrange(r.0 as int, r.1 as int) == trim_chars(v@.subrange(lo as int, hi as int)),
{
    let mut a = lo;
    while a < hi && is_ws_char_exec(v[a])
        invariant
            lo <= a <= hi <= v@.len(),
            trim_chars_start(v@.subrange(lo as int, hi as int)) == trim_chars_start(
                v@.subrange(a as int, hi as int),
            ),
        decreases hi - a,
    {
        proof {
            assert(v@.subrange(a as int, hi as int)[0] == v@[a as int]);
            assert(v@.subrange(a as int, hi as int).drop_first() =~= v@.subrange(a + 1, hi as int));
        }
        a += 1;
    }
    proof {
        if a < hi {
            assert(v@.subrange(a as int, hi as int)[0] == v@[a as int]);
        }
        assert(trim_chars_start(v@.subrange(a as int, hi as int)) == v@.subrange(
            a as int,
            hi as int,
        ));
    }
    let mut b = hi;
    while b > a && is_ws_char_exec(v[b - 1])
        invariant
            lo <= a <= b <= hi <= v@.len(),
            trim_chars_start(v@.subrange(lo as int, hi as int)) == v@.subrange(a as int, hi as int),
            trim_chars_end(v@.subrange(a as int, hi as int)) == trim_chars_end(
                v@.subrange(a as int, b as int),
            ),
        decreases b,
    {
        proof {
            assert(v@.subrange(a as int, b as int).last() == v@[b - 1]);
            assert(v@.subrange(a as int, b as int).drop_last() =~= v@.subrange(a as int, b - 1));
        }
        b -= 1;
    }
    proof {
        if b > a {
            assert(v@.subrange(a as int, b as int).last() == v@[b - 1]);
        }
        assert(trim_chars_end(v@.subrange(a as int, b as int)) == v@.subrange(a as int, b as int));
    }
    (a, b)
}

/// True when every character of the string is whitespace.
pub fn is_blank_str(s: &str) -> (r: bool)
    ensures
        r == is_blank(s@),
{
    let v = chars_vec(s);
    let n = v.len();
    let mut i: usize = 0;
    while i < n
        invariant
            v@ == s@,
            n == v@.len(),
            0 <= i <= n,
            forall|k: int| 0 <= k < i ==> is_ws_char(#[trigger] s@[k]),
        decreases n - i,
    {
        if !is_ws_char_exec(v[i]) {
            return false;
        }
        i += 1;
    }
    true
}

/// The pieces joined with a separator between each adjacent pair.
pub open spec fn join_with<A>(pieces: Seq<Seq<A>>, sep: Seq<A>) -> Seq<A>
    decreases pieces.len(),
{
    if pieces.len() == 0 {
        Seq::empty()
    } else if pieces.len() == 1 {
        pieces[0]
    } else {
        pieces[0] + sep + join_with(pieces.drop_first(), sep)
    }
}

/// Appending one piece extends the join by a separator and the piece.
pub proof fn lemma_join_with_snoc<A>(pieces: Seq<Seq<A>>, sep: Seq<A>, p: Seq<A>)
    ensures
        join_with(pieces.push(p), sep) == if pieces.len() == 0 {
            p
        } else {
            join_with(pieces, sep) + sep + p
        },
    decreases pieces.len(),
{
    if pieces.len() == 0 {
        assert(join_with(pieces.push(p), sep) =~= p);
    } else {
        lemma_join_with_snoc(pieces.drop_first(), sep, p);
        assert(pieces.push(p).drop_first() =~= pieces.drop_first().push(p));
        assert(pieces.push(p)[0] == pieces[0]);
        if pieces.len() == 1 {
            assert(pieces.drop_first().len() == 0);
            assert(join_with(pieces.push(p), sep) == pieces[0] + sep + p);
            assert(join_with(pieces, sep) + sep + p =~= pieces[0] + sep + p);
        } else {
            assert(join_with(pieces, sep) + sep + p =~= pieces[0] + sep + (join_with(
                pieces.drop_first(),
                sep,
            ) + sep + p));
        }
    }
}

/// Relies on `String::push`: appends exactly one character to the string.
#[verifier::external_body]
pub fn push_char(s: &mut String, c: char)
    ensures
        final(s)@ == old(s)@ + seq![c],
{
    s.push(c);
}

/// The characters of a string, collected into a vector for random access.
pub fn chars_vec(s: &str) -> (v: Vec<char>)
    ensures
        v@ == s@,
{
    let mut it = s.chars();
    let mut v: Vec<char> = Vec::new();
    loop
        invariant
            it.obeys_prophetic_iter_laws(),
            it.decrease() is Some,
            v@ + it.remaining() == s@,
        ensures
            v@ == s@,
        decreases it.decrease()->0,
    {
        match it.next() {
            Some(c) => {
                v.push(c);
                proof {
                    assert(v@ + it.remaining() =~= s@);
                }
            },
            None => {
                proof {
                    assert(v@ =~= s@);
                }
                break;
            },
        }
    }
    v
}

/// String equality, decided by comparing the UTF-8 bytes.
pub fn str_eq(a: &str, b: &str) -> (r: bool)
    ensures
        r == (a@ == b@),
{
    let ab = a.as_bytes();
    let bb = b.as_bytes();
    if ab.len() != bb.len() {
        proof {
            if a@ == b@ {
                assert(a.spec_bytes() == b.spec_bytes());
                assert(ab@ == bb@);
            }
        }
        return false;
    }
    let n = ab.len();
    let mut i: usize = 0;
    while i < n
        invariant
            n == ab@.len(),
            n == bb@.len(),
            ab@ == a.spec_bytes(),
            bb@ == b.spec_bytes(),
            0 <= i <= n,
            forall|k: int| 0 <= k < i ==> ab@[k] == bb@[k],
        decreases n - i,
    {
        if ab[i] != bb[i] {
            proof {
                if a@ == b@ {
                    assert(a.spec_bytes() == b.spec_bytes());
                    assert(ab@ == bb@);
                    assert(ab@[i as int] == bb@[i as int]);
                }
            }
            return false;
        }
        i += 1;
    }
    proof {
        assert(ab@ =~= bb@);
        lemma_encode_utf8_injective(a@, b@);
    }
    true
}

} // verus!
