//! Shared utilities for reading catalog fields: trimming, unsigned integers,
//! decimals and text.
use crate::number::{lemma_pow10_monotonic, pow10, power_of_ten, Decimal, MAX_SCALE};
use vstd::prelude::*;
use vstd::slice::slice_subrange;
use vstd::string::StringSliceAdditionalSpecFns;
use vstd::utf8::{encode_utf8, is_char_boundary, valid_utf8};

verus! {

/// ASCII white space: space, tab, line feed, vertical tab, form feed, carriage return.
pub open spec fn is_space(b: u8) -> bool {
    b == 0x20 || (0x09 <= b && b <= 0x0d)
}

/// ASCII decimal digit.
pub open spec fn is_digit(b: u8) -> bool {
    0x30 <= b && b <= 0x39
}

/// Every byte of `s` is a decimal digit.
pub open spec fn all_digits(s: Seq<u8>) -> bool {
    forall|i: int| 0 <= i < s.len() ==> is_digit(#[trigger] s[i])
}

/// The number that the digit string `s` writes in base ten (`0` for the empty string).
pub open spec fn digits_value(s: Seq<u8>) -> nat
    decreases s.len(),
{
    if s.len() == 0 {
        0
    } else {
        digits_value(s.drop_last()) * 10 + (s.last() - 0x30) as nat
    }
}

/// The first index in `[lo, hi)` that holds no white space, or `hi`.
pub open spec fn trim_start(s: Seq<u8>, lo: int, hi: int) -> int
    decreases hi - lo,
{
    if 0 <= lo < hi <= s.len() && is_space(s[lo]) {
        trim_start(s, lo + 1, hi)
    } else {
        lo
    }
}

/// The end of the last run of non-space bytes in `[lo, hi)`, or `lo`.
pub open spec fn trim_end(s: Seq<u8>, lo: int, hi: int) -> int
    decreases hi - lo,
{
    if 0 <= lo < hi <= s.len() && is_space(s[hi - 1]) {
        trim_end(s, lo, hi - 1)
    } else {
        hi
    }
}

/// The bytes of `s[lo..hi]` with leading and trailing white space removed.
pub open spec fn trimmed(s: Seq<u8>, lo: int, hi: int) -> Seq<u8> {
    let a = trim_start(s, lo, hi);
    s.subrange(a, trim_end(s, a, hi))
}

/// Whether `b` is ASCII white space.
pub fn byte_is_space(b: u8) -> (r: bool)
    ensures
        r == is_space(b),
{
    b == 0x20 || (0x09 <= b && b <= 0x0d)
}

/// Whether `b` is an ASCII decimal digit.
pub fn byte_is_digit(b: u8) -> (r: bool)
    ensures
        r == is_digit(b),
{
    0x30 <= b && b <= 0x39
}

/// Bounds of `s[lo..hi]` without its leading and trailing white space.
pub(crate) fn trim_bounds(s: &[u8], lo: usize, hi: usize) -> (r: (usize, usize))
    requires
        lo <= hi <= s@.len(),
    ensures
        r.0 == trim_start(s@, lo as int, hi as int),
        r.1 == trim_end(s@, r.0 as int, hi as int),
        lo <= r.0 <= r.1 <= hi,
{
    let mut a: usize = lo;
    while a < hi && byte_is_space(s[a])
        invariant
            lo <= a <= hi <= s@.len(),
            trim_start(s@, lo as int, hi as int) == trim_start(s@, a as int, hi as int),
        decreases hi - a,
    {
        a = a + 1;
    }
    let mut e: usize = hi;
    while a < e && byte_is_space(s[e - 1])
        invariant
            a <= e <= hi <= s@.len(),
            trim_end(s@, a as int, hi as int) == trim_end(s@, a as int, e as int),
        decreases e - a,
    {
        e = e - 1;
    }
    (a, e)
}

/// The first index in `[lo, hi)` that holds the byte `c`, or `hi`.
pub open spec fn find_byte(s: Seq<u8>, c: u8, lo: int, hi: int) -> int
    decreases hi - lo,
{
    if 0 <= lo < hi <= s.len() && s[lo] != c {
        find_byte(s, c, lo + 1, hi)
    } else {
        lo
    }
}

/// The first index at or after `lo` that holds no decimal digit, or the length of `s`.
pub open spec fn digits_end(s: Seq<u8>, lo: int) -> int
    decreases s.len() - lo,
{
    if 0 <= lo < s.len() && is_digit(s[lo]) {
        digits_end(s, lo + 1)
    } else {
        lo
    }
}

/// What `s` reads as an unsigned integer no greater than `max`: an optional `+`,
/// then one or more decimal digits and nothing else.
pub open spec fn unsigned_text(s: Seq<u8>, max: nat) -> Option<nat> {
    let d = if s.len() > 0 && s[0] == 0x2b {
        s.subrange(1, s.len() as int)
    } else {
        s
    };
    if d.len() > 0 && all_digits(d) && digits_value(d) <= max {
        Some(digits_value(d))
    } else {
        None
    }
}

/// What `s` reads as a decimal: an optional sign, digits, and optionally a point
/// followed by at most [`MAX_SCALE`] digits and nothing else. At least one digit is
/// needed, and all digits together, read as one integer, must fit the mantissa.
pub open spec fn decimal_text(s: Seq<u8>) -> Option<Decimal> {
    let n = s.len() as int;
    let start: int = if n > 0 && (s[0] == 0x2b || s[0] == 0x2d) {
        1
    } else {
        0
    };
    let dot = digits_end(s, start);
    let whole = s.subrange(start, dot);
    let frac = if dot < n {
        s.subrange(dot + 1, n)
    } else {
        Seq::<u8>::empty()
    };
    let digits = whole + frac;
    if (dot == n || s[dot] == 0x2e) && all_digits(frac) && digits.len() > 0 && frac.len()
        <= MAX_SCALE && digits_value(digits) <= u64::MAX {
        Some(
            Decimal {
                negative: s[0] == 0x2d,
                mantissa: digits_value(digits) as u64,
                scale: frac.len() as u16,
            },
        )
    } else {
        None
    }
}

/// The part of `[lo, hi)` that lies within a line of `len` bytes: a field that the
/// line ends before, or within, is read from the bytes that are there.
pub open spec fn clip(len: int, lo: int, hi: int) -> (int, int) {
    let h = if hi < len {
        hi
    } else {
        len
    };
    let l = if lo < h {
        lo
    } else {
        h
    };
    (l, h)
}

/// The bytes of the field `[lo, hi)` of `line`, without leading and trailing white space.
pub open spec fn field(line: Seq<u8>, lo: int, hi: int) -> Seq<u8> {
    let (l, h) = clip(line.len() as int, lo, hi);
    trimmed(line, l, h)
}

/// The unsigned integer written in the field `[lo, hi)` of `line`, if there is one
/// and it is at most `max`.
pub open spec fn unsigned_field(line: Seq<u8>, lo: int, hi: int, max: nat) -> Option<nat> {
    unsigned_text(field(line, lo, hi), max)
}

/// The `usize` written in the field `[lo, hi)` of `line`.
pub open spec fn usize_field(line: Seq<u8>, lo: int, hi: int) -> Option<usize> {
    match unsigned_field(line, lo, hi, usize::MAX as nat) {
        Some(v) => Some(v as usize),
        None => None,
    }
}

/// Whether a byte opens an exponent: `e` or `E`.
pub open spec fn is_exponent_mark(b: u8) -> bool {
    b == 0x65 || b == 0x45
}

/// The first index at or after `lo` that holds an exponent mark, or the length of `s`.
pub open spec fn exponent_mark(s: Seq<u8>, lo: int) -> int
    decreases s.len() - lo,
{
    if 0 <= lo < s.len() && !is_exponent_mark(s[lo]) {
        exponent_mark(s, lo + 1)
    } else {
        lo
    }
}

/// What `t` reads as an exponent: an optional sign, then one or more digits
/// that write at most 99. The flag says whether the sign is a minus.
pub open spec fn exponent_text(t: Seq<u8>) -> Option<(bool, nat)> {
    let digits = if t.len() > 0 && (t[0] == 0x2b || t[0] == 0x2d) {
        t.subrange(1, t.len() as int)
    } else {
        t
    };
    if digits.len() > 0 && digits[0] != 0x2b {
        match unsigned_text(digits, 99) {
            Some(v) => Some((t[0] == 0x2d, v)),
            None => None,
        }
    } else {
        None
    }
}

/// A decimal with its point moved by so many places, to the left where `down`
/// is set and to the right otherwise: the decimal times a power of ten. There
/// is none where it would need more than [`MAX_SCALE`] places or a longer
/// mantissa.
pub open spec fn shifted(d: Decimal, down: bool, places: nat) -> Option<Decimal> {
    if down {
        if d.scale + places <= MAX_SCALE {
            Some(
                Decimal {
                    negative: d.negative,
                    mantissa: d.mantissa,
                    scale: (d.scale + places) as u16,
                },
            )
        } else {
            None
        }
    } else if places <= d.scale {
        Some(
            Decimal { negative: d.negative, mantissa: d.mantissa, scale: (d.scale - places) as u16 },
        )
    } else if d.mantissa * pow10((places - d.scale) as nat) <= u64::MAX {
        Some(
            Decimal {
                negative: d.negative,
                mantissa: (d.mantissa * pow10((places - d.scale) as nat)) as u64,
                scale: 0,
            },
        )
    } else {
        None
    }
}

/// What `s` reads as a number: a decimal, see [`decimal_text`], and
/// optionally behind it an exponent mark and an exponent, see
/// [`exponent_text`], by which the point of the decimal is moved.
pub open spec fn number_text(s: Seq<u8>) -> Option<Decimal> {
    let k = exponent_mark(s, 0);
    if k >= s.len() {
        decimal_text(s)
    } else {
        match (decimal_text(s.subrange(0, k)), exponent_text(s.subrange(k + 1, s.len() as int))) {
            (Some(d), Some(e)) => shifted(d, e.0, e.1),
            _ => None,
        }
    }
}

/// The number written in the field `[lo, hi)` of `line`, if there is one.
pub open spec fn decimal_field(line: Seq<u8>, lo: int, hi: int) -> Option<Decimal> {
    number_text(field(line, lo, hi))
}

/// The text of the field `[lo, hi)` of `line`, trimmed: absent when nothing but
/// white space is left, or when the trimmed range does not lie on character
/// boundaries, which happens only to a field that is itself cut inside a
/// character (see [`lemma_text_field_of_whole_characters`]).
pub open spec fn text_field(line: Seq<u8>, lo: int, hi: int) -> Option<Seq<u8>> {
    let (l, h) = clip(line.len() as int, lo, hi);
    let a = trim_start(line, l, h);
    let e = trim_end(line, a, h);
    if a < e && is_char_boundary(line, a) && is_char_boundary(line, e) {
        Some(line.subrange(a, e))
    } else {
        None
    }
}

/// The UTF-8 bytes of an optional string.
pub open spec fn text_bytes(t: Option<String>) -> Option<Seq<u8>> {
    match t {
        Some(s) => Some(encode_utf8(s@)),
        None => None,
    }
}

/// A digit string is worth at least as much as each of its prefixes.
pub proof fn lemma_digits_prefix(s: Seq<u8>, k: int)
    requires
        0 <= k <= s.len(),
    ensures
        digits_value(s.subrange(0, k)) <= digits_value(s),
    decreases s.len() - k,
{
    if k == s.len() {
        assert(s.subrange(0, k) =~= s);
    } else {
        lemma_digits_prefix(s.drop_last(), k);
        assert(s.drop_last().subrange(0, k) =~= s.subrange(0, k));
    }
}

/// The first index at or after `lo` in `s` that holds no decimal digit.
pub(crate) fn scan_digits(s: &[u8], lo: usize) -> (r: usize)
    requires
        lo <= s@.len(),
    ensures
        r == digits_end(s@, lo as int),
        lo <= r <= s@.len(),
        all_digits(s@.subrange(lo as int, r as int)),
        r < s@.len() ==> !is_digit(s@[r as int]),
{
    let mut i: usize = lo;
    while i < s.len() && byte_is_digit(s[i])
        invariant
            lo <= i <= s@.len(),
            digits_end(s@, lo as int) == digits_end(s@, i as int),
            all_digits(s@.subrange(lo as int, i as int)),
        decreases s@.len() - i,
    {
        i = i + 1;
    }
    i
}

/// Appends the digits `s[lo..hi]` to a number already read: `acc` is the value of
/// the digit string `pre`, the result that of `pre` followed by `s[lo..hi]`, unless
/// it would pass `max`.
fn accumulate(s: &[u8], lo: usize, hi: usize, Ghost(pre): Ghost<Seq<u8>>, acc: u64, max: u64) -> (r:
    Option<u64>)
    requires
        lo <= hi <= s@.len(),
        all_digits(s@.subrange(lo as int, hi as int)),
        acc == digits_value(pre),
        acc <= max,
    ensures
        match r {
            Some(v) => v == digits_value(pre + s@.subrange(lo as int, hi as int)) && v <= max,
            None => digits_value(pre + s@.subrange(lo as int, hi as int)) > max,
        },
{
    let ghost all = pre + s@.subrange(lo as int, hi as int);
    let mut v: u64 = acc;
    let mut i: usize = lo;
    assert(pre + s@.subrange(lo as int, lo as int) =~= pre);
    while i < hi
        invariant
            lo <= i <= hi <= s@.len(),
            all_digits(s@.subrange(lo as int, hi as int)),
            all == pre + s@.subrange(lo as int, hi as int),
            v == digits_value(pre + s@.subrange(lo as int, i as int)),
            v <= max,
        decreases hi - i,
    {
        let b: u8 = s[i];
        assert(is_digit(s@.subrange(lo as int, hi as int)[i - lo]));
        let next: u128 = (v as u128) * 10 + ((b - 0x30) as u128);
        proof {
            let grown = pre + s@.subrange(lo as int, i + 1);
            assert(grown.drop_last() =~= pre + s@.subrange(lo as int, i as int));
            assert(grown.last() == b);
            assert(all.subrange(0, pre.len() + i + 1 - lo) =~= grown);
            lemma_digits_prefix(all, pre.len() + i + 1 - lo);
        }
        if next > max as u128 {
            return None;
        }
        v = next as u64;
        i = i + 1;
    }
    Some(v)
}

/// Reads `s` as an unsigned integer no greater than `max`.
pub fn parse_unsigned(s: &[u8], max: u64) -> (r: Option<u64>)
    ensures
        match r {
            Some(v) => unsigned_text(s@, max as nat) == Some(v as nat),
            None => unsigned_text(s@, max as nat).is_none(),
        },
{
    let n: usize = s.len();
    let start: usize = if n > 0 && s[0] == 0x2b {
        1
    } else {
        0
    };
    let ghost d = s@.subrange(start as int, n as int);
    assert(start == 0 ==> d =~= s@);
    let end: usize = scan_digits(s, start);
    if start == n || end < n {
        assert(end < n ==> !is_digit(d[end - start]));
        return None;
    }
    assert(Seq::<u8>::empty() + d =~= d);
    accumulate(s, start, n, Ghost(Seq::empty()), 0, max)
}

/// Reads `s` as a decimal.
pub fn parse_decimal(s: &[u8]) -> (r: Option<Decimal>)
    ensures
        r == decimal_text(s@),
        r matches Some(d) ==> d.wf(),
{
    let n: usize = s.len();
    let signed: bool = n > 0 && (s[0] == 0x2b || s[0] == 0x2d);
    let negative: bool = n > 0 && s[0] == 0x2d;
    let start: usize = if signed {
        1
    } else {
        0
    };
    let dot: usize = scan_digits(s, start);
    let ghost whole = s@.subrange(start as int, dot as int);
    let ghost frac = if dot < n {
        s@.subrange(dot + 1, n as int)
    } else {
        Seq::<u8>::empty()
    };
    let ghost digits = whole + frac;
    if dot < n && s[dot] != 0x2e {
        return None;
    }
    let frac_start: usize = if dot < n {
        dot + 1
    } else {
        n
    };
    assert(frac =~= s@.subrange(frac_start as int, n as int));
    let frac_end: usize = scan_digits(s, frac_start);
    if frac_end < n {
        assert(!is_digit(frac[frac_end - frac_start]));
        return None;
    }
    if n - frac_start > MAX_SCALE as usize || (dot - start) + (n - frac_start) == 0 {
        return None;
    }
    assert(Seq::<u8>::empty() + whole =~= whole);
    let whole_value: u64 = match accumulate(s, start, dot, Ghost(Seq::empty()), 0, u64::MAX) {
        Some(v) => v,
        None => {
            proof {
                assert(digits.subrange(0, whole.len() as int) =~= whole);
                lemma_digits_prefix(digits, whole.len() as int);
            }
            return None;
        },
    };
    match accumulate(s, frac_start, n, Ghost(whole), whole_value, u64::MAX) {
        Some(v) => {
            let scale: u16 = (n - frac_start) as u16;
            assert forall|i: int| 0 <= i < digits.len() implies is_digit(#[trigger] digits[i]) by {
                if i < whole.len() {
                    assert(is_digit(whole[i]));
                } else {
                    assert(is_digit(frac[i - whole.len()]));
                }
            }
            Some(Decimal { negative, mantissa: v, scale })
        },
        None => None,
    }
}

/// In valid UTF-8, a character boundary of the whole is one of each tail that
/// starts at or before it.
pub proof fn lemma_boundary_in_tail(whole: Seq<u8>, tail: Seq<u8>, a: int, e: int)
    requires
        valid_utf8(whole),
        valid_utf8(tail),
        0 <= a <= e <= whole.len(),
        tail == whole.subrange(a, whole.len() as int),
        is_char_boundary(whole, e),
    ensures
        is_char_boundary(tail, e - a),
{
    vstd::utf8::is_char_boundary_start_end_of_seq(tail);
    if a < e && e < whole.len() {
        vstd::utf8::is_char_boundary_iff_not_is_continuation_byte(whole, e);
        vstd::utf8::is_char_boundary_iff_not_is_continuation_byte(tail, e - a);
    }
}

/// In valid UTF-8, a byte below `0x80` starts a character.
pub proof fn lemma_ascii_is_boundary(s: Seq<u8>, i: int)
    requires
        valid_utf8(s),
        0 <= i <= s.len(),
        i < s.len() ==> s[i] < 0x80,
    ensures
        is_char_boundary(s, i),
{
    vstd::utf8::is_char_boundary_start_end_of_seq(s);
    if i < s.len() {
        vstd::utf8::is_char_boundary_iff_not_is_continuation_byte(s, i);
    }
}

/// Trimming leaves a range within the range that is trimmed, and takes only
/// white space away: where it moved an end, white space lies beyond that end.
pub proof fn lemma_trim_within(s: Seq<u8>, lo: int, hi: int)
    requires
        0 <= lo <= hi <= s.len(),
    ensures
        lo <= trim_start(s, lo, hi) <= trim_end(s, trim_start(s, lo, hi), hi) <= hi,
        lo < trim_start(s, lo, hi) ==> is_space(s[trim_start(s, lo, hi) - 1]),
        trim_end(s, trim_start(s, lo, hi), hi) < hi ==> is_space(
            s[trim_end(s, trim_start(s, lo, hi), hi)],
        ),
{
    lemma_trim_start_within(s, lo, hi);
    lemma_trim_end_within(s, trim_start(s, lo, hi), hi);
}

/// The start of a trimmed range lies within the range, behind white space if
/// it has moved.
proof fn lemma_trim_start_within(s: Seq<u8>, lo: int, hi: int)
    requires
        0 <= lo <= hi <= s.len(),
    ensures
        lo <= trim_start(s, lo, hi) <= hi,
        lo < trim_start(s, lo, hi) ==> is_space(s[trim_start(s, lo, hi) - 1]),
    decreases hi - lo,
{
    if lo < hi && is_space(s[lo]) {
        lemma_trim_start_within(s, lo + 1, hi);
    }
}

/// The end of a trimmed range lies within the range, before white space if it
/// has moved.
proof fn lemma_trim_end_within(s: Seq<u8>, lo: int, hi: int)
    requires
        0 <= lo <= hi <= s.len(),
    ensures
        lo <= trim_end(s, lo, hi) <= hi,
        trim_end(s, lo, hi) < hi ==> is_space(s[trim_end(s, lo, hi)]),
    decreases hi - lo,
{
    if lo < hi && is_space(s[hi - 1]) {
        lemma_trim_end_within(s, lo, hi - 1);
    }
}

/// In valid UTF-8, a character starts right after a byte below `0x80`.
pub proof fn lemma_after_ascii_is_boundary(s: Seq<u8>, i: int)
    requires
        valid_utf8(s),
        0 <= i < s.len(),
        s[i] < 0x80,
    ensures
        is_char_boundary(s, i + 1),
{
    lemma_ascii_is_boundary(s, i);
    vstd::utf8::valid_utf8_split(s, i);
    vstd::utf8::is_char_boundary_start_end_of_seq(s);
    let tail = s.subrange(i, s.len() as int);
    assert(tail[0] == s[i]);
    assert(vstd::utf8::length_of_first_scalar(tail) == 1);
    if i + 1 < s.len() {
        let rest = vstd::utf8::pop_first_scalar(tail);
        assert(rest.len() > 0 && rest[0] == s[i + 1]);
        assert(valid_utf8(rest));
        assert(vstd::utf8::valid_first_scalar(rest));
        vstd::utf8::is_char_boundary_iff_not_is_continuation_byte(s, i + 1);
    }
}

/// A field that begins and ends between characters, and is not blank, has its
/// text: trimming cuts no character.
pub proof fn lemma_text_field_of_whole_characters(line: Seq<u8>, lo: int, hi: int)
    requires
        valid_utf8(line),
        0 <= lo,
        0 <= hi,
        is_char_boundary(line, clip(line.len() as int, lo, hi).0),
        is_char_boundary(line, clip(line.len() as int, lo, hi).1),
    ensures
        text_field(line, lo, hi) == if field(line, lo, hi).len() > 0 {
            Some(field(line, lo, hi))
        } else {
            None
        },
{
    let (l, h) = clip(line.len() as int, lo, hi);
    lemma_trim_within(line, l, h);
    let a = trim_start(line, l, h);
    let e = trim_end(line, a, h);
    if l < a {
        lemma_after_ascii_is_boundary(line, a - 1);
    }
    if e < h {
        lemma_ascii_is_boundary(line, e);
    }
}

/// In a line of ASCII, every field that is not blank has its text.
pub proof fn lemma_text_field_of_ascii(line: Seq<u8>, lo: int, hi: int)
    requires
        valid_utf8(line),
        forall|i: int| 0 <= i < line.len() ==> #[trigger] line[i] < 0x80,
        0 <= lo,
        0 <= hi,
    ensures
        text_field(line, lo, hi) == if field(line, lo, hi).len() > 0 {
            Some(field(line, lo, hi))
        } else {
            None
        },
{
    let (l, h) = clip(line.len() as int, lo, hi);
    lemma_ascii_is_boundary(line, l);
    lemma_ascii_is_boundary(line, h);
    lemma_text_field_of_whole_characters(line, lo, hi);
}

/// The part of `[lo, hi)` that lies within `len` bytes.
pub fn clip_bounds(len: usize, lo: usize, hi: usize) -> (r: (usize, usize))
    ensures
        (r.0 as int, r.1 as int) == clip(len as int, lo as int, hi as int),
        r.0 <= r.1 <= len,
{
    let h: usize = if hi < len {
        hi
    } else {
        len
    };
    let l: usize = if lo < h {
        lo
    } else {
        h
    };
    (l, h)
}

/// The trimmed bytes of the field `[lo, hi)` of `line`.
pub fn field_bytes<'a>(line: &'a [u8], lo: usize, hi: usize) -> (r: &'a [u8])
    ensures
        r@ == field(line@, lo as int, hi as int),
{
    let (l, h) = clip_bounds(line.len(), lo, hi);
    let (a, e) = trim_bounds(line, l, h);
    slice_subrange(line, a, e)
}

/// Reads the field `[lo, hi)` of `line` as a `usize`; `None` when it holds no such number.
pub fn parse_trim_usize(line: &[u8], lo: usize, hi: usize) -> (r: Option<usize>)
    ensures
        r == usize_field(line@, lo as int, hi as int),
{
    match parse_unsigned(field_bytes(line, lo, hi), usize::MAX as u64) {
        Some(v) => Some(v as usize),
        None => None,
    }
}

/// Reads `t` as an exponent.
fn parse_exponent(t: &[u8]) -> (r: Option<(bool, u64)>)
    ensures
        match r {
            Some(e) => exponent_text(t@) == Some((e.0, e.1 as nat)) && e.1 <= 99,
            None => exponent_text(t@).is_none(),
        },
{
    let n: usize = t.len();
    let signed: bool = n > 0 && (t[0] == 0x2b || t[0] == 0x2d);
    let down: bool = n > 0 && t[0] == 0x2d;
    let start: usize = if signed {
        1
    } else {
        0
    };
    if start >= n || t[start] == 0x2b {
        return None;
    }
    assert(!signed ==> t@.subrange(0, n as int) =~= t@);
    match parse_unsigned(slice_subrange(t, start, n), 99) {
        Some(v) => Some((down, v)),
        None => None,
    }
}

/// Moves the point of a decimal by so many places.
fn shift(d: Decimal, down: bool, places: u64) -> (r: Option<Decimal>)
    requires
        d.wf(),
        places <= 99,
    ensures
        r == shifted(d, down, places as nat),
        r matches Some(x) ==> x.wf(),
{
    if down {
        if d.scale as u64 + places <= MAX_SCALE as u64 {
            Some(
                Decimal {
                    negative: d.negative,
                    mantissa: d.mantissa,
                    scale: d.scale + places as u16,
                },
            )
        } else {
            None
        }
    } else if places <= d.scale as u64 {
        Some(Decimal { negative: d.negative, mantissa: d.mantissa, scale: d.scale - places as u16 })
    } else {
        let up: u64 = places - d.scale as u64;
        let ghost power = pow10(up as nat);
        let mantissa: u128 = d.mantissa as u128;
        proof {
            assert(pow10(18) == 1_000_000_000_000_000_000 && pow10(19)
                == 10_000_000_000_000_000_000 && pow10(20) == 100_000_000_000_000_000_000) by {
                reveal_with_fuel(pow10, 21);
            }
        }
        if d.mantissa == 0 {
            assert(0 * power == 0) by (nonlinear_arith);
            return Some(Decimal { negative: d.negative, mantissa: 0, scale: 0 });
        }
        if up > 19 {
            proof {
                lemma_pow10_monotonic(20, up as nat);
                assert(mantissa * power >= 100_000_000_000_000_000_000) by (nonlinear_arith)
                    requires
                        mantissa >= 1,
                        power >= 100_000_000_000_000_000_000,
                ;
            }
            return None;
        }
        let lift: u128 = if up <= 17 {
            power_of_ten(up as u16) as u128
        } else if up == 18 {
            1_000_000_000_000_000_000
        } else {
            10_000_000_000_000_000_000
        };
        assert(mantissa * lift <= 0x1_0000_0000_0000_0000 * 10_000_000_000_000_000_000)
            by (nonlinear_arith)
            requires
                mantissa <= 0x1_0000_0000_0000_0000,
                lift <= 10_000_000_000_000_000_000,
        ;
        let wide: u128 = mantissa * lift;
        if wide <= u64::MAX as u128 {
            Some(Decimal { negative: d.negative, mantissa: wide as u64, scale: 0 })
        } else {
            None
        }
    }
}

/// Reads `s` as a number: a decimal, with or without an exponent.
pub fn parse_number(s: &[u8]) -> (r: Option<Decimal>)
    ensures
        r == number_text(s@),
        r matches Some(d) ==> d.wf(),
{
    let n: usize = s.len();
    let mut k: usize = 0;
    while k < n && !(s[k] == 0x65 || s[k] == 0x45)
        invariant
            k <= n,
            n == s@.len(),
            exponent_mark(s@, 0) == exponent_mark(s@, k as int),
        decreases n - k,
    {
        k = k + 1;
    }
    if k >= n {
        return parse_decimal(s);
    }
    let base = parse_decimal(slice_subrange(s, 0, k));
    let exponent = parse_exponent(slice_subrange(s, k + 1, n));
    match (base, exponent) {
        (Some(d), Some(e)) => shift(d, e.0, e.1),
        _ => None,
    }
}

/// Reads the field `[lo, hi)` of `line` as a number; `None` when it holds none.
pub fn parse_trim_decimal(line: &[u8], lo: usize, hi: usize) -> (r: Option<Decimal>)
    ensures
        r == decimal_field(line@, lo as int, hi as int),
        r matches Some(d) ==> d.wf(),
{
    parse_number(field_bytes(line, lo, hi))
}

/// Reads the field `[lo, hi)` of `line` as text, trimmed; `None` when it is blank.
pub fn parse_trim_string(line: &str, lo: usize, hi: usize) -> (r: Option<String>)
    ensures
        text_bytes(r) == text_field(line.spec_bytes(), lo as int, hi as int),
{
    let bytes = line.as_bytes();
    let (l, h) = clip_bounds(bytes.len(), lo, hi);
    let (a, e) = trim_bounds(bytes, l, h);
    if a < e && line.is_char_boundary(a) && line.is_char_boundary(e) {
        let (_, tail) = line.split_at(a);
        proof {
            vstd::utf8::encode_utf8_valid_utf8(line@);
            vstd::utf8::encode_utf8_valid_utf8(tail@);
            lemma_boundary_in_tail(line.spec_bytes(), tail.spec_bytes(), a as int, e as int);
        }
        let (mid, _) = tail.split_at(e - a);
        assert(mid.spec_bytes() =~= line.spec_bytes().subrange(a as int, e as int));
        Some(mid.to_owned())
    } else {
        None
    }
}

/// Where the byte `sep` occurs in `s` from `from` on, in order.
pub open spec fn separators(s: Seq<u8>, sep: u8, from: int) -> Seq<usize>
    decreases s.len() - from,
{
    let q = find_byte(s, sep, from, s.len() as int);
    if 0 <= from <= q < s.len() {
        seq![q as usize] + separators(s, sep, q + 1)
    } else {
        Seq::empty()
    }
}

/// The bounds of piece `i` of a line that is cut at `cuts`: from behind the cut
/// before it, or the start of the line, to the cut after it, or the end of the line.
pub open spec fn piece(len: int, cuts: Seq<usize>, i: int) -> (int, int) {
    (
        if 0 < i <= cuts.len() {
            cuts[i - 1] + 1
        } else {
            0
        },
        if 0 <= i < cuts.len() {
            cuts[i] as int
        } else {
            len
        },
    )
}

/// The first index at or after `from` that holds `sep`, or the length of `s`.
pub(crate) fn find_next(s: &[u8], sep: u8, from: usize) -> (r: usize)
    requires
        from <= s@.len(),
    ensures
        r == find_byte(s@, sep, from as int, s@.len() as int),
        from <= r <= s@.len(),
{
    let mut i: usize = from;
    while i < s.len() && s[i] != sep
        invariant
            from <= i <= s@.len(),
            find_byte(s@, sep, from as int, s@.len() as int) == find_byte(
                s@,
                sep,
                i as int,
                s@.len() as int,
            ),
        decreases s@.len() - i,
    {
        i = i + 1;
    }
    i
}

/// Where the byte `sep` occurs in `s`, in order.
pub fn split_positions(s: &[u8], sep: u8) -> (r: Vec<usize>)
    ensures
        r@ == separators(s@, sep, 0),
        forall|i: int| 0 <= i < r@.len() ==> #[trigger] r@[i] < s@.len(),
{
    let mut cuts: Vec<usize> = Vec::new();
    let mut p: usize = 0;
    assert(cuts@ + separators(s@, sep, 0) =~= separators(s@, sep, 0));
    loop
        invariant
            p <= s@.len(),
            separators(s@, sep, 0) == cuts@ + separators(s@, sep, p as int),
            forall|i: int| 0 <= i < cuts@.len() ==> #[trigger] cuts@[i] < s@.len(),
        ensures
            separators(s@, sep, 0) == cuts@,
            forall|i: int| 0 <= i < cuts@.len() ==> #[trigger] cuts@[i] < s@.len(),
        decreases s@.len() - p,
    {
        let q: usize = find_next(s, sep, p);
        if q >= s.len() {
            assert(cuts@ + Seq::<usize>::empty() =~= cuts@);
            break ;
        }
        let ghost before = cuts@;
        let ghost rest = separators(s@, sep, q + 1);
        cuts.push(q);
        assert(before + (seq![q] + rest) =~= cuts@ + rest);
        p = q + 1;
    }
    cuts
}

/// The bounds of piece `i` of a line of `len` bytes that is cut at `cuts`.
pub(crate) fn piece_bounds(len: usize, cuts: &Vec<usize>, i: usize) -> (r: (usize, usize))
    requires
        forall|k: int| 0 <= k < cuts@.len() ==> #[trigger] cuts@[k] < len,
    ensures
        (r.0 as int, r.1 as int) == piece(len as int, cuts@, i as int),
{
    let lo: usize = if 0 < i && i <= cuts.len() {
        cuts[i - 1] + 1
    } else {
        0
    };
    let hi: usize = if i < cuts.len() {
        cuts[i]
    } else {
        len
    };
    (lo, hi)
}

} // verus!
