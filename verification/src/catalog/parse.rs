//! Parsers for the pieces that catalog files are made of: sexagesimal numbers,
//! identifiers and bracketed lists of integers.
use crate::number::{Decimal, power_of_ten, Sign};
use crate::sexagesimal::sexagesimal_wf;
use crate::catalog::util::{
    decimal_text, digits_end, digits_value, parse_decimal, parse_unsigned, scan_digits,
    unsigned_text,
};
use crate::error::Error;
use vstd::prelude::*;
use vstd::slice::slice_subrange;
use vstd::string::StringSliceAdditionalSpecFns;

verus! {

/// A sexagesimal number read from text: a sign, whole units, minutes below sixty
/// and seconds below sixty.
#[derive(Clone, Copy, Debug, PartialEq, Eq, Structural)]
pub struct ParsedSexagesimal {
    pub sign: Sign,
    pub major: u32,
    pub minor: u32,
    pub second: Decimal,
}

impl ParsedSexagesimal {
    /// Minutes and seconds are within their ranges.
    pub open spec fn wf(&self) -> bool {
        sexagesimal_wf(self.minor, self.second)
    }
}

/// Where the unsigned decimal that starts at `p` ends: after its digits and, if a
/// point follows them, after the digits behind the point.
pub open spec fn decimal_end(s: Seq<u8>, p: int) -> int {
    let d = digits_end(s, p);
    if d < s.len() && s[d] == 0x2e {
        digits_end(s, d + 1)
    } else {
        d
    }
}

/// The triple that three pieces of text write: whole units that fit 32 bits,
/// minutes up to 59, and seconds from zero up to, but not reaching, sixty.
pub open spec fn triple_of(negative: bool, major: Seq<u8>, minor: Seq<u8>, second: Seq<u8>)
    -> Option<ParsedSexagesimal> {
    match (
        unsigned_text(major, u32::MAX as nat),
        unsigned_text(minor, 59),
        decimal_text(second),
    ) {
        (Some(a), Some(b), Some(c)) => if !c.negative && c.mantissa < 60 * c.denominator() {
            Some(
                ParsedSexagesimal {
                    sign: Sign::of(negative),
                    major: a as u32,
                    minor: b as u32,
                    second: c,
                },
            )
        } else {
            None
        },
        _ => None,
    }
}

/// What the start of `s` reads as a sexagesimal number whose parts are separated
/// by `delim`, with the number of bytes read: an optional sign, digits, `delim`,
/// digits, `delim`, and digits with an optional point and fraction.
pub open spec fn delimited_sexagesimal(s: Seq<u8>, delim: u8) -> Option<(int, ParsedSexagesimal)> {
    let n = s.len() as int;
    let first: int = if n > 0 && (s[0] == 0x2b || s[0] == 0x2d) {
        1
    } else {
        0
    };
    let major_end = digits_end(s, first);
    let minor_end = digits_end(s, major_end + 1);
    let second_end = decimal_end(s, minor_end + 1);
    if major_end < n && s[major_end] == delim && minor_end < n && s[minor_end] == delim {
        match triple_of(
            n > 0 && s[0] == 0x2d,
            s.subrange(first, major_end),
            s.subrange(major_end + 1, minor_end),
            s.subrange(minor_end + 1, second_end),
        ) {
            Some(t) => Some((second_end, t)),
            None => None,
        }
    } else {
        None
    }
}

/// What the start of `s` reads as a sexagesimal number in three fields of fixed
/// widths `a`, `b` and `c`, the first of which may begin with a sign.
pub open spec fn compact_sexagesimal(s: Seq<u8>, a: int, b: int, c: int) -> Option<
    (int, ParsedSexagesimal),
> {
    if 0 < a && 0 <= b && 0 <= c && a + b + c <= s.len() {
        let first: int = if s[0] == 0x2b || s[0] == 0x2d {
            1
        } else {
            0
        };
        match triple_of(
            s[0] == 0x2d,
            s.subrange(first, a),
            s.subrange(a, a + b),
            s.subrange(a + b, a + b + c),
        ) {
            Some(t) => Some((a + b + c, t)),
            None => None,
        }
    } else {
        None
    }
}

/// Reads three pieces of `s` as the parts of a triple.
pub(crate) fn read_triple(
    s: &[u8],
    negative: bool,
    major: (usize, usize),
    minor: (usize, usize),
    second: (usize, usize),
) -> (r: Option<ParsedSexagesimal>)
    requires
        major.0 <= major.1 <= s@.len(),
        minor.0 <= minor.1 <= s@.len(),
        second.0 <= second.1 <= s@.len(),
    ensures
        r == triple_of(
            negative,
            s@.subrange(major.0 as int, major.1 as int),
            s@.subrange(minor.0 as int, minor.1 as int),
            s@.subrange(second.0 as int, second.1 as int),
        ),
        r matches Some(t) ==> t.wf(),
{
    let a = parse_unsigned(slice_subrange(s, major.0, major.1), u32::MAX as u64);
    let b = parse_unsigned(slice_subrange(s, minor.0, minor.1), 59);
    let c = parse_decimal(slice_subrange(s, second.0, second.1));
    match (a, b, c) {
        (Some(a), Some(b), Some(c)) => {
            if !c.negative && c.mantissa < 60 * power_of_ten(c.scale) {
                Some(
                    ParsedSexagesimal {
                        sign: Sign::from_flag(negative),
                        major: a as u32,
                        minor: b as u32,
                        second: c,
                    },
                )
            } else {
                None
            }
        },
        _ => None,
    }
}

/// The end of the unsigned decimal that starts at `p` in `s`.
pub(crate) fn scan_decimal(s: &[u8], p: usize) -> (r: usize)
    requires
        p <= s@.len(),
    ensures
        r == decimal_end(s@, p as int),
        p <= r <= s@.len(),
{
    let d: usize = scan_digits(s, p);
    if d < s.len() && s[d] == 0x2e {
        scan_digits(s, d + 1)
    } else {
        d
    }
}

/// Reads the start of `s` as a sexagesimal number whose parts are separated by `delim`.
pub fn read_delimited(s: &[u8], delim: u8) -> (r: Result<(usize, ParsedSexagesimal), Error>)
    ensures
        match r {
            Ok((n, t)) => {
                &&& delimited_sexagesimal(s@, delim) == Some((n as int, t))
                &&& n <= s@.len()
                &&& t.wf()
            },
            Err(e) => {
                &&& delimited_sexagesimal(s@, delim).is_none()
                &&& e == Error::MalformedSexagesimal
            },
        },
{
    let n: usize = s.len();
    let negative: bool = n > 0 && s[0] == 0x2d;
    let first: usize = if n > 0 && (s[0] == 0x2b || s[0] == 0x2d) {
        1
    } else {
        0
    };
    let major_end: usize = scan_digits(s, first);
    if major_end >= n || s[major_end] != delim {
        return Err(Error::MalformedSexagesimal);
    }
    let minor_end: usize = scan_digits(s, major_end + 1);
    if minor_end >= n || s[minor_end] != delim {
        return Err(Error::MalformedSexagesimal);
    }
    let second_end: usize = scan_decimal(s, minor_end + 1);
    match read_triple(
        s,
        negative,
        (first, major_end),
        (major_end + 1, minor_end),
        (minor_end + 1, second_end),
    ) {
        Some(t) => Ok((second_end, t)),
        None => Err(Error::MalformedSexagesimal),
    }
}

/// Reads the start of `s` as a sexagesimal number in three fields of fixed widths.
pub fn read_compact(s: &[u8], a: usize, b: usize, c: usize) -> (r: Result<
    (usize, ParsedSexagesimal),
    Error,
>)
    requires
        a + b + c <= usize::MAX,
    ensures
        match r {
            Ok((n, t)) => {
                &&& compact_sexagesimal(s@, a as int, b as int, c as int) == Some((n as int, t))
                &&& n <= s@.len()
                &&& t.wf()
            },
            Err(e) => {
                &&& compact_sexagesimal(s@, a as int, b as int, c as int).is_none()
                &&& e == Error::MalformedSexagesimal
            },
        },
{
    if a == 0 || a + b + c > s.len() {
        return Err(Error::MalformedSexagesimal);
    }
    let first: usize = if s[0] == 0x2b || s[0] == 0x2d {
        1
    } else {
        0
    };
    match read_triple(s, s[0] == 0x2d, (first, a), (a, a + b), (a + b, a + b + c)) {
        Some(t) => Ok((a + b + c, t)),
        None => Err(Error::MalformedSexagesimal),
    }
}

/// Parses a sexagesimal number of the form `-12_34_56.7890` at the start of
/// `input`, and says how many bytes it took.
pub fn sexagesimal_underscore(input: &str) -> (r: Result<(usize, ParsedSexagesimal), Error>)
    ensures
        match r {
            Ok((n, t)) => {
                &&& delimited_sexagesimal(input.spec_bytes(), 0x5f) == Some((n as int, t))
                &&& n <= input.spec_bytes().len()
                &&& t.wf()
            },
            Err(e) => {
                &&& delimited_sexagesimal(input.spec_bytes(), 0x5f).is_none()
                &&& e == Error::MalformedSexagesimal
            },
        },
{
    read_delimited(input.as_bytes(), 0x5f)
}

/// Parses a sexagesimal number of the form `-12 34 56.7890` at the start of
/// `input`, and says how many bytes it took.
pub fn sexagesimal_space(input: &str) -> (r: Result<(usize, ParsedSexagesimal), Error>)
    ensures
        match r {
            Ok((n, t)) => {
                &&& delimited_sexagesimal(input.spec_bytes(), 0x20) == Some((n as int, t))
                &&& n <= input.spec_bytes().len()
                &&& t.wf()
            },
            Err(e) => {
                &&& delimited_sexagesimal(input.spec_bytes(), 0x20).is_none()
                &&& e == Error::MalformedSexagesimal
            },
        },
{
    read_delimited(input.as_bytes(), 0x20)
}

/// Parses a degree of the form `-DDMMSS` at the start of `input`.
pub fn degree_compact(input: &str) -> (r: Result<(usize, ParsedSexagesimal), Error>)
    ensures
        match r {
            Ok((n, t)) => {
                &&& compact_sexagesimal(input.spec_bytes(), 3, 2, 2) == Some((n as int, t))
                &&& n == 7
                &&& t.wf()
            },
            Err(e) => {
                &&& compact_sexagesimal(input.spec_bytes(), 3, 2, 2).is_none()
                &&& e == Error::MalformedSexagesimal
            },
        },
{
    read_compact(input.as_bytes(), 3, 2, 2)
}

/// Parses an hour of the form `HHMMSS.S` at the start of `input`.
pub fn hour_compact(input: &str) -> (r: Result<(usize, ParsedSexagesimal), Error>)
    ensures
        match r {
            Ok((n, t)) => {
                &&& compact_sexagesimal(input.spec_bytes(), 2, 2, 4) == Some((n as int, t))
                &&& n == 8
                &&& t.wf()
            },
            Err(e) => {
                &&& compact_sexagesimal(input.spec_bytes(), 2, 2, 4).is_none()
                &&& e == Error::MalformedSexagesimal
            },
        },
{
    read_compact(input.as_bytes(), 2, 2, 4)
}

/// What a whole trimmed field reads as a sexagesimal number whose parts are
/// separated by `delim`: nothing where the field is blank, a triple where the
/// field is one from end to end.
pub open spec fn sexagesimal_text(f: Seq<u8>, delim: u8) -> Result<
    Option<ParsedSexagesimal>,
    Error,
> {
    if f.len() == 0 {
        Ok(None)
    } else {
        match delimited_sexagesimal(f, delim) {
            Some((n, t)) => if n == f.len() {
                Ok(Some(t))
            } else {
                Err(Error::MalformedSexagesimal)
            },
            None => Err(Error::MalformedSexagesimal),
        }
    }
}

/// Reads a whole trimmed field as a sexagesimal number whose parts are separated
/// by `delim`.
pub fn read_sexagesimal(f: &[u8], delim: u8) -> (r: Result<Option<ParsedSexagesimal>, Error>)
    ensures
        r == sexagesimal_text(f@, delim),
        r matches Ok(Some(t)) ==> t.wf(),
{
    if f.len() == 0 {
        return Ok(None);
    }
    match read_delimited(f, delim) {
        Ok((n, t)) => if n == f.len() {
            Ok(Some(t))
        } else {
            Err(Error::MalformedSexagesimal)
        },
        Err(e) => Err(e),
    }
}

/// The signs that a sexagesimal field of a catalog may begin with.
#[derive(Clone, Copy, Debug, PartialEq, Eq, Structural)]
pub enum Signs {
    /// The field begins with `+` or `-`.
    Required,
    /// The field does not begin with `-`: the number is not negative.
    NoMinus,
    /// The field does not begin with `+`: a number without a sign is positive.
    NoPlus,
}

/// Whether a field that is not blank begins as its catalog has it.
pub open spec fn sign_allowed(f: Seq<u8>, signs: Signs) -> bool {
    match signs {
        Signs::Required => f.len() > 0 && (f[0] == 0x2b || f[0] == 0x2d),
        Signs::NoMinus => !(f.len() > 0 && f[0] == 0x2d),
        Signs::NoPlus => !(f.len() > 0 && f[0] == 0x2b),
    }
}

/// What a whole trimmed field of a catalog reads as a sexagesimal number:
/// nothing where the field is blank, a triple where it begins with a sign that
/// the catalog allows and is a number from end to end.
pub open spec fn sexagesimal_field_text(f: Seq<u8>, delim: u8, signs: Signs) -> Result<
    Option<ParsedSexagesimal>,
    Error,
> {
    if f.len() > 0 && !sign_allowed(f, signs) {
        Err(Error::MalformedSexagesimal)
    } else {
        sexagesimal_text(f, delim)
    }
}

/// Reads a whole trimmed field of a catalog as a sexagesimal number whose parts
/// are separated by `delim` and which begins with one of `signs`.
pub fn read_sexagesimal_field(f: &[u8], delim: u8, signs: Signs) -> (r: Result<
    Option<ParsedSexagesimal>,
    Error,
>)
    ensures
        r == sexagesimal_field_text(f@, delim, signs),
        r matches Ok(Some(t)) ==> t.wf(),
        r matches Err(e) ==> e == Error::MalformedSexagesimal,
{
    if f.len() > 0 {
        let allowed: bool = match signs {
            Signs::Required => f[0] == 0x2b || f[0] == 0x2d,
            Signs::NoMinus => f[0] != 0x2d,
            Signs::NoPlus => f[0] != 0x2b,
        };
        if !allowed {
            return Err(Error::MalformedSexagesimal);
        }
    }
    read_sexagesimal(f, delim)
}

/// The white space between the tokens of a record: space, tab, carriage return, line feed.
pub open spec fn is_blank(b: u8) -> bool {
    b == 0x20 || b == 0x09 || b == 0x0d || b == 0x0a
}

/// The first index at or after `p` that holds no blank, or the length of `s`.
pub open spec fn blanks_end(s: Seq<u8>, p: int) -> int
    decreases s.len() - p,
{
    if 0 <= p < s.len() && is_blank(s[p]) {
        blanks_end(s, p + 1)
    } else {
        p
    }
}

/// An ASCII letter or an underscore.
pub open spec fn is_identifier_start(b: u8) -> bool {
    (0x41 <= b && b <= 0x5a) || (0x61 <= b && b <= 0x7a) || b == 0x5f
}

/// An ASCII letter, a decimal digit or an underscore.
pub open spec fn is_identifier_part(b: u8) -> bool {
    is_identifier_start(b) || (0x30 <= b && b <= 0x39)
}

/// The first index at or after `p` that holds no part of an identifier.
pub open spec fn identifier_run(s: Seq<u8>, p: int) -> int
    decreases s.len() - p,
{
    if 0 <= p < s.len() && is_identifier_part(s[p]) {
        identifier_run(s, p + 1)
    } else {
        p
    }
}

/// Where the identifier that starts at `p` ends, if one starts there: a letter or
/// an underscore, followed by letters, digits and underscores.
pub open spec fn identifier_at(s: Seq<u8>, p: int) -> Option<int> {
    if 0 <= p < s.len() && is_identifier_start(s[p]) {
        Some(identifier_run(s, p + 1))
    } else {
        None
    }
}

/// The number at `p`, with blanks before and after it, and where the blanks after
/// it end: `None` where no digit follows the blanks or the number is too large.
pub open spec fn element_at(s: Seq<u8>, p: int) -> Option<(usize, int)> {
    let a = blanks_end(s, p);
    let b = digits_end(s, a);
    if 0 <= p <= a < b && digits_value(s.subrange(a, b)) <= usize::MAX {
        Some((digits_value(s.subrange(a, b)) as usize, blanks_end(s, b)))
    } else {
        None
    }
}

/// The numbers that follow one already read, each behind a comma, and where the
/// last of them ends. A comma that no number follows is not taken.
pub open spec fn elements_after(s: Seq<u8>, p: int) -> (Seq<usize>, int)
    decreases s.len() - p,
{
    if 0 <= p < s.len() && s[p] == 0x2c {
        match element_at(s, p + 1) {
            Some((v, e)) => if p < e <= s.len() {
                let (rest, end) = elements_after(s, e);
                (seq![v] + rest, end)
            } else {
                (Seq::empty(), p)
            },
            None => (Seq::empty(), p),
        }
    } else {
        (Seq::empty(), p)
    }
}

/// The numbers from `p` on, separated by commas, and where they end: none at all
/// where no number starts.
pub open spec fn elements_at(s: Seq<u8>, p: int) -> (Seq<usize>, int) {
    match element_at(s, p) {
        Some((v, e)) => {
            let (rest, end) = elements_after(s, e);
            (seq![v] + rest, end)
        },
        None => (Seq::empty(), p),
    }
}

/// The list of numbers in square brackets at `p`, as in `[0, 1, 2]`, with the
/// blanks around it, and where the blanks after it end.
pub open spec fn int_list_at(s: Seq<u8>, p: int) -> Option<(Seq<usize>, int)> {
    let open = blanks_end(s, p);
    let (list, end) = elements_at(s, blanks_end(s, open + 1));
    let close = blanks_end(s, end);
    if 0 <= p <= open < s.len() && s[open] == 0x5b && close < s.len() && s[close] == 0x5d {
        Some((list, blanks_end(s, close + 1)))
    } else {
        None
    }
}

/// Skips the blanks of `s` from `p` on.
pub(crate) fn skip_blanks(s: &[u8], p: usize) -> (r: usize)
    requires
        p <= s@.len(),
    ensures
        r == blanks_end(s@, p as int),
        p <= r <= s@.len(),
{
    let mut i: usize = p;
    while i < s.len() && (s[i] == 0x20 || s[i] == 0x09 || s[i] == 0x0d || s[i] == 0x0a)
        invariant
            p <= i <= s@.len(),
            blanks_end(s@, p as int) == blanks_end(s@, i as int),
        decreases s@.len() - i,
    {
        i = i + 1;
    }
    i
}

/// Whether `b` may start an identifier.
pub fn byte_starts_identifier(b: u8) -> (r: bool)
    ensures
        r == is_identifier_start(b),
{
    (0x41 <= b && b <= 0x5a) || (0x61 <= b && b <= 0x7a) || b == 0x5f
}

/// The end of the identifier that starts at `p` in `s`, if one starts there.
pub(crate) fn scan_identifier(s: &[u8], p: usize) -> (r: Option<usize>)
    requires
        p <= s@.len(),
    ensures
        match r {
            Some(e) => identifier_at(s@, p as int) == Some(e as int) && p < e <= s@.len(),
            None => identifier_at(s@, p as int).is_none(),
        },
{
    if p >= s.len() || !byte_starts_identifier(s[p]) {
        return None;
    }
    let mut i: usize = p + 1;
    while i < s.len() && (byte_starts_identifier(s[i]) || (0x30 <= s[i] && s[i] <= 0x39))
        invariant
            p < i <= s@.len(),
            identifier_run(s@, p + 1) == identifier_run(s@, i as int),
        decreases s@.len() - i,
    {
        i = i + 1;
    }
    Some(i)
}

/// Reads the number at `p`, with the blanks around it.
pub(crate) fn read_element(s: &[u8], p: usize) -> (r: Option<(usize, usize)>)
    requires
        p <= s@.len(),
    ensures
        match r {
            Some((v, e)) => element_at(s@, p as int) == Some((v, e as int)) && p < e <= s@.len(),
            None => element_at(s@, p as int).is_none(),
        },
{
    let a: usize = skip_blanks(s, p);
    let b: usize = scan_digits(s, a);
    if a == b {
        return None;
    }
    let digits = slice_subrange(s, a, b);
    assert(digits@.len() > 0 && digits@[0] != 0x2b) by {
        assert(crate::catalog::util::is_digit(digits@[0]));
    }
    match parse_unsigned(digits, usize::MAX as u64) {
        Some(v) => Some((v as usize, skip_blanks(s, b))),
        None => None,
    }
}

/// Reads the list of numbers in square brackets at `p`.
pub(crate) fn read_int_list(s: &[u8], p: usize) -> (r: Option<(Vec<usize>, usize)>)
    requires
        p <= s@.len(),
    ensures
        match r {
            Some((list, e)) => int_list_at(s@, p as int) == Some((list@, e as int)) && p < e
                <= s@.len(),
            None => int_list_at(s@, p as int).is_none(),
        },
{
    let open: usize = skip_blanks(s, p);
    if open >= s.len() || s[open] != 0x5b {
        return None;
    }
    let start: usize = skip_blanks(s, open + 1);
    let mut list: Vec<usize> = Vec::new();
    let mut pos: usize = start;
    match read_element(s, start) {
        Some((v, e)) => {
            list.push(v);
            pos = e;
            assert(list@ =~= seq![v]);
            loop
                invariant
                    start <= pos <= s@.len(),
                    elements_at(s@, start as int) == (
                        list@ + elements_after(s@, pos as int).0,
                        elements_after(s@, pos as int).1,
                    ),
                ensures
                    elements_at(s@, start as int) == (list@, pos as int),
                decreases s@.len() - pos,
            {
                if pos >= s.len() || s[pos] != 0x2c {
                    assert(list@ + Seq::<usize>::empty() =~= list@);
                    break ;
                }
                match read_element(s, pos + 1) {
                    Some((v, e)) => {
                        let ghost before = list@;
                        let ghost rest = elements_after(s@, e as int).0;
                        list.push(v);
                        assert(before + (seq![v] + rest) =~= list@ + rest);
                        pos = e;
                    },
                    None => {
                        assert(list@ + Seq::<usize>::empty() =~= list@);
                        break ;
                    },
                }
            }
        },
        None => {},
    }
    let close: usize = skip_blanks(s, pos);
    if close >= s.len() || s[close] != 0x5d {
        return None;
    }
    Some((list, skip_blanks(s, close + 1)))
}

/// The number of blanks that `input` starts with.
pub fn ws(input: &str) -> (r: usize)
    ensures
        r == blanks_end(input.spec_bytes(), 0),
        r <= input.spec_bytes().len(),
{
    skip_blanks(input.as_bytes(), 0)
}

/// Parses a Rust-style identifier at the start of `input` and gives its length.
pub fn identifier(input: &str) -> (r: Result<usize, Error>)
    ensures
        match identifier_at(input.spec_bytes(), 0) {
            Some(e) => r == Ok::<usize, Error>(e as usize),
            None => r == Err::<usize, Error>(Error::MalformedRecord),
        },
{
    match scan_identifier(input.as_bytes(), 0) {
        Some(e) => Ok(e),
        None => Err(Error::MalformedRecord),
    }
}

/// Parses a list of positive integers of the form `[0, 1, 2]` at the start of
/// `input`, and gives the numbers with the count of bytes read.
pub fn int_list(input: &str) -> (r: Result<(usize, Vec<usize>), Error>)
    ensures
        match r {
            Ok((n, list)) => int_list_at(input.spec_bytes(), 0) == Some((list@, n as int)),
            Err(e) => int_list_at(input.spec_bytes(), 0).is_none() && e == Error::MalformedRecord,
        },
{
    match read_int_list(input.as_bytes(), 0) {
        Some((list, e)) => Ok((e, list)),
        None => Err(Error::MalformedRecord),
    }
}

} // verus!
