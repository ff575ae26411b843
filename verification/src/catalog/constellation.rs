//! Constellation line records: a name, an equals sign, and lists of star
//! numbers separated by semicolons, as in `Psc = [123, 32131]; [31312, 54654645]`.
use crate::catalog::osbsc::OSBSCStar;
use crate::catalog::parse::{
    blanks_end, identifier_at, int_list_at, read_int_list, scan_identifier, skip_blanks,
};
use crate::catalog::util::{lemma_ascii_is_boundary, parse_trim_string, text_bytes};
use crate::error::Error;
use std::collections::HashMap;
use vstd::prelude::*;
use vstd::string::StringSliceAdditionalSpecFns;
use vstd::utf8::encode_utf8;

verus! {

/// Polyline
#[derive(Debug, Clone)]
pub struct Polyline<T> {
    pub lines: Vec<T>,
}

/// Constellation
#[derive(Debug, Clone)]
pub struct Constellation<'a> {
    pub name: Option<String>,
    pub lines: Vec<Polyline<&'a OSBSCStar>>,
}

/// Parsed constellation
#[derive(Debug)]
pub struct ParsedConstellation {
    pub name: String,
    pub lines: Vec<Vec<usize>>,
}

/// The catalog holds a star for every number of the list.
pub open spec fn line_known(ids: Seq<usize>, stars: Map<usize, OSBSCStar>) -> bool {
    forall|j: int| 0 <= j < ids.len() ==> stars.contains_key(#[trigger] ids[j])
}

/// The catalog holds a star for every number of every list.
pub open spec fn lines_known(lines: Seq<Seq<usize>>, stars: Map<usize, OSBSCStar>) -> bool {
    forall|i: int| 0 <= i < lines.len() ==> line_known(#[trigger] lines[i], stars)
}

/// The stars of a polyline are those that the catalog holds under the numbers
/// of the list, in the order of the list.
pub open spec fn line_resolved(
    line: Seq<&OSBSCStar>,
    ids: Seq<usize>,
    stars: Map<usize, OSBSCStar>,
) -> bool {
    &&& line.len() == ids.len()
    &&& line_known(ids, stars)
    &&& forall|j: int| 0 <= j < ids.len() ==> *(#[trigger] line[j]) == stars[ids[j]]
}

impl ParsedConstellation {
    /// Puts the stars of a catalog, kept under their Hipparcos numbers, in the
    /// place of the numbers of a parsed constellation. Fails with `UnknownStar`
    /// where the catalog lacks one of them, and only there.
    pub fn resolve<'a>(&self, stars: &'a HashMap<usize, OSBSCStar>) -> (r: Result<
        Constellation<'a>,
        Error,
    >)
        ensures
            match r {
                Ok(c) => {
                    &&& c.name == Some(self.name)
                    &&& c.lines@.len() == self.lines@.len()
                    &&& forall|i: int|
                        0 <= i < self.lines@.len() ==> line_resolved(
                            (#[trigger] c.lines@[i]).lines@,
                            lines_view(self.lines)[i],
                            stars@,
                        )
                },
                Err(e) => e == Error::UnknownStar && !lines_known(lines_view(self.lines), stars@),
            },
    {
        broadcast use vstd::std_specs::hash::group_hash_axioms;

        let mut lines: Vec<Polyline<&'a OSBSCStar>> = Vec::new();
        let mut i: usize = 0;
        while i < self.lines.len()
            invariant
                i <= self.lines@.len(),
                lines@.len() == i,
                forall|k: int|
                    0 <= k < i ==> line_resolved(
                        (#[trigger] lines@[k]).lines@,
                        self.lines@[k]@,
                        stars@,
                    ),
            decreases self.lines@.len() - i,
        {
            let ids = &self.lines[i];
            let mut line: Vec<&'a OSBSCStar> = Vec::new();
            let mut j: usize = 0;
            while j < ids.len()
                invariant
                    i < self.lines@.len(),
                    ids == &self.lines@[i as int],
                    j <= ids@.len(),
                    line_resolved(line@, ids@.subrange(0, j as int), stars@),
                decreases ids@.len() - j,
            {
                match stars.get(&ids[j]) {
                    Some(star) => {
                        let ghost before = line@;
                        let ghost seen = ids@.subrange(0, j as int);
                        line.push(star);
                        let ghost sub = ids@.subrange(0, j + 1);
                        assert forall|k: int| 0 <= k < sub.len() implies stars@.contains_key(
                            #[trigger] sub[k],
                        ) by {
                            if k < j {
                                assert(sub[k] == seen[k]);
                            }
                        }
                        assert forall|k: int| 0 <= k < sub.len() implies *(#[trigger] line@[k])
                            == stars@[sub[k]] by {
                            if k < j {
                                assert(sub[k] == seen[k]);
                                assert(line@[k] == before[k]);
                            }
                        }
                    },
                    None => {
                        assert(lines_view(self.lines)[i as int] == ids@);
                        assert(!stars@.contains_key(ids@[j as int]));
                        return Err(Error::UnknownStar);
                    },
                }
                j = j + 1;
            }
            assert(ids@.subrange(0, j as int) =~= ids@);
            lines.push(Polyline { lines: line });
            i = i + 1;
        }
        Ok(Constellation { name: Some(self.name.clone()), lines })
    }
}

/// The lists of a record, one sequence of numbers for each.
pub open spec fn lines_view(lines: Vec<Vec<usize>>) -> Seq<Seq<usize>> {
    Seq::new(lines@.len(), |i: int| lines@[i]@)
}

/// The lists that follow one already read, each behind a semicolon, and where
/// the last of them ends. A semicolon that no list follows is not taken.
pub open spec fn lists_after(s: Seq<u8>, p: int) -> (Seq<Seq<usize>>, int)
    decreases s.len() - p,
{
    let a = blanks_end(s, p);
    if 0 <= p <= a < s.len() && s[a] == 0x3b {
        match int_list_at(s, blanks_end(s, a + 1)) {
            Some((list, e)) => if p < e <= s.len() {
                let (rest, end) = lists_after(s, e);
                (seq![list] + rest, end)
            } else {
                (Seq::empty(), p)
            },
            None => (Seq::empty(), p),
        }
    } else {
        (Seq::empty(), p)
    }
}

/// The lists from `p` on, separated by semicolons, and where they end: none at
/// all where no list starts.
pub open spec fn lists_at(s: Seq<u8>, p: int) -> (Seq<Seq<usize>>, int) {
    match int_list_at(s, p) {
        Some((list, e)) => {
            let (rest, end) = lists_after(s, e);
            (seq![list] + rest, end)
        },
        None => (Seq::empty(), p),
    }
}

/// The name and the lists that the whole of `s` writes as a constellation record.
pub open spec fn record_of(s: Seq<u8>) -> Option<(Seq<u8>, Seq<Seq<usize>>)> {
    let a = blanks_end(s, 0);
    match identifier_at(s, a) {
        Some(b) => {
            let c = blanks_end(s, b);
            let (lines, end) = lists_at(s, blanks_end(s, c + 1));
            if c < s.len() && s[c] == 0x3d && end == s.len() {
                Some((s.subrange(a, b), lines))
            } else {
                None
            }
        },
        None => None,
    }
}

/// Reads the lists of a record from `p` on.
fn read_lists(s: &[u8], p: usize) -> (r: (Vec<Vec<usize>>, usize))
    requires
        p <= s@.len(),
    ensures
        (lines_view(r.0), r.1 as int) == lists_at(s@, p as int),
        p <= r.1 <= s@.len(),
{
    let mut lines: Vec<Vec<usize>> = Vec::new();
    let mut pos: usize = p;
    match read_int_list(s, p) {
        Some((list, e)) => {
            let ghost first = list@;
            lines.push(list);
            pos = e;
            assert(lines_view(lines) =~= seq![first]);
            loop
                invariant
                    p <= pos <= s@.len(),
                    lists_at(s@, p as int) == (
                        lines_view(lines) + lists_after(s@, pos as int).0,
                        lists_after(s@, pos as int).1,
                    ),
                ensures
                    lists_at(s@, p as int) == (lines_view(lines), pos as int),
                    p <= pos <= s@.len(),
                decreases s@.len() - pos,
            {
                let a: usize = skip_blanks(s, pos);
                if a >= s.len() || s[a] != 0x3b {
                    assert(lines_view(lines) + Seq::<Seq<usize>>::empty() =~= lines_view(lines));
                    break ;
                }
                let b: usize = skip_blanks(s, a + 1);
                match read_int_list(s, b) {
                    Some((list, e)) => {
                        let ghost before = lines_view(lines);
                        let ghost rest = lists_after(s@, e as int).0;
                        let ghost item = list@;
                        lines.push(list);
                        assert(lines_view(lines) =~= before.push(item));
                        assert(before + (seq![item] + rest) =~= lines_view(lines) + rest);
                        pos = e;
                    },
                    None => {
                        assert(lines_view(lines) + Seq::<Seq<usize>>::empty() =~= lines_view(
                            lines,
                        ));
                        break ;
                    },
                }
            }
        },
        None => {
            assert(lines_view(lines) =~= Seq::<Seq<usize>>::empty());
        },
    }
    (lines, pos)
}

/// Parse a record from constellation data file. The whole of `input` must be
/// the record.
pub fn parse_record(input: &str) -> (r: Result<ParsedConstellation, Error>)
    ensures
        match r {
            Ok(c) => record_of(input.spec_bytes()) == Some(
                (encode_utf8(c.name@), lines_view(c.lines)),
            ),
            Err(e) => record_of(input.spec_bytes()).is_none() && e == Error::MalformedRecord,
        },
{
    let s = input.as_bytes();
    let a: usize = skip_blanks(s, 0);
    let b: usize = match scan_identifier(s, a) {
        Some(b) => b,
        None => {
            return Err(Error::MalformedRecord);
        },
    };
    let c: usize = skip_blanks(s, b);
    if c >= s.len() || s[c] != 0x3d {
        return Err(Error::MalformedRecord);
    }
    let d: usize = skip_blanks(s, c + 1);
    let (lines, end) = read_lists(s, d);
    if end != s.len() {
        return Err(Error::MalformedRecord);
    }
    proof {
        vstd::utf8::encode_utf8_valid_utf8(input@);
        lemma_ascii_is_boundary(s@, a as int);
        lemma_ascii_is_boundary(s@, b as int);
        lemma_identifier_is_trimmed(s@, a as int, b as int);
    }
    match parse_trim_string(input, a, b) {
        Some(name) => Ok(ParsedConstellation { name, lines }),
        None => Err(Error::MalformedRecord),
    }
}

/// An identifier neither starts nor ends with white space, and what follows it
/// is no part of an identifier.
proof fn lemma_identifier_is_trimmed(s: Seq<u8>, a: int, b: int)
    requires
        0 <= a <= s.len(),
        identifier_at(s, a) == Some(b),
    ensures
        a < b <= s.len(),
        crate::catalog::util::trim_start(s, a, b) == a,
        crate::catalog::util::trim_end(s, a, b) == b,
        b < s.len() ==> !crate::catalog::parse::is_identifier_part(s[b]),
{
    lemma_identifier_run(s, a + 1);
}

/// An identifier run stays within the sequence, holds only parts of
/// identifiers, and stops at the first byte that is none.
proof fn lemma_identifier_run(s: Seq<u8>, p: int)
    requires
        0 <= p <= s.len(),
    ensures
        p <= crate::catalog::parse::identifier_run(s, p) <= s.len(),
        forall|i: int|
            p <= i < crate::catalog::parse::identifier_run(s, p)
                ==> crate::catalog::parse::is_identifier_part(#[trigger] s[i]),
        crate::catalog::parse::identifier_run(s, p) < s.len()
            ==> !crate::catalog::parse::is_identifier_part(
            s[crate::catalog::parse::identifier_run(s, p)],
        ),
    decreases s.len() - p,
{
    if p < s.len() && crate::catalog::parse::is_identifier_part(s[p]) {
        lemma_identifier_run(s, p + 1);
    }
}

} // verus!
