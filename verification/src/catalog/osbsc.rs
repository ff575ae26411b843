//! [Open Source Bright Star Catalog](https://github.com/johanley/star-catalog) parser.
//!
//! A record is a line in fixed columns. The fields up to the Yale number are
//! found by counting bytes, those after it by counting grapheme clusters, since
//! the names among them are not all ASCII. A field that is blank, or that the
//! line ends before, is absent.
use crate::number::Decimal;
use crate::sexagesimal::{DegMinSec, HourMinSec};
use crate::catalog::parse::{
    read_sexagesimal_field, sexagesimal_field_text, ParsedSexagesimal, Signs,
};
use crate::catalog::util::{
    decimal_field, field, field_bytes, parse_trim_decimal, parse_trim_string, parse_trim_usize,
    text_bytes, text_field, usize_field,
};
use crate::catalog::ValidParse;
use crate::error::Error;
use unicode_segmentation::UnicodeSegmentation;
use vstd::prelude::*;
use vstd::string::StringSliceAdditionalSpecFns;
use vstd::utf8::encode_utf8;

verus! {

/// A record of the Open Source Bright Star Catalog.
///
/// All coordinates are in the ICRS. For proper motions the epoch is J1991.25.
/// The position and width of each field appear in square brackets, counted from
/// one; the unit `mas` stands for milliarcsecond.
#[allow(non_snake_case)]
#[derive(Debug, Clone)]
pub struct OSBSCStar {
    /// 01: Hipparcos identifier HIP \[1,6\]
    pub Hipparcos_id: Option<usize>,
    /// 02: right Ascension in hours minutes seconds, ICRS \[9,16\]
    ///
    /// - Proper motion epoch is J1991.25
    /// - An underscore is used to separate the parts.
    /// - Calculated from the radians in field 04. Included for convenience.
    pub right_ascension_hms: Option<HourMinSec>,
    /// 03: declination degrees minutes seconds, ICRS \[27,16\]
    ///
    /// - Proper motion epoch is J1991.25
    /// - An underscore is used to separate the parts.
    /// - Calculated from the radians in field 05. Included for convenience.
    pub declination_dms: Option<DegMinSec>,
    /// 04: right ascension in radians, ICRS. \[45,12\]
    ///
    /// - Proper motion epoch is J1991.25
    pub right_ascension_rad: Option<Decimal>,
    /// 05: declination in radians, ICRS.  \[59,13\]
    ///
    /// - Proper motion epoch is J1991.25
    pub declination_rad: Option<Decimal>,
    /// 06: parallax in mas \[73,7\]
    pub parallax: Option<Decimal>,
    /// 07: proper motion in right ascension in mas/year, * cosine(declination), ICRS \[81,8\]
    pub proper_motion_ra: Option<Decimal>,
    /// 08: proper motion in declination in mas/year, ICRS \[90,8\]
    pub proper_motion_dec: Option<Decimal>,
    /// 09: radial velocity in kilometers per second \[99,7\]
    pub radial_velocity: Option<Decimal>,
    /// 10: formal error in right ascension in mas \[107,6\]
    pub right_ascension_rad_err: Option<Decimal>,
    /// 11: formal error in declination in mas \[114,6\]
    pub declination_rad_err: Option<Decimal>,
    /// 12: formal error in parallax in mas \[121,6\]
    pub parallax_err: Option<Decimal>,
    /// 13: formal error in proper motion in right ascension in mas/year \[128,6\]
    pub proper_motion_ra_err: Option<Decimal>,
    /// 14: formal error in proper motion in declination in mas/year \[135,6\]
    pub proper_motion_dec_err: Option<Decimal>,
    /// 15: formal error in radial velocity in kilometers per second \[142,5\]
    pub radial_velocity_err: Option<Decimal>,
    /// 16: magnitude in the Johnson V band \[148,5\]
    pub V_magnitude: Option<Decimal>,
    /// 17: coarse variability flag \[154,1\]
    ///
    /// - Hipparcos-1 field H6.
    /// - 1: < 0.06mag ; 2: 0.06-0.6mag ; 3: >0.6mag
    pub variability_flag: Option<usize>,
    /// 18: spectral type \[156,12\]
    pub spectral_type: Option<String>,
    /// 29: color index Johnson B-V magnitude \[169,6\]
    pub BV_magnitude: Option<Decimal>,
    /// 20: multiplicity flag \[176,1\]
    ///
    /// - Hipparcos-1 H59, only for C values.
    pub multiplicity_flag: Option<String>,
    /// 21: CCDM identifier \[178,10\]
    ///
    /// - A catalog of double/multiple stars.
    pub CCDM_id: Option<String>,
    /// 22: HD identifier \[189,6\]
    ///
    /// - Henry Draper catalog.
    pub HD_id: Option<usize>,
    /// 23: HR identifier \[196,4\]
    ///
    /// - Yale Bright Star Catalog, r5.
    pub Yale_id: Option<usize>,
    /// 24: Bayer identifier \[201,7\]
    pub Bayer_id: Option<String>,
    /// 25: Flamsteed identifier \[209,7\]
    pub Flamsteed_id: Option<String>,
    /// 26: proper name \[217,14\]
    ///
    /// - From an internal list defined by OSBSC.
    pub proper_name: Option<String>,
    /// 27: Constellation abbreviation \[232,3\]
    pub constellation: Option<String>,
    /// 28: provenance string for all fields (except for the provenance itself, of
    /// course) \[236,27\]
    /// Each field (other than this one) has a provenance.
    /// The provenance string is an ordered string of single letters, stating the
    /// provenance of each field in the given record, in order from left to right.
    ///
    /// - A: Primary source for astrometry -  Hipparcos2
    /// - B: Secondary source for astrometry - Hipparcos1
    /// - C: Primary source for radial velocities - Pulkovo
    /// - D: Secondary source for radial velocities - BF
    /// - E: Identifiers: Bayer, Flamsteed, and HR - Yale Bright Star Catalog
    /// - F: Backfill for a small number of items - SIMBAD
    /// - G: My own custom data for star names
    /// - H: Sexagesimal versions of RA, DEC - calculated fields
    /// - I: Vmag is the maximum (brightest) magnitude in the Hipparcos Variability Annex
    /// - \-: Blank fields have no provenance
    pub provenence: Option<String>,
}

/// Where the extended grapheme clusters of a text start, as byte offsets in order.
pub uninterp spec fn grapheme_offsets(text: Seq<char>) -> Seq<usize>;

/// The byte offsets of `UnicodeSegmentation::grapheme_indices(line, true)` of the
/// crate unicode_segmentation: where each extended grapheme cluster of `line`
/// starts. Nothing is claimed of the offsets but that they are those.
#[verifier::external_body]
fn grapheme_starts(line: &str) -> (r: Vec<usize>)
    ensures
        r@ == grapheme_offsets(line@),
{
    UnicodeSegmentation::grapheme_indices(line, true).map(|(offset, _)| offset).collect()
}

/// The byte at which column `i` starts, given where the columns start: the end
/// of the line for a column that the line does not reach.
pub open spec fn column(line: Seq<u8>, offsets: Seq<usize>, i: int) -> int {
    if 0 <= i < offsets.len() {
        offsets[i] as int
    } else {
        line.len() as int
    }
}

/// The hour triple that a parsed sexagesimal number stands for.
pub open spec fn hour_triple(t: Option<ParsedSexagesimal>) -> Option<HourMinSec> {
    match t {
        Some(t) => Some(HourMinSec(t.sign, t.major, t.minor, t.second)),
        None => None,
    }
}

/// The degree triple that a parsed sexagesimal number stands for.
pub open spec fn degree_triple(t: Option<ParsedSexagesimal>) -> Option<DegMinSec> {
    match t {
        Some(t) => Some(DegMinSec(t.sign, t.major, t.minor, t.second)),
        None => None,
    }
}

/// Why a line is no record, if it is none: a right ascension or declination
/// that is there but malformed comes first, a right ascension that begins with
/// `-` and a declination that begins with `+` among them, a missing Hipparcos number or
/// position in radian after that.
pub open spec fn osbsc_failure(line: Seq<u8>) -> Option<Error> {
    if sexagesimal_field_text(field(line, 8, 24), 0x5f, Signs::NoMinus).is_err()
        || sexagesimal_field_text(field(line, 26, 42), 0x5f, Signs::NoPlus).is_err() {
        Some(Error::MalformedSexagesimal)
    } else if usize_field(line, 0, 6).is_none() || decimal_field(line, 44, 56).is_none()
        || decimal_field(line, 58, 71).is_none() {
        Some(Error::IncompleteRecord)
    } else {
        None
    }
}

fn column_start(len: usize, offsets: &Vec<usize>, i: usize) -> (r: usize)
    ensures
        r == if i < offsets@.len() {
            offsets@[i as int]
        } else {
            len
        },
{
    if i < offsets.len() {
        offsets[i]
    } else {
        len
    }
}

impl OSBSCStar {
    /// Every field holds what its columns of `line` say, the later columns
    /// starting at `offsets`.
    pub open spec fn reads(&self, line: Seq<u8>, offsets: Seq<usize>) -> bool {
        &&& self.Hipparcos_id == usize_field(line, 0, 6)
        &&& match sexagesimal_field_text(field(line, 8, 24), 0x5f, Signs::NoMinus) {
            Ok(t) => self.right_ascension_hms == hour_triple(t),
            Err(_) => false,
        }
        &&& match sexagesimal_field_text(field(line, 26, 42), 0x5f, Signs::NoPlus) {
            Ok(t) => self.declination_dms == degree_triple(t),
            Err(_) => false,
        }
        &&& self.right_ascension_rad == decimal_field(line, 44, 56)
        &&& self.declination_rad == decimal_field(line, 58, 71)
        &&& self.parallax == decimal_field(line, 72, 79)
        &&& self.proper_motion_ra == decimal_field(line, 80, 88)
        &&& self.proper_motion_dec == decimal_field(line, 89, 97)
        &&& self.radial_velocity == decimal_field(line, 98, 105)
        &&& self.right_ascension_rad_err == decimal_field(line, 106, 112)
        &&& self.declination_rad_err == decimal_field(line, 113, 119)
        &&& self.parallax_err == decimal_field(line, 120, 126)
        &&& self.proper_motion_ra_err == decimal_field(line, 127, 133)
        &&& self.proper_motion_dec_err == decimal_field(line, 134, 140)
        &&& self.radial_velocity_err == decimal_field(line, 141, 146)
        &&& self.V_magnitude == decimal_field(line, 147, 152)
        &&& self.variability_flag == usize_field(line, 153, 154)
        &&& text_bytes(self.spectral_type) == text_field(line, 155, 167)
        &&& self.BV_magnitude == decimal_field(line, 168, 174)
        &&& text_bytes(self.multiplicity_flag) == text_field(line, 175, 176)
        &&& text_bytes(self.CCDM_id) == text_field(line, 177, 187)
        &&& self.HD_id == usize_field(line, 188, 194)
        &&& self.Yale_id == usize_field(line, 195, 199)
        &&& text_bytes(self.Bayer_id) == text_field(
            line,
            column(line, offsets, 200),
            column(line, offsets, 207),
        )
        &&& text_bytes(self.Flamsteed_id) == text_field(
            line,
            column(line, offsets, 208),
            column(line, offsets, 215),
        )
        &&& text_bytes(self.proper_name) == text_field(
            line,
            column(line, offsets, 216),
            column(line, offsets, 230),
        )
        &&& text_bytes(self.constellation) == text_field(
            line,
            column(line, offsets, 231),
            column(line, offsets, 234),
        )
        &&& text_bytes(self.provenence) == text_field(
            line,
            column(line, offsets, 235),
            column(line, offsets, 262),
        )
    }

    /// The triples of a record are well formed.
    pub open spec fn wf(&self) -> bool {
        &&& self.right_ascension_hms matches Some(t) ==> t.wf()
        &&& self.declination_dms matches Some(t) ==> t.wf()
    }

    /// Reads a record from a line of the catalog.
    ///
    /// Fails with `MalformedSexagesimal` where the right ascension or the
    /// declination is there but is no sexagesimal number, else with
    /// `IncompleteRecord` where the Hipparcos number or a coordinate in radian is
    /// missing.
    pub fn try_from(s: String) -> (r: Result<OSBSCStar, Error>)
        ensures
            match r {
                Ok(star) => osbsc_failure(encode_utf8(s@)).is_none() && star.reads(
                    encode_utf8(s@),
                    grapheme_offsets(s@),
                ) && star.valid() && star.wf(),
                Err(e) => osbsc_failure(encode_utf8(s@)) == Some(e),
            },
    {
        let offsets = grapheme_starts(s.as_str());
        OSBSCStar::from_columns(s.as_str(), &offsets)
    }

    /// Reads a record from a line of the catalog, given the byte offsets at
    /// which the columns of the line start.
    #[allow(non_snake_case)]
    pub fn from_columns(line: &str, offsets: &Vec<usize>) -> (r: Result<OSBSCStar, Error>)
        ensures
            match r {
                Ok(star) => osbsc_failure(line.spec_bytes()).is_none() && star.reads(
                    line.spec_bytes(),
                    offsets@,
                ) && star.valid() && star.wf(),
                Err(e) => osbsc_failure(line.spec_bytes()) == Some(e),
            },
    {
        let bytes = line.as_bytes();
        let len: usize = bytes.len();
        let right_ascension = match read_sexagesimal_field(
            field_bytes(bytes, 8, 24),
            0x5f,
            Signs::NoMinus,
        ) {
            Ok(Some(t)) => Some(HourMinSec(t.sign, t.major, t.minor, t.second)),
            Ok(None) => None,
            Err(e) => {
                return Err(e);
            },
        };
        let declination = match read_sexagesimal_field(
            field_bytes(bytes, 26, 42),
            0x5f,
            Signs::NoPlus,
        ) {
            Ok(Some(t)) => Some(DegMinSec(t.sign, t.major, t.minor, t.second)),
            Ok(None) => None,
            Err(e) => {
                return Err(e);
            },
        };
        let star = OSBSCStar {
            Hipparcos_id: parse_trim_usize(bytes, 0, 6),
            right_ascension_hms: right_ascension,
            declination_dms: declination,
            right_ascension_rad: parse_trim_decimal(bytes, 44, 56),
            declination_rad: parse_trim_decimal(bytes, 58, 71),
            parallax: parse_trim_decimal(bytes, 72, 79),
            proper_motion_ra: parse_trim_decimal(bytes, 80, 88),
            proper_motion_dec: parse_trim_decimal(bytes, 89, 97),
            radial_velocity: parse_trim_decimal(bytes, 98, 105),
            right_ascension_rad_err: parse_trim_decimal(bytes, 106, 112),
            declination_rad_err: parse_trim_decimal(bytes, 113, 119),
            parallax_err: parse_trim_decimal(bytes, 120, 126),
            proper_motion_ra_err: parse_trim_decimal(bytes, 127, 133),
            proper_motion_dec_err: parse_trim_decimal(bytes, 134, 140),
            radial_velocity_err: parse_trim_decimal(bytes, 141, 146),
            V_magnitude: parse_trim_decimal(bytes, 147, 152),
            variability_flag: parse_trim_usize(bytes, 153, 154),
            spectral_type: parse_trim_string(line, 155, 167),
            BV_magnitude: parse_trim_decimal(bytes, 168, 174),
            multiplicity_flag: parse_trim_string(line, 175, 176),
            CCDM_id: parse_trim_string(line, 177, 187),
            HD_id: parse_trim_usize(bytes, 188, 194),
            Yale_id: parse_trim_usize(bytes, 195, 199),
            Bayer_id: parse_trim_string(
                line,
                column_start(len, offsets, 200),
                column_start(len, offsets, 207),
            ),
            Flamsteed_id: parse_trim_string(
                line,
                column_start(len, offsets, 208),
                column_start(len, offsets, 215),
            ),
            proper_name: parse_trim_string(
                line,
                column_start(len, offsets, 216),
                column_start(len, offsets, 230),
            ),
            constellation: parse_trim_string(
                line,
                column_start(len, offsets, 231),
                column_start(len, offsets, 234),
            ),
            provenence: parse_trim_string(
                line,
                column_start(len, offsets, 235),
                column_start(len, offsets, 262),
            ),
        };
        if star.is_valid_parse() {
            Ok(star)
        } else {
            Err(Error::IncompleteRecord)
        }
    }
}

impl ValidParse for OSBSCStar {
    open spec fn valid(&self) -> bool {
        &&& self.Hipparcos_id.is_some()
        &&& self.right_ascension_rad.is_some()
        &&& self.declination_rad.is_some()
    }

    fn is_valid_parse(&self) -> (r: bool) {
        self.Hipparcos_id.is_some() && self.right_ascension_rad.is_some()
            && self.declination_rad.is_some()
    }
}

} // verus!
