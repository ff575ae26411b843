//! [Hipparcos Catalog](https://heasarc.gsfc.nasa.gov/W3Browse/all/hipparcos.html) parser.
//!
//! A record is a line of seventy-eight fields with a vertical bar between each
//! two. A field that is blank is absent, but for the position in hours and
//! degrees, which every record must have.
use crate::angle::Angle;
use crate::number::Decimal;
use crate::sexagesimal::{DegMinSec, HourMinSec};
use crate::catalog::parse::{
    read_sexagesimal_field, sexagesimal_field_text, ParsedSexagesimal, Signs,
};
use crate::catalog::util::{
    decimal_field, field, field_bytes, parse_trim_decimal, parse_trim_string, parse_trim_usize,
    piece, piece_bounds, separators, split_positions, text_bytes, text_field, usize_field,
};
use crate::catalog::ValidParse;
use crate::coord::{ConstrainedAngle, Declination, RightAscension};
use crate::error::Error;
use vstd::prelude::*;
use vstd::string::StringSliceAdditionalSpecFns;
use vstd::utf8::encode_utf8;

verus! {

/// The number of fields in a record.
pub const FIELDS: usize = 78;

/// A record of the Hipparcos main catalogue.
#[allow(non_snake_case)]
#[derive(Debug, Clone)]
pub struct HipparcosStar {
    /// Catalogue (H=Hipparcos)
    pub catalog: Option<String>,
    /// Identifier (HIP number)
    pub HIP: Option<usize>,
    /// Proximity flag
    pub Proxy: Option<String>,
    /// RA in h m s, ICRS (J1991.25)
    pub right_ascension: RightAscension,
    /// Dec in deg ' ", ICRS (J1991.25)
    pub declination: Declination,
    /// Magnitude in Johnson V
    pub Vmag: Option<Decimal>,
    /// Coarse variability flag
    pub VarFlag: Option<String>,
    /// Source of magnitude
    pub r_Vmag: Option<String>,
    /// RA in degrees (ICRS, Epoch-J1991.25)
    pub RAdeg: Option<RightAscension>,
    /// Dec in degrees (ICRS, Epoch-J1991.25)
    pub DEdeg: Option<Declination>,
    /// Reference flag for astrometry
    pub AstroRef: Option<String>,
    /// Trigonometric parallax
    pub Plx: Option<Decimal>,
    /// Proper motion in RA
    pub pmRA: Option<Decimal>,
    /// Proper motion in Dec
    pub pmDE: Option<Decimal>,
    /// Standard error in RA*cos(Dec_Deg)
    pub e_RAdeg: Option<Decimal>,
    /// Standard error in Dec_Deg
    pub e_DEdeg: Option<Decimal>,
    /// Standard error in Parallax
    pub e_Plx: Option<Decimal>,
    /// Standard error in pmRA
    pub e_pmRA: Option<Decimal>,
    /// Standard error in pmDE
    pub e_pmDE: Option<Decimal>,
    /// (DE over RA)xCos(delta)
    pub DE_RA: Option<Decimal>,
    /// (Plx over RA)xCos(delta)
    pub Plx_RA: Option<Decimal>,
    /// (Plx over DE)
    pub Plx_DE: Option<Decimal>,
    /// (pmRA over RA)xCos(delta)
    pub pmRA_RA: Option<Decimal>,
    /// (pmRA over DE)
    pub pmRA_DE: Option<Decimal>,
    /// (pmRA over Plx)
    pub pmRA_Plx: Option<Decimal>,
    /// (pmDE over RA)xCos(delta)
    pub pmDE_RA: Option<Decimal>,
    /// (pmDE over DE)
    pub pmDE_DE: Option<Decimal>,
    /// (pmDE over Plx)
    pub pmDE_Plx: Option<Decimal>,
    /// (pmDE over pmRA)
    pub pmDE_pmRA: Option<Decimal>,
    /// Percentage of rejected data
    pub F1: Option<usize>,
    /// Goodness-of-fit parameter
    pub F2: Option<Decimal>,
    /// Mean BT magnitude
    pub BTmag: Option<Decimal>,
    /// Standard error on BTmag
    pub e_BTmag: Option<Decimal>,
    /// Mean VT magnitude
    pub VTmag: Option<Decimal>,
    /// Standard error on VTmag
    pub e_VTmag: Option<Decimal>,
    /// Reference flag for BT and VTmag
    pub m_BTmag: Option<String>,
    /// Johnson BV colour
    pub B_V: Option<Decimal>,
    /// Standard error on BV
    pub e_B_V: Option<Decimal>,
    /// Source of BV from Ground or Tycho
    pub r_B_V: Option<String>,
    /// Colour index in Cousins' system
    pub V_I: Option<Decimal>,
    /// Standard error on VI
    pub e_V_I: Option<Decimal>,
    /// Source of VI
    pub r_V_I: Option<String>,
    /// Flag for combined Vmag, BV, VI
    pub CombMag: Option<String>,
    /// Median magnitude in Hipparcos system
    pub Hpmag: Option<Decimal>,
    /// Standard error on Hpmag
    pub e_Hpmag: Option<Decimal>,
    /// Scatter of Hpmag
    pub Hpscat: Option<Decimal>,
    /// Number of observations for Hpmag
    pub o_Hpmag: Option<usize>,
    /// Reference flag for Hpmag
    pub m_Hpmag: Option<String>,
    /// Hpmag at maximum (5th percentile)
    pub Hpmax: Option<Decimal>,
    /// Hpmag at minimum (95th percentile)
    pub HPmin: Option<Decimal>,
    /// Variability period (days)
    pub Period: Option<Decimal>,
    /// Variability type
    pub HvarType: Option<String>,
    /// Additional data about variability
    pub moreVar: Option<String>,
    /// Light curve Annex
    pub morePhoto: Option<String>,
    /// CCDM identifier
    pub CCDM: Option<String>,
    /// Historical status flag
    pub n_CCDM: Option<String>,
    /// Number of entries with same CCDM
    pub Nsys: Option<usize>,
    /// Number of components in this entry
    pub Ncomp: Option<usize>,
    /// Double and or Multiple Systems flag
    pub MultFlag: Option<String>,
    /// Astrometric source flag
    pub Source: Option<String>,
    /// Solution quality flag
    pub Qual: Option<String>,
    /// Component identifiers
    pub m_HIP: Option<String>,
    /// Position angle between components
    pub theta: Option<usize>,
    /// Angular separation of components
    pub rho: Option<Decimal>,
    /// Standard error of rho
    pub e_rho: Option<Decimal>,
    /// Magnitude difference of components
    pub dHp: Option<Decimal>,
    /// Standard error in dHp
    pub e_dHp: Option<Decimal>,
    /// Flag indicating a Survey Star
    pub Survey: Option<String>,
    /// Identification Chart
    pub Chart: Option<String>,
    /// Existence of notes
    pub Notes: Option<String>,
    /// HD number <III 135>
    pub HD: Option<usize>,
    /// Bonner DM <I 119>, <I 122>
    pub BD: Option<String>,
    /// Cordoba Durchmusterung (DM) <I 114>
    pub CoD: Option<String>,
    /// Cape Photographic DM <I 108>
    pub CPD: Option<String>,
    /// VI used for reductions
    pub V_I_red: Option<Decimal>,
    /// Spectral type
    pub SpType: Option<String>,
    /// Source of spectral type
    pub r_SpType: Option<String>,
}

/// The bounds of field `i` of a line.
pub open spec fn bounds(line: Seq<u8>, i: int) -> (int, int) {
    piece(line.len() as int, separators(line, 0x7c, 0), i)
}

/// The unsigned integer in field `i` of a line.
#[verifier::opaque]
pub open spec fn number(line: Seq<u8>, i: int) -> Option<usize> {
    usize_field(line, bounds(line, i).0, bounds(line, i).1)
}

/// The decimal in field `i` of a line.
#[verifier::opaque]
pub open spec fn decimal(line: Seq<u8>, i: int) -> Option<Decimal> {
    decimal_field(line, bounds(line, i).0, bounds(line, i).1)
}

/// The text in field `i` of a line.
#[verifier::opaque]
pub open spec fn text(line: Seq<u8>, i: int) -> Option<Seq<u8>> {
    text_field(line, bounds(line, i).0, bounds(line, i).1)
}

/// The sexagesimal number in field `i` of a line, its parts separated by spaces
/// and its first byte one of `signs`.
#[verifier::opaque]
pub open spec fn sexagesimal(line: Seq<u8>, i: int, signs: Signs) -> Result<
    Option<ParsedSexagesimal>,
    Error,
> {
    sexagesimal_field_text(field(line, bounds(line, i).0, bounds(line, i).1), 0x20, signs)
}

/// The angle of a number of hours, minutes and seconds.
pub open spec fn hour_angle(t: ParsedSexagesimal) -> Angle {
    Angle::Hour(HourMinSec(t.sign, t.major, t.minor, t.second))
}

/// The angle of a number of degrees, arc minutes and arc seconds.
pub open spec fn degree_angle(t: ParsedSexagesimal) -> Angle {
    Angle::Degree(DegMinSec(t.sign, t.major, t.minor, t.second))
}

/// The angle of the decimal degrees in field `i` of a line, if the field holds any.
#[verifier::opaque]
pub open spec fn degrees(line: Seq<u8>, i: int) -> Result<Option<Angle>, Error> {
    match decimal(line, i) {
        Some(x) => match Angle::of_degrees(x) {
            Ok(a) => Ok(Some(a)),
            Err(e) => Err(e),
        },
        None => Ok(None),
    }
}

/// The angle of an optional right ascension.
pub open spec fn right_ascension_angle(a: Option<RightAscension>) -> Option<Angle> {
    match a {
        Some(a) => Some(a.0),
        None => None,
    }
}

/// The angle of an optional declination.
pub open spec fn declination_angle(a: Option<Declination>) -> Option<Angle> {
    match a {
        Some(a) => Some(a.angle()),
        None => None,
    }
}

/// Why a line is no record, if it is none. In this order: it has fewer than
/// seventy-eight fields; its right ascension or declination in sexagesimal form
/// is missing or malformed, a right ascension that begins with `-` and a
/// declination that does not begin with `+` or `-` among them; a declination
/// lies beyond a quarter turn, or an angle in degrees is too large to hold; the
/// Hipparcos number or a coordinate in degrees is missing.
pub open spec fn hipparcos_failure(line: Seq<u8>) -> Option<Error> {
    if separators(line, 0x7c, 0).len() + 1 < FIELDS {
        Some(Error::MalformedRecord)
    } else {
        match (
            sexagesimal(line, 3, Signs::NoMinus),
            sexagesimal(line, 4, Signs::Required),
        ) {
            (Ok(Some(_)), Ok(Some(dec))) => match (degrees(line, 8), degrees(line, 9)) {
                (Ok(ra_deg), Ok(dec_deg)) => if !degree_angle(dec).within_quarter_turn() || (
                dec_deg matches Some(a) && !a.within_quarter_turn()) {
                    Some(Error::RangeViolation)
                } else if number(line, 1).is_none() || ra_deg.is_none() || dec_deg.is_none() {
                    Some(Error::IncompleteRecord)
                } else {
                    None
                },
                _ => Some(Error::RangeViolation),
            },
            _ => Some(Error::MalformedSexagesimal),
        }
    }
}

/// A line cut into fields.
struct Fields<'a> {
    line: &'a str,
    cuts: Vec<usize>,
}

impl<'a> Fields<'a> {
    spec fn wf(&self) -> bool {
        &&& self.cuts@ == separators(self.line.spec_bytes(), 0x7c, 0)
        &&& forall|k: int|
            0 <= k < self.cuts@.len() ==> #[trigger] self.cuts@[k] < self.line.spec_bytes().len()
    }

    fn cut(line: &'a str) -> (r: Fields<'a>)
        ensures
            r.wf(),
            r.line == line,
    {
        Fields { line, cuts: split_positions(line.as_bytes(), 0x7c) }
    }

    fn bounds(&self, i: usize) -> (r: (usize, usize))
        requires
            self.wf(),
        ensures
            (r.0 as int, r.1 as int) == bounds(self.line.spec_bytes(), i as int),
    {
        piece_bounds(self.line.as_bytes().len(), &self.cuts, i)
    }

    fn number(&self, i: usize) -> (r: Option<usize>)
        requires
            self.wf(),
        ensures
            r == number(self.line.spec_bytes(), i as int),
    {
        reveal(number);
        let (lo, hi) = self.bounds(i);
        parse_trim_usize(self.line.as_bytes(), lo, hi)
    }

    fn decimal(&self, i: usize) -> (r: Option<Decimal>)
        requires
            self.wf(),
        ensures
            r == decimal(self.line.spec_bytes(), i as int),
            r matches Some(d) ==> d.wf(),
    {
        reveal(decimal);
        let (lo, hi) = self.bounds(i);
        parse_trim_decimal(self.line.as_bytes(), lo, hi)
    }

    fn text(&self, i: usize) -> (r: Option<String>)
        requires
            self.wf(),
        ensures
            text_bytes(r) == text(self.line.spec_bytes(), i as int),
    {
        reveal(text);
        let (lo, hi) = self.bounds(i);
        parse_trim_string(self.line, lo, hi)
    }

    fn sexagesimal(&self, i: usize, signs: Signs) -> (r: Result<ParsedSexagesimal, Error>)
        requires
            self.wf(),
        ensures
            match r {
                Ok(t) => sexagesimal(self.line.spec_bytes(), i as int, signs) == Ok::<
                    Option<ParsedSexagesimal>,
                    Error,
                >(Some(t)) && t.wf(),
                Err(e) => e == Error::MalformedSexagesimal && !(sexagesimal(
                    self.line.spec_bytes(),
                    i as int,
                    signs,
                ) matches Ok(Some(_))),
            },
    {
        reveal(sexagesimal);
        let (lo, hi) = self.bounds(i);
        match read_sexagesimal_field(field_bytes(self.line.as_bytes(), lo, hi), 0x20, signs) {
            Ok(Some(t)) => Ok(t),
            _ => Err(Error::MalformedSexagesimal),
        }
    }

    fn degrees(&self, i: usize) -> (r: Result<Option<Angle>, Error>)
        requires
            self.wf(),
        ensures
            r == degrees(self.line.spec_bytes(), i as int),
            r matches Ok(Some(a)) ==> a.wf(),
            r matches Err(e) ==> e == Error::RangeViolation,
    {
        reveal(degrees);
        match self.decimal(i) {
            Some(x) => match Angle::degrees(x) {
                Ok(a) => Ok(Some(a)),
                Err(e) => Err(e),
            },
            None => Ok(None),
        }
    }
}

impl HipparcosStar {
    /// Every field holds what its part of `line` says.
    pub open spec fn reads(&self, line: Seq<u8>) -> bool {
        &&& text_bytes(self.catalog) == text(line, 0)
        &&& self.HIP == number(line, 1)
        &&& text_bytes(self.Proxy) == text(line, 2)
        &&& sexagesimal(line, 3, Signs::NoMinus) matches Ok(Some(t))
            && self.right_ascension.0 == hour_angle(t)
        &&& sexagesimal(line, 4, Signs::Required) matches Ok(Some(t))
            && self.declination.angle() == degree_angle(t)
        &&& self.Vmag == decimal(line, 5)
        &&& text_bytes(self.VarFlag) == text(line, 6)
        &&& text_bytes(self.r_Vmag) == text(line, 7)
        &&& degrees(line, 8) == Ok::<Option<Angle>, Error>(right_ascension_angle(self.RAdeg))
        &&& degrees(line, 9) == Ok::<Option<Angle>, Error>(declination_angle(self.DEdeg))
        &&& text_bytes(self.AstroRef) == text(line, 10)
        &&& self.Plx == decimal(line, 11)
        &&& self.pmRA == decimal(line, 12)
        &&& self.pmDE == decimal(line, 13)
        &&& self.e_RAdeg == decimal(line, 14)
        &&& self.e_DEdeg == decimal(line, 15)
        &&& self.e_Plx == decimal(line, 16)
        &&& self.e_pmRA == decimal(line, 17)
        &&& self.e_pmDE == decimal(line, 18)
        &&& self.DE_RA == decimal(line, 19)
        &&& self.Plx_RA == decimal(line, 20)
        &&& self.Plx_DE == decimal(line, 21)
        &&& self.pmRA_RA == decimal(line, 22)
        &&& self.pmRA_DE == decimal(line, 23)
        &&& self.pmRA_Plx == decimal(line, 24)
        &&& self.pmDE_RA == decimal(line, 25)
        &&& self.pmDE_DE == decimal(line, 26)
        &&& self.pmDE_Plx == decimal(line, 27)
        &&& self.pmDE_pmRA == decimal(line, 28)
        &&& self.F1 == number(line, 29)
        &&& self.F2 == decimal(line, 30)
        &&& self.BTmag == decimal(line, 32)
        &&& self.e_BTmag == decimal(line, 33)
        &&& self.VTmag == decimal(line, 34)
        &&& self.e_VTmag == decimal(line, 35)
        &&& text_bytes(self.m_BTmag) == text(line, 36)
        &&& self.B_V == decimal(line, 37)
        &&& self.e_B_V == decimal(line, 38)
        &&& text_bytes(self.r_B_V) == text(line, 39)
        &&& self.V_I == decimal(line, 40)
        &&& self.e_V_I == decimal(line, 41)
        &&& text_bytes(self.r_V_I) == text(line, 42)
        &&& text_bytes(self.CombMag) == text(line, 43)
        &&& self.Hpmag == decimal(line, 44)
        &&& self.e_Hpmag == decimal(line, 45)
        &&& self.Hpscat == decimal(line, 46)
        &&& self.o_Hpmag == number(line, 47)
        &&& text_bytes(self.m_Hpmag) == text(line, 48)
        &&& self.Hpmax == decimal(line, 49)
        &&& self.HPmin == decimal(line, 50)
        &&& self.Period == decimal(line, 51)
        &&& text_bytes(self.HvarType) == text(line, 52)
        &&& text_bytes(self.moreVar) == text(line, 53)
        &&& text_bytes(self.morePhoto) == text(line, 54)
        &&& text_bytes(self.CCDM) == text(line, 55)
        &&& text_bytes(self.n_CCDM) == text(line, 56)
        &&& self.Nsys == number(line, 57)
        &&& self.Ncomp == number(line, 58)
        &&& text_bytes(self.MultFlag) == text(line, 59)
        &&& text_bytes(self.Source) == text(line, 60)
        &&& text_bytes(self.Qual) == text(line, 61)
        &&& text_bytes(self.m_HIP) == text(line, 62)
        &&& self.theta == number(line, 63)
        &&& self.rho == decimal(line, 64)
        &&& self.e_rho == decimal(line, 65)
        &&& self.dHp == decimal(line, 66)
        &&& self.e_dHp == decimal(line, 67)
        &&& text_bytes(self.Survey) == text(line, 68)
        &&& text_bytes(self.Chart) == text(line, 69)
        &&& text_bytes(self.Notes) == text(line, 70)
        &&& self.HD == number(line, 71)
        &&& text_bytes(self.BD) == text(line, 72)
        &&& text_bytes(self.CoD) == text(line, 73)
        &&& text_bytes(self.CPD) == text(line, 74)
        &&& self.V_I_red == decimal(line, 75)
        &&& text_bytes(self.SpType) == text(line, 76)
        &&& text_bytes(self.r_SpType) == text(line, 77)
    }

    /// Reads a record from a line of the catalog, and says why where it cannot:
    /// see [`hipparcos_failure`].
    #[allow(non_snake_case)]
    pub fn try_from(s: String) -> (r: Result<HipparcosStar, Error>)
        ensures
            match r {
                Ok(star) => hipparcos_failure(encode_utf8(s@)).is_none() && star.reads(
                    encode_utf8(s@),
                ) && star.valid(),
                Err(e) => hipparcos_failure(encode_utf8(s@)) == Some(e),
            },
    {
        let fields = Fields::cut(s.as_str());
        if fields.cuts.len() < FIELDS - 1 {
            return Err(Error::MalformedRecord);
        }
        let right_ascension = match fields.sexagesimal(3, Signs::NoMinus) {
            Ok(t) => RightAscension(Angle::Hour(HourMinSec(t.sign, t.major, t.minor, t.second))),
            Err(e) => {
                return Err(e);
            },
        };
        let declination_angle = match fields.sexagesimal(4, Signs::Required) {
            Ok(t) => Angle::Degree(DegMinSec(t.sign, t.major, t.minor, t.second)),
            Err(e) => {
                return Err(e);
            },
        };
        let RAdeg = match fields.degrees(8) {
            Ok(Some(a)) => Some(RightAscension(a)),
            Ok(None) => None,
            Err(e) => {
                return Err(e);
            },
        };
        let DEdeg_angle = match fields.degrees(9) {
            Ok(a) => a,
            Err(e) => {
                return Err(e);
            },
        };
        let declination = match Declination::new(&declination_angle) {
            Ok(d) => d,
            Err(e) => {
                return Err(e);
            },
        };
        let DEdeg = match DEdeg_angle {
            Some(a) => match Declination::new(&a) {
                Ok(d) => Some(d),
                Err(e) => {
                    return Err(e);
                },
            },
            None => None,
        };
        let star = HipparcosStar {
            catalog: fields.text(0),
            HIP: fields.number(1),
            Proxy: fields.text(2),
            right_ascension,
            declination,
            Vmag: fields.decimal(5),
            VarFlag: fields.text(6),
            r_Vmag: fields.text(7),
            RAdeg,
            DEdeg,
            AstroRef: fields.text(10),
            Plx: fields.decimal(11),
            pmRA: fields.decimal(12),
            pmDE: fields.decimal(13),
            e_RAdeg: fields.decimal(14),
            e_DEdeg: fields.decimal(15),
            e_Plx: fields.decimal(16),
            e_pmRA: fields.decimal(17),
            e_pmDE: fields.decimal(18),
            DE_RA: fields.decimal(19),
            Plx_RA: fields.decimal(20),
            Plx_DE: fields.decimal(21),
            pmRA_RA: fields.decimal(22),
            pmRA_DE: fields.decimal(23),
            pmRA_Plx: fields.decimal(24),
            pmDE_RA: fields.decimal(25),
            pmDE_DE: fields.decimal(26),
            pmDE_Plx: fields.decimal(27),
            pmDE_pmRA: fields.decimal(28),
            F1: fields.number(29),
            F2: fields.decimal(30),
            BTmag: fields.decimal(32),
            e_BTmag: fields.decimal(33),
            VTmag: fields.decimal(34),
            e_VTmag: fields.decimal(35),
            m_BTmag: fields.text(36),
            B_V: fields.decimal(37),
            e_B_V: fields.decimal(38),
            r_B_V: fields.text(39),
            V_I: fields.decimal(40),
            e_V_I: fields.decimal(41),
            r_V_I: fields.text(42),
            CombMag: fields.text(43),
            Hpmag: fields.decimal(44),
            e_Hpmag: fields.decimal(45),
            Hpscat: fields.decimal(46),
            o_Hpmag: fields.number(47),
            m_Hpmag: fields.text(48),
            Hpmax: fields.decimal(49),
            HPmin: fields.decimal(50),
            Period: fields.decimal(51),
            HvarType: fields.text(52),
            moreVar: fields.text(53),
            morePhoto: fields.text(54),
            CCDM: fields.text(55),
            n_CCDM: fields.text(56),
            Nsys: fields.number(57),
            Ncomp: fields.number(58),
            MultFlag: fields.text(59),
            Source: fields.text(60),
            Qual: fields.text(61),
            m_HIP: fields.text(62),
            theta: fields.number(63),
            rho: fields.decimal(64),
            e_rho: fields.decimal(65),
            dHp: fields.decimal(66),
            e_dHp: fields.decimal(67),
            Survey: fields.text(68),
            Chart: fields.text(69),
            Notes: fields.text(70),
            HD: fields.number(71),
            BD: fields.text(72),
            CoD: fields.text(73),
            CPD: fields.text(74),
            V_I_red: fields.decimal(75),
            SpType: fields.text(76),
            r_SpType: fields.text(77),
        };
        if star.is_valid_parse() {
            Ok(star)
        } else {
            Err(Error::IncompleteRecord)
        }
    }
}

impl ValidParse for HipparcosStar {
    open spec fn valid(&self) -> bool {
        &&& self.HIP.is_some()
        &&& self.RAdeg.is_some()
        &&& self.DEdeg.is_some()
    }

    fn is_valid_parse(&self) -> (r: bool) {
        self.HIP.is_some() && self.RAdeg.is_some() && self.DEdeg.is_some()
    }
}

} // verus!
