//! [Yale Bright Star Catalog](http://tdc-www.harvard.edu/catalogs/bsc5.html) parser.
//!
//! A record is a line of 197 bytes in fixed columns. Each field is read from its
//! own columns; a field that is blank, or that the line ends before, is absent.
use crate::number::Decimal;
use crate::catalog::util::{
    decimal_field, parse_trim_decimal, parse_trim_string, parse_trim_usize, text_bytes,
    text_field, usize_field,
};
use crate::catalog::ValidParse;
use crate::error::Error;
use vstd::prelude::*;
use vstd::string::StringSliceAdditionalSpecFns;
use vstd::utf8::encode_utf8;

verus! {

/// A record of the Bright Star Catalogue, 5th revised edition.
#[allow(non_snake_case)]
#[derive(Debug, Clone)]
pub struct YaleStar {
    /// \[1/9110\]+ Harvard Revised Number = Bright Star Number
    pub HR: Option<usize>,
    /// Name, generally Bayer and/or Flamsteed name
    pub Name: Option<String>,
    /// Durchmusterung Identification (zone in bytes 17-19)
    pub DM: Option<String>,
    /// \[1/225300\]? Henry Draper Catalog Number
    pub HD: Option<usize>,
    /// \[1/258997\]? SAO Catalog Number
    pub SAO: Option<usize>,
    /// ? FK5 star Number
    pub FK5: Option<usize>,
    /// \[I\] I if infrared source
    pub IRflag: Option<String>,
    /// \*\[ ':\] Coded reference for infrared source
    pub r_IRflag: Option<String>,
    /// \*\[AWDIRS\] Double or multiple-star code
    pub Multiple: Option<String>,
    /// Aitken's Double Star Catalog (ADS) designation
    pub ADS: Option<String>,
    /// ADS number components
    pub ADScomp: Option<String>,
    /// Variable star identification
    pub VarID: Option<String>,
    /// ?Hours RA, equinox B1900, epoch 1900.0 (1)
    pub RAh1900: Option<usize>,
    /// ?Minutes RA, equinox B1900, epoch 1900.0 (1)
    pub RAm1900: Option<usize>,
    /// ?Seconds RA, equinox B1900, epoch 1900.0 (1)
    pub RAs1900: Option<Decimal>,
    /// ?Sign Dec, equinox B1900, epoch 1900.0 (1)
    pub DE_1900: Option<String>,
    /// ?Degrees Dec, equinox B1900, epoch 1900.0 (1)
    pub DEd1900: Option<usize>,
    /// ?Minutes Dec, equinox B1900, epoch 1900.0 (1)
    pub DEm1900: Option<usize>,
    /// ?Seconds Dec, equinox B1900, epoch 1900.0 (1)
    pub DEs1900: Option<usize>,
    /// ?Hours RA, equinox J2000, epoch 2000.0 (1)
    pub RAh: Option<usize>,
    /// ?Minutes RA, equinox J2000, epoch 2000.0 (1)
    pub RAm: Option<usize>,
    /// ?Seconds RA, equinox J2000, epoch 2000.0 (1)
    pub RAs: Option<Decimal>,
    /// ?Sign Dec, equinox J2000, epoch 2000.0 (1)
    pub DE_: Option<String>,
    /// ?Degrees Dec, equinox J2000, epoch 2000.0 (1)
    pub DEd: Option<usize>,
    /// ?Minutes Dec, equinox J2000, epoch 2000.0 (1)
    pub DEm: Option<usize>,
    /// ?Seconds Dec, equinox J2000, epoch 2000.0 (1)
    pub DEs: Option<usize>,
    /// ?Galactic longitude (1)
    pub GLON: Option<Decimal>,
    /// ?Galactic latitude (1)
    pub GLAT: Option<Decimal>,
    /// ?Visual magnitude (1)
    pub Vmag: Option<Decimal>,
    /// \*\[ HR\] Visual magnitude code
    pub n_Vmag: Option<String>,
    /// \[ :?\] Uncertainty flag on V
    pub u_Vmag: Option<String>,
    /// ? B-V color in the UBV system
    pub B_V: Option<Decimal>,
    /// \[ :?\] Uncertainty flag on B-V
    pub u_B_V: Option<String>,
    /// ? U-B color in the UBV system
    pub U_B: Option<Decimal>,
    /// \[ :?\] Uncertainty flag on U-B
    pub u_U_B: Option<String>,
    /// ? R-I   in system specified by n_R-I
    pub R_I: Option<Decimal>,
    /// \[CE:?D\] Code for R-I system (Cousin, Eggen)
    pub n_R_I: Option<String>,
    /// Spectral type
    pub SpType: Option<String>,
    /// \[evt\] Spectral type code
    pub n_SpType: Option<String>,
    /// *?Annual proper motion in RA J2000, FK5 system
    pub pmRA: Option<Decimal>,
    /// ?Annual proper motion in Dec J2000, FK5 system
    pub pmDe: Option<Decimal>,
    /// \[D\] D indicates a dynamical parallax, otherwise a trigonometric parallax
    pub n_Parallax: Option<String>,
    /// ? Trigonometric parallax (unless n_Parallax)
    pub Parallax: Option<Decimal>,
    /// ? Heliocentric Radial Velocity
    pub RadVel: Option<usize>,
    /// \*\[V?SB123O \] Radial velocity comments
    pub n_RadVel: Option<String>,
    /// \[<=> \] Rotational velocity limit characters
    pub l_RotVel: Option<String>,
    /// ? Rotational velocity, v sin i
    pub RotVel: Option<usize>,
    /// \[ :v\] uncertainty and variability flag on RotVel
    pub u_RotVel: Option<String>,
    /// ? Magnitude difference of double, or brightest multiple
    pub Dmag: Option<Decimal>,
    /// ? Separation of components in Dmag if occultation binary.
    pub Sep: Option<Decimal>,
    /// Identifications of components in Dmag
    pub MultID: Option<String>,
    /// ? Number of components assigned to a multiple
    pub MultCnt: Option<usize>,
    /// \[\*\] a star indicates that there is a note (see file notes)
    pub NoteFlag: Option<String>,
}

impl YaleStar {
    /// Every field holds what its columns of `line` say.
    pub open spec fn reads(&self, line: Seq<u8>) -> bool {
        &&& self.HR == usize_field(line, 0, 4)
        &&& text_bytes(self.Name) == text_field(line, 4, 14)
        &&& text_bytes(self.DM) == text_field(line, 14, 25)
        &&& self.HD == usize_field(line, 25, 31)
        &&& self.SAO == usize_field(line, 31, 37)
        &&& self.FK5 == usize_field(line, 37, 41)
        &&& text_bytes(self.IRflag) == text_field(line, 41, 42)
        &&& text_bytes(self.r_IRflag) == text_field(line, 42, 43)
        &&& text_bytes(self.Multiple) == text_field(line, 43, 44)
        &&& text_bytes(self.ADS) == text_field(line, 44, 49)
        &&& text_bytes(self.ADScomp) == text_field(line, 49, 51)
        &&& text_bytes(self.VarID) == text_field(line, 51, 60)
        &&& self.RAh1900 == usize_field(line, 60, 62)
        &&& self.RAm1900 == usize_field(line, 62, 64)
        &&& self.RAs1900 == decimal_field(line, 64, 68)
        &&& text_bytes(self.DE_1900) == text_field(line, 68, 69)
        &&& self.DEd1900 == usize_field(line, 69, 71)
        &&& self.DEm1900 == usize_field(line, 71, 73)
        &&& self.DEs1900 == usize_field(line, 73, 75)
        &&& self.RAh == usize_field(line, 75, 77)
        &&& self.RAm == usize_field(line, 77, 79)
        &&& self.RAs == decimal_field(line, 79, 83)
        &&& text_bytes(self.DE_) == text_field(line, 83, 84)
        &&& self.DEd == usize_field(line, 84, 86)
        &&& self.DEm == usize_field(line, 86, 88)
        &&& self.DEs == usize_field(line, 88, 90)
        &&& self.GLON == decimal_field(line, 90, 96)
        &&& self.GLAT == decimal_field(line, 96, 102)
        &&& self.Vmag == decimal_field(line, 102, 107)
        &&& text_bytes(self.n_Vmag) == text_field(line, 107, 108)
        &&& text_bytes(self.u_Vmag) == text_field(line, 108, 109)
        &&& self.B_V == decimal_field(line, 109, 114)
        &&& text_bytes(self.u_B_V) == text_field(line, 114, 115)
        &&& self.U_B == decimal_field(line, 115, 120)
        &&& text_bytes(self.u_U_B) == text_field(line, 120, 121)
        &&& self.R_I == decimal_field(line, 121, 126)
        &&& text_bytes(self.n_R_I) == text_field(line, 126, 127)
        &&& text_bytes(self.SpType) == text_field(line, 127, 147)
        &&& text_bytes(self.n_SpType) == text_field(line, 147, 148)
        &&& self.pmRA == decimal_field(line, 148, 154)
        &&& self.pmDe == decimal_field(line, 154, 160)
        &&& text_bytes(self.n_Parallax) == text_field(line, 160, 161)
        &&& self.Parallax == decimal_field(line, 161, 166)
        &&& self.RadVel == usize_field(line, 166, 170)
        &&& text_bytes(self.n_RadVel) == text_field(line, 170, 174)
        &&& text_bytes(self.l_RotVel) == text_field(line, 174, 176)
        &&& self.RotVel == usize_field(line, 176, 179)
        &&& text_bytes(self.u_RotVel) == text_field(line, 179, 180)
        &&& self.Dmag == decimal_field(line, 180, 184)
        &&& self.Sep == decimal_field(line, 184, 190)
        &&& text_bytes(self.MultID) == text_field(line, 190, 194)
        &&& self.MultCnt == usize_field(line, 194, 196)
        &&& text_bytes(self.NoteFlag) == text_field(line, 196, 197)
    }

    /// Reads a record from a line of the catalog. Fails with `IncompleteRecord`
    /// where the line lacks the star's number or a part of its position for the
    /// equinox J2000, and only there.
    #[allow(non_snake_case)]
    pub fn try_from(s: String) -> (r: Result<YaleStar, Error>)
        ensures
            match r {
                Ok(star) => star.reads(encode_utf8(s@)) && star.valid(),
                Err(e) => e == Error::IncompleteRecord && !yale_valid(encode_utf8(s@)),
            },
    {
        let line = s.as_str();
        let bytes = line.as_bytes();
        let star = YaleStar {
            HR: parse_trim_usize(bytes, 0, 4),
            Name: parse_trim_string(line, 4, 14),
            DM: parse_trim_string(line, 14, 25),
            HD: parse_trim_usize(bytes, 25, 31),
            SAO: parse_trim_usize(bytes, 31, 37),
            FK5: parse_trim_usize(bytes, 37, 41),
            IRflag: parse_trim_string(line, 41, 42),
            r_IRflag: parse_trim_string(line, 42, 43),
            Multiple: parse_trim_string(line, 43, 44),
            ADS: parse_trim_string(line, 44, 49),
            ADScomp: parse_trim_string(line, 49, 51),
            VarID: parse_trim_string(line, 51, 60),
            RAh1900: parse_trim_usize(bytes, 60, 62),
            RAm1900: parse_trim_usize(bytes, 62, 64),
            RAs1900: parse_trim_decimal(bytes, 64, 68),
            DE_1900: parse_trim_string(line, 68, 69),
            DEd1900: parse_trim_usize(bytes, 69, 71),
            DEm1900: parse_trim_usize(bytes, 71, 73),
            DEs1900: parse_trim_usize(bytes, 73, 75),
            RAh: parse_trim_usize(bytes, 75, 77),
            RAm: parse_trim_usize(bytes, 77, 79),
            RAs: parse_trim_decimal(bytes, 79, 83),
            DE_: parse_trim_string(line, 83, 84),
            DEd: parse_trim_usize(bytes, 84, 86),
            DEm: parse_trim_usize(bytes, 86, 88),
            DEs: parse_trim_usize(bytes, 88, 90),
            GLON: parse_trim_decimal(bytes, 90, 96),
            GLAT: parse_trim_decimal(bytes, 96, 102),
            Vmag: parse_trim_decimal(bytes, 102, 107),
            n_Vmag: parse_trim_string(line, 107, 108),
            u_Vmag: parse_trim_string(line, 108, 109),
            B_V: parse_trim_decimal(bytes, 109, 114),
            u_B_V: parse_trim_string(line, 114, 115),
            U_B: parse_trim_decimal(bytes, 115, 120),
            u_U_B: parse_trim_string(line, 120, 121),
            R_I: parse_trim_decimal(bytes, 121, 126),
            n_R_I: parse_trim_string(line, 126, 127),
            SpType: parse_trim_string(line, 127, 147),
            n_SpType: parse_trim_string(line, 147, 148),
            pmRA: parse_trim_decimal(bytes, 148, 154),
            pmDe: parse_trim_decimal(bytes, 154, 160),
            n_Parallax: parse_trim_string(line, 160, 161),
            Parallax: parse_trim_decimal(bytes, 161, 166),
            RadVel: parse_trim_usize(bytes, 166, 170),
            n_RadVel: parse_trim_string(line, 170, 174),
            l_RotVel: parse_trim_string(line, 174, 176),
            RotVel: parse_trim_usize(bytes, 176, 179),
            u_RotVel: parse_trim_string(line, 179, 180),
            Dmag: parse_trim_decimal(bytes, 180, 184),
            Sep: parse_trim_decimal(bytes, 184, 190),
            MultID: parse_trim_string(line, 190, 194),
            MultCnt: parse_trim_usize(bytes, 194, 196),
            NoteFlag: parse_trim_string(line, 196, 197),
        };
        if star.is_valid_parse() {
            Ok(star)
        } else {
            Err(Error::IncompleteRecord)
        }
    }
}

/// The line holds the star's number and each part of its position for the
/// equinox J2000: the sign, degrees, minutes and seconds of the declination and
/// the hours, minutes and seconds of the right ascension.
pub open spec fn yale_valid(line: Seq<u8>) -> bool {
    &&& usize_field(line, 0, 4).is_some()
    &&& text_field(line, 83, 84).is_some()
    &&& usize_field(line, 84, 86).is_some()
    &&& usize_field(line, 86, 88).is_some()
    &&& usize_field(line, 88, 90).is_some()
    &&& usize_field(line, 75, 77).is_some()
    &&& usize_field(line, 77, 79).is_some()
    &&& decimal_field(line, 79, 83).is_some()
}

impl ValidParse for YaleStar {
    open spec fn valid(&self) -> bool {
        &&& self.HR.is_some()
        &&& self.DE_.is_some()
        &&& self.DEd.is_some()
        &&& self.DEm.is_some()
        &&& self.DEs.is_some()
        &&& self.RAh.is_some()
        &&& self.RAm.is_some()
        &&& self.RAs.is_some()
    }

    fn is_valid_parse(&self) -> (r: bool) {
        self.HR.is_some() && self.DE_.is_some() && self.DEd.is_some() && self.DEm.is_some()
            && self.DEs.is_some() && self.RAh.is_some() && self.RAm.is_some()
            && self.RAs.is_some()
    }
}

} // verus!
