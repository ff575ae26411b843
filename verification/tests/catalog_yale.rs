use starstuff_types::number::Decimal;
use starstuff_types::catalog::yale::YaleStar;
use starstuff_types::catalog::ValidParse;
use starstuff_types::error::Error;

const FIRST: &str = "   1          BD+44 4550      3 36042          46           000001.1+444022000509.9+451345114.44-16.88 6.70  +0.07 +0.08         A1Vn               -0.012-0.018      -018      195  4.2  21.6AC   3 ";

fn dec(negative: bool, mantissa: u64, scale: u16) -> Option<Decimal> {
    Some(Decimal { negative, mantissa, scale })
}

#[test]
fn test_yalestar_from() {
    let s = String::from(FIRST);
    YaleStar::try_from(s).unwrap();
}

#[test]
fn yale_fields() {
    let star = YaleStar::try_from(String::from(FIRST)).unwrap();
    assert!(star.is_valid_parse());
    assert_eq!(star.HR, Some(1));
    assert_eq!(star.Name, None);
    assert_eq!(star.DM, Some(String::from("BD+44 4550")));
    assert_eq!(star.HD, Some(3));
    assert_eq!(star.SAO, Some(36042));
    assert_eq!(star.FK5, None);
    assert_eq!(star.IRflag, None);
    assert_eq!(star.ADS, Some(String::from("46")));
    assert_eq!(star.RAh1900, Some(0));
    assert_eq!(star.RAm1900, Some(0));
    assert_eq!(star.RAs1900, dec(false, 11, 1));
    assert_eq!(star.DE_1900, Some(String::from("+")));
    assert_eq!(star.DEd1900, Some(44));
    assert_eq!(star.DEm1900, Some(40));
    assert_eq!(star.DEs1900, Some(22));
    assert_eq!(star.RAh, Some(0));
    assert_eq!(star.RAm, Some(5));
    assert_eq!(star.RAs, dec(false, 99, 1));
    assert_eq!(star.DE_, Some(String::from("+")));
    assert_eq!(star.DEd, Some(45));
    assert_eq!(star.DEm, Some(13));
    assert_eq!(star.DEs, Some(45));
    assert_eq!(star.GLON, dec(false, 11444, 2));
    assert_eq!(star.GLAT, dec(true, 1688, 2));
    assert_eq!(star.Vmag, dec(false, 670, 2));
    assert_eq!(star.B_V, dec(false, 7, 2));
    assert_eq!(star.U_B, dec(false, 8, 2));
    assert_eq!(star.R_I, None);
    assert_eq!(star.SpType, Some(String::from("A1Vn")));
    assert_eq!(star.pmRA, dec(true, 12, 3));
    assert_eq!(star.pmDe, dec(true, 18, 3));
    assert_eq!(star.Parallax, None);
    // A radial velocity with a minus sign is no unsigned number.
    assert_eq!(star.RadVel, None);
    assert_eq!(star.RotVel, Some(195));
    assert_eq!(star.Dmag, dec(false, 42, 1));
    assert_eq!(star.Sep, dec(false, 216, 1));
    assert_eq!(star.MultID, Some(String::from("AC")));
    assert_eq!(star.MultCnt, Some(3));
    assert_eq!(star.NoteFlag, None);
}

#[test]
fn yale_short_and_blank_lines() {
    assert_eq!(YaleStar::try_from(String::new()).err(), Some(Error::IncompleteRecord));
    assert_eq!(YaleStar::try_from(String::from("   1")).err(), Some(Error::IncompleteRecord));
    // A line that ends before its later fields is read as if it were padded.
    let star = YaleStar::try_from(String::from(&FIRST[..90])).unwrap();
    assert_eq!(star.DEs, Some(45));
    assert_eq!(star.GLON, None);
    assert_eq!(star.NoteFlag, None);
    // Without the seconds of the declination the record is incomplete.
    assert_eq!(
        YaleStar::try_from(String::from(&FIRST[..88])).err(),
        Some(Error::IncompleteRecord)
    );
    // A removed star: the position is blank.
    let mut removed = String::from(&FIRST[..60]);
    removed.push_str(&" ".repeat(137));
    assert_eq!(YaleStar::try_from(removed).err(), Some(Error::IncompleteRecord));
}

#[test]
fn yale_line_that_is_not_ascii() {
    // The name holds a letter of two bytes, which moves every later column by one.
    let mut line = String::from("   1 \u{3b1} And    ");
    line.push_str(&FIRST[14..]);
    assert_eq!(line.len(), FIRST.len() + 1);
    match YaleStar::try_from(line) {
        Ok(star) => {
            assert_eq!(star.HR, Some(1));
            assert_eq!(star.Name, Some(String::from("\u{3b1} And")));
        }
        Err(e) => assert_eq!(e, Error::IncompleteRecord),
    }
}
