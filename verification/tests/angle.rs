use starstuff_types::angle::Angle;
use starstuff_types::number::{Decimal, MAX_SCALE, power_of_ten, Ratio, Sign};
use starstuff_types::sexagesimal::{
    decimal_to_sexagesimal, DegMinSec, HourMinSec, sexagesimal_to_decimal, triple_is_at_most,
};
use starstuff_types::catalog::util::parse_decimal;
use starstuff_types::error::Error;

fn dec(text: &str) -> Decimal {
    parse_decimal(text.as_bytes()).unwrap()
}

fn float(r: Ratio) -> f64 {
    let magnitude = r.numerator as f64 / r.denominator as f64;
    if r.negative {
        -magnitude
    } else {
        magnitude
    }
}

/// The double nearest to a sexagesimal triple.
fn triple(sign: Sign, major: u32, minor: u32, second: Decimal) -> f64 {
    let seconds = second.mantissa as f64 / 10f64.powi(second.scale as i32);
    let magnitude = major as f64 + minor as f64 / 60.0 + seconds / 3600.0;
    match sign {
        Sign::Positive => magnitude,
        Sign::Negative => -magnitude,
    }
}

fn degrees_of(angle: Angle) -> f64 {
    let t = angle.to_deg().unwrap();
    triple(t.0, t.1, t.2, t.3)
}

fn hours_of(angle: Angle) -> f64 {
    let t = angle.to_hr().unwrap();
    triple(t.0, t.1, t.2, t.3)
}

fn radians_of(angle: Angle) -> f64 {
    let x = angle.to_rad().unwrap();
    let magnitude = x.mantissa as f64 / 10f64.powi(x.scale as i32);
    if x.negative {
        -magnitude
    } else {
        magnitude
    }
}

fn close(a: f64, b: f64) -> bool {
    (a - b).abs() <= 1e-9
}

/// Whether two triples have the same sign, whole units and minutes, and seconds
/// of the same value, however many digits those are written with.
fn same(a: (Sign, u32, u32, Decimal), b: (Sign, u32, u32, Decimal)) -> bool {
    a.0 == b.0
        && a.1 == b.1
        && a.2 == b.2
        && a.3.negative == b.3.negative
        && a.3.mantissa as u128 * 10u128.pow(b.3.scale as u32)
            == b.3.mantissa as u128 * 10u128.pow(a.3.scale as u32)
}

fn dms(angle: Angle) -> (Sign, u32, u32, Decimal) {
    let t = angle.to_deg().unwrap();
    (t.0, t.1, t.2, t.3)
}

fn hms(angle: Angle) -> (Sign, u32, u32, Decimal) {
    let t = angle.to_hr().unwrap();
    (t.0, t.1, t.2, t.3)
}

/// The digits of the double nearest π.
const PI: &str = "3.141592653589793";
/// The digits of the doubles nearest π/2, π/3, π/4 and π/6.
const PI_HALF: &str = "1.5707963267948966";
const PI_THIRD: &str = "1.0471975511965976";
const PI_FOURTH: &str = "0.7853981633974483";
const PI_SIXTH: &str = "0.5235987755982988";

#[test]
fn angle_enum() {
    let degree = |text: &str| Angle::degrees(dec(text)).unwrap();
    let hour = |text: &str| Angle::hours(dec(text)).unwrap();
    let radian = |text: &str| Angle::radians(dec(text));
    // converting between types
    assert!(close(degrees_of(degree("90.0")), degrees_of(radian(PI_HALF))));
    assert!(close(degrees_of(degree("90.0")), degrees_of(hour("6.0"))));
    assert!(close(degrees_of(hour("6.0")), degrees_of(radian(PI_HALF))));
    assert!(close(degrees_of(hour("6.0")), degrees_of(degree("90.0"))));
    assert!(close(degrees_of(radian(PI_HALF)), degrees_of(hour("6.0"))));
    assert!(close(degrees_of(radian(PI_HALF)), degrees_of(degree("90.0"))));
    assert_eq!(degrees_of(degree("90.0")), 90.0);
    assert_eq!(degrees_of(hour("6.0")), 90.0);
    // the other angles of the table, in all three units
    for (d, h, r) in [
        ("0.0", "0.0", "0.0"),
        ("30.0", "2.0", PI_SIXTH),
        ("45.0", "3.0", PI_FOURTH),
        ("60.0", "4.0", PI_THIRD),
        ("90.0", "6.0", PI_HALF),
    ] {
        let expected: f64 = d.parse().unwrap();
        for angle in [degree(d), hour(h), radian(r)] {
            assert!(close(degrees_of(angle), expected), "{:?}", angle);
            assert!(close(hours_of(angle), expected / 15.0), "{:?}", angle);
            assert!(close(radians_of(angle), expected.to_radians()), "{:?}", angle);
        }
    }
}

#[test]
fn arc_min_sec() {
    let degree = |text: &str| Angle::degrees(dec(text)).unwrap();
    let hour = |text: &str| Angle::hours(dec(text)).unwrap();
    let radian = |text: &str| Angle::radians(dec(text));
    // DegMinSec
    assert!(same(dms(degree("0.0")), (Sign::Positive, 0, 0, dec("0.0"))));
    assert!(same(dms(degree("-0.0")), (Sign::Negative, 0, 0, dec("0.0"))));
    assert!(same(dms(degree("180.0")), (Sign::Positive, 180, 0, dec("0.0"))));
    assert!(same(dms(radian("0.0")), (Sign::Positive, 0, 0, dec("0.0"))));
    assert!(same(dms(radian("-0.0")), (Sign::Negative, 0, 0, dec("0.0"))));
    assert!(same(dms(radian(PI)), (Sign::Positive, 180, 0, dec("0.0"))));
    assert!(same(dms(hour("12.0")), (Sign::Positive, 180, 0, dec("0.0"))));
    // HourMinSec
    assert!(same(hms(degree("0.0")), (Sign::Positive, 0, 0, dec("0.0"))));
    assert!(same(hms(degree("-0.0")), (Sign::Negative, 0, 0, dec("0.0"))));
    assert!(same(hms(hour("12.0")), (Sign::Positive, 12, 0, dec("0.0"))));
    assert!(same(hms(radian("0.0")), (Sign::Positive, 0, 0, dec("0.0"))));
    assert!(same(hms(radian("-0.0")), (Sign::Negative, 0, 0, dec("0.0"))));
    assert!(same(hms(radian(PI)), (Sign::Positive, 12, 0, dec("0.0"))));
    assert!(same(hms(degree("180.0")), (Sign::Positive, 12, 0, dec("0.0"))));
}

#[test]
fn angle_to_ams_values() {
    assert_eq!(
        DegMinSec::angle_to_ams(dec("180.0")),
        Ok(DegMinSec(Sign::Positive, 180, 0, dec("0.0")))
    );
    assert_eq!(
        DegMinSec::angle_to_ams(dec("-0.0")),
        Ok(DegMinSec(Sign::Negative, 0, 0, dec("0.0")))
    );
    assert_eq!(
        HourMinSec::angle_to_ams(dec("12.0")),
        Ok(HourMinSec(Sign::Positive, 12, 0, dec("0.0")))
    );
    assert_eq!(
        HourMinSec::angle_to_ams(dec("23.9975")),
        Ok(HourMinSec(Sign::Positive, 23, 59, dec("51.0000")))
    );
    assert_eq!(DegMinSec::angle_to_ams(dec("4294967296")), Err(Error::RangeViolation));
    assert_eq!(HourMinSec::angle_to_ams(dec("4294967296")), Err(Error::RangeViolation));
}

/// A decimal of more places than text is read with.
fn fine(mantissa: u64, scale: u16) -> Decimal {
    Decimal { negative: false, mantissa, scale }
}

#[test]
fn conversions_between_degrees_and_hours() {
    let degree = |text: &str| Angle::degrees(dec(text)).unwrap();
    let hour = |text: &str| Angle::hours(dec(text)).unwrap();
    // Ninety degrees are six hours.
    assert_eq!(degree("90").to_deg(), hour("6").to_deg());
    assert!(same(hms(degree("90")), hms(hour("6"))));
    assert_eq!(hour("6").to_deg(), Ok(DegMinSec(Sign::Positive, 90, 0, dec("0"))));
    // 1 h 2 min 3.4 s = 15 degrees 30 minutes 51 seconds, with the digits kept
    assert_eq!(
        Angle::Hour(HourMinSec(Sign::Negative, 1, 2, dec("3.4"))).to_deg(),
        Ok(DegMinSec(Sign::Negative, 15, 30, dec("51.0")))
    );
    // and back, written with seventeen places
    assert_eq!(
        Angle::Degree(DegMinSec(Sign::Negative, 15, 30, dec("51.0"))).to_hr(),
        Ok(HourMinSec(Sign::Negative, 1, 2, dec("3.40000000000000000")))
    );
    // A fifteenth of 0.1 arc second has no end in decimal digits.
    assert_eq!(
        Angle::Degree(DegMinSec(Sign::Positive, 0, 0, dec("0.1"))).to_hr(),
        Ok(HourMinSec(Sign::Positive, 0, 0, fine(6_666_666_666_666_667, 18)))
    );
    assert_eq!(
        Angle::Degree(DegMinSec(Sign::Positive, 0, 0, dec("0.15"))).to_hr(),
        Ok(HourMinSec(Sign::Positive, 0, 0, dec("0.01000000000000000")))
    );
    // A small angle keeps sixteen digits: a fifteenth of 0.000001 arc second.
    assert_eq!(
        Angle::Degree(DegMinSec(Sign::Positive, 0, 0, dec("0.000001"))).to_hr(),
        Ok(HourMinSec(Sign::Positive, 0, 0, fine(6_666_666_666_666_667, 23)))
    );
    assert_eq!(
        Angle::Degree(DegMinSec(Sign::Negative, 0, 0, dec("0.00000000000000001"))).to_hr(),
        Ok(HourMinSec(Sign::Negative, 0, 0, fine(6_666_666_666_666_667, 34)))
    );
    // and fifteen times that many hours are degrees again
    assert_eq!(
        Angle::Hour(HourMinSec(Sign::Positive, 0, 0, fine(6_666_666_666_666_667, 23)))
            .to_deg(),
        Ok(DegMinSec(Sign::Positive, 0, 0, fine(1_000_000_000_000_000, 21)))
    );
    // 300 000 000 hours are more degrees than fit.
    assert_eq!(hour("300000000").to_deg(), Err(Error::RangeViolation));
    assert_eq!(
        hour("286331153").to_deg(),
        Ok(DegMinSec(Sign::Positive, 4294967295, 0, dec("0")))
    );
    assert!(same(hms(degree("4294967295")), (Sign::Positive, 286331153, 0, dec("0"))));
    // Hours that became degrees become the same hours again.
    let hours = HourMinSec(Sign::Negative, 1, 2, dec("3.4"));
    let degrees = Angle::Hour(hours).to_deg().unwrap();
    assert_eq!(Angle::Hour(Angle::Degree(degrees).to_hr().unwrap()), Angle::Hour(hours));
    // Whatever is converted exactly is still the same angle.
    for angle in [degree("12.5"), hour("-3.25"), degree("0"), hour("23.999"), degree("-180")] {
        assert_eq!(Angle::Degree(angle.to_deg().unwrap()), angle);
        assert_eq!(Angle::Hour(angle.to_hr().unwrap()), angle);
    }
    // Zero keeps its sign and its digits.
    assert_eq!(degree("-0.00").to_hr(), Ok(HourMinSec(Sign::Negative, 0, 0, dec("0.00"))));
}

#[test]
fn conversions_with_radian() {
    let degree = |text: &str| Angle::degrees(dec(text)).unwrap();
    let hour = |text: &str| Angle::hours(dec(text)).unwrap();
    let radian = |text: &str| Angle::radians(dec(text));
    // Radian stay as they are.
    assert_eq!(radian("1.5").to_rad(), Ok(dec("1.5")));
    assert_eq!(radian("-0.250").to_rad(), Ok(dec("-0.250")));
    // 1.5 radian are 85 degrees 56 minutes 37.2093706445 seconds, to the
    // sixteen digits that are kept.
    assert_eq!(
        radian("1.5").to_deg(),
        Ok(DegMinSec(Sign::Positive, 85, 56, dec("37.20937064450000000")))
    );
    assert_eq!(
        radian("-1.5").to_hr(),
        Ok(HourMinSec(Sign::Negative, 5, 43, dec("46.48062470964000000")))
    );
    // The double nearest π is half a turn to sixteen digits.
    assert_eq!(
        radian(PI).to_deg(),
        Ok(DegMinSec(Sign::Positive, 180, 0, dec("0.00000000000000000")))
    );
    assert_eq!(
        radian(PI).to_hr(),
        Ok(HourMinSec(Sign::Positive, 12, 0, dec("0.00000000000000000")))
    );
    assert_eq!(degree("180").to_rad(), Ok(dec(PI)));
    assert_eq!(hour("12").to_rad(), Ok(dec(PI)));
    assert_eq!(degree("-180.000").to_rad(), Ok(dec("-3.141592653589793")));
    // So is π to seventeen places.
    assert_eq!(
        radian("3.14159265358979323").to_deg(),
        Ok(DegMinSec(Sign::Positive, 180, 0, dec("0.00000000000000000")))
    );
    // One degree, one hour, a quarter turn.
    assert_eq!(degree("1").to_rad(), Ok(dec("0.01745329251994330")));
    assert_eq!(hour("1").to_rad(), Ok(dec("0.2617993877991494")));
    assert_eq!(degree("15").to_rad(), hour("1").to_rad());
    assert_eq!(degree("90").to_rad(), Ok(dec("1.570796326794897")));
    assert_eq!(hour("6").to_rad(), Ok(dec("1.570796326794897")));
    // Small angles keep sixteen digits.
    assert_eq!(
        radian("0.00000000000000001").to_deg(),
        Ok(DegMinSec(Sign::Positive, 0, 0, fine(2_062_648_062_470_964, 27)))
    );
    assert_eq!(
        radian("0.0000000000001").to_deg(),
        Ok(DegMinSec(Sign::Positive, 0, 0, fine(2_062_648_062_470_964, 23)))
    );
    assert_eq!(
        Angle::Degree(DegMinSec(Sign::Positive, 0, 0, dec("0.1"))).to_rad(),
        Ok(fine(4_848_136_811_095_360, 22))
    );
    assert_eq!(
        Angle::Degree(DegMinSec(Sign::Positive, 0, 0, dec("0.00000000000000001"))).to_rad(),
        Ok(fine(4_848_136_811_095_360, 38))
    );
    assert_eq!(
        Angle::Hour(HourMinSec(Sign::Positive, 0, 0, dec("0.001"))).to_rad(),
        Ok(fine(7_272_205_216_643_040, 23))
    );
    // 0.1 arc second in radian and back is 0.1 arc second.
    let small = Angle::Degree(DegMinSec(Sign::Positive, 0, 0, dec("0.1")));
    assert_eq!(
        Angle::Radian(small.to_rad().unwrap()).to_deg(),
        Ok(DegMinSec(Sign::Positive, 0, 0, dec("0.10000000000000000")))
    );
    // Zero keeps its sign and its digits.
    assert_eq!(degree("-0.00").to_rad(), Ok(dec("-0.00")));
    assert_eq!(hour("0").to_rad(), Ok(dec("0")));
    assert_eq!(radian("-0.0").to_deg(), Ok(DegMinSec(Sign::Negative, 0, 0, dec("0.0"))));
    // Large angles keep sixteen digits too.
    assert_eq!(degree("1000000").to_rad(), Ok(dec("17453.29251994330")));
    assert_eq!(degree("4294967295").to_rad(), Ok(dec("74961320.56322459")));
    assert_eq!(
        radian("1000000").to_deg(),
        Ok(DegMinSec(Sign::Positive, 57295779, 30, dec("47.09640000000000000")))
    );
    // More radian than there are degrees in 32 bits.
    assert_eq!(radian("74961321").to_deg(), Err(Error::RangeViolation));
    assert!(radian("74961320").to_deg().is_ok());
    assert!(radian("74961321").to_hr().is_ok());
    assert_eq!(radian("18446744073709551615").to_deg(), Err(Error::RangeViolation));
    assert_eq!(radian("18446744073709551615").to_hr(), Err(Error::RangeViolation));
    // Small angles keep sixteen digits as well, far below what a double holds.
    let tiny = Angle::Degree(DegMinSec(Sign::Positive, 0, 0, fine(1, 250)));
    assert!(tiny.is_valid());
    assert_eq!(tiny.to_rad(), Ok(fine(4_848_136_811_095_360, 271)));
    assert_eq!(
        tiny.to_hr(),
        Ok(HourMinSec(Sign::Positive, 0, 0, fine(6_666_666_666_666_667, 267)))
    );
    assert_eq!(
        Angle::Radian(fine(1, 255)).to_deg(),
        Ok(DegMinSec(Sign::Positive, 0, 0, fine(2_062_648_062_470_964, 265)))
    );
    assert_eq!(
        Angle::Radian(fine(5, 324)).to_deg(),
        Ok(DegMinSec(Sign::Positive, 0, 0, fine(1_031_324_031_235_482, 333)))
    );
    // Less than can be written at all.
    let least = Angle::Degree(DegMinSec(Sign::Positive, 0, 0, fine(1, 65535)));
    assert!(least.is_valid());
    assert_eq!(least.to_rad(), Err(Error::RangeViolation));
    assert_eq!(least.to_hr(), Err(Error::RangeViolation));
    assert_eq!(Angle::Radian(fine(1, 65535)).to_deg(), Err(Error::RangeViolation));
    assert_eq!(
        Angle::Radian(fine(1, 65520)).to_deg(),
        Ok(DegMinSec(Sign::Positive, 0, 0, fine(2_062_648_062_470_964, 65530)))
    );
}

#[test]
fn conversions_within_rounding() {
    let radian = |text: &str| Angle::radians(dec(text));
    for text in [
        "0.00000000000000001", "0.0000000000001", "0.000000001", "0.001", "0.25", "1", "1.5",
        "2.718281828", "6.283185307179586", "1000000",
    ] {
        let x: f64 = text.parse().unwrap();
        let degrees = degrees_of(radian(text));
        assert!((degrees - x.to_degrees()).abs() <= 1e-12 * x.to_degrees(), "{}", text);
        let hours = hours_of(radian(text));
        assert!((15.0 * hours - degrees).abs() <= 1e-12 * degrees, "{}", text);
        let back = radians_of(Angle::Degree(radian(text).to_deg().unwrap()));
        assert!((back - x).abs() <= 1e-12 * x, "{}", text);
        let back = radians_of(Angle::Hour(radian(text).to_hr().unwrap()));
        assert!((back - x).abs() <= 1e-12 * x, "{}", text);
    }
    for text in [
        "0.00000000000000001", "0.000000000277", "0.0000277", "0.5", "12.5", "90", "359.999",
        "1000000",
    ] {
        let v: f64 = text.parse().unwrap();
        let degree = Angle::degrees(dec(text)).unwrap();
        let hour = Angle::hours(dec(text)).unwrap();
        assert!((radians_of(degree) - v.to_radians()).abs() <= 1e-12 * v.to_radians(), "{}", text);
        assert!((radians_of(hour) - (15.0 * v).to_radians()).abs() <= 1e-12 * v);
        assert!((hours_of(degree) - v / 15.0).abs() <= 1e-12 * v / 15.0, "{}", text);
        assert!(
            (hours_of(hour) * std::f64::consts::PI / 12.0 - radians_of(hour)).abs()
                <= 1e-12 * radians_of(hour)
        );
        let back = degrees_of(Angle::Radian(degree.to_rad().unwrap()));
        assert!((back - v).abs() <= 1e-12 * v, "{}", text);
        let back = degrees_of(Angle::Hour(degree.to_hr().unwrap()));
        assert!((back - v).abs() <= 1e-12 * v, "{}", text);
    }
}

#[test]
fn round_trips_at_every_size() {
    // 1.234567 arc seconds, and as many divided by a power of ten, go to
    // radian and to hours and come back with their digits, whatever the power.
    for scale in [6u16, 7, 8, 16, 17, 18, 19, 30, 100, 323, 1000, 65000] {
        let there = Angle::Degree(DegMinSec(Sign::Negative, 0, 0, fine(1_234_567, scale)));
        assert!(there.is_valid(), "{}", scale);
        let radian = there.to_rad().unwrap();
        assert!(radian.negative);
        // 1.234567 arc seconds are 5.985349718463565e-6 radian.
        assert_eq!(radian.mantissa, 5_985_349_718_463_565, "{}", scale);
        assert_eq!(radian.scale, scale + 15, "{}", scale);
        let back = Angle::Radian(radian).to_deg().unwrap();
        assert_eq!((back.0, back.1, back.2), (Sign::Negative, 0, 0), "{}", scale);
        let (digits, places) = (back.3.mantissa as i128, back.3.scale);
        let lift = 10i128.pow((places - scale) as u32);
        assert!((digits - 1_234_567 * lift).abs() * 100_000_000_000_000 <= digits, "{}", scale);
        let hours = there.to_hr().unwrap();
        assert_eq!((hours.0, hours.1, hours.2), (Sign::Negative, 0, 0), "{}", scale);
        let back = Angle::Hour(hours).to_deg().unwrap();
        assert_eq!((back.0, back.1, back.2), (Sign::Negative, 0, 0), "{}", scale);
        let (digits, places) = (back.3.mantissa as i128, back.3.scale);
        let lift = 10i128.pow((places - scale) as u32);
        assert!((digits - 1_234_567 * lift).abs() * 100_000_000_000_000 <= digits, "{}", scale);
    }
}

#[test]
fn every_angle_has_radian() {
    let most = Angle::Degree(DegMinSec(Sign::Positive, u32::MAX, 59, dec("59.99999999999999999")));
    assert_eq!(most.to_rad(), Ok(dec("74961320.58067788")));
    assert_eq!(
        most.to_hr(),
        Ok(HourMinSec(Sign::Positive, 286331153, 4, dec("0.00000000000000000")))
    );
    let most = Angle::Hour(HourMinSec(Sign::Positive, u32::MAX, 59, dec("59.99999999999999999")));
    assert_eq!(most.to_rad(), Ok(dec("1124419808.710168")));
    assert_eq!(most.to_deg(), Err(Error::RangeViolation));
    let least = Angle::Hour(HourMinSec(Sign::Positive, 0, 0, fine(1, 65500)));
    assert_eq!(least.to_rad(), Ok(fine(7_272_205_216_643_040, 65520)));
    assert!(least.to_deg().is_ok());
    let million = Angle::radians(dec("1000000"));
    assert!(million.to_deg().is_ok() && million.to_hr().is_ok());
}

#[test]
fn negative_zero_is_negative() {
    assert_eq!(
        decimal_to_sexagesimal(dec("-0.0")),
        Ok((Sign::Negative, 0, 0, dec("0.0")))
    );
    assert_eq!(
        decimal_to_sexagesimal(dec("0.0")),
        Ok((Sign::Positive, 0, 0, dec("0.0")))
    );
    assert_eq!(
        decimal_to_sexagesimal(dec("-0")),
        Ok((Sign::Negative, 0, 0, dec("0")))
    );
}

#[test]
fn decimal_to_sexagesimal_values() {
    // 1.08901332 degree = 1 degree + 5 minutes + 20.447952 seconds
    assert_eq!(
        decimal_to_sexagesimal(dec("1.08901332")),
        Ok((Sign::Positive, 1, 5, dec("20.44795200")))
    );
    // 12.5 = 12 + 30/60
    assert_eq!(
        decimal_to_sexagesimal(dec("-12.5")),
        Ok((Sign::Negative, 12, 30, dec("0.0")))
    );
    // 0.999 = 59 minutes + 56.4 seconds
    assert_eq!(
        decimal_to_sexagesimal(dec("0.999")),
        Ok((Sign::Positive, 0, 59, dec("56.400")))
    );
    assert_eq!(
        decimal_to_sexagesimal(dec("4294967295.99")),
        Ok((Sign::Positive, 4294967295, 59, dec("24.00")))
    );
    assert_eq!(decimal_to_sexagesimal(dec("4294967296")), Err(Error::RangeViolation));
    assert_eq!(
        decimal_to_sexagesimal(dec("-18446744073709551615")),
        Err(Error::RangeViolation)
    );
}

#[test]
fn sexagesimal_to_decimal_values() {
    // 1 + 5/60 + 20.4/3600 = 3920.4/3600
    assert_eq!(
        sexagesimal_to_decimal(Sign::Positive, 1, 5, dec("20.4")),
        Ratio { negative: false, numerator: 39204, denominator: 36000 }
    );
    assert_eq!(
        sexagesimal_to_decimal(Sign::Negative, 0, 0, dec("0")),
        Ratio { negative: true, numerator: 0, denominator: 3600 }
    );
    assert_eq!(
        HourMinSec(Sign::Positive, 23, 59, dec("59.99")).to_decimal(),
        Ratio { negative: false, numerator: 8639999, denominator: 360000 }
    );
    assert_eq!(
        DegMinSec(Sign::Negative, 48, 48, dec("35.492919")).to_decimal(),
        Ratio { negative: true, numerator: 175715492919, denominator: 3600000000 }
    );
}

#[test]
fn sexagesimal_round_trip() {
    for text in [
        "0", "-0", "0.5", "1.08901332", "-48.8098591441", "35.99999999999999999",
        "0.00000000000000001", "23.9999", "4294967295.999", "-90.0", "184467.44073709551615",
    ] {
        let x = dec(text);
        let (sign, major, minor, second) = decimal_to_sexagesimal(x).unwrap();
        assert!(minor < 60);
        assert!(second.mantissa < 60 * power_of_ten(second.scale));
        let back = sexagesimal_to_decimal(sign, major, minor, second);
        assert_eq!(back.negative, x.negative);
        assert_eq!(
            back.numerator * power_of_ten(x.scale) as u128,
            x.mantissa as u128 * back.denominator
        );
        let expected: f64 = text.parse().unwrap();
        assert!((float(back) - expected).abs() <= 1e-9 * expected.abs().max(1.0));
    }
}

#[test]
fn powers_of_ten() {
    assert_eq!(power_of_ten(0), 1);
    assert_eq!(power_of_ten(1), 10);
    assert_eq!(power_of_ten(MAX_SCALE), 100_000_000_000_000_000);
}

#[test]
fn decimal_constructors() {
    assert_eq!(
        Decimal::new(false, 15, 17),
        Some(Decimal { negative: false, mantissa: 15, scale: 17 })
    );
    assert_eq!(Decimal::new(false, 15, 18), None);
}

#[test]
fn signs() {
    assert!(Sign::Negative.is_negative());
    assert!(!Sign::Positive.is_negative());
    assert_eq!(Sign::from_flag(true), Sign::Negative);
    assert_eq!(Sign::from_flag(false), Sign::Positive);
}

#[test]
fn angle_constructors() {
    assert_eq!(
        Angle::degrees(dec("91.0")),
        Ok(Angle::Degree(DegMinSec(Sign::Positive, 91, 0, dec("0.0"))))
    );
    assert_eq!(
        Angle::hours(dec("-6.25")),
        Ok(Angle::Hour(HourMinSec(Sign::Negative, 6, 15, dec("0.00"))))
    );
    assert_eq!(Angle::degrees(dec("4294967296")), Err(Error::RangeViolation));
    assert_eq!(Angle::hours(dec("4294967296")), Err(Error::RangeViolation));
    assert_eq!(Angle::radians(dec("1.5")), Angle::Radian(dec("1.5")));
    let t = DegMinSec(Sign::Positive, 1, 2, dec("3"));
    assert_eq!(Angle::from(t), Angle::Degree(t));
    let t = HourMinSec(Sign::Positive, 1, 2, dec("3"));
    assert_eq!(Angle::from(t), Angle::Hour(t));
}

#[test]
fn triple_limits() {
    assert!(triple_is_at_most(90, 0, dec("0.000"), 90));
    assert!(!triple_is_at_most(90, 0, dec("0.001"), 90));
    assert!(!triple_is_at_most(90, 1, dec("0"), 90));
    assert!(triple_is_at_most(89, 59, dec("59.99999999999999999"), 90));
    assert!(!triple_is_at_most(91, 0, dec("0"), 90));
    assert!(triple_is_at_most(0, 0, dec("0"), 0));
    assert!(!triple_is_at_most(0, 0, dec("0.1"), 0));
}

#[test]
fn angles_are_equal_across_units() {
    let degree = |text: &str| Angle::degrees(dec(text)).unwrap();
    let hour = |text: &str| Angle::hours(dec(text)).unwrap();
    let radian = |text: &str| Angle::radians(dec(text));
    // One hour is fifteen degrees.
    assert_eq!(degree("90"), hour("6"));
    assert_eq!(hour("6.0"), degree("90.000"));
    assert_eq!(degree("15.5"), Angle::Hour(HourMinSec(Sign::Positive, 1, 2, dec("0"))));
    // A quarter of a degree is one minute of time.
    assert_eq!(degree("-0.25"), Angle::Hour(HourMinSec(Sign::Negative, 0, 1, dec("0.0"))));
    assert_ne!(degree("90"), hour("6.00000000000000001"));
    assert_ne!(degree("90"), hour("-6"));
    // The digits written do not matter, the number does.
    assert_eq!(degree("1.5"), degree("1.50000"));
    assert_eq!(radian("0.5"), radian("0.50"));
    assert_ne!(radian("0.5"), radian("0.51"));
    assert_ne!(radian("0.5"), radian("-0.5"));
    // Zero is zero.
    assert_eq!(degree("0"), degree("-0.0"));
    assert_eq!(degree("-0"), hour("0"));
    assert_eq!(radian("0.000"), degree("-0"));
    assert_eq!(radian("-0"), radian("0"));
    // π is 180 degrees and 12 hours, to the sixteen digits of a conversion.
    assert_eq!(radian("3.14159265358979323"), degree("180"));
    assert_eq!(radian("3.141592653589793"), degree("180"));
    assert_eq!(hour("12.0"), radian("3.141592653589793"));
    assert_eq!(radian("-3.14159265358979323"), degree("-180.00"));
    assert_eq!(radian("3.141592653589793"), radian("3.14159265358979323"));
    assert_ne!(radian("-3.14159265358979323"), degree("180"));
    assert_ne!(radian("3.14159265358979"), degree("180"));
    // Radian and degrees of other numbers are other angles.
    assert_ne!(radian("1.5"), degree("1.5"));
    assert_ne!(degree("0.00000000000000001"), radian("0.00000000000000001"));
}

#[test]
fn angles_that_are_not_valid_are_equal_when_written_alike() {
    let sixty_minutes = Angle::Degree(DegMinSec(Sign::Positive, 0, 60, dec("0")));
    assert!(!sixty_minutes.is_wf());
    assert!(!sixty_minutes.is_valid());
    assert_eq!(sixty_minutes, sixty_minutes);
    assert_ne!(sixty_minutes, Angle::degrees(dec("1")).unwrap());
    assert_ne!(sixty_minutes, Angle::Hour(HourMinSec(Sign::Positive, 0, 60, dec("0"))));
    // Seconds of more than seventeen places stand alone.
    let minute = Angle::Degree(DegMinSec(Sign::Positive, 0, 1, fine(1, 18)));
    assert!(!minute.is_valid());
    assert_eq!(minute, minute);
    assert_ne!(minute, Angle::Degree(DegMinSec(Sign::Positive, 0, 1, fine(10, 19))));
    assert!(Angle::degrees(dec("12.5")).unwrap().is_wf());
    assert!(Angle::degrees(dec("12.5")).unwrap().is_valid());
}

#[test]
fn angles_of_many_places() {
    // A small angle may be written with more than seventeen places.
    let long = Angle::Radian(fine(1, 18));
    assert!(!long.is_wf());
    assert!(long.is_valid());
    assert_eq!(long, Angle::Radian(fine(10, 19)));
    assert_ne!(long, Angle::Radian(fine(11, 19)));
    let small = Angle::Degree(DegMinSec(Sign::Positive, 0, 0, fine(5, 30)));
    assert!(small.is_valid());
    assert_eq!(small, Angle::Degree(DegMinSec(Sign::Positive, 0, 0, fine(500, 32))));
    assert_ne!(small, Angle::Degree(DegMinSec(Sign::Negative, 0, 0, fine(5, 30))));
    // A fifteenth of an arc second of time: 1e-30 hour seconds are 1.5e-29 arc seconds.
    assert_eq!(
        Angle::Hour(HourMinSec(Sign::Positive, 0, 0, fine(1, 30))),
        Angle::Degree(DegMinSec(Sign::Positive, 0, 0, fine(15, 30)))
    );
}

#[test]
fn angles_on_the_grid() {
    // What is well formed is on the grid already.
    let plain = Angle::degrees(dec("12.5")).unwrap();
    assert_eq!(plain.to_grid(), plain);
    match Angle::Radian(dec("1.50")).to_grid() {
        Angle::Radian(x) => assert_eq!(x, dec("1.50")),
        other => panic!("{:?}", other),
    }
    // More than seventeen places are cut down to seventeen.
    match Angle::Radian(fine(123_456_789, 20)).to_grid() {
        Angle::Radian(x) => assert_eq!(x, fine(123_456, 17)),
        other => panic!("{:?}", other),
    }
    match Angle::Degree(DegMinSec(Sign::Negative, 0, 0, fine(19, 18))).to_grid() {
        Angle::Degree(t) => assert_eq!(t, DegMinSec(Sign::Negative, 0, 0, fine(1, 17))),
        other => panic!("{:?}", other),
    }
    match Angle::Hour(HourMinSec(Sign::Positive, 0, 0, fine(5, 300))).to_grid() {
        Angle::Hour(t) => assert_eq!(t, HourMinSec(Sign::Positive, 0, 0, fine(0, 17))),
        other => panic!("{:?}", other),
    }
    assert!(Angle::Radian(fine(u64::MAX, 65535)).to_grid().is_wf());
}

#[test]
fn sums_of_angles_of_many_places() {
    let second = Angle::Degree(DegMinSec(Sign::Positive, 0, 0, dec("1")));
    let small = Angle::Degree(DegMinSec(Sign::Positive, 0, 0, fine(15, 18)));
    // The small angle comes into the sum by its first seventeen places.
    match (second + small).unwrap() {
        Angle::Degree(t) => {
            assert_eq!(t, DegMinSec(Sign::Positive, 0, 0, dec("1.00000000000000001")))
        }
        other => panic!("{:?}", other),
    }
    match (second - small).unwrap() {
        Angle::Degree(t) => {
            assert_eq!(t, DegMinSec(Sign::Positive, 0, 0, dec("0.99999999999999999")))
        }
        other => panic!("{:?}", other),
    }
    // What a conversion gave can be added to.
    let converted = Angle::Degree(Angle::Radian(dec("0.0000000000001")).to_deg().unwrap());
    assert!(!converted.is_wf());
    match (converted + second).unwrap() {
        Angle::Degree(t) => {
            assert_eq!(t, DegMinSec(Sign::Positive, 0, 0, dec("1.00000002062648062")))
        }
        other => panic!("{:?}", other),
    }
    match (Angle::Radian(fine(25, 19)) + Angle::Radian(dec("1.5"))).unwrap() {
        Angle::Radian(x) => assert_eq!(x, dec("1.50000000000000000")),
        other => panic!("{:?}", other),
    }
}

#[test]
fn sums_and_differences() {
    let degree = |text: &str| Angle::degrees(dec(text)).unwrap();
    let hour = |text: &str| Angle::hours(dec(text)).unwrap();
    let radian = |text: &str| Angle::radians(dec(text));
    assert_eq!(degree("10.5") + degree("0.25"), Ok(degree("10.75")));
    assert_eq!(degree("10.5") - degree("0.25"), Ok(degree("10.25")));
    assert_eq!(degree("-1") + degree("0.5"), Ok(degree("-0.5")));
    assert_eq!(degree("0.5") - degree("1"), Ok(degree("-0.5")));
    assert_eq!(degree("-1") - degree("-1.5"), Ok(degree("0.5")));
    // Hours are added as degrees, fifteen to the hour.
    assert_eq!(hour("1") + degree("15"), Ok(degree("30")));
    assert_eq!(degree("15") + hour("1"), Ok(degree("30")));
    assert_eq!(hour("6") - degree("90"), Ok(degree("0")));
    assert_eq!(hour("1.5") + hour("0.5"), Ok(hour("2")));
    // Minutes and seconds carry.
    assert_eq!(
        (Angle::Degree(DegMinSec(Sign::Positive, 0, 59, dec("59.9")))
            + Angle::Degree(DegMinSec(Sign::Positive, 0, 0, dec("0.10"))))
        .unwrap()
        .to_deg(),
        Ok(DegMinSec(Sign::Positive, 1, 0, dec("0.00")))
    );
    assert_eq!(
        (Angle::Degree(DegMinSec(Sign::Positive, 1, 0, dec("0")))
            - Angle::Degree(DegMinSec(Sign::Positive, 0, 0, dec("0.001"))))
        .unwrap()
        .to_deg(),
        Ok(DegMinSec(Sign::Positive, 0, 59, dec("59.999")))
    );
    // Radian with radian.
    assert_eq!(radian("1.5") + radian("0.25"), Ok(radian("1.75")));
    assert_eq!(radian("1.5") - radian("2"), Ok(radian("-0.5")));
    assert_eq!(
        (radian("1.5") - radian("1.50")).unwrap().to_rad(),
        Ok(Decimal { negative: false, mantissa: 0, scale: 2 })
    );
    // Radian with degrees or hours: in degrees, the radian rounded down to a
    // part of an arc second.
    assert_eq!(
        (radian("1.5") + degree("1")).unwrap().to_deg(),
        Ok(DegMinSec(Sign::Positive, 86, 56, dec("37.20937064453356814")))
    );
    assert_eq!(
        (degree("1") - radian("1.5")).unwrap().to_deg(),
        Ok(DegMinSec(Sign::Negative, 84, 56, dec("37.20937064453356814")))
    );
    // Half a turn is π to seventeen places.
    assert_eq!(hour("12") - radian("3.14159265358979323"), Ok(degree("0")));
    assert_eq!(radian("3.14159265358979323") + hour("12"), Ok(degree("360")));
    assert_eq!(radian("0") + degree("1"), Ok(degree("1")));
    assert_eq!(radian("74961321") + degree("1"), Err(Error::RangeViolation));
    assert_eq!(hour("1") - radian("-0.0"), Ok(degree("15")));
    // What does not fit.
    assert_eq!(degree("4294967295") + degree("1"), Err(Error::RangeViolation));
    assert_eq!(degree("-4294967295.5") - degree("0.5"), Err(Error::RangeViolation));
    assert_eq!(hour("300000000") + degree("0"), Err(Error::RangeViolation));
    assert_eq!(
        radian("18446744073709551615") + radian("1"),
        Err(Error::RangeViolation)
    );
    assert_eq!(
        radian("18446744073709551615") - radian("1"),
        Ok(radian("18446744073709551614"))
    );
}

#[test]
fn the_sign_of_a_zero_sum() {
    let sign = |sum: Result<Angle, Error>| match sum.unwrap() {
        Angle::Degree(t) => t.0,
        other => panic!("{:?}", other),
    };
    let degree = |text: &str| Angle::degrees(dec(text)).unwrap();
    assert_eq!(sign(degree("1") - degree("1")), Sign::Positive);
    assert_eq!(sign(degree("-1") + degree("1")), Sign::Positive);
    assert_eq!(sign(degree("0") + degree("-0")), Sign::Positive);
    assert_eq!(sign(degree("-0") + degree("-0")), Sign::Negative);
    assert_eq!(sign(degree("-0") - degree("0")), Sign::Negative);
    assert_eq!(degree("-1.5").negated(), degree("1.5"));
    assert_eq!(Angle::radians(dec("2")).negated(), Angle::radians(dec("-2")));
}

#[test]
fn local_hour_angle() {
    // Sidereal time 18 h 41 min 50.54841 s, longitude 13.405 degrees east, right
    // ascension 6 h 45 min 8.9 s: 18:41:50.54841 + 0:53:37.2 - 6:45:08.9
    // = 12:50:18.84841, which is 192 degrees 34 minutes 42.72615 seconds.
    let time = Angle::Hour(HourMinSec(Sign::Positive, 18, 41, dec("50.54841")));
    let longitude = Angle::degrees(dec("13.405")).unwrap();
    let right_ascension = Angle::Hour(HourMinSec(Sign::Positive, 6, 45, dec("8.9")));
    let angle = ((time + longitude).unwrap() - right_ascension).unwrap();
    assert_eq!(angle.to_deg(), Ok(DegMinSec(Sign::Positive, 192, 34, dec("42.72615"))));
    assert_eq!(angle, Angle::Hour(HourMinSec(Sign::Positive, 12, 50, dec("18.84841"))));
}
