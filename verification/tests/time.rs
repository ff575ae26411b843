use chrono::{TimeZone, Utc};
use starstuff_types::angle::Angle;
use starstuff_types::number::{Decimal, Ratio, Sign};
use starstuff_types::sexagesimal::HourMinSec;
use starstuff_types::error::Error;
use starstuff_types::time::{
    earth_rotation_angle, earth_rotation_turns, month_length, CivilTime, JulianDate, GMST, J2000_SECONDS,
    ROTATION_DENOMINATOR,
};

fn days(jd: JulianDate) -> f64 {
    let r = jd.days();
    r.numerator as f64 / r.denominator as f64
}

fn float(r: Ratio) -> f64 {
    let magnitude = r.numerator as f64 / r.denominator as f64;
    if r.negative {
        -magnitude
    } else {
        magnitude
    }
}

#[test]
fn time_test_juliandate() {
    // Definition of J2000 epoch
    assert_eq!(
        days(JulianDate::from(Utc.with_ymd_and_hms(2000, 1, 1, 12, 0, 0).unwrap().naive_utc()).unwrap()),
        2451545.0
    );

    // 00:30:00.0 UT January 1, 2013, is 2_456_293.520_833
    let jd = days(JulianDate::from(Utc.with_ymd_and_hms(2013, 1, 1, 0, 30, 0).unwrap().naive_utc()).unwrap());
    assert!((jd - 2_456_293.520_833).abs() < 1e-6);
}

#[test]
fn util_test_juliandate() {
    assert_eq!(
        days(JulianDate::from_civil(CivilTime::new(2000, 1, 1, 12, 0, 0).unwrap()).unwrap()),
        2451545.0
    );
    assert_eq!(
        days(JulianDate::from(Utc.with_ymd_and_hms(2000, 1, 1, 12, 0, 0).unwrap().naive_utc()).unwrap()),
        2451545.0
    );
    assert!(
        (days(JulianDate::from_civil(CivilTime::new(2013, 1, 1, 0, 30, 0).unwrap()).unwrap())
            - 2_456_293.520_833)
            .abs()
            < 1e-6
    );
    assert!(
        (days(JulianDate::from(Utc.with_ymd_and_hms(2013, 1, 1, 0, 30, 0).unwrap().naive_utc()).unwrap())
            - 2_456_293.520_833)
            .abs()
            < 1e-6
    );
}

#[test]
fn julian_date_is_exact_in_seconds() {
    let j2000 = JulianDate::from_civil(CivilTime::new(2000, 1, 1, 12, 0, 0).unwrap()).unwrap();
    assert_eq!(j2000, JulianDate(J2000_SECONDS));
    assert_eq!(j2000.0, 2_451_545 * 86_400);
    let later = JulianDate::from_civil(CivilTime::new(2013, 1, 1, 0, 30, 0).unwrap()).unwrap();
    assert_eq!(later.0, 2_456_293 * 86_400 + 43_200 + 1_800);
}

#[test]
fn julian_date_around_march_1900() {
    // 1900 is no leap year: the day after 28 February is 1 March.
    let feb = JulianDate::from_civil(CivilTime::new(1900, 2, 28, 0, 0, 0).unwrap()).unwrap();
    let mar = JulianDate::from_civil(CivilTime::new(1900, 3, 1, 0, 0, 0).unwrap()).unwrap();
    assert_eq!(mar.0 - feb.0, 86_400);
    // 1900-01-01T00:00:00 is JD 2415020.5
    let jan = JulianDate::from_civil(CivilTime::new(1900, 1, 1, 0, 0, 0).unwrap()).unwrap();
    assert_eq!(jan.0, 2_415_020 * 86_400 + 43_200);
    // 1858-11-17T00:00:00 is JD 2400000.5
    let mjd = JulianDate::from_civil(CivilTime::new(1858, 11, 17, 0, 0, 0).unwrap()).unwrap();
    assert_eq!(mjd.0, 2_400_000 * 86_400 + 43_200);
}

#[test]
fn julian_date_agrees_with_the_calendar() {
    let unix = |t: CivilTime| {
        Utc.with_ymd_and_hms(t.year, t.month, t.day, t.hour, t.minute, t.second)
            .unwrap()
            .timestamp()
    };
    for (y, m, d, h, mi, s) in [
        (1801, 1, 1, 0, 0, 0),
        (1899, 12, 31, 23, 59, 59),
        (1900, 2, 28, 12, 0, 0),
        (1900, 3, 1, 0, 0, 0),
        (1970, 1, 1, 0, 0, 0),
        (2000, 2, 29, 6, 30, 15),
        (2024, 12, 31, 23, 59, 59),
        (2099, 12, 31, 23, 59, 59),
    ] {
        let t = CivilTime::new(y, m, d, h, mi, s).unwrap();
        let jd = JulianDate::from_civil(t).unwrap();
        assert_eq!(JulianDate::from(Utc.timestamp_opt(unix(t), 0).unwrap().naive_utc()), Ok(jd));
        // The Unix epoch is JD 2440587.5
        assert_eq!(jd.0 as i64, unix(t) + 2_440_587 * 86_400 + 43_200);
    }
}

#[test]
fn julian_date_unsupported_epoch() {
    assert_eq!(
        JulianDate::from_civil(CivilTime::new(1800, 12, 31, 23, 59, 59).unwrap()),
        Err(Error::UnsupportedEpoch)
    );
    assert_eq!(
        JulianDate::from_civil(CivilTime::new(2100, 1, 1, 0, 0, 0).unwrap()),
        Err(Error::UnsupportedEpoch)
    );
    assert!(JulianDate::from_civil(CivilTime::new(1801, 1, 1, 0, 0, 0).unwrap()).is_ok());
    assert!(JulianDate::from_civil(CivilTime::new(2099, 12, 31, 23, 59, 59).unwrap()).is_ok());
}

#[test]
fn civil_time_ranges() {
    assert!(CivilTime::new(2000, 0, 1, 0, 0, 0).is_none());
    assert!(CivilTime::new(2000, 13, 1, 0, 0, 0).is_none());
    assert!(CivilTime::new(2000, 1, 0, 0, 0, 0).is_none());
    assert!(CivilTime::new(2000, 1, 32, 0, 0, 0).is_none());
    assert!(CivilTime::new(2000, 1, 1, 24, 0, 0).is_none());
    assert!(CivilTime::new(2000, 1, 1, 0, 60, 0).is_none());
    assert!(CivilTime::new(2000, 1, 1, 0, 0, 60).is_none());
    assert!(CivilTime::new(2000, 12, 31, 23, 59, 59).is_some());
}

#[test]
fn civil_time_knows_the_months() {
    for (month, days) in [
        (1, 31), (2, 28), (3, 31), (4, 30), (5, 31), (6, 30), (7, 31), (8, 31), (9, 30),
        (10, 31), (11, 30), (12, 31),
    ] {
        assert!(CivilTime::new(2001, month, days, 0, 0, 0).is_some());
        assert!(CivilTime::new(2001, month, days + 1, 0, 0, 0).is_none());
        assert_eq!(month_length(2001, month), days);
    }
    // Leap years: every fourth year, of the centuries every fourth.
    for (year, days) in [
        (2000, 29), (2004, 29), (1900, 28), (2100, 28), (1904, 29), (2023, 28), (0, 29),
        (-4, 29), (-1, 28), (-100, 28), (-400, 29), (i32::MIN, 29), (i32::MAX, 28),
    ] {
        assert_eq!(month_length(year, 2), days, "{}", year);
        assert_eq!(
            chrono::NaiveDate::from_ymd_opt(year.clamp(-262_000, 262_000), 2, 29).is_some(),
            month_length(year.clamp(-262_000, 262_000), 2) == 29
        );
    }
    assert!(CivilTime::new(2001, 2, 31, 0, 0, 0).is_none());
}

#[test]
fn the_next_day_is_one_julian_day_later() {
    let mut date = chrono::NaiveDate::from_ymd_opt(1801, 1, 1).unwrap();
    let last = chrono::NaiveDate::from_ymd_opt(2099, 12, 31).unwrap();
    let civil = |d: chrono::NaiveDate| {
        CivilTime::new(chrono::Datelike::year(&d), chrono::Datelike::month(&d), chrono::Datelike::day(&d), 0, 0, 0).unwrap()
    };
    let mut before = JulianDate::from_civil(civil(date)).unwrap();
    while date < last {
        date = date.succ_opt().unwrap();
        let after = JulianDate::from_civil(civil(date)).unwrap();
        assert_eq!(after.0, before.0 + 86_400, "{}", date);
        before = after;
    }
}

#[test]
fn earth_rotation_at_j2000() {
    let era = earth_rotation_turns(JulianDate(J2000_SECONDS));
    assert_eq!(
        era,
        Ratio {
            negative: false,
            numerator: 77_905_727_326_400_000 * 86_400,
            denominator: ROTATION_DENOMINATOR,
        }
    );
    assert!((float(era) - 0.7790572732640).abs() < 1e-15);
}

#[test]
fn earth_rotation_one_day_later() {
    let era = earth_rotation_turns(JulianDate(J2000_SECONDS + 86_400));
    let turns = 0.7790572732640 + 1.00273781191135448;
    assert!((float(era) - turns).abs() < 1e-12);
    let before = earth_rotation_turns(JulianDate(J2000_SECONDS - 2 * 86_400));
    assert!(before.negative);
    assert!((float(before) - (0.7790572732640 - 2.0 * 1.00273781191135448)).abs() < 1e-12);
}

#[test]
fn earth_rotation_in_radian() {
    let radian = |mantissa: u64, scale: u16, negative: bool| {
        Angle::Radian(Decimal { negative, mantissa, scale })
    };
    // 2π * 0.7790572732640
    let at_epoch = earth_rotation_angle(JulianDate(J2000_SECONDS));
    assert_eq!(at_epoch, radian(4_894_961_212_823_757, 15, false));
    match at_epoch {
        Angle::Radian(x) => {
            assert_eq!(x, Decimal { negative: false, mantissa: 4_894_961_212_823_757, scale: 15 })
        }
        other => panic!("{:?}", other),
    }
    // 2π * (0.7790572732640 + 1.00273781191135448)
    assert_eq!(
        earth_rotation_angle(JulianDate(J2000_SECONDS + 86_400)),
        radian(1_119_534_869_957_859, 14, false)
    );
    // 2π * (0.7790572732640 - 2 * 1.00273781191135448)
    assert_eq!(
        earth_rotation_angle(JulianDate(J2000_SECONDS - 2 * 86_400)),
        radian(7_705_813_760_685_904, 15, true)
    );
    // The first and the last date that can be written.
    assert_eq!(earth_rotation_angle(JulianDate(0)), radian(1_544_567_854_625_516, 8, true));
    assert_eq!(
        earth_rotation_angle(JulianDate(u64::MAX)),
        radian(1_345_157_803_227_568, 0, false)
    );
}

#[test]
fn earth_rotation_in_radian_is_the_sidereal_time() {
    let jd = JulianDate::from_civil(CivilTime::new(2013, 1, 1, 0, 30, 0).unwrap()).unwrap();
    let era = earth_rotation_angle(jd);
    assert_eq!(
        era,
        Angle::Radian(Decimal { negative: false, mantissa: 2_992_241_620_014_078, scale: 11 })
    );
    // In hours the rotation is the sidereal time, to sixteen digits of its
    // four hundred million seconds.
    let gmst = match GMST::from(jd).unwrap().0 {
        Angle::Hour(t) => t,
        other => panic!("{:?}", other),
    };
    let hours = era.to_hr().unwrap();
    assert_eq!((hours.0, hours.1, hours.2), (gmst.0, gmst.1, gmst.2));
    let seconds = |d: Decimal| d.mantissa as f64 / 10f64.powi(d.scale as i32);
    assert!((seconds(hours.3) - seconds(gmst.3)).abs() < 1e-6);
}

#[test]
fn sidereal_time_at_j2000() {
    // 0.7790572732640 turn is 18 h 41 min 50.54841 s.
    let gmst = GMST::from(JulianDate(J2000_SECONDS)).unwrap();
    assert_eq!(
        gmst.0,
        Angle::Hour(HourMinSec(
            Sign::Positive,
            18,
            41,
            Decimal { negative: false, mantissa: 5_054_841_000_960_000_000, scale: 17 }
        ))
    );
    assert_eq!(
        gmst.0,
        Angle::Hour(HourMinSec(
            Sign::Positive,
            18,
            41,
            Decimal { negative: false, mantissa: 505_484_100_096, scale: 10 }
        ))
    );
}

#[test]
fn sidereal_time_is_the_rotation_in_hours() {
    let jd = JulianDate::from_civil(CivilTime::new(2013, 1, 1, 0, 30, 0).unwrap()).unwrap();
    let era = earth_rotation_turns(jd);
    let gmst = match GMST::from(jd).unwrap().0 {
        Angle::Hour(t) => t,
        other => panic!("{:?}", other),
    };
    // The hour angle has the parts of the rotation, over a denominator that is
    // twenty-four times smaller.
    let hours = gmst.to_decimal();
    assert_eq!(hours.numerator, era.numerator);
    assert_eq!(hours.denominator * 24, era.denominator);
    assert_eq!(hours.negative, era.negative);
    assert!((float(hours) - 24.0 * float(era)).abs() < 1e-6);
    let radian = std::f64::consts::TAU
        * (0.7790572732640 + 1.00273781191135448 * (jd.0 as f64 / 86_400.0 - 2451545.0));
    assert!((std::f64::consts::TAU * float(era) - radian).abs() < 1e-5);
}

#[test]
fn sidereal_time_before_j2000_is_negative() {
    let jd = JulianDate::from_civil(CivilTime::new(1801, 1, 1, 0, 0, 0).unwrap()).unwrap();
    match GMST::from(jd).unwrap().0 {
        Angle::Hour(t) => {
            assert_eq!(t.0, Sign::Negative);
            assert!(t.1 > 1_700_000 && t.1 < 1_800_000);
            assert!(t.2 < 60);
        }
        other => panic!("{:?}", other),
    }
}

#[test]
fn sidereal_time_out_of_range() {
    assert_eq!(GMST::from(JulianDate(u64::MAX)).err(), Some(Error::RangeViolation));
    assert_eq!(GMST::from(JulianDate(0)).err(), None);
}
