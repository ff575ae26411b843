use starstuff_types::angle::Angle;
use starstuff_types::number::{Decimal, Sign};
use starstuff_types::sexagesimal::{DegMinSec, HourMinSec};
use starstuff_types::catalog::util::parse_decimal;
use starstuff_types::coord::{
    Altitude, Azimuth, ConstrainedAngle, Declination, Equitorial, Geographic, Horizontal,
    Latitude, Longitude, RightAscension, ZenithAngle,
};
use starstuff_types::error::Error;
use starstuff_types::time::{CivilTime, JulianDate, GMST};

fn dec(text: &str) -> Decimal {
    parse_decimal(text.as_bytes()).unwrap()
}

fn degree(text: &str) -> Angle {
    Angle::degrees(dec(text)).unwrap()
}

fn hour(text: &str) -> Angle {
    Angle::hours(dec(text)).unwrap()
}

fn radian(text: &str) -> Angle {
    Angle::radians(dec(text))
}

#[test]
fn declination_range() {
    assert_eq!(Declination::new(&degree("91.0")).err(), Some(Error::RangeViolation));
    assert!(Declination::new(&degree("90.0")).is_ok());
    assert!(Declination::new(&degree("-90.0")).is_ok());
    assert_eq!(Declination::new(&degree("-90.00001")).err(), Some(Error::RangeViolation));
    assert!(Declination::new(&degree("0")).is_ok());
    assert!(Declination::new(&degree("-0")).is_ok());
}

#[test]
fn constrained_value_is_the_angle_given() {
    let angle = Angle::Degree(DegMinSec(Sign::Negative, 48, 48, dec("35.492919")));
    assert_eq!(Declination::new(&angle).unwrap().value(), angle);
    assert_eq!(Altitude::new(&angle).unwrap().value(), angle);
    assert_eq!(Latitude::new(&angle).unwrap().value(), angle);
    let angle = Angle::Hour(HourMinSec(Sign::Positive, 11, 59, dec("59.9")));
    assert_eq!(ZenithAngle::new(&angle).unwrap().value(), angle);
    let angle = radian("-0.8518927495");
    assert_eq!(Declination::new(&angle).unwrap().value(), angle);
}

#[test]
fn small_angles_of_many_places_are_held_as_given() {
    let tiny = Angle::Radian(Decimal { negative: true, mantissa: 1, scale: 30 });
    assert!(tiny.is_valid() && !tiny.is_wf());
    match Declination::new(&tiny).unwrap().value() {
        Angle::Radian(x) => assert_eq!(x, Decimal { negative: true, mantissa: 1, scale: 30 }),
        other => panic!("{:?}", other),
    }
    assert!(Altitude::new(&tiny).is_ok());
    assert!(Latitude::new(&tiny).is_ok());
    // Below zero, if by little.
    assert!(tiny.negated().is_within_half_turn());
    assert!(ZenithAngle::new(&tiny.negated()).is_ok());
    let seconds = Angle::Degree(DegMinSec(
        Sign::Positive,
        0,
        0,
        Decimal { negative: false, mantissa: 2_062_648_062_470_964, scale: 23 },
    ));
    assert_eq!(Declination::new(&seconds).unwrap().value(), seconds);
    // A quarter turn is 1.570796326794896615 radian: eighteen places are
    // held against it by their first seventeen.
    let under = Angle::Radian(Decimal {
        negative: false,
        mantissa: 1_570_796_326_794_896_619,
        scale: 18,
    });
    assert!(Declination::new(&under).is_ok());
    let over = Angle::Radian(Decimal {
        negative: false,
        mantissa: 1_570_796_326_794_896_620,
        scale: 18,
    });
    assert_eq!(Declination::new(&over).err(), Some(Error::RangeViolation));
}

#[test]
fn quarter_turn_in_each_unit() {
    for text in ["6", "-6", "5.999999", "0"] {
        assert!(Latitude::new(&hour(text)).is_ok());
        assert!(Altitude::new(&hour(text)).is_ok());
    }
    for text in ["6.000001", "-6.000001", "7", "24"] {
        assert_eq!(Latitude::new(&hour(text)).err(), Some(Error::RangeViolation));
        assert_eq!(Altitude::new(&hour(text)).err(), Some(Error::RangeViolation));
    }
    // π/2 = 1.57079632679489661923...
    for text in ["1.5707963267948966", "-1.5707963267948966", "1.57079632679489661", "0.0"] {
        assert!(Declination::new(&radian(text)).is_ok());
    }
    for text in ["1.5707963267948967", "-1.5707963267948967", "1.57079632679489662", "1.6"] {
        assert_eq!(Declination::new(&radian(text)).err(), Some(Error::RangeViolation));
    }
}

#[test]
fn zenith_angle_range() {
    for angle in [
        degree("0"), degree("-0.0"), degree("180"), degree("90.5"), hour("12"), hour("0"),
        radian("0"), radian("-0"), radian("3.14159265358979323"), radian("3.1415926535897931"),
    ] {
        assert!(ZenithAngle::new(&angle).is_ok(), "{:?}", angle);
    }
    for angle in [
        degree("-0.1"), degree("180.0000001"), degree("181"), hour("12.01"), hour("-1"),
        radian("-0.0001"), radian("3.14159265358979324"), radian("3.1415926535897936"),
    ] {
        assert_eq!(ZenithAngle::new(&angle).err(), Some(Error::RangeViolation), "{:?}", angle);
    }
}

#[test]
fn coordinate_pairs() {
    let equatorial = Equitorial {
        right_ascension: RightAscension(hour("0.01794396")),
        declination: Declination::new(&degree("-48.80985914")).unwrap(),
    };
    assert_eq!(equatorial.right_ascension.0, hour("0.01794396"));
    assert_eq!(equatorial.declination.value(), degree("-48.80985914"));
    let place = Geographic {
        latitude: Latitude::new(&degree("0")).unwrap(),
        longitude: Longitude(degree("0")),
    };
    assert_eq!(place.latitude.value(), degree("0"));
    assert_eq!(place.longitude.0, degree("0"));
    let seen = Horizontal {
        altitude: Altitude::new(&degree("90")).unwrap(),
        azimuth: Azimuth(degree("123.4")),
    };
    assert_eq!(seen.altitude.value(), degree("90"));
    assert_eq!(seen.azimuth.0, degree("123.4"));
}

#[test]
fn equal_angles_are_allowed_alike() {
    for (a, b) in [
        (degree("90"), hour("6")),
        (degree("90.0001"), hour("6.00000666666666667")),
        (degree("-45.50"), degree("-45.5")),
        (degree("180"), hour("12.000")),
        (degree("-0"), radian("0.0")),
        (radian("1.50"), radian("1.5")),
    ] {
        if a == b {
            assert_eq!(Declination::new(&a).is_ok(), Declination::new(&b).is_ok());
            assert_eq!(ZenithAngle::new(&a).is_ok(), ZenithAngle::new(&b).is_ok());
        } else {
            assert_eq!((a, b), (degree("90.0001"), hour("6.00000666666666667")));
        }
    }
}

#[test]
fn hour_angle_of_a_star() {
    let place = Geographic {
        latitude: Latitude::new(&degree("52.52")).unwrap(),
        longitude: Longitude(degree("13.405")),
    };
    let star = Equitorial {
        right_ascension: RightAscension(Angle::Hour(HourMinSec(Sign::Positive, 6, 45, dec("8.9")))),
        declination: Declination::new(&degree("-16.7161")).unwrap(),
    };
    let time = GMST(Angle::Hour(HourMinSec(Sign::Positive, 18, 41, dec("50.54841"))));
    // 18:41:50.54841 + 0:53:37.2 - 6:45:08.9 = 12:50:18.84841
    assert_eq!(
        star.local_hour_angle(&place, &time),
        Ok(Angle::Hour(HourMinSec(Sign::Positive, 12, 50, dec("18.84841"))))
    );
    assert_eq!(
        star.local_hour_angle(&place, &time).unwrap().to_deg(),
        Ok(DegMinSec(Sign::Positive, 192, 34, dec("42.72615")))
    );
}

#[test]
fn hour_angle_at_the_zenith_is_zero() {
    // On the equator at longitude zero, a star on the celestial equator whose
    // right ascension is the sidereal time stands overhead: its hour angle is zero.
    let jd = JulianDate::from_civil(CivilTime::new(2013, 1, 1, 0, 30, 0).unwrap()).unwrap();
    let time = GMST::from(jd).unwrap();
    let place = Geographic {
        latitude: Latitude::new(&degree("0")).unwrap(),
        longitude: Longitude(degree("0")),
    };
    let star = Equitorial {
        right_ascension: RightAscension(time.0),
        declination: Declination::new(&degree("0")).unwrap(),
    };
    assert_eq!(star.local_hour_angle(&place, &time), Ok(degree("0")));
    assert_eq!(
        star.local_hour_angle(&place, &time).unwrap().to_deg(),
        Ok(DegMinSec(
            Sign::Positive,
            0,
            0,
            Decimal { negative: false, mantissa: 0, scale: 17 }
        ))
    );
}

#[test]
fn hour_angle_with_radian() {
    // A right ascension in radian is combined with a sidereal time in hours.
    let place = Geographic {
        latitude: Latitude::new(&degree("0")).unwrap(),
        longitude: Longitude(degree("0")),
    };
    let star = Equitorial {
        right_ascension: RightAscension(radian("3.14159265358979323")),
        declination: Declination::new(&degree("0")).unwrap(),
    };
    let time = GMST(hour("12"));
    assert_eq!(star.local_hour_angle(&place, &time), Ok(degree("0")));
    let time = GMST(hour("18"));
    assert_eq!(star.local_hour_angle(&place, &time), Ok(degree("90")));
    // 0.25 radian are 14 degrees 19 minutes 26.20156177408892802 seconds.
    let place = Geographic {
        latitude: Latitude::new(&degree("0")).unwrap(),
        longitude: Longitude(radian("0.25")),
    };
    let star = Equitorial {
        right_ascension: RightAscension(hour("1")),
        declination: Declination::new(&degree("0")).unwrap(),
    };
    let time = GMST(hour("2"));
    assert_eq!(
        star.local_hour_angle(&place, &time).unwrap().to_deg(),
        Ok(DegMinSec(Sign::Positive, 29, 19, dec("26.20156177408892802")))
    );
}

#[test]
fn hour_angle_that_does_not_fit() {
    let time = GMST(hour("2"));
    let far = Equitorial {
        right_ascension: RightAscension(hour("-286331153")),
        declination: Declination::new(&degree("0")).unwrap(),
    };
    let place = Geographic {
        latitude: Latitude::new(&degree("0")).unwrap(),
        longitude: Longitude(degree("1")),
    };
    assert_eq!(far.local_hour_angle(&place, &time), Err(Error::RangeViolation));
    let place = Geographic {
        latitude: Latitude::new(&degree("0")).unwrap(),
        longitude: Longitude(radian("74961321")),
    };
    assert_eq!(far.local_hour_angle(&place, &time), Err(Error::RangeViolation));
}
