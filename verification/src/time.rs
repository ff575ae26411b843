//! Astronomical time: Julian dates, the Earth's rotation and sidereal time.
//! Dates, turns and sidereal time are counted exactly; the rotation in radian
//! keeps sixteen digits.
use crate::angle::{
    converted, converts_closely, lemma_conversion_is_close, radian_from, radian_result, Angle,
    Change,
};
use crate::error::Error;
use crate::number::{
    lemma_pow10_bound, lemma_pow10_monotonic, pow10, Decimal, Ratio, Sign, MAX_SCALE,
};
use crate::sexagesimal::{triple_from_units, units_triple, HourMinSec};
use chrono::{Datelike, NaiveDateTime, Timelike};
use vstd::prelude::*;

verus! {

/// Seconds in a day.
pub const SECONDS_PER_DAY: u64 = 86_400;

/// The Julian date of the epoch J2000 (2000-01-01T12:00:00), in seconds.
pub const J2000_SECONDS: u64 = 211_813_488_000;

/// What the rotation of the Earth is measured in: one part in `86400 * 10^17` of a turn.
pub const ROTATION_DENOMINATOR: u128 = 8_640_000_000_000_000_000_000;

/// A calendar date and time of day in UTC, field by field.
#[derive(Clone, Copy, Debug, PartialEq, Eq, Structural)]
pub struct CivilTime {
    pub year: i32,
    pub month: u32,
    pub day: u32,
    pub hour: u32,
    pub minute: u32,
    pub second: u32,
}

/// Whether a year of the Gregorian calendar has a 29th of February: every
/// fourth year, but of the years of a century only every fourth.
pub open spec fn leap_year(year: int) -> bool {
    year % 4 == 0 && (year % 100 != 0 || year % 400 == 0)
}

/// The number of days of a month of a year.
pub open spec fn days_in_month(year: int, month: int) -> int {
    if month == 2 {
        if leap_year(year) {
            29
        } else {
            28
        }
    } else if month == 4 || month == 6 || month == 9 || month == 11 {
        30
    } else {
        31
    }
}

/// The civil day after a civil day: the next day of the month, the first of the
/// next month, or the first of January of the next year.
pub open spec fn next_day(year: int, month: int, day: int) -> (int, int, int) {
    if day < days_in_month(year, month) {
        (year, month, day + 1)
    } else if month < 12 {
        (year, month + 1, 1)
    } else {
        (year + 1, 1, 1)
    }
}

/// The number of days of a month of a year.
pub fn month_length(year: i32, month: u32) -> (r: u32)
    ensures
        r == days_in_month(year as int, month as int),
{
    // Leap years come round every 400 years: the year is moved by a multiple of
    // 400 to where it is not negative.
    let moved: u64 = (year as i64 + 2_147_484_000) as u64;
    let leap: bool = moved % 4 == 0 && (moved % 100 != 0 || moved % 400 == 0);
    if month == 2 {
        if leap {
            29
        } else {
            28
        }
    } else if month == 4 || month == 6 || month == 9 || month == 11 {
        30
    } else {
        31
    }
}

impl CivilTime {
    /// The month is one of the twelve, the day is one of that month in that
    /// year, and hour, minute and second are within their ranges.
    pub open spec fn wf(&self) -> bool {
        &&& 1 <= self.month <= 12
        &&& 1 <= self.day <= days_in_month(self.year as int, self.month as int)
        &&& self.hour <= 23
        &&& self.minute <= 59
        &&& self.second <= 59
    }

    /// Builds a civil time, if the date is one of the calendar and the time one
    /// of the day.
    pub fn new(year: i32, month: u32, day: u32, hour: u32, minute: u32, second: u32) -> (r:
        Option<CivilTime>)
        ensures
            r == if (CivilTime { year, month, day, hour, minute, second }).wf() {
                Some(CivilTime { year, month, day, hour, minute, second })
            } else {
                None
            },
    {
        if 1 <= month && month <= 12 && 1 <= day && day <= month_length(year, month) && hour
            <= 23 && minute <= 59 && second <= 59 {
            Some(CivilTime { year, month, day, hour, minute, second })
        } else {
            None
        }
    }
}

#[verifier::external_type_specification]
#[verifier::external_body]
pub struct ExNaiveDateTime(NaiveDateTime);

/// The year of the calendar date of a date and time.
pub uninterp spec fn civil_year(date: NaiveDateTime) -> i32;

/// The month of a date and time.
pub uninterp spec fn civil_month(date: NaiveDateTime) -> u32;

/// The day of the month of a date and time.
pub uninterp spec fn civil_day(date: NaiveDateTime) -> u32;

/// The hour of a date and time.
pub uninterp spec fn civil_hour(date: NaiveDateTime) -> u32;

/// The minute of a date and time.
pub uninterp spec fn civil_minute(date: NaiveDateTime) -> u32;

/// The second of a date and time.
pub uninterp spec fn civil_second(date: NaiveDateTime) -> u32;

/// The calendar fields of a date and time.
pub open spec fn civil_of(date: NaiveDateTime) -> CivilTime {
    CivilTime {
        year: civil_year(date),
        month: civil_month(date),
        day: civil_day(date),
        hour: civil_hour(date),
        minute: civil_minute(date),
        second: civil_second(date),
    }
}

/// chrono's `Datelike::year` of a date and time: the year of the calendar date,
/// which depends on the date alone. Nothing else is claimed of it.
#[verifier::external_body]
fn year_of(date: &NaiveDateTime) -> (r: i32)
    ensures
        r == civil_year(*date),
{
    date.year()
}

/// chrono's `Datelike::month` of a date and time: the month, which depends on
/// the date alone and which chrono counts from 1 to 12.
#[verifier::external_body]
fn month_of(date: &NaiveDateTime) -> (r: u32)
    ensures
        r == civil_month(*date),
        1 <= r <= 12,
{
    date.month()
}

/// chrono's `Datelike::day` of a date and time: the day of the month, which
/// depends on the date alone. chrono counts it from 1 and holds only dates of
/// the proleptic Gregorian calendar, so the day is at most the last of its month
/// in its year.
#[verifier::external_body]
fn day_of(date: &NaiveDateTime) -> (r: u32)
    ensures
        r == civil_day(*date),
        1 <= r <= days_in_month(civil_year(*date) as int, civil_month(*date) as int),
{
    date.day()
}

/// chrono's `Timelike::hour` of a date and time: the hour, which depends on the
/// time alone, from 0 to 23.
#[verifier::external_body]
fn hour_of(date: &NaiveDateTime) -> (r: u32)
    ensures
        r == civil_hour(*date),
        r <= 23,
{
    date.hour()
}

/// chrono's `Timelike::minute` of a date and time: the minute, which depends on
/// the time alone, from 0 to 59.
#[verifier::external_body]
fn minute_of(date: &NaiveDateTime) -> (r: u32)
    ensures
        r == civil_minute(*date),
        r <= 59,
{
    date.minute()
}

/// chrono's `Timelike::second` of a date and time: the second, which depends on
/// the time alone, from 0 to 59. A leap second is kept in the nanoseconds, which
/// are not read.
#[verifier::external_body]
fn second_of(date: &NaiveDateTime) -> (r: u32)
    ensures
        r == civil_second(*date),
        r <= 59,
{
    date.second()
}

/// The calendar fields of a date and time.
fn civil_fields(date: &NaiveDateTime) -> (r: CivilTime)
    ensures
        r == civil_of(*date),
        r.wf(),
{
    CivilTime {
        year: year_of(date),
        month: month_of(date),
        day: day_of(date),
        hour: hour_of(date),
        minute: minute_of(date),
        second: second_of(date),
    }
}

/// The years for which the Julian date is computed.
pub open spec fn supported_epoch(year: int) -> bool {
    1801 <= year <= 2099
}

/// The Julian day that is in progress when a civil day begins at midnight, for a
/// supported year. All divisions round down.
pub open spec fn julian_day(year: int, month: int, day: int) -> int {
    367 * year - (7 * (year + (month + 9) / 12)) / 4 + (275 * month) / 9 + day + 1721013 + if 100
        * year + month < 190003 {
        1int
    } else {
        0int
    }
}

/// The Julian date of a civil time, in seconds: Julian days begin at noon, so at
/// midnight half of the day in progress has passed.
pub open spec fn julian_seconds(t: CivilTime) -> int {
    julian_day(t.year as int, t.month as int, t.day as int) * 86400 + 43200 + t.hour * 3600
        + t.minute * 60 + t.second
}

/// The day count follows the calendar: from 1801 to 2099 the civil day after a
/// civil day is one Julian day later, within a month, from the last day of a
/// month to the first of the next, from 31 December to 1 January, and across
/// the end of February in leap years and in others, 1900 among them.
pub proof fn lemma_next_day_is_one_julian_day_later(year: int, month: int, day: int)
    requires
        supported_epoch(year),
        1 <= month <= 12,
        1 <= day <= days_in_month(year, month),
        supported_epoch(next_day(year, month, day).0),
    ensures
        julian_day(
            next_day(year, month, day).0,
            next_day(year, month, day).1,
            next_day(year, month, day).2,
        ) == julian_day(year, month, day) + 1,
{
}

/// The Julian date of a civil time, or the reason why it has none.
pub open spec fn julian_date_of(t: CivilTime) -> Result<JulianDate, Error> {
    if supported_epoch(t.year as int) {
        Ok(JulianDate(julian_seconds(t) as u64))
    } else {
        Err(Error::UnsupportedEpoch)
    }
}

/// A Julian date: the time since noon of the first day of the Julian period,
/// in whole seconds.
#[derive(Clone, Copy, Debug, PartialEq, Eq, Structural)]
pub struct JulianDate(
    /// Seconds since the Julian epoch
    pub u64,
);

impl JulianDate {
    /// The Julian date of a date and time in UTC: that of its calendar fields, see
    /// [`JulianDate::from_civil`].
    pub fn from(date: NaiveDateTime) -> (r: Result<JulianDate, Error>)
        ensures
            r == julian_date_of(civil_of(date)),
            civil_of(date).wf(),
    {
        JulianDate::from_civil(civil_fields(&date))
    }

    /// The Julian date of a civil time in UTC. Fails with `UnsupportedEpoch` for
    /// every year before 1801 or after 2099.
    pub fn from_civil(date: CivilTime) -> (r: Result<JulianDate, Error>)
        requires
            date.wf(),
        ensures
            r == julian_date_of(date),
    {
        if date.year < 1801 || date.year > 2099 {
            return Err(Error::UnsupportedEpoch);
        }
        let year: i64 = date.year as i64;
        let month: i64 = date.month as i64;
        let correction: i64 = if 100 * year + month < 190003 {
            1
        } else {
            0
        };
        let days: i64 = 367 * year - (7 * (year + (month + 9) / 12)) / 4 + (275 * month) / 9
            + date.day as i64 + 1721013 + correction;
        let seconds: i64 = days * 86400 + 43200 + (date.hour as i64) * 3600 + (date.minute as i64)
            * 60 + date.second as i64;
        Ok(JulianDate(seconds as u64))
    }

    /// The date in days, as the exact ratio of its seconds to the seconds in a day.
    pub fn days(&self) -> (r: Ratio)
        ensures
            r == (Ratio {
                negative: false,
                numerator: self.0 as u128,
                denominator: SECONDS_PER_DAY as u128,
            }),
            r.wf(),
    {
        Ratio { negative: false, numerator: self.0 as u128, denominator: SECONDS_PER_DAY as u128 }
    }
}

/// The rotation of the Earth at a Julian date given in seconds, in parts of a
/// turn (see [`ROTATION_DENOMINATOR`]):
/// `0.7790572732640 + 1.00273781191135448 * (days - 2451545)` turns.
pub open spec fn rotation_parts(seconds: int) -> int {
    77_905_727_326_400_000 * 86_400 + 100_273_781_191_135_448 * (seconds - J2000_SECONDS)
}

/// The sign and magnitude of an integer over a denominator.
pub open spec fn signed_ratio(parts: int, denominator: int) -> Ratio {
    Ratio {
        negative: parts < 0,
        numerator: (if parts < 0 {
            -parts
        } else {
            parts
        }) as u128,
        denominator: denominator as u128,
    }
}

/// Earth Rotation Angle at a Julian date (UT1), in turns: one turn is a full
/// circle, `2π` radian. The turns are exact.
pub fn earth_rotation_turns(time_julian_ut1: JulianDate) -> (r: Ratio)
    ensures
        r == signed_ratio(rotation_parts(time_julian_ut1.0 as int), ROTATION_DENOMINATOR as int),
        r.wf(),
{
    let elapsed: i128 = time_julian_ut1.0 as i128 - J2000_SECONDS as i128;
    let parts: i128 = 77_905_727_326_400_000i128 * 86_400 + 100_273_781_191_135_448i128 * elapsed;
    if parts < 0 {
        Ratio { negative: true, numerator: (-parts) as u128, denominator: ROTATION_DENOMINATOR }
    } else {
        Ratio { negative: false, numerator: parts as u128, denominator: ROTATION_DENOMINATOR }
    }
}

/// The magnitude of the rotation of the Earth at a Julian date given in
/// seconds, in parts of a turn.
pub open spec fn rotation_magnitude(seconds: int) -> nat {
    let parts = rotation_parts(seconds);
    (if parts < 0 {
        -parts
    } else {
        parts
    }) as nat
}

/// The rotation of the Earth at a Julian date given in seconds, in radian:
/// `2π` times the turns, which is `π / 43200` times the parts of
/// [`rotation_parts`] taken as `10^-17` of a second of time. The radian keep
/// sixteen digits, see [`converted`].
pub open spec fn rotation_radian(seconds: int) -> Result<Decimal, Error> {
    radian_result(
        rotation_parts(seconds) < 0,
        rotation_magnitude(seconds),
        MAX_SCALE,
        Change::TimeToRadian,
    )
}

/// Earth Rotation Angle at a Julian date (UT1), in radian:
/// `2π * (0.7790572732640 + 1.00273781191135448 * (days - 2451545))`, to
/// sixteen digits and within a part in `10^15` of it.
pub fn earth_rotation_angle(time_julian_ut1: JulianDate) -> (r: Angle)
    ensures
        r matches Angle::Radian(x) && rotation_radian(time_julian_ut1.0 as int) == Ok::<
            Decimal,
            Error,
        >(x) && converts_closely(
            rotation_magnitude(time_julian_ut1.0 as int),
            MAX_SCALE as nat,
            Change::TimeToRadian,
            x.mantissa as nat,
            x.scale as int,
        ),
{
    let turns = earth_rotation_turns(time_julian_ut1);
    proof {
        lemma_rotation_has_radian(time_julian_ut1.0 as int);
    }
    match radian_from(turns.negative, turns.numerator, MAX_SCALE, Change::TimeToRadian) {
        Ok(x) => Angle::Radian(x),
        Err(_) => vstd::pervasive::unreached(),
    }
}

/// The rotation of the Earth has radian at every Julian date, and they lie
/// within a part in `10^15` of `π / 43200` times its seconds of time.
pub proof fn lemma_rotation_has_radian(seconds: int)
    requires
        0 <= seconds <= u64::MAX,
    ensures
        rotation_radian(seconds) matches Ok(x) && converts_closely(
            rotation_magnitude(seconds),
            MAX_SCALE as nat,
            Change::TimeToRadian,
            x.mantissa as nat,
            x.scale as int,
        ),
{
    let n = rotation_magnitude(seconds);
    let change = Change::TimeToRadian;
    assert(n <= 1_900_000_000_000_000_000_000_000_000_000_000_000);
    let t = change.times();
    let o = change.over();
    if n == 0 {
        let factor = pow10(17 + change.digits());
        assert(0 * t * pow10(17) == 0) by (nonlinear_arith);
        assert(0 * o * factor * pow10(0) == 0) by (nonlinear_arith);
    } else {
        let (m, at) = converted(n, 17, change);
        lemma_conversion_is_close(n, 17, change);
        if at < 0 {
            let low = (-at) as nat;
            let shift = pow10(low);
            let factor = pow10(17 + change.digits());
            lemma_pow10_monotonic(1, low);
            assert(pow10(1) == 10 && pow10(0) == 1) by {
                reveal_with_fuel(pow10, 2);
            }
            assert(factor == 100_000_000_000_000_000_000_000) by {
                reveal_with_fuel(pow10, 24);
            }
            let exact: nat = n * t * pow10(0);
            let got: nat = m * o * factor * shift;
            let least: nat = 1_000_000_000_000_000 * 4_320_000_000_000_000
                * 100_000_000_000_000_000_000_000 * 10;
            assert(got >= least) by (nonlinear_arith)
                requires
                    got == m * o * factor * shift,
                    m >= 1_000_000_000_000_000,
                    o == 4_320_000_000_000_000,
                    factor == 100_000_000_000_000_000_000_000,
                    shift >= 10,
                    least == 1_000_000_000_000_000 * 4_320_000_000_000_000
                        * 100_000_000_000_000_000_000_000 * 10,
            ;
            assert(exact <= 1_900_000_000_000_000_000_000_000_000_000_000_000
                * 314_159_265_358_979_323) by (nonlinear_arith)
                requires
                    exact == n * t * 1,
                    t == 314_159_265_358_979_323,
                    n <= 1_900_000_000_000_000_000_000_000_000_000_000_000,
            ;
            assert(false);
        }
    }
}

/// Greenwich Mean Sidereal Time
#[derive(Clone, Copy, Debug)]
pub struct GMST(
    /// Hour
    pub Angle,
);

/// The sidereal time at a Julian date given in seconds: the rotation of the
/// Earth as an hour angle, of which a turn has twenty-four hours. A part of the
/// rotation is `10^-17` of a second of that angle.
pub open spec fn sidereal_time(seconds: int) -> Result<GMST, Error> {
    let parts = rotation_parts(seconds);
    let magnitude = if parts < 0 {
        -parts
    } else {
        parts
    };
    match units_triple(Sign::of(parts < 0), magnitude as nat, MAX_SCALE) {
        Ok(t) => Ok(GMST(Angle::Hour(HourMinSec(t.0, t.1, t.2, t.3)))),
        Err(e) => Err(e),
    }
}

impl GMST {
    /// The sidereal time at a Julian date: the Earth Rotation Angle in hours,
    /// minutes and seconds. Fails with `RangeViolation` where the hours do not fit
    /// 32 bits, which does not happen between the years 1801 and 2099.
    pub fn from(julian_date: JulianDate) -> (r: Result<GMST, Error>)
        ensures
            r == sidereal_time(julian_date.0 as int),
            r matches Ok(time) ==> time.0.wf(),
    {
        let turns = earth_rotation_turns(julian_date);
        match triple_from_units(Sign::from_flag(turns.negative), turns.numerator, MAX_SCALE) {
            Ok(t) => Ok(GMST(Angle::Hour(HourMinSec(t.0, t.1, t.2, t.3)))),
            Err(e) => Err(e),
        }
    }
}

/// Between the years 1801 and 2099 the sidereal time has a value.
pub proof fn lemma_sidereal_time_of_supported_epoch(t: CivilTime)
    requires
        t.wf(),
        supported_epoch(t.year as int),
    ensures
        sidereal_time(julian_seconds(t)).is_ok(),
{
    let seconds = julian_seconds(t);
    assert(205_000_000_000 <= seconds <= 216_000_000_000);
    let parts = rotation_parts(seconds);
    let magnitude: nat = (if parts < 0 {
        -parts
    } else {
        parts
    }) as nat;
    assert(magnitude <= 1_000_000_000_000_000_000_000_000_000);
    lemma_pow10_bound(MAX_SCALE as nat);
    assert(pow10(MAX_SCALE as nat) == 100_000_000_000_000_000) by {
        reveal_with_fuel(pow10, 18);
    }
    let hour = 3600 * pow10(MAX_SCALE as nat);
    assert(hour == 360_000_000_000_000_000_000);
    assert(magnitude / hour <= u32::MAX);
}

} // verus!
