//! Angles in degrees, hours and radian, with their conversions, sums,
//! differences and equality.
//!
//! A conversion keeps sixteen digits of its result, wherever they lie: a small
//! angle loses no more by it than a large one. Hours turn into degrees exactly.
//! Sums and intervals are taken on a grid of parts in `10^17`, on which degrees
//! and hours add up exactly and radian are rounded down to a part. `π` is taken
//! to seventeen places throughout.
use crate::accuracy::{
    lemma_conversions_succeed, lemma_converted_angle_is_close, lemma_every_angle_has_radian,
};
use crate::error::Error;
use crate::number::{
    lemma_pow10_bound, lemma_pow10_monotonic, lemma_pow10_product, pow10, power_of_ten, Decimal,
    Sign, MAX_SCALE,
};
use crate::sexagesimal::{
    lemma_parts_of_units, lemma_triple_parts_at_most, lemma_triple_parts_zero, lemma_units_bound,
    lemma_units_triple, parts_of_triple, sexagesimal_of, sexagesimal_wf,
    triple_at_most, triple_from_units, triple_is_at_most, triple_is_wf, triple_is_zero,
    triple_parts, triple_units, units_of_triple, units_triple, DegMinSec, HourMinSec,
};
use std::ops::{Add, Sub};
use vstd::prelude::*;
use vstd::std_specs::cmp::PartialEqSpecImpl;
use vstd::std_specs::convert::FromSpecImpl;
use vstd::std_specs::ops::{AddSpecImpl, SubSpecImpl};

verus! {

/// `π` to seventeen decimal places, as a whole number of parts in `10^17`. No
/// decimal of at most seventeen places lies between this and `π`, so a comparison
/// with it decides the comparison with `π` itself.
pub const PI_PARTS: u64 = 314_159_265_358_979_323;

/// The most units that are multiplied in a conversion: `10^21`. Of more units
/// the digits beyond the twenty-first are cut off first.
pub const WIDE: u128 = 1_000_000_000_000_000_000_000;

/// The parts in a unit: `10^17`.
pub const PARTS: u64 = 100_000_000_000_000_000;

/// The arc seconds in half a turn: `π` radian are 180 degrees of 3600 arc seconds.
pub const HALF_TURN_ARC: u64 = 648_000;

/// The seconds of time in half a turn: `π` radian are 12 hours of 3600 seconds.
pub const HALF_TURN_TIME: u64 = 43_200;

/// Whether `value` is the quotient of `numerator` by `denominator`, rounded
/// down: the quotient lies from `value` up to, but not reaching, `value + 1`.
pub open spec fn rounds_down(value: nat, numerator: nat, denominator: nat) -> bool {
    value * denominator <= numerator < (value + 1) * denominator
}

/// The seconds of so many parts of a radian, in parts of a second and rounded
/// down, where half a turn has `half_turn` seconds: `parts * half_turn / π`, with
/// [`PI_PARTS`] for `π`. As `π` lies between `PI_PARTS` and `PI_PARTS + 1` parts,
/// the true quotient lies between this one taken with `PI_PARTS + 1` and this one.
pub open spec fn seconds_of_radian(parts: nat, half_turn: nat) -> nat {
    (parts * (half_turn * PARTS as nat)) / (PI_PARTS as nat)
}

/// An angle in exactly one of three units: degrees and hours as sexagesimal
/// triples, radian as a decimal.
///
/// Two angles are equal when they are the same angle in degrees, whatever
/// their units and however many digits they are written with: see
/// [`Angle::same_angle`].
#[derive(Clone, Copy, Debug)]
pub enum Angle {
    /// Variant containing sexagesimal degree
    Degree(DegMinSec),
    /// Variant containing decimal radian
    Radian(Decimal),
    /// Variant containing sexagesimal hour
    Hour(HourMinSec),
}

/// Whether the magnitude of a decimal, taken `times` over, is at most `π`.
pub open spec fn radian_within_pi(x: Decimal, times: nat) -> bool {
    times * x.mantissa as nat * pow10((MAX_SCALE - x.scale) as nat) <= PI_PARTS
}

/// A number of units of `10^-from`, written in units of `10^-to`.
pub open spec fn lifted(units: nat, from: u16, to: u16) -> nat {
    units * pow10((to - from) as nat)
}

/// The sum of two numbers given by sign flag and magnitude, in the same form.
/// Numbers that cancel give a positive zero; two negative zeros give a negative one.
pub open spec fn signed_sum(negative: bool, magnitude: nat, other_negative: bool, other: nat) -> (
    bool,
    nat,
) {
    if negative == other_negative {
        (negative, magnitude + other)
    } else if magnitude > other {
        (negative, (magnitude - other) as nat)
    } else if other > magnitude {
        (other_negative, (other - magnitude) as nat)
    } else {
        (false, 0)
    }
}

/// The larger of two scales.
pub open spec fn wider(scale: u16, other: u16) -> u16 {
    if scale >= other {
        scale
    } else {
        other
    }
}

/// A way from one unit to another, with the factor that goes with it: so many
/// times `10^-s` of the first unit, times [`Change::times`] over
/// [`Change::over`], are so many times `10^-(s + digits)` of the second. `π` is
/// taken as [`PI_PARTS`] parts.
#[derive(Clone, Copy, Debug, PartialEq, Eq, Structural)]
pub enum Change {
    /// Radian to arc seconds: times `648000 / π`.
    RadianToArc,
    /// Arc seconds to radian: times `π / 648000`.
    ArcToRadian,
    /// Radian to seconds of time: times `43200 / π`.
    RadianToTime,
    /// Seconds of time to radian: times `π / 43200`.
    TimeToRadian,
    /// Arc seconds to seconds of time: a fifteenth.
    ArcToTime,
    /// Seconds of time to arc seconds: fifteen times.
    TimeToArc,
}

impl Change {
    /// What the units are multiplied by.
    pub open spec fn times(&self) -> nat {
        match *self {
            Change::RadianToArc => 64_800_000_000_000_000_000_000,
            Change::ArcToRadian => PI_PARTS as nat,
            Change::RadianToTime => 4_320_000_000_000_000_000_000,
            Change::TimeToRadian => PI_PARTS as nat,
            Change::ArcToTime => 100,
            Change::TimeToArc => 15,
        }
    }

    /// What the units are divided by.
    pub open spec fn over(&self) -> nat {
        match *self {
            Change::RadianToArc => PI_PARTS as nat,
            Change::ArcToRadian => 6_480_000_000_000_000,
            Change::RadianToTime => PI_PARTS as nat,
            Change::TimeToRadian => 4_320_000_000_000_000,
            Change::ArcToTime => 15,
            Change::TimeToArc => 1,
        }
    }

    /// How many digits the quotient is written with beyond those of the units.
    pub open spec fn digits(&self) -> nat {
        match *self {
            Change::RadianToArc => 0,
            Change::ArcToRadian => 7,
            Change::RadianToTime => 0,
            Change::TimeToRadian => 6,
            Change::ArcToTime => 2,
            Change::TimeToArc => 0,
        }
    }
}

/// A number that is not zero, written with further zeros until it has nineteen
/// digits, and the count of those zeros. A number that has nineteen digits or
/// more stays as it is.
pub open spec fn grown(n: nat) -> (nat, nat)
    decreases
            (if n < 1_000_000_000_000_000_000 {
                1_000_000_000_000_000_000 - n
            } else {
                0
            }),
{
    if 0 < n < 1_000_000_000_000_000_000 {
        let further = grown(n * 10);
        (further.0, further.1 + 1)
    } else {
        (n, 0)
    }
}

/// A number with digits cut off its end until it has at most `digits` digits,
/// and the count of the digits cut off.
pub open spec fn cut_to(n: nat, digits: nat) -> (nat, nat)
    decreases n,
{
    if n >= pow10(digits) && n > 0 {
        let further = cut_to(n / 10, digits);
        (further.0, further.1 + 1)
    } else {
        (n, 0)
    }
}

/// So many times `10^-scale` of one unit in another unit, as a mantissa of
/// sixteen digits and its scale, which may be negative or beyond 65535.
///
/// The units are written with nineteen to twenty-one digits: zeros are added to
/// fewer digits, and digits beyond the twenty-first are cut off. They are
/// multiplied and divided as the change says, the quotient is cut down to
/// seventeen digits, and those are rounded to sixteen, a five going up.
pub open spec fn converted(n: nat, scale: nat, change: Change) -> (nat, int) {
    let (short, dropped) = cut_to(n, 21);
    let (full, up) = grown(short);
    let (seventeen, down) = cut_to(full * change.times() / change.over(), 17);
    ((seventeen + 5) / 10, scale - dropped + up + change.digits() - down - 1)
}

/// So many times `10^-scale` of a second, with a sign flag, in radian. Zero
/// stays zero, with its sign and its digits. Fails with `RangeViolation` where
/// the radian would need more than 65535 places.
pub open spec fn radian_result(negative: bool, n: nat, scale: u16, change: Change) -> Result<
    Decimal,
    Error,
> {
    let (mantissa, at) = converted(n, scale as nat, change);
    if n == 0 {
        Ok(Decimal { negative, mantissa: 0, scale })
    } else if 0 <= at <= 65_535 {
        Ok(Decimal { negative, mantissa: mantissa as u64, scale: at as u16 })
    } else {
        Err(Error::RangeViolation)
    }
}

/// So many times `10^-scale` of a unit, with a sign, as a triple of seconds of
/// another unit. Zero stays zero, with its sign and its digits. A hundredth of
/// a second and more is written with seventeen places, less with the places that
/// its sixteen digits need. Fails with `RangeViolation` where the whole
/// units do not fit 32 bits, or the seconds would need more than 65535 places.
pub open spec fn triple_result(sign: Sign, n: nat, scale: u16, change: Change) -> Result<
    (Sign, u32, u32, Decimal),
    Error,
> {
    let (mantissa, at) = converted(n, scale as nat, change);
    if n == 0 {
        Ok((sign, 0, 0, Decimal { negative: false, mantissa: 0, scale }))
    } else if at < 0 || at > 65_535 {
        Err(Error::RangeViolation)
    } else if at <= 17 {
        units_triple(sign, mantissa * pow10((17 - at) as nat), MAX_SCALE)
    } else {
        Ok((sign, 0, 0, Decimal { negative: false, mantissa: mantissa as u64, scale: at as u16 }))
    }
}

/// A mantissa and its scale without the zeros at the end of the mantissa that
/// stand behind the point. Zero has no digits at all.
pub open spec fn stripped(mantissa: nat, scale: nat) -> (nat, nat)
    decreases scale,
{
    if scale > 0 && mantissa % 10 == 0 {
        stripped(mantissa / 10, (scale - 1) as nat)
    } else {
        (mantissa, scale)
    }
}

/// A decimal of more than seventeen places with the places beyond the
/// seventeenth cut off, so that it is well formed: rounded towards zero to a part
/// in `10^17`. A decimal of fewer places stays as it is.
pub open spec fn cut_decimal(x: Decimal) -> Decimal {
    if x.scale <= MAX_SCALE {
        x
    } else {
        Decimal {
            negative: x.negative,
            mantissa: (x.mantissa as nat / pow10((x.scale - MAX_SCALE) as nat)) as u64,
            scale: MAX_SCALE,
        }
    }
}

/// Whether a triple may stand in an angle: it is well formed, or it has
/// seconds behind more than seventeen places and nothing else.
pub open spec fn triple_valid(major: u32, minor: u32, second: Decimal) -> bool {
    sexagesimal_wf(minor, second) || (major == 0 && minor == 0 && !second.negative
        && second.scale > MAX_SCALE)
}

impl Angle {
    /// The angle is on the grid of parts: its triple or its decimal is well
    /// formed, with at most seventeen places. What is read, built or added up is.
    pub open spec fn wf(&self) -> bool {
        match *self {
            Angle::Degree(t) => t.wf(),
            Angle::Radian(x) => x.wf(),
            Angle::Hour(t) => t.wf(),
        }
    }

    /// The magnitude of the angle in parts of its measure: of `10^-17` arc second
    /// for degrees and hours, an hour being fifteen degrees, and of `10^-17` radian.
    pub open spec fn parts(&self) -> nat {
        match *self {
            Angle::Degree(t) => triple_parts(t.1, t.2, t.3),
            Angle::Radian(x) => x.mantissa as nat * pow10((MAX_SCALE - x.scale) as nat),
            Angle::Hour(t) => 15 * triple_parts(t.1, t.2, t.3),
        }
    }

    /// Whether the angle is flagged as negative.
    pub open spec fn negative(&self) -> bool {
        match *self {
            Angle::Degree(t) => t.0 == Sign::Negative,
            Angle::Radian(x) => x.negative,
            Angle::Hour(t) => t.0 == Sign::Negative,
        }
    }

    /// Whether the angle is measured in radian, and not in arc.
    pub open spec fn in_radian(&self) -> bool {
        self is Radian
    }

    /// The angle in degrees on the grid of parts, as sums and comparisons take
    /// it. Degrees stay as they are and an hour is fifteen degrees, exactly. Radian
    /// are divided by `π` and rounded down to a part of an arc second, see
    /// [`seconds_of_radian`]. The degrees must fit 32 bits.
    pub open spec fn grid_degrees_of(&self) -> Result<DegMinSec, Error> {
        match *self {
            Angle::Degree(t) => Ok(t),
            Angle::Radian(x) => match units_triple(
                Sign::of(x.negative),
                seconds_of_radian(self.parts(), HALF_TURN_ARC as nat),
                MAX_SCALE,
            ) {
                Ok(r) => Ok(DegMinSec(r.0, r.1, r.2, r.3)),
                Err(e) => Err(e),
            },
            Angle::Hour(t) => match units_triple(t.0, 15 * triple_units(t.1, t.2, t.3), t.3.scale) {
                Ok(r) => Ok(DegMinSec(r.0, r.1, r.2, r.3)),
                Err(e) => Err(e),
            },
        }
    }

    /// Whether `t` is this angle in degrees on the grid of parts: the very parts
    /// and sign where this angle is in degrees or hours, and for radian the
    /// quotient by `π` rounded down to a part, with the sign flag of the radian.
    pub open spec fn is_in_grid_degrees(&self, t: DegMinSec) -> bool {
        match *self {
            Angle::Radian(x) => t.0 == Sign::of(x.negative) && rounds_down(
                triple_parts(t.1, t.2, t.3),
                self.parts() * (HALF_TURN_ARC as nat * PARTS as nat),
                PI_PARTS as nat,
            ),
            _ => triple_parts(t.1, t.2, t.3) == self.parts() && (t.0 == Sign::Negative)
                == self.negative(),
        }
    }

    /// The angle in degrees on the grid of parts, see [`Angle::grid_degrees_of`].
    /// Fails with `RangeViolation` where the degrees do not fit 32 bits, and only
    /// there.
    #[verifier::rlimit(40)]
    pub fn grid_degrees(&self) -> (r: Result<DegMinSec, Error>)
        requires
            self.wf(),
        ensures
            r == self.grid_degrees_of(),
            r matches Ok(t) ==> t.wf() && self.is_in_grid_degrees(t),
            r matches Err(e) ==> e == Error::RangeViolation,
    {
        proof {
            lemma_grid_degrees(*self);
            assert(pow10(MAX_SCALE as nat) == PARTS) by {
                reveal_with_fuel(pow10, 18);
            }
        }
        match self {
            Angle::Degree(t) => Ok(*t),
            Angle::Radian(x) => {
                let (parts, negative) = self.magnitude();
                match seconds_from_radian(parts, HALF_TURN_ARC) {
                    Some(seconds) => match triple_from_units(
                        Sign::from_flag(negative),
                        seconds,
                        MAX_SCALE,
                    ) {
                        Ok(r) => Ok(DegMinSec(r.0, r.1, r.2, r.3)),
                        Err(e) => Err(e),
                    },
                    None => Err(Error::RangeViolation),
                }
            },
            Angle::Hour(t) => match triple_from_units(
                t.0,
                15 * units_of_triple(t.1, t.2, t.3),
                t.3.scale,
            ) {
                Ok(r) => Ok(DegMinSec(r.0, r.1, r.2, r.3)),
                Err(e) => Err(e),
            },
        }
    }

    /// The magnitude of the angle as a whole number of what its last place
    /// counts: so many times `10^-places` of a second, or of a radian.
    pub open spec fn units(&self) -> nat {
        match *self {
            Angle::Degree(t) => triple_units(t.1, t.2, t.3),
            Angle::Radian(x) => x.mantissa as nat,
            Angle::Hour(t) => triple_units(t.1, t.2, t.3),
        }
    }

    /// The places behind the point of the seconds, or of the radian.
    pub open spec fn places(&self) -> nat {
        match *self {
            Angle::Degree(t) => t.3.scale as nat,
            Angle::Radian(x) => x.scale as nat,
            Angle::Hour(t) => t.3.scale as nat,
        }
    }

    /// Whether the angle is one that the library computes with: any radian, and
    /// degrees or hours that are well formed, or that are seconds alone, written
    /// with more than seventeen places. Every angle of this library is, those
    /// that its conversions give among them.
    pub open spec fn valid(&self) -> bool {
        match *self {
            Angle::Degree(t) => triple_valid(t.1, t.2, t.3),
            Angle::Radian(_) => true,
            Angle::Hour(t) => triple_valid(t.1, t.2, t.3),
        }
    }

    /// The angle on the grid of parts, on which sums and intervals are taken: a
    /// well-formed angle as it is, and a small angle of more than seventeen places
    /// rounded towards zero to a part in `10^17`.
    pub open spec fn grid_of(&self) -> Angle {
        match *self {
            Angle::Degree(t) => Angle::Degree(DegMinSec(t.0, t.1, t.2, cut_decimal(t.3))),
            Angle::Radian(x) => Angle::Radian(cut_decimal(x)),
            Angle::Hour(t) => Angle::Hour(HourMinSec(t.0, t.1, t.2, cut_decimal(t.3))),
        }
    }

    /// The angle on the grid of parts, see [`Angle::grid_of`]: what a
    /// conversion gave, made fit for sums, intervals and coordinates.
    pub fn to_grid(&self) -> (r: Angle)
        requires
            self.valid(),
        ensures
            r == self.grid_of(),
            r.wf(),
            self.wf() ==> r == *self,
    {
        proof {
            lemma_grid_is_well_formed(*self);
        }
        match self {
            Angle::Degree(t) => Angle::Degree(DegMinSec(t.0, t.1, t.2, cut_places(t.3))),
            Angle::Radian(x) => Angle::Radian(cut_places(*x)),
            Angle::Hour(t) => Angle::Hour(HourMinSec(t.0, t.1, t.2, cut_places(t.3))),
        }
    }

    /// The angle in degrees. Degrees stay as they are, and well-formed hours are
    /// fifteen times as many degrees, exactly. Radian, and hours of more than
    /// seventeen places, are converted as [`converted`] says: to sixteen digits,
    /// whatever the size of the angle.
    pub open spec fn degrees_of(&self) -> Result<DegMinSec, Error> {
        match *self {
            Angle::Degree(t) => Ok(t),
            Angle::Radian(x) => match triple_result(
                Sign::of(x.negative),
                x.mantissa as nat,
                x.scale,
                Change::RadianToArc,
            ) {
                Ok(r) => Ok(DegMinSec(r.0, r.1, r.2, r.3)),
                Err(e) => Err(e),
            },
            Angle::Hour(t) => if t.3.scale <= MAX_SCALE {
                match units_triple(t.0, 15 * triple_units(t.1, t.2, t.3), t.3.scale) {
                    Ok(r) => Ok(DegMinSec(r.0, r.1, r.2, r.3)),
                    Err(e) => Err(e),
                }
            } else {
                match triple_result(t.0, t.3.mantissa as nat, t.3.scale, Change::TimeToArc) {
                    Ok(r) => Ok(DegMinSec(r.0, r.1, r.2, r.3)),
                    Err(e) => Err(e),
                }
            },
        }
    }

    /// The angle in hours. Hours stay as they are. Degrees and radian are
    /// converted as [`converted`] says: to sixteen digits, whatever the size of
    /// the angle.
    pub open spec fn hours_of(&self) -> Result<HourMinSec, Error> {
        match *self {
            Angle::Degree(t) => match triple_result(
                t.0,
                triple_units(t.1, t.2, t.3),
                t.3.scale,
                Change::ArcToTime,
            ) {
                Ok(r) => Ok(HourMinSec(r.0, r.1, r.2, r.3)),
                Err(e) => Err(e),
            },
            Angle::Radian(x) => match triple_result(
                Sign::of(x.negative),
                x.mantissa as nat,
                x.scale,
                Change::RadianToTime,
            ) {
                Ok(r) => Ok(HourMinSec(r.0, r.1, r.2, r.3)),
                Err(e) => Err(e),
            },
            Angle::Hour(t) => Ok(t),
        }
    }

    /// The angle in radian. Radian stay as they are. Degrees and hours are
    /// converted as [`converted`] says: to sixteen digits, whatever the size of
    /// the angle.
    pub open spec fn radians_of(&self) -> Result<Decimal, Error> {
        match *self {
            Angle::Degree(t) => radian_result(
                t.0 == Sign::Negative,
                triple_units(t.1, t.2, t.3),
                t.3.scale,
                Change::ArcToRadian,
            ),
            Angle::Radian(x) => Ok(x),
            Angle::Hour(t) => radian_result(
                t.0 == Sign::Negative,
                triple_units(t.1, t.2, t.3),
                t.3.scale,
                Change::TimeToRadian,
            ),
        }
    }

    /// Whether the angle is one that the library computes with.
    pub fn is_valid(&self) -> (r: bool)
        ensures
            r == self.valid(),
    {
        match self {
            Angle::Degree(t) => triple_is_valid(t.1, t.2, t.3),
            Angle::Radian(_) => true,
            Angle::Hour(t) => triple_is_valid(t.1, t.2, t.3),
        }
    }

    /// Convert to sexagesimal degree, see [`Angle::degrees_of`]. The degrees are
    /// the angle to within a part in `10^15` of it. Fails with `RangeViolation`
    /// where the degrees do not fit 32 bits or are too small to be written, and
    /// only there: not on degrees, and not on radian up to a million that are
    /// written with at most 65500 places.
    pub fn to_deg(&self) -> (r: Result<DegMinSec, Error>)
        requires
            self.valid(),
        ensures
            r == self.degrees_of(),
            r matches Ok(t) ==> Angle::Degree(t).valid() && self.close_to(
                Angle::Degree(t),
                1_000_000_000_000_000,
            ),
            r matches Err(e) ==> e == Error::RangeViolation,
            self is Degree ==> r.is_ok(),
            self is Radian && self.places() <= 65_500 && self.units() <= 1_000_000 * pow10(
                self.places(),
            ) ==> r.is_ok(),
    {
        proof {
            lemma_converted_angle_is_close(*self);
            if self.places() <= 65_500 {
                lemma_conversions_succeed(*self);
            }
        }
        match self {
            Angle::Degree(t) => Ok(*t),
            Angle::Radian(x) => match triple_from(
                Sign::from_flag(x.negative),
                x.mantissa as u128,
                x.scale,
                Change::RadianToArc,
            ) {
                Ok(r) => Ok(DegMinSec(r.0, r.1, r.2, r.3)),
                Err(e) => Err(e),
            },
            Angle::Hour(t) => if t.3.scale <= MAX_SCALE {
                proof {
                    lemma_units_triple(t.0, 15 * triple_units(t.1, t.2, t.3), t.3.scale);
                }
                match triple_from_units(t.0, 15 * units_of_triple(t.1, t.2, t.3), t.3.scale) {
                    Ok(r) => Ok(DegMinSec(r.0, r.1, r.2, r.3)),
                    Err(e) => Err(e),
                }
            } else {
                match triple_from(t.0, t.3.mantissa as u128, t.3.scale, Change::TimeToArc) {
                    Ok(r) => Ok(DegMinSec(r.0, r.1, r.2, r.3)),
                    Err(e) => Err(e),
                }
            },
        }
    }

    /// Convert to sexagesimal hour, see [`Angle::hours_of`]. The hours are the
    /// angle to within a part in `10^15` of it. Fails with `RangeViolation` where
    /// the hours do not fit 32 bits or are too small to be written, and only
    /// there: not on hours, and not on degrees, or radian up to a million, that
    /// are written with at most 65500 places.
    pub fn to_hr(&self) -> (r: Result<HourMinSec, Error>)
        requires
            self.valid(),
        ensures
            r == self.hours_of(),
            r matches Ok(t) ==> Angle::Hour(t).valid() && self.close_to(
                Angle::Hour(t),
                1_000_000_000_000_000,
            ),
            r matches Err(e) ==> e == Error::RangeViolation,
            self is Hour ==> r.is_ok(),
            self is Degree && self.places() <= 65_500 ==> r.is_ok(),
            self is Radian && self.places() <= 65_500 && self.units() <= 1_000_000 * pow10(
                self.places(),
            ) ==> r.is_ok(),
    {
        proof {
            lemma_converted_angle_is_close(*self);
            if self.places() <= 65_500 {
                lemma_conversions_succeed(*self);
            }
        }
        match self {
            Angle::Degree(t) => match triple_from(
                t.0,
                units_of(t.1, t.2, t.3),
                t.3.scale,
                Change::ArcToTime,
            ) {
                Ok(r) => Ok(HourMinSec(r.0, r.1, r.2, r.3)),
                Err(e) => Err(e),
            },
            Angle::Radian(x) => match triple_from(
                Sign::from_flag(x.negative),
                x.mantissa as u128,
                x.scale,
                Change::RadianToTime,
            ) {
                Ok(r) => Ok(HourMinSec(r.0, r.1, r.2, r.3)),
                Err(e) => Err(e),
            },
            Angle::Hour(t) => Ok(*t),
        }
    }

    /// Convert to decimal radian, see [`Angle::radians_of`]. The radian are the
    /// angle to within a part in `10^15` of it. Fails with `RangeViolation` where
    /// the radian are too small to be written, which takes an angle of more than
    /// 65500 places, and only there.
    pub fn to_rad(&self) -> (r: Result<Decimal, Error>)
        requires
            self.valid(),
        ensures
            r == self.radians_of(),
            r matches Ok(x) ==> self.close_to(Angle::Radian(x), 1_000_000_000_000_000),
            r matches Err(e) ==> e == Error::RangeViolation,
            self.places() <= 65_500 ==> r.is_ok(),
    {
        proof {
            lemma_converted_angle_is_close(*self);
            if self.places() <= 65_500 {
                lemma_every_angle_has_radian(*self);
            }
        }
        match self {
            Angle::Degree(t) => radian_from(
                t.0.is_negative(),
                units_of(t.1, t.2, t.3),
                t.3.scale,
                Change::ArcToRadian,
            ),
            Angle::Radian(x) => Ok(*x),
            Angle::Hour(t) => radian_from(
                t.0.is_negative(),
                units_of(t.1, t.2, t.3),
                t.3.scale,
                Change::TimeToRadian,
            ),
        }
    }

    /// The angle with its sign flag turned.
    pub open spec fn opposite(&self) -> Angle {
        match *self {
            Angle::Degree(t) => Angle::Degree(
                DegMinSec(Sign::of(t.0 == Sign::Positive), t.1, t.2, t.3),
            ),
            Angle::Radian(x) => Angle::Radian(
                Decimal { negative: !x.negative, mantissa: x.mantissa, scale: x.scale },
            ),
            Angle::Hour(t) => Angle::Hour(
                HourMinSec(Sign::of(t.0 == Sign::Positive), t.1, t.2, t.3),
            ),
        }
    }

    /// The angle as a whole number of parts, below zero for a negative angle.
    pub open spec fn signed_parts(&self) -> int {
        if self.negative() {
            -(self.parts() as int)
        } else {
            self.parts() as int
        }
    }

    /// The sum of two angles. Two angles in radian add up in radian. Any other
    /// two add up in degrees, each converted to degrees first, see
    /// [`Angle::grid_degrees_of`]: the sum of degrees and hours is exact, and an angle
    /// in radian comes into it rounded down to a part of an arc second. The sum is
    /// written with the digits of the operand that has more.
    pub open spec fn sum_of(&self, other: Angle) -> Result<Angle, Error> {
        match (*self, other) {
            (Angle::Radian(x), Angle::Radian(y)) => {
                let scale = wider(x.scale, y.scale);
                let (negative, mantissa) = signed_sum(
                    x.negative,
                    lifted(x.mantissa as nat, x.scale, scale),
                    y.negative,
                    lifted(y.mantissa as nat, y.scale, scale),
                );
                if mantissa <= u64::MAX {
                    Ok(Angle::Radian(Decimal { negative, mantissa: mantissa as u64, scale }))
                } else {
                    Err(Error::RangeViolation)
                }
            },
            _ => match (self.grid_degrees_of(), other.grid_degrees_of()) {
                (Ok(s), Ok(t)) => {
                    let scale = wider(s.3.scale, t.3.scale);
                    let (negative, units) = signed_sum(
                        s.0 == Sign::Negative,
                        lifted(triple_units(s.1, s.2, s.3), s.3.scale, scale),
                        t.0 == Sign::Negative,
                        lifted(triple_units(t.1, t.2, t.3), t.3.scale, scale),
                    );
                    match units_triple(Sign::of(negative), units, scale) {
                        Ok(r) => Ok(Angle::Degree(DegMinSec(r.0, r.1, r.2, r.3))),
                        Err(e) => Err(e),
                    }
                },
                (Err(e), _) => Err(e),
                (_, Err(e)) => Err(e),
            },
        }
    }

    /// The angle with its sign flag turned.
    pub fn negated(&self) -> (r: Angle)
        ensures
            r == self.opposite(),
            self.wf() ==> r.wf(),
            self.valid() ==> r.valid(),
    {
        match self {
            Angle::Degree(t) => Angle::Degree(
                DegMinSec(Sign::from_flag(!t.0.is_negative()), t.1, t.2, t.3),
            ),
            Angle::Radian(x) => Angle::Radian(
                Decimal { negative: !x.negative, mantissa: x.mantissa, scale: x.scale },
            ),
            Angle::Hour(t) => Angle::Hour(
                HourMinSec(Sign::from_flag(!t.0.is_negative()), t.1, t.2, t.3),
            ),
        }
    }

    /// What an angle is compared by: its degrees, see [`Angle::degrees_of`],
    /// without the zeros at the end of the seconds, and with the sign that zero
    /// has not. An angle that has no degrees, being out of range or not valid, is
    /// compared as it is written.
    pub open spec fn measure(&self) -> Result<(bool, u32, u32, (nat, nat)), Angle> {
        if self.valid() {
            match self.degrees_of() {
                Ok(t) => Ok(
                    (
                        t.0 == Sign::Negative && !triple_is_zero(t.1, t.2, t.3),
                        t.1,
                        t.2,
                        stripped(t.3.mantissa as nat, t.3.scale as nat),
                    ),
                ),
                Err(_) => Err(*self),
            }
        } else {
            Err(*self)
        }
    }

    /// Whether two angles are the same angle: the same after conversion to
    /// degrees. Zero is the same in every unit and with either sign, 180 degrees
    /// are 12 hours, and both are `π` radian to sixteen digits. Digits that are
    /// zeros at the end do not count.
    pub open spec fn same_angle(&self, other: Angle) -> bool {
        self.measure() == other.measure()
    }

    /// What an angle is compared by.
    fn measured(&self) -> (r: Option<(bool, u32, u32, (u64, u16))>)
        ensures
            match r {
                Some(m) => self.measure() == Ok::<(bool, u32, u32, (nat, nat)), Angle>(
                    (m.0, m.1, m.2, (m.3.0 as nat, m.3.1 as nat)),
                ),
                None => self.measure() == Err::<(bool, u32, u32, (nat, nat)), Angle>(*self),
            },
    {
        if !self.is_valid() {
            return None;
        }
        match self.to_deg() {
            Ok(t) => {
                let zero: bool = t.1 == 0 && t.2 == 0 && t.3.mantissa == 0;
                Some((t.0.is_negative() && !zero, t.1, t.2, strip(t.3.mantissa, t.3.scale)))
            },
            Err(_) => None,
        }
    }

    /// Whether the angle is on the grid of parts.
    pub fn is_wf(&self) -> (r: bool)
        ensures
            r == self.wf(),
    {
        match self {
            Angle::Degree(t) => triple_is_wf(t.2, t.3),
            Angle::Radian(x) => x.scale <= MAX_SCALE,
            Angle::Hour(t) => triple_is_wf(t.2, t.3),
        }
    }

    /// The magnitude and the sign flag of a well-formed angle.
    fn magnitude(&self) -> (r: (u128, bool))
        requires
            self.wf(),
        ensures
            r.0 == self.parts(),
            r.1 == self.negative(),
            r.0 <= 0x1_0000_0000_0000_0000 * 100_000_000_000_000_000,
    {
        match self {
            Angle::Degree(t) => (parts_of_triple(t.1, t.2, t.3), t.0.is_negative()),
            Angle::Radian(x) => {
                let lift: u128 = power_of_ten(MAX_SCALE - x.scale) as u128;
                let mantissa: u128 = x.mantissa as u128;
                assert(mantissa * lift <= 0x1_0000_0000_0000_0000 * 100_000_000_000_000_000)
                    by (nonlinear_arith)
                    requires
                        mantissa <= 0x1_0000_0000_0000_0000,
                        lift <= 100_000_000_000_000_000,
                ;
                (mantissa * lift, x.negative)
            },
            Angle::Hour(t) => (15 * parts_of_triple(t.1, t.2, t.3), t.0.is_negative()),
        }
    }

    /// Whether two angles are written alike: in the same unit and with the same
    /// sign, numbers and digits.
    fn written_alike(&self, other: &Angle) -> (r: bool)
        ensures
            r == (*self == *other),
    {
        match (self, other) {
            (Angle::Degree(a), Angle::Degree(b)) => a.0 == b.0 && a.1 == b.1 && a.2 == b.2 && a.3
                == b.3,
            (Angle::Radian(a), Angle::Radian(b)) => *a == *b,
            (Angle::Hour(a), Angle::Hour(b)) => a.0 == b.0 && a.1 == b.1 && a.2 == b.2 && a.3
                == b.3,
            _ => false,
        }
    }

    /// The angle lies between a quarter turn backwards and a quarter turn
    /// forwards: from `-90` to `90` degrees, `-6` to `6` hours, `-π/2` to `π/2`
    /// radian, the ends included. An angle of more than seventeen places is
    /// taken by its first seventeen, see [`Angle::grid_of`].
    pub open spec fn within_quarter_turn(&self) -> bool {
        match self.grid_of() {
            Angle::Degree(t) => triple_at_most(t.1, t.2, t.3, 90),
            Angle::Radian(x) => radian_within_pi(x, 2),
            Angle::Hour(t) => triple_at_most(t.1, t.2, t.3, 6),
        }
    }

    /// The angle lies between nothing and half a turn: from `0` to `180`
    /// degrees, `0` to `12` hours, `0` to `π` radian, the ends included. A zero
    /// of either sign does. An angle of more than seventeen places is taken by
    /// its first seventeen, see [`Angle::grid_of`].
    pub open spec fn within_half_turn(&self) -> bool {
        match self.grid_of() {
            Angle::Degree(t) => triple_at_most(t.1, t.2, t.3, 180) && (t.0 == Sign::Positive
                || triple_is_zero(t.1, t.2, t.3)),
            Angle::Radian(x) => radian_within_pi(x, 1) && (!x.negative || x.mantissa == 0),
            Angle::Hour(t) => triple_at_most(t.1, t.2, t.3, 12) && (t.0 == Sign::Positive
                || triple_is_zero(t.1, t.2, t.3)),
        }
    }

    /// Whether the angle lies within a quarter turn of zero.
    pub fn is_within_quarter_turn(&self) -> (r: bool)
        requires
            self.valid(),
        ensures
            r == self.within_quarter_turn(),
    {
        match self.to_grid() {
            Angle::Degree(t) => triple_is_at_most(t.1, t.2, t.3, 90),
            Angle::Radian(x) => radian_is_within_pi(x, 2),
            Angle::Hour(t) => triple_is_at_most(t.1, t.2, t.3, 6),
        }
    }

    /// Whether the angle lies between zero and half a turn.
    pub fn is_within_half_turn(&self) -> (r: bool)
        requires
            self.valid(),
        ensures
            r == self.within_half_turn(),
    {
        match self.to_grid() {
            Angle::Degree(t) => triple_is_at_most(t.1, t.2, t.3, 180) && (!t.0.is_negative() || (
            t.1 == 0 && t.2 == 0 && t.3.mantissa == 0)),
            Angle::Radian(x) => radian_is_within_pi(x, 1) && (!x.negative || x.mantissa == 0),
            Angle::Hour(t) => triple_is_at_most(t.1, t.2, t.3, 12) && (!t.0.is_negative() || (t.1
                == 0 && t.2 == 0 && t.3.mantissa == 0)),
        }
    }

    /// The angle of so many decimal degrees, if their whole part fits 32 bits.
    pub open spec fn of_degrees(x: Decimal) -> Result<Angle, Error> {
        let t = sexagesimal_of(x);
        if t.1 <= u32::MAX {
            Ok(Angle::Degree(DegMinSec(t.0, t.1 as u32, t.2 as u32, t.3)))
        } else {
            Err(Error::RangeViolation)
        }
    }

    /// The angle of so many decimal hours, if their whole part fits 32 bits.
    pub open spec fn of_hours(x: Decimal) -> Result<Angle, Error> {
        let t = sexagesimal_of(x);
        if t.1 <= u32::MAX {
            Ok(Angle::Hour(HourMinSec(t.0, t.1 as u32, t.2 as u32, t.3)))
        } else {
            Err(Error::RangeViolation)
        }
    }

    /// The angle of so many decimal degrees. Fails with `RangeViolation` if
    /// their whole part does not fit 32 bits.
    pub fn degrees(x: Decimal) -> (r: Result<Angle, Error>)
        requires
            x.wf(),
        ensures
            r == Angle::of_degrees(x),
            r matches Ok(a) ==> a.wf(),
    {
        match DegMinSec::angle_to_ams(x) {
            Ok(t) => Ok(Angle::Degree(t)),
            Err(e) => Err(e),
        }
    }

    /// The angle of so many decimal hours. Fails with `RangeViolation` if their
    /// whole part does not fit 32 bits.
    pub fn hours(x: Decimal) -> (r: Result<Angle, Error>)
        requires
            x.wf(),
        ensures
            r == Angle::of_hours(x),
            r matches Ok(a) ==> a.wf(),
    {
        match HourMinSec::angle_to_ams(x) {
            Ok(t) => Ok(Angle::Hour(t)),
            Err(e) => Err(e),
        }
    }

    /// The angle of so many radian.
    pub fn radians(x: Decimal) -> (r: Angle)
        ensures
            r == Angle::Radian(x),
    {
        Angle::Radian(x)
    }

}

impl Add for Angle {
    type Output = Result<Angle, Error>;

    /// The sum of two angles, each taken on the grid of parts: see
    /// [`Angle::sum_of`] and [`Angle::grid_of`]. Fails with `RangeViolation` where
    /// an operand or the sum does not fit, and only there.
    fn add(self, rhs: Angle) -> (r: Result<Angle, Error>) {
        let this = self.to_grid();
        let that = rhs.to_grid();
        match (this, that) {
            (Angle::Radian(x), Angle::Radian(y)) => {
                let scale: u16 = wider_scale(x.scale, y.scale);
                proof {
                    lemma_pow10_bound(x.scale as nat);
                    lemma_pow10_bound(y.scale as nat);
                    let low = x.denominator();
                    let other_low = y.denominator();
                    assert(x.mantissa <= 0x1_0000_0000_0000_0000 * low) by (nonlinear_arith)
                        requires
                            x.mantissa <= 0x1_0000_0000_0000_0000,
                            low >= 1,
                    ;
                    assert(y.mantissa <= 0x1_0000_0000_0000_0000 * other_low)
                        by (nonlinear_arith)
                        requires
                            y.mantissa <= 0x1_0000_0000_0000_0000,
                            other_low >= 1,
                    ;
                }
                let mine: u128 = lift(x.mantissa as u128, x.scale, scale);
                let theirs: u128 = lift(y.mantissa as u128, y.scale, scale);
                let (negative, mantissa) = add_signed(x.negative, mine, y.negative, theirs);
                if mantissa <= u64::MAX as u128 {
                    Ok(Angle::Radian(Decimal { negative, mantissa: mantissa as u64, scale }))
                } else {
                    Err(Error::RangeViolation)
                }
            },
            _ => {
                let s = match this.grid_degrees() {
                    Ok(s) => s,
                    Err(e) => {
                        return Err(e);
                    },
                };
                let t = match that.grid_degrees() {
                    Ok(t) => t,
                    Err(e) => {
                        return Err(e);
                    },
                };
                let scale: u16 = wider_scale(s.3.scale, t.3.scale);
                proof {
                    lemma_pow10_bound(s.3.scale as nat);
                    lemma_pow10_bound(t.3.scale as nat);
                    lemma_pow10_bound(scale as nat);
                    lemma_units_bound(s.1, s.2, s.3);
                    lemma_units_bound(t.1, t.2, t.3);
                }
                let mine: u128 = lift(units_of_triple(s.1, s.2, s.3), s.3.scale, scale);
                let theirs: u128 = lift(units_of_triple(t.1, t.2, t.3), t.3.scale, scale);
                let (negative, units) = add_signed(
                    s.0.is_negative(),
                    mine,
                    t.0.is_negative(),
                    theirs,
                );
                match triple_from_units(Sign::from_flag(negative), units, scale) {
                    Ok(r) => Ok(Angle::Degree(DegMinSec(r.0, r.1, r.2, r.3))),
                    Err(e) => Err(e),
                }
            },
        }
    }
}

impl AddSpecImpl for Angle {
    open spec fn obeys_add_spec() -> bool {
        true
    }

    open spec fn add_req(self, rhs: Angle) -> bool {
        self.valid() && rhs.valid()
    }

    open spec fn add_spec(self, rhs: Angle) -> Result<Angle, Error> {
        self.grid_of().sum_of(rhs.grid_of())
    }
}

impl Sub for Angle {
    type Output = Result<Angle, Error>;

    /// The difference of two angles: the sum of the first and the opposite of
    /// the second.
    fn sub(self, rhs: Angle) -> (r: Result<Angle, Error>) {
        self + rhs.negated()
    }
}

impl SubSpecImpl for Angle {
    open spec fn obeys_sub_spec() -> bool {
        true
    }

    open spec fn sub_req(self, rhs: Angle) -> bool {
        self.valid() && rhs.valid()
    }

    open spec fn sub_spec(self, rhs: Angle) -> Result<Angle, Error> {
        self.grid_of().sum_of(rhs.opposite().grid_of())
    }
}

impl PartialEq for Angle {
    /// Whether two angles are the same angle.
    fn eq(&self, other: &Angle) -> (r: bool) {
        match (self.measured(), other.measured()) {
            (Some(mine), Some(theirs)) => mine.0 == theirs.0 && mine.1 == theirs.1 && mine.2
                == theirs.2 && mine.3.0 == theirs.3.0 && mine.3.1 == theirs.3.1,
            (None, None) => self.written_alike(other),
            _ => false,
        }
    }
}

impl PartialEqSpecImpl for Angle {
    open spec fn obeys_eq_spec() -> bool {
        true
    }

    open spec fn eq_spec(&self, other: &Angle) -> bool {
        self.same_angle(*other)
    }
}

impl From<DegMinSec> for Angle {
    /// The angle of a sexagesimal degree.
    fn from(angle: DegMinSec) -> (r: Angle) {
        Angle::Degree(angle)
    }
}

impl FromSpecImpl<DegMinSec> for Angle {
    open spec fn obeys_from_spec() -> bool {
        true
    }

    open spec fn from_spec(angle: DegMinSec) -> Angle {
        Angle::Degree(angle)
    }
}

impl From<HourMinSec> for Angle {
    /// The angle of a sexagesimal hour.
    fn from(angle: HourMinSec) -> (r: Angle) {
        Angle::Hour(angle)
    }
}

impl FromSpecImpl<HourMinSec> for Angle {
    open spec fn obeys_from_spec() -> bool {
        true
    }

    open spec fn from_spec(angle: HourMinSec) -> Angle {
        Angle::Hour(angle)
    }
}

/// `value * a * b / divisor`, rounded down, where the product need not fit.
fn scaled_quotient(value: u128, a: u128, b: u128, divisor: u128) -> (r: u128)
    requires
        a >= 1,
        b >= 1,
        divisor >= 1,
        a * divisor <= 300_000_000_000_000_000_000_000_000_000_000_000_000,
        b * divisor <= 300_000_000_000_000_000_000_000_000_000_000_000_000,
        ((value / divisor) * a + a) * b <= 300_000_000_000_000_000_000_000_000_000_000_000_000,
    ensures
        r == (value as nat * (a as nat * b as nat)) / (divisor as nat),
        r <= 300_000_000_000_000_000_000_000_000_000_000_000_000,
{
    let whole: u128 = value / divisor;
    let rest: u128 = value % divisor;
    assert(rest * a < a * divisor && a * divisor == divisor * a) by (nonlinear_arith)
        requires
            rest < divisor,
            a >= 1,
    ;
    let first: u128 = rest * a;
    let more: u128 = first / divisor;
    let left: u128 = first % divisor;
    proof {
        vstd::arithmetic::div_mod::lemma_multiply_divide_lt(first as int, divisor as int, a as int);
        assert(whole * a + a <= (whole * a + a) * b) by (nonlinear_arith)
            requires
                b >= 1,
        ;
    }
    let head: u128 = whole * a + more;
    assert(head * b + b <= (whole * a + a) * b) by (nonlinear_arith)
        requires
            head + 1 <= whole * a + a,
    ;
    assert(left * b < b * divisor && b * divisor == divisor * b) by (nonlinear_arith)
        requires
            left < divisor,
            b >= 1,
    ;
    let last: u128 = (left * b) / divisor;
    proof {
        vstd::arithmetic::div_mod::lemma_multiply_divide_lt(
            (left * b) as int,
            divisor as int,
            b as int,
        );
        lemma_scaled_quotient(value as int, a as int, divisor as int);
        lemma_scaled_quotient(value as int * a as int, b as int, divisor as int);
        assert(value as int * a as int * b as int == value as int * (a as int * b as int))
            by (nonlinear_arith);
    }
    head * b + last
}

/// The seconds of so many parts of a radian, where half a turn has `half_turn`
/// seconds, unless they are more than a triple holds.
fn seconds_from_radian(parts: u128, half_turn: u64) -> (r: Option<u128>)
    requires
        parts <= 0x1_0000_0000_0000_0000 * 100_000_000_000_000_000,
        half_turn == HALF_TURN_ARC || half_turn == HALF_TURN_TIME,
    ensures
        match r {
            Some(seconds) => seconds == seconds_of_radian(parts as nat, half_turn as nat),
            None => seconds_of_radian(parts as nat, half_turn as nat) / (3600 * PARTS as nat)
                > u32::MAX,
        },
{
    let whole: u128 = parts / (PI_PARTS as u128);
    let a: u128 = (half_turn as u128) * 100_000;
    let b: u128 = 1_000_000_000_000;
    assert(a as nat * b as nat == half_turn as nat * PARTS as nat);
    if whole > 1_000_000_000 {
        proof {
            let full = half_turn as int * PARTS as int;
            let seconds = seconds_of_radian(parts as nat, half_turn as nat) as int;
            lemma_scaled_quotient(parts as int, full, PI_PARTS as int);
            assert(whole * full >= 1_000_000_001 * full) by (nonlinear_arith)
                requires
                    whole >= 1_000_000_001,
                    full >= 0,
            ;
            assert(seconds >= 1_000_000_001 * full);
            vstd::arithmetic::div_mod::lemma_div_is_ordered(
                1_000_000_001 * full,
                seconds,
                3600 * PARTS as int,
            );
        }
        return None;
    }
    assert((whole * a + a) * b <= 1_000_000_001 * 64_800_000_000 * 1_000_000_000_000)
        by (nonlinear_arith)
        requires
            whole <= 1_000_000_000,
            a <= 64_800_000_000,
            b == 1_000_000_000_000,
    ;
    Some(scaled_quotient(parts, a, b, PI_PARTS as u128))
}

/// A mantissa and its scale without the zeros at the end of the mantissa.
fn strip(mantissa: u64, scale: u16) -> (r: (u64, u16))
    ensures
        (r.0 as nat, r.1 as nat) == stripped(mantissa as nat, scale as nat),
{
    let mut rest: u64 = mantissa;
    let mut left: u16 = scale;
    while left > 0 && rest % 10 == 0
        invariant
            stripped(mantissa as nat, scale as nat) == stripped(rest as nat, left as nat),
        decreases left,
    {
        rest = rest / 10;
        left = left - 1;
    }
    (rest, left)
}

/// A decimal without its places beyond the seventeenth.
fn cut_places(x: Decimal) -> (r: Decimal)
    ensures
        r == cut_decimal(x),
{
    if x.scale <= MAX_SCALE {
        return x;
    }
    let mut rest: u64 = x.mantissa;
    let mut left: u16 = x.scale - MAX_SCALE;
    let ghost whole: nat = x.mantissa as nat / pow10(left as nat);
    proof {
        lemma_cut_decimal(x);
    }
    while left > 0 && rest > 0
        invariant
            rest as nat / pow10(left as nat) == whole,
        decreases left,
    {
        proof {
            let power = pow10((left - 1) as nat);
            lemma_pow10_bound((left - 1) as nat);
            assert(pow10(left as nat) == 10 * power);
            vstd::arithmetic::div_mod::lemma_div_denominator(rest as int, 10, power as int);
        }
        rest = rest / 10;
        left = left - 1;
    }
    proof {
        let power = pow10(left as nat);
        lemma_pow10_bound(left as nat);
        if left == 0 {
            assert(power == 1);
            assert(rest as nat / 1 == rest);
        } else {
            assert(rest == 0);
            vstd::arithmetic::div_mod::lemma_div_basics(power as int);
            assert(0int / (power as int) == 0);
        }
        assert(rest == whole);
        assert(whole <= u64::MAX);
    }
    Decimal { negative: x.negative, mantissa: rest, scale: MAX_SCALE }
}

/// Whether a triple may stand in an angle.
pub fn triple_is_valid(major: u32, minor: u32, second: Decimal) -> (r: bool)
    ensures
        r == triple_valid(major, minor, second),
{
    if second.scale <= MAX_SCALE {
        triple_is_wf(minor, second)
    } else {
        major == 0 && minor == 0 && !second.negative
    }
}

/// The units of a triple that may stand in an angle.
fn units_of(major: u32, minor: u32, second: Decimal) -> (r: u128)
    requires
        triple_valid(major, minor, second),
    ensures
        r == triple_units(major, minor, second),
        r <= 1_600_000_000_000_000_000_000_000_000_000,
{
    if second.scale <= MAX_SCALE {
        units_of_triple(major, minor, second)
    } else {
        assert(0 * second.denominator() == 0) by (nonlinear_arith);
        second.mantissa as u128
    }
}

/// A number that is not zero, written with further zeros until it has nineteen digits.
fn grow(n: u128) -> (r: (u128, u8))
    requires
        0 < n <= WIDE,
    ensures
        (r.0 as nat, r.1 as nat) == grown(n as nat),
        1_000_000_000_000_000_000 <= r.0 <= WIDE,
        r.1 <= 18,
{
    let mut full: u128 = n;
    let mut up: u8 = 0;
    proof {
        assert(pow10(0) == 1);
        assert(pow10(18) == 1_000_000_000_000_000_000) by {
            reveal_with_fuel(pow10, 19);
        }
    }
    while full < 1_000_000_000_000_000_000
        invariant
            0 < full <= WIDE,
            grown(n as nat).0 == grown(full as nat).0,
            grown(n as nat).1 == grown(full as nat).1 + up,
            full >= pow10(up as nat),
            up <= 18,
            pow10(18) == 1_000_000_000_000_000_000,
        decreases
                (if full < 1_000_000_000_000_000_000 {
                    1_000_000_000_000_000_000 - full
                } else {
                    0
                }),
    {
        proof {
            if up >= 18 {
                lemma_pow10_monotonic(18, up as nat);
            }
            assert(pow10((up + 1) as nat) == 10 * pow10(up as nat));
        }
        full = full * 10;
        up = up + 1;
    }
    (full, up)
}

/// A number with digits cut off its end until it has at most twenty-one or
/// seventeen digits.
fn cut(n: u128, seventeen: bool) -> (r: (u128, u8))
    requires
        n <= 300_000_000_000_000_000_000_000_000_000_000_000_000,
    ensures
        (r.0 as nat, r.1 as nat) == cut_to(
            n as nat,
            if seventeen {
                17nat
            } else {
                21nat
            },
        ),
        r.1 <= 22,
        seventeen ==> r.0 < 100_000_000_000_000_000,
        !seventeen ==> r.0 < 1_000_000_000_000_000_000_000,
        seventeen && n >= 1_000_000_000_000_000_000 ==> r.0 >= 10_000_000_000_000_000 && r.1 >= 2,
        !seventeen && n >= 1_000_000_000_000_000_000 ==> r.0 >= 1_000_000_000_000_000_000,
        n > 0 ==> r.0 > 0,
{
    let limit: u128 = if seventeen {
        100_000_000_000_000_000
    } else {
        1_000_000_000_000_000_000_000
    };
    let ghost digits: nat = if seventeen {
        17
    } else {
        21
    };
    let mut rest: u128 = n;
    let mut down: u8 = 0;
    proof {
        assert(pow10(0) == 1);
        assert(pow10(17) == 100_000_000_000_000_000 && pow10(21)
            == 1_000_000_000_000_000_000_000 && pow10(22) == 10_000_000_000_000_000_000_000)
            by {
            reveal_with_fuel(pow10, 23);
        }
    }
    while rest >= limit
        invariant
            limit == pow10(digits),
            seventeen ==> limit == 100_000_000_000_000_000,
            !seventeen ==> limit == 1_000_000_000_000_000_000_000,
            cut_to(n as nat, digits).0 == cut_to(rest as nat, digits).0,
            cut_to(n as nat, digits).1 == cut_to(rest as nat, digits).1 + down,
            rest * pow10(down as nat) <= 300_000_000_000_000_000_000_000_000_000_000_000_000,
            down <= 22,
            pow10(22) == 10_000_000_000_000_000_000_000,
            n > 0 ==> rest > 0,
            n >= 1_000_000_000_000_000_000 ==> rest >= 10_000_000_000_000_000,
            !seventeen && n >= 1_000_000_000_000_000_000 ==> rest >= 1_000_000_000_000_000_000,
            seventeen && n >= 1_000_000_000_000_000_000 && down == 0 ==> rest
                >= 1_000_000_000_000_000_000,
            seventeen && n >= 1_000_000_000_000_000_000 && down == 1 ==> rest
                >= 100_000_000_000_000_000,
        decreases rest,
    {
        proof {
            let lifted = pow10(down as nat);
            if down >= 22 {
                lemma_pow10_monotonic(22, down as nat);
                assert(rest * lifted >= rest * 10_000_000_000_000_000_000_000)
                    by (nonlinear_arith)
                    requires
                        lifted >= 10_000_000_000_000_000_000_000,
                ;
            }
            assert(pow10((down + 1) as nat) == 10 * lifted);
            assert((rest / 10) * (10 * lifted) <= rest * lifted) by (nonlinear_arith)
                requires
                    (rest / 10) * 10 <= rest,
            ;
        }
        rest = rest / 10;
        down = down + 1;
    }
    (rest, down)
}

/// The quotient of so many units, written with nineteen digits, in another unit.
fn quotient(full: u128, change: Change) -> (r: u128)
    requires
        full <= WIDE,
    ensures
        r == (full as nat * change.times()) / change.over(),
        r <= 300_000_000_000_000_000_000_000_000_000_000_000_000,
{
    let pi: u128 = PI_PARTS as u128;
    match change {
        Change::RadianToArc => {
            let whole: u128 = full / 314_159_265_358_979_323;
            assert((whole * 64_800_000_000 + 64_800_000_000) * 1_000_000_000_000 <= 3_184
                * 64_800_000_000 * 1_000_000_000_000) by (nonlinear_arith)
                requires
                    whole <= 3_183,
            ;
            scaled_quotient(full, 64_800_000_000, 1_000_000_000_000, pi)
        },
        Change::ArcToRadian => {
            let whole: u128 = full / 6_480_000_000_000_000;
            assert((whole * pi + pi) * 1 <= 154_322 * 314_159_265_358_979_323) by (nonlinear_arith)
                requires
                    whole <= 154_321,
                    pi == 314_159_265_358_979_323,
            ;
            scaled_quotient(full, pi, 1, 6_480_000_000_000_000)
        },
        Change::RadianToTime => {
            let whole: u128 = full / 314_159_265_358_979_323;
            assert((whole * 4_320_000_000 + 4_320_000_000) * 1_000_000_000_000 <= 3_184
                * 4_320_000_000 * 1_000_000_000_000) by (nonlinear_arith)
                requires
                    whole <= 3_183,
            ;
            scaled_quotient(full, 4_320_000_000, 1_000_000_000_000, pi)
        },
        Change::TimeToRadian => {
            let whole: u128 = full / 4_320_000_000_000_000;
            assert((whole * pi + pi) * 1 <= 231_483 * 314_159_265_358_979_323) by (nonlinear_arith)
                requires
                    whole <= 231_482,
                    pi == 314_159_265_358_979_323,
            ;
            scaled_quotient(full, pi, 1, 4_320_000_000_000_000)
        },
        Change::ArcToTime => {
            let whole: u128 = full / 15;
            assert((whole * 100 + 100) * 1 <= 6_666_666_666_666_666_666_700) by (nonlinear_arith)
                requires
                    whole <= 66_666_666_666_666_666_666,
            ;
            scaled_quotient(full, 100, 1, 15)
        },
        Change::TimeToArc => {
            assert(full as nat * 15 / 1 == full * 15);
            full * 15
        },
    }
}

/// So many times `10^-scale` of one unit in another: see [`converted`].
fn convert(n: u128, scale: u16, change: Change) -> (r: (u64, i32))
    requires
        0 < n <= 300_000_000_000_000_000_000_000_000_000_000_000_000,
    ensures
        (r.0 as nat, r.1 as int) == converted(n as nat, scale as nat, change),
        -50 <= r.1 <= 65_600,
        1_000_000_000_000_000 <= r.0 <= 10_000_000_000_000_000,
{
    let (short, dropped) = cut(n, false);
    let (full, up) = grow(short);
    proof {
        lemma_quotient_is_wide(full as nat, change);
    }
    let (seventeen, down) = cut(quotient(full, change), true);
    let digits: i32 = match change {
        Change::RadianToArc => 0,
        Change::ArcToRadian => 7,
        Change::RadianToTime => 0,
        Change::TimeToRadian => 6,
        Change::ArcToTime => 2,
        Change::TimeToArc => 0,
    };
    let at: i32 = scale as i32 - dropped as i32 + up as i32 + digits - down as i32 - 1;
    (((seventeen + 5) / 10) as u64, at)
}

/// So many times `10^-scale` of a second in radian: see [`radian_result`].
pub(crate) fn radian_from(negative: bool, n: u128, scale: u16, change: Change) -> (r: Result<
    Decimal,
    Error,
>)
    requires
        n <= 300_000_000_000_000_000_000_000_000_000_000_000_000,
    ensures
        r == radian_result(negative, n as nat, scale, change),
        r matches Err(e) ==> e == Error::RangeViolation,
{
    if n == 0 {
        return Ok(Decimal { negative, mantissa: 0, scale });
    }
    let (mantissa, at) = convert(n, scale, change);
    if 0 <= at && at <= 65_535 {
        Ok(Decimal { negative, mantissa, scale: at as u16 })
    } else {
        Err(Error::RangeViolation)
    }
}

/// So many times `10^-scale` of a unit as a triple of another: see [`triple_result`].
fn triple_from(sign: Sign, n: u128, scale: u16, change: Change) -> (r: Result<
    (Sign, u32, u32, Decimal),
    Error,
>)
    requires
        n <= 1_600_000_000_000_000_000_000_000_000_000,
    ensures
        r == triple_result(sign, n as nat, scale, change),
        r matches Ok(t) ==> triple_valid(t.1, t.2, t.3),
        r matches Err(e) ==> e == Error::RangeViolation,
{
    if n == 0 {
        proof {
            lemma_pow10_bound(scale as nat);
        }
        return Ok((sign, 0, 0, Decimal { negative: false, mantissa: 0, scale }));
    }
    let (mantissa, at) = convert(n, scale, change);
    if at < 0 || at > 65_535 {
        Err(Error::RangeViolation)
    } else if at <= 17 {
        let lift: u128 = power_of_ten((17 - at) as u16) as u128;
        let wide: u128 = mantissa as u128;
        assert(wide * lift <= 10_000_000_000_000_000 * 100_000_000_000_000_000)
            by (nonlinear_arith)
            requires
                wide <= 10_000_000_000_000_000,
                lift <= 100_000_000_000_000_000,
        ;
        proof {
            lemma_units_triple(sign, (wide * lift) as nat, MAX_SCALE);
        }
        triple_from_units(sign, wide * lift, MAX_SCALE)
    } else {
        Ok((sign, 0, 0, Decimal { negative: false, mantissa, scale: at as u16 }))
    }
}

/// The quotient of a number of nineteen digits or more has nineteen digits or more.
proof fn lemma_quotient_is_wide(full: nat, change: Change)
    requires
        full >= 1_000_000_000_000_000_000,
    ensures
        full * change.times() / change.over() >= 1_000_000_000_000_000_000,
{
    let low: nat = 1_000_000_000_000_000_000;
    let times = change.times();
    assert(full * times >= low * times) by (nonlinear_arith)
        requires
            full >= low,
    ;
    vstd::arithmetic::div_mod::lemma_div_is_ordered(
        (low * times) as int,
        (full * times) as int,
        change.over() as int,
    );
    match change {
        Change::RadianToArc => {
            assert(1_000_000_000_000_000_000 * 64_800_000_000_000_000_000_000nat
                / 314_159_265_358_979_323 >= 1_000_000_000_000_000_000);
        },
        Change::ArcToRadian => {
            assert(1_000_000_000_000_000_000 * 314_159_265_358_979_323nat
                / 6_480_000_000_000_000 >= 1_000_000_000_000_000_000);
        },
        Change::RadianToTime => {
            assert(1_000_000_000_000_000_000 * 4_320_000_000_000_000_000_000nat
                / 314_159_265_358_979_323 >= 1_000_000_000_000_000_000);
        },
        Change::TimeToRadian => {
            assert(1_000_000_000_000_000_000 * 314_159_265_358_979_323nat
                / 4_320_000_000_000_000 >= 1_000_000_000_000_000_000);
        },
        Change::ArcToTime => {
            assert(1_000_000_000_000_000_000 * 100nat / 15 >= 1_000_000_000_000_000_000);
        },
        Change::TimeToArc => {
            assert(1_000_000_000_000_000_000 * 15nat / 1 >= 1_000_000_000_000_000_000);
        },
    }
}

/// What is left of a number when digits are cut off its end: the number
/// divided by a power of ten and rounded down. It has at most the digits asked
/// for, and all of them where any digit was cut off.
pub proof fn lemma_cut_to(n: nat, digits: nat)
    requires
        digits >= 1,
    ensures
        cut_to(n, digits).0 * pow10(cut_to(n, digits).1) <= n,
        n < (cut_to(n, digits).0 + 1) * pow10(cut_to(n, digits).1),
        cut_to(n, digits).0 < pow10(digits),
        cut_to(n, digits).1 > 0 ==> cut_to(n, digits).0 >= pow10((digits - 1) as nat),
        cut_to(n, digits).1 == 0 ==> cut_to(n, digits).0 == n,
    decreases n,
{
    lemma_pow10_bound(digits);
    if n >= pow10(digits) && n > 0 {
        let tenth: nat = n / 10;
        let (rest, down) = cut_to(tenth, digits);
        lemma_cut_to(tenth, digits);
        let power = pow10(down);
        assert(pow10(down + 1) == 10 * power);
        assert(rest * (10 * power) <= n) by (nonlinear_arith)
            requires
                rest * power <= tenth,
                tenth * 10 <= n,
        ;
        assert(n < (rest + 1) * (10 * power)) by (nonlinear_arith)
            requires
                tenth + 1 <= (rest + 1) * power,
                n < (tenth + 1) * 10,
        ;
        assert(pow10(digits) == 10 * pow10((digits - 1) as nat));
        assert(cut_to(n, digits) == (rest, down + 1));
    } else {
        assert(pow10(0) == 1);
        assert(cut_to(n, digits) == (n, 0nat));
        assert(n * 1 <= n < (n + 1) * 1) by (nonlinear_arith);
    }
}

/// A number written with further zeros is the number times a power of ten. It
/// has nineteen digits or more, and was given zeros only if it had fewer.
pub proof fn lemma_grown(n: nat)
    requires
        n > 0,
    ensures
        grown(n).0 == n * pow10(grown(n).1),
        grown(n).0 >= 1_000_000_000_000_000_000,
        grown(n).1 > 0 ==> n < 1_000_000_000_000_000_000,
        grown(n).1 > 0 ==> grown(n).0 < 10_000_000_000_000_000_000,
    decreases
            (if n < 1_000_000_000_000_000_000 {
                1_000_000_000_000_000_000 - n
            } else {
                0
            }),
{
    if n < 1_000_000_000_000_000_000 {
        let (full, up) = grown(n * 10);
        lemma_grown(n * 10);
        let power = pow10(up);
        assert(pow10(up + 1) == 10 * power);
        assert((n * 10) * power == n * (10 * power)) by (nonlinear_arith);
        assert(grown(n) == (full, up + 1));
    } else {
        assert(pow10(0) == 1);
        assert(grown(n) == (n, 0nat));
        assert(n == n * 1) by (nonlinear_arith);
    }
}

/// Whether `mantissa × 10^-at` of the second unit of a change is
/// `n × 10^-scale` of its first unit to within a part in `10^15` of it. The two
/// are compared as whole numbers, each multiplied by the denominators of both.
pub open spec fn converts_closely(
    n: nat,
    scale: nat,
    change: Change,
    mantissa: nat,
    at: int,
) -> bool {
    let exact: nat = n * change.times() * pow10(
        if at > 0 {
            at as nat
        } else {
            0
        },
    );
    let got: nat = mantissa * change.over() * pow10(scale + change.digits()) * pow10(
        if at < 0 {
            (-at) as nat
        } else {
            0
        },
    );
    1_000_000_000_000_000 * (got - exact) <= exact && 1_000_000_000_000_000 * (exact - got)
        <= exact
}

/// A number that was cut, grown, multiplied, divided, cut again and rounded
/// lies within a part in `10^15` of the exact product: `m * 10 * w * d / u` of
/// `n * t / o`, where `d`, `u` and `w` are the powers of ten by which it was
/// cut, grown and cut again.
proof fn lemma_rounding_is_close(
    n: int,
    short: int,
    full: int,
    q: int,
    s: int,
    m: int,
    d: int,
    u: int,
    w: int,
    t: int,
    o: int,
)
    requires
        d >= 1,
        u >= 1,
        w >= 1,
        t >= 1,
        o >= 1,
        n >= 1,
        short * d <= n < (short + 1) * d,
        full == short * u,
        q * o <= full * t < (q + 1) * o,
        s * w <= q < (s + 1) * w,
        10 * m <= s + 5 < 10 * m + 10,
        s >= 10_000_000_000_000_000,
        d == 1 || (u == 1 && short >= 100_000_000_000_000_000_000),
    ensures
        1_000_000_000_000_000 * ((10 * m) * (w * o * d) - n * (u * t)) <= n * (u * t),
        1_000_000_000_000_000 * (n * (u * t) - (10 * m) * (w * o * d)) <= n * (u * t),
{
    let x = w * o * d;
    let e = n * (u * t);
    let g = (10 * m) * x;
    let wo = w * o;
    assert(x == wo * d);
    assert(x >= 1 && wo >= 1) by (nonlinear_arith)
        requires
            x == wo * d,
            wo == w * o,
            w >= 1,
            o >= 1,
            d >= 1,
    ;
    // The exact product is at least what was kept of it.
    assert(s * wo <= q * o) by (nonlinear_arith)
        requires
            s * w <= q,
            o >= 1,
            wo == w * o,
    ;
    assert(s * x <= (full * t) * d) by (nonlinear_arith)
        requires
            s * wo <= full * t,
            x == wo * d,
            d >= 1,
    ;
    assert((full * t) * d == (short * d) * (u * t)) by (nonlinear_arith)
        requires
            full == short * u,
    ;
    assert((short * d) * (u * t) <= n * (u * t)) by (nonlinear_arith)
        requires
            short * d <= n,
            u >= 1,
            t >= 1,
    ;
    assert(s * x <= e);
    assert(10_000_000_000_000_000 * x <= s * x) by (nonlinear_arith)
        requires
            s >= 10_000_000_000_000_000,
            x >= 1,
    ;
    // What came out is at most five of its last digit above.
    assert(g <= s * x + 5 * x) by (nonlinear_arith)
        requires
            g == (10 * m) * x,
            10 * m <= s + 5,
            x >= 1,
    ;
    // And at most five of its last digit below, and what was cut off first.
    assert(full * t < (10 * m + 5) * wo) by (nonlinear_arith)
        requires
            full * t < (q + 1) * o,
            q + 1 <= (s + 1) * w,
            s + 1 <= 10 * m + 5,
            wo == w * o,
            o >= 1,
            w >= 1,
    ;
    assert((full * t) * d < g + 5 * x) by (nonlinear_arith)
        requires
            full * t < (10 * m + 5) * wo,
            x == wo * d,
            g == (10 * m) * x,
            d >= 1,
    ;
    if d == 1 {
        assert(n == short) by (nonlinear_arith)
            requires
                short * d <= n < (short + 1) * d,
                d == 1,
        ;
        assert(e == (full * t) * d) by (nonlinear_arith)
            requires
                e == n * (u * t),
                n == short,
                full == short * u,
                d == 1,
        ;
    } else {
        let dt = d * t;
        assert(e < (full * t) * d + dt) by (nonlinear_arith)
            requires
                e == n * (u * t),
                u == 1,
                full == short * u,
                n < (short + 1) * d,
                t >= 1,
                dt == d * t,
        ;
        assert(100_000_000_000_000_000_000 * dt <= (full * t) * d) by (nonlinear_arith)
            requires
                full == short * u,
                u == 1,
                short >= 100_000_000_000_000_000_000,
                dt == d * t,
                d >= 1,
                t >= 1,
        ;
        assert((full * t) * d <= e);
    }
}

/// A conversion keeps fifteen digits and more, whatever the size of what it
/// converts: its result has sixteen digits, or is the one and sixteen zeros
/// that the largest of them round to, and lies within a part in `10^15` of
/// the units times the factor of the change.
pub proof fn lemma_conversion_is_close(n: nat, scale: nat, change: Change)
    requires
        n > 0,
    ensures
        1_000_000_000_000_000 <= converted(n, scale, change).0 <= 10_000_000_000_000_000,
        converted(n, scale, change).1 <= scale + change.digits() + 17,
        converts_closely(
            n,
            scale,
            change,
            converted(n, scale, change).0,
            converted(n, scale, change).1,
        ),
{
    let (short, dropped) = cut_to(n, 21);
    let (full, up) = grown(short);
    let q = full * change.times() / change.over();
    let (seventeen, down) = cut_to(q, 17);
    let (m, at) = converted(n, scale, change);
    let t = change.times();
    let o = change.over();
    assert(pow10(0) == 1);
    assert(pow10(16) == 10_000_000_000_000_000 && pow10(17) == 100_000_000_000_000_000 && pow10(
        20,
    ) == 100_000_000_000_000_000_000 && pow10(21) == 1_000_000_000_000_000_000_000) by {
        reveal_with_fuel(pow10, 22);
    }
    lemma_cut_to(n, 21);
    assert(short > 0) by {
        if dropped == 0 {
        }
    }
    lemma_grown(short);
    assert(up <= 18) by {
        if up > 18 {
            lemma_pow10_monotonic(19, up);
            assert(pow10(19) == 10_000_000_000_000_000_000) by {
                reveal_with_fuel(pow10, 20);
            }
            assert(short * pow10(up) >= pow10(up)) by (nonlinear_arith)
                requires
                    short >= 1,
            ;
        }
    }
    lemma_quotient_is_wide(full, change);
    lemma_cut_to(q, 17);
    assert(down > 0);
    let d = pow10(dropped);
    let u = pow10(up);
    let w = pow10(down);
    lemma_pow10_bound(dropped);
    lemma_pow10_bound(up);
    lemma_pow10_bound(down);
    assert(t >= 1 && o >= 1);
    lemma_rounds_down(full * t, o);
    assert(d == 1 || (u == 1 && short >= 100_000_000_000_000_000_000)) by {
        if dropped > 0 {
            assert(up == 0);
        }
    }
    lemma_rounding_is_close(
        n as int,
        short as int,
        full as int,
        q as int,
        seventeen as int,
        m as int,
        d as int,
        u as int,
        w as int,
        t as int,
        o as int,
    );
    let e: nat = n * (u * t);
    let g: nat = (10 * m) * (w * o * d);
    // The same bound, with the powers of ten where the scale puts them.
    let high: nat = if at > 0 {
        at as nat
    } else {
        0
    };
    let low: nat = if at < 0 {
        (-at) as nat
    } else {
        0
    };
    let exact: nat = n * t * pow10(high);
    let got: nat = m * o * pow10(scale + change.digits()) * pow10(low);
    let h = pow10(high);
    lemma_pow10_bound(high);
    assert(scale + change.digits() + low + up == high + dropped + down + 1);
    lemma_pow10_product(scale + change.digits(), low);
    lemma_pow10_product(scale + change.digits() + low, up);
    lemma_pow10_product(dropped, down);
    lemma_pow10_product(dropped + down, 1);
    lemma_pow10_product(high, dropped + down + 1);
    assert(pow10(1) == 10) by {
        reveal_with_fuel(pow10, 2);
    }
    let both = pow10(scale + change.digits()) * pow10(low);
    assert(both * u == h * (d * w * 10));
    let mo = m * o;
    let tens = d * w * 10;
    let first = pow10(scale + change.digits());
    let second = pow10(low);
    assert(got == mo * both) by (nonlinear_arith)
        requires
            got == m * o * first * second,
            both == first * second,
            mo == m * o,
    ;
    assert(got * u == mo * (h * tens)) by (nonlinear_arith)
        requires
            got == mo * both,
            both * u == h * tens,
    ;
    assert(g == mo * tens) by (nonlinear_arith)
        requires
            g == (10 * m) * (w * o * d),
            mo == m * o,
            tens == d * w * 10,
    ;
    assert(got * u == g * h) by (nonlinear_arith)
        requires
            got * u == mo * (h * tens),
            g == mo * tens,
    ;
    assert(exact * u == e * h) by (nonlinear_arith)
        requires
            exact == n * t * h,
            e == n * (u * t),
    ;
    let k: int = 1_000_000_000_000_000;
    assert(k * (got - exact) <= exact) by (nonlinear_arith)
        requires
            k * (g - e) <= e,
            got * u == g * h,
            exact * u == e * h,
            u >= 1,
            h >= 1,
    ;
    assert(k * (exact - got) <= exact) by (nonlinear_arith)
        requires
            k * (e - g) <= e,
            got * u == g * h,
            exact * u == e * h,
            u >= 1,
            h >= 1,
    ;
}

/// A number that is close stays close when it is written with seventeen
/// places.
proof fn lemma_close_with_seventeen_places(
    n: nat,
    scale: nat,
    change: Change,
    mantissa: nat,
    at: nat,
)
    requires
        at <= 17,
        converts_closely(n, scale, change, mantissa, at as int),
    ensures
        converts_closely(n, scale, change, mantissa * pow10((17 - at) as nat), 17),
{
    let lift = pow10((17 - at) as nat);
    let high = pow10(at);
    let one = pow10(0);
    let factor = pow10(scale + change.digits());
    let t = change.times();
    let o = change.over();
    assert(one == 1);
    lemma_pow10_bound((17 - at) as nat);
    lemma_pow10_product(at, (17 - at) as nat);
    let exact: nat = n * t * high;
    let got: nat = mantissa * o * factor * one;
    let wide: nat = n * t * pow10(17);
    let more: nat = (mantissa * lift) * o * factor * one;
    assert(wide == exact * lift) by (nonlinear_arith)
        requires
            wide == n * t * (high * lift),
            exact == n * t * high,
    ;
    assert(more == got * lift) by (nonlinear_arith)
        requires
            more == (mantissa * lift) * o * factor * one,
            got == mantissa * o * factor * one,
    ;
    let k: int = 1_000_000_000_000_000;
    assert(k * (more - wide) <= wide && k * (wide - more) <= wide) by (nonlinear_arith)
        requires
            k * (got - exact) <= exact,
            k * (exact - got) <= exact,
            wide == exact * lift,
            more == got * lift,
            lift >= 1,
    ;
}

/// The triple that a conversion gives is close to what was converted.
proof fn lemma_triple_result_is_close(sign: Sign, n: nat, scale: u16, change: Change)
    ensures
        triple_result(sign, n, scale, change) matches Ok(t) ==> converts_closely(
            n,
            scale as nat,
            change,
            triple_units(t.1, t.2, t.3),
            t.3.scale as int,
        ),
{
    let (mantissa, at) = converted(n, scale as nat, change);
    if n == 0 {
        let factor = pow10(scale as nat + change.digits());
        let high = pow10(scale as nat);
        assert(0 * pow10(scale as nat) + 0 == 0);
        assert(0 * change.times() * high == 0) by (nonlinear_arith);
        assert(0 * change.over() * factor * pow10(0) == 0) by (nonlinear_arith);
        assert(0 * change.times() * pow10(0) == 0) by (nonlinear_arith);
    } else if 0 <= at <= 65_535 {
        lemma_conversion_is_close(n, scale as nat, change);
        if at <= 17 {
            let units = mantissa * pow10((17 - at) as nat);
            lemma_close_with_seventeen_places(n, scale as nat, change, mantissa, at as nat);
            lemma_units_triple(sign, units, MAX_SCALE);
        } else {
            assert(0 * pow10(at as nat) + mantissa == mantissa) by (nonlinear_arith);
        }
    }
}

/// A conversion keeps fifteen digits and more, whatever the size of the
/// angle: what [`Angle::to_deg`], [`Angle::to_hr`] and [`Angle::to_rad`] give
/// lies within a part in `10^15` of the angle times the factor between the two
/// units, with `π` taken to seventeen places. An angle as small as the last
/// place that can be written loses no more than any other.
pub proof fn lemma_conversions_are_close(a: Angle)
    requires
        a.valid(),
    ensures
        a is Radian ==> (a.degrees_of() matches Ok(t) ==> converts_closely(
            a.units(),
            a.places(),
            Change::RadianToArc,
            Angle::Degree(t).units(),
            Angle::Degree(t).places() as int,
        )),
        a is Hour ==> (a.degrees_of() matches Ok(t) ==> converts_closely(
            a.units(),
            a.places(),
            Change::TimeToArc,
            Angle::Degree(t).units(),
            Angle::Degree(t).places() as int,
        )),
        a is Radian ==> (a.hours_of() matches Ok(t) ==> converts_closely(
            a.units(),
            a.places(),
            Change::RadianToTime,
            Angle::Hour(t).units(),
            Angle::Hour(t).places() as int,
        )),
        a is Degree ==> (a.hours_of() matches Ok(t) ==> converts_closely(
            a.units(),
            a.places(),
            Change::ArcToTime,
            Angle::Hour(t).units(),
            Angle::Hour(t).places() as int,
        )),
        a is Degree ==> (a.radians_of() matches Ok(x) ==> converts_closely(
            a.units(),
            a.places(),
            Change::ArcToRadian,
            x.mantissa as nat,
            x.scale as int,
        )),
        a is Hour ==> (a.radians_of() matches Ok(x) ==> converts_closely(
            a.units(),
            a.places(),
            Change::TimeToRadian,
            x.mantissa as nat,
            x.scale as int,
        )),
{
    match a {
        Angle::Degree(t) => {
            let n = triple_units(t.1, t.2, t.3);
            lemma_triple_result_is_close(t.0, n, t.3.scale, Change::ArcToTime);
            lemma_radian_result_is_close(t.0 == Sign::Negative, n, t.3.scale, Change::ArcToRadian);
        },
        Angle::Radian(x) => {
            let sign = Sign::of(x.negative);
            lemma_triple_result_is_close(sign, x.mantissa as nat, x.scale, Change::RadianToArc);
            lemma_triple_result_is_close(sign, x.mantissa as nat, x.scale, Change::RadianToTime);
        },
        Angle::Hour(t) => {
            let n = triple_units(t.1, t.2, t.3);
            lemma_radian_result_is_close(t.0 == Sign::Negative, n, t.3.scale, Change::TimeToRadian);
            if t.3.scale <= MAX_SCALE {
                let factor = pow10(t.3.scale as nat);
                lemma_units_triple(t.0, 15 * n, t.3.scale);
                assert(pow10(0) == 1);
                assert((15 * n) * 1 * factor * 1 == n * 15 * factor) by (nonlinear_arith);
                assert((15 * n) * 1 * 1 * 1 == n * 15 * 1) by (nonlinear_arith);
            } else {
                lemma_triple_result_is_close(
                    t.0,
                    t.3.mantissa as nat,
                    t.3.scale,
                    Change::TimeToArc,
                );
                assert(n == t.3.mantissa) by (nonlinear_arith)
                    requires
                        n == (t.1 as nat * 3600 + t.2 as nat * 60) * t.3.denominator()
                            + t.3.mantissa as nat,
                        t.1 == 0,
                        t.2 == 0,
                ;
            }
        },
    }
}

/// The radian that a conversion gives are close to what was converted.
proof fn lemma_radian_result_is_close(negative: bool, n: nat, scale: u16, change: Change)
    ensures
        radian_result(negative, n, scale, change) matches Ok(x) ==> converts_closely(
            n,
            scale as nat,
            change,
            x.mantissa as nat,
            x.scale as int,
        ),
{
    if n == 0 {
        let factor = pow10(scale as nat + change.digits());
        let high = pow10(scale as nat);
        assert(0 * change.times() * high == 0) by (nonlinear_arith);
        assert(0 * change.over() * factor * pow10(0) == 0) by (nonlinear_arith);
        assert(0 * change.times() * pow10(0) == 0) by (nonlinear_arith);
    } else {
        lemma_conversion_is_close(n, scale as nat, change);
    }
}

/// Every valid angle has a place on the grid of parts, and an angle on the
/// grid is its own. Turning the sign and going to the grid can be done in either
/// order.
pub proof fn lemma_grid_is_well_formed(a: Angle)
    requires
        a.valid(),
    ensures
        a.grid_of().wf(),
        a.wf() ==> a.grid_of() == a,
        a.opposite().grid_of() == a.grid_of().opposite(),
{
    assert(pow10(MAX_SCALE as nat) == PARTS) by {
        reveal_with_fuel(pow10, 18);
    }
    match a {
        Angle::Degree(t) => {
            if t.3.scale > MAX_SCALE {
                lemma_cut_decimal(t.3);
                let kept = cut_decimal(t.3);
                let whole = t.3.mantissa as nat / pow10((t.3.scale - MAX_SCALE) as nat);
                assert(kept == Decimal {
                    negative: t.3.negative,
                    mantissa: whole as u64,
                    scale: MAX_SCALE,
                });
                assert(kept.mantissa == whole);
                assert(sexagesimal_wf(t.2, kept));
            }
        },
        Angle::Radian(x) => {
            if x.scale > MAX_SCALE {
                lemma_cut_decimal(x);
            }
        },
        Angle::Hour(t) => {
            if t.3.scale > MAX_SCALE {
                lemma_cut_decimal(t.3);
                let kept = cut_decimal(t.3);
                let whole = t.3.mantissa as nat / pow10((t.3.scale - MAX_SCALE) as nat);
                assert(kept == Decimal {
                    negative: t.3.negative,
                    mantissa: whole as u64,
                    scale: MAX_SCALE,
                });
                assert(kept.mantissa == whole);
                assert(sexagesimal_wf(t.2, kept));
            }
        },
    }
}

/// A decimal cut down to seventeen places has at most a tenth of the mantissa.
proof fn lemma_cut_decimal(x: Decimal)
    requires
        x.scale > MAX_SCALE,
    ensures
        0 <= x.mantissa as nat / pow10((x.scale - MAX_SCALE) as nat) <= x.mantissa / 10,
{
    let left = (x.scale - MAX_SCALE) as nat;
    let power = pow10((left - 1) as nat);
    lemma_pow10_bound((left - 1) as nat);
    lemma_pow10_bound(left);
    vstd::arithmetic::div_mod::lemma_div_pos_is_pos(x.mantissa as int, pow10(left) as int);
    assert(pow10(left) == 10 * power);
    vstd::arithmetic::div_mod::lemma_div_denominator(x.mantissa as int, 10, power as int);
    vstd::arithmetic::div_mod::lemma_div_pos_is_pos((x.mantissa / 10) as int, power as int);
    vstd::arithmetic::div_mod::lemma_div_is_ordered_by_denominator(
        (x.mantissa / 10) as int,
        1,
        power as int,
    );
}

/// The sum of two numbers given by sign flag and magnitude.
fn add_signed(negative: bool, magnitude: u128, other_negative: bool, other: u128) -> (r: (
    bool,
    u128,
))
    requires
        magnitude + other <= u128::MAX,
    ensures
        (r.0, r.1 as nat) == signed_sum(negative, magnitude as nat, other_negative, other as nat),
{
    if negative == other_negative {
        (negative, magnitude + other)
    } else if magnitude > other {
        (negative, magnitude - other)
    } else if other > magnitude {
        (other_negative, other - magnitude)
    } else {
        (false, 0)
    }
}

/// A number of units of `10^-from`, written in units of `10^-to`.
pub(crate) fn lift(units: u128, from: u16, to: u16) -> (r: u128)
    requires
        from <= to <= MAX_SCALE,
        units <= 0x1_0000_0000_0000_0000 * pow10(from as nat),
    ensures
        r == lifted(units as nat, from, to),
        r <= 0x1_0000_0000_0000_0000 * 100_000_000_000_000_000,
{
    let factor: u128 = power_of_ten(to - from) as u128;
    proof {
        lemma_pow10_product(from as nat, (to - from) as nat);
        lemma_pow10_bound(from as nat);
        lemma_pow10_bound(to as nat);
        let low = pow10(from as nat);
        let high = pow10(to as nat);
        assert(units * factor <= 0x1_0000_0000_0000_0000 * 100_000_000_000_000_000)
            by (nonlinear_arith)
            requires
                units <= 0x1_0000_0000_0000_0000 * low,
                low * factor == high,
                high <= 100_000_000_000_000_000,
                factor >= 1,
        ;
    }
    units * factor
}

/// The larger of two scales.
fn wider_scale(scale: u16, other: u16) -> (r: u16)
    ensures
        r == wider(scale, other),
{
    if scale >= other {
        scale
    } else {
        other
    }
}

/// Whether the magnitude of a well-formed decimal, taken `times` over, is at most `π`.
pub(crate) fn radian_is_within_pi(x: Decimal, times: u8) -> (r: bool)
    requires
        x.wf(),
        times <= 2,
    ensures
        r == radian_within_pi(x, times as nat),
{
    let lift: u128 = power_of_ten(MAX_SCALE - x.scale) as u128;
    let count: u128 = times as u128;
    let magnitude: u128 = x.mantissa as u128;
    assert(count * magnitude <= 2 * 0x1_0000_0000_0000_0000) by (nonlinear_arith)
        requires
            count <= 2,
            magnitude <= 0x1_0000_0000_0000_0000,
    ;
    let scaled: u128 = count * magnitude;
    assert(scaled * lift <= 0x2_0000_0000_0000_0000 * 100_000_000_000_000_000)
        by (nonlinear_arith)
        requires
            scaled <= 0x2_0000_0000_0000_0000,
            lift <= 100_000_000_000_000_000,
    ;
    let parts: u128 = scaled * lift;
    parts <= PI_PARTS as u128
}

/// The product of a number and a factor, divided by a divisor, is the number
/// divided first, times the factor, and what is left of the number, times the
/// factor, divided after: nothing of the quotient is lost by dividing early.
pub proof fn lemma_scaled_quotient(value: int, factor: int, divisor: int)
    requires
        value >= 0,
        factor >= 0,
        divisor > 0,
    ensures
        (value * factor) / divisor == (value / divisor) * factor + ((value % divisor) * factor)
            / divisor,
        (value * factor) % divisor == ((value % divisor) * factor) % divisor,
{
    let whole = value / divisor;
    let rest = value % divisor;
    let first = rest * factor;
    let more = first / divisor;
    let left = first % divisor;
    vstd::arithmetic::div_mod::lemma_fundamental_div_mod(value, divisor);
    vstd::arithmetic::div_mod::lemma_fundamental_div_mod(first, divisor);
    vstd::arithmetic::div_mod::lemma_mod_pos_bound(first, divisor);
    assert(value * factor == (whole * factor + more) * divisor + left) by (nonlinear_arith)
        requires
            value == divisor * whole + rest,
            rest * factor == divisor * more + left,
    ;
    vstd::arithmetic::div_mod::lemma_fundamental_div_mod_converse(
        value * factor,
        divisor,
        whole * factor + more,
        left,
    );
}

/// A quotient is its numerator by its denominator, rounded down.
pub proof fn lemma_rounds_down(numerator: nat, denominator: nat)
    requires
        denominator > 0,
    ensures
        rounds_down(numerator / denominator, numerator, denominator),
{
    let quotient = numerator as int / denominator as int;
    let rest = numerator as int % denominator as int;
    vstd::arithmetic::div_mod::lemma_fundamental_div_mod(numerator as int, denominator as int);
    vstd::arithmetic::div_mod::lemma_mod_pos_bound(numerator as int, denominator as int);
    assert(quotient * denominator == denominator * quotient) by (nonlinear_arith);
    assert((quotient + 1) * denominator == denominator * quotient + denominator)
        by (nonlinear_arith);
}

/// An angle brought to degrees on the grid of parts is well formed and is
/// that angle: the very parts where the angle is in degrees or hours, and the
/// angle rounded down to a part where it is in radian. It fails only for want
/// of room.
pub proof fn lemma_grid_degrees(a: Angle)
    requires
        a.wf(),
    ensures
        a.grid_degrees_of() matches Ok(t) ==> t.wf() && a.is_in_grid_degrees(t),
        a.grid_degrees_of() matches Err(e) ==> e == Error::RangeViolation,
{
    lemma_pow10_bound(MAX_SCALE as nat);
    assert(pow10(0) == 1);
    match a {
        Angle::Degree(t) => {},
        Angle::Radian(x) => {
            let parts = a.parts();
            let arc = seconds_of_radian(parts, HALF_TURN_ARC as nat);
            lemma_rounds_down(parts * (HALF_TURN_ARC as nat * PARTS as nat), PI_PARTS as nat);
            lemma_units_triple(Sign::of(x.negative), arc, MAX_SCALE);
            if let Ok(r) = units_triple(Sign::of(x.negative), arc, MAX_SCALE) {
                lemma_parts_of_units(r.1, r.2, r.3);
                assert(arc * 1 == arc) by (nonlinear_arith);
            }
        },
        Angle::Hour(t) => {
            lemma_parts_of_units(t.1, t.2, t.3);
            let units = 15 * triple_units(t.1, t.2, t.3);
            lemma_units_triple(t.0, units, t.3.scale);
            if let Ok(r) = units_triple(t.0, units, t.3.scale) {
                lemma_parts_of_units(r.1, r.2, r.3);
                let lift = pow10((MAX_SCALE - t.3.scale) as nat);
                assert((15 * triple_units(t.1, t.2, t.3)) * lift == 15 * (triple_units(
                    t.1,
                    t.2,
                    t.3,
                ) * lift)) by (nonlinear_arith);
            }
        },
    }
}

/// The sum of two angles is well formed. It is in radian only if both angles
/// are, and then it has the parts of both, each counted with its sign. Otherwise
/// it is in degrees and has the parts of both angles in degrees; for angles in
/// degrees and hours those are their own parts.
pub proof fn lemma_sum_adds_parts(a: Angle, b: Angle)
    requires
        a.wf(),
        b.wf(),
    ensures
        a.sum_of(b) matches Ok(r) ==> {
            &&& r.wf()
            &&& r.in_radian() == (a.in_radian() && b.in_radian())
            &&& a.in_radian() && b.in_radian() ==> r.signed_parts() == a.signed_parts()
                + b.signed_parts()
            &&& !(a.in_radian() && b.in_radian()) ==> (a.grid_degrees_of() matches Ok(s)
                && b.grid_degrees_of() matches Ok(t) && r.signed_parts() == Angle::Degree(
                s,
            ).signed_parts() + Angle::Degree(t).signed_parts())
            &&& !a.in_radian() && !b.in_radian() ==> r.signed_parts() == a.signed_parts()
                + b.signed_parts()
        },
{
    lemma_pow10_bound(MAX_SCALE as nat);
    match (a, b) {
        (Angle::Radian(x), Angle::Radian(y)) => {
            let scale = wider(x.scale, y.scale);
            let lift = pow10((MAX_SCALE - scale) as nat) as int;
            lemma_pow10_bound((MAX_SCALE - scale) as nat);
            lemma_lifted_parts(x.mantissa as nat, x.scale, scale);
            lemma_lifted_parts(y.mantissa as nat, y.scale, scale);
            lemma_signed_sum_times(
                x.negative,
                lifted(x.mantissa as nat, x.scale, scale),
                y.negative,
                lifted(y.mantissa as nat, y.scale, scale),
                lift,
            );
        },
        _ => {
            lemma_grid_degrees(a);
            lemma_grid_degrees(b);
            if let (Ok(s), Ok(t)) = (a.grid_degrees_of(), b.grid_degrees_of()) {
                let scale = wider(s.3.scale, t.3.scale);
                let lift = pow10((MAX_SCALE - scale) as nat) as int;
                lemma_pow10_bound((MAX_SCALE - scale) as nat);
                let mine = lifted(triple_units(s.1, s.2, s.3), s.3.scale, scale);
                let theirs = lifted(triple_units(t.1, t.2, t.3), t.3.scale, scale);
                lemma_parts_of_units(s.1, s.2, s.3);
                lemma_parts_of_units(t.1, t.2, t.3);
                lemma_lifted_parts(triple_units(s.1, s.2, s.3), s.3.scale, scale);
                lemma_lifted_parts(triple_units(t.1, t.2, t.3), t.3.scale, scale);
                lemma_signed_sum_times(
                    s.0 == Sign::Negative,
                    mine,
                    t.0 == Sign::Negative,
                    theirs,
                    lift,
                );
                let (negative, units) = signed_sum(
                    s.0 == Sign::Negative,
                    mine,
                    t.0 == Sign::Negative,
                    theirs,
                );
                lemma_units_triple(Sign::of(negative), units, scale);
                if let Ok(r) = units_triple(Sign::of(negative), units, scale) {
                    lemma_parts_of_units(r.1, r.2, r.3);
                    if !a.in_radian() {
                        assert(Angle::Degree(s).signed_parts() == a.signed_parts());
                    }
                    if !b.in_radian() {
                        assert(Angle::Degree(t).signed_parts() == b.signed_parts());
                    }
                }
            }
        },
    }
}

/// The difference of two angles is the sum of the first and the opposite of
/// the second, whose parts are those of the second with the sign turned.
pub proof fn lemma_difference_subtracts_parts(a: Angle, b: Angle)
    requires
        a.wf(),
        b.wf(),
    ensures
        b.opposite().wf(),
        b.opposite().signed_parts() == -b.signed_parts(),
        b.opposite().in_radian() == b.in_radian(),
        a.sum_of(b.opposite()) matches Ok(r) ==> r.wf() && (!a.in_radian() && !b.in_radian()
            ==> r.signed_parts() == a.signed_parts() - b.signed_parts()) && (a.in_radian()
            && b.in_radian() ==> r.signed_parts() == a.signed_parts() - b.signed_parts()),
{
    lemma_sum_adds_parts(a, b.opposite());
}

/// Units that are written with more digits, and then with seventeen, are the
/// units written with seventeen digits.
proof fn lemma_lifted_parts(units: nat, from: u16, to: u16)
    requires
        from <= to <= MAX_SCALE,
    ensures
        lifted(units, from, to) * pow10((MAX_SCALE - to) as nat) == units * pow10(
            (MAX_SCALE - from) as nat,
        ),
{
    let first = pow10((to - from) as nat);
    let second = pow10((MAX_SCALE - to) as nat);
    lemma_pow10_product((to - from) as nat, (MAX_SCALE - to) as nat);
    assert((units * first) * second == units * (first * second)) by (nonlinear_arith);
}

/// The sum of two signed magnitudes, taken `times` over, is the sum of the two
/// taken `times` over, each with its sign.
proof fn lemma_signed_sum_times(
    negative: bool,
    magnitude: nat,
    other_negative: bool,
    other: nat,
    times: int,
)
    requires
        times >= 1,
    ensures
        ({
            let (sign, sum) = signed_sum(negative, magnitude, other_negative, other);
            (if sign {
                -(sum * times)
            } else {
                sum * times
            }) == (if negative {
                -(magnitude * times)
            } else {
                magnitude * times
            }) + (if other_negative {
                -(other * times)
            } else {
                other * times
            })
        }),
{
    assert((magnitude + other) * times == magnitude * times + other * times) by (nonlinear_arith);
    if magnitude >= other {
        assert((magnitude - other) * times == magnitude * times - other * times)
            by (nonlinear_arith);
    } else {
        assert((other - magnitude) * times == other * times - magnitude * times)
            by (nonlinear_arith);
    }
}

/// Being the same angle is an equivalence: every angle is the same as itself,
/// the order of two angles does not matter, and two angles that are the same as
/// a third are the same.
pub proof fn lemma_same_angle_is_an_equivalence(a: Angle, b: Angle, c: Angle)
    ensures
        a.same_angle(a),
        a.same_angle(b) == b.same_angle(a),
        a.same_angle(b) && b.same_angle(c) ==> a.same_angle(c),
{
}

/// The intervals of an angle, told by its parts and its sign flag alone.
pub proof fn lemma_angle_intervals_in_parts(a: Angle)
    requires
        a.wf(),
    ensures
        !a.in_radian() ==> a.within_quarter_turn() == (a.parts() <= 15 * 6 * 3600 * pow10(
            MAX_SCALE as nat,
        )),
        !a.in_radian() ==> a.within_half_turn() == (a.parts() <= 15 * 12 * 3600 * pow10(
            MAX_SCALE as nat,
        ) && (!a.negative() || a.parts() == 0)),
        a.in_radian() ==> a.within_quarter_turn() == (2 * a.parts() <= PI_PARTS),
        a.in_radian() ==> a.within_half_turn() == (a.parts() <= PI_PARTS && (!a.negative()
            || a.parts() == 0)),
{
    lemma_pow10_bound(MAX_SCALE as nat);
    match a {
        Angle::Degree(t) => {
            lemma_triple_parts_at_most(t.1, t.2, t.3, 90);
            lemma_triple_parts_at_most(t.1, t.2, t.3, 180);
            lemma_triple_parts_zero(t.1, t.2, t.3);
        },
        Angle::Radian(x) => {
            let lift = pow10((MAX_SCALE - x.scale) as nat);
            let mantissa = x.mantissa as nat;
            lemma_pow10_bound((MAX_SCALE - x.scale) as nat);
            assert(2 * mantissa * lift == 2 * (mantissa * lift)) by (nonlinear_arith);
            assert(1 * mantissa * lift == mantissa * lift) by (nonlinear_arith);
            assert((mantissa * lift == 0) == (mantissa == 0)) by (nonlinear_arith)
                requires
                    lift >= 1,
            ;
        },
        Angle::Hour(t) => {
            lemma_triple_parts_at_most(t.1, t.2, t.3, 6);
            lemma_triple_parts_at_most(t.1, t.2, t.3, 12);
            lemma_triple_parts_zero(t.1, t.2, t.3);
            let unit = pow10(MAX_SCALE as nat);
            let parts = triple_parts(t.1, t.2, t.3);
            assert((parts <= 6 * 3600 * unit) == (15 * parts <= 15 * 6 * 3600 * unit))
                by (nonlinear_arith);
            assert((parts <= 12 * 3600 * unit) == (15 * parts <= 15 * 12 * 3600 * unit))
                by (nonlinear_arith);
        },
    }
}

} // verus!
