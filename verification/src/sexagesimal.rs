//! Sexagesimal triples: whole units, minutes and seconds, and the exact codec
//! between them and decimals.
use crate::error::Error;
use crate::number::{
    lemma_pow10_bound, lemma_pow10_product, pow10, power_of_ten, Decimal, Ratio, Sign, MAX_SCALE,
};
use vstd::prelude::*;

verus! {

/// The sexagesimal triple of the decimal `x`: its sign, the whole part of its
/// magnitude, the whole minutes in what is left, and the seconds left after those,
/// which carry the scale of `x`.
pub open spec fn sexagesimal_of(x: Decimal) -> (Sign, nat, nat, Decimal) {
    let unit = x.denominator();
    let major = x.mantissa as nat / unit;
    let minute_fraction = (x.mantissa as nat % unit) * 60;
    let minor = minute_fraction / unit;
    let second = (minute_fraction % unit) * 60;
    (
        Sign::of(x.negative),
        major,
        minor,
        Decimal { negative: false, mantissa: second as u64, scale: x.scale },
    )
}

/// A triple is well formed when its minutes are below sixty and its seconds are a
/// well-formed decimal from zero up to, but not reaching, sixty.
pub open spec fn sexagesimal_wf(minor: u32, second: Decimal) -> bool {
    &&& minor <= 59
    &&& second.wf()
    &&& !second.negative
    &&& second.mantissa < 60 * second.denominator()
}

/// The number that a triple stands for: `major + minor/60 + second/3600`, with
/// the sign of the triple, over the denominator `3600 * 10^scale`.
pub open spec fn decimal_of(sign: Sign, major: u32, minor: u32, second: Decimal) -> Ratio {
    Ratio {
        negative: sign == Sign::Negative,
        numerator: ((major as nat * 3600 + minor as nat * 60) * second.denominator()
            + second.mantissa as nat) as u128,
        denominator: (3600 * second.denominator()) as u128,
    }
}

/// Splits a decimal angle into sign, whole units, minutes and seconds.
///
/// The sign is taken from the sign flag and not from the magnitude, so a negative
/// zero gives `Negative`. Fails with `RangeViolation` if the whole part does not
/// fit in 32 bits.
pub fn decimal_to_sexagesimal(x: Decimal) -> (r: Result<(Sign, u32, u32, Decimal), Error>)
    requires
        x.wf(),
    ensures
        match r {
            Ok(t) => {
                &&& (t.0, t.1 as nat, t.2 as nat, t.3) == sexagesimal_of(x)
                &&& sexagesimal_wf(t.2, t.3)
                &&& decimal_of(t.0, t.1, t.2, t.3).same_as(x)
            },
            Err(e) => e == Error::RangeViolation && sexagesimal_of(x).1 > u32::MAX,
        },
{
    proof {
        if sexagesimal_of(x).1 <= u32::MAX {
            lemma_sexagesimal_round_trip(x);
        }
    }
    let unit: u64 = power_of_ten(x.scale);
    let major: u64 = x.mantissa / unit;
    if major > u32::MAX as u64 {
        return Err(Error::RangeViolation);
    }
    let minute_fraction: u64 = (x.mantissa % unit) * 60;
    let minor: u64 = minute_fraction / unit;
    let second: u64 = (minute_fraction % unit) * 60;
    assert(minor < 60) by (nonlinear_arith)
        requires
            minor == minute_fraction / unit,
            minute_fraction < 60 * unit,
            unit > 0,
    ;
    Ok(
        (
            Sign::from_flag(x.negative),
            major as u32,
            minor as u32,
            Decimal { negative: false, mantissa: second, scale: x.scale },
        ),
    )
}

/// Joins a triple into the exact number `major + minor/60 + second/3600`, negated
/// for a `Negative` sign.
pub fn sexagesimal_to_decimal(sign: Sign, major: u32, minor: u32, second: Decimal) -> (r: Ratio)
    requires
        second.wf(),
    ensures
        r == decimal_of(sign, major, minor, second),
        r.wf(),
{
    let unit: u128 = power_of_ten(second.scale) as u128;
    let whole: u128 = (major as u128) * 3600 + (minor as u128) * 60;
    assert(whole * unit <= 16_000_000_000_000 * 100_000_000_000_000_000) by (nonlinear_arith)
        requires
            whole <= 16_000_000_000_000,
            unit <= 100_000_000_000_000_000,
    ;
    Ratio {
        negative: sign.is_negative(),
        numerator: whole * unit + second.mantissa as u128,
        denominator: 3600 * unit,
    }
}

/// Sexagesimal Degree
#[derive(Clone, Copy, Debug, PartialEq, Eq, Structural)]
pub struct DegMinSec(
    /// Sign of angle
    pub Sign,
    /// Degrees
    pub u32,
    /// Arc minutes
    pub u32,
    /// Arc seconds
    pub Decimal,
);

/// Sexagesimal Hour
#[derive(Clone, Copy, Debug, PartialEq, Eq, Structural)]
pub struct HourMinSec(
    /// Sign of angle
    pub Sign,
    /// Hours
    pub u32,
    /// Minutes
    pub u32,
    /// Seconds
    pub Decimal,
);

impl DegMinSec {
    /// Arc minutes and arc seconds are within their ranges.
    pub open spec fn wf(&self) -> bool {
        sexagesimal_wf(self.2, self.3)
    }

    /// Decimal degrees to degrees, arc minutes and arc seconds.
    pub fn angle_to_ams(decimal_angle: Decimal) -> (r: Result<DegMinSec, Error>)
        requires
            decimal_angle.wf(),
        ensures
            match r {
                Ok(t) => (t.0, t.1 as nat, t.2 as nat, t.3) == sexagesimal_of(decimal_angle)
                    && t.wf() && decimal_of(t.0, t.1, t.2, t.3).same_as(decimal_angle),
                Err(e) => e == Error::RangeViolation && sexagesimal_of(decimal_angle).1
                    > u32::MAX,
            },
    {
        match decimal_to_sexagesimal(decimal_angle) {
            Ok(t) => Ok(DegMinSec(t.0, t.1, t.2, t.3)),
            Err(e) => Err(e),
        }
    }

    /// The angle in degrees, exactly.
    pub fn to_decimal(&self) -> (r: Ratio)
        requires
            self.wf(),
        ensures
            r == decimal_of(self.0, self.1, self.2, self.3),
            r.wf(),
    {
        sexagesimal_to_decimal(self.0, self.1, self.2, self.3)
    }
}

impl HourMinSec {
    /// Minutes and seconds are within their ranges.
    pub open spec fn wf(&self) -> bool {
        sexagesimal_wf(self.2, self.3)
    }

    /// Decimal hours to hours, minutes and seconds.
    pub fn angle_to_ams(decimal_angle: Decimal) -> (r: Result<HourMinSec, Error>)
        requires
            decimal_angle.wf(),
        ensures
            match r {
                Ok(t) => (t.0, t.1 as nat, t.2 as nat, t.3) == sexagesimal_of(decimal_angle)
                    && t.wf() && decimal_of(t.0, t.1, t.2, t.3).same_as(decimal_angle),
                Err(e) => e == Error::RangeViolation && sexagesimal_of(decimal_angle).1
                    > u32::MAX,
            },
    {
        match decimal_to_sexagesimal(decimal_angle) {
            Ok(t) => Ok(HourMinSec(t.0, t.1, t.2, t.3)),
            Err(e) => Err(e),
        }
    }

    /// The angle in hours, exactly.
    pub fn to_decimal(&self) -> (r: Ratio)
        requires
            self.wf(),
        ensures
            r == decimal_of(self.0, self.1, self.2, self.3),
            r.wf(),
    {
        sexagesimal_to_decimal(self.0, self.1, self.2, self.3)
    }
}

/// Whether the magnitude of a triple is at most `limit` whole units.
pub open spec fn triple_at_most(major: u32, minor: u32, second: Decimal, limit: nat) -> bool {
    (major as nat * 3600 + minor as nat * 60) * second.denominator() + second.mantissa as nat
        <= limit * 3600 * second.denominator()
}

/// The magnitude of a triple in parts of `10^-17` of a second.
pub open spec fn triple_parts(major: u32, minor: u32, second: Decimal) -> nat {
    (major as nat * 3600 + minor as nat * 60) * pow10(MAX_SCALE as nat) + second.mantissa as nat
        * pow10((MAX_SCALE - second.scale) as nat)
}

/// The magnitude of a triple in the units of its seconds: so many times
/// `10^-scale` of a second.
pub open spec fn triple_units(major: u32, minor: u32, second: Decimal) -> nat {
    (major as nat * 3600 + minor as nat * 60) * second.denominator() + second.mantissa as nat
}

/// The whole units, the minutes and the mantissa of the seconds of so many
/// times `10^-scale` of a second.
pub open spec fn units_split(units: nat, scale: u16) -> (nat, nat, nat) {
    let second = pow10(scale as nat);
    (units / (3600 * second), (units % (3600 * second)) / (60 * second), units % (60 * second))
}

/// The triple of a sign and so many times `10^-scale` of a second, if its whole
/// units fit 32 bits.
pub open spec fn units_triple(sign: Sign, units: nat, scale: u16) -> Result<
    (Sign, u32, u32, Decimal),
    Error,
> {
    let (major, minor, second) = units_split(units, scale);
    if major <= u32::MAX {
        Ok(
            (
                sign,
                major as u32,
                minor as u32,
                Decimal { negative: false, mantissa: second as u64, scale },
            ),
        )
    } else {
        Err(Error::RangeViolation)
    }
}

/// Whether a triple is zero.
pub open spec fn triple_is_zero(major: u32, minor: u32, second: Decimal) -> bool {
    major == 0 && minor == 0 && second.mantissa == 0
}

/// Whether minutes and seconds are within their ranges.
pub fn triple_is_wf(minor: u32, second: Decimal) -> (r: bool)
    ensures
        r == sexagesimal_wf(minor, second),
{
    minor <= 59 && second.scale <= MAX_SCALE && !second.negative && second.mantissa < 60
        * power_of_ten(second.scale)
}

/// The magnitude of a well-formed triple in parts of `10^-17` of a second.
pub(crate) fn parts_of_triple(major: u32, minor: u32, second: Decimal) -> (r: u128)
    requires
        sexagesimal_wf(minor, second),
    ensures
        r == triple_parts(major, minor, second),
        r <= 1_600_000_000_000_000_000_000_000_000_000,
{
    let unit: u128 = power_of_ten(MAX_SCALE) as u128;
    let lift: u128 = power_of_ten(MAX_SCALE - second.scale) as u128;
    let whole: u128 = (major as u128) * 3600 + (minor as u128) * 60;
    let mantissa: u128 = second.mantissa as u128;
    assert(whole * unit <= 15_500_000_000_000 * 100_000_000_000_000_000) by (nonlinear_arith)
        requires
            whole <= 15_500_000_000_000,
            unit <= 100_000_000_000_000_000,
    ;
    assert(mantissa * lift <= 0x1_0000_0000_0000_0000 * 100_000_000_000_000_000)
        by (nonlinear_arith)
        requires
            mantissa <= 0x1_0000_0000_0000_0000,
            lift <= 100_000_000_000_000_000,
    ;
    proof {
        // Seconds below sixty stay below sixty when they are written with more digits.
        lemma_pow10_product(second.scale as nat, (MAX_SCALE - second.scale) as nat);
        assert(pow10(17) == 100_000_000_000_000_000) by {
            reveal_with_fuel(pow10, 18);
        }
        let scale = second.denominator();
        assert(mantissa * lift < 60 * 100_000_000_000_000_000) by (nonlinear_arith)
            requires
                mantissa < 60 * scale,
                scale * lift == 100_000_000_000_000_000,
                lift >= 1,
        ;
    }
    whole * unit + mantissa * lift
}

/// The magnitude of a well-formed triple in the units of its seconds.
pub(crate) fn units_of_triple(major: u32, minor: u32, second: Decimal) -> (r: u128)
    requires
        sexagesimal_wf(minor, second),
    ensures
        r == triple_units(major, minor, second),
        r <= 1_600_000_000_000_000_000_000_000_000_000,
{
    let unit: u128 = power_of_ten(second.scale) as u128;
    let whole: u128 = (major as u128) * 3600 + (minor as u128) * 60;
    assert(whole * unit <= 15_500_000_000_000 * 100_000_000_000_000_000) by (nonlinear_arith)
        requires
            whole <= 15_500_000_000_000,
            unit <= 100_000_000_000_000_000,
    ;
    whole * unit + second.mantissa as u128
}

/// The triple of a sign and so many times `10^-scale` of a second. Fails with
/// `RangeViolation` if its whole units do not fit 32 bits.
pub fn triple_from_units(sign: Sign, units: u128, scale: u16) -> (r: Result<
    (Sign, u32, u32, Decimal),
    Error,
>)
    requires
        scale <= MAX_SCALE,
    ensures
        r == units_triple(sign, units as nat, scale),
        r matches Ok(t) ==> sexagesimal_wf(t.2, t.3) && triple_units(t.1, t.2, t.3) == units,
{
    let second: u128 = power_of_ten(scale) as u128;
    let major: u128 = units / (3600 * second);
    if major > u32::MAX as u128 {
        return Err(Error::RangeViolation);
    }
    let rest: u128 = units % (3600 * second);
    let minor: u128 = rest / (60 * second);
    let left: u128 = units % (60 * second);
    proof {
        lemma_units_triple(sign, units as nat, scale);
    }
    Ok(
        (
            sign,
            major as u32,
            minor as u32,
            Decimal { negative: false, mantissa: left as u64, scale },
        ),
    )
}

/// Whether the magnitude of a well-formed triple is at most `limit` whole units.
pub fn triple_is_at_most(major: u32, minor: u32, second: Decimal, limit: u32) -> (r: bool)
    requires
        sexagesimal_wf(minor, second),
    ensures
        r == triple_at_most(major, minor, second, limit as nat),
{
    let r = major < limit || (major == limit && minor == 0 && second.mantissa == 0);
    proof {
        lemma_pow10_bound(second.scale as nat);
        let unit = second.denominator();
        let m = major as nat;
        let n = minor as nat;
        let s = second.mantissa as nat;
        let l = limit as nat;
        if major < limit {
            assert((m * 3600 + n * 60) * unit + s <= l * 3600 * unit) by (nonlinear_arith)
                requires
                    m + 1 <= l,
                    n <= 59,
                    s < 60 * unit,
            ;
        } else if major == limit {
            assert(((m * 3600 + n * 60) * unit + s <= l * 3600 * unit) == (n == 0 && s == 0))
                by (nonlinear_arith)
                requires
                    m == l,
                    unit >= 1,
            ;
        } else {
            assert((m * 3600 + n * 60) * unit + s > l * 3600 * unit) by (nonlinear_arith)
                requires
                    m >= l + 1,
                    unit >= 1,
            ;
        }
    }
    r
}

/// The units of a well-formed triple are fewer than `2^64` for each unit of
/// its scale.
pub(crate) proof fn lemma_units_bound(major: u32, minor: u32, second: Decimal)
    requires
        sexagesimal_wf(minor, second),
    ensures
        triple_units(major, minor, second) <= 0x1_0000_0000_0000_0000 * second.denominator(),
{
    let unit = second.denominator();
    let whole = major as nat * 3600 + minor as nat * 60;
    let mantissa = second.mantissa as nat;
    lemma_pow10_bound(second.scale as nat);
    assert(whole * unit + mantissa <= 0x1_0000_0000_0000_0000 * unit) by (nonlinear_arith)
        requires
            whole <= 15_500_000_000_000,
            mantissa < 60 * unit,
            unit >= 1,
    ;
}

/// The parts of a triple are its units, written with seventeen digits.
pub proof fn lemma_parts_of_units(major: u32, minor: u32, second: Decimal)
    requires
        second.wf(),
    ensures
        triple_parts(major, minor, second) == triple_units(major, minor, second) * pow10(
            (MAX_SCALE - second.scale) as nat,
        ),
{
    let unit = second.denominator();
    let lift = pow10((MAX_SCALE - second.scale) as nat);
    let whole = major as nat * 3600 + minor as nat * 60;
    let mantissa = second.mantissa as nat;
    lemma_pow10_product(second.scale as nat, (MAX_SCALE - second.scale) as nat);
    assert(whole * (unit * lift) + mantissa * lift == (whole * unit + mantissa) * lift)
        by (nonlinear_arith);
}

/// The triple of so many units is well formed and has that many units.
pub proof fn lemma_units_triple(sign: Sign, units: nat, scale: u16)
    requires
        scale <= MAX_SCALE,
    ensures
        units_triple(sign, units, scale) matches Ok(t) ==> sexagesimal_wf(t.2, t.3) && t.0 == sign
            && t.3.scale == scale && triple_units(t.1, t.2, t.3) == units,
{
    lemma_pow10_bound(scale as nat);
    let second = pow10(scale as nat) as int;
    let hour = 3600 * second;
    let minute = 60 * second;
    let major = units as int / hour;
    let rest = units as int % hour;
    let minor = rest / minute;
    let left = units as int % minute;
    vstd::arithmetic::div_mod::lemma_fundamental_div_mod(units as int, hour);
    vstd::arithmetic::div_mod::lemma_fundamental_div_mod(rest, minute);
    vstd::arithmetic::div_mod::lemma_multiply_divide_lt(rest, minute, 60);
    assert(hour * major == minute * (major * 60)) by (nonlinear_arith)
        requires
            hour == 60 * minute,
    ;
    vstd::arithmetic::div_mod::lemma_mod_multiples_vanish(major * 60, rest, minute);
    assert(left == rest % minute);
    assert((major * 3600 + minor * 60) * second + left == units) by (nonlinear_arith)
        requires
            units == hour * major + rest,
            rest == minute * minor + left,
            hour == 3600 * second,
            minute == 60 * second,
    ;
}

/// The units of a well-formed triple, split again, are the triple.
pub proof fn lemma_units_split_of_triple(major: u32, minor: u32, second: Decimal)
    requires
        sexagesimal_wf(minor, second),
    ensures
        units_split(triple_units(major, minor, second), second.scale) == (
            major as nat,
            minor as nat,
            second.mantissa as nat,
        ),
{
    lemma_pow10_bound(second.scale as nat);
    let unit = second.denominator() as int;
    let hour = 3600 * unit;
    let minute = 60 * unit;
    let units = triple_units(major, minor, second) as int;
    let rest = minor * minute + second.mantissa;
    assert(units == major * hour + rest) by (nonlinear_arith)
        requires
            units == (major * 3600 + minor * 60) * unit + second.mantissa,
            hour == 3600 * unit,
            minute == 60 * unit,
            rest == minor * minute + second.mantissa,
    ;
    assert(rest < hour) by (nonlinear_arith)
        requires
            rest == minor * minute + second.mantissa,
            minor <= 59,
            second.mantissa < minute,
            hour == 60 * minute,
    ;
    vstd::arithmetic::div_mod::lemma_fundamental_div_mod_converse(units, hour, major as int, rest);
    vstd::arithmetic::div_mod::lemma_fundamental_div_mod_converse(
        rest,
        minute,
        minor as int,
        second.mantissa as int,
    );
    assert(units == (major * 60 + minor) * minute + second.mantissa) by (nonlinear_arith)
        requires
            units == major * hour + rest,
            rest == minor * minute + second.mantissa,
            hour == 60 * minute,
    ;
    vstd::arithmetic::div_mod::lemma_fundamental_div_mod_converse(
        units,
        minute,
        major * 60 + minor,
        second.mantissa as int,
    );
}

/// A triple is at most `limit` whole units exactly when its parts are at most
/// those of `limit` units.
pub proof fn lemma_triple_parts_at_most(major: u32, minor: u32, second: Decimal, limit: nat)
    requires
        second.wf(),
    ensures
        triple_at_most(major, minor, second, limit) == (triple_parts(major, minor, second) <= limit
            * 3600 * pow10(MAX_SCALE as nat)),
{
    let unit = second.denominator();
    let lift = pow10((MAX_SCALE - second.scale) as nat);
    let whole = major as nat * 3600 + minor as nat * 60;
    let mantissa = second.mantissa as nat;
    lemma_pow10_product(second.scale as nat, (MAX_SCALE - second.scale) as nat);
    lemma_pow10_bound((MAX_SCALE - second.scale) as nat);
    assert(whole * (unit * lift) + mantissa * lift == (whole * unit + mantissa) * lift)
        by (nonlinear_arith);
    assert(limit * 3600 * (unit * lift) == (limit * 3600 * unit) * lift) by (nonlinear_arith);
    assert((whole * unit + mantissa <= limit * 3600 * unit) == ((whole * unit + mantissa) * lift
        <= (limit * 3600 * unit) * lift)) by (nonlinear_arith)
        requires
            lift >= 1,
    ;
}

/// A triple has no parts exactly when it is zero.
pub(crate) proof fn lemma_triple_parts_zero(major: u32, minor: u32, second: Decimal)
    requires
        second.wf(),
    ensures
        (triple_parts(major, minor, second) == 0) == triple_is_zero(major, minor, second),
{
    let unit = pow10(MAX_SCALE as nat);
    let lift = pow10((MAX_SCALE - second.scale) as nat);
    let whole = major as nat * 3600 + minor as nat * 60;
    let mantissa = second.mantissa as nat;
    lemma_pow10_bound(MAX_SCALE as nat);
    lemma_pow10_bound((MAX_SCALE - second.scale) as nat);
    assert((whole * unit + mantissa * lift == 0) == (whole == 0 && mantissa == 0))
        by (nonlinear_arith)
        requires
            unit >= 1,
            lift >= 1,
    ;
}

/// Splitting a decimal into a triple and joining the triple again gives the
/// decimal back, exactly and with its sign, whenever the whole part fits the triple.
pub proof fn lemma_sexagesimal_round_trip(x: Decimal)
    requires
        x.wf(),
        sexagesimal_of(x).1 <= u32::MAX,
    ensures
        ({
            let t = sexagesimal_of(x);
            decimal_of(t.0, t.1 as u32, t.2 as u32, t.3).same_as(x)
        }),
{
    lemma_pow10_bound(x.scale as nat);
    let unit = x.denominator();
    let m = x.mantissa as nat;
    let major = m / unit;
    let rest = m % unit;
    let minute_fraction = rest * 60;
    let minor = minute_fraction / unit;
    let left = minute_fraction % unit;
    let second = left * 60;
    assert(m == major * unit + rest) by (nonlinear_arith)
        requires
            major == m / unit,
            rest == m % unit,
            unit > 0,
    ;
    assert(minute_fraction == minor * unit + left) by (nonlinear_arith)
        requires
            minor == minute_fraction / unit,
            left == minute_fraction % unit,
            unit > 0,
    ;
    assert(minor < 60) by (nonlinear_arith)
        requires
            minor == minute_fraction / unit,
            minute_fraction < 60 * unit,
            unit > 0,
    ;
    assert(((major * 3600 + minor * 60) * unit + second) * unit == m * (3600 * unit))
        by (nonlinear_arith)
        requires
            m == major * unit + rest,
            rest * 60 == minor * unit + left,
            second == left * 60,
    ;
    assert((major * 3600 + minor * 60) * unit <= 16_000_000_000_000 * 100_000_000_000_000_000)
        by (nonlinear_arith)
        requires
            major * 3600 + minor * 60 <= 16_000_000_000_000,
            unit <= 100_000_000_000_000_000,
    ;
}

} // verus!
