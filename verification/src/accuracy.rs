//! How close angles are to each other: the measure by which a converted angle
//! is held against the angle that was converted, and its laws.
use crate::angle::{
    converted, converts_closely, lemma_conversion_is_close, lemma_conversions_are_close,
    radian_result, triple_result, triple_valid, Angle, Change, HALF_TURN_ARC, PARTS, PI_PARTS,
};
use crate::error::Error;
use crate::number::{
    lemma_pow10_bound, lemma_pow10_monotonic, lemma_pow10_product, pow10, Decimal, Sign,
};
use crate::sexagesimal::{lemma_units_bound, sexagesimal_wf, triple_units, DegMinSec, HourMinSec};
use vstd::prelude::*;

verus! {

/// Whether `m / e` is `n / d` to within one part in `parts` of it. The two are
/// compared as whole numbers, each multiplied by both denominators.
pub open spec fn ratio_close(n: nat, d: nat, m: nat, e: nat, parts: nat) -> bool {
    parts * (m * d - n * e) <= n * e && parts * (n * e - m * d) <= n * e
}

/// The arc seconds in a unit of what a change converts, as a numerator and a
/// denominator: one in an arc second, fifteen in a second of time, and
/// `648000 / π` in a radian.
pub open spec fn arc_seconds_of(change: Change) -> (nat, nat) {
    match change {
        Change::RadianToArc => (HALF_TURN_ARC as nat * PARTS as nat, PI_PARTS as nat),
        Change::ArcToRadian => (1, 1),
        Change::RadianToTime => (HALF_TURN_ARC as nat * PARTS as nat, PI_PARTS as nat),
        Change::TimeToRadian => (15, 1),
        Change::ArcToTime => (1, 1),
        Change::TimeToArc => (15, 1),
    }
}

/// The arc seconds in a unit of what a change converts to.
pub open spec fn arc_seconds_to(change: Change) -> (nat, nat) {
    match change {
        Change::RadianToArc => (1, 1),
        Change::ArcToRadian => (HALF_TURN_ARC as nat * PARTS as nat, PI_PARTS as nat),
        Change::RadianToTime => (15, 1),
        Change::TimeToRadian => (HALF_TURN_ARC as nat * PARTS as nat, PI_PARTS as nat),
        Change::ArcToTime => (15, 1),
        Change::TimeToArc => (1, 1),
    }
}

impl Angle {
    /// The arc seconds in a second of the angle, or in a radian, as a
    /// numerator and a denominator: an hour is fifteen degrees, and `π` radian
    /// are 648000 arc seconds, with `π` taken to seventeen places.
    pub open spec fn unit(&self) -> (nat, nat) {
        match *self {
            Angle::Degree(_) => (1, 1),
            Angle::Radian(_) => (HALF_TURN_ARC as nat * PARTS as nat, PI_PARTS as nat),
            Angle::Hour(_) => (15, 1),
        }
    }

    /// The magnitude of the angle in arc seconds, as a numerator and a
    /// denominator: its units, see [`Angle::units`], times the arc seconds in
    /// each, over the power of ten that its places stand for.
    pub open spec fn arc_seconds(&self) -> (nat, nat) {
        (self.units() * self.unit().0, self.unit().1 * pow10(self.places()))
    }

    /// Whether the magnitude of `other` is that of this angle to within one part
    /// in `parts` of it, whatever the units of the two.
    pub open spec fn close_to(&self, other: Angle, parts: nat) -> bool {
        ratio_close(
            self.arc_seconds().0,
            self.arc_seconds().1,
            other.arc_seconds().0,
            other.arc_seconds().1,
            parts,
        )
    }
}

/// What a change gives within a part in `10^15`, counted in units and
/// places, lies within a part in `10^15` in arc seconds as well.
proof fn lemma_close_in_arc_seconds(n: nat, s: nat, change: Change, m: nat, at: nat)
    requires
        converts_closely(n, s, change, m, at as int),
    ensures
        ratio_close(
            n * arc_seconds_of(change).0,
            arc_seconds_of(change).1 * pow10(s),
            m * arc_seconds_to(change).0,
            arc_seconds_to(change).1 * pow10(at),
            1_000_000_000_000_000,
        ),
{
    let k: int = 1_000_000_000_000_000;
    let src = arc_seconds_of(change);
    let tgt = arc_seconds_to(change);
    let times = change.times();
    let over = change.over();
    let tens = pow10(change.digits());
    let high = pow10(at);
    let low = pow10(s);
    assert(pow10(0) == 1);
    lemma_pow10_bound(at);
    lemma_pow10_bound(s);
    lemma_pow10_product(s, change.digits());
    let exact: nat = n * times * high;
    let got: nat = m * over * (low * tens) * 1;
    assert(k * (got - exact) <= exact && k * (exact - got) <= exact);
    let c: nat = tgt.0 * src.1;
    let z: nat = over * tens;
    let radian: nat = 64_800_000_000_000_000_000_000;
    let pi: nat = 314_159_265_358_979_323;
    assert(HALF_TURN_ARC as nat * PARTS as nat == radian);
    assert(pow10(2) == 100 && pow10(6) == 1_000_000 && pow10(7) == 10_000_000) by {
        reveal_with_fuel(pow10, 8);
    }
    match change {
        Change::RadianToArc => {
            assert(times * c == z * (src.0 * tgt.1) && z >= 1 && c >= 1) by (nonlinear_arith)
                requires
                    times == radian,
                    over == pi,
                    tens == 1,
                    src.0 == radian,
                    src.1 == pi,
                    tgt.0 == 1,
                    tgt.1 == 1,
                    c == tgt.0 * src.1,
                    z == over * tens,
                    radian == 64_800_000_000_000_000_000_000,
                    pi == 314_159_265_358_979_323,
            ;
        },
        Change::ArcToRadian => {
            assert(times * c == z * (src.0 * tgt.1) && z >= 1 && c >= 1) by (nonlinear_arith)
                requires
                    times == pi,
                    over == 6_480_000_000_000_000,
                    tens == 10_000_000,
                    src.0 == 1,
                    src.1 == 1,
                    tgt.0 == radian,
                    tgt.1 == pi,
                    c == tgt.0 * src.1,
                    z == over * tens,
                    radian == 64_800_000_000_000_000_000_000,
                    pi == 314_159_265_358_979_323,
            ;
        },
        Change::RadianToTime => {
            assert(times * c == z * (src.0 * tgt.1) && z >= 1 && c >= 1) by (nonlinear_arith)
                requires
                    times == 4_320_000_000_000_000_000_000,
                    over == pi,
                    tens == 1,
                    src.0 == radian,
                    src.1 == pi,
                    tgt.0 == 15,
                    tgt.1 == 1,
                    c == tgt.0 * src.1,
                    z == over * tens,
                    radian == 64_800_000_000_000_000_000_000,
                    pi == 314_159_265_358_979_323,
            ;
        },
        Change::TimeToRadian => {
            assert(times * c == z * (src.0 * tgt.1) && z >= 1 && c >= 1) by (nonlinear_arith)
                requires
                    times == pi,
                    over == 4_320_000_000_000_000,
                    tens == 1_000_000,
                    src.0 == 15,
                    src.1 == 1,
                    tgt.0 == radian,
                    tgt.1 == pi,
                    c == tgt.0 * src.1,
                    z == over * tens,
                    radian == 64_800_000_000_000_000_000_000,
                    pi == 314_159_265_358_979_323,
            ;
        },
        Change::ArcToTime => {
            assert(times * c == z * (src.0 * tgt.1) && z >= 1 && c >= 1) by (nonlinear_arith)
                requires
                    times == 100,
                    over == 15,
                    tens == 100,
                    src.0 == 1,
                    src.1 == 1,
                    tgt.0 == 15,
                    tgt.1 == 1,
                    c == tgt.0 * src.1,
                    z == over * tens,
                    radian == 64_800_000_000_000_000_000_000,
                    pi == 314_159_265_358_979_323,
            ;
        },
        Change::TimeToArc => {
            assert(times * c == z * (src.0 * tgt.1) && z >= 1 && c >= 1) by (nonlinear_arith)
                requires
                    times == 15,
                    over == 1,
                    tens == 1,
                    src.0 == 15,
                    src.1 == 1,
                    tgt.0 == 1,
                    tgt.1 == 1,
                    c == tgt.0 * src.1,
                    z == over * tens,
                    radian == 64_800_000_000_000_000_000_000,
                    pi == 314_159_265_358_979_323,
            ;
        },
    }
    assert(z >= 1 && c >= 1);
    let first: nat = (n * src.0) * (tgt.1 * high);
    let second: nat = (m * tgt.0) * (src.1 * low);
    assert(exact * c == z * first) by (nonlinear_arith)
        requires
            exact == n * times * high,
            times * c == z * (src.0 * tgt.1),
            first == (n * src.0) * (tgt.1 * high),
    ;
    assert(got * c == z * second) by (nonlinear_arith)
        requires
            got == m * over * (low * tens) * 1,
            c == tgt.0 * src.1,
            z == over * tens,
            second == (m * tgt.0) * (src.1 * low),
    ;
    assert(k * (second - first) <= first && k * (first - second) <= first) by (nonlinear_arith)
        requires
            k * (got - exact) <= exact,
            k * (exact - got) <= exact,
            exact * c == z * first,
            got * c == z * second,
            z >= 1,
            c >= 1,
    ;
}

/// One side of the chain of two close ratios.
proof fn lemma_chain_side(k: int, j: int, u: int, v: int, w: int, af: int, bf: int)
    requires
        k >= 1,
        0 <= j,
        3 * j <= k,
        af >= 0,
        k * u <= bf,
        k * v <= af,
        k * bf <= (k + 1) * af,
        w == u + v,
    ensures
        j * w <= af,
{
    assert(k * w <= bf + af) by (nonlinear_arith)
        requires
            k * u <= bf,
            k * v <= af,
            w == u + v,
    ;
    assert(k * (k * w) <= (2 * k + 1) * af) by (nonlinear_arith)
        requires
            k * w <= bf + af,
            k * bf <= (k + 1) * af,
            k >= 1,
    ;
    assert(j * (2 * k + 1) <= k * k) by (nonlinear_arith)
        requires
            k >= 1,
            0 <= j,
            3 * j <= k,
    ;
    assert(j * (k * (k * w)) <= (k * k) * af) by (nonlinear_arith)
        requires
            k * (k * w) <= (2 * k + 1) * af,
            j * (2 * k + 1) <= k * k,
            af >= 0,
            j >= 0,
    ;
    assert(j * w <= af) by (nonlinear_arith)
        requires
            j * (k * (k * w)) <= (k * k) * af,
            k >= 1,
    ;
}

/// Two ratios that are each close to the next are close to each other, to
/// within three times as much.
pub proof fn lemma_ratio_close_chain(
    n: nat,
    d: nat,
    m: nat,
    e: nat,
    p: nat,
    f: nat,
    parts: nat,
    third: nat,
)
    requires
        d > 0 && e > 0 && f > 0,
        parts >= 1,
        3 * third <= parts,
        ratio_close(n, d, m, e, parts),
        ratio_close(m, e, p, f, parts),
    ensures
        ratio_close(n, d, p, f, third),
{
    let k = parts as int;
    let j = third as int;
    let a: int = (n * e) as int;
    let b: int = (m * d) as int;
    let c: int = (m * f) as int;
    let dd: int = (p * e) as int;
    let af: int = a * f;
    let bf: int = b * f;
    let x: int = p * d - n * f;
    assert(c * d == bf) by (nonlinear_arith)
        requires
            c == m * f,
            bf == b * f,
            b == m * d,
    ;
    assert(e * x == (dd - c) * d + (b - a) * f) by (nonlinear_arith)
        requires
            x == p * d - n * f,
            dd == p * e,
            c == m * f,
            b == m * d,
            a == n * e,
    ;
    assert(af >= 0 && bf >= 0) by (nonlinear_arith)
        requires
            af == a * f,
            bf == b * f,
            a >= 0,
            b >= 0,
            f >= 0,
    ;
    assert(k * bf <= (k + 1) * af) by (nonlinear_arith)
        requires
            k * (b - a) <= a,
            af == a * f,
            bf == b * f,
            f >= 0,
    ;
    assert(k * ((dd - c) * d) <= bf && k * ((c - dd) * d) <= bf) by (nonlinear_arith)
        requires
            k * (dd - c) <= c,
            k * (c - dd) <= c,
            c * d == bf,
            d >= 0,
    ;
    assert(k * ((b - a) * f) <= af && k * ((a - b) * f) <= af) by (nonlinear_arith)
        requires
            k * (b - a) <= a,
            k * (a - b) <= a,
            af == a * f,
            f >= 0,
    ;
    lemma_chain_side(k, j, (dd - c) * d, (b - a) * f, e * x, af, bf);
    assert((c - dd) * d + (a - b) * f == e * (-x)) by (nonlinear_arith)
        requires
            e * x == (dd - c) * d + (b - a) * f,
    ;
    lemma_chain_side(k, j, (c - dd) * d, (a - b) * f, e * (-x), af, bf);
    let nf: int = (n * f) as int;
    assert(af == e * nf) by (nonlinear_arith)
        requires
            af == a * f,
            a == n * e,
            nf == n * f,
    ;
    assert(j * x <= nf && j * (-x) <= nf) by (nonlinear_arith)
        requires
            j * (e * x) <= e * nf,
            j * (e * (-x)) <= e * nf,
            e > 0,
    ;
}

/// A ratio that is close to another has the other close to it, to within
/// one part less.
pub proof fn lemma_ratio_close_turned(n: nat, d: nat, m: nat, e: nat, parts: nat)
    requires
        parts >= 2,
        ratio_close(n, d, m, e, parts),
    ensures
        ratio_close(m, e, n, d, (parts - 1) as nat),
{
    let k = parts as int;
    let a: int = (n * e) as int;
    let b: int = (m * d) as int;
    assert((k - 1) * (a - b) <= b && (k - 1) * (b - a) <= b) by (nonlinear_arith)
        requires
            k * (b - a) <= a,
            k * (a - b) <= a,
            k >= 2,
            a >= 0,
            b >= 0,
    ;
}

/// A conversion gives the angle that was converted to within a part in
/// `10^15` of it, whatever the size of the angle and whatever the two units:
/// what [`Angle::to_deg`], [`Angle::to_hr`] and [`Angle::to_rad`] return is close
/// to the angle they are called on.
pub proof fn lemma_converted_angle_is_close(a: Angle)
    requires
        a.valid(),
    ensures
        a.degrees_of() matches Ok(t) ==> a.close_to(Angle::Degree(t), 1_000_000_000_000_000),
        a.hours_of() matches Ok(t) ==> a.close_to(Angle::Hour(t), 1_000_000_000_000_000),
        a.radians_of() matches Ok(x) ==> a.close_to(Angle::Radian(x), 1_000_000_000_000_000),
{
    lemma_conversions_are_close(a);
    lemma_close_to_itself(a, 1_000_000_000_000_000);
    let n = a.units();
    let s = a.places();
    if let Ok(t) = a.degrees_of() {
        let b = Angle::Degree(t);
        if a is Radian {
            lemma_close_in_arc_seconds(n, s, Change::RadianToArc, b.units(), b.places());
        } else if a is Hour {
            lemma_close_in_arc_seconds(n, s, Change::TimeToArc, b.units(), b.places());
        }
    }
    if let Ok(t) = a.hours_of() {
        let b = Angle::Hour(t);
        if a is Radian {
            lemma_close_in_arc_seconds(n, s, Change::RadianToTime, b.units(), b.places());
        } else if a is Degree {
            lemma_close_in_arc_seconds(n, s, Change::ArcToTime, b.units(), b.places());
        }
    }
    if let Ok(x) = a.radians_of() {
        let b = Angle::Radian(x);
        if a is Degree {
            lemma_close_in_arc_seconds(n, s, Change::ArcToRadian, b.units(), b.places());
        } else if a is Hour {
            lemma_close_in_arc_seconds(n, s, Change::TimeToRadian, b.units(), b.places());
        }
    }
}

/// Two angles that are each close to the next are close to each other, to
/// within three times as much: so are an angle and what two conversions in a
/// row give, and what two conversions give of one angle.
pub proof fn lemma_close_angles_chain(a: Angle, b: Angle, c: Angle, parts: nat, third: nat)
    requires
        parts >= 1,
        3 * third <= parts,
        a.close_to(b, parts),
        b.close_to(c, parts),
    ensures
        a.close_to(c, third),
{
    lemma_arc_seconds_denominator(a);
    lemma_arc_seconds_denominator(b);
    lemma_arc_seconds_denominator(c);
    lemma_ratio_close_chain(
        a.arc_seconds().0,
        a.arc_seconds().1,
        b.arc_seconds().0,
        b.arc_seconds().1,
        c.arc_seconds().0,
        c.arc_seconds().1,
        parts,
        third,
    );
}

/// An angle that is close to another has the other close to it, to within
/// one part less.
pub proof fn lemma_close_angles_turned(a: Angle, b: Angle, parts: nat)
    requires
        parts >= 2,
        a.close_to(b, parts),
    ensures
        b.close_to(a, (parts - 1) as nat),
{
    lemma_ratio_close_turned(
        a.arc_seconds().0,
        a.arc_seconds().1,
        b.arc_seconds().0,
        b.arc_seconds().1,
        parts,
    );
}

/// Two angles that are both close to a third, to within a part in `10^15`,
/// are close to each other to within a part in `3 * 10^14`.
pub proof fn lemma_close_to_the_same(a: Angle, b: Angle, c: Angle)
    requires
        a.close_to(b, 1_000_000_000_000_000),
        a.close_to(c, 1_000_000_000_000_000),
    ensures
        b.close_to(c, 300_000_000_000_000),
{
    let most: nat = 999_999_999_999_999;
    lemma_close_angles_turned(a, b, 1_000_000_000_000_000);
    lemma_close_angles_looser(b, a, most, 900_000_000_000_000);
    lemma_close_angles_looser(a, c, 1_000_000_000_000_000, 900_000_000_000_000);
    lemma_close_angles_chain(b, a, c, 900_000_000_000_000, 300_000_000_000_000);
}

/// What the three conversions give of one angle is the same angle to within
/// a part in `3 * 10^14`: fifteen times the hours are the degrees, and the
/// degrees are the radian, each by rounding alone and whatever the size of the
/// angle.
pub proof fn lemma_conversions_agree(a: Angle)
    requires
        a.valid(),
    ensures
        a.degrees_of() matches Ok(t) ==> (a.hours_of() matches Ok(h) ==> Angle::Hour(h).close_to(
            Angle::Degree(t),
            300_000_000_000_000,
        )),
        a.degrees_of() matches Ok(t) ==> (a.radians_of() matches Ok(x) ==> Angle::Radian(
            x,
        ).close_to(Angle::Degree(t), 300_000_000_000_000)),
        a.hours_of() matches Ok(h) ==> (a.radians_of() matches Ok(x) ==> Angle::Hour(h).close_to(
            Angle::Radian(x),
            300_000_000_000_000,
        )),
{
    lemma_converted_angle_is_close(a);
    if let Ok(t) = a.degrees_of() {
        if let Ok(h) = a.hours_of() {
            lemma_close_to_the_same(a, Angle::Hour(h), Angle::Degree(t));
        }
        if let Ok(x) = a.radians_of() {
            lemma_close_to_the_same(a, Angle::Radian(x), Angle::Degree(t));
        }
    }
    if let Ok(h) = a.hours_of() {
        if let Ok(x) = a.radians_of() {
            lemma_close_to_the_same(a, Angle::Hour(h), Angle::Radian(x));
        }
    }
}

/// An angle that went to another unit and came back is the angle to within a
/// part in `3 * 10^14`: a conversion and its way back change an angle by
/// rounding alone, whatever its size. Here `there` is the angle in the other
/// unit and `back` what came back of it, each by one of the three conversions.
pub proof fn lemma_round_trip_is_close(a: Angle, there: Angle, back: Angle)
    requires
        a.valid(),
        there.valid(),
        a.degrees_of() == Ok::<DegMinSec, Error>(there->Degree_0) && there is Degree
            || a.hours_of() == Ok::<HourMinSec, Error>(there->Hour_0) && there is Hour
            || a.radians_of() == Ok::<Decimal, Error>(there->Radian_0) && there is Radian,
        there.degrees_of() == Ok::<DegMinSec, Error>(back->Degree_0) && back is Degree
            || there.hours_of() == Ok::<HourMinSec, Error>(back->Hour_0) && back is Hour
            || there.radians_of() == Ok::<Decimal, Error>(back->Radian_0) && back is Radian,
    ensures
        a.close_to(back, 300_000_000_000_000),
{
    lemma_converted_angle_is_close(a);
    lemma_converted_angle_is_close(there);
    assert(a.close_to(there, 1_000_000_000_000_000));
    assert(there.close_to(back, 1_000_000_000_000_000));
    lemma_close_angles_chain(a, there, back, 1_000_000_000_000_000, 300_000_000_000_000);
}

/// Every angle is as close to itself as can be asked.
pub proof fn lemma_close_to_itself(a: Angle, parts: nat)
    ensures
        a.close_to(a, parts),
{
    let x: int = (a.arc_seconds().0 * a.arc_seconds().1) as int;
    assert(parts * (x - x) <= x) by (nonlinear_arith)
        requires
            x >= 0,
    ;
}

/// Angles that are close are close to within any more.
pub proof fn lemma_close_angles_looser(a: Angle, b: Angle, parts: nat, fewer: nat)
    requires
        fewer <= parts,
        a.close_to(b, parts),
    ensures
        a.close_to(b, fewer),
{
    let x: int = (a.arc_seconds().0 * b.arc_seconds().1) as int;
    let y: int = (b.arc_seconds().0 * a.arc_seconds().1) as int;
    assert(fewer * (y - x) <= x && fewer * (x - y) <= x) by (nonlinear_arith)
        requires
            parts * (y - x) <= x,
            parts * (x - y) <= x,
            0 <= fewer <= parts,
            x >= 0,
            y >= 0,
    ;
}

/// Radian that come of seconds are written with a scale that is not
/// negative: there are never as many as `10^16` of them.
proof fn lemma_radian_scale(n: nat, s: nat, change: Change)
    requires
        change == Change::ArcToRadian || change == Change::TimeToRadian,
        0 < n <= 0x1_0000_0000_0000_0000 * pow10(s),
    ensures
        converted(n, s, change).1 >= 0,
{
    let (m, at) = converted(n, s, change);
    lemma_conversion_is_close(n, s, change);
    if at < 0 {
        let low = (-at) as nat;
        let shift = pow10(low);
        let power = pow10(s);
        let tens = pow10(change.digits());
        let over = change.over();
        let times = change.times();
        lemma_pow10_monotonic(1, low);
        lemma_pow10_product(s, change.digits());
        assert(pow10(1) == 10 && pow10(0) == 1 && pow10(6) == 1_000_000 && pow10(7)
            == 10_000_000) by {
            reveal_with_fuel(pow10, 8);
        }
        let exact: nat = n * times * 1;
        let got: nat = m * over * (power * tens) * shift;
        let k: int = 1_000_000_000_000_000;
        assert(k * (got - exact) <= exact);
        let factor: nat = over * tens;
        assert(factor >= 4_000_000_000_000_000_000_000) by (nonlinear_arith)
            requires
                factor == over * tens,
                (over == 6_480_000_000_000_000 && tens == 10_000_000) || (over
                    == 4_320_000_000_000_000 && tens == 1_000_000),
        ;
        assert(got >= 40_000_000_000_000_000_000_000_000_000_000_000_000 * power)
            by (nonlinear_arith)
            requires
                got == m * over * (power * tens) * shift,
                factor == over * tens,
                factor >= 4_000_000_000_000_000_000_000,
                m >= 1_000_000_000_000_000,
                shift >= 10,
                power >= 0,
        ;
        assert(exact <= 6_000_000_000_000_000_000_000_000_000_000_000_000 * power)
            by (nonlinear_arith)
            requires
                exact == n * times * 1,
                times == 314_159_265_358_979_323,
                n <= 0x1_0000_0000_0000_0000 * power,
                power >= 0,
        ;
        lemma_pow10_bound(s);
        assert(false) by (nonlinear_arith)
            requires
                k * (got - exact) <= exact,
                k == 1_000_000_000_000_000,
                got >= 40_000_000_000_000_000_000_000_000_000_000_000_000 * power,
                exact <= 6_000_000_000_000_000_000_000_000_000_000_000_000 * power,
                power >= 1,
        ;
    }
}

/// Every angle has radian: [`Angle::to_rad`] does not fail, unless the angle
/// is written with more than 65500 places.
pub proof fn lemma_every_angle_has_radian(a: Angle)
    requires
        a.valid(),
        a.places() <= 65_500,
    ensures
        a.radians_of().is_ok(),
{
    match a {
        Angle::Degree(t) => {
            lemma_seconds_have_radian(t.1, t.2, t.3, Change::ArcToRadian);
        },
        Angle::Radian(_) => {},
        Angle::Hour(t) => {
            lemma_seconds_have_radian(t.1, t.2, t.3, Change::TimeToRadian);
        },
    }
}

/// The seconds of a triple that may stand in an angle have radian.
proof fn lemma_seconds_have_radian(major: u32, minor: u32, second: Decimal, change: Change)
    requires
        triple_valid(major, minor, second),
        second.scale <= 65_500,
        change == Change::ArcToRadian || change == Change::TimeToRadian,
    ensures
        radian_result(true, triple_units(major, minor, second), second.scale, change).is_ok(),
        radian_result(false, triple_units(major, minor, second), second.scale, change).is_ok(),
{
    let n = triple_units(major, minor, second);
    let s = second.scale as nat;
    let power = pow10(s);
    lemma_pow10_bound(s);
    if sexagesimal_wf(minor, second) {
        lemma_units_bound(major, minor, second);
    } else {
        assert(n == second.mantissa) by (nonlinear_arith)
            requires
                n == (major as nat * 3600 + minor as nat * 60) * power + second.mantissa as nat,
                major == 0,
                minor == 0,
        ;
        assert(n <= 0x1_0000_0000_0000_0000 * power) by (nonlinear_arith)
            requires
                n <= 0x1_0000_0000_0000_0000,
                power >= 1,
        ;
    }
    if n > 0 {
        lemma_radian_scale(n, s, change);
        lemma_conversion_is_close(n, s, change);
    }
}

/// So many units have a triple in another unit, if what they come to is at
/// most `1.5 * 10^13` seconds, which are some four thousand million degrees or
/// hours, and if they are written with at most 65500 places.
proof fn lemma_seconds_have_triple(sign: Sign, n: nat, s: u16, change: Change)
    requires
        s <= 65_500,
        n * change.times() <= 15_000_000_000_000 * (change.over() * pow10(
            s as nat + change.digits(),
        )),
    ensures
        triple_result(sign, n, s, change).is_ok(),
{
    if n > 0 {
        let (m, at) = converted(n, s as nat, change);
        lemma_conversion_is_close(n, s as nat, change);
        let k: int = 1_000_000_000_000_000;
        let wide: nat = change.over() * pow10(s as nat + change.digits());
        let most: nat = n * change.times();
        lemma_pow10_bound(s as nat + change.digits());
        assert(wide >= 1) by (nonlinear_arith)
            requires
                wide == change.over() * pow10(s as nat + change.digits()),
                change.over() >= 1,
                pow10(s as nat + change.digits()) >= 1,
        ;
        assert(pow10(0) == 1);
        if at < 0 {
            let low = (-at) as nat;
            let shift = pow10(low);
            lemma_pow10_monotonic(1, low);
            assert(pow10(1) == 10) by {
                reveal_with_fuel(pow10, 2);
            }
            let exact: nat = most * 1;
            let got: nat = m * change.over() * pow10(s as nat + change.digits()) * shift;
            assert(k * (got - exact) <= exact);
            assert(got >= 10_000_000_000_000_000 * wide) by (nonlinear_arith)
                requires
                    got == m * change.over() * pow10(s as nat + change.digits()) * shift,
                    wide == change.over() * pow10(s as nat + change.digits()),
                    m >= 1_000_000_000_000_000,
                    shift >= 10,
                    wide >= 0,
            ;
            assert(false) by (nonlinear_arith)
                requires
                    k * (got - exact) <= exact,
                    k == 1_000_000_000_000_000,
                    exact == most * 1,
                    most <= 15_000_000_000_000 * wide,
                    got >= 10_000_000_000_000_000 * wide,
                    wide >= 1,
            ;
        } else if at <= 17 {
            let high = pow10(at as nat);
            let lift = pow10((17 - at) as nat);
            lemma_pow10_bound(at as nat);
            lemma_pow10_bound((17 - at) as nat);
            lemma_pow10_product(at as nat, (17 - at) as nat);
            assert(pow10(17) == 100_000_000_000_000_000) by {
                reveal_with_fuel(pow10, 18);
            }
            let exact: nat = most * high;
            let got: nat = m * change.over() * pow10(s as nat + change.digits()) * 1;
            assert(k * (got - exact) <= exact);
            let units: nat = m * lift;
            assert(k * units <= (k + 1) * 15_000_000_000_000 * 100_000_000_000_000_000)
                by (nonlinear_arith)
                requires
                    k * (got - exact) <= exact,
                    k == 1_000_000_000_000_000,
                    got == m * change.over() * pow10(s as nat + change.digits()) * 1,
                    wide == change.over() * pow10(s as nat + change.digits()),
                    exact == most * high,
                    most <= 15_000_000_000_000 * wide,
                    units == m * lift,
                    high * lift == 100_000_000_000_000_000,
                    wide >= 1,
                    high >= 1,
                    lift >= 1,
            ;
            assert(units <= 1_500_000_000_000_002_000_000_000_000_000);
            assert(units / (3600 * pow10(17)) <= u32::MAX);
        }
    }
}

/// On which angles the conversions are owed. Every angle has radian and every
/// angle in degrees has hours. An angle in radian of at most a million radian
/// has degrees and hours. Angles of more than 65500 places are left out.
pub proof fn lemma_conversions_succeed(a: Angle)
    requires
        a.valid(),
        a.places() <= 65_500,
    ensures
        a.radians_of().is_ok(),
        a is Degree ==> a.degrees_of().is_ok() && a.hours_of().is_ok(),
        a is Hour ==> a.hours_of().is_ok(),
        a is Radian && a.units() <= 1_000_000 * pow10(a.places()) ==> a.degrees_of().is_ok()
            && a.hours_of().is_ok(),
{
    lemma_every_angle_has_radian(a);
    let power = pow10(a.places());
    lemma_pow10_bound(a.places());
    assert(pow10(2) == 100) by {
        reveal_with_fuel(pow10, 3);
    }
    assert(pow10(0) == 1);
    match a {
        Angle::Degree(t) => {
            let n = triple_units(t.1, t.2, t.3);
            let whole = t.1 as nat * 3600 + t.2 as nat * 60;
            let mantissa = t.3.mantissa as nat;
            lemma_pow10_product(a.places(), 2);
            if t.3.scale <= 17 {
                assert(n * 100 <= 15_000_000_000_000 * (15 * (power * 100))) by (nonlinear_arith)
                    requires
                        n == whole * power + mantissa,
                        power >= 1,
                        whole <= 15_500_000_000_000,
                        mantissa < 60 * power,
                ;
            } else {
                lemma_pow10_monotonic(18, a.places());
                assert(pow10(18) == 1_000_000_000_000_000_000) by {
                    reveal_with_fuel(pow10, 19);
                }
                assert(n * 100 <= 15_000_000_000_000 * (15 * (power * 100))) by (nonlinear_arith)
                    requires
                        n == whole * power + mantissa,
                        power >= 1_000_000_000_000_000_000,
                        whole == 0,
                        mantissa <= 0x1_0000_0000_0000_0000,
                ;
            }
            lemma_seconds_have_triple(t.0, n, t.3.scale, Change::ArcToTime);
        },
        Angle::Radian(x) => {
            if a.units() <= 1_000_000 * power {
                let n = x.mantissa as nat;
                let sign = Sign::of(x.negative);
                assert(n * 64_800_000_000_000_000_000_000 <= 15_000_000_000_000 * (
                314_159_265_358_979_323 * (power * 1))) by (nonlinear_arith)
                    requires
                        n <= 1_000_000 * power,
                        power >= 1,
                ;
                assert(n * 4_320_000_000_000_000_000_000 <= 15_000_000_000_000 * (
                314_159_265_358_979_323 * (power * 1))) by (nonlinear_arith)
                    requires
                        n <= 1_000_000 * power,
                        power >= 1,
                ;
                lemma_seconds_have_triple(sign, n, x.scale, Change::RadianToArc);
                lemma_seconds_have_triple(sign, n, x.scale, Change::RadianToTime);
            }
        },
        Angle::Hour(_) => {},
    }
}

/// The denominator of the arc seconds of an angle is not zero.
proof fn lemma_arc_seconds_denominator(a: Angle)
    ensures
        a.arc_seconds().1 > 0,
{
    let power = pow10(a.places());
    let unit = a.unit().1;
    lemma_pow10_bound(a.places());
    assert(unit * power > 0) by (nonlinear_arith)
        requires
            power >= 1,
            unit >= 1,
    ;
}

} // verus!
