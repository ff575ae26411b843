//! Coordinate systems: angles that are held to an interval, and the pairs of
//! angles that place a star on the sky or an observer on the Earth.
use crate::angle::{
    lemma_difference_subtracts_parts, lemma_grid_is_well_formed, lemma_sum_adds_parts, Angle,
};
use crate::error::Error;
use crate::number::Decimal;
use crate::time::GMST;
use vstd::prelude::*;

verus! {

/// Trait for constrained angles: an angle that is known to lie in the closed
/// interval of its type, from the moment it is made.
pub trait ConstrainedAngle: Sized {
    /// The angles that the type allows.
    spec fn allows(angle: Angle) -> bool;

    /// The angle that a value holds.
    spec fn angle(&self) -> Angle;

    /// Angle constructor that fails with `RangeViolation` when the underlying
    /// angle does not satisfy the constraints, and only then.
    fn new(angle: &Angle) -> (r: Result<Self, Error>)
        requires
            angle.valid(),
        ensures
            match r {
                Ok(c) => Self::allows(*angle) && c.angle() == *angle,
                Err(e) => !Self::allows(*angle) && e == Error::RangeViolation,
            },
    ;

    /// Get underlying angle
    fn value(&self) -> (r: Angle)
        ensures
            r == self.angle(),
            r.valid(),
            Self::allows(r),
    ;
}

/// Zenith Angle, from `0` to `π`.
///
/// <https://en.wikipedia.org/wiki/Zenith>
#[derive(Debug, Copy, Clone)]
pub struct ZenithAngle(Angle);

impl ZenithAngle {
    #[verifier::type_invariant]
    spec fn inv(self) -> bool {
        self.0.valid() && self.0.within_half_turn()
    }
}

impl ConstrainedAngle for ZenithAngle {
    open spec fn allows(angle: Angle) -> bool {
        angle.within_half_turn()
    }

    closed spec fn angle(&self) -> Angle {
        self.0
    }

    fn new(angle: &Angle) -> (r: Result<Self, Error>) {
        if angle.is_within_half_turn() {
            Ok(ZenithAngle(*angle))
        } else {
            Err(Error::RangeViolation)
        }
    }

    fn value(&self) -> (r: Angle) {
        proof {
            use_type_invariant(self);
        }
        self.0
    }
}

/// Declination, from `-π/2` to `π/2`.
///
/// <https://en.wikipedia.org/wiki/Declination>
#[derive(Debug, Copy, Clone)]
pub struct Declination(Angle);

impl Declination {
    #[verifier::type_invariant]
    spec fn inv(self) -> bool {
        self.0.valid() && self.0.within_quarter_turn()
    }
}

impl ConstrainedAngle for Declination {
    open spec fn allows(angle: Angle) -> bool {
        angle.within_quarter_turn()
    }

    closed spec fn angle(&self) -> Angle {
        self.0
    }

    fn new(angle: &Angle) -> (r: Result<Self, Error>) {
        if angle.is_within_quarter_turn() {
            Ok(Declination(*angle))
        } else {
            Err(Error::RangeViolation)
        }
    }

    fn value(&self) -> (r: Angle) {
        proof {
            use_type_invariant(self);
        }
        self.0
    }
}

/// Altitude, from `-π/2` to `π/2`.
///
/// <https://en.wikipedia.org/wiki/Horizontal_coordinate_system>
#[derive(Debug, Copy, Clone)]
pub struct Altitude(Angle);

impl Altitude {
    #[verifier::type_invariant]
    spec fn inv(self) -> bool {
        self.0.valid() && self.0.within_quarter_turn()
    }
}

impl ConstrainedAngle for Altitude {
    open spec fn allows(angle: Angle) -> bool {
        angle.within_quarter_turn()
    }

    closed spec fn angle(&self) -> Angle {
        self.0
    }

    fn new(angle: &Angle) -> (r: Result<Self, Error>) {
        if angle.is_within_quarter_turn() {
            Ok(Altitude(*angle))
        } else {
            Err(Error::RangeViolation)
        }
    }

    fn value(&self) -> (r: Angle) {
        proof {
            use_type_invariant(self);
        }
        self.0
    }
}

/// Latitude, from `-π/2` to `π/2`.
///
/// <https://en.wikipedia.org/wiki/Latitude>
#[derive(Debug, Copy, Clone)]
pub struct Latitude(Angle);

impl Latitude {
    #[verifier::type_invariant]
    spec fn inv(self) -> bool {
        self.0.valid() && self.0.within_quarter_turn()
    }
}

impl ConstrainedAngle for Latitude {
    open spec fn allows(angle: Angle) -> bool {
        angle.within_quarter_turn()
    }

    closed spec fn angle(&self) -> Angle {
        self.0
    }

    fn new(angle: &Angle) -> (r: Result<Self, Error>) {
        if angle.is_within_quarter_turn() {
            Ok(Latitude(*angle))
        } else {
            Err(Error::RangeViolation)
        }
    }

    fn value(&self) -> (r: Angle) {
        proof {
            use_type_invariant(self);
        }
        self.0
    }
}

/// Right Ascension
///
/// <https://en.wikipedia.org/wiki/Right_ascension>
#[derive(Debug, Copy, Clone)]
pub struct RightAscension(pub Angle);

/// Azimuth
///
/// <https://en.wikipedia.org/wiki/Azimuth>
#[derive(Debug, Copy, Clone)]
pub struct Azimuth(pub Angle);

/// Longitude
///
/// <https://en.wikipedia.org/wiki/Longitude>
#[derive(Debug, Copy, Clone)]
pub struct Longitude(pub Angle);

/// Cartesian Coordinates
///
/// <https://en.wikipedia.org/wiki/Cartesian_coordinate_system>
#[derive(Debug, Copy, Clone)]
pub struct Cartesian {
    pub x: Decimal,
    pub y: Decimal,
    pub z: Decimal,
}

/// Geographic Coordinates (Latitude/Longitude)
///
/// <https://en.wikipedia.org/wiki/Geographic_coordinate_system>
#[derive(Debug, Copy, Clone)]
pub struct Geographic {
    pub latitude: Latitude,
    pub longitude: Longitude,
}

/// Two-dimensional Polar Coordinates
///
/// <https://en.wikipedia.org/wiki/Polar_coordinate_system>
#[derive(Debug, Copy, Clone)]
pub struct Polar {
    pub radius: Decimal,
    pub angle: Angle,
}

/// Equitorial Astronomical Coordinates
///
/// <https://en.wikipedia.org/wiki/Astronomical_coordinate_systems#Equatorial_system>
#[derive(Debug, Copy, Clone)]
pub struct Equitorial {
    pub right_ascension: RightAscension,
    pub declination: Declination,
}

/// Horizontal Astronomical Coordinates
///
/// <https://en.wikipedia.org/wiki/Astronomical_coordinate_systems#Horizontal_system>
#[derive(Debug, Copy, Clone)]
pub struct Horizontal {
    pub altitude: Altitude,
    pub azimuth: Azimuth,
}

/// The local hour angle of a right ascension at a longitude and a sidereal
/// time: the time, plus the longitude, less the right ascension.
pub open spec fn hour_angle_of(right_ascension: Angle, longitude: Angle, time: Angle) -> Result<
    Angle,
    Error,
> {
    match time.grid_of().sum_of(longitude.grid_of()) {
        Ok(east) => east.sum_of(right_ascension.grid_of().opposite()),
        Err(e) => Err(e),
    }
}

impl Equitorial {
    /// The local hour angle of the place on the sky, seen from a place on the
    /// Earth at a sidereal time: the first step from equatorial to horizontal
    /// coordinates, and the only one that needs no sine or cosine. The angles
    /// are added on the grid of parts, see [`Angle::sum_of`]: degrees and hours
    /// exactly, and an angle in radian rounded down to a part in `10^17` of an arc
    /// second. Fails with `RangeViolation` where an angle or the result does not
    /// fit.
    pub fn local_hour_angle(&self, geo: &Geographic, sidereal_time: &GMST) -> (r: Result<
        Angle,
        Error,
    >)
        requires
            self.right_ascension.0.valid(),
            geo.longitude.0.valid(),
            sidereal_time.0.valid(),
        ensures
            r == hour_angle_of(self.right_ascension.0, geo.longitude.0, sidereal_time.0),
            r matches Ok(angle) ==> angle.wf() && (!sidereal_time.0.in_radian()
                && !geo.longitude.0.in_radian() && !self.right_ascension.0.in_radian()
                ==> angle.signed_parts() == sidereal_time.0.grid_of().signed_parts()
                + geo.longitude.0.grid_of().signed_parts()
                - self.right_ascension.0.grid_of().signed_parts()),
            r matches Err(e) ==> e == Error::RangeViolation,
    {
        proof {
            lemma_grid_is_well_formed(sidereal_time.0);
            lemma_grid_is_well_formed(geo.longitude.0);
            lemma_grid_is_well_formed(self.right_ascension.0);
            lemma_sum_adds_parts(sidereal_time.0.grid_of(), geo.longitude.0.grid_of());
        }
        match sidereal_time.0 + geo.longitude.0 {
            Ok(east) => {
                proof {
                    lemma_grid_is_well_formed(east);
                    lemma_difference_subtracts_parts(east, self.right_ascension.0.grid_of());
                }
                east - self.right_ascension.0
            },
            Err(e) => Err(e),
        }
    }
}

} // verus!
