//! A star with its coordinates in one of several systems.
use crate::coord::{Cartesian, Equitorial, Horizontal, Polar};
use crate::number::Decimal;
use vstd::prelude::*;

verus! {

/// The place of a star in one of four coordinate systems.
#[derive(Debug, Copy, Clone)]
pub enum StarCoordinates {
    Cartesian(Cartesian),
    Equitorial(Equitorial),
    Horizontal(Horizontal),
    Stereo(Polar),
}

/// A star: its place, its visual magnitude, its name and its Harvard number.
#[derive(Debug, Clone)]
pub struct Star {
    pub coordinates: StarCoordinates,
    pub v_mag: Decimal,
    pub name: String,
    pub harvard: u32,
}

impl StarCoordinates {
    /// The cartesian coordinates, if the place is given in those.
    pub fn cartesian(&self) -> (r: Option<Cartesian>)
        ensures
            r == match *self {
                StarCoordinates::Cartesian(coord) => Some(coord),
                _ => None,
            },
    {
        match self {
            StarCoordinates::Cartesian(coord) => Some(*coord),
            _ => None,
        }
    }

    /// The equitorial coordinates, if the place is given in those.
    pub fn equitorial(&self) -> (r: Option<Equitorial>)
        ensures
            r == match *self {
                StarCoordinates::Equitorial(coord) => Some(coord),
                _ => None,
            },
    {
        match self {
            StarCoordinates::Equitorial(coord) => Some(*coord),
            _ => None,
        }
    }

    /// The horizontal coordinates, if the place is given in those.
    pub fn horizontal(&self) -> (r: Option<Horizontal>)
        ensures
            r == match *self {
                StarCoordinates::Horizontal(coord) => Some(coord),
                _ => None,
            },
    {
        match self {
            StarCoordinates::Horizontal(coord) => Some(*coord),
            _ => None,
        }
    }

    /// The coordinates on a stereographic map, if the place is given in those.
    pub fn stereo(&self) -> (r: Option<Polar>)
        ensures
            r == match *self {
                StarCoordinates::Stereo(coord) => Some(coord),
                _ => None,
            },
    {
        match self {
            StarCoordinates::Stereo(coord) => Some(*coord),
            _ => None,
        }
    }
}

} // verus!
