//! Star catalog records and the exact arithmetic of star positions.
//!
//! Every quantity in this crate is an integer, a decimal or a ratio: angles are
//! read from catalog text digit for digit, sexagesimal triples are split and
//! joined without rounding, and instants are counted in whole seconds. Where a
//! result has no end in decimal digits, as a fifteenth or a multiple of `π` has,
//! a conversion keeps sixteen digits of it, however small or large the angle,
//! and the contract says which.
//! Anything that needs a sine or a cosine is left to the caller, who can turn
//! the values into machine floats at the very end.
//!
//! - [`number`]: signs, exact decimals and ratios.
//! - [`sexagesimal`]: triples of whole units, minutes and seconds.
//! - [`angle`]: angles in degrees, hours and radian.
//! - [`accuracy`]: how close a converted angle is to the angle converted.
//! - [`coord`]: angles held to an interval, and coordinates made of them.
//! - [`star`]: a star with its place in one of several coordinate systems.
//! - [`time`]: Julian dates, the rotation of the Earth and sidereal time.
//! - [`catalog`]: records of three star catalogs and of constellation lines.
//! - [`error`]: why a value could not be built.
pub mod accuracy;
pub mod angle;
pub mod catalog;
pub mod coord;
pub mod error;
pub mod number;
pub mod sexagesimal;
pub mod star;
pub mod time;
