//! The ways in which input is turned away.
use vstd::prelude::*;

verus! {

/// Why a value could not be built. Every failure is an invalid input; nothing is
/// transient and nothing is retried.
#[derive(Clone, Copy, Debug, PartialEq, Eq, Structural)]
pub enum Error {
    /// A quantity lies outside the interval that its type allows.
    RangeViolation,
    /// A civil date lies outside the years 1801 to 2099.
    UnsupportedEpoch,
    /// Text that should hold a sexagesimal triple does not.
    MalformedSexagesimal,
    /// A catalog record lacks a field that it must have.
    IncompleteRecord,
    /// Text does not follow the format of the record that it should hold.
    MalformedRecord,
    /// A constellation names a star that the catalog does not hold.
    UnknownStar,
}

} // verus!
