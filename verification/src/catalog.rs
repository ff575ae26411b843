//! Star catalog parsers.
use vstd::prelude::*;

pub mod constellation;
pub mod hipparcos;
pub mod osbsc;
pub mod parse;
pub mod util;
pub mod yale;

verus! {

/// Determines if a parsed record is valid. User can implement this to require
/// certain fields or conditions.
pub trait ValidParse {
    /// What makes a record of this kind valid.
    spec fn valid(&self) -> bool;

    /// Whether the record is valid.
    fn is_valid_parse(&self) -> (r: bool)
        ensures
            r == self.valid(),
    ;
}

} // verus!
