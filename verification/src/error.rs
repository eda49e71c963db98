//! The errors that the library reports.

use vstd::prelude::*;

verus! {

/// What went wrong while reading or interpreting embroidery data.
#[derive(Debug, Clone, PartialEq, Eq)]
pub enum Error {
    /// The data does not follow the format being read
    Parse(String),
    /// A colour string names no colour
    InvalidColor(String),
    /// The format cannot be told or is not supported
    UnsupportedFormat(String),
}

} // verus!
