//! The ways in which a fragment can fail to yield a record.

use vstd::prelude::*;

verus! {

/// Why a fragment could not be turned into a record.
#[derive(Clone, Copy, Debug, PartialEq, Eq, Structural)]
pub enum ParseError {
    /// An expected sub-fragment, row, cell or segment is missing, or there are
    /// not as many as there must be.
    StructureMismatch,
    /// A group's number or its number of places is absent or is no unsigned
    /// integer.
    MalformedNumericField,
    /// The month of a date is not the name of a month.
    UnknownMonthName,
    /// A time range does not hold the tokens of a start and an end time.
    MalformedTimeField,
}

} // verus!
