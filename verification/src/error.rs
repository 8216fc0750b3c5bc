//! The ways in which work on a batch of blocks can fail.

use vstd::prelude::*;

verus! {

/// Why a processor could not finish its work. Every one of them ends the run.
#[derive(Clone, Copy, Debug, PartialEq, Eq, Structural)]
pub enum ProcessError {
    /// The ledger store has no entry for a reference that a statistic needs.
    ReferenceNotFound,
    /// A total does not fit the integer type of the statistic.
    ArithmeticOverflow,
    /// An output whose owner is asked for has no address, or more than one.
    AddressCount,
    /// The calendar has no day with the date's year, month and day.
    InvalidDate,
    /// The persisted map of a processor is not a map from dates to numbers.
    MalformedPersistedState,
    /// The map of a processor could not be written as text.
    PersistFailure,
}

} // verus!
