//! What can go wrong with a pair of masks, and with a run.
use vstd::prelude::*;

verus! {

/// Why a pair of masks is refused.
#[derive(Debug, Clone, Copy, PartialEq, Eq)]
pub enum PatternError {
    /// The source mask holds two wildcards in a row.
    ConsecutiveWildcards,
    /// The destination mask holds a placeholder with an index below 1.
    IndexTooLow,
    /// The destination mask holds a placeholder with an index above the number of
    /// wildcards in the source mask.
    IndexTooHigh,
    /// The matching engine does not take a segment of the source mask.
    Rejected,
}

/// Why a run stops before any file is moved.
#[derive(Debug, Clone, PartialEq, Eq)]
pub enum RunError {
    /// The masks are refused.
    InvalidPattern(PatternError),
    /// No file matches the source mask.
    NoMatch,
    /// A destination exists already and overwriting was not asked for.
    DestinationExists(String),
}

} // verus!
