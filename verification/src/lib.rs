//! Mass move: match files against a wildcard mask and compute where each one goes.
//!
//! A source mask is a slash-separated path whose segments may hold `*` wildcards; a
//! destination mask refers to what the wildcards captured by `#1`, `#2`, and so on.
use vstd::prelude::*;

pub mod engine;
pub mod error;
pub mod file_match;
pub mod fs_utils;
pub mod input_validation;
pub mod placeholder;
pub mod text;

verus! {

/// The arguments of one run.
#[derive(Debug, Clone)]
pub struct Cli {
    /// Mask of the files to move.
    pub old_file_mask: String,
    /// Mask of the destinations.
    pub new_file_mask: String,
    /// Whether existing destinations may be overwritten.
    pub force: bool,
}

} // verus!
