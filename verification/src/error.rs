//! Errors reported by the mergers.
use vstd::prelude::*;

verus! {

/// The concrete kind of a merge error.
#[derive(Debug, Clone, Copy, PartialEq, Eq, Structural)]
pub enum ErrorKind {
    /// The list of sources to be merged is empty.
    NothingPassed,
    /// The configured skip options cannot be applied to the given sources.
    InvalidSkip,
    /// A path at the given index of the input list does not name a regular
    /// file. Produced only by path-level front ends, never by the core merge.
    InvalidPath(usize),
}

} // verus!
