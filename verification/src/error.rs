//! The typed failures a hint execution can produce.

use crate::memory::{Address, MemoryError};
use vstd::prelude::*;

verus! {

/// A failure while executing a hint. Nothing here retries: every failure
/// propagates to the driver, which aborts the run.
#[derive(Clone, Copy, Debug, PartialEq, Eq, Structural)]
pub enum HintError {
    /// The hint identifier is registered nowhere; memory is left unchanged.
    /// Below the outermost dispatch level this is the normal "not mine"
    /// signal that sends the identifier on to the next tier.
    UnknownHint,
    /// A symbolic variable name is missing from the current frame's table.
    IdentifierNotFound,
    /// The cell read for an integer variable holds no field element.
    ExpectedInteger(Address),
    /// The cell read for a pointer variable holds no address.
    ExpectedPointer(Address),
    /// The run-scoped context lacks the entry the hint needs: the run was not
    /// set up correctly.
    MissingContextEntry,
    /// A memory write was refused.
    Memory(MemoryError),
    /// A snapshot violates its peak invariant: the two peak sequences differ
    /// in length, or the stored peak count disagrees with them.
    PeaksLengthMismatch,
    /// A last-leaf proof violates its path invariant: the two path sequences
    /// differ in length, or the stored path length disagrees with them.
    PathsLengthMismatch,
}

} // verus!
