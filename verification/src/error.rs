//! The ways in which an input can be rejected.

use vstd::prelude::*;

verus! {

/// Why a computation refused its input.
#[derive(Debug, Clone, Copy, PartialEq, Eq, Structural)]
pub enum AttributionError {
    /// A series that must hold at least one element was empty.
    EmptySeries,
    /// Two sequences that must be index-aligned differ in length.
    LengthMismatch,
    /// A sector offset does not mark the start of a holding record, the
    /// offsets decrease, or the holding sequence is not a whole number of
    /// records.
    InvalidSectorLayout,
    /// The handle names no live buffer: it was never issued or its buffer
    /// was already released.
    InvalidHandle,
}

} // verus!
