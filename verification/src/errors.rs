//! Failure taxonomy shared by the encoder and the decoder.

use vstd::prelude::*;

verus! {

/// Why an encode or decode call failed. All failures are terminal for the
/// single call; nothing is retried internally.
#[derive(Clone, Copy, Debug, PartialEq, Eq, Structural)]
pub enum StegError {
    /// The carrier buffer is too small for the requested operation.
    Capacity,
    /// The first two decoded logical bytes did not match the start marker.
    StartMarker,
    /// A terminator byte appeared without completing the end marker.
    EndMarker,
    /// The scan ran out of carrier bytes before reaching the end marker.
    Bounds,
}

} // verus!
