//! Typed errors of the candle ring buffer: structural invariant violations
//! are surfaced to the immediate caller, never silently defaulted.

use vstd::prelude::*;

verus! {

#[derive(Clone, Copy, Debug, PartialEq, Eq, Structural)]
pub enum KLineError {
    /// An unrecognized marker byte, or an unusable header, while decoding
    /// the binary ring-buffer image: fatal for that read.
    Corruption,
    /// A trade whose bucket, after any window shift, still falls outside
    /// the window: recoverable, the existing state is untouched.
    OutOfWindow,
}

} // verus!
