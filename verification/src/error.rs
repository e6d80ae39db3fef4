//! The conditions that end a run.

use vstd::prelude::*;

verus! {

/// A fatal condition. None of them is retried.
#[derive(Clone, Copy, Debug, PartialEq, Eq, Structural)]
pub enum RunError {
    /// A loop delimiter has no structural partner in the sequence.
    UnbalancedBracket,
    /// An input instruction found the input stream at its end.
    InputExhausted,
    /// The cell pointer was asked to leave the tape.
    PointerOutOfBounds,
}

} // verus!
