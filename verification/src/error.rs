//! The ways a run of the machine can fail.

use vstd::prelude::*;

verus! {

/// Every boundary violation the engine can detect.  A run either completes
/// with its output or stops at the first of these; nothing is retried and
/// nothing is silently ignored.
#[derive(Clone, Copy, Debug, PartialEq, Eq, Structural)]
pub enum ErrorKind {
    /// The cursor moved below zero, or a cell at or past the tape's end was
    /// touched by an instruction that reads or writes the current cell.
    PointerOutOfRange,
    /// The instruction pointer left the program.  Defensive: under the loop
    /// handling proved here it cannot arise, but callers embedding the
    /// engine may still want to match on it.
    InstructionPointerOutOfRange,
    /// A loop-close instruction ran with a non-zero current cell while no
    /// open loop was recorded.
    UnmatchedLoopClose,
    /// A forward scan for a matching loop-close reached the end of the
    /// program without balancing.
    UnterminatedLoop,
    /// An input instruction ran but the input source had no byte left.
    InputUnavailable,
}

} // verus!
