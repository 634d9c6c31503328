use vstd::prelude::*;

verus! {

/// Typed outcomes for rejected operations. Every rejection leaves the engine
/// unchanged; no failure is silently swallowed.
#[derive(Clone, Copy, Debug, PartialEq, Eq, Structural)]
pub enum Error {
    /// Malformed input: zero amount, unknown currency, an amount or id that
    /// would exceed machine limits, or an invalid source/destination shape.
    Validation,
    /// A source-side transfer would drive the source balance negative.
    InsufficientBalance,
    /// The referenced motion does not exist.
    MotionNotFound,
    /// The motion's voting window has ended; no further votes are accepted.
    MotionClosed,
    /// A public identifier failed its check-digit validation.
    InvalidChecksum,
}

} // verus!
