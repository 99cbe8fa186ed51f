//! Error values shared by the arithmetic kernel and the quoters.

use vstd::prelude::*;

verus! {

/// What went wrong in a checked computation.
#[derive(Clone, Copy, Debug, PartialEq, Eq, Structural)]
pub enum ErrorKind {
    /// A result does not fit in its representation.
    Overflow,
    /// A divisor was zero.
    ZeroDivision,
    /// An unsigned subtraction would have gone below zero.
    NegativeResult,
    /// An input was outside the range a function accepts.
    OutOfRange,
    /// The logarithm of zero was requested.
    LogOfZero,
    /// A computation lost too much precision to continue.
    PrecisionLoss,
    /// An iterative solver exhausted its iteration budget.
    Convergence,
}

/// The outcome of a checked chain of arithmetic steps, as specifications
/// describe it: the mathematical value reached, or the kind of error that
/// stopped the chain.  Holds a mathematical integer, so values of it exist
/// only in specifications.
pub enum Outcome {
    Val(int),
    Fail(ErrorKind),
}

/// An error together with a short reason naming the call site.
#[derive(Clone, Copy, Debug)]
pub struct MathError {
    pub kind: ErrorKind,
    pub reason: &'static str,
}

impl MathError {
    /// Builds an error of the given kind carrying a textual reason.
    pub fn new(kind: ErrorKind, reason: &'static str) -> (e: MathError)
        ensures
            e.kind == kind,
            e.reason == reason,
    {
        MathError { kind, reason }
    }
}

} // verus!
