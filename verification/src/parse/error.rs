//! The error taxonomy of the notation compiler.
//!
//! Every error is terminal: a single error aborts the whole parse and is
//! surfaced to the caller as-is; no partial note sequence is returned.

use vstd::prelude::*;
use crate::frac::Fraction;

verus! {

/// Why a parse failed.
#[derive(Debug, Copy, Clone, PartialEq, Eq, Structural)]
pub enum ParserError {
    /// Mixed sharp/flat markers, or duplicate explicit-natural markers,
    /// within one token.
    AccidentalConflict,
    /// A duration denominator that is not a power of two.
    InvalidDurationDenominator,
    /// A duration too fine to represent: its exact reduced fraction does
    /// not fit the fraction's field width (a machine limit, not a
    /// property of the notation itself).
    DurationOverflow,
    /// A token matched none of the five grammars; `from` and `to` bound
    /// the offending token as character indices into the input.
    InvalidToken { from: usize, to: usize },
    /// A key directive named a tonic/accidental/mode combination outside
    /// the 15 valid signatures.
    InvalidKey,
    /// A key directive carried a mode marker outside `M`/`m`, or trailing
    /// text after the mode.
    InvalidMode,
    /// A completed measure's summed duration fraction differs from the
    /// active time signature; `index` is the 0-based position of the
    /// measure among those already completed.
    MeasureMismatch { expected: Fraction, actual: Fraction, index: usize },
    /// Summation was attempted across durations built from different
    /// whole-note bases: a caller bug, not a user notation error.
    MismatchedDurationBasis,
}

} // verus!
