//! The failures that the library reports to its callers.

use vstd::prelude::*;

verus! {

/// Why an operation of the library was refused.
#[derive(Clone, Copy, Debug, PartialEq, Eq, Structural)]
pub enum EcozError {
    /// A frame without energy: the recursion cannot start.
    DegenerateFrame,
    /// The prediction error became non-positive during the recursion.
    UnstableFrame,
    /// The analysis window is longer than the signal.
    SignalTooShort,
    /// A sequence file with a wrong identifier or cut short.
    MalformedSequenceFile,
    /// A score that cannot be compared with the others.
    ScoreRangeViolation,
    /// A cepstral order that does not exceed the prediction order.
    CepstrumOrder,
    /// Training sequences of more than one class.
    ClassMismatch,
    /// Training sequences of more than one codebook size.
    CodebookMismatch,
    /// A predictor file that is cut short or inconsistent.
    MalformedPredictorFile,
    /// A selection that names no file.
    NoFilesGiven,
}

} // verus!
