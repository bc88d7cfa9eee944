use vstd::prelude::*;

verus! {

/// The ways a translation can fail.
///
/// Every error is terminal: the translation either produces a complete
/// output document or one of these.  File-system failures are handled by
/// the unverified shell and never reach this type.
#[derive(Debug, PartialEq, Eq, Structural)]
pub enum TranslateError {
    /// A token was not a valid number of the required kind, or a request
    /// line was malformed beyond repair (an atom count below one, a
    /// derivative order outside zero to two, a line shorter than the
    /// fixed column boundary).
    ParseError,
    /// The number of numeric tokens differed from the required count:
    /// expected `expected`, got `got`.
    CountMismatch { expected: usize, got: usize },
    /// The request file ended before the declared atom count was satisfied.
    TruncatedInput,
    /// The request file had no header line.
    EmptyRequest,
    /// No line of the engine log carried the energy label.
    MissingEnergyLine,
}

} // verus!
