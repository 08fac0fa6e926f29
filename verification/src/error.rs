//! Errors of the code generator.

use vstd::prelude::*;

verus! {

/// Errors reported by the code generator.
#[derive(Clone, Copy, PartialEq, Eq, Structural, Debug)]
pub enum ThrillerError {
    /// The given access pattern is invalid.
    InvalidAccessPattern,
    /// The declared loop depth and the iteration variables do not match.
    LoopMisMatch,
    /// An edge that has to carry an access map carries none.
    MissingAccessMap,
    /// A load that needs a single loop level met another depth.
    InvalidLoadAccess,
    /// A compute task has the wrong number of inputs.
    WrongInputsNum,
    /// A file operation failed.
    FailedFileOp,
    /// A textual type name was not recognised.
    ParseError,
}

/// Result type of the code generator.
pub type ThrillerResult<T> = Result<T, ThrillerError>;

/// Whether an emission returned what was to be emitted: the text, or the error.
pub open spec fn emitted(
    r: ThrillerResult<String>,
    expected: Result<Seq<char>, ThrillerError>,
) -> bool {
    match (r, expected) {
        (Ok(code), Ok(text)) => code@ == text,
        (Err(e), Err(f)) => e == f,
        _ => false,
    }
}

} // verus!
