//! The failure type shared by every fallible function of the library.

use vstd::prelude::*;

verus! {

/// What went wrong. Every failure ends the parse it occurred in.
#[derive(Clone, Copy, Debug, PartialEq, Eq, Structural)]
pub enum ErrorKind {
    /// The file extension is neither `s<N>p` nor a known alternate format.
    UnsupportedFormat,
    /// The file extension names a format that is known but not handled (`ts`).
    NotImplemented,
    /// A token that should name a frequency unit does not.
    InvalidUnit,
    /// A token that should name a parameter kind does not.
    InvalidParameterKind,
    /// A token that should name a value encoding does not.
    InvalidValueEncoding,
    /// The reference resistance of an option line is missing or not a number.
    MalformedOptionsLine,
    /// A token in a numeric position is not a number.
    NumericParseError,
    /// A frequency series was built from no samples.
    EmptySeries,
    /// The collected values do not fill a `(frequencies, rank, rank)` tensor.
    ShapeMismatch,
}

/// A parse failure, tagged with its kind.
#[derive(Clone, Copy, Debug, PartialEq, Eq, Structural)]
pub struct ParseError {
    pub kind: ErrorKind,
}

impl ParseError {
    /// A failure of the given kind.
    pub fn new(kind: ErrorKind) -> (e: ParseError)
        ensures
            e.kind == kind,
    {
        ParseError { kind }
    }

    /// The kind of this failure.
    pub fn kind(&self) -> (k: ErrorKind)
        ensures
            k == self.kind,
    {
        self.kind
    }
}

} // verus!
