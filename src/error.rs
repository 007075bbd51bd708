use vstd::prelude::*;

verus! {

/// What went wrong in a failed parse.
#[derive(Clone, Copy, Debug, PartialEq, Eq, Structural)]
pub enum ErrorKind {
    /// The text at the position does not start with an ASCII letter.
    MalformedIdentifier,
    /// A `/` is not followed by one to four hexadecimal digits.
    MalformedNumeric,
    /// No instruction keyword starts at the position.
    UnrecognizedMnemonic,
    /// A keyword is not followed by whitespace and an operand.
    MissingOperand,
    /// Neither a labelled nor a bare instruction starts at the position.
    NoValidLine,
}

/// A failed parse: its kind, and the position (counted in characters of the parsed
/// text) where the expected construct should have started.
#[derive(Clone, Copy, Debug, PartialEq, Eq, Structural)]
pub struct ParseError {
    pub kind: ErrorKind,
    pub position: usize,
}

} // verus!
