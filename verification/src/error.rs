//! The error kinds an evaluation pipeline can produce.

use vstd::prelude::*;

verus! {

/// Everything that can go wrong between raw text and an evaluated result.
/// Failures short-circuit: a failing sub-evaluation aborts the enclosing one
/// with the same error, unmodified.
#[derive(Clone, Copy, Debug, PartialEq, Eq, Structural)]
pub enum Error {
    /// An illegal character, or two adjacent atoms with no separator between.
    TokenizeError,
    /// Unbalanced parentheses, empty input, or a token where none may stand.
    ParseError,
    /// An identifier that no frame of the environment chain binds.
    UndefinedIdentifier,
    /// A second definition of an identifier directly in the same frame.
    AlreadyDefined,
    /// A wrong expression shape for a special form or a native function.
    TypeError,
    /// An application whose operator evaluated to a non-function.
    NotCallable,
    /// A closure call that supplies fewer arguments than parameters.
    ArityError,
    /// An `if` form with fewer than three argument positions.
    MissingClause,
    /// The evaluator's recursion-depth safety margin was exhausted.
    DepthExceeded,
}

/// The user-visible description of each error kind.
pub open spec fn error_text(e: Error) -> Seq<char> {
    match e {
        Error::TokenizeError => "Error while tokenizing"@,
        Error::ParseError => "Parse error"@,
        Error::UndefinedIdentifier => "Undefined identifier"@,
        Error::AlreadyDefined => "Identifier already defined"@,
        Error::TypeError => "Type error"@,
        Error::NotCallable => "Error while evaluating: not callable"@,
        Error::ArityError => "Missing required argument"@,
        Error::MissingClause => "Missing clause"@,
        Error::DepthExceeded => "Evaluation too deeply nested"@,
    }
}

impl Error {
    /// The user-visible description of this error kind.
    pub fn message(&self) -> (r: &'static str)
        ensures
            r@ == error_text(*self),
    {
        match self {
            Error::TokenizeError => "Error while tokenizing",
            Error::ParseError => "Parse error",
            Error::UndefinedIdentifier => "Undefined identifier",
            Error::AlreadyDefined => "Identifier already defined",
            Error::TypeError => "Type error",
            Error::NotCallable => "Error while evaluating: not callable",
            Error::ArityError => "Missing required argument",
            Error::MissingClause => "Missing clause",
            Error::DepthExceeded => "Evaluation too deeply nested",
        }
    }
}

} // verus!
