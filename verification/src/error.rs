//! Errors of the tokenizer and the parser.
use vstd::prelude::*;
use crate::token::Token;

verus! {

/// What the parser looked for where it found something else.
#[derive(Clone, Copy, Debug, PartialEq, Eq, Structural)]
pub enum Expected {
    ValueReference,
    TypeReference,
    ClassReference,
    Assignment,
    ClassKeyword,
    CurlyBegin,
    Type,
    Value,
    Keyword,
}

/// An error of the tokenizer or of the parser.
#[derive(Debug, PartialEq, Eq)]
pub enum Error {
    /// The tokens ran out where more were needed.
    UnexpectedEndOfTokens,
    /// A token of another kind than the one expected.
    UnexpectedToken { expected: Expected, found: Token },
    /// A definition that starts with neither a value nor a type reference.
    NotImplemented,
    /// No kind of type-like definition could be read at this token.
    DefinitionFailed { at: Token },
    /// A parameter list holds something that is no parameter, at this token.
    ParamsFailed { at: Token },
    /// A round of an object set read nothing at this token.
    NoProgress { at: Token },
    /// No token can start at this character offset of the input.
    Tokenize { offset: usize },
}

} // verus!
