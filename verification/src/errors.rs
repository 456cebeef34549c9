//! The errors that parsing and evaluation report.

use vstd::prelude::*;
use crate::literal::{Literal, SpecLiteral};
use crate::token::{SpecToken, Token};

verus! {

/// Why evaluation failed.
#[derive(Clone, Copy, Debug, PartialEq, Eq, Structural)]
pub enum DetailedErrorType {
    ExpectedNumber,
    UndeclaredIdentifier,
    InvalidArity,
    NotCallable,
}

/// The kind of an error.
#[derive(Debug)]
pub enum LoxErrorType {
    /// The tokens do not follow the grammar.
    SyntaxError(String),
    /// Evaluation failed.
    RuntimeError(DetailedErrorType),
    /// A `return` on its way to the call that it ends.
    Return(Literal),
}

/// Model of a [`LoxErrorType`].
pub enum SpecErrorType {
    SyntaxError(Seq<char>),
    RuntimeError(DetailedErrorType),
    Return(SpecLiteral),
}

impl View for LoxErrorType {
    type V = SpecErrorType;

    open spec fn view(&self) -> SpecErrorType {
        match self {
            LoxErrorType::SyntaxError(message) => SpecErrorType::SyntaxError(message@),
            LoxErrorType::RuntimeError(detail) => SpecErrorType::RuntimeError(*detail),
            LoxErrorType::Return(value) => SpecErrorType::Return(value@),
        }
    }
}

impl Clone for LoxErrorType {
    fn clone(&self) -> (r: Self)
        ensures
            r@ == self@,
    {
        match self {
            LoxErrorType::SyntaxError(message) => LoxErrorType::SyntaxError(message.clone()),
            LoxErrorType::RuntimeError(detail) => LoxErrorType::RuntimeError(*detail),
            LoxErrorType::Return(value) => LoxErrorType::Return(value.copy()),
        }
    }
}

/// An error with the token at which it arose.
#[derive(Debug)]
pub struct LoxError {
    pub token: Token,
    pub kind: LoxErrorType,
    pub line: usize,
}

/// Model of a [`LoxError`].
pub struct SpecError {
    pub token: SpecToken,
    pub kind: SpecErrorType,
    pub line: usize,
}

impl View for LoxError {
    type V = SpecError;

    open spec fn view(&self) -> SpecError {
        SpecError { token: self.token@, kind: self.kind@, line: self.line }
    }
}

impl Clone for LoxError {
    fn clone(&self) -> (r: Self)
        ensures
            r@ == self@,
    {
        LoxError { token: self.token.clone(), kind: self.kind.clone(), line: self.line }
    }
}

impl SpecError {
    /// The error of the given kind at a token, on that token's line.
    pub open spec fn at(token: SpecToken, kind: SpecErrorType) -> SpecError {
        SpecError { token, kind, line: token.line }
    }

    /// The syntax error with the given message at a token.
    pub open spec fn syntax(token: SpecToken, message: Seq<char>) -> SpecError {
        Self::at(token, SpecErrorType::SyntaxError(message))
    }

    /// The runtime error with the given detail at a token.
    pub open spec fn runtime(token: SpecToken, detail: DetailedErrorType) -> SpecError {
        Self::at(token, SpecErrorType::RuntimeError(detail))
    }
}

impl LoxError {
    /// An error of the given kind at a token.
    pub fn new(token: &Token, kind: LoxErrorType) -> (r: Self)
        ensures
            r@ == SpecError::at(token@, kind@),
    {
        LoxError { line: token.line, kind, token: token.clone() }
    }

    /// A syntax error at a token.
    pub fn parse_error(token: &Token, msg: &str) -> (r: Self)
        ensures
            r@ == SpecError::syntax(token@, msg@),
    {
        LoxError {
            line: token.line,
            kind: LoxErrorType::SyntaxError(String::from_str(msg)),
            token: token.clone(),
        }
    }

    /// A runtime error at a token.
    pub fn runtime(token: &Token, detail: DetailedErrorType) -> (r: Self)
        ensures
            r@ == SpecError::runtime(token@, detail),
    {
        LoxError { line: token.line, kind: LoxErrorType::RuntimeError(detail), token: token.clone() }
    }
}

/// The models of a vector of errors, in order.
pub open spec fn lox_errors_model(errors: Vec<LoxError>) -> Seq<SpecError> {
    Seq::new(errors@.len(), |i: int| errors[i]@)
}

} // verus!
