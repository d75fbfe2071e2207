use vstd::prelude::*;

pub mod ast;
pub mod scan;
mod reader;
pub mod lexer;
pub mod grammar;
pub mod parser;
pub mod laws;

pub use parser::{parse_program, parses_if_else, parses_let_statement, parses_prefix_expression};

verus! {

use crate::ast::{Token, TokenV, token_view};

/// A failure reported by the parser.
#[derive(Debug, PartialEq, Clone)]
pub enum AmpError {
    /// A required terminal was missing: the token found, and the token
    /// that the grammar expected at that position.
    InvalidToken(Token, Token),
    /// A position that must hold an expression had no token that can
    /// start one; carries the text of the token found there.
    MissingExpression(String),
    /// The scanner met a character outside the supported set.
    InvalidCharacter(char),
    /// A numeric literal exceeds the unsigned 64-bit range.
    IntegerOverflow,
}

/// Mathematical model of an `AmpError`.
pub ghost enum ErrV {
    InvalidToken(TokenV, TokenV),
    MissingExpression(Seq<char>),
    InvalidCharacter(char),
    IntegerOverflow,
}

/// The model an `AmpError` denotes.
pub open spec fn err_view(e: AmpError) -> ErrV {
    match e {
        AmpError::InvalidToken(found, expected) => ErrV::InvalidToken(
            token_view(found),
            token_view(expected),
        ),
        AmpError::MissingExpression(s) => ErrV::MissingExpression(s@),
        AmpError::InvalidCharacter(c) => ErrV::InvalidCharacter(c),
        AmpError::IntegerOverflow => ErrV::IntegerOverflow,
    }
}

} // verus!
