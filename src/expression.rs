//! From an expression string to an expression tree: tokenise, then parse.

use vstd::prelude::*;
use crate::ast::{AstNode, Expr};
use crate::grammar::{parse_tokens, ParseOutcome};
use crate::parser::{parse_tokens_into_ast, ParseError};
use crate::token::{toks, Tok};
use crate::tokenise::{lex, tokenise_expression, LexOutcome, TokeniseError};

verus! {

/// An error of tokenisation or of parsing.
#[derive(Clone, Debug, PartialEq)]
pub enum TokeniseOrParseError {
    /// The string could not be split into tokens.
    TokeniseError(TokeniseError),
    /// The tokens do not form an expression.
    ParseError(ParseError),
}

/// What reading a string as an expression gives.
pub enum ReadOutcome {
    Parsed(Expr),
    NoToken,
    UnconsumedText(Seq<char>),
    Unexpected(Seq<Tok>),
    UnconsumedTokens(Seq<Tok>),
}

/// Reading `s`: its tokens, parsed as a whole.
pub open spec fn read_expression(s: Seq<char>) -> ReadOutcome {
    match lex(s) {
        LexOutcome::NoToken => ReadOutcome::NoToken,
        LexOutcome::Unconsumed(rest) => ReadOutcome::UnconsumedText(rest),
        LexOutcome::Tokens(ts) => match parse_tokens(ts) {
            ParseOutcome::Parsed(e) => ReadOutcome::Parsed(e),
            ParseOutcome::Unexpected(w) => ReadOutcome::Unexpected(w),
            ParseOutcome::Unconsumed(w) => ReadOutcome::UnconsumedTokens(w),
        },
    }
}

/// Parses an expression string into a tree.
pub fn parse_expression_from_string(expression: &str) -> (r: Result<AstNode, TokeniseOrParseError>)
    ensures
        match r {
            Ok(a) => read_expression(expression@) == ReadOutcome::Parsed(a@),
            Err(TokeniseOrParseError::TokeniseError(TokeniseError::Lex)) => read_expression(
                expression@,
            ) == ReadOutcome::NoToken,
            Err(TokeniseOrParseError::TokeniseError(TokeniseError::UnconsumedInput(rest))) =>
                read_expression(expression@) == ReadOutcome::UnconsumedText(rest@),
            Err(TokeniseOrParseError::ParseError(ParseError::Unexpected(w))) => read_expression(
                expression@,
            ) == ReadOutcome::Unexpected(toks(w@)),
            Err(TokeniseOrParseError::ParseError(ParseError::UnconsumedInput(w))) =>
                read_expression(expression@) == ReadOutcome::UnconsumedTokens(toks(w@)),
        },
{
    let tokens = match tokenise_expression(expression) {
        Ok(tokens) => tokens,
        Err(e) => return Err(TokeniseOrParseError::TokeniseError(e)),
    };
    match parse_tokens_into_ast(tokens.as_slice()) {
        Ok(a) => Ok(a),
        Err(e) => Err(TokeniseOrParseError::ParseError(e)),
    }
}

} // verus!
