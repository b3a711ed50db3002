//! The tokens of the expression language, and their mathematical view.

use vstd::prelude::*;
use crate::name::MatrixName;

verus! {

/// A token of an expression, with names and numbers as character sequences.
pub enum Tok {
    Name(Seq<char>),
    Number(Seq<char>),
    Rot,
    Plus,
    Minus,
    Star,
    Slash,
    Caret,
    Semicolon,
    OpenParen,
    CloseParen,
    OpenSquareBracket,
    CloseSquareBracket,
    OpenBrace,
    CloseBrace,
}

/// A single token of an expression string.
#[derive(Clone, Debug, PartialEq)]
pub enum Token {
    /// A named matrix.
    NamedMatrix(MatrixName),
    /// A numeric literal, kept as its decimal text (never signed).
    Number(String),
    /// The rotation keyword `rot`.
    Rot,
    /// `+`
    Plus,
    /// `-`
    Minus,
    /// `*`
    Star,
    /// `/`
    Slash,
    /// `^`
    Caret,
    /// `;`
    Semicolon,
    /// `(`
    OpenParen,
    /// `)`
    CloseParen,
    /// `[`
    OpenSquareBracket,
    /// `]`
    CloseSquareBracket,
    /// `{`
    OpenBrace,
    /// `}`
    CloseBrace,
}

impl View for Token {
    type V = Tok;

    open spec fn view(&self) -> Tok {
        match self {
            Token::NamedMatrix(n) => Tok::Name(n@),
            Token::Number(s) => Tok::Number(s@),
            Token::Rot => Tok::Rot,
            Token::Plus => Tok::Plus,
            Token::Minus => Tok::Minus,
            Token::Star => Tok::Star,
            Token::Slash => Tok::Slash,
            Token::Caret => Tok::Caret,
            Token::Semicolon => Tok::Semicolon,
            Token::OpenParen => Tok::OpenParen,
            Token::CloseParen => Tok::CloseParen,
            Token::OpenSquareBracket => Tok::OpenSquareBracket,
            Token::CloseSquareBracket => Tok::CloseSquareBracket,
            Token::OpenBrace => Tok::OpenBrace,
            Token::CloseBrace => Tok::CloseBrace,
        }
    }
}

/// The view of a sequence of tokens.
pub open spec fn toks(v: Seq<Token>) -> Seq<Tok> {
    v.map_values(|t: Token| t@)
}

} // verus!
