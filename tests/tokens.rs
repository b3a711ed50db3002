use trinity::name::MatrixName;
use trinity::token::Token;
use trinity::tokenise::{tokenise_expression, TokeniseError};

fn tnum(s: &str) -> Token {
    Token::Number(s.to_string())
}

fn tname(s: &str) -> Token {
    Token::NamedMatrix(MatrixName::new(s))
}

fn unconsumed(s: &str) -> Result<Vec<Token>, TokeniseError> {
    Err(TokeniseError::UnconsumedInput(s.to_string()))
}

#[test]
fn test_tokenise_named_matrix() {
    let valid_names = [
        "M",
        "Mat",
        "A_",
        "X_y",
        "Dave",
        "N",
        "T",
        "Some_really_long_matrix_name_but_its_okay_because_it_fits_the_rules",
        "Abc",
    ];
    for name in valid_names {
        assert_eq!(tokenise_expression(name), Ok(vec![tname(name)]), "'{name}' should be valid");
    }

    assert_eq!(tokenise_expression("ABC"), Ok(vec![tname("A"), tname("B"), tname("C")]));
    assert_eq!(tokenise_expression("M * 2"), Ok(vec![tname("M"), Token::Star, tnum("2")]));
    assert_eq!(tokenise_expression("Z-2"), Ok(vec![tname("Z"), Token::Minus, tnum("2")]));
    assert_eq!(tokenise_expression("X:C"), unconsumed(":C"));
    assert_eq!(tokenise_expression("Name with spaces"), unconsumed("with spaces"));
    assert_eq!(tokenise_expression("WhatAboutPunctuation?"), unconsumed("?"));
    assert_eq!(tokenise_expression("It's"), unconsumed("'s"));

    let invalid_names = ["", "m", " M", "x", "my_matrix", "::"];
    for name in invalid_names {
        assert!(!MatrixName::is_valid(name), "'{name}' should be invalid");
    }
}

#[test]
fn tokenise_expression_success() {
    assert_eq!(
        tokenise_expression("M^2 * [1 2; 3 -5]"),
        Ok(vec![
            tname("M"),
            Token::Caret,
            tnum("2"),
            Token::Star,
            Token::OpenSquareBracket,
            tnum("1"),
            tnum("2"),
            Token::Semicolon,
            tnum("3"),
            Token::Minus,
            tnum("5"),
            Token::CloseSquareBracket
        ])
    );

    assert_eq!(
        tokenise_expression("[1;23]^{2*(3+9)}-6"),
        Ok(vec![
            Token::OpenSquareBracket,
            tnum("1"),
            Token::Semicolon,
            tnum("23"),
            Token::CloseSquareBracket,
            Token::Caret,
            Token::OpenBrace,
            tnum("2"),
            Token::Star,
            Token::OpenParen,
            tnum("3"),
            Token::Plus,
            tnum("9"),
            Token::CloseParen,
            Token::CloseBrace,
            Token::Minus,
            tnum("6")
        ])
    );

    assert_eq!(
        tokenise_expression("M ^ {-1}"),
        Ok(vec![
            tname("M"),
            Token::Caret,
            Token::OpenBrace,
            Token::Minus,
            tnum("1"),
            Token::CloseBrace,
        ])
    );

    assert_eq!(
        tokenise_expression("M^-1+X"),
        Ok(vec![tname("M"), Token::Caret, Token::Minus, tnum("1"), Token::Plus, tname("X"),])
    );

    assert_eq!(
        tokenise_expression("rot(45) * ((1 + 2) * My_matrix)"),
        Ok(vec![
            Token::Rot,
            Token::OpenParen,
            tnum("45"),
            Token::CloseParen,
            Token::Star,
            Token::OpenParen,
            Token::OpenParen,
            tnum("1"),
            Token::Plus,
            tnum("2"),
            Token::CloseParen,
            Token::Star,
            tname("My_matrix"),
            Token::CloseParen,
        ])
    );

    assert_eq!(
        tokenise_expression("ABC + A2B"),
        Ok(vec![
            tname("A"),
            tname("B"),
            tname("C"),
            Token::Plus,
            tname("A"),
            tnum("2"),
            tname("B"),
        ])
    );
}

#[test]
fn tokenise_expression_abc() {
    assert_eq!(tokenise_expression("ABC"), Ok(vec![tname("A"), tname("B"), tname("C")]));
    assert_eq!(tokenise_expression("ABc"), Ok(vec![tname("A"), tname("Bc")]));
    assert_eq!(tokenise_expression("AbC"), Ok(vec![tname("Ab"), tname("C")]));
    assert_eq!(tokenise_expression("Abc"), Ok(vec![tname("Abc")]));
    assert_eq!(tokenise_expression("aBC"), Err(TokeniseError::Lex));
    assert_eq!(tokenise_expression("aBc"), Err(TokeniseError::Lex));
    assert_eq!(tokenise_expression("abC"), Err(TokeniseError::Lex));
    assert_eq!(tokenise_expression("abc"), Err(TokeniseError::Lex));
}

#[test]
fn tokenise_expression_failure() {
    assert_eq!(tokenise_expression("@"), Err(TokeniseError::Lex));
    assert_eq!(tokenise_expression(" []@"), unconsumed("@"));
    assert_eq!(
        tokenise_expression(std::str::from_utf8(&[10, 5, 91]).unwrap()),
        unconsumed(std::str::from_utf8(&[5, 91]).unwrap())
    );
    assert_eq!(tokenise_expression("word"), Err(TokeniseError::Lex));
}

#[test]
fn tokenise_decimal_literals() {
    assert_eq!(
        tokenise_expression("3.2 .5 1. 1e5 2.5E-3 7e+2"),
        Ok(vec![tnum("3.2"), tnum(".5"), tnum("1."), tnum("1e5"), tnum("2.5E-3"), tnum("7e+2")])
    );
    // An exponent marker without digits is not part of the number.
    assert_eq!(tokenise_expression("1e"), unconsumed("e"));
    // A point alone is no number.
    assert_eq!(tokenise_expression("."), Err(TokeniseError::Lex));
    // Whitespace alone yields no tokens.
    assert_eq!(tokenise_expression(" \t\n"), Ok(vec![]));
}
