use trinity::ast::AstNode;
use trinity::expression::{parse_expression_from_string, TokeniseOrParseError};
use trinity::name::MatrixName;
use trinity::parser::{parse_expression, parse_tokens_into_ast, ParseError};
use trinity::token::Token;
use trinity::tokenise::TokeniseError;

fn num(s: &str) -> AstNode {
    AstNode::Number(s.to_string())
}

fn named(s: &str) -> AstNode {
    AstNode::NamedMatrix(MatrixName::new(s))
}

fn b(a: AstNode) -> Box<AstNode> {
    Box::new(a)
}

fn tnum(s: &str) -> Token {
    Token::Number(s.to_string())
}

fn tname(s: &str) -> Token {
    Token::NamedMatrix(MatrixName::new(s))
}

fn lex_error() -> Result<AstNode, TokeniseOrParseError> {
    Err(TokeniseOrParseError::TokeniseError(TokeniseError::Lex))
}

#[test]
fn parse_expression_from_string_success() {
    assert_eq!(
        parse_expression_from_string("A + B / C"),
        Ok(AstNode::Add {
            left: b(named("A")),
            right: b(AstNode::Divide { left: b(named("B")), right: b(named("C")) })
        })
    );

    assert_eq!(
        parse_expression_from_string("2 - 1"),
        Ok(AstNode::Add { left: b(num("2")), right: b(AstNode::Negate(b(num("1")))) })
    );

    assert_eq!(
        parse_expression_from_string("2 * -1"),
        Ok(AstNode::Multiply { left: b(num("2")), right: b(AstNode::Negate(b(num("1")))) })
    );

    assert_eq!(parse_expression_from_string("-1"), Ok(AstNode::Negate(b(num("1")))));

    assert_eq!(
        parse_expression_from_string("A + B ^ T * M ^ {-1} / 2"),
        Ok(AstNode::Add {
            left: b(named("A")),
            right: b(AstNode::Multiply {
                left: b(AstNode::Exponent { base: b(named("B")), power: b(named("T")) }),
                right: b(AstNode::Divide {
                    left: b(AstNode::Exponent {
                        base: b(named("M")),
                        power: b(AstNode::Negate(b(num("1"))))
                    }),
                    right: b(num("2"))
                })
            })
        })
    );

    // Division associates to the left: D/3/2 is (D/3)/2.
    assert_eq!(
        parse_expression_from_string("(2*M + 3*X^-1) * (D/3/2)"),
        Ok(AstNode::Multiply {
            left: b(AstNode::Add {
                left: b(AstNode::Multiply { left: b(num("2")), right: b(named("M")) }),
                right: b(AstNode::Multiply {
                    left: b(num("3")),
                    right: b(AstNode::Exponent {
                        base: b(named("X")),
                        power: b(AstNode::Negate(b(num("1"))))
                    })
                })
            }),
            right: b(AstNode::Divide {
                left: b(AstNode::Divide { left: b(named("D")), right: b(num("3")) }),
                right: b(num("2"))
            })
        })
    );

    assert_eq!(
        parse_expression_from_string("M / 2 + B ^ 2 * rot(90)"),
        Ok(AstNode::Add {
            left: b(AstNode::Divide { left: b(named("M")), right: b(num("2")) }),
            right: b(AstNode::Multiply {
                left: b(AstNode::Exponent { base: b(named("B")), power: b(num("2")) }),
                right: b(AstNode::RotationMatrix { degrees: "90".to_string() })
            })
        })
    );

    assert_eq!(
        parse_expression_from_string("AB"),
        Ok(AstNode::Multiply { left: b(named("A")), right: b(named("B")) })
    );

    assert_eq!(
        parse_expression_from_string("2ABc"),
        Ok(AstNode::Multiply {
            left: b(num("2")),
            right: b(AstNode::Multiply { left: b(named("A")), right: b(named("Bc")) })
        })
    );

    assert_eq!(
        parse_expression_from_string("3M - 2X"),
        Ok(AstNode::Add {
            left: b(AstNode::Multiply { left: b(num("3")), right: b(named("M")) }),
            right: b(AstNode::Negate(b(AstNode::Multiply {
                left: b(num("2")),
                right: b(named("X"))
            })))
        })
    );

    assert_eq!(
        parse_expression_from_string("3M(-2X)"),
        Ok(AstNode::Multiply {
            left: b(num("3")),
            right: b(AstNode::Multiply {
                left: b(named("M")),
                right: b(AstNode::Multiply {
                    left: b(AstNode::Negate(b(num("2")))),
                    right: b(named("X"))
                })
            })
        })
    );
}

#[test]
fn parse_expression_from_string_abc() {
    assert_eq!(
        parse_expression_from_string("ABC"),
        Ok(AstNode::Multiply {
            left: b(named("A")),
            right: b(AstNode::Multiply { left: b(named("B")), right: b(named("C")) })
        })
    );
    assert_eq!(
        parse_expression_from_string("ABc"),
        Ok(AstNode::Multiply { left: b(named("A")), right: b(named("Bc")) })
    );
    assert_eq!(
        parse_expression_from_string("AbC"),
        Ok(AstNode::Multiply { left: b(named("Ab")), right: b(named("C")) })
    );
    assert_eq!(parse_expression_from_string("Abc"), Ok(named("Abc")));
    assert_eq!(parse_expression_from_string("aBC"), lex_error());
    assert_eq!(parse_expression_from_string("aBc"), lex_error());
    assert_eq!(parse_expression_from_string("abC"), lex_error());
    assert_eq!(parse_expression_from_string("abc"), lex_error());
}

#[test]
fn parse_expression_from_string_failure() {
    assert_eq!(parse_expression_from_string(""), lex_error());

    assert_eq!(
        parse_expression_from_string("2 @ M"),
        Err(TokeniseOrParseError::TokeniseError(TokeniseError::UnconsumedInput(
            "@ M".to_string()
        )))
    );

    assert_eq!(
        parse_expression_from_string("C++"),
        Err(TokeniseOrParseError::ParseError(ParseError::Unexpected(vec![Token::Plus])))
    );

    assert_eq!(
        parse_expression_from_string("[1 2 3 4]"),
        Err(TokeniseOrParseError::ParseError(ParseError::Unexpected(vec![
            Token::OpenSquareBracket,
            tnum("1"),
            tnum("2"),
            tnum("3"),
            tnum("4"),
            Token::CloseSquareBracket
        ])))
    );

    assert_eq!(
        parse_expression_from_string("[1"),
        Err(TokeniseOrParseError::ParseError(ParseError::Unexpected(vec![
            Token::OpenSquareBracket,
            tnum("1"),
        ])))
    );
}

#[test]
fn parse_simple_success() {
    assert_eq!(parse_tokens_into_ast(&[tname("M")]), Ok(named("M")));
    assert_eq!(parse_tokens_into_ast(&[tnum("12.5")]), Ok(num("12.5")));
    assert_eq!(
        parse_tokens_into_ast(&[Token::Rot, Token::OpenParen, tnum("45"), Token::CloseParen]),
        Ok(AstNode::RotationMatrix { degrees: "45".to_string() })
    );
    assert_eq!(
        parse_tokens_into_ast(&[
            Token::OpenSquareBracket,
            tnum("1"),
            tnum("2"),
            Token::Semicolon,
            tnum("3"),
            tnum("4"),
            Token::CloseSquareBracket,
        ]),
        Ok(AstNode::Anonymous2dMatrix([
            "1".to_string(),
            "2".to_string(),
            "3".to_string(),
            "4".to_string()
        ]))
    );
    assert_eq!(
        parse_tokens_into_ast(&[
            Token::OpenSquareBracket,
            tnum("1"),
            tnum("2"),
            tnum("3"),
            Token::Semicolon,
            tnum("4"),
            tnum("5"),
            tnum("6"),
            Token::Semicolon,
            tnum("7"),
            tnum("8"),
            tnum("9"),
            Token::CloseSquareBracket,
        ]),
        Ok(AstNode::Anonymous3dMatrix([
            "1".to_string(),
            "2".to_string(),
            "3".to_string(),
            "4".to_string(),
            "5".to_string(),
            "6".to_string(),
            "7".to_string(),
            "8".to_string(),
            "9".to_string()
        ]))
    );
    assert_eq!(
        parse_tokens_into_ast(&[tname("M"), Token::Caret, tnum("2")]),
        Ok(AstNode::Exponent { base: b(named("M")), power: b(num("2")) })
    );
    assert_eq!(
        parse_tokens_into_ast(&[tname("M"), Token::Caret, Token::Minus, tnum("1")]),
        Ok(AstNode::Exponent { base: b(named("M")), power: b(AstNode::Negate(b(num("1")))) })
    );
    assert_eq!(
        parse_tokens_into_ast(&[
            tname("M"),
            Token::Caret,
            Token::OpenBrace,
            Token::Minus,
            tnum("2.5"),
            Token::CloseBrace,
        ]),
        Ok(AstNode::Exponent { base: b(named("M")), power: b(AstNode::Negate(b(num("2.5")))) })
    );
    assert_eq!(
        parse_tokens_into_ast(&[
            tname("M"),
            Token::Caret,
            Token::OpenBrace,
            tnum("0.5"),
            Token::CloseBrace,
        ]),
        Ok(AstNode::Exponent { base: b(named("M")), power: b(num("0.5")) })
    );
    assert_eq!(
        parse_tokens_into_ast(&[tnum("2"), Token::Slash, tnum("3")]),
        Ok(AstNode::Divide { left: b(num("2")), right: b(num("3")) })
    );
    assert_eq!(
        parse_tokens_into_ast(&[tnum("2"), Token::Star, tname("M")]),
        Ok(AstNode::Multiply { left: b(num("2")), right: b(named("M")) })
    );
    assert_eq!(
        parse_tokens_into_ast(&[tname("A"), Token::Plus, tname("B")]),
        Ok(AstNode::Add { left: b(named("A")), right: b(named("B")) })
    );
}

#[test]
fn parse_compound_success() {
    assert_eq!(
        parse_tokens_into_ast(&[tname("A"), Token::Plus, tname("B"), Token::Star, tname("C")]),
        Ok(AstNode::Add {
            left: b(named("A")),
            right: b(AstNode::Multiply { left: b(named("B")), right: b(named("C")) })
        })
    );
    assert_eq!(
        parse_tokens_into_ast(&[tname("A"), Token::Star, tname("B"), Token::Plus, tname("C")]),
        Ok(AstNode::Add {
            left: b(AstNode::Multiply { left: b(named("A")), right: b(named("B")) }),
            right: b(named("C"))
        })
    );
    assert_eq!(
        parse_tokens_into_ast(&[
            tname("A"),
            Token::Star,
            Token::OpenParen,
            tname("B"),
            Token::Plus,
            tname("C"),
            Token::CloseParen,
        ]),
        Ok(AstNode::Multiply {
            left: b(named("A")),
            right: b(AstNode::Add { left: b(named("B")), right: b(named("C")) })
        })
    );
}

#[test]
fn subtraction_is_addition_of_negation() {
    assert_eq!(
        parse_expression_from_string("2 - 1"),
        Ok(AstNode::Add { left: b(num("2")), right: b(AstNode::Negate(b(num("1")))) })
    );
    // Subtraction chains nest to the left.
    assert_eq!(
        parse_expression_from_string("5 - 2 - 1"),
        Ok(AstNode::Add {
            left: b(AstNode::Add { left: b(num("5")), right: b(AstNode::Negate(b(num("2")))) }),
            right: b(AstNode::Negate(b(num("1"))))
        })
    );
}

#[test]
fn power_is_right_associative_and_braced() {
    assert_eq!(
        parse_expression_from_string("2 ^ 3 ^ 2"),
        Ok(AstNode::Exponent {
            base: b(num("2")),
            power: b(AstNode::Exponent { base: b(num("3")), power: b(num("2")) })
        })
    );
    assert_eq!(
        parse_expression_from_string("[1 2; 3 2] ^ (1 + 2)"),
        Ok(AstNode::Exponent {
            base: b(AstNode::Anonymous2dMatrix([
                "1".to_string(),
                "2".to_string(),
                "3".to_string(),
                "2".to_string()
            ])),
            power: b(AstNode::Add { left: b(num("1")), right: b(num("2")) })
        })
    );
}

#[test]
fn literal_entries_may_be_negated() {
    assert_eq!(
        parse_expression_from_string("M^2 * [1 2; 3 -5]"),
        Ok(AstNode::Multiply {
            left: b(AstNode::Exponent { base: b(named("M")), power: b(num("2")) }),
            right: b(AstNode::Anonymous2dMatrix([
                "1".to_string(),
                "2".to_string(),
                "3".to_string(),
                "-5".to_string()
            ]))
        })
    );
    // A sign applies to a number only, never to a name inside a literal.
    assert_eq!(
        parse_expression_from_string("[1 -M; 3 4]"),
        Err(TokeniseOrParseError::ParseError(ParseError::Unexpected(vec![
            Token::OpenSquareBracket,
            tnum("1"),
            Token::Minus,
            tname("M"),
            Token::Semicolon,
            tnum("3"),
            tnum("4"),
            Token::CloseSquareBracket
        ])))
    );
}

#[test]
fn parse_errors_name_the_failing_tokens() {
    // A missing closing parenthesis: nothing is left where it was expected.
    assert_eq!(
        parse_expression_from_string("(1 + 2"),
        Err(TokeniseOrParseError::ParseError(ParseError::Unexpected(vec![])))
    );
    // A complete expression followed by more tokens.
    assert_eq!(
        parse_expression_from_string("M ^ {2} ^ 3"),
        Err(TokeniseOrParseError::ParseError(ParseError::UnconsumedInput(vec![
            Token::Caret,
            tnum("3")
        ])))
    );
    assert_eq!(
        parse_expression_from_string("rot(M)"),
        Err(TokeniseOrParseError::ParseError(ParseError::Unexpected(vec![
            Token::Rot,
            Token::OpenParen,
            tname("M"),
            Token::CloseParen
        ])))
    );
}

#[test]
fn parse_expression_reports_where_it_stopped() {
    let tokens = [tname("A"), Token::Plus, tname("B"), Token::CloseParen];
    assert_eq!(
        parse_expression(&tokens, 0),
        Ok((AstNode::Add { left: b(named("A")), right: b(named("B")) }, 3))
    );
    assert_eq!(parse_expression(&tokens, 2), Ok((named("B"), 3)));
    assert_eq!(parse_expression(&tokens, 3), Err(3));
    assert_eq!(parse_expression(&tokens, 4), Err(4));
}
