//! The grammar of expressions over token sequences, as spec functions.
//!
//! ```text
//! expression     := addition
//! addition       := multiplication ( ('+' | '-') multiplication )*      left-nested
//! multiplication := division ( '*'? multiplication )?                   right-nested
//! division       := exponent ( '/' exponent )*                          left-nested
//! exponent       := term ( '^' power )?
//! power          := '{' expression '}' | exponent
//! term           := '-' term | name | 'rot' '(' number ')' | number
//!                 | '[' e e ';' e e ']' | '[' e e e ';' e e e ';' e e e ']'
//!                 | '(' expression ')'
//! e              := '-'? number
//! ```
//!
//! A juxtaposed factor (no `*`) must start with a name, `rot`, a number, `[` or `(`;
//! `a - b` is `a + (-b)`.

use vstd::prelude::*;
use crate::ast::Expr;
use crate::token::Tok;

verus! {

/// The outcome of parsing from a position: an expression and the position after it, or
/// failure with the position where the input stops fitting the grammar.
pub enum Parsed {
    Found(Expr, int),
    Fail(int),
}

/// A sub-parse from `i` that ended at `j` moved forward and stayed in bounds. Every
/// successful parse does; stating it lets the recursion below be seen to terminate.
pub open spec fn advanced(ts: Seq<Tok>, i: int, j: int) -> bool {
    i < j <= ts.len()
}

/// Whether the token at `j` can start a factor written without `*`.
pub open spec fn starts_factor(ts: Seq<Tok>, j: int) -> bool {
    0 <= j < ts.len() && (ts[j] is Name || ts[j] is Rot || ts[j] is Number
        || ts[j] == Tok::OpenSquareBracket || ts[j] == Tok::OpenParen)
}

/// Whether the token at `j` is `t`.
pub open spec fn tok_at(ts: Seq<Tok>, j: int, t: Tok) -> bool {
    0 <= j < ts.len() && ts[j] == t
}

/// Whether the token at `j` is a number.
pub open spec fn num_at(ts: Seq<Tok>, j: int) -> bool {
    0 <= j < ts.len() && ts[j] is Number
}

/// The text of the number token at `j`.
pub open spec fn num_text(ts: Seq<Tok>, j: int) -> Seq<char> {
    ts[j]->Number_0
}

/// The entry of a literal matrix at `j`: a number, or `-` and a number, with the position
/// after it.
pub open spec fn entry_at(ts: Seq<Tok>, j: int) -> Option<(Seq<char>, int)> {
    if num_at(ts, j) {
        Some((num_text(ts, j), j + 1))
    } else if tok_at(ts, j, Tok::Minus) && num_at(ts, j + 1) {
        Some((seq!['-'] + num_text(ts, j + 1), j + 2))
    } else {
        None
    }
}

/// `n` entries from `j` on.
pub open spec fn entries_at(ts: Seq<Tok>, j: int, n: nat) -> Option<(Seq<Seq<char>>, int)>
    decreases n,
{
    if n == 0 {
        Some((Seq::empty(), j))
    } else {
        match entry_at(ts, j) {
            None => None,
            Some((t, k)) => match entries_at(ts, k, (n - 1) as nat) {
                None => None,
                Some((rest, l)) => Some((seq![t] + rest, l)),
            },
        }
    }
}

/// `rows` rows of `w` entries from `j` on, separated by `;` and closed by `]`.
pub open spec fn rows_at(ts: Seq<Tok>, j: int, w: nat, rows: nat) -> Option<(Seq<Seq<char>>, int)>
    decreases rows,
{
    if rows == 0 {
        None
    } else {
        match entries_at(ts, j, w) {
            None => None,
            Some((row, k)) => if rows == 1 {
                if tok_at(ts, k, Tok::CloseSquareBracket) {
                    Some((row, k + 1))
                } else {
                    None
                }
            } else if tok_at(ts, k, Tok::Semicolon) {
                match rows_at(ts, k + 1, w, (rows - 1) as nat) {
                    None => None,
                    Some((rest, l)) => Some((row + rest, l)),
                }
            } else {
                None
            },
        }
    }
}

/// A literal `w` by `w` matrix at `i`: its entries row by row, and the position after it.
pub open spec fn matrix_at(ts: Seq<Tok>, i: int, w: nat) -> Option<(Seq<Seq<char>>, int)> {
    if tok_at(ts, i, Tok::OpenSquareBracket) {
        rows_at(ts, i + 1, w, w)
    } else {
        None
    }
}

/// `rot ( n )` starts at `i`.
pub open spec fn rot_call_at(ts: Seq<Tok>, i: int) -> bool {
    &&& tok_at(ts, i, Tok::Rot)
    &&& tok_at(ts, i + 1, Tok::OpenParen)
    &&& num_at(ts, i + 2)
    &&& tok_at(ts, i + 3, Tok::CloseParen)
}

/// expression := addition
pub open spec fn p_expression(ts: Seq<Tok>, i: int) -> Parsed
    decreases ts.len() - i, 6nat,
{
    if !(0 <= i <= ts.len()) {
        Parsed::Fail(i)
    } else {
        p_addition(ts, i)
    }
}

/// addition := multiplication ( ('+' | '-') multiplication )*
pub open spec fn p_addition(ts: Seq<Tok>, i: int) -> Parsed
    decreases ts.len() - i, 5nat,
{
    if !(0 <= i <= ts.len()) {
        Parsed::Fail(i)
    } else {
        match p_multiplication(ts, i) {
            Parsed::Fail(p) => Parsed::Fail(p),
            Parsed::Found(m, j) => if advanced(ts, i, j) {
                p_addition_rest(ts, j, m)
            } else {
                Parsed::Fail(i)
            },
        }
    }
}

/// The `( ('+' | '-') multiplication )*` part, folding into `acc` from the left.
pub open spec fn p_addition_rest(ts: Seq<Tok>, j: int, acc: Expr) -> Parsed
    decreases ts.len() - j, 5nat,
{
    if !(0 <= j <= ts.len()) {
        Parsed::Fail(j)
    } else if tok_at(ts, j, Tok::Plus) || tok_at(ts, j, Tok::Minus) {
        match p_multiplication(ts, j + 1) {
            Parsed::Fail(p) => Parsed::Fail(p),
            Parsed::Found(m, k) => if advanced(ts, j, k) {
                let rhs = if ts[j] == Tok::Plus {
                    m
                } else {
                    Expr::Negate(Box::new(m))
                };
                p_addition_rest(ts, k, Expr::Add(Box::new(acc), Box::new(rhs)))
            } else {
                Parsed::Fail(j)
            },
        }
    } else {
        Parsed::Found(acc, j)
    }
}

/// multiplication := division ( '*'? multiplication )?
pub open spec fn p_multiplication(ts: Seq<Tok>, i: int) -> Parsed
    decreases ts.len() - i, 4nat,
{
    if !(0 <= i <= ts.len()) {
        Parsed::Fail(i)
    } else {
        match p_division(ts, i) {
            Parsed::Fail(p) => Parsed::Fail(p),
            Parsed::Found(d, j) => if !advanced(ts, i, j) {
                Parsed::Fail(i)
            } else {
                let k = if tok_at(ts, j, Tok::Star) {
                    j + 1
                } else {
                    j
                };
                if tok_at(ts, j, Tok::Star) || starts_factor(ts, j) {
                    match p_multiplication(ts, k) {
                        Parsed::Fail(p) => Parsed::Fail(p),
                        Parsed::Found(r, l) => Parsed::Found(Expr::Multiply(Box::new(d), Box::new(r)), l),
                    }
                } else {
                    Parsed::Found(d, j)
                }
            },
        }
    }
}

/// division := exponent ( '/' exponent )*
pub open spec fn p_division(ts: Seq<Tok>, i: int) -> Parsed
    decreases ts.len() - i, 3nat,
{
    if !(0 <= i <= ts.len()) {
        Parsed::Fail(i)
    } else {
        match p_exponent(ts, i) {
            Parsed::Fail(p) => Parsed::Fail(p),
            Parsed::Found(x, j) => if advanced(ts, i, j) {
                p_division_rest(ts, j, x)
            } else {
                Parsed::Fail(i)
            },
        }
    }
}

/// The `( '/' exponent )*` part, folding into `acc` from the left.
pub open spec fn p_division_rest(ts: Seq<Tok>, j: int, acc: Expr) -> Parsed
    decreases ts.len() - j, 3nat,
{
    if !(0 <= j <= ts.len()) {
        Parsed::Fail(j)
    } else if tok_at(ts, j, Tok::Slash) {
        match p_exponent(ts, j + 1) {
            Parsed::Fail(p) => Parsed::Fail(p),
            Parsed::Found(x, k) => if advanced(ts, j, k) {
                p_division_rest(ts, k, Expr::Divide(Box::new(acc), Box::new(x)))
            } else {
                Parsed::Fail(j)
            },
        }
    } else {
        Parsed::Found(acc, j)
    }
}

/// exponent := term ( '^' power )?
pub open spec fn p_exponent(ts: Seq<Tok>, i: int) -> Parsed
    decreases ts.len() - i, 1nat,
{
    if !(0 <= i <= ts.len()) {
        Parsed::Fail(i)
    } else {
        match p_term(ts, i) {
            Parsed::Fail(p) => Parsed::Fail(p),
            Parsed::Found(b, j) => if !advanced(ts, i, j) {
                Parsed::Fail(i)
            } else if tok_at(ts, j, Tok::Caret) {
                match p_power(ts, j + 1) {
                    Parsed::Fail(p) => Parsed::Fail(p),
                    Parsed::Found(p, k) => Parsed::Found(Expr::Exponent(Box::new(b), Box::new(p)), k),
                }
            } else {
                Parsed::Found(b, j)
            },
        }
    }
}

/// power := '{' expression '}' | exponent
pub open spec fn p_power(ts: Seq<Tok>, i: int) -> Parsed
    decreases ts.len() - i, 2nat,
{
    if !(0 <= i <= ts.len()) {
        Parsed::Fail(i)
    } else if tok_at(ts, i, Tok::OpenBrace) {
        match p_expression(ts, i + 1) {
            Parsed::Fail(p) => Parsed::Fail(p),
            Parsed::Found(e, j) => if tok_at(ts, j, Tok::CloseBrace) {
                Parsed::Found(e, j + 1)
            } else {
                Parsed::Fail(j)
            },
        }
    } else {
        p_exponent(ts, i)
    }
}

/// term := '-' term | name | rotation | number | literal matrix | '(' expression ')'
pub open spec fn p_term(ts: Seq<Tok>, i: int) -> Parsed
    decreases ts.len() - i, 0nat,
{
    if !(0 <= i < ts.len()) {
        Parsed::Fail(i)
    } else {
        match ts[i] {
            Tok::Minus => match p_term(ts, i + 1) {
                Parsed::Fail(p) => Parsed::Fail(p),
                Parsed::Found(x, j) => Parsed::Found(Expr::Negate(Box::new(x)), j),
            },
            Tok::Name(n) => Parsed::Found(Expr::Named(n), i + 1),
            Tok::Number(t) => Parsed::Found(Expr::Number(t), i + 1),
            Tok::Rot => if rot_call_at(ts, i) {
                Parsed::Found(Expr::Rotation(num_text(ts, i + 2)), i + 4)
            } else {
                Parsed::Fail(i)
            },
            Tok::OpenSquareBracket => match matrix_at(ts, i, 2) {
                Some((es, j)) => Parsed::Found(Expr::Anon2(es), j),
                None => match matrix_at(ts, i, 3) {
                    Some((es, j)) => Parsed::Found(Expr::Anon3(es), j),
                    None => Parsed::Fail(i),
                },
            },
            Tok::OpenParen => match p_expression(ts, i + 1) {
                Parsed::Fail(p) => Parsed::Fail(p),
                Parsed::Found(e, j) => if tok_at(ts, j, Tok::CloseParen) {
                    Parsed::Found(e, j + 1)
                } else {
                    Parsed::Fail(j)
                },
            },
            _ => Parsed::Fail(i),
        }
    }
}

/// What parsing a whole token sequence gives.
pub enum ParseOutcome {
    Parsed(Expr),
    Unexpected(Seq<Tok>),
    Unconsumed(Seq<Tok>),
}

/// The tokens from `p` on; none where `p` is out of bounds.
pub open spec fn window(ts: Seq<Tok>, p: int) -> Seq<Tok> {
    if 0 <= p <= ts.len() {
        ts.subrange(p, ts.len() as int)
    } else {
        Seq::empty()
    }
}

/// Parsing a whole token sequence: an expression that takes every token, or the tokens
/// from where the grammar failed, or the tokens left after a complete expression.
pub open spec fn parse_tokens(ts: Seq<Tok>) -> ParseOutcome {
    match p_expression(ts, 0) {
        Parsed::Found(e, j) => if j == ts.len() {
            ParseOutcome::Parsed(e)
        } else {
            ParseOutcome::Unconsumed(window(ts, j))
        },
        Parsed::Fail(p) => ParseOutcome::Unexpected(window(ts, p)),
    }
}

} // verus!
