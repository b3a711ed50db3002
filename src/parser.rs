//! Parsing a token sequence into an expression tree, by recursive descent over the
//! grammar of [`crate::grammar`].

use vstd::prelude::*;
use crate::ast::{texts, AstNode, Expr};
use crate::grammar::{
    entries_at, entry_at, matrix_at, num_at, num_text, rows_at, p_addition, p_addition_rest,
    p_division, p_division_rest, p_exponent, p_expression, p_multiplication, p_power, p_term,
    parse_tokens, starts_factor, tok_at, window, ParseOutcome, Parsed,
};
use crate::token::{toks, Tok, Token};

verus! {

/// An error of parsing.
#[derive(Clone, Debug, PartialEq)]
pub enum ParseError {
    /// The tokens from where the input stops fitting the grammar.
    Unexpected(Vec<Token>),
    /// The tokens left over after a complete expression.
    UnconsumedInput(Vec<Token>),
}

/// An exec parse result agrees with the grammar's outcome `p` from position `i`.
pub open spec fn agrees(r: Result<(AstNode, usize), usize>, p: Parsed, len: int, i: int) -> bool {
    match r {
        Ok((a, j)) => p == Parsed::Found(a@, j as int) && i < j <= len,
        Err(q) => p == Parsed::Fail(q as int) && q <= len,
    }
}

/// A copy of a token.
pub fn copy_token(t: &Token) -> (r: Token)
    ensures
        r@ == t@,
{
    match t {
        Token::NamedMatrix(n) => Token::NamedMatrix(n.duplicate()),
        Token::Number(s) => Token::Number(s.clone()),
        Token::Rot => Token::Rot,
        Token::Plus => Token::Plus,
        Token::Minus => Token::Minus,
        Token::Star => Token::Star,
        Token::Slash => Token::Slash,
        Token::Caret => Token::Caret,
        Token::Semicolon => Token::Semicolon,
        Token::OpenParen => Token::OpenParen,
        Token::CloseParen => Token::CloseParen,
        Token::OpenSquareBracket => Token::OpenSquareBracket,
        Token::CloseSquareBracket => Token::CloseSquareBracket,
        Token::OpenBrace => Token::OpenBrace,
        Token::CloseBrace => Token::CloseBrace,
    }
}

/// A copy of the tokens from `p` on.
fn tokens_from(ts: &[Token], p: usize) -> (r: Vec<Token>)
    requires
        p <= ts@.len(),
    ensures
        toks(r@) == window(toks(ts@), p as int),
{
    let mut r: Vec<Token> = Vec::new();
    let mut k: usize = p;
    while k < ts.len()
        invariant
            p <= k <= ts@.len(),
            toks(r@) == toks(ts@).subrange(p as int, k as int),
        decreases ts@.len() - k,
    {
        let ghost old_r = r@;
        let t = copy_token(&ts[k]);
        r.push(t);
        assert(toks(r@) =~= toks(old_r).push(t@));
        assert(toks(r@) =~= toks(ts@).subrange(p as int, k + 1));
        k = k + 1;
    }
    r
}

/// Whether the token at `j` is the token `t`, which carries no text.
fn punct_at(ts: &[Token], j: usize, t: Token) -> (r: bool)
    requires
        !(t is NamedMatrix),
        !(t is Number),
    ensures
        r == tok_at(toks(ts@), j as int, t@),
{
    if j >= ts.len() {
        return false;
    }
    match (&ts[j], &t) {
        (Token::Rot, Token::Rot) => true,
        (Token::Plus, Token::Plus) => true,
        (Token::Minus, Token::Minus) => true,
        (Token::Star, Token::Star) => true,
        (Token::Slash, Token::Slash) => true,
        (Token::Caret, Token::Caret) => true,
        (Token::Semicolon, Token::Semicolon) => true,
        (Token::OpenParen, Token::OpenParen) => true,
        (Token::CloseParen, Token::CloseParen) => true,
        (Token::OpenSquareBracket, Token::OpenSquareBracket) => true,
        (Token::CloseSquareBracket, Token::CloseSquareBracket) => true,
        (Token::OpenBrace, Token::OpenBrace) => true,
        (Token::CloseBrace, Token::CloseBrace) => true,
        _ => false,
    }
}

/// The text of the number token at `j`, if there is one.
fn number_at(ts: &[Token], j: usize) -> (r: Option<String>)
    ensures
        r is Some <==> num_at(toks(ts@), j as int),
        r matches Some(s) ==> s@ == num_text(toks(ts@), j as int),
{
    if j >= ts.len() {
        return None;
    }
    match &ts[j] {
        Token::Number(s) => Some(s.clone()),
        _ => None,
    }
}

/// Whether the token at `j` can start a factor written without `*`.
fn factor_starts_at(ts: &[Token], j: usize) -> (r: bool)
    ensures
        r == starts_factor(toks(ts@), j as int),
{
    if j >= ts.len() {
        return false;
    }
    match &ts[j] {
        Token::NamedMatrix(_) | Token::Rot | Token::Number(_) | Token::OpenSquareBracket
        | Token::OpenParen => true,
        _ => false,
    }
}

/// The entry of a literal matrix at `j`: a number, or `-` and a number.
fn read_entry(ts: &[Token], j: usize) -> (r: Option<(String, usize)>)
    requires
        j <= ts@.len(),
    ensures
        match r {
            Some((t, k)) => entry_at(toks(ts@), j as int) == Some((t@, k as int)) && j < k <= ts@.len(),
            None => entry_at(toks(ts@), j as int) is None,
        },
{
    if j >= ts.len() {
        return None;
    }
    if let Some(t) = number_at(ts, j) {
        return Some((t, j + 1));
    }
    if punct_at(ts, j, Token::Minus) {
        if let Some(t) = number_at(ts, j + 1) {
            let mut r = String::from_str("-");
            r.append(t.as_str());
            proof {
                reveal_strlit("-");
            }
            return Some((r, j + 2));
        }
    }
    None
}

/// `n` entries of a literal matrix from `j` on.
fn read_entries(ts: &[Token], j: usize, n: usize) -> (r: Option<(Vec<String>, usize)>)
    requires
        j <= ts@.len(),
    ensures
        match r {
            Some((v, k)) => entries_at(toks(ts@), j as int, n as nat) == Some((texts(v@), k as int))
                && j <= k <= ts@.len() && v@.len() == n,
            None => entries_at(toks(ts@), j as int, n as nat) is None,
        },
    decreases n,
{
    if n == 0 {
        let v: Vec<String> = Vec::new();
        assert(texts(v@) =~= Seq::<Seq<char>>::empty());
        return Some((v, j));
    }
    match read_entry(ts, j) {
        None => None,
        Some((t, k)) => match read_entries(ts, k, n - 1) {
            None => None,
            Some((mut rest, l)) => {
                let ghost rv = rest@;
                let mut v: Vec<String> = Vec::new();
                v.push(t);
                v.append(&mut rest);
                assert(texts(v@) =~= seq![t@] + texts(rv));
                Some((v, l))
            },
        },
    }
}

/// `rows` rows of `w` entries from `j` on, separated by `;` and closed by `]`.
fn read_rows(ts: &[Token], j: usize, w: usize, rows: usize) -> (r: Option<(Vec<String>, usize)>)
    requires
        j <= ts@.len(),
        w <= 3,
        rows <= 3,
    ensures
        match r {
            Some((v, k)) => rows_at(toks(ts@), j as int, w as nat, rows as nat) == Some((texts(v@), k as int))
                && j < k <= ts@.len() && v@.len() == w * rows,
            None => rows_at(toks(ts@), j as int, w as nat, rows as nat) is None,
        },
    decreases rows,
{
    if rows == 0 {
        return None;
    }
    match read_entries(ts, j, w) {
        None => None,
        Some((mut row, k)) => {
            if rows == 1 {
                if k < ts.len() && punct_at(ts, k, Token::CloseSquareBracket) {
                    assert(w * rows == w) by (nonlinear_arith)
                        requires
                            rows == 1,
                    ;
                    Some((row, k + 1))
                } else {
                    None
                }
            } else if k < ts.len() && punct_at(ts, k, Token::Semicolon) {
                match read_rows(ts, k + 1, w, rows - 1) {
                    None => None,
                    Some((mut rest, l)) => {
                        let ghost (wv, rv) = (row@, rest@);
                        row.append(&mut rest);
                        assert(texts(row@) =~= texts(wv) + texts(rv));
                        assert(w + w * (rows - 1) == w * rows) by (nonlinear_arith);
                        Some((row, l))
                    },
                }
            } else {
                None
            }
        },
    }
}

/// The literal `w` by `w` matrix at `i`, if one starts there.
fn read_matrix(ts: &[Token], i: usize, w: usize) -> (r: Option<(Vec<String>, usize)>)
    requires
        i < ts@.len(),
        w == 2 || w == 3,
    ensures
        match r {
            Some((v, k)) => matrix_at(toks(ts@), i as int, w as nat) == Some((texts(v@), k as int))
                && i < k <= ts@.len() && v@.len() == w * w,
            None => matrix_at(toks(ts@), i as int, w as nat) is None,
        },
{
    if i < ts.len() && punct_at(ts, i, Token::OpenSquareBracket) {
        read_rows(ts, i + 1, w, w)
    } else {
        None
    }
}

/// The last entry of `v`, which is not empty.
fn take_last(v: &mut Vec<String>) -> (r: String)
    requires
        old(v)@.len() > 0,
    ensures
        final(v)@ == old(v)@.drop_last(),
        r == old(v)@.last(),
{
    match v.pop() {
        Some(t) => t,
        None => String::new(),
    }
}

/// Four entries as an array.
fn four(v: Vec<String>) -> (r: [String; 4])
    requires
        v@.len() == 4,
    ensures
        texts(r@) == texts(v@),
{
    let ghost w = v@;
    let mut v = v;
    let d = take_last(&mut v);
    let c = take_last(&mut v);
    let b = take_last(&mut v);
    let a = take_last(&mut v);
    let r = [a, b, c, d];
    assert(r@ =~= w);
    r
}

/// Nine entries as an array.
fn nine(v: Vec<String>) -> (r: [String; 9])
    requires
        v@.len() == 9,
    ensures
        texts(r@) == texts(v@),
{
    let ghost w = v@;
    let mut v = v;
    let i9 = take_last(&mut v);
    let i8 = take_last(&mut v);
    let i7 = take_last(&mut v);
    let i6 = take_last(&mut v);
    let i5 = take_last(&mut v);
    let i4 = take_last(&mut v);
    let i3 = take_last(&mut v);
    let i2 = take_last(&mut v);
    let i1 = take_last(&mut v);
    let r = [i1, i2, i3, i4, i5, i6, i7, i8, i9];
    assert(r@ =~= w);
    r
}

/// expression := addition. Parses one expression from position `i`: the tree and the
/// position after it, or the position where the tokens stop fitting the grammar.
pub fn parse_expression(ts: &[Token], i: usize) -> (r: Result<(AstNode, usize), usize>)
    requires
        i <= ts@.len(),
    ensures
        agrees(r, p_expression(toks(ts@), i as int), ts@.len() as int, i as int),
    decreases ts@.len() - i, 6nat,
{
    parse_addition(ts, i)
}

/// addition := multiplication ( ('+' | '-') multiplication )*
fn parse_addition(ts: &[Token], i: usize) -> (r: Result<(AstNode, usize), usize>)
    requires
        i <= ts@.len(),
    ensures
        agrees(r, p_addition(toks(ts@), i as int), ts@.len() as int, i as int),
    decreases ts@.len() - i, 5nat,
{
    match parse_multiplication(ts, i) {
        Err(p) => Err(p),
        Ok((m, j)) => {
            let r = parse_addition_rest(ts, j, m);
            r
        },
    }
}

/// Folds further `+` and `-` terms into `acc`, from position `j`.
fn parse_addition_rest(ts: &[Token], j: usize, acc: AstNode) -> (r: Result<(AstNode, usize), usize>)
    requires
        j <= ts@.len(),
    ensures
        agrees(r, p_addition_rest(toks(ts@), j as int, acc@), ts@.len() as int, j as int - 1),
        r matches Ok((_, k)) ==> j <= k,
    decreases ts@.len() - j, 5nat,
{
    let plus = punct_at(ts, j, Token::Plus);
    if j < ts.len() && (plus || punct_at(ts, j, Token::Minus)) {
        match parse_multiplication(ts, j + 1) {
            Err(p) => Err(p),
            Ok((m, k)) => {
                let ghost mv = m@;
                let rhs = if plus {
                    m
                } else {
                    AstNode::Negate(Box::new(m))
                };
                assert(rhs@ == if toks(ts@)[j as int] == Tok::Plus {
                    mv
                } else {
                    Expr::Negate(Box::new(mv))
                });
                let sum = AstNode::Add { left: Box::new(acc), right: Box::new(rhs) };
                assert(sum@ == Expr::Add(Box::new(acc@), Box::new(rhs@)));
                parse_addition_rest(ts, k, sum)
            },
        }
    } else {
        Ok((acc, j))
    }
}

/// multiplication := division ( '*'? multiplication )?
fn parse_multiplication(ts: &[Token], i: usize) -> (r: Result<(AstNode, usize), usize>)
    requires
        i <= ts@.len(),
    ensures
        agrees(r, p_multiplication(toks(ts@), i as int), ts@.len() as int, i as int),
    decreases ts@.len() - i, 4nat,
{
    match parse_division(ts, i) {
        Err(p) => Err(p),
        Ok((d, j)) => {
            let star = j < ts.len() && punct_at(ts, j, Token::Star);
            if star || factor_starts_at(ts, j) {
                let k = if star {
                    j + 1
                } else {
                    j
                };
                match parse_multiplication(ts, k) {
                    Err(p) => Err(p),
                    Ok((r, l)) => Ok((AstNode::Multiply { left: Box::new(d), right: Box::new(r) }, l)),
                }
            } else {
                Ok((d, j))
            }
        },
    }
}

/// division := exponent ( '/' exponent )*
fn parse_division(ts: &[Token], i: usize) -> (r: Result<(AstNode, usize), usize>)
    requires
        i <= ts@.len(),
    ensures
        agrees(r, p_division(toks(ts@), i as int), ts@.len() as int, i as int),
    decreases ts@.len() - i, 3nat,
{
    match parse_exponent(ts, i) {
        Err(p) => Err(p),
        Ok((x, j)) => parse_division_rest(ts, j, x),
    }
}

/// Folds further `/` factors into `acc`, from position `j`.
fn parse_division_rest(ts: &[Token], j: usize, acc: AstNode) -> (r: Result<(AstNode, usize), usize>)
    requires
        j <= ts@.len(),
    ensures
        agrees(r, p_division_rest(toks(ts@), j as int, acc@), ts@.len() as int, j as int - 1),
        r matches Ok((_, k)) ==> j <= k,
    decreases ts@.len() - j, 3nat,
{
    if j < ts.len() && punct_at(ts, j, Token::Slash) {
        match parse_exponent(ts, j + 1) {
            Err(p) => Err(p),
            Ok((x, k)) => parse_division_rest(
                ts,
                k,
                AstNode::Divide { left: Box::new(acc), right: Box::new(x) },
            ),
        }
    } else {
        Ok((acc, j))
    }
}

/// exponent := term ( '^' power )?
fn parse_exponent(ts: &[Token], i: usize) -> (r: Result<(AstNode, usize), usize>)
    requires
        i <= ts@.len(),
    ensures
        agrees(r, p_exponent(toks(ts@), i as int), ts@.len() as int, i as int),
    decreases ts@.len() - i, 1nat,
{
    match parse_term(ts, i) {
        Err(p) => Err(p),
        Ok((b, j)) => {
            if j < ts.len() && punct_at(ts, j, Token::Caret) {
                match parse_power(ts, j + 1) {
                    Err(p) => Err(p),
                    Ok((p, k)) => Ok((AstNode::Exponent { base: Box::new(b), power: Box::new(p) }, k)),
                }
            } else {
                Ok((b, j))
            }
        },
    }
}

/// power := '{' expression '}' | exponent
fn parse_power(ts: &[Token], i: usize) -> (r: Result<(AstNode, usize), usize>)
    requires
        i <= ts@.len(),
    ensures
        agrees(r, p_power(toks(ts@), i as int), ts@.len() as int, i as int),
    decreases ts@.len() - i, 2nat,
{
    if i < ts.len() && punct_at(ts, i, Token::OpenBrace) {
        match parse_expression(ts, i + 1) {
            Err(p) => Err(p),
            Ok((e, j)) => {
                if j < ts.len() && punct_at(ts, j, Token::CloseBrace) {
                    Ok((e, j + 1))
                } else {
                    Err(j)
                }
            },
        }
    } else {
        parse_exponent(ts, i)
    }
}

/// term := '-' term | name | rotation | number | literal matrix | '(' expression ')'
fn parse_term(ts: &[Token], i: usize) -> (r: Result<(AstNode, usize), usize>)
    requires
        i <= ts@.len(),
    ensures
        agrees(r, p_term(toks(ts@), i as int), ts@.len() as int, i as int),
    decreases ts@.len() - i, 0nat,
{
    if i >= ts.len() {
        return Err(i);
    }
    match &ts[i] {
        Token::Minus => match parse_term(ts, i + 1) {
            Err(p) => Err(p),
            Ok((x, j)) => Ok((AstNode::Negate(Box::new(x)), j)),
        },
        Token::NamedMatrix(n) => Ok((AstNode::NamedMatrix(n.duplicate()), i + 1)),
        Token::Number(t) => Ok((AstNode::Number(t.clone()), i + 1)),
        Token::Rot => {
            if ts.len() - i >= 4 && punct_at(ts, i + 1, Token::OpenParen) && punct_at(
                ts,
                i + 3,
                Token::CloseParen,
            ) {
                match number_at(ts, i + 2) {
                    Some(degrees) => Ok((AstNode::RotationMatrix { degrees }, i + 4)),
                    None => Err(i),
                }
            } else {
                Err(i)
            }
        },
        Token::OpenSquareBracket => {
            match read_matrix(ts, i, 2) {
                Some((es, j)) => Ok((AstNode::Anonymous2dMatrix(four(es)), j)),
                None => match read_matrix(ts, i, 3) {
                    Some((es, j)) => Ok((AstNode::Anonymous3dMatrix(nine(es)), j)),
                    None => Err(i),
                },
            }
        },
        Token::OpenParen => match parse_expression(ts, i + 1) {
            Err(p) => Err(p),
            Ok((e, j)) => {
                if j < ts.len() && punct_at(ts, j, Token::CloseParen) {
                    Ok((e, j + 1))
                } else {
                    Err(j)
                }
            },
        },
        _ => Err(i),
    }
}

/// Parses a whole token sequence into an expression tree; see [`parse_tokens`] for the
/// outcome on every input.
pub fn parse_tokens_into_ast(tokens: &[Token]) -> (r: Result<AstNode, ParseError>)
    ensures
        match r {
            Ok(a) => parse_tokens(toks(tokens@)) == ParseOutcome::Parsed(a@),
            Err(ParseError::Unexpected(w)) => parse_tokens(toks(tokens@)) == ParseOutcome::Unexpected(toks(w@)),
            Err(ParseError::UnconsumedInput(w)) => parse_tokens(toks(tokens@)) == ParseOutcome::Unconsumed(toks(w@)),
        },
{
    match parse_expression(tokens, 0) {
        Err(p) => Err(ParseError::Unexpected(tokens_from(tokens, p))),
        Ok((a, j)) => {
            if j == tokens.len() {
                Ok(a)
            } else {
                Err(ParseError::UnconsumedInput(tokens_from(tokens, j)))
            }
        },
    }
}

} // verus!
