//! Splitting an expression string into tokens.

use vstd::prelude::*;
use vstd::std_specs::iter::IteratorSpec;
use crate::name::{is_name_head, is_name_tail, MatrixName};
use crate::token::{toks, Tok, Token};

verus! {

/// An ASCII decimal digit.
pub open spec fn is_digit(c: char) -> bool {
    '0' <= c && c <= '9'
}

/// Whitespace that separates tokens: space, tab, carriage return, line feed.
pub open spec fn is_space(c: char) -> bool {
    c == ' ' || c == '\t' || c == '\r' || c == '\n'
}

/// The length of the run of name-tail characters starting at `i`.
pub open spec fn tail_run(s: Seq<char>, i: int) -> nat
    decreases s.len() - i,
{
    if 0 <= i < s.len() && is_name_tail(s[i]) {
        1 + tail_run(s, i + 1)
    } else {
        0
    }
}

/// The characters of a tail run are tail characters, and the run stays in bounds.
pub proof fn lemma_tail_run(s: Seq<char>, k: int)
    requires
        0 <= k <= s.len(),
    ensures
        k + tail_run(s, k) <= s.len(),
        forall|j: int| k <= j < k + tail_run(s, k) ==> is_name_tail(#[trigger] s[j]),
    decreases s.len() - k,
{
    if k < s.len() && is_name_tail(s[k]) {
        lemma_tail_run(s, k + 1);
    }
}

/// The length of the run of digits starting at `i`.
pub open spec fn digit_run(s: Seq<char>, i: int) -> nat
    decreases s.len() - i,
{
    if 0 <= i < s.len() && is_digit(s[i]) {
        1 + digit_run(s, i + 1)
    } else {
        0
    }
}

/// The length of the run of whitespace starting at `i`.
pub open spec fn space_run(s: Seq<char>, i: int) -> nat
    decreases s.len() - i,
{
    if 0 <= i < s.len() && is_space(s[i]) {
        1 + space_run(s, i + 1)
    } else {
        0
    }
}

/// The length of the mantissa of a number at `i`: digits, or digits, a point and digits,
/// with at least one digit in all; 0 where there is none.
pub open spec fn mantissa_len(s: Seq<char>, i: int) -> nat {
    let d = digit_run(s, i);
    if 0 <= i + d < s.len() && s[i + d] == '.' {
        let f = digit_run(s, i + d + 1);
        if d + f > 0 {
            d + 1 + f
        } else {
            0
        }
    } else {
        d
    }
}

/// The length of an exponent part at `j`: `e` or `E`, an optional sign, then digits;
/// 0 where there is none.
pub open spec fn exponent_len(s: Seq<char>, j: int) -> nat {
    if 0 <= j < s.len() && (s[j] == 'e' || s[j] == 'E') {
        let sign: nat = if j + 1 < s.len() && (s[j + 1] == '+' || s[j + 1] == '-') {
            1
        } else {
            0
        };
        let e = digit_run(s, j + 1 + sign);
        if e > 0 {
            1 + sign + e
        } else {
            0
        }
    } else {
        0
    }
}

/// The length of the decimal literal at `i`, or 0.
pub open spec fn number_len(s: Seq<char>, i: int) -> nat {
    let m = mantissa_len(s, i);
    if m == 0 {
        0
    } else {
        m + exponent_len(s, i + m)
    }
}

/// The token that a single punctuation character stands for.
pub open spec fn punct_tok(c: char) -> Option<Tok> {
    if c == '+' {
        Some(Tok::Plus)
    } else if c == '-' {
        Some(Tok::Minus)
    } else if c == '*' {
        Some(Tok::Star)
    } else if c == '/' {
        Some(Tok::Slash)
    } else if c == '^' {
        Some(Tok::Caret)
    } else if c == ';' {
        Some(Tok::Semicolon)
    } else if c == '(' {
        Some(Tok::OpenParen)
    } else if c == ')' {
        Some(Tok::CloseParen)
    } else if c == '[' {
        Some(Tok::OpenSquareBracket)
    } else if c == ']' {
        Some(Tok::CloseSquareBracket)
    } else if c == '{' {
        Some(Tok::OpenBrace)
    } else if c == '}' {
        Some(Tok::CloseBrace)
    } else {
        None
    }
}

/// Whether the keyword `rot` starts at `i`.
pub open spec fn rot_at(s: Seq<char>, i: int) -> bool {
    0 <= i && i + 3 <= s.len() && s[i] == 'r' && s[i + 1] == 'o' && s[i + 2] == 't'
}

/// How many characters the first rule that matches at `i` consumes (0 where none does).
/// The rules are tried in order: name, `rot`, punctuation, number, whitespace.
pub open spec fn step_len(s: Seq<char>, i: int) -> nat {
    if !(0 <= i < s.len()) {
        0
    } else if is_name_head(s[i]) {
        1 + tail_run(s, i + 1)
    } else if rot_at(s, i) {
        3
    } else if punct_tok(s[i]) is Some {
        1
    } else if number_len(s, i) > 0 {
        number_len(s, i)
    } else {
        space_run(s, i)
    }
}

/// The token that the rule matching at `i` emits; whitespace emits none.
pub open spec fn step_tok(s: Seq<char>, i: int) -> Option<Tok> {
    if is_name_head(s[i]) {
        Some(Tok::Name(s.subrange(i, i + 1 + tail_run(s, i + 1))))
    } else if rot_at(s, i) {
        Some(Tok::Rot)
    } else if punct_tok(s[i]) is Some {
        punct_tok(s[i])
    } else if number_len(s, i) > 0 {
        Some(Tok::Number(s.subrange(i, i + number_len(s, i))))
    } else {
        None
    }
}

/// The tokens emitted from `i` on, as long as some rule matches, and where that stops.
pub open spec fn lex_from(s: Seq<char>, i: int) -> (Seq<Tok>, int)
    decreases s.len() - i,
{
    if !(0 <= i < s.len()) || step_len(s, i) == 0 || i + step_len(s, i) > s.len() {
        (Seq::empty(), i)
    } else {
        let rest = lex_from(s, i + step_len(s, i));
        match step_tok(s, i) {
            Some(t) => (seq![t] + rest.0, rest.1),
            None => rest,
        }
    }
}

/// What tokenising a whole string gives.
pub enum LexOutcome {
    Tokens(Seq<Tok>),
    Unconsumed(Seq<char>),
    NoToken,
}

/// Tokenising `s`: no rule matching at the start is an error, and so is anything left
/// where the rules stop matching.
pub open spec fn lex(s: Seq<char>) -> LexOutcome {
    if step_len(s, 0) == 0 {
        LexOutcome::NoToken
    } else {
        let (ts, j) = lex_from(s, 0);
        if j < s.len() {
            LexOutcome::Unconsumed(s.subrange(j, s.len() as int))
        } else {
            LexOutcome::Tokens(ts)
        }
    }
}

/// An error of tokenisation.
#[derive(Clone, Debug, PartialEq)]
pub enum TokeniseError {
    /// No token could be read at the start of the input.
    Lex,
    /// Input was left where no token could be read.
    UnconsumedInput(String),
}


/// The characters of `s`, one by one.
fn chars_of(s: &str) -> (r: Vec<char>)
    ensures
        r@ == s@,
{
    broadcast use vstd::string::group_string_axioms;
    let mut it = s.chars();
    let mut r: Vec<char> = Vec::new();
    let mut done = false;
    while !done
        invariant
            !done ==> r@ + it.remaining() == s@,
            done ==> r@ == s@,
        decreases s@.len() - r@.len() + (if done { 0int } else { 1int }),
    {
        match it.next() {
            Some(c) => {
                r.push(c);
                assert(r@ + it.remaining() =~= s@);
            },
            None => {
                assert(r@ =~= s@);
                done = true;
            },
        }
    }
    r
}

/// The run of name-tail characters at `i`.
fn scan_tail(cs: &Vec<char>, i: usize) -> (r: usize)
    requires
        i <= cs@.len(),
    ensures
        r == tail_run(cs@, i as int),
        i + r <= cs@.len(),
{
    let mut j: usize = i;
    while j < cs.len() && (('a' <= cs[j] && cs[j] <= 'z') || cs[j] == '_')
        invariant
            i <= j <= cs@.len(),
            tail_run(cs@, i as int) == (j - i) + tail_run(cs@, j as int),
        decreases cs@.len() - j,
    {
        j = j + 1;
    }
    j - i
}

/// The run of digits at `i`.
fn scan_digits(cs: &Vec<char>, i: usize) -> (r: usize)
    requires
        i <= cs@.len(),
    ensures
        r == digit_run(cs@, i as int),
        i + r <= cs@.len(),
{
    let mut j: usize = i;
    while j < cs.len() && '0' <= cs[j] && cs[j] <= '9'
        invariant
            i <= j <= cs@.len(),
            digit_run(cs@, i as int) == (j - i) + digit_run(cs@, j as int),
        decreases cs@.len() - j,
    {
        j = j + 1;
    }
    j - i
}

/// The run of whitespace at `i`.
fn scan_spaces(cs: &Vec<char>, i: usize) -> (r: usize)
    requires
        i <= cs@.len(),
    ensures
        r == space_run(cs@, i as int),
        i + r <= cs@.len(),
{
    let mut j: usize = i;
    while j < cs.len() && (cs[j] == ' ' || cs[j] == '\t' || cs[j] == '\r' || cs[j] == '\n')
        invariant
            i <= j <= cs@.len(),
            space_run(cs@, i as int) == (j - i) + space_run(cs@, j as int),
        decreases cs@.len() - j,
    {
        j = j + 1;
    }
    j - i
}

/// The length of the decimal literal at `i`, or 0.
fn scan_number(cs: &Vec<char>, i: usize) -> (r: usize)
    requires
        i <= cs@.len(),
    ensures
        r == number_len(cs@, i as int),
        i + r <= cs@.len(),
{
    let n = cs.len();
    let d = scan_digits(cs, i);
    let m: usize = if i + d < n && cs[i + d] == '.' {
        let f = scan_digits(cs, i + d + 1);
        if d + f > 0 {
            d + 1 + f
        } else {
            0
        }
    } else {
        d
    };
    assert(m == mantissa_len(cs@, i as int));
    if m == 0 {
        return 0;
    }
    let j = i + m;
    let mut e: usize = 0;
    if j < n && (cs[j] == 'e' || cs[j] == 'E') {
        let sign: usize = if j + 1 < n && (cs[j + 1] == '+' || cs[j + 1] == '-') {
            1
        } else {
            0
        };
        let k = scan_digits(cs, j + 1 + sign);
        if k > 0 {
            e = 1 + sign + k;
        }
    }
    assert(e == exponent_len(cs@, j as int));
    m + e
}

/// The token of a punctuation character.
fn punct_token(c: char) -> (r: Option<Token>)
    ensures
        r is Some <==> punct_tok(c) is Some,
        r matches Some(t) ==> punct_tok(c) == Some(t@),
{
    if c == '+' {
        Some(Token::Plus)
    } else if c == '-' {
        Some(Token::Minus)
    } else if c == '*' {
        Some(Token::Star)
    } else if c == '/' {
        Some(Token::Slash)
    } else if c == '^' {
        Some(Token::Caret)
    } else if c == ';' {
        Some(Token::Semicolon)
    } else if c == '(' {
        Some(Token::OpenParen)
    } else if c == ')' {
        Some(Token::CloseParen)
    } else if c == '[' {
        Some(Token::OpenSquareBracket)
    } else if c == ']' {
        Some(Token::CloseSquareBracket)
    } else if c == '{' {
        Some(Token::OpenBrace)
    } else if c == '}' {
        Some(Token::CloseBrace)
    } else {
        None
    }
}

/// The first rule that matches at `i`: how much it consumes and the token it emits.
fn scan_step(s: &str, cs: &Vec<char>, i: usize) -> (r: (usize, Option<Token>))
    requires
        cs@ == s@,
        i < cs@.len(),
    ensures
        r.0 == step_len(cs@, i as int),
        i + r.0 <= cs@.len(),
        r.0 > 0 ==> step_tok(cs@, i as int) == match r.1 {
            Some(t) => Some(t@),
            None => None::<Tok>,
        },
{
    let n = cs.len();
    let c = cs[i];
    if 'A' <= c && c <= 'Z' {
        let t = scan_tail(cs, i + 1);
        let text = s.substring_char(i, i + 1 + t);
        proof {
            lemma_tail_run(cs@, i + 1);
            crate::name::lemma_run_is_name(cs@, i as int, t as int);
        }
        let name = MatrixName::new(text);
        return (1 + t, Some(Token::NamedMatrix(name)));
    }
    if n - i >= 3 && c == 'r' && cs[i + 1] == 'o' && cs[i + 2] == 't' {
        return (3, Some(Token::Rot));
    }
    let p = punct_token(c);
    if p.is_some() {
        return (1, p);
    }
    let n = scan_number(cs, i);
    if n > 0 {
        let text = s.substring_char(i, i + n);
        return (n, Some(Token::Number(String::from_str(text))));
    }
    let w = scan_spaces(cs, i);
    (w, None)
}

/// Splits an expression into tokens. At each position the first rule that matches is
/// taken: a matrix name (an uppercase letter and the longest run of lowercase letters and
/// underscores after it), the keyword `rot`, a punctuation character, a
/// decimal literal without sign, or a run of whitespace, which emits nothing.
pub fn tokenise_expression(expression: &str) -> (r: Result<Vec<Token>, TokeniseError>)
    ensures
        match r {
            Ok(v) => lex(expression@) == LexOutcome::Tokens(toks(v@)),
            Err(TokeniseError::UnconsumedInput(rest)) => lex(expression@) == LexOutcome::Unconsumed(rest@),
            Err(TokeniseError::Lex) => lex(expression@) == LexOutcome::NoToken,
        },
{
    let cs = chars_of(expression);
    let n = cs.len();
    let ghost s = cs@;
    if n == 0 || scan_step(expression, &cs, 0).0 == 0 {
        return Err(TokeniseError::Lex);
    }
    let mut tokens: Vec<Token> = Vec::new();
    let mut i: usize = 0;
    let mut stuck = false;
    while !stuck && i < n
        invariant
            s == cs@,
            s == expression@,
            n == s.len(),
            i <= n,
            step_len(s, 0) > 0,
            stuck ==> step_len(s, i as int) == 0,
            lex_from(s, 0) == (toks(tokens@) + lex_from(s, i as int).0, lex_from(s, i as int).1),
        decreases n - i + (if stuck { 0int } else { 1int }),
    {
        let (len, tok) = scan_step(expression, &cs, i);
        if len == 0 {
            stuck = true;
        } else {
            let ghost old_tokens = tokens@;
            match tok {
                Some(t) => {
                    tokens.push(t);
                    assert(toks(tokens@) =~= toks(old_tokens) + seq![t@]);
                },
                None => {},
            }
            assert(toks(old_tokens) + lex_from(s, i as int).0 =~= toks(tokens@) + lex_from(
                s,
                (i + len) as int,
            ).0);
            i = i + len;
        }
    }
    if i < n {
        let rest = expression.substring_char(i, n);
        return Err(TokeniseError::UnconsumedInput(String::from_str(rest)));
    }
    assert(toks(tokens@) + Seq::<Tok>::empty() =~= toks(tokens@));
    Ok(tokens)
}

} // verus!
