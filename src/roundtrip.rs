//! The canonical text of a tree reads back as the same tree.

use vstd::prelude::*;
use crate::grammar::{
    advanced, entries_at, entry_at, rows_at, p_addition, p_addition_rest, p_division,
    p_division_rest, p_exponent, p_expression, p_multiplication, p_power, p_term, parse_tokens,
    starts_factor, tok_at, ParseOutcome, Parsed,
};
use crate::ast::{anon2_text, anon3_text, pretty, row2_text, row3_text, Expr};
use crate::expression::{read_expression, ReadOutcome};
use crate::name::{is_name_tail, reads_as_one_name};
use crate::token::Tok;
use crate::tokenise::{
    digit_run, exponent_len, is_digit, is_space, lex, lex_from, mantissa_len, number_len,
    punct_tok, rot_at, space_run, step_len, step_tok, tail_run, LexOutcome,
};

verus! {

/// A whole decimal literal without sign.
pub open spec fn is_numeral(t: Seq<char>) -> bool {
    t.len() > 0 && number_len(t, 0) == t.len()
}

/// An entry of a literal matrix: a numeral, or `-` and a numeral.
pub open spec fn is_entry(t: Seq<char>) -> bool {
    is_numeral(t) || (t.len() > 1 && t[0] == '-' && is_numeral(t.subrange(1, t.len() as int)))
}

/// Every name of the tree reads as a single token, every number is a decimal literal, and
/// literal matrices have 4 or 9 entries, each a numeral or a negated one.
pub open spec fn well_formed(e: Expr) -> bool
    decreases e,
{
    match e {
        Expr::Multiply(l, r) => well_formed(*l) && well_formed(*r),
        Expr::Divide(l, r) => well_formed(*l) && well_formed(*r),
        Expr::Add(l, r) => well_formed(*l) && well_formed(*r),
        Expr::Negate(x) => well_formed(*x),
        Expr::Exponent(b, p) => well_formed(*b) && well_formed(*p),
        Expr::Number(t) => is_numeral(t),
        Expr::Named(n) => reads_as_one_name(n),
        Expr::Rotation(t) => is_numeral(t),
        Expr::Anon2(es) => es.len() == 4 && forall|k: int| 0 <= k < 4 ==> is_entry(#[trigger] es[k]),
        Expr::Anon3(es) => es.len() == 9 && forall|k: int| 0 <= k < 9 ==> is_entry(#[trigger] es[k]),
    }
}

/// `ts` in parentheses unless it stands at the top level.
pub open spec fn wrap_toks(ts: Seq<Tok>, top: bool) -> Seq<Tok> {
    if top {
        ts
    } else {
        seq![Tok::OpenParen] + ts + seq![Tok::CloseParen]
    }
}

/// The tokens that the canonical text of `e` spells.
pub open spec fn tokens_of(e: Expr, top: bool) -> Seq<Tok>
    decreases e,
{
    match e {
        Expr::Multiply(l, r) => wrap_toks(tokens_of(*l, false) + seq![Tok::Star] + tokens_of(*r, false), top),
        Expr::Divide(l, r) => wrap_toks(tokens_of(*l, false) + seq![Tok::Slash] + tokens_of(*r, false), top),
        Expr::Add(l, r) => wrap_toks(tokens_of(*l, false) + seq![Tok::Plus] + tokens_of(*r, false), top),
        Expr::Negate(x) => wrap_toks(seq![Tok::Minus] + tokens_of(*x, false), top),
        Expr::Exponent(b, p) => wrap_toks(
            tokens_of(*b, false) + seq![Tok::Caret, Tok::OpenBrace] + tokens_of(*p, true) + seq![Tok::CloseBrace],
            top,
        ),
        Expr::Number(t) => seq![Tok::Number(t)],
        Expr::Named(n) => seq![Tok::Name(n)],
        Expr::Rotation(t) => seq![Tok::Rot, Tok::OpenParen, Tok::Number(t), Tok::CloseParen],
        Expr::Anon2(es) => anon_toks(es, 2),
        Expr::Anon3(es) => anon_toks(es, 3),
    }
}

/// The tokens of a literal entry.
pub open spec fn entry_toks(t: Seq<char>) -> Seq<Tok> {
    if t.len() > 0 && t[0] == '-' {
        seq![Tok::Minus, Tok::Number(t.subrange(1, t.len() as int))]
    } else {
        seq![Tok::Number(t)]
    }
}

/// The tokens of `n` entries from `k` on.
pub open spec fn entries_toks(es: Seq<Seq<char>>, k: int, n: nat) -> Seq<Tok>
    decreases n,
{
    if n == 0 {
        Seq::empty()
    } else {
        entry_toks(es[k]) + entries_toks(es, k + 1, (n - 1) as nat)
    }
}

/// The tokens of `rows` rows of `w` entries from `k` on, separated by `;`, with the
/// closing `]`.
pub open spec fn rows_toks(es: Seq<Seq<char>>, k: int, w: nat, rows: nat) -> Seq<Tok>
    decreases rows,
{
    if rows <= 1 {
        entries_toks(es, k, w) + seq![Tok::CloseSquareBracket]
    } else {
        entries_toks(es, k, w) + seq![Tok::Semicolon] + rows_toks(es, k + w, w, (rows - 1) as nat)
    }
}

/// The tokens of a literal `w` by `w` matrix.
pub open spec fn anon_toks(es: Seq<Seq<char>>, w: nat) -> Seq<Tok> {
    seq![Tok::OpenSquareBracket] + rows_toks(es, 0, w, w)
}

/// Whether `e` prints the same at the top level and below it.
pub open spec fn is_atom(e: Expr) -> bool {
    e is Number || e is Named || e is Rotation || e is Anon2 || e is Anon3
}

/// Position `j` ends an expression: the end, `)` or `}`.
pub open spec fn closer(ts: Seq<Tok>, j: int) -> bool {
    j == ts.len() || (0 <= j < ts.len() && (ts[j] == Tok::CloseParen || ts[j] == Tok::CloseBrace))
}

/// `ts` holds `a` then `b` from `i`.
proof fn lemma_split<A>(ts: Seq<A>, i: int, a: Seq<A>, b: Seq<A>)
    requires
        0 <= i,
        i + a.len() + b.len() <= ts.len(),
        ts.subrange(i, i + a.len() + b.len()) == a + b,
    ensures
        ts.subrange(i, i + a.len()) == a,
        ts.subrange(i + a.len(), i + a.len() + b.len()) == b,
{
    assert forall|k: int| 0 <= k < a.len() implies ts.subrange(i, i + a.len())[k] == a[k] by {
        assert(ts.subrange(i, i + a.len() + b.len())[k] == (a + b)[k]);
    }
    assert forall|k: int| 0 <= k < b.len() implies ts.subrange(i + a.len(), i + a.len() + b.len())[k] == b[k] by {
        assert(ts.subrange(i, i + a.len() + b.len())[a.len() + k] == (a + b)[a.len() + k]);
        assert(ts.subrange(i, i + a.len() + b.len())[a.len() + k] == ts[i + a.len() + k]);
        assert(ts.subrange(i + a.len(), i + a.len() + b.len())[k] == ts[i + a.len() + k]);
    }
    assert(ts.subrange(i, i + a.len()) =~= a);
    assert(ts.subrange(i + a.len(), i + a.len() + b.len()) =~= b);
}

/// The token at `i + k` of a window that holds `a` is `a[k]`.
proof fn lemma_at<A>(ts: Seq<A>, i: int, a: Seq<A>, k: int)
    requires
        0 <= i,
        i + a.len() <= ts.len(),
        ts.subrange(i, i + a.len()) == a,
        0 <= k < a.len(),
    ensures
        ts[i + k] == a[k],
{
    assert(ts.subrange(i, i + a.len())[k] == ts[i + k]);
}

/// An expression printed as a term stops the exponent level where no `^` follows.
proof fn lemma_exponent_stop(ts: Seq<Tok>, i: int, x: Expr, j: int)
    requires
        p_term(ts, i) == Parsed::Found(x, j),
        advanced(ts, i, j),
        0 <= i,
        !tok_at(ts, j, Tok::Caret),
    ensures
        p_exponent(ts, i) == Parsed::Found(x, j),
{
}

/// An exponent-level expression stops the division level where no `/` follows.
proof fn lemma_division_stop(ts: Seq<Tok>, i: int, x: Expr, j: int)
    requires
        p_exponent(ts, i) == Parsed::Found(x, j),
        advanced(ts, i, j),
        0 <= i,
        !tok_at(ts, j, Tok::Slash),
    ensures
        p_division(ts, i) == Parsed::Found(x, j),
{
    assert(p_division_rest(ts, j, x) == Parsed::Found(x, j));
}

/// A division-level expression stops the multiplication level where neither `*` nor the
/// start of a factor follows.
proof fn lemma_multiplication_stop(ts: Seq<Tok>, i: int, x: Expr, j: int)
    requires
        p_division(ts, i) == Parsed::Found(x, j),
        advanced(ts, i, j),
        0 <= i,
        !tok_at(ts, j, Tok::Star),
        !starts_factor(ts, j),
    ensures
        p_multiplication(ts, i) == Parsed::Found(x, j),
{
}

/// A multiplication-level expression is a whole expression where neither `+` nor `-`
/// follows.
proof fn lemma_addition_stop(ts: Seq<Tok>, i: int, x: Expr, j: int)
    requires
        p_multiplication(ts, i) == Parsed::Found(x, j),
        advanced(ts, i, j),
        0 <= i,
        !tok_at(ts, j, Tok::Plus),
        !tok_at(ts, j, Tok::Minus),
    ensures
        p_expression(ts, i) == Parsed::Found(x, j),
{
    assert(p_addition_rest(ts, j, x) == Parsed::Found(x, j));
    assert(p_addition(ts, i) == Parsed::Found(x, j));
}

/// A term followed by a closer is a whole expression.
proof fn lemma_term_is_expression(ts: Seq<Tok>, i: int, x: Expr, j: int)
    requires
        p_term(ts, i) == Parsed::Found(x, j),
        advanced(ts, i, j),
        0 <= i,
        closer(ts, j),
    ensures
        p_expression(ts, i) == Parsed::Found(x, j),
{
    lemma_exponent_stop(ts, i, x, j);
    lemma_division_stop(ts, i, x, j);
    lemma_multiplication_stop(ts, i, x, j);
    lemma_addition_stop(ts, i, x, j);
}

/// An entry's tokens are read back as the entry.
proof fn lemma_read_entry(ts: Seq<Tok>, j: int, t: Seq<char>)
    requires
        is_entry(t),
        0 <= j,
        j + entry_toks(t).len() <= ts.len(),
        ts.subrange(j, j + entry_toks(t).len()) == entry_toks(t),
    ensures
        entry_at(ts, j) == Some((t, j + entry_toks(t).len())),
{
    let et = entry_toks(t);
    lemma_at(ts, j, et, 0);
    if is_numeral(t) {
        lemma_numeral_start(t);
    } else {
        lemma_at(ts, j, et, 1);
        assert(seq!['-'] + t.subrange(1, t.len() as int) =~= t);
    }
}

/// The tokens of `n` entries are read back as those entries.
proof fn lemma_read_entries(ts: Seq<Tok>, j: int, es: Seq<Seq<char>>, k: int, n: nat)
    requires
        0 <= k,
        k + n <= es.len(),
        forall|m: int| k <= m < k + n ==> is_entry(#[trigger] es[m]),
        0 <= j,
        j + entries_toks(es, k, n).len() <= ts.len(),
        ts.subrange(j, j + entries_toks(es, k, n).len()) == entries_toks(es, k, n),
    ensures
        entries_at(ts, j, n) == Some((es.subrange(k, k + n), j + entries_toks(es, k, n).len())),
    decreases n,
{
    if n == 0 {
        assert(es.subrange(k, k) =~= Seq::<Seq<char>>::empty());
    } else {
        let et = entry_toks(es[k]);
        let rest = entries_toks(es, k + 1, (n - 1) as nat);
        lemma_split(ts, j, et, rest);
        lemma_read_entry(ts, j, es[k]);
        lemma_read_entries(ts, j + et.len(), es, k + 1, (n - 1) as nat);
        assert(seq![es[k]] + es.subrange(k + 1, k + n) =~= es.subrange(k, k + n));
    }
}

/// `n + 1` entries spell the tokens of the first `n`, then those of the last.
proof fn lemma_entries_snoc(es: Seq<Seq<char>>, k: int, n: nat)
    ensures
        entries_toks(es, k, n + 1) == entries_toks(es, k, n) + entry_toks(es[k + n]),
    decreases n,
{
    if n == 0 {
        assert(entries_toks(es, k + 1, 0) == Seq::<Tok>::empty());
        assert(entries_toks(es, k, 1) =~= entry_toks(es[k]));
        assert(entries_toks(es, k, 0) + entry_toks(es[k]) =~= entry_toks(es[k]));
    } else {
        lemma_entries_snoc(es, k + 1, (n - 1) as nat);
        assert((n + 1 - 1) as nat == n);
        assert(k + 1 + (n - 1) == k + n);
        assert(entries_toks(es, k, n + 1) =~= entries_toks(es, k, n) + entry_toks(es[k + n]));
    }
}

/// The tokens of `rows` rows are read back as their entries, row by row.
proof fn lemma_read_rows(ts: Seq<Tok>, j: int, es: Seq<Seq<char>>, k: int, w: nat, rows: nat)
    requires
        1 <= rows,
        0 <= k,
        k + w * rows <= es.len(),
        forall|m: int| k <= m < k + w * rows ==> is_entry(#[trigger] es[m]),
        0 <= j,
        j + rows_toks(es, k, w, rows).len() <= ts.len(),
        ts.subrange(j, j + rows_toks(es, k, w, rows).len()) == rows_toks(es, k, w, rows),
    ensures
        rows_at(ts, j, w, rows) == Some((es.subrange(k, k + w * rows), j + rows_toks(es, k, w, rows).len())),
    decreases rows,
{
    let rt = entries_toks(es, k, w);
    let all = rows_toks(es, k, w, rows);
    assert(w <= w * rows) by (nonlinear_arith)
        requires
            1 <= rows,
    ;
    if rows == 1 {
        assert(w * rows == w) by (nonlinear_arith)
            requires
                rows == 1,
        ;
        lemma_split(ts, j, rt, seq![Tok::CloseSquareBracket]);
        lemma_read_entries(ts, j, es, k, w);
        lemma_at(ts, j, all, rt.len() as int);
    } else {
        let rest = rows_toks(es, k + w, w, (rows - 1) as nat);
        assert(w + w * (rows - 1) == w * rows) by (nonlinear_arith);
        lemma_split(ts, j, rt + seq![Tok::Semicolon], rest);
        lemma_split(ts, j, rt, seq![Tok::Semicolon]);
        lemma_read_entries(ts, j, es, k, w);
        lemma_at(ts, j, all, rt.len() as int);
        lemma_read_rows(ts, j + rt.len() + 1, es, k + w, w, (rows - 1) as nat);
        assert(es.subrange(k, k + w) + es.subrange(k + w, k + w + w * (rows - 1)) =~= es.subrange(k, k + w * rows));
    }
}

/// A literal prints as its own tokens and is read back as one term.
proof fn lemma_read_atom(ts: Seq<Tok>, i: int, e: Expr)
    requires
        well_formed(e),
        is_atom(e),
        0 <= i,
        i + tokens_of(e, false).len() <= ts.len(),
        ts.subrange(i, i + tokens_of(e, false).len()) == tokens_of(e, false),
    ensures
        tokens_of(e, false).len() >= 1,
        tokens_of(e, true) == tokens_of(e, false),
        p_term(ts, i) == Parsed::Found(e, i + tokens_of(e, false).len()),
{
    let t = tokens_of(e, false);
    lemma_at(ts, i, t, 0);
    match e {
        Expr::Rotation(_) => {
            lemma_at(ts, i, t, 1);
            lemma_at(ts, i, t, 2);
            lemma_at(ts, i, t, 3);
        },
        Expr::Anon2(es) => {
            lemma_split(ts, i, seq![Tok::OpenSquareBracket], rows_toks(es, 0, 2, 2));
            lemma_read_rows(ts, i + 1, es, 0, 2, 2);
            assert(es.subrange(0, 4) =~= es);
        },
        Expr::Anon3(es) => {
            let rows = rows_toks(es, 0, 3, 3);
            lemma_split(ts, i, seq![Tok::OpenSquareBracket], rows);
            lemma_read_rows(ts, i + 1, es, 0, 3, 3);
            assert(es.subrange(0, 9) =~= es);
            // The first row holds three entries, so a 2x2 reading fails at the third.
            let two = entries_toks(es, 0, 2);
            let third = entry_toks(es[2]);
            lemma_entries_snoc(es, 0, 2);
            assert(rows == two + third + (seq![Tok::Semicolon] + rows_toks(es, 3, 3, 2)));
            lemma_split(ts, i + 1, two + third, seq![Tok::Semicolon] + rows_toks(es, 3, 3, 2));
            lemma_split(ts, i + 1, two, third);
            lemma_read_entries(ts, i + 1, es, 0, 2);
            lemma_at(ts, i + 1 + two.len(), third, 0);
            assert(rows_at(ts, i + 1, 2, 2) is None);
        },
        _ => {},
    }
}

/// Printed below the top level, `e` is read back as one term.
proof fn lemma_read_term(ts: Seq<Tok>, i: int, e: Expr)
    requires
        well_formed(e),
        0 <= i,
        i + tokens_of(e, false).len() <= ts.len(),
        ts.subrange(i, i + tokens_of(e, false).len()) == tokens_of(e, false),
    ensures
        tokens_of(e, false).len() >= 1,
        p_term(ts, i) == Parsed::Found(e, i + tokens_of(e, false).len()),
    decreases e, 2int,
{
    if is_atom(e) {
        lemma_read_atom(ts, i, e);
    } else {
        let t = tokens_of(e, false);
        let n = t.len() as int;
        let inner = tokens_of(e, true);
        assert(t == seq![Tok::OpenParen] + inner + seq![Tok::CloseParen]);
        lemma_at(ts, i, t, 0);
        lemma_at(ts, i, t, n - 1);
        lemma_split(ts, i, seq![Tok::OpenParen] + inner, seq![Tok::CloseParen]);
        lemma_split(ts, i, seq![Tok::OpenParen], inner);
        lemma_read_expression(ts, i + 1, e);
    }
}

/// Printed at the top level and followed by a closer, `e` is read back as a whole
/// expression.
proof fn lemma_read_expression(ts: Seq<Tok>, i: int, e: Expr)
    requires
        well_formed(e),
        0 <= i,
        i + tokens_of(e, true).len() <= ts.len(),
        ts.subrange(i, i + tokens_of(e, true).len()) == tokens_of(e, true),
        closer(ts, i + tokens_of(e, true).len()),
    ensures
        p_expression(ts, i) == Parsed::Found(e, i + tokens_of(e, true).len()),
    decreases e, 1int,
{
    if is_atom(e) {
        lemma_read_atom(ts, i, e);
        lemma_term_is_expression(ts, i, e, i + tokens_of(e, true).len());
    } else if e is Negate {
        lemma_read_negation(ts, i, e);
    } else if e is Exponent {
        lemma_read_power(ts, i, e);
    } else if e is Divide {
        lemma_read_quotient(ts, i, e);
    } else if e is Multiply {
        lemma_read_product(ts, i, e);
    } else {
        lemma_read_sum(ts, i, e);
    }
}

/// The top-level case of a negation.
proof fn lemma_read_negation(ts: Seq<Tok>, i: int, e: Expr)
    requires
        e is Negate,
        well_formed(e),
        0 <= i,
        i + tokens_of(e, true).len() <= ts.len(),
        ts.subrange(i, i + tokens_of(e, true).len()) == tokens_of(e, true),
        closer(ts, i + tokens_of(e, true).len()),
    ensures
        p_expression(ts, i) == Parsed::Found(e, i + tokens_of(e, true).len()),
    decreases e, 0int,
{
    let t = tokens_of(e, true);
    let n = t.len() as int;
    let x = *(e->Negate_0);
    let xt = tokens_of(x, false);
    assert(t == seq![Tok::Minus] + xt);
    lemma_at(ts, i, t, 0);
    lemma_split(ts, i, seq![Tok::Minus], xt);
    lemma_read_term(ts, i + 1, x);
    assert(p_term(ts, i) == Parsed::Found(e, i + n));
    lemma_term_is_expression(ts, i, e, i + n);
}

/// The top-level case of a power.
proof fn lemma_read_power(ts: Seq<Tok>, i: int, e: Expr)
    requires
        e is Exponent,
        well_formed(e),
        0 <= i,
        i + tokens_of(e, true).len() <= ts.len(),
        ts.subrange(i, i + tokens_of(e, true).len()) == tokens_of(e, true),
        closer(ts, i + tokens_of(e, true).len()),
    ensures
        p_expression(ts, i) == Parsed::Found(e, i + tokens_of(e, true).len()),
    decreases e, 0int,
{
    let t = tokens_of(e, true);
    let n = t.len() as int;
    let b = *(e->Exponent_0);
    let p = *(e->Exponent_1);
    let bt = tokens_of(b, false);
    let pt = tokens_of(p, true);
    assert(t == bt + seq![Tok::Caret, Tok::OpenBrace] + pt + seq![Tok::CloseBrace]);
    let j = i + bt.len();
    let k = j + 2 + pt.len();
    lemma_split(ts, i, bt + seq![Tok::Caret, Tok::OpenBrace] + pt, seq![Tok::CloseBrace]);
    lemma_split(ts, i, bt + seq![Tok::Caret, Tok::OpenBrace], pt);
    lemma_split(ts, i, bt, seq![Tok::Caret, Tok::OpenBrace]);
    lemma_at(ts, i, t, bt.len() as int);
    lemma_at(ts, i, t, bt.len() as int + 1);
    lemma_at(ts, i, t, n - 1);
    lemma_read_term(ts, i, b);
    lemma_read_expression(ts, j + 2, p);
    assert(p_power(ts, j + 1) == Parsed::Found(p, k + 1));
    assert(p_exponent(ts, i) == Parsed::Found(e, i + n));
    lemma_division_stop(ts, i, e, i + n);
    lemma_multiplication_stop(ts, i, e, i + n);
    lemma_addition_stop(ts, i, e, i + n);
}

/// The top-level case of a quotient.
proof fn lemma_read_quotient(ts: Seq<Tok>, i: int, e: Expr)
    requires
        e is Divide,
        well_formed(e),
        0 <= i,
        i + tokens_of(e, true).len() <= ts.len(),
        ts.subrange(i, i + tokens_of(e, true).len()) == tokens_of(e, true),
        closer(ts, i + tokens_of(e, true).len()),
    ensures
        p_expression(ts, i) == Parsed::Found(e, i + tokens_of(e, true).len()),
    decreases e, 0int,
{
    let t = tokens_of(e, true);
    let n = t.len() as int;
    let l = *(e->Divide_0);
    let r = *(e->Divide_1);
    let lt = tokens_of(l, false);
    let rt = tokens_of(r, false);
    assert(t == lt + seq![Tok::Slash] + rt);
    let j = i + lt.len();
    lemma_split(ts, i, lt + seq![Tok::Slash], rt);
    lemma_split(ts, i, lt, seq![Tok::Slash]);
    lemma_at(ts, i, t, lt.len() as int);
    lemma_read_term(ts, i, l);
    lemma_exponent_stop(ts, i, l, j);
    lemma_read_term(ts, j + 1, r);
    lemma_exponent_stop(ts, j + 1, r, i + n);
    assert(p_division_rest(ts, i + n, e) == Parsed::Found(e, i + n));
    assert(p_division_rest(ts, j, l) == Parsed::Found(e, i + n));
    assert(p_division(ts, i) == Parsed::Found(e, i + n));
    lemma_multiplication_stop(ts, i, e, i + n);
    lemma_addition_stop(ts, i, e, i + n);
}

/// The top-level case of a product.
proof fn lemma_read_product(ts: Seq<Tok>, i: int, e: Expr)
    requires
        e is Multiply,
        well_formed(e),
        0 <= i,
        i + tokens_of(e, true).len() <= ts.len(),
        ts.subrange(i, i + tokens_of(e, true).len()) == tokens_of(e, true),
        closer(ts, i + tokens_of(e, true).len()),
    ensures
        p_expression(ts, i) == Parsed::Found(e, i + tokens_of(e, true).len()),
    decreases e, 0int,
{
    let t = tokens_of(e, true);
    let n = t.len() as int;
    let l = *(e->Multiply_0);
    let r = *(e->Multiply_1);
    let lt = tokens_of(l, false);
    let rt = tokens_of(r, false);
    assert(t == lt + seq![Tok::Star] + rt);
    let j = i + lt.len();
    lemma_split(ts, i, lt + seq![Tok::Star], rt);
    lemma_split(ts, i, lt, seq![Tok::Star]);
    lemma_at(ts, i, t, lt.len() as int);
    lemma_read_term(ts, i, l);
    lemma_exponent_stop(ts, i, l, j);
    lemma_division_stop(ts, i, l, j);
    lemma_read_term(ts, j + 1, r);
    lemma_exponent_stop(ts, j + 1, r, i + n);
    lemma_division_stop(ts, j + 1, r, i + n);
    lemma_multiplication_stop(ts, j + 1, r, i + n);
    assert(p_multiplication(ts, i) == Parsed::Found(e, i + n));
    lemma_addition_stop(ts, i, e, i + n);
}

/// The top-level case of a sum.
proof fn lemma_read_sum(ts: Seq<Tok>, i: int, e: Expr)
    requires
        e is Add,
        well_formed(e),
        0 <= i,
        i + tokens_of(e, true).len() <= ts.len(),
        ts.subrange(i, i + tokens_of(e, true).len()) == tokens_of(e, true),
        closer(ts, i + tokens_of(e, true).len()),
    ensures
        p_expression(ts, i) == Parsed::Found(e, i + tokens_of(e, true).len()),
    decreases e, 0int,
{
    let t = tokens_of(e, true);
    let n = t.len() as int;
    let l = *(e->Add_0);
    let r = *(e->Add_1);
    let lt = tokens_of(l, false);
    let rt = tokens_of(r, false);
    assert(t == lt + seq![Tok::Plus] + rt);
    let j = i + lt.len();
    lemma_split(ts, i, lt + seq![Tok::Plus], rt);
    lemma_split(ts, i, lt, seq![Tok::Plus]);
    lemma_at(ts, i, t, lt.len() as int);
    lemma_read_term(ts, i, l);
    lemma_exponent_stop(ts, i, l, j);
    lemma_division_stop(ts, i, l, j);
    lemma_multiplication_stop(ts, i, l, j);
    lemma_read_term(ts, j + 1, r);
    lemma_exponent_stop(ts, j + 1, r, i + n);
    lemma_division_stop(ts, j + 1, r, i + n);
    lemma_multiplication_stop(ts, j + 1, r, i + n);
    assert(p_addition_rest(ts, i + n, e) == Parsed::Found(e, i + n));
    assert(p_addition_rest(ts, j, l) == Parsed::Found(e, i + n));
    assert(p_addition(ts, i) == Parsed::Found(e, i + n));
    assert(p_expression(ts, i) == Parsed::Found(e, i + n));
}

/// Parsing the tokens of the canonical text of a well-formed tree gives the tree back.
pub proof fn lemma_parse_canonical_tokens(e: Expr)
    requires
        well_formed(e),
    ensures
        parse_tokens(tokens_of(e, true)) == ParseOutcome::Parsed(e),
{
    let ts = tokens_of(e, true);
    assert(ts.subrange(0, ts.len() as int) =~= ts);
    lemma_read_expression(ts, 0, e);
}

/// Lexing from `i` passes position `j`, having emitted `ts` in between.
pub open spec fn passes(s: Seq<char>, i: int, j: int, ts: Seq<Tok>) -> bool {
    lex_from(s, i) == (ts + lex_from(s, j).0, lex_from(s, j).1)
}

/// A character that may follow a name or a number in canonical text.
pub open spec fn is_stop(c: char) -> bool {
    c == ' ' || c == ')' || c == '}' || c == ']' || c == ';'
}

/// Position `j` of `s` is the end or a stop character.
pub open spec fn stops_at(s: Seq<char>, j: int) -> bool {
    j == s.len() || (0 <= j < s.len() && is_stop(s[j]))
}

proof fn lemma_passes_trans(s: Seq<char>, i: int, j: int, k: int, a: Seq<Tok>, b: Seq<Tok>)
    requires
        passes(s, i, j, a),
        passes(s, j, k, b),
    ensures
        passes(s, i, k, a + b),
{
    assert(a + (b + lex_from(s, k).0) =~= (a + b) + lex_from(s, k).0);
}

/// One step of the lexer that emits `t`.
proof fn lemma_step(s: Seq<char>, i: int, m: int, t: Option<Tok>)
    requires
        0 <= i,
        0 < m,
        i + m <= s.len(),
        step_len(s, i) == m,
        step_tok(s, i) == t,
    ensures
        passes(s, i, i + m, match t {
            Some(x) => seq![x],
            None => Seq::empty(),
        }),
{
    let rest = lex_from(s, i + m);
    match t {
        Some(x) => {
            assert(lex_from(s, i) == (seq![x] + rest.0, rest.1));
        },
        None => {
            assert(lex_from(s, i) == rest);
            assert(Seq::<Tok>::empty() + rest.0 =~= rest.0);
        },
    }
}

/// A punctuation character is lexed as its token.
proof fn lemma_lex_punct(s: Seq<char>, i: int)
    requires
        0 <= i < s.len(),
        punct_tok(s[i]) is Some,
    ensures
        passes(s, i, i + 1, seq![punct_tok(s[i])->Some_0]),
{
    lemma_step(s, i, 1, punct_tok(s[i]));
}

/// A single space before a character that is no whitespace is skipped.
proof fn lemma_lex_space(s: Seq<char>, i: int)
    requires
        0 <= i,
        i + 1 < s.len(),
        s[i] == ' ',
        !is_space(s[i + 1]),
    ensures
        passes(s, i, i + 1, Seq::empty()),
{
    assert(digit_run(s, i) == 0);
    assert(space_run(s, i + 1) == 0);
    assert(space_run(s, i) == 1);
    lemma_step(s, i, 1, None);
}

/// The keyword `rot` is lexed as its token.
proof fn lemma_lex_rot(s: Seq<char>, i: int)
    requires
        rot_at(s, i),
    ensures
        passes(s, i, i + 3, seq![Tok::Rot]),
{
    lemma_step(s, i, 3, Some(Tok::Rot));
}

/// Tail characters up to a stop make a tail run of that length.
proof fn lemma_tail_run_upto(s: Seq<char>, k: int, end: int)
    requires
        0 <= k <= end,
        stops_at(s, end),
        forall|j: int| k <= j < end ==> is_name_tail(#[trigger] s[j]),
    ensures
        tail_run(s, k) == end - k,
    decreases end - k,
{
    if k < end {
        lemma_tail_run_upto(s, k + 1, end);
    }
}

/// A valid name followed by a stop is lexed as one name token.
proof fn lemma_lex_name(s: Seq<char>, i: int, n: Seq<char>)
    requires
        0 <= i,
        i + n.len() <= s.len(),
        s.subrange(i, i + n.len()) == n,
        reads_as_one_name(n),
        stops_at(s, i + n.len()),
    ensures
        passes(s, i, i + n.len(), seq![Tok::Name(n)]),
{
    assert forall|j: int| i + 1 <= j < i + n.len() implies is_name_tail(#[trigger] s[j]) by {
        lemma_at(s, i, n, j - i);
    }
    lemma_at(s, i, n, 0);
    lemma_tail_run_upto(s, i + 1, i + n.len());
    lemma_step(s, i, n.len() as int, Some(Tok::Name(n)));
}

/// Digit runs inside a copy of `t` agree with those of `t`, when a stop follows the copy.
proof fn lemma_digit_runs(s: Seq<char>, i: int, t: Seq<char>, k: int)
    requires
        0 <= i,
        0 <= k <= t.len(),
        i + t.len() <= s.len(),
        s.subrange(i, i + t.len()) == t,
        stops_at(s, i + t.len()),
    ensures
        digit_run(s, i + k) == digit_run(t, k),
    decreases t.len() - k,
{
    if k < t.len() {
        lemma_at(s, i, t, k);
        lemma_digit_runs(s, i, t, k + 1);
    }
}

/// A numeral followed by a stop is lexed as one number token.
proof fn lemma_lex_number(s: Seq<char>, i: int, t: Seq<char>)
    requires
        0 <= i,
        i + t.len() <= s.len(),
        s.subrange(i, i + t.len()) == t,
        is_numeral(t),
        stops_at(s, i + t.len()),
    ensures
        passes(s, i, i + t.len(), seq![Tok::Number(t)]),
        is_digit(s[i]) || s[i] == '.',
{
    let n = t.len() as int;
    assert forall|k: int| 0 <= k <= n implies digit_run(s, i + k) == digit_run(t, k) by {
        lemma_digit_runs(s, i, t, k);
    }
    assert forall|k: int| 0 <= k < n implies s[i + k] == t[k] by {
        lemma_at(s, i, t, k);
    }
    let d = digit_run(t, 0);
    assert(mantissa_len(s, i) == mantissa_len(t, 0));
    let m = mantissa_len(t, 0) as int;
    assert(exponent_len(s, i + m) == exponent_len(t, m));
    assert(number_len(s, i) == n);
    assert(s.subrange(i, i + number_len(s, i)) == t);
    lemma_step(s, i, n, Some(Tok::Number(t)));
}

/// The first character of canonical text is no whitespace, and the text is not empty.
proof fn lemma_first_char(e: Expr, top: bool)
    requires
        well_formed(e),
    ensures
        pretty(e, top).len() > 0,
        !is_space(pretty(e, top)[0]),
    decreases e,
{
    let p = pretty(e, top);
    match e {
        Expr::Multiply(l, _) | Expr::Divide(l, _) | Expr::Add(l, _) | Expr::Exponent(l, _) => {
            lemma_first_char(*l, false);
            if top {
                assert(p[0] == pretty(*l, false)[0]);
            }
        },
        Expr::Number(t) => {
            assert(p == t);
            if digit_run(t, 0) == 0 {
                assert(t[0] == '.');
            }
        },
        Expr::Rotation(_) => {
            assert(p[0] == 'r');
        },
        Expr::Anon2(_) | Expr::Anon3(_) => {
            assert(p[0] == '[');
        },
        Expr::Negate(_) => {
            assert(p[0] == '-' || p[0] == '(');
        },
        Expr::Named(n) => {
            assert(p == n);
        },
    }
}

/// A numeral starts with a digit or a point.
proof fn lemma_numeral_start(t: Seq<char>)
    requires
        is_numeral(t),
    ensures
        is_digit(t[0]) || t[0] == '.',
{
    if digit_run(t, 0) == 0 {
        assert(mantissa_len(t, 0) > 0);
    }
}

/// An entry starts with a digit, a point or a minus sign.
proof fn lemma_entry_start(t: Seq<char>)
    requires
        is_entry(t),
    ensures
        is_digit(t[0]) || t[0] == '.' || t[0] == '-',
{
    if is_numeral(t) {
        lemma_numeral_start(t);
    }
}

/// An entry followed by a stop lexes to its tokens.
proof fn lemma_lex_entry(s: Seq<char>, i: int, t: Seq<char>)
    requires
        is_entry(t),
        0 <= i,
        i + t.len() <= s.len(),
        s.subrange(i, i + t.len()) == t,
        stops_at(s, i + t.len()),
    ensures
        passes(s, i, i + t.len(), entry_toks(t)),
{
    if is_numeral(t) {
        lemma_numeral_start(t);
        lemma_lex_number(s, i, t);
    } else {
        let rest = t.subrange(1, t.len() as int);
        assert(t =~= seq!['-'] + rest);
        lemma_split(s, i, seq!['-'], rest);
        lemma_at(s, i, t, 0);
        lemma_lex_punct(s, i);
        lemma_lex_number(s, i + 1, rest);
        lemma_passes_trans(s, i, i + 1, i + t.len(), seq![Tok::Minus], seq![Tok::Number(rest)]);
        assert(seq![Tok::Minus] + seq![Tok::Number(rest)] =~= entry_toks(t));
    }
}

/// Below the top level a compound expression prints and spells its top-level form in
/// parentheses.
proof fn lemma_wrap_parts(e: Expr)
    requires
        !is_atom(e),
    ensures
        pretty(e, false) == seq!['('] + pretty(e, true) + seq![')'],
        tokens_of(e, false) == seq![Tok::OpenParen] + tokens_of(e, true) + seq![Tok::CloseParen],
{
}

/// A rotation lexes to its four tokens.
#[verifier::rlimit(80)]
proof fn lemma_lex_rotation(s: Seq<char>, i: int, e: Expr)
    requires
        e is Rotation,
        well_formed(e),
        0 <= i,
        i + pretty(e, true).len() <= s.len(),
        s.subrange(i, i + pretty(e, true).len()) == pretty(e, true),
        stops_at(s, i + pretty(e, true).len()),
    ensures
        passes(s, i, i + pretty(e, true).len(), tokens_of(e, true)),
    decreases e, 0int,
{
    let t = e->Rotation_0;
    let u0 = seq!['r', 'o', 't', '('];
    let u1 = t;
    let u2 = seq![')'];
    let pre0 = u0;
    let pre1 = pre0 + u1;
    let pre2 = pre1 + u2;
    assert(pretty(e, true) == pre2);
    let o0 = i;
    let o1 = o0 + u0.len();
    let o2 = o1 + u1.len();
    let o3 = o2 + u2.len();
    lemma_split(s, i, pre1, u2);
    lemma_split(s, i, pre0, u1);
    lemma_at(s, o0, u0, 0);
    lemma_at(s, o0, u0, 1);
    lemma_at(s, o0, u0, 2);
    lemma_at(s, o0, u0, 3);
    lemma_numeral_start(t);
    lemma_at(s, o1, u1, 0);
    lemma_at(s, o2, u2, 0);
    lemma_lex_rot(s, o0);
    lemma_lex_punct(s, o0 + 3);
    lemma_lex_number(s, o1, t);
    lemma_lex_punct(s, o2);
    let a0 = seq![Tok::Rot];
    let a1 = a0 + seq![Tok::OpenParen];
    lemma_passes_trans(s, i, o0 + 3, o0 + 4, a0, seq![Tok::OpenParen]);
    let a2 = a1 + seq![Tok::Number(t)];
    lemma_passes_trans(s, i, o1, o2, a1, seq![Tok::Number(t)]);
    let a3 = a2 + seq![Tok::CloseParen];
    lemma_passes_trans(s, i, o2, o2 + 1, a2, seq![Tok::CloseParen]);
    assert(a3 =~= tokens_of(e, true));
}

/// A row of 2 entries separated by single spaces lexes to their tokens.
#[verifier::rlimit(80)]
proof fn lemma_lex_row2(s: Seq<char>, i: int, es: Seq<Seq<char>>, k: int)
    requires
        0 <= k,
        k + 2 <= es.len(),
        forall|j: int| k <= j < k + 2 ==> is_entry(#[trigger] es[j]),
        0 <= i,
        i + row2_text(es, k).len() <= s.len(),
        s.subrange(i, i + row2_text(es, k).len()) == row2_text(es, k),
        stops_at(s, i + row2_text(es, k).len()),
    ensures
        passes(s, i, i + row2_text(es, k).len(), entries_toks(es, k, 2)),
{
    let u0 = es[k];
    let u1 = seq![' '];
    let u2 = es[k + 1];
    let pre0 = u0;
    let pre1 = pre0 + u1;
    let pre2 = pre1 + u2;
    assert(row2_text(es, k) == pre2);
    let o0 = i;
    let o1 = o0 + u0.len();
    let o2 = o1 + u1.len();
    let o3 = o2 + u2.len();
    lemma_split(s, i, pre1, u2);
    lemma_split(s, i, pre0, u1);
    lemma_entry_start(es[k]);
    lemma_at(s, o0, u0, 0);
    lemma_at(s, o1, u1, 0);
    lemma_entry_start(es[k + 1]);
    lemma_at(s, o2, u2, 0);
    lemma_lex_entry(s, o0, es[k]);
    lemma_lex_space(s, o1);
    lemma_lex_entry(s, o2, es[k + 1]);
    let a0 = entry_toks(es[k]);
    let a1 = a0 + Seq::<Tok>::empty();
    lemma_passes_trans(s, i, o1, o1 + 1, a0, Seq::<Tok>::empty());
    let a2 = a1 + entry_toks(es[k + 1]);
    lemma_passes_trans(s, i, o2, o3, a1, entry_toks(es[k + 1]));
    reveal_with_fuel(entries_toks, 3);
    assert(a2 =~= entries_toks(es, k, 2));
}

/// A row of 3 entries separated by single spaces lexes to their tokens.
#[verifier::rlimit(80)]
proof fn lemma_lex_row3(s: Seq<char>, i: int, es: Seq<Seq<char>>, k: int)
    requires
        0 <= k,
        k + 3 <= es.len(),
        forall|j: int| k <= j < k + 3 ==> is_entry(#[trigger] es[j]),
        0 <= i,
        i + row3_text(es, k).len() <= s.len(),
        s.subrange(i, i + row3_text(es, k).len()) == row3_text(es, k),
        stops_at(s, i + row3_text(es, k).len()),
    ensures
        passes(s, i, i + row3_text(es, k).len(), entries_toks(es, k, 3)),
{
    let u0 = es[k];
    let u1 = seq![' '];
    let u2 = es[k + 1];
    let u3 = seq![' '];
    let u4 = es[k + 2];
    let pre0 = u0;
    let pre1 = pre0 + u1;
    let pre2 = pre1 + u2;
    let pre3 = pre2 + u3;
    let pre4 = pre3 + u4;
    assert(row3_text(es, k) == pre4);
    let o0 = i;
    let o1 = o0 + u0.len();
    let o2 = o1 + u1.len();
    let o3 = o2 + u2.len();
    let o4 = o3 + u3.len();
    let o5 = o4 + u4.len();
    lemma_split(s, i, pre3, u4);
    lemma_split(s, i, pre2, u3);
    lemma_split(s, i, pre1, u2);
    lemma_split(s, i, pre0, u1);
    lemma_entry_start(es[k]);
    lemma_at(s, o0, u0, 0);
    lemma_at(s, o1, u1, 0);
    lemma_entry_start(es[k + 1]);
    lemma_at(s, o2, u2, 0);
    lemma_at(s, o3, u3, 0);
    lemma_entry_start(es[k + 2]);
    lemma_at(s, o4, u4, 0);
    lemma_lex_entry(s, o0, es[k]);
    lemma_lex_space(s, o1);
    lemma_lex_entry(s, o2, es[k + 1]);
    lemma_lex_space(s, o3);
    lemma_lex_entry(s, o4, es[k + 2]);
    let a0 = entry_toks(es[k]);
    let a1 = a0 + Seq::<Tok>::empty();
    lemma_passes_trans(s, i, o1, o1 + 1, a0, Seq::<Tok>::empty());
    let a2 = a1 + entry_toks(es[k + 1]);
    lemma_passes_trans(s, i, o2, o3, a1, entry_toks(es[k + 1]));
    let a3 = a2 + Seq::<Tok>::empty();
    lemma_passes_trans(s, i, o3, o3 + 1, a2, Seq::<Tok>::empty());
    let a4 = a3 + entry_toks(es[k + 2]);
    lemma_passes_trans(s, i, o4, o5, a3, entry_toks(es[k + 2]));
    reveal_with_fuel(entries_toks, 4);
    assert(a4 =~= entries_toks(es, k, 3));
}

/// A literal 2x2 matrix lexes to its tokens.
#[verifier::rlimit(80)]
proof fn lemma_lex_anon2(s: Seq<char>, i: int, es: Seq<Seq<char>>)
    requires
        es.len() == 4,
        forall|j: int| 0 <= j < 4 ==> is_entry(#[trigger] es[j]),
        0 <= i,
        i + anon2_text(es).len() <= s.len(),
        s.subrange(i, i + anon2_text(es).len()) == anon2_text(es),
        stops_at(s, i + anon2_text(es).len()),
    ensures
        passes(s, i, i + anon2_text(es).len(), anon_toks(es, 2)),
{
    let u0 = seq!['['];
    let u1 = row2_text(es, 0);
    let u2 = seq![';', ' '];
    let u3 = row2_text(es, 2);
    let u4 = seq![']'];
    let pre0 = u0;
    let pre1 = pre0 + u1;
    let pre2 = pre1 + u2;
    let pre3 = pre2 + u3;
    let pre4 = pre3 + u4;
    assert(anon2_text(es) == pre4);
    let o0 = i;
    let o1 = o0 + u0.len();
    let o2 = o1 + u1.len();
    let o3 = o2 + u2.len();
    let o4 = o3 + u3.len();
    let o5 = o4 + u4.len();
    lemma_split(s, i, pre3, u4);
    lemma_split(s, i, pre2, u3);
    lemma_split(s, i, pre1, u2);
    lemma_split(s, i, pre0, u1);
    lemma_at(s, o0, u0, 0);
    lemma_entry_start(es[0]);
    assert(u1[0] == es[0][0]);
    lemma_at(s, o1, u1, 0);
    lemma_at(s, o2, u2, 0);
    lemma_at(s, o2, u2, 1);
    lemma_entry_start(es[2]);
    assert(u3[0] == es[2][0]);
    lemma_at(s, o3, u3, 0);
    lemma_at(s, o4, u4, 0);
    lemma_lex_punct(s, o0);
    lemma_lex_row2(s, o1, es, 0);
    lemma_lex_punct(s, o2);
    lemma_lex_space(s, o2 + 1);
    lemma_lex_row2(s, o3, es, 2);
    lemma_lex_punct(s, o4);
    let a0 = seq![Tok::OpenSquareBracket];
    let a1 = a0 + entries_toks(es, 0, 2);
    lemma_passes_trans(s, i, o1, o2, a0, entries_toks(es, 0, 2));
    let a2 = a1 + seq![Tok::Semicolon];
    lemma_passes_trans(s, i, o2, o2 + 1, a1, seq![Tok::Semicolon]);
    let a3 = a2 + Seq::<Tok>::empty();
    lemma_passes_trans(s, i, o2 + 1, o2 + 2, a2, Seq::<Tok>::empty());
    let a4 = a3 + entries_toks(es, 2, 2);
    lemma_passes_trans(s, i, o3, o4, a3, entries_toks(es, 2, 2));
    let a5 = a4 + seq![Tok::CloseSquareBracket];
    lemma_passes_trans(s, i, o4, o4 + 1, a4, seq![Tok::CloseSquareBracket]);
    reveal_with_fuel(rows_toks, 3);
    assert(a5 =~= anon_toks(es, 2));
}

/// A literal 3x3 matrix lexes to its tokens.
#[verifier::rlimit(80)]
proof fn lemma_lex_anon3(s: Seq<char>, i: int, es: Seq<Seq<char>>)
    requires
        es.len() == 9,
        forall|j: int| 0 <= j < 9 ==> is_entry(#[trigger] es[j]),
        0 <= i,
        i + anon3_text(es).len() <= s.len(),
        s.subrange(i, i + anon3_text(es).len()) == anon3_text(es),
        stops_at(s, i + anon3_text(es).len()),
    ensures
        passes(s, i, i + anon3_text(es).len(), anon_toks(es, 3)),
{
    let u0 = seq!['['];
    let u1 = row3_text(es, 0);
    let u2 = seq![';', ' '];
    let u3 = row3_text(es, 3);
    let u4 = seq![';', ' '];
    let u5 = row3_text(es, 6);
    let u6 = seq![']'];
    let pre0 = u0;
    let pre1 = pre0 + u1;
    let pre2 = pre1 + u2;
    let pre3 = pre2 + u3;
    let pre4 = pre3 + u4;
    let pre5 = pre4 + u5;
    let pre6 = pre5 + u6;
    assert(anon3_text(es) == pre6);
    let o0 = i;
    let o1 = o0 + u0.len();
    let o2 = o1 + u1.len();
    let o3 = o2 + u2.len();
    let o4 = o3 + u3.len();
    let o5 = o4 + u4.len();
    let o6 = o5 + u5.len();
    let o7 = o6 + u6.len();
    lemma_split(s, i, pre5, u6);
    lemma_split(s, i, pre4, u5);
    lemma_split(s, i, pre3, u4);
    lemma_split(s, i, pre2, u3);
    lemma_split(s, i, pre1, u2);
    lemma_split(s, i, pre0, u1);
    lemma_at(s, o0, u0, 0);
    lemma_entry_start(es[0]);
    assert(u1[0] == es[0][0]);
    lemma_at(s, o1, u1, 0);
    lemma_at(s, o2, u2, 0);
    lemma_at(s, o2, u2, 1);
    lemma_entry_start(es[3]);
    assert(u3[0] == es[3][0]);
    lemma_at(s, o3, u3, 0);
    lemma_at(s, o4, u4, 0);
    lemma_at(s, o4, u4, 1);
    lemma_entry_start(es[6]);
    assert(u5[0] == es[6][0]);
    lemma_at(s, o5, u5, 0);
    lemma_at(s, o6, u6, 0);
    lemma_lex_punct(s, o0);
    lemma_lex_row3(s, o1, es, 0);
    lemma_lex_punct(s, o2);
    lemma_lex_space(s, o2 + 1);
    lemma_lex_row3(s, o3, es, 3);
    lemma_lex_punct(s, o4);
    lemma_lex_space(s, o4 + 1);
    lemma_lex_row3(s, o5, es, 6);
    lemma_lex_punct(s, o6);
    let a0 = seq![Tok::OpenSquareBracket];
    let a1 = a0 + entries_toks(es, 0, 3);
    lemma_passes_trans(s, i, o1, o2, a0, entries_toks(es, 0, 3));
    let a2 = a1 + seq![Tok::Semicolon];
    lemma_passes_trans(s, i, o2, o2 + 1, a1, seq![Tok::Semicolon]);
    let a3 = a2 + Seq::<Tok>::empty();
    lemma_passes_trans(s, i, o2 + 1, o2 + 2, a2, Seq::<Tok>::empty());
    let a4 = a3 + entries_toks(es, 3, 3);
    lemma_passes_trans(s, i, o3, o4, a3, entries_toks(es, 3, 3));
    let a5 = a4 + seq![Tok::Semicolon];
    lemma_passes_trans(s, i, o4, o4 + 1, a4, seq![Tok::Semicolon]);
    let a6 = a5 + Seq::<Tok>::empty();
    lemma_passes_trans(s, i, o4 + 1, o4 + 2, a5, Seq::<Tok>::empty());
    let a7 = a6 + entries_toks(es, 6, 3);
    lemma_passes_trans(s, i, o5, o6, a6, entries_toks(es, 6, 3));
    let a8 = a7 + seq![Tok::CloseSquareBracket];
    lemma_passes_trans(s, i, o6, o6 + 1, a7, seq![Tok::CloseSquareBracket]);
    reveal_with_fuel(rows_toks, 4);
    assert(a8 =~= anon_toks(es, 3));
}

/// A negation at the top level lexes to `-` and its operand.
proof fn lemma_lex_negation(s: Seq<char>, i: int, e: Expr)
    requires
        e is Negate,
        well_formed(e),
        0 <= i,
        i + pretty(e, true).len() <= s.len(),
        s.subrange(i, i + pretty(e, true).len()) == pretty(e, true),
        stops_at(s, i + pretty(e, true).len()),
    ensures
        passes(s, i, i + pretty(e, true).len(), tokens_of(e, true)),
    decreases e, 0int,
{
    let x = *(e->Negate_0);
    let u0 = seq!['-'];
    let u1 = pretty(x, false);
    let pre0 = u0;
    let pre1 = pre0 + u1;
    assert(pretty(e, true) == pre1);
    let o0 = i;
    let o1 = o0 + u0.len();
    let o2 = o1 + u1.len();
    lemma_split(s, i, pre0, u1);
    lemma_at(s, o0, u0, 0);
    lemma_first_char(x, false);
    lemma_at(s, o1, u1, 0);
    lemma_lex_punct(s, o0);
    lemma_lex_piece(s, o1, x, false);
    let a0 = seq![Tok::Minus];
    let a1 = a0 + tokens_of(x, false);
    lemma_passes_trans(s, i, o1, o2, a0, tokens_of(x, false));
    assert(a1 =~= tokens_of(e, true));
}

/// A power at the top level lexes to base, `^`, braces and power.
#[verifier::rlimit(80)]
proof fn lemma_lex_power(s: Seq<char>, i: int, e: Expr)
    requires
        e is Exponent,
        well_formed(e),
        0 <= i,
        i + pretty(e, true).len() <= s.len(),
        s.subrange(i, i + pretty(e, true).len()) == pretty(e, true),
        stops_at(s, i + pretty(e, true).len()),
    ensures
        passes(s, i, i + pretty(e, true).len(), tokens_of(e, true)),
    decreases e, 0int,
{
    let b = *(e->Exponent_0);
    let p = *(e->Exponent_1);
    let u0 = pretty(b, false);
    let u1 = seq![' ', '^', ' ', '{'];
    let u2 = pretty(p, true);
    let u3 = seq!['}'];
    let pre0 = u0;
    let pre1 = pre0 + u1;
    let pre2 = pre1 + u2;
    let pre3 = pre2 + u3;
    assert(pretty(e, true) == pre3);
    let o0 = i;
    let o1 = o0 + u0.len();
    let o2 = o1 + u1.len();
    let o3 = o2 + u2.len();
    let o4 = o3 + u3.len();
    lemma_split(s, i, pre2, u3);
    lemma_split(s, i, pre1, u2);
    lemma_split(s, i, pre0, u1);
    lemma_first_char(b, false);
    lemma_at(s, o0, u0, 0);
    lemma_at(s, o1, u1, 0);
    lemma_at(s, o1, u1, 1);
    lemma_at(s, o1, u1, 2);
    lemma_at(s, o1, u1, 3);
    lemma_first_char(p, true);
    lemma_at(s, o2, u2, 0);
    lemma_at(s, o3, u3, 0);
    lemma_lex_piece(s, o0, b, false);
    lemma_lex_space(s, o1);
    lemma_lex_punct(s, o1 + 1);
    lemma_lex_space(s, o1 + 2);
    lemma_lex_punct(s, o1 + 3);
    lemma_lex_piece(s, o2, p, true);
    lemma_lex_punct(s, o3);
    let a0 = tokens_of(b, false);
    let a1 = a0 + Seq::<Tok>::empty();
    lemma_passes_trans(s, i, o1, o1 + 1, a0, Seq::<Tok>::empty());
    let a2 = a1 + seq![Tok::Caret];
    lemma_passes_trans(s, i, o1 + 1, o1 + 2, a1, seq![Tok::Caret]);
    let a3 = a2 + Seq::<Tok>::empty();
    lemma_passes_trans(s, i, o1 + 2, o1 + 3, a2, Seq::<Tok>::empty());
    let a4 = a3 + seq![Tok::OpenBrace];
    lemma_passes_trans(s, i, o1 + 3, o1 + 4, a3, seq![Tok::OpenBrace]);
    let a5 = a4 + tokens_of(p, true);
    lemma_passes_trans(s, i, o2, o3, a4, tokens_of(p, true));
    let a6 = a5 + seq![Tok::CloseBrace];
    lemma_passes_trans(s, i, o3, o3 + 1, a5, seq![Tok::CloseBrace]);
    assert(a6 =~= tokens_of(e, true));
}

/// A product at the top level lexes to its operands around `*`.
proof fn lemma_lex_product(s: Seq<char>, i: int, e: Expr)
    requires
        e is Multiply,
        well_formed(e),
        0 <= i,
        i + pretty(e, true).len() <= s.len(),
        s.subrange(i, i + pretty(e, true).len()) == pretty(e, true),
        stops_at(s, i + pretty(e, true).len()),
    ensures
        passes(s, i, i + pretty(e, true).len(), tokens_of(e, true)),
    decreases e, 0int,
{
    let l = *(e->Multiply_0);
    let r = *(e->Multiply_1);
    let u0 = pretty(l, false);
    let u1 = seq![' ', '*', ' '];
    let u2 = pretty(r, false);
    let pre0 = u0;
    let pre1 = pre0 + u1;
    let pre2 = pre1 + u2;
    assert(pretty(e, true) == pre2);
    let o0 = i;
    let o1 = o0 + u0.len();
    let o2 = o1 + u1.len();
    let o3 = o2 + u2.len();
    lemma_split(s, i, pre1, u2);
    lemma_split(s, i, pre0, u1);
    lemma_first_char(l, false);
    lemma_at(s, o0, u0, 0);
    lemma_at(s, o1, u1, 0);
    lemma_at(s, o1, u1, 1);
    lemma_at(s, o1, u1, 2);
    lemma_first_char(r, false);
    lemma_at(s, o2, u2, 0);
    lemma_lex_piece(s, o0, l, false);
    lemma_lex_space(s, o1);
    lemma_lex_punct(s, o1 + 1);
    lemma_lex_space(s, o1 + 2);
    lemma_lex_piece(s, o2, r, false);
    let a0 = tokens_of(l, false);
    let a1 = a0 + Seq::<Tok>::empty();
    lemma_passes_trans(s, i, o1, o1 + 1, a0, Seq::<Tok>::empty());
    let a2 = a1 + seq![Tok::Star];
    lemma_passes_trans(s, i, o1 + 1, o1 + 2, a1, seq![Tok::Star]);
    let a3 = a2 + Seq::<Tok>::empty();
    lemma_passes_trans(s, i, o1 + 2, o1 + 3, a2, Seq::<Tok>::empty());
    let a4 = a3 + tokens_of(r, false);
    lemma_passes_trans(s, i, o2, o3, a3, tokens_of(r, false));
    assert(a4 =~= tokens_of(e, true));
}

/// A quotient at the top level lexes to its operands around `/`.
proof fn lemma_lex_quotient(s: Seq<char>, i: int, e: Expr)
    requires
        e is Divide,
        well_formed(e),
        0 <= i,
        i + pretty(e, true).len() <= s.len(),
        s.subrange(i, i + pretty(e, true).len()) == pretty(e, true),
        stops_at(s, i + pretty(e, true).len()),
    ensures
        passes(s, i, i + pretty(e, true).len(), tokens_of(e, true)),
    decreases e, 0int,
{
    let l = *(e->Divide_0);
    let r = *(e->Divide_1);
    let u0 = pretty(l, false);
    let u1 = seq![' ', '/', ' '];
    let u2 = pretty(r, false);
    let pre0 = u0;
    let pre1 = pre0 + u1;
    let pre2 = pre1 + u2;
    assert(pretty(e, true) == pre2);
    let o0 = i;
    let o1 = o0 + u0.len();
    let o2 = o1 + u1.len();
    let o3 = o2 + u2.len();
    lemma_split(s, i, pre1, u2);
    lemma_split(s, i, pre0, u1);
    lemma_first_char(l, false);
    lemma_at(s, o0, u0, 0);
    lemma_at(s, o1, u1, 0);
    lemma_at(s, o1, u1, 1);
    lemma_at(s, o1, u1, 2);
    lemma_first_char(r, false);
    lemma_at(s, o2, u2, 0);
    lemma_lex_piece(s, o0, l, false);
    lemma_lex_space(s, o1);
    lemma_lex_punct(s, o1 + 1);
    lemma_lex_space(s, o1 + 2);
    lemma_lex_piece(s, o2, r, false);
    let a0 = tokens_of(l, false);
    let a1 = a0 + Seq::<Tok>::empty();
    lemma_passes_trans(s, i, o1, o1 + 1, a0, Seq::<Tok>::empty());
    let a2 = a1 + seq![Tok::Slash];
    lemma_passes_trans(s, i, o1 + 1, o1 + 2, a1, seq![Tok::Slash]);
    let a3 = a2 + Seq::<Tok>::empty();
    lemma_passes_trans(s, i, o1 + 2, o1 + 3, a2, Seq::<Tok>::empty());
    let a4 = a3 + tokens_of(r, false);
    lemma_passes_trans(s, i, o2, o3, a3, tokens_of(r, false));
    assert(a4 =~= tokens_of(e, true));
}

/// A sum at the top level lexes to its operands around `+`.
proof fn lemma_lex_sum(s: Seq<char>, i: int, e: Expr)
    requires
        e is Add,
        well_formed(e),
        0 <= i,
        i + pretty(e, true).len() <= s.len(),
        s.subrange(i, i + pretty(e, true).len()) == pretty(e, true),
        stops_at(s, i + pretty(e, true).len()),
    ensures
        passes(s, i, i + pretty(e, true).len(), tokens_of(e, true)),
    decreases e, 0int,
{
    let l = *(e->Add_0);
    let r = *(e->Add_1);
    let u0 = pretty(l, false);
    let u1 = seq![' ', '+', ' '];
    let u2 = pretty(r, false);
    let pre0 = u0;
    let pre1 = pre0 + u1;
    let pre2 = pre1 + u2;
    assert(pretty(e, true) == pre2);
    let o0 = i;
    let o1 = o0 + u0.len();
    let o2 = o1 + u1.len();
    let o3 = o2 + u2.len();
    lemma_split(s, i, pre1, u2);
    lemma_split(s, i, pre0, u1);
    lemma_first_char(l, false);
    lemma_at(s, o0, u0, 0);
    lemma_at(s, o1, u1, 0);
    lemma_at(s, o1, u1, 1);
    lemma_at(s, o1, u1, 2);
    lemma_first_char(r, false);
    lemma_at(s, o2, u2, 0);
    lemma_lex_piece(s, o0, l, false);
    lemma_lex_space(s, o1);
    lemma_lex_punct(s, o1 + 1);
    lemma_lex_space(s, o1 + 2);
    lemma_lex_piece(s, o2, r, false);
    let a0 = tokens_of(l, false);
    let a1 = a0 + Seq::<Tok>::empty();
    lemma_passes_trans(s, i, o1, o1 + 1, a0, Seq::<Tok>::empty());
    let a2 = a1 + seq![Tok::Plus];
    lemma_passes_trans(s, i, o1 + 1, o1 + 2, a1, seq![Tok::Plus]);
    let a3 = a2 + Seq::<Tok>::empty();
    lemma_passes_trans(s, i, o1 + 2, o1 + 3, a2, Seq::<Tok>::empty());
    let a4 = a3 + tokens_of(r, false);
    lemma_passes_trans(s, i, o2, o3, a3, tokens_of(r, false));
    assert(a4 =~= tokens_of(e, true));
}

/// Below the top level, a compound expression lexes inside parentheses.
proof fn lemma_lex_wrapped(s: Seq<char>, i: int, e: Expr)
    requires
        !is_atom(e),
        well_formed(e),
        0 <= i,
        i + pretty(e, false).len() <= s.len(),
        s.subrange(i, i + pretty(e, false).len()) == pretty(e, false),
        stops_at(s, i + pretty(e, false).len()),
    ensures
        passes(s, i, i + pretty(e, false).len(), tokens_of(e, false)),
    decreases e, 2int,
{
    lemma_wrap_parts(e);
    let u0 = seq!['('];
    let u1 = pretty(e, true);
    let u2 = seq![')'];
    let pre0 = u0;
    let pre1 = pre0 + u1;
    let pre2 = pre1 + u2;
    assert(pretty(e, false) == pre2);
    let o0 = i;
    let o1 = o0 + u0.len();
    let o2 = o1 + u1.len();
    let o3 = o2 + u2.len();
    lemma_split(s, i, pre1, u2);
    lemma_split(s, i, pre0, u1);
    lemma_at(s, o0, u0, 0);
    lemma_first_char(e, true);
    lemma_at(s, o1, u1, 0);
    lemma_at(s, o2, u2, 0);
    lemma_lex_punct(s, o0);
    lemma_lex_piece(s, o1, e, true);
    lemma_lex_punct(s, o2);
    let a0 = seq![Tok::OpenParen];
    let a1 = a0 + tokens_of(e, true);
    lemma_passes_trans(s, i, o1, o2, a0, tokens_of(e, true));
    let a2 = a1 + seq![Tok::CloseParen];
    lemma_passes_trans(s, i, o2, o2 + 1, a1, seq![Tok::CloseParen]);
    assert(a2 =~= tokens_of(e, false));
}

/// Canonical text of `e` followed by a stop lexes to the tokens of `e`.
proof fn lemma_lex_piece(s: Seq<char>, i: int, e: Expr, top: bool)
    requires
        well_formed(e),
        0 <= i,
        i + pretty(e, top).len() <= s.len(),
        s.subrange(i, i + pretty(e, top).len()) == pretty(e, top),
        stops_at(s, i + pretty(e, top).len()),
    ensures
        passes(s, i, i + pretty(e, top).len(), tokens_of(e, top)),
    decreases e, if top { 1int } else { 3int },
{
    if is_atom(e) {
        assert(pretty(e, top) == pretty(e, true));
        assert(tokens_of(e, top) == tokens_of(e, true));
        match e {
            Expr::Number(t) => lemma_lex_number(s, i, t),
            Expr::Named(n) => lemma_lex_name(s, i, n),
            Expr::Rotation(_) => lemma_lex_rotation(s, i, e),
            Expr::Anon2(es) => lemma_lex_anon2(s, i, es),
            Expr::Anon3(es) => lemma_lex_anon3(s, i, es),
            _ => {},
        }
    } else if !top {
        lemma_lex_wrapped(s, i, e);
    } else if e is Negate {
        lemma_lex_negation(s, i, e);
    } else if e is Exponent {
        lemma_lex_power(s, i, e);
    } else if e is Multiply {
        lemma_lex_product(s, i, e);
    } else if e is Divide {
        lemma_lex_quotient(s, i, e);
    } else {
        lemma_lex_sum(s, i, e);
    }
}

/// The canonical text of a well-formed tree lexes to the tokens of the tree.
pub proof fn lemma_lex_canonical_text(e: Expr)
    requires
        well_formed(e),
    ensures
        lex(pretty(e, true)) == LexOutcome::Tokens(tokens_of(e, true)),
{
    let s = pretty(e, true);
    lemma_first_char(e, true);
    assert(s.subrange(0, s.len() as int) =~= s);
    lemma_lex_piece(s, 0, e, true);
    assert(lex_from(s, s.len() as int) == (Seq::<Tok>::empty(), s.len() as int));
    assert(tokens_of(e, true) + Seq::<Tok>::empty() =~= tokens_of(e, true));
}

/// Reading the canonical text of a well-formed tree gives the same tree back, so it
/// evaluates to the same value under any environment.
pub proof fn lemma_round_trip(e: Expr)
    requires
        well_formed(e),
    ensures
        read_expression(pretty(e, true)) == ReadOutcome::Parsed(e),
{
    lemma_lex_canonical_text(e);
    lemma_parse_canonical_tokens(e);
}

} // verus!
