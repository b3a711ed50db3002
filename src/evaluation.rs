//! The order of evaluation: a tree compiles to postfix steps on a stack of values.
//!
//! Operands are evaluated left to right before the operation that combines them, so the
//! first error met in that order is the one reported. A power whose exponent is the
//! name `T` alone is a transposition of the base: `T` is never looked up.

use vstd::prelude::*;
use crate::ast::{texts, AstNode, Expr};
use crate::name::MatrixName;

verus! {

/// A step of evaluation, with names and literals as characters.
pub enum Op {
    Number(Seq<char>),
    Lookup(Seq<char>),
    Rotation(Seq<char>),
    Matrix2(Seq<Seq<char>>),
    Matrix3(Seq<Seq<char>>),
    Negate,
    Add,
    Multiply,
    Divide,
    Power,
    Transpose,
}

/// A step of evaluation on a stack of values.
#[derive(Debug, PartialEq)]
pub enum Step {
    /// Push the value of a numeric literal.
    PushNumber(String),
    /// Push the matrix of this name from the environment.
    Lookup(MatrixName),
    /// Push the 2D rotation by this many degrees.
    PushRotation(String),
    /// Push a literal 2x2 matrix, entries row by row.
    Push2([String; 4]),
    /// Push a literal 3x3 matrix, entries row by row.
    Push3([String; 9]),
    /// Replace the top value by its negation.
    Negate,
    /// Replace the two top values `l, r` by `l + r`.
    Add,
    /// Replace the two top values `l, r` by `l * r`.
    Multiply,
    /// Replace the two top values `l, r` by `l / r`.
    Divide,
    /// Replace the two top values `b, p` by `b ^ p`.
    Power,
    /// Replace the top value by its transpose.
    Transpose,
}

impl View for Step {
    type V = Op;

    open spec fn view(&self) -> Op {
        match self {
            Step::PushNumber(t) => Op::Number(t@),
            Step::Lookup(n) => Op::Lookup(n@),
            Step::PushRotation(t) => Op::Rotation(t@),
            Step::Push2(es) => Op::Matrix2(texts(es@)),
            Step::Push3(es) => Op::Matrix3(texts(es@)),
            Step::Negate => Op::Negate,
            Step::Add => Op::Add,
            Step::Multiply => Op::Multiply,
            Step::Divide => Op::Divide,
            Step::Power => Op::Power,
            Step::Transpose => Op::Transpose,
        }
    }
}

/// The views of a sequence of steps.
pub open spec fn ops(v: Seq<Step>) -> Seq<Op> {
    v.map_values(|s: Step| s@)
}

/// The steps that evaluate `e`, in postfix order.
pub open spec fn program(e: Expr) -> Seq<Op>
    decreases e,
{
    match e {
        Expr::Multiply(l, r) => program(*l) + program(*r) + seq![Op::Multiply],
        Expr::Divide(l, r) => program(*l) + program(*r) + seq![Op::Divide],
        Expr::Add(l, r) => program(*l) + program(*r) + seq![Op::Add],
        Expr::Negate(x) => program(*x) + seq![Op::Negate],
        Expr::Exponent(b, p) => if *p == Expr::Named(seq!['T']) {
            program(*b) + seq![Op::Transpose]
        } else {
            program(*b) + program(*p) + seq![Op::Power]
        },
        Expr::Number(t) => seq![Op::Number(t)],
        Expr::Named(n) => seq![Op::Lookup(n)],
        Expr::Rotation(t) => seq![Op::Rotation(t)],
        Expr::Anon2(es) => seq![Op::Matrix2(es)],
        Expr::Anon3(es) => seq![Op::Matrix3(es)],
    }
}

/// How many values a step takes from the stack.
pub open spec fn takes(op: Op) -> int {
    match op {
        Op::Add | Op::Multiply | Op::Divide | Op::Power => 2,
        Op::Negate | Op::Transpose => 1,
        _ => 0,
    }
}

/// The stack height after running `ops` from height `h`, or `None` where a step would
/// take more values than the stack holds.
pub open spec fn height_after(ops: Seq<Op>, h: int) -> Option<int>
    decreases ops.len(),
{
    if ops.len() == 0 {
        Some(h)
    } else if h < takes(ops[0]) {
        None
    } else {
        height_after(ops.drop_first(), h - takes(ops[0]) + 1)
    }
}

/// Running `a` then `b` is running `a`, then `b` from where `a` left the stack.
proof fn lemma_height_concat(a: Seq<Op>, b: Seq<Op>, h: int)
    ensures
        height_after(a + b, h) == match height_after(a, h) {
            Some(g) => height_after(b, g),
            None => None,
        },
    decreases a.len(),
{
    if a.len() > 0 {
        assert((a + b).drop_first() =~= a.drop_first() + b);
        assert((a + b)[0] == a[0]);
        lemma_height_concat(a.drop_first(), b, h - takes(a[0]) + 1);
    } else {
        assert(a + b =~= b);
    }
}

/// The steps of any tree, run on a stack of any height, never take more values than
/// the stack holds and leave exactly one value more: the value of the tree.
pub proof fn lemma_program_height(e: Expr, h: int)
    requires
        h >= 0,
    ensures
        height_after(program(e), h) == Some(h + 1),
    decreases e,
{
    match e {
        Expr::Multiply(l, r) | Expr::Divide(l, r) | Expr::Add(l, r) => {
            let last = program(e).last();
            lemma_program_height(*l, h);
            lemma_program_height(*r, h + 1);
            assert(program(e) == program(*l) + program(*r) + seq![last]);
            lemma_height_concat(program(*l) + program(*r), seq![last], h);
            lemma_height_concat(program(*l), program(*r), h);
            assert(height_after(seq![last], h + 2) == height_after(seq![last].drop_first(), h + 1));
        },
        Expr::Negate(x) => {
            lemma_program_height(*x, h);
            lemma_height_concat(program(*x), seq![Op::Negate], h);
            assert(height_after(seq![Op::Negate], h + 1) == height_after(seq![Op::Negate].drop_first(), h + 1));
        },
        Expr::Exponent(b, p) => {
            lemma_program_height(*b, h);
            if *p == Expr::Named(seq!['T']) {
                lemma_height_concat(program(*b), seq![Op::Transpose], h);
                assert(height_after(seq![Op::Transpose], h + 1) == height_after(seq![Op::Transpose].drop_first(), h + 1));
            } else {
                lemma_program_height(*p, h + 1);
                lemma_height_concat(program(*b) + program(*p), seq![Op::Power], h);
                lemma_height_concat(program(*b), program(*p), h);
                assert(height_after(seq![Op::Power], h + 2) == height_after(seq![Op::Power].drop_first(), h + 1));
            }
        },
        _ => {
            let op = program(e)[0];
            assert(program(e) == seq![op]);
            assert(height_after(seq![op], h) == height_after(seq![op].drop_first(), h + 1));
        },
    }
}

/// A copy of a string array.
fn copy4(es: &[String; 4]) -> (r: [String; 4])
    ensures
        texts(r@) == texts(es@),
{
    let r = [es[0].clone(), es[1].clone(), es[2].clone(), es[3].clone()];
    assert(texts(r@) =~= texts(es@));
    r
}

/// A copy of a string array.
fn copy9(es: &[String; 9]) -> (r: [String; 9])
    ensures
        texts(r@) == texts(es@),
{
    let r = [
        es[0].clone(),
        es[1].clone(),
        es[2].clone(),
        es[3].clone(),
        es[4].clone(),
        es[5].clone(),
        es[6].clone(),
        es[7].clone(),
        es[8].clone(),
    ];
    assert(texts(r@) =~= texts(es@));
    r
}

/// `a`, then `b`, then `last`.
fn then_step(mut a: Vec<Step>, mut b: Vec<Step>, last: Step) -> (r: Vec<Step>)
    ensures
        ops(r@) == ops(a@) + ops(b@) + seq![last@],
{
    let ghost (av, bv) = (a@, b@);
    a.append(&mut b);
    a.push(last);
    assert(ops(a@) =~= ops(av) + ops(bv) + seq![last@]);
    a
}

impl AstNode {
    /// The steps that evaluate this tree, in postfix order; see [`program`].
    pub fn evaluation_steps(&self) -> (r: Vec<Step>)
        ensures
            ops(r@) == program(self@),
        decreases self,
    {
        let mut single: Vec<Step> = Vec::new();
        let first = match self {
            AstNode::Multiply { left, right } => {
                return then_step(left.evaluation_steps(), right.evaluation_steps(), Step::Multiply);
            },
            AstNode::Divide { left, right } => {
                return then_step(left.evaluation_steps(), right.evaluation_steps(), Step::Divide);
            },
            AstNode::Add { left, right } => {
                return then_step(left.evaluation_steps(), right.evaluation_steps(), Step::Add);
            },
            AstNode::Negate(x) => {
                return then_step(x.evaluation_steps(), Vec::new(), Step::Negate);
            },
            AstNode::Exponent { base, power } => {
                let transpose = match &**power {
                    AstNode::NamedMatrix(n) => n.is_transpose_marker(),
                    _ => false,
                };
                assert(transpose <==> power@ == Expr::Named(seq!['T']));
                if transpose {
                    return then_step(base.evaluation_steps(), Vec::new(), Step::Transpose);
                } else {
                    return then_step(base.evaluation_steps(), power.evaluation_steps(), Step::Power);
                }
            },
            AstNode::Number(t) => Step::PushNumber(t.clone()),
            AstNode::NamedMatrix(n) => Step::Lookup(n.duplicate()),
            AstNode::RotationMatrix { degrees } => Step::PushRotation(degrees.clone()),
            AstNode::Anonymous2dMatrix(es) => Step::Push2(copy4(es)),
            AstNode::Anonymous3dMatrix(es) => Step::Push3(copy9(es)),
        };
        single.push(first);
        assert(ops(single@) =~= program(self@));
        single
    }
}

} // verus!
