//! The abstract syntax tree of an expression, its pretty-printer, and the names it uses.

use vstd::prelude::*;
use crate::name::MatrixName;

verus! {

/// The mathematical view of an expression tree: names and numeric literals as characters.
pub enum Expr {
    Multiply(Box<Expr>, Box<Expr>),
    Divide(Box<Expr>, Box<Expr>),
    Add(Box<Expr>, Box<Expr>),
    Negate(Box<Expr>),
    Exponent(Box<Expr>, Box<Expr>),
    Number(Seq<char>),
    Named(Seq<char>),
    Rotation(Seq<char>),
    Anon2(Seq<Seq<char>>),
    Anon3(Seq<Seq<char>>),
}

/// A node of an expression tree; the root node stands for the whole tree.
///
/// Numeric literals are kept as their decimal text. Literal matrices hold their entries
/// in the order they are written, row by row: `[a b; c d]` holds `a, b, c, d`, so `a, c`
/// is the first column.
#[derive(Debug, PartialEq)]
pub enum AstNode {
    /// `left * right`
    Multiply { left: Box<AstNode>, right: Box<AstNode> },
    /// `left / right`
    Divide { left: Box<AstNode>, right: Box<AstNode> },
    /// `left + right`; subtraction is an addition of a negation.
    Add { left: Box<AstNode>, right: Box<AstNode> },
    /// Unary minus.
    Negate(Box<AstNode>),
    /// `base ^ power`; the power `T` alone denotes transposition.
    Exponent { base: Box<AstNode>, power: Box<AstNode> },
    /// A numeric literal.
    Number(String),
    /// A named matrix.
    NamedMatrix(MatrixName),
    /// A 2D rotation by a number of degrees, written `rot(45)`.
    RotationMatrix { degrees: String },
    /// A literal 2x2 matrix, written `[1 2; 3 4]`.
    Anonymous2dMatrix([String; 4]),
    /// A literal 3x3 matrix, written `[1 2 3; 4 5 6; 7 8 9]`.
    Anonymous3dMatrix([String; 9]),
}

/// The views of a sequence of strings.
pub open spec fn texts(v: Seq<String>) -> Seq<Seq<char>> {
    v.map_values(|s: String| s@)
}

/// The view of a node, by structural recursion.
pub open spec fn expr_of(a: AstNode) -> Expr
    decreases a,
{
    match a {
        AstNode::Multiply { left, right } => Expr::Multiply(Box::new(expr_of(*left)), Box::new(expr_of(*right))),
        AstNode::Divide { left, right } => Expr::Divide(Box::new(expr_of(*left)), Box::new(expr_of(*right))),
        AstNode::Add { left, right } => Expr::Add(Box::new(expr_of(*left)), Box::new(expr_of(*right))),
        AstNode::Negate(x) => Expr::Negate(Box::new(expr_of(*x))),
        AstNode::Exponent { base, power } => Expr::Exponent(Box::new(expr_of(*base)), Box::new(expr_of(*power))),
        AstNode::Number(t) => Expr::Number(t@),
        AstNode::NamedMatrix(n) => Expr::Named(n@),
        AstNode::RotationMatrix { degrees } => Expr::Rotation(degrees@),
        AstNode::Anonymous2dMatrix(es) => Expr::Anon2(texts(es@)),
        AstNode::Anonymous3dMatrix(es) => Expr::Anon3(texts(es@)),
    }
}

impl View for AstNode {
    type V = Expr;

    open spec fn view(&self) -> Expr {
        expr_of(*self)
    }
}

/// `s` in parentheses unless it stands at the top level.
pub open spec fn wrap(s: Seq<char>, top: bool) -> Seq<char> {
    if top {
        s
    } else {
        seq!['('] + s + seq![')']
    }
}

/// `l`, then ` op `, then `r`.
pub open spec fn infix(l: Seq<char>, op: char, r: Seq<char>) -> Seq<char> {
    l + seq![' ', op, ' '] + r
}

/// Two entries of a literal matrix from `k` on, separated by a single space.
pub open spec fn row2_text(es: Seq<Seq<char>>, k: int) -> Seq<char> {
    es[k] + seq![' '] + es[k + 1]
}

/// The text of a literal 2x2 matrix: `[a b; c d]`.
pub open spec fn anon2_text(es: Seq<Seq<char>>) -> Seq<char> {
    seq!['['] + row2_text(es, 0) + seq![';', ' '] + row2_text(es, 2) + seq![']']
}

/// Three entries of a literal matrix from `k` on, separated by single spaces.
pub open spec fn row3_text(es: Seq<Seq<char>>, k: int) -> Seq<char> {
    es[k] + seq![' '] + es[k + 1] + seq![' '] + es[k + 2]
}

/// The text of a literal 3x3 matrix: `[a b c; d e f; g h i]`.
pub open spec fn anon3_text(es: Seq<Seq<char>>) -> Seq<char> {
    seq!['['] + row3_text(es, 0) + seq![';', ' '] + row3_text(es, 3) + seq![';', ' '] + row3_text(es, 6)
        + seq![']']
}

/// The canonical text of an expression. Every binary node below the top is wrapped in
/// parentheses, a negation below the top too, and a power always stands in braces, which
/// count as a new top level.
pub open spec fn pretty(e: Expr, top: bool) -> Seq<char>
    decreases e,
{
    match e {
        Expr::Multiply(l, r) => wrap(infix(pretty(*l, false), '*', pretty(*r, false)), top),
        Expr::Divide(l, r) => wrap(infix(pretty(*l, false), '/', pretty(*r, false)), top),
        Expr::Add(l, r) => wrap(infix(pretty(*l, false), '+', pretty(*r, false)), top),
        Expr::Negate(x) => wrap(seq!['-'] + pretty(*x, false), top),
        Expr::Exponent(b, p) => wrap(
            pretty(*b, false) + seq![' ', '^', ' ', '{'] + pretty(*p, true) + seq!['}'],
            top,
        ),
        Expr::Number(t) => t,
        Expr::Named(n) => n,
        Expr::Rotation(t) => seq!['r', 'o', 't', '('] + t + seq![')'],
        Expr::Anon2(es) => anon2_text(es),
        Expr::Anon3(es) => anon3_text(es),
    }
}

/// The names that an expression reads, left to right; the `T` of a transposition is none.
pub open spec fn names(e: Expr) -> Seq<Seq<char>>
    decreases e,
{
    match e {
        Expr::Multiply(l, r) => names(*l) + names(*r),
        Expr::Divide(l, r) => names(*l) + names(*r),
        Expr::Add(l, r) => names(*l) + names(*r),
        Expr::Negate(x) => names(*x),
        Expr::Exponent(b, p) => if *p == Expr::Named(seq!['T']) {
            names(*b)
        } else {
            names(*b) + names(*p)
        },
        Expr::Named(n) => seq![n],
        _ => Seq::empty(),
    }
}

/// The views of a sequence of names.
pub open spec fn name_views(v: Seq<MatrixName>) -> Seq<Seq<char>> {
    v.map_values(|m: MatrixName| m@)
}

/// `s` in parentheses unless `top`.
fn wrapped(s: String, top: bool) -> (r: String)
    ensures
        r@ == wrap(s@, top),
{
    if top {
        s
    } else {
        let mut r = String::new();
        r.append("(");
        r.append(s.as_str());
        r.append(")");
        proof {
            reveal_strlit("(");
            reveal_strlit(")");
        }
        assert(r@ =~= wrap(s@, top));
        r
    }
}

/// `l op r` for an operator `op` written with a space on each side.
fn joined(l: String, op: &str, r: String) -> (res: String)
    ensures
        res@ == l@ + op@ + r@,
{
    let mut res = l;
    res.append(op);
    res.append(r.as_str());
    res
}

/// The text of a literal 2x2 matrix.
fn matrix2_text(es: &[String; 4]) -> (r: String)
    ensures
        r@ == anon2_text(texts(es@)),
{
    proof {
        reveal_strlit("[");
        reveal_strlit("]");
        reveal_strlit(" ");
        reveal_strlit("; ");
    }
    let mut r = String::new();
    r.append("[");
    r.append(es[0].as_str());
    r.append(" ");
    r.append(es[1].as_str());
    r.append("; ");
    r.append(es[2].as_str());
    r.append(" ");
    r.append(es[3].as_str());
    r.append("]");
    assert(r@ =~= anon2_text(texts(es@)));
    r
}

/// The text of a literal 3x3 matrix.
fn matrix3_text(es: &[String; 9]) -> (r: String)
    ensures
        r@ == anon3_text(texts(es@)),
{
    proof {
        reveal_strlit("[");
        reveal_strlit("]");
        reveal_strlit(" ");
        reveal_strlit("; ");
    }
    let mut r = String::new();
    r.append("[");
    r.append(es[0].as_str());
    r.append(" ");
    r.append(es[1].as_str());
    r.append(" ");
    r.append(es[2].as_str());
    r.append("; ");
    r.append(es[3].as_str());
    r.append(" ");
    r.append(es[4].as_str());
    r.append(" ");
    r.append(es[5].as_str());
    r.append("; ");
    r.append(es[6].as_str());
    r.append(" ");
    r.append(es[7].as_str());
    r.append(" ");
    r.append(es[8].as_str());
    r.append("]");
    assert(r@ =~= anon3_text(texts(es@)));
    r
}

impl AstNode {
    /// The canonical text of this expression; see [`pretty`].
    pub fn to_expression_string(&self) -> (r: String)
        ensures
            r@ == pretty(self@, true),
    {
        self.render(true)
    }

    /// The text of this node, in parentheses unless `top`.
    fn render(&self, top: bool) -> (r: String)
        ensures
            r@ == pretty(self@, top),
        decreases self,
    {
        proof {
            reveal_strlit(" * ");
            reveal_strlit(" / ");
            reveal_strlit(" + ");
            reveal_strlit("-");
            reveal_strlit(" ^ {");
            reveal_strlit("}");
            reveal_strlit("rot(");
            reveal_strlit(")");
        }
        match self {
            AstNode::Multiply { left, right } => {
                let s = joined(left.render(false), " * ", right.render(false));
                wrapped(s, top)
            },
            AstNode::Divide { left, right } => {
                let s = joined(left.render(false), " / ", right.render(false));
                wrapped(s, top)
            },
            AstNode::Add { left, right } => {
                let s = joined(left.render(false), " + ", right.render(false));
                wrapped(s, top)
            },
            AstNode::Negate(x) => {
                let mut s = String::new();
                s.append("-");
                let inner = x.render(false);
                s.append(inner.as_str());
                wrapped(s, top)
            },
            AstNode::Exponent { base, power } => {
                let mut s = base.render(false);
                s.append(" ^ {");
                let p = power.render(true);
                s.append(p.as_str());
                s.append("}");
                wrapped(s, top)
            },
            AstNode::Number(t) => t.clone(),
            AstNode::NamedMatrix(n) => String::from_str(n.as_str()),
            AstNode::RotationMatrix { degrees } => {
                let mut s = String::new();
                s.append("rot(");
                s.append(degrees.as_str());
                s.append(")");
                s
            },
            AstNode::Anonymous2dMatrix(es) => matrix2_text(es),
            AstNode::Anonymous3dMatrix(es) => matrix3_text(es),
        }
    }

    /// The names this expression reads, left to right, repeats included; the `T` of a
    /// transposition `x ^ T` is not among them.
    pub fn named_matrices(&self) -> (r: Vec<MatrixName>)
        ensures
            name_views(r@) == names(self@),
        decreases self,
    {
        match self {
            AstNode::Multiply { left, right } => {
                assert(names(self@) == names(left@) + names(right@));
                let mut l = left.named_matrices();
                let mut r = right.named_matrices();
                let ghost (lv, rv) = (l@, r@);
                l.append(&mut r);
                assert(name_views(l@) =~= name_views(lv) + name_views(rv));
                assert(name_views(lv) == names(left@));
                assert(name_views(rv) == names(right@));
                l
            },
            AstNode::Divide { left, right } => {
                assert(names(self@) == names(left@) + names(right@));
                let mut l = left.named_matrices();
                let mut r = right.named_matrices();
                let ghost (lv, rv) = (l@, r@);
                l.append(&mut r);
                assert(name_views(l@) =~= name_views(lv) + name_views(rv));
                l
            },
            AstNode::Add { left, right } => {
                assert(names(self@) == names(left@) + names(right@));
                let mut l = left.named_matrices();
                let mut r = right.named_matrices();
                let ghost (lv, rv) = (l@, r@);
                l.append(&mut r);
                assert(name_views(l@) =~= name_views(lv) + name_views(rv));
                l
            },
            AstNode::Negate(x) => {
                assert(names(self@) == names(x@));
                x.named_matrices()
            },
            AstNode::Exponent { base, power } => {
                let mut l = base.named_matrices();
                let is_transpose = match &**power {
                    AstNode::NamedMatrix(n) => n.is_transpose_marker(),
                    _ => false,
                };
                assert(is_transpose <==> power@ == Expr::Named(seq!['T']));
                if !is_transpose {
                    let mut r = power.named_matrices();
                    let ghost (lv, rv) = (l@, r@);
                    l.append(&mut r);
                    assert(name_views(l@) =~= name_views(lv) + name_views(rv));
                }
                l
            },
            AstNode::NamedMatrix(n) => {
                let mut v: Vec<MatrixName> = Vec::new();
                v.push(n.duplicate());
                assert(name_views(v@) =~= seq![n@]);
                v
            },
            _ => {
                let v: Vec<MatrixName> = Vec::new();
                assert(name_views(v@) =~= Seq::empty());
                v
            },
        }
    }
}

} // verus!
