//! Trinity's matrix-expression language: names, tokens, parsing, pretty-printing,
//! the typing rules of evaluation, and square-and-multiply powers.

pub mod ast;
pub mod evaluation;
pub mod expression;
pub mod grammar;
pub mod map;
pub mod math;
pub mod name;
pub mod parser;
pub mod roundtrip;
pub mod token;
pub mod tokenise;
pub mod value;
