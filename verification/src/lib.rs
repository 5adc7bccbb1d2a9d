//! A small interpreter for a dynamically-typed, expression-oriented language:
//! a tokenizer, a precedence-climbing parser producing an abstract syntax
//! tree, and a tree-walking evaluator with a chain of variable frames and
//! first-class functions.

pub mod ast;
pub mod interpreter;
pub mod lexer;
pub mod num;
pub mod parser;
pub mod token;

use vstd::prelude::*;

verus! {

} // verus!
