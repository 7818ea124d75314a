//! Front end for an architecture-specification language: abstract syntax
//! tree, lexer, parser and semantic validator.

use vstd::prelude::*;

pub mod ast;
pub mod token;
pub mod lexer;
pub mod diagnostics;
pub mod parser;
pub mod validator;
pub mod printer;

verus! {

} // verus!
