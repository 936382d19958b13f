//! Tokenizer and statement parser for a small programming language.
use vstd::prelude::*;

pub mod ast;
pub mod lexer;
pub mod parser;
pub mod token;

pub use ast::{Expression, Program, Statement};
pub use lexer::{Lex, Lexer};
pub use parser::Parser;
pub use token::{look_up_ident, Token};

verus! {

} // verus!
