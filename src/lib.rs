//! A just-in-time compiler for integer arithmetic expressions: a lexer and a
//! precedence-aware parser, an x86-64 encoder, and a stack-discipline code
//! generator, each proved against a mathematical model.
use vstd::prelude::*;

pub mod ast;
pub mod lexer;
pub mod parser;
pub mod encoding;
pub mod machine;
pub mod codegen;
pub mod laws;
pub mod runtime;

pub use ast::{BinOp, Expr};
pub use codegen::compile;
pub use lexer::{Lexer, ParseError, Token};
pub use parser::{Parser, parse};
pub use runtime::round_up_to_pages;

verus! {

} // verus!
