use vstd::prelude::*;

pub mod allocator;
pub mod ast;
pub mod cli;
pub mod comments;
pub mod compiler;
pub mod error;
pub mod grammar;
pub mod labels;
pub mod lexer;
pub mod mips;
pub mod parser;
pub mod text;
pub mod token;

verus! {

} // verus!
