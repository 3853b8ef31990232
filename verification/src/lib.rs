//! A tiny line-oriented text-transformation language.
//!
//! A program is scanned into tokens, parsed into a syntax tree, compiled to a
//! flat sequence of stack-machine instructions and then run once per line.

pub mod ast;
pub mod ast_v2;
pub mod chars;
pub mod cli;
pub mod compiler;
pub mod decimal;
pub mod printer;
pub mod program;
pub mod program_source;
pub mod tokens;
