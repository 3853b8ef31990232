//! A second syntax tree, with assignments, function definitions, literal
//! integers, and a prologue and an epilogue around a program's statements.
//!
//! Its parsers return what they read together with the tokens left over, or
//! nothing where the tokens do not begin with what they read.

pub mod assignment;
pub mod expression;
pub mod function_call;
pub mod function_definition;
pub mod identifier;
pub mod model;
pub mod program;
pub mod statement;
pub mod utils;
pub mod value;
