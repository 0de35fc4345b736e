//! A small C compiler's middle and back end: constant folding of expressions
//! and generation of x86-64 assembly text from checked statements.

pub mod codegen;
pub mod common;
pub mod parser;
