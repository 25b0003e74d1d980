//! A compiler for a small C-like language targeting a stack-based
//! assembly: a lexer, a parser and a code generator, each verified
//! against a specification of what it computes.

pub mod ast;
pub mod text;
pub mod labels;
pub mod vars;
pub mod compile;
pub mod lexer;
pub mod parser;
pub mod template;
