//! A small compiler for a calculator BASIC dialect: a lexer that turns source
//! text into tokens, a recursive-descent parser that builds a syntax tree, and
//! a code generator that renders the tree as x86-64 assembly text.

pub mod span;
pub mod token;
pub mod text;
pub mod lexer;
pub mod ast;
pub mod parse;
pub mod types;
pub mod codegen;
