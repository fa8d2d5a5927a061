//! A small line-oriented scripting language: a lexer, a parser producing a
//! syntax tree, and an interpreter that evaluates the tree over a variable
//! store, with every stage specified and verified.

pub mod numeric;
pub mod text;
pub mod token;
pub mod lexer;
pub mod ast;
pub mod parser;
pub mod variables;
pub mod interpreter;
pub mod laws;
pub mod run_laws;
pub mod parse_laws;
pub mod lex_laws;
