//! A two-stage front end for a small expression-oriented language: a
//! byte-stream tokenizer and a precedence-climbing expression parser that
//! builds an abstract syntax tree.
//!
//! Source text flows one way: bytes -> `lexer::Lexer` -> tokens ->
//! `parser::Parser` -> AST. Every function here carries a contract that pins
//! its result down against the specification-level tokenizer and parser
//! defined alongside them.

pub mod token;
pub mod lexer;
pub mod ast;
pub mod parser;
