//! Front end of a small expression-oriented scripting language: a lexer
//! and an operator-precedence parser that builds a syntax tree.
//!
//! The lexer and the parser are each proved against a mathematical model:
//! [`lexer::next_token_spec`] says which token stands at the front of a
//! text, and [`grammar`] says what each production makes of a sequence of
//! tokens. [`parser::parse`] ties the two together. Rendering is stated in
//! [`render`], and [`round_trip`] proves that the text of an expression
//! made of names, literals and operators parses to that very expression.

pub mod chars;
pub mod token;
pub mod lexer;
pub mod ast;
pub mod cursor;
pub mod grammar;
pub mod parser;
pub mod render;
pub mod object;
pub mod evaluator;
pub mod numerals;
pub mod relexing;
pub mod plain;
pub mod reparsing;
pub mod associativity;
pub mod reporting;
pub mod provenance;
pub mod round_trip;
