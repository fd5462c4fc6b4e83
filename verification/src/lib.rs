//! Front end of a small interpreted language: a character-level lexer and a
//! recursive-descent / Pratt parser that turn source text into an abstract
//! syntax tree.
pub mod ast;
pub mod lexer;
pub mod parser;
pub mod token;
