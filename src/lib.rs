//! Front end of the Monkey language: a byte-level scanner that turns source text
//! into tokens, and a parser that turns those tokens into a program tree.
pub mod ast;
pub mod lexer;
pub mod parser;
pub mod token;
