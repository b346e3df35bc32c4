//! The compiler front end: tokens, the indentation-aware tokenizer and the
//! parser that builds the syntax tree that inference and formatting use.
pub mod token;
pub mod lexer;
pub mod grammar;
pub mod parser;
pub mod statements;
