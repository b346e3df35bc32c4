//! Source syntax: spans, tokens, the indentation preprocessor and the tree
//! that the parser builds.
pub mod span;
pub mod token;
pub mod lexer;
pub mod preprocess;
pub mod grammar;
pub mod parser;
pub mod ast;
