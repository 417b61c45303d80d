//! From source text to a document tree: the lexer and the parser.

pub mod lexer;
pub mod lexer_lemmas;
pub mod parser;
pub mod parser_lemmas;
