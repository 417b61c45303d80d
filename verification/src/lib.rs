//! Conversion of a small Markdown subset to HTML: a lexer, a recursive-descent
//! parser and a tree of renderable elements, each with a verified contract.

pub mod document;
pub mod parser;
pub mod strings;
pub mod types;
