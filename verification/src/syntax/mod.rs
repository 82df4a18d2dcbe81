//! Syntax highlighting support.
pub mod compile;
pub mod grammar;
pub mod highlight;
pub mod json_parser;
pub mod regex;
pub mod theme;
pub mod tokenizer;
