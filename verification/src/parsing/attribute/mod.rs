//! The `#[tusks(...)]` attribute: its options, its tokens, its grammar.
pub mod models;
pub mod lexer;
pub mod parse;
pub mod parse_laws;
