//! A lexical scanner: source text in, classified tokens and line-anchored
//! diagnostics out.
//!
//! `tokens` holds the vocabulary, `error` the diagnostics and their
//! rendering, `text` the handling of characters and strings, `grammar` the
//! lexical grammar as a specification, `lexer` the scanner that is proved
//! against it, and `laws` what follows for every text.

pub mod error;
pub mod grammar;
pub mod laws;
pub mod lexer;
pub mod text;
pub mod tokens;
