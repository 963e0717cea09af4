//! A verified tokenizer for the Monkey scripting language.
//!
//! The token stream of a source text is defined once, as a mathematical
//! function on bytes (`grammar`), and the streaming `Lexer` is proved to
//! yield exactly that stream, one token per call.

pub mod token;
pub mod grammar;
pub mod lexer;
pub mod laws;
