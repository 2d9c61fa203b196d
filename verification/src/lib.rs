//! A lexical scanner for a small C-like scripting language: it turns raw
//! source text into a sequence of classified tokens, pulled one at a time.
//!
//! The [`token`] module holds the closed set of lexical categories and the
//! token value; the [`lexer`] module holds the scanner, the functional model
//! of a scanning step that serves as its contract, and the proofs that
//! scanning is total and reproduces the input's significant characters.

pub mod lexer;
pub mod token;
