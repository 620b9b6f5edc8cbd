//! Splits natural-language text into word and punctuation tokens, joins a
//! token sequence back into text with fixed spacing rules, and counts simple
//! token statistics.
//!
//! The meaning of both directions is given by the spec functions in [`model`]:
//! [`model::token_seq`] for scanning and [`model::joined`] for joining. The
//! executable operations live on [`tokenizer::Tokenizer`], and the laws that
//! relate the two directions are proved in [`laws`].

pub mod chars;
pub mod laws;
pub mod model;
pub mod tokenizer;

pub use tokenizer::Tokenizer;
