//! Cobalt: a compiler from a small markup language to HTML.
//!
//! The crate is a three-stage pipeline. The [`tokenizer`] turns source text
//! into a flat sequence of tokens, the [`parser`] turns tokens into a flat
//! sequence of expressions, and the [`emitter`] renders expressions as an
//! HTML document. Every stage reports failure through [`error::Error`].

pub mod config;
pub mod emitter;
pub mod error;
pub mod text;
pub mod tokenizer;
pub mod parser;
