//! A single-pass compiler for a small line-oriented imperative language.
//!
//! Source text is tokenized on demand, checked by a recursive-descent parser
//! that also enforces the semantic rules of the language, and turned into C
//! text collected by an emitter.
pub mod emitter;
pub mod error;
pub mod grammar;
pub mod lexer;
pub mod parser;
pub mod token;
