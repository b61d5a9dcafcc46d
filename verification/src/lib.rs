//! A scanner for a small scripting language: it turns source text into the
//! ordered sequence of tokens a parser consumes, and every function of it is
//! verified against a mathematical model of that sequence.
//!
//! The model lives in [`grammar`]: it cuts a text into consecutive segments,
//! each a token, a skipped separator or a lexical error. [`scanner`] holds the
//! executable scanner, whose contracts say that it produces exactly the tokens
//! and diagnostics of the model.

pub mod chars;
pub mod diagnostic;
pub mod grammar;
pub mod keyword;
pub mod number;
pub mod rlox;
pub mod scanner;
pub mod text;
pub mod token;
