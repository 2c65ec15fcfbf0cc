//! A lexical scanner for a JSON-like grammar.
//!
//! The scanner turns raw text into an ordered sequence of tokens:
//! structural punctuation, quoted strings (kept verbatim, no escape
//! decoding), and numeric literals (sign, leading-zero and fractional-part
//! rules, no exponents). Malformed input yields a typed error; the scanner
//! never panics and never returns a partial token sequence.

pub mod laws;
pub mod lexer;
pub mod token;
