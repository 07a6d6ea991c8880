//! A lexical scanner: source text in, classified tokens out.
//!
//! [`lexer::Lexer`] walks over a source text and hands out one
//! [`token::Token`] per call, or an [`error::LexError`] that names the
//! faulty lexeme by line and columns. What a call does is defined in
//! [`scan`] as a function of the text and the cursor, and the executable
//! scanner is proved to compute it. [`laws`] holds what follows for every
//! source text: the tokens are the text without whitespace and comments,
//! and spacing between tokens changes none of them.

pub mod chars;
pub mod error;
pub mod laws;
pub mod lexer;
pub mod number;
pub mod scan;
pub mod text;
pub mod token;
