//! A lexical analyzer for a small toy programming language.
//!
//! The lexer turns a character buffer into a flat sequence of tokens:
//! keywords (`def`, `extern`), identifiers, numeric literals,
//! single-character operators, and a final end-of-input marker.
//! The behaviour of the executable lexer is pinned to a mathematical
//! description of the token grammar in [`scan`], and the shape of every
//! output sequence (non-empty, exactly one trailing `Eof`) is proved.

pub mod lexer;
pub mod scan;
pub mod token;
