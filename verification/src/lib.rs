//! Front end of a small expression language: a lexer that turns characters
//! into tokens and a precedence-climbing recursive-descent parser that turns
//! tokens into an abstract syntax tree of function definitions, foreign
//! declarations and top-level expressions. A printer serializes a tree back
//! to source text, and the round trip through lexer and parser is proved to
//! reproduce the tree exactly.
//!
//! Input characters come from a byte stream mapped byte-for-byte to code
//! points, so the lexer's character classes cover that whole single-byte
//! domain: ASCII and Latin-1, with their Unicode whitespace and letter
//! properties; the digits of numeric literals are the decimal digits.

pub mod ast;
pub mod chars;
pub mod lexer;
pub mod parser;
pub mod printer;
pub mod roundtrip;
pub mod token;
