//! A single-pass lexical scanner for a small C-like scripting language.
//!
//! The scanner borrows a byte buffer and hands out one [`Token`] at a time:
//! a category ([`Tag`]) and a half-open byte range ([`Loc`]) into the buffer.
//!
//! - [`grammar`] is the lexical grammar, written over `Seq<u8>` and offsets.
//!   It knows nothing of the scanner's state; it says which token starts
//!   where.
//! - [`keyword`] holds the reserved words and their lookup.
//! - [`token`] holds the token types.
//! - [`tokenizer`] is the scanner. The contract of each of its functions is
//!   stated over the grammar.
//! - [`laws`] states what holds of every buffer, and proves it from the
//!   grammar.
//! - [`unicode`] counts the code points of source text.
pub mod grammar;
pub mod keyword;
pub mod laws;
pub mod token;
pub mod tokenizer;
pub mod unicode;

pub use token::{Loc, Tag, Token};
pub use tokenizer::{tokenize, Tokenizer};
