//! A lexical analyzer for the Monkey scripting language.
//!
//! [`lexer::Lexer`] holds a cursor over one immutable piece of source text and
//! hands out one [`token::TokenType`] per call of `next_token`, ending with a
//! terminal end-of-input token. The classification rules are stated as spec
//! functions in [`token`] and [`lexer`], and [`laws`] proves the properties
//! the token stream obeys as a whole.

pub mod laws;
pub mod lexer;
pub mod token;
