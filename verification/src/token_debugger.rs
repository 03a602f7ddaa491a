//! A listing of the tokens of a source, for the eyes of whoever debugs the
//! lexer.

pub use crate::errors::print_tokens;
