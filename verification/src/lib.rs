//! A small expression-oriented scripting language: source loading with span
//! tracking, a lexer, a Pratt parser, a bytecode lowerer with a label-linking
//! pass, and a stack machine that runs the linked bytecode.
//!
//! Every stage is verified: each public function carries a contract over the
//! mathematical model of its arguments.

pub mod text;
pub mod number;
pub mod failure;
pub mod loader;
pub mod tokens;
pub mod errors;
pub mod frame;
pub mod typing;
pub mod ast;
pub mod expressions;
pub mod unicode;
pub mod lexer;
pub mod parser;
pub mod token_debugger;
pub mod vm;
pub mod compiler;
