//! Binding powers of the infix and postfix tokens.

use vstd::prelude::*;
use crate::tokens::{Token, TokenType, TokenTypeView};

verus! {

pub const SEMICOLON: u8 = 1;

pub const BREAK: u8 = 5;

pub const ASSIGN: u8 = 6;

pub const LOGICAL: u8 = 10;

pub const ADD_SUB: u8 = 20;

pub const MUL_DIV_EXP: u8 = 30;

pub const UNARY: u8 = 40;

pub const CALL: u8 = 50;

pub const DOT: u8 = 60;

pub const ONE: u8 = 255;

/// Binding power of the token kind `tt` in infix or postfix position; zero
/// for a token that continues no expression, and at the end of the input.
pub open spec fn precedence(tt: Option<TokenTypeView>) -> u8 {
    match tt {
        Some(TokenTypeView::Neq) => LOGICAL,
        Some(TokenTypeView::EqEq) => LOGICAL,
        Some(TokenTypeView::Leq) => LOGICAL,
        Some(TokenTypeView::Geq) => LOGICAL,
        Some(TokenTypeView::Lt) => LOGICAL,
        Some(TokenTypeView::Gt) => LOGICAL,
        Some(TokenTypeView::Plus) => ADD_SUB,
        Some(TokenTypeView::Minus) => ADD_SUB,
        Some(TokenTypeView::Star) => MUL_DIV_EXP,
        Some(TokenTypeView::Slash) => MUL_DIV_EXP,
        Some(TokenTypeView::Exp) => MUL_DIV_EXP,
        Some(TokenTypeView::Semicolon) => SEMICOLON,
        Some(TokenTypeView::Eq) => ASSIGN,
        Some(TokenTypeView::PlusEq) => ASSIGN,
        Some(TokenTypeView::MinusEq) => ASSIGN,
        Some(TokenTypeView::SlashEq) => ASSIGN,
        Some(TokenTypeView::StarEq) => ASSIGN,
        Some(TokenTypeView::ExpEq) => ASSIGN,
        Some(TokenTypeView::LParen) => CALL,
        Some(TokenTypeView::Dot) => DOT,
        _ => 0,
    }
}

/// The kind of an optional token.
pub open spec fn kind_of(t: Option<&Token>) -> Option<TokenTypeView> {
    match t {
        Some(token) => Some(token.tt@),
        None => None,
    }
}

pub fn get_precedence(t: &Option<&Token>) -> (level: u8)
    ensures
        level == precedence(kind_of(*t)),
{
    match t {
        Some(token) => match &token.tt {
            TokenType::Neq => LOGICAL,
            TokenType::EqEq => LOGICAL,
            TokenType::Leq => LOGICAL,
            TokenType::Geq => LOGICAL,
            TokenType::Lt => LOGICAL,
            TokenType::Gt => LOGICAL,
            TokenType::Plus => ADD_SUB,
            TokenType::Minus => ADD_SUB,
            TokenType::Star => MUL_DIV_EXP,
            TokenType::Slash => MUL_DIV_EXP,
            TokenType::Exp => MUL_DIV_EXP,
            TokenType::Semicolon => SEMICOLON,
            TokenType::Eq => ASSIGN,
            TokenType::PlusEq => ASSIGN,
            TokenType::MinusEq => ASSIGN,
            TokenType::SlashEq => ASSIGN,
            TokenType::StarEq => ASSIGN,
            TokenType::ExpEq => ASSIGN,
            TokenType::LParen => CALL,
            TokenType::Dot => DOT,
            _ => 0,
        },
        None => 0,
    }
}

} // verus!
