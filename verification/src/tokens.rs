//! Tokens: what the lexer produces and the parser consumes.

use vstd::prelude::*;
use crate::loader::Span;

verus! {

/// Base of an integer literal.
#[derive(Debug, Clone, Copy, PartialEq, Eq, Structural)]
pub enum IntLiteralType {
    Hexadecimal,
    Decimal,
    Octal,
    Binary,
}

/// Textual hint after a string-like literal.
#[derive(Debug, Clone, Copy, PartialEq, Eq, Structural)]
pub enum SLiteralTypeHint {
    NoHint,
    Char,
    Str,
}

/// Width hint after an integer literal.
#[derive(Debug, Clone, Copy, PartialEq, Eq, Structural)]
pub enum ILiteralTypeHint {
    NoHint,
    U8,
    I8,
    U16,
    I16,
    U32,
    I32,
    U64,
    I64,
}

/// Width hint after a literal with a fractional part.
#[derive(Debug, Clone, Copy, PartialEq, Eq, Structural)]
pub enum FLiteralTypeHint {
    NoHint,
    F32,
    F64,
}

/// The kind of a token, with the text that a literal or an identifier
/// carries.
#[derive(Debug, PartialEq)]
#[allow(inconsistent_fields)]
pub enum TokenType {
    ILiteral { value: String, kind: IntLiteralType, type_hint: ILiteralTypeHint },
    FLiteral { value: String, type_hint: FLiteralTypeHint },
    SLiteral { value: String, type_hint: SLiteralTypeHint },
    Let,
    Eq,
    LParen,
    RParen,
    LBracket,
    RBracket,
    Lt,
    Gt,
    Leq,
    Geq,
    EqEq,
    LCBrace,
    RCBrace,
    Ident(String),
    If,
    Neq,
    Minus,
    Plus,
    Star,
    Slash,
    Ret,
    Return,
    Exp,
    Semicolon,
    Dot,
    Not,
    Colon,
    Fn,
    Else,
    Match,
    Type,
    Const,
    Continue,
    Break,
    MinusEq,
    PlusEq,
    StarEq,
    SlashEq,
    ExpEq,
    BLiteral(bool),
    Comma,
    Loop,
    While,
    Use,
    As,
    Mut,
    Show,
    Panic,
    Module,
    Include,
    Enum,
    Struct,
    Compound,
}

/// Mathematical model of a [`TokenType`]: the same variants, over sequences
/// of characters.
#[allow(inconsistent_fields)]
pub enum TokenTypeView {
    ILiteral { value: Seq<char>, kind: IntLiteralType, type_hint: ILiteralTypeHint },
    FLiteral { value: Seq<char>, type_hint: FLiteralTypeHint },
    SLiteral { value: Seq<char>, type_hint: SLiteralTypeHint },
    Let,
    Eq,
    LParen,
    RParen,
    LBracket,
    RBracket,
    Lt,
    Gt,
    Leq,
    Geq,
    EqEq,
    LCBrace,
    RCBrace,
    Ident(Seq<char>),
    If,
    Neq,
    Minus,
    Plus,
    Star,
    Slash,
    Ret,
    Return,
    Exp,
    Semicolon,
    Dot,
    Not,
    Colon,
    Fn,
    Else,
    Match,
    Type,
    Const,
    Continue,
    Break,
    MinusEq,
    PlusEq,
    StarEq,
    SlashEq,
    ExpEq,
    BLiteral(bool),
    Comma,
    Loop,
    While,
    Use,
    As,
    Mut,
    Show,
    Panic,
    Module,
    Include,
    Enum,
    Struct,
    Compound,
}

impl View for TokenType {
    type V = TokenTypeView;

    open spec fn view(&self) -> TokenTypeView {
        match self {
            TokenType::ILiteral { value, kind, type_hint } => TokenTypeView::ILiteral {
                value: value@,
                kind: *kind,
                type_hint: *type_hint,
            },
            TokenType::FLiteral { value, type_hint } => TokenTypeView::FLiteral {
                value: value@,
                type_hint: *type_hint,
            },
            TokenType::SLiteral { value, type_hint } => TokenTypeView::SLiteral {
                value: value@,
                type_hint: *type_hint,
            },
            TokenType::Let => TokenTypeView::Let,
            TokenType::Eq => TokenTypeView::Eq,
            TokenType::LParen => TokenTypeView::LParen,
            TokenType::RParen => TokenTypeView::RParen,
            TokenType::LBracket => TokenTypeView::LBracket,
            TokenType::RBracket => TokenTypeView::RBracket,
            TokenType::Lt => TokenTypeView::Lt,
            TokenType::Gt => TokenTypeView::Gt,
            TokenType::Leq => TokenTypeView::Leq,
            TokenType::Geq => TokenTypeView::Geq,
            TokenType::EqEq => TokenTypeView::EqEq,
            TokenType::LCBrace => TokenTypeView::LCBrace,
            TokenType::RCBrace => TokenTypeView::RCBrace,
            TokenType::Ident(name) => TokenTypeView::Ident(name@),
            TokenType::If => TokenTypeView::If,
            TokenType::Neq => TokenTypeView::Neq,
            TokenType::Minus => TokenTypeView::Minus,
            TokenType::Plus => TokenTypeView::Plus,
            TokenType::Star => TokenTypeView::Star,
            TokenType::Slash => TokenTypeView::Slash,
            TokenType::Ret => TokenTypeView::Ret,
            TokenType::Return => TokenTypeView::Return,
            TokenType::Exp => TokenTypeView::Exp,
            TokenType::Semicolon => TokenTypeView::Semicolon,
            TokenType::Dot => TokenTypeView::Dot,
            TokenType::Not => TokenTypeView::Not,
            TokenType::Colon => TokenTypeView::Colon,
            TokenType::Fn => TokenTypeView::Fn,
            TokenType::Else => TokenTypeView::Else,
            TokenType::Match => TokenTypeView::Match,
            TokenType::Type => TokenTypeView::Type,
            TokenType::Const => TokenTypeView::Const,
            TokenType::Continue => TokenTypeView::Continue,
            TokenType::Break => TokenTypeView::Break,
            TokenType::MinusEq => TokenTypeView::MinusEq,
            TokenType::PlusEq => TokenTypeView::PlusEq,
            TokenType::StarEq => TokenTypeView::StarEq,
            TokenType::SlashEq => TokenTypeView::SlashEq,
            TokenType::ExpEq => TokenTypeView::ExpEq,
            TokenType::BLiteral(b) => TokenTypeView::BLiteral(*b),
            TokenType::Comma => TokenTypeView::Comma,
            TokenType::Loop => TokenTypeView::Loop,
            TokenType::While => TokenTypeView::While,
            TokenType::Use => TokenTypeView::Use,
            TokenType::As => TokenTypeView::As,
            TokenType::Mut => TokenTypeView::Mut,
            TokenType::Show => TokenTypeView::Show,
            TokenType::Panic => TokenTypeView::Panic,
            TokenType::Module => TokenTypeView::Module,
            TokenType::Include => TokenTypeView::Include,
            TokenType::Enum => TokenTypeView::Enum,
            TokenType::Struct => TokenTypeView::Struct,
            TokenType::Compound => TokenTypeView::Compound,
        }
    }
}

impl Clone for TokenType {
    fn clone(&self) -> (copy: Self)
        ensures
            copy == *self,
    {
        match self {
            TokenType::ILiteral { value, kind, type_hint } => TokenType::ILiteral {
                value: value.clone(),
                kind: *kind,
                type_hint: *type_hint,
            },
            TokenType::FLiteral { value, type_hint } => TokenType::FLiteral {
                value: value.clone(),
                type_hint: *type_hint,
            },
            TokenType::SLiteral { value, type_hint } => TokenType::SLiteral {
                value: value.clone(),
                type_hint: *type_hint,
            },
            TokenType::Let => TokenType::Let,
            TokenType::Eq => TokenType::Eq,
            TokenType::LParen => TokenType::LParen,
            TokenType::RParen => TokenType::RParen,
            TokenType::LBracket => TokenType::LBracket,
            TokenType::RBracket => TokenType::RBracket,
            TokenType::Lt => TokenType::Lt,
            TokenType::Gt => TokenType::Gt,
            TokenType::Leq => TokenType::Leq,
            TokenType::Geq => TokenType::Geq,
            TokenType::EqEq => TokenType::EqEq,
            TokenType::LCBrace => TokenType::LCBrace,
            TokenType::RCBrace => TokenType::RCBrace,
            TokenType::Ident(name) => TokenType::Ident(name.clone()),
            TokenType::If => TokenType::If,
            TokenType::Neq => TokenType::Neq,
            TokenType::Minus => TokenType::Minus,
            TokenType::Plus => TokenType::Plus,
            TokenType::Star => TokenType::Star,
            TokenType::Slash => TokenType::Slash,
            TokenType::Ret => TokenType::Ret,
            TokenType::Return => TokenType::Return,
            TokenType::Exp => TokenType::Exp,
            TokenType::Semicolon => TokenType::Semicolon,
            TokenType::Dot => TokenType::Dot,
            TokenType::Not => TokenType::Not,
            TokenType::Colon => TokenType::Colon,
            TokenType::Fn => TokenType::Fn,
            TokenType::Else => TokenType::Else,
            TokenType::Match => TokenType::Match,
            TokenType::Type => TokenType::Type,
            TokenType::Const => TokenType::Const,
            TokenType::Continue => TokenType::Continue,
            TokenType::Break => TokenType::Break,
            TokenType::MinusEq => TokenType::MinusEq,
            TokenType::PlusEq => TokenType::PlusEq,
            TokenType::StarEq => TokenType::StarEq,
            TokenType::SlashEq => TokenType::SlashEq,
            TokenType::ExpEq => TokenType::ExpEq,
            TokenType::BLiteral(b) => TokenType::BLiteral(*b),
            TokenType::Comma => TokenType::Comma,
            TokenType::Loop => TokenType::Loop,
            TokenType::While => TokenType::While,
            TokenType::Use => TokenType::Use,
            TokenType::As => TokenType::As,
            TokenType::Mut => TokenType::Mut,
            TokenType::Show => TokenType::Show,
            TokenType::Panic => TokenType::Panic,
            TokenType::Module => TokenType::Module,
            TokenType::Include => TokenType::Include,
            TokenType::Enum => TokenType::Enum,
            TokenType::Struct => TokenType::Struct,
            TokenType::Compound => TokenType::Compound,
        }
    }
}

impl TokenTypeView {
    /// How diagnostics name a token of this kind.
    pub open spec fn name(self) -> Seq<char> {
        match self {
            TokenTypeView::ILiteral { .. } => "<int literal>"@,
            TokenTypeView::FLiteral { .. } => "<float literal>"@,
            TokenTypeView::SLiteral { .. } => "<string-like literal>"@,
            TokenTypeView::Let => "'let'"@,
            TokenTypeView::Eq => "'='"@,
            TokenTypeView::LParen => "'('"@,
            TokenTypeView::RParen => "')'"@,
            TokenTypeView::LBracket => "'['"@,
            TokenTypeView::RBracket => "']'"@,
            TokenTypeView::Lt => "'<'"@,
            TokenTypeView::Gt => "'>'"@,
            TokenTypeView::Leq => "'<='"@,
            TokenTypeView::Geq => "'>='"@,
            TokenTypeView::EqEq => "'=='"@,
            TokenTypeView::LCBrace => "'{'"@,
            TokenTypeView::RCBrace => "'}'"@,
            TokenTypeView::Ident(_) => "<identifier>"@,
            TokenTypeView::If => "'if'"@,
            TokenTypeView::Neq => "'!='"@,
            TokenTypeView::Minus => "'-'"@,
            TokenTypeView::Plus => "'+'"@,
            TokenTypeView::Star => "'*'"@,
            TokenTypeView::Slash => "'/'"@,
            TokenTypeView::Ret => "'->'"@,
            TokenTypeView::Return => "'return'"@,
            TokenTypeView::Exp => "'**'"@,
            TokenTypeView::Semicolon => "';'"@,
            TokenTypeView::Dot => "'.'"@,
            TokenTypeView::Not => "'!'"@,
            TokenTypeView::Colon => "':'"@,
            TokenTypeView::Fn => "'fn'"@,
            TokenTypeView::Else => "'else'"@,
            TokenTypeView::Match => "'match'"@,
            TokenTypeView::Type => "'type'"@,
            TokenTypeView::Const => "'const'"@,
            TokenTypeView::Continue => "'continue'"@,
            TokenTypeView::Break => "'break'"@,
            TokenTypeView::MinusEq => "'-='"@,
            TokenTypeView::PlusEq => "'+='"@,
            TokenTypeView::StarEq => "'*='"@,
            TokenTypeView::SlashEq => "'/='"@,
            TokenTypeView::ExpEq => "'**='"@,
            TokenTypeView::BLiteral(_) => "<boolean literal>"@,
            TokenTypeView::Comma => "','"@,
            TokenTypeView::Loop => "'loop'"@,
            TokenTypeView::While => "'while'"@,
            TokenTypeView::Use => "'use'"@,
            TokenTypeView::As => "'as'"@,
            TokenTypeView::Mut => "'mut'"@,
            TokenTypeView::Show => "'show'"@,
            TokenTypeView::Panic => "'panic'"@,
            TokenTypeView::Module => "'module'"@,
            TokenTypeView::Include => "'include'"@,
            TokenTypeView::Enum => "'enum'"@,
            TokenTypeView::Struct => "'struct'"@,
            TokenTypeView::Compound => "'compound'"@,
        }
    }

    /// The token is a literal: integer, fractional, string-like or boolean.
    pub open spec fn is_literal(self) -> bool {
        self is ILiteral || self is FLiteral || self is SLiteral || self is BLiteral
    }
}

impl TokenType {
    pub fn name_for_errors(&self) -> (name: &'static str)
        ensures
            name@ == self@.name(),
    {
        match self {
            TokenType::ILiteral { .. } => "<int literal>",
            TokenType::FLiteral { .. } => "<float literal>",
            TokenType::SLiteral { .. } => "<string-like literal>",
            TokenType::Let => "'let'",
            TokenType::Eq => "'='",
            TokenType::LParen => "'('",
            TokenType::RParen => "')'",
            TokenType::LBracket => "'['",
            TokenType::RBracket => "']'",
            TokenType::Lt => "'<'",
            TokenType::Gt => "'>'",
            TokenType::Leq => "'<='",
            TokenType::Geq => "'>='",
            TokenType::EqEq => "'=='",
            TokenType::LCBrace => "'{'",
            TokenType::RCBrace => "'}'",
            TokenType::Ident(_) => "<identifier>",
            TokenType::If => "'if'",
            TokenType::Neq => "'!='",
            TokenType::Minus => "'-'",
            TokenType::Plus => "'+'",
            TokenType::Star => "'*'",
            TokenType::Slash => "'/'",
            TokenType::Ret => "'->'",
            TokenType::Return => "'return'",
            TokenType::Exp => "'**'",
            TokenType::Semicolon => "';'",
            TokenType::Dot => "'.'",
            TokenType::Not => "'!'",
            TokenType::Colon => "':'",
            TokenType::Fn => "'fn'",
            TokenType::Else => "'else'",
            TokenType::Match => "'match'",
            TokenType::Type => "'type'",
            TokenType::Const => "'const'",
            TokenType::Continue => "'continue'",
            TokenType::Break => "'break'",
            TokenType::MinusEq => "'-='",
            TokenType::PlusEq => "'+='",
            TokenType::StarEq => "'*='",
            TokenType::SlashEq => "'/='",
            TokenType::ExpEq => "'**='",
            TokenType::BLiteral(_) => "<boolean literal>",
            TokenType::Comma => "','",
            TokenType::Loop => "'loop'",
            TokenType::While => "'while'",
            TokenType::Use => "'use'",
            TokenType::As => "'as'",
            TokenType::Mut => "'mut'",
            TokenType::Show => "'show'",
            TokenType::Panic => "'panic'",
            TokenType::Module => "'module'",
            TokenType::Include => "'include'",
            TokenType::Enum => "'enum'",
            TokenType::Struct => "'struct'",
            TokenType::Compound => "'compound'",
        }
    }
}

/// A token and the range of source text that it was read from.
#[derive(Debug)]
pub struct Token {
    pub span: Span,
    pub tt: TokenType,
}

/// Mathematical model of a [`Token`].
pub struct TokenView {
    pub span: Span,
    pub tt: TokenTypeView,
}

impl View for Token {
    type V = TokenView;

    open spec fn view(&self) -> TokenView {
        TokenView { span: self.span, tt: self.tt@ }
    }
}

impl Clone for Token {
    fn clone(&self) -> (copy: Self)
        ensures
            copy == *self,
    {
        Token { span: self.span, tt: self.tt.clone() }
    }
}

/// The models of a sequence of tokens, in order.
pub open spec fn token_views(tokens: Seq<Token>) -> Seq<TokenView> {
    Seq::new(tokens.len(), |i: int| tokens[i]@)
}

} // verus!
