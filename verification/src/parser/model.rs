//! What the parser computes, as functions on sequences of tokens.
//!
//! Every function takes the position of the token that it starts at and
//! gives either the expression read with the number of tokens consumed, or
//! the diagnostics that end the parse.

use vstd::prelude::*;
use crate::ast::{BinaryOp, ExprView, ExpressionView, UnaryOp};
use crate::errors::{ErrorView, Severity, E0011, E0012, E0013, E0014};
use crate::lexer::model::lexed;
use crate::loader::{Loader, Span};
use crate::parser::precedence::{precedence, ASSIGN, BREAK, ONE, SEMICOLON, UNARY};
use crate::text::byte_len;
use crate::tokens::{TokenTypeView, TokenView};

verus! {

/// An expression and the number of tokens it took, or the diagnostics that
/// end the parse.
pub type Parsed = Result<(ExpressionView, nat), Seq<ErrorView>>;

/// Number of tokens at and after position `p`.
pub open spec fn remaining(input: Seq<TokenView>, p: int) -> nat {
    if 0 <= p < input.len() {
        (input.len() - p) as nat
    } else {
        0
    }
}

/// Kind of the token at position `p`, if there is one.
pub open spec fn kind_at(input: Seq<TokenView>, p: int) -> Option<TokenTypeView> {
    if 0 <= p < input.len() {
        Some(input[p].tt)
    } else {
        None
    }
}

pub open spec fn node(et: ExprView, span: Span) -> ExpressionView {
    ExpressionView { et, span }
}

/// The empty span just after the last token, where the end of the input
/// was met.
pub open spec fn eof_span(input: Seq<TokenView>, file: usize) -> Span {
    if input.len() == 0 {
        Span { file, start: 0, end: 0 }
    } else {
        Span { file, start: input[input.len() - 1].span.end, end: input[input.len() - 1].span.end }
    }
}

/// Where a diagnostic about position `p` points: at the token there, or
/// just after the last token when the input ends before `p`.
pub open spec fn span_at(input: Seq<TokenView>, p: int, file: usize) -> Span {
    if 0 <= p < input.len() {
        input[p].span
    } else {
        eof_span(input, file)
    }
}

/// A fatal diagnostic with the message `message` and one note without a
/// label.
pub open spec fn failing(message: Seq<char>, code: Seq<char>, span: Span) -> ErrorView {
    ErrorView { message, code, severity: Severity::FatalError, labels: seq![None], spans: seq![span] }
}

/// How a diagnostic names what stands at position `p`: the kind of the
/// token there, or the end of the input.
pub open spec fn name_at(input: Seq<TokenView>, p: int) -> Seq<char> {
    if 0 <= p < input.len() {
        input[p].tt.name()
    } else {
        "EOF"@
    }
}

/// What is said where `wanted` was expected at position `p`.
pub open spec fn complaint(wanted: Seq<char>, input: Seq<TokenView>, p: int) -> Seq<char> {
    "expected "@ + wanted + ", got "@ + name_at(input, p)
}

/// The diagnostic for a token at `p` that is not what the grammar asks
/// for there, which is `wanted`.
pub open spec fn unexpected(
    input: Seq<TokenView>,
    p: int,
    file: usize,
    code: Seq<char>,
    wanted: Seq<char>,
) -> Seq<ErrorView> {
    seq![failing(complaint(wanted, input, p), code, span_at(input, p, file))]
}

/// The diagnostic for a bracket opened at `open` and not closed at `p`:
/// `wanted` names the bracket that is missing, and the notes are labelled
/// `here` and `opener`.
pub open spec fn unclosed(
    input: Seq<TokenView>,
    p: int,
    file: usize,
    open: Span,
    wanted: Seq<char>,
    here: Seq<char>,
    opener: Seq<char>,
) -> Seq<ErrorView> {
    seq![
        ErrorView {
            message: complaint(wanted, input, p),
            code: E0012.0@,
            severity: Severity::FatalError,
            labels: seq![Some(here), Some(opener)],
            spans: seq![span_at(input, p, file), open],
        },
    ]
}

/// The diagnostic for a parenthesis opened at `open` and not closed at `p`.
pub open spec fn unclosed_paren(input: Seq<TokenView>, p: int, file: usize, open: Span) -> Seq<
    ErrorView,
> {
    unclosed(
        input,
        p,
        file,
        open,
        "a closing parenthesis"@,
        "expected ) here"@,
        "opening parenthesis was here"@,
    )
}

/// The diagnostic for a brace opened at `open` and not closed at `p`.
pub open spec fn unclosed_brace(input: Seq<TokenView>, p: int, file: usize, open: Span) -> Seq<
    ErrorView,
> {
    unclosed(
        input,
        p,
        file,
        open,
        "a closing '}'"@,
        "expected } here"@,
        "opening '{' was here"@,
    )
}

/// Whether a token of this kind can begin an expression inside brackets,
/// after `break`, or in an argument list.
pub open spec fn has_expression(tt: Option<TokenTypeView>) -> bool {
    match tt {
        Some(TokenTypeView::SLiteral { .. }) => true,
        Some(TokenTypeView::ILiteral { .. }) => true,
        Some(TokenTypeView::FLiteral { .. }) => true,
        Some(TokenTypeView::BLiteral(_)) => true,
        Some(TokenTypeView::Break) => true,
        Some(TokenTypeView::LParen) => true,
        Some(TokenTypeView::LCBrace) => true,
        Some(TokenTypeView::Not) => true,
        Some(TokenTypeView::Minus) => true,
        Some(TokenTypeView::If) => true,
        Some(TokenTypeView::Fn) => true,
        Some(TokenTypeView::Loop) => true,
        Some(TokenTypeView::While) => true,
        Some(TokenTypeView::Let) => true,
        Some(TokenTypeView::Show) => true,
        Some(TokenTypeView::Panic) => true,
        Some(TokenTypeView::Include) => true,
        Some(TokenTypeView::Module) => true,
        Some(TokenTypeView::Ident(_)) => true,
        _ => false,
    }
}

/// The binary operator that an infix token stands for.
pub open spec fn binary_of(tt: TokenTypeView) -> Option<BinaryOp> {
    match tt {
        TokenTypeView::Plus => Some(BinaryOp::Add),
        TokenTypeView::Minus => Some(BinaryOp::Sub),
        TokenTypeView::Star => Some(BinaryOp::Mul),
        TokenTypeView::Slash => Some(BinaryOp::Div),
        TokenTypeView::Exp => Some(BinaryOp::Exp),
        TokenTypeView::Lt => Some(BinaryOp::Lt),
        TokenTypeView::Leq => Some(BinaryOp::Leq),
        TokenTypeView::EqEq => Some(BinaryOp::Eq),
        TokenTypeView::Geq => Some(BinaryOp::Geq),
        TokenTypeView::Gt => Some(BinaryOp::Gt),
        TokenTypeView::Neq => Some(BinaryOp::Neq),
        _ => None,
    }
}

/// The binary operator that a compound assignment token applies.
pub open spec fn compound_of(tt: TokenTypeView) -> Option<BinaryOp> {
    match tt {
        TokenTypeView::StarEq => Some(BinaryOp::Mul),
        TokenTypeView::SlashEq => Some(BinaryOp::Div),
        TokenTypeView::ExpEq => Some(BinaryOp::Exp),
        TokenTypeView::PlusEq => Some(BinaryOp::Add),
        TokenTypeView::MinusEq => Some(BinaryOp::Sub),
        _ => None,
    }
}

/// The prefix operator that a token stands for, with the level at which
/// its operand is read.
pub open spec fn unary_of(tt: TokenTypeView) -> Option<(UnaryOp, u8)> {
    match tt {
        TokenTypeView::Not => Some((UnaryOp::Not, UNARY)),
        TokenTypeView::Minus => Some((UnaryOp::Neg, UNARY)),
        TokenTypeView::Show => Some((UnaryOp::Show, 2u8)),
        TokenTypeView::Panic => Some((UnaryOp::Panic, 2u8)),
        _ => None,
    }
}

/// Whether some diagnostic of the sequence is fatal.
pub open spec fn has_fatal(errors: Seq<ErrorView>) -> bool {
    exists|i: int| 0 <= i < errors.len() && (#[trigger] errors[i]).severity == Severity::FatalError
}

/// Parameter names from position `p`: identifiers, each followed by a
/// comma but possibly the last. Gives the names and the tokens taken.
pub open spec fn names(input: Seq<TokenView>, p: int) -> (Seq<Seq<char>>, nat)
    decreases remaining(input, p),
{
    match kind_at(input, p) {
        Some(TokenTypeView::Ident(name)) => match kind_at(input, p + 1) {
            Some(TokenTypeView::Comma) => {
                let (rest, n) = names(input, p + 2);
                (seq![name] + rest, n + 2)
            },
            _ => (seq![name], 1),
        },
        _ => (Seq::empty(), 0),
    }
}

/// An expression from position `p` whose infix operators all bind tighter
/// than `level` (or as tight, for assignment, which groups to the right).
pub open spec fn parse_expr(
    input: Seq<TokenView>,
    level: u8,
    p: int,
    file: usize,
    loader: Loader,
    budget: nat,
) -> Parsed
    decreases budget, remaining(input, p), 3nat,
{
    if !(0 <= p < input.len()) {
        Err(seq![failing("expected an expression, got EOF"@, E0011.0@, Span { file, start: 0, end: 0 })])
    } else {
        match parse_prefix(input, p, file, loader, budget) {
            Ok((lhs, n)) => match parse_infix(input, level, lhs, p + n, file, loader, budget) {
                Ok((e, m)) => Ok((e, n + m)),
                Err(errors) => Err(errors),
            },
            Err(errors) => Err(errors),
        }
    }
}

/// A primary expression or a prefix form from position `p`.
pub open spec fn parse_prefix(
    input: Seq<TokenView>,
    p: int,
    file: usize,
    loader: Loader,
    budget: nat,
) -> Parsed
    decreases budget, remaining(input, p), 2nat,
{
    if !(0 <= p < input.len()) {
        Err(seq![failing("expected an expression, got EOF"@, E0011.0@, Span { file, start: 0, end: 0 })])
    } else {
        let token = input[p];
        match token.tt {
            TokenTypeView::SLiteral { .. } => Ok(
                (node(ExprView::Literal { src: token.tt }, token.span), 1),
            ),
            TokenTypeView::ILiteral { .. } => Ok(
                (node(ExprView::Literal { src: token.tt }, token.span), 1),
            ),
            TokenTypeView::FLiteral { .. } => Ok(
                (node(ExprView::Literal { src: token.tt }, token.span), 1),
            ),
            TokenTypeView::BLiteral(_) => Ok(
                (node(ExprView::Literal { src: token.tt }, token.span), 1),
            ),
            TokenTypeView::Ident(id) => Ok((node(ExprView::Identifier { id }, token.span), 1)),
            TokenTypeView::Continue => Ok((node(ExprView::Continue, token.span), 1)),
            TokenTypeView::Not => unary_form(input, p, file, loader, budget),
            TokenTypeView::Minus => unary_form(input, p, file, loader, budget),
            TokenTypeView::Show => unary_form(input, p, file, loader, budget),
            TokenTypeView::Panic => unary_form(input, p, file, loader, budget),
            TokenTypeView::Break => break_form(input, p, file, loader, budget),
            TokenTypeView::Loop => loop_form(input, p, file, loader, budget),
            TokenTypeView::LParen => paren_form(input, p, file, loader, budget),
            TokenTypeView::If => if_form(input, p, file, loader, budget),
            TokenTypeView::While => while_form(input, p, file, loader, budget),
            TokenTypeView::LCBrace => block_form(input, p, file, loader, budget),
            TokenTypeView::Module => module_form(input, p, file, loader, budget),
            TokenTypeView::Let => let_form(input, p, file, loader, budget),
            TokenTypeView::Fn => fn_form(input, p, file, loader, budget),
            TokenTypeView::Include => include_form(input, p, file, loader, budget),
            _ => Err(seq![failing("expected an expression, got "@ + token.tt.name(), E0011.0@, token.span)]),
        }
    }
}

/// `!e`, `-e`, `show e`, `panic e`, with the operator at `p`.
pub open spec fn unary_form(
    input: Seq<TokenView>,
    p: int,
    file: usize,
    loader: Loader,
    budget: nat,
) -> Parsed
    decreases budget, remaining(input, p), 1nat,
{
    if !(0 <= p < input.len()) || unary_of(input[p].tt) is None {
        Err(Seq::empty())
    } else {
        let (op, level) = unary_of(input[p].tt)->0;
        match parse_expr(input, level, p + 1, file, loader, budget) {
            Ok((right, n)) => Ok(
                (
                    node(
                        ExprView::Unary { op, right: Box::new(right) },
                        input[p].span.merged(right.span),
                    ),
                    n + 1,
                ),
            ),
            Err(errors) => Err(errors),
        }
    }
}

/// `break` or `break e`, with the keyword at `p`.
pub open spec fn break_form(
    input: Seq<TokenView>,
    p: int,
    file: usize,
    loader: Loader,
    budget: nat,
) -> Parsed
    decreases budget, remaining(input, p), 1nat,
{
    if !(0 <= p < input.len()) {
        Err(Seq::empty())
    } else if has_expression(kind_at(input, p + 1)) {
        match parse_expr(input, BREAK, p + 1, file, loader, budget) {
            Ok((with, n)) => Ok(
                (
                    node(
                        ExprView::Break { with: Some(Box::new(with)) },
                        input[p].span.merged(with.span),
                    ),
                    n + 1,
                ),
            ),
            Err(errors) => Err(errors),
        }
    } else {
        Ok((node(ExprView::Break { with: None }, input[p].span), 1))
    }
}

/// `loop { .. }`, with the keyword at `p`.
pub open spec fn loop_form(
    input: Seq<TokenView>,
    p: int,
    file: usize,
    loader: Loader,
    budget: nat,
) -> Parsed
    decreases budget, remaining(input, p), 1nat,
{
    if !(0 <= p < input.len()) {
        Err(Seq::empty())
    } else if !(kind_at(input, p + 1) is Some && kind_at(input, p + 1)->0 is LCBrace) {
        Err(unexpected(input, p + 1, file, E0012.0@, "'{' after 'loop'"@))
    } else {
        match parse_expr(input, ONE, p + 1, file, loader, budget) {
            Ok((inside, n)) => Ok(
                (
                    node(
                        ExprView::Loop { inside: Box::new(inside) },
                        input[p].span.merged(inside.span),
                    ),
                    n + 1,
                ),
            ),
            Err(errors) => Err(errors),
        }
    }
}

/// `( e )`, with the opening parenthesis at `p`. The result is `e` itself.
pub open spec fn paren_form(
    input: Seq<TokenView>,
    p: int,
    file: usize,
    loader: Loader,
    budget: nat,
) -> Parsed
    decreases budget, remaining(input, p), 1nat,
{
    if !(0 <= p < input.len()) {
        Err(Seq::empty())
    } else {
        match parse_expr(input, 0, p + 1, file, loader, budget) {
            Ok((inner, n)) => if kind_at(input, p + 1 + n) is Some && kind_at(
                input,
                p + 1 + n,
            )->0 is RParen {
                Ok((inner, n + 2))
            } else {
                Err(unclosed_paren(input, p + 1 + n, file, input[p].span))
            },
            Err(errors) => Err(errors),
        }
    }
}

/// A block that must open at `q`: the diagnostic when it does not, which
/// names `wanted`, and the block read at level `ONE` when it does.
pub open spec fn braced(
    input: Seq<TokenView>,
    q: int,
    file: usize,
    loader: Loader,
    budget: nat,
    wanted: Seq<char>,
) -> Parsed
    decreases budget, remaining(input, q), 4nat,
{
    if !(kind_at(input, q) is Some && kind_at(input, q)->0 is LCBrace) {
        Err(unexpected(input, q, file, E0012.0@, wanted))
    } else {
        parse_expr(input, ONE, q, file, loader, budget)
    }
}

/// What may follow the block of an `if` at position `r`: nothing, or
/// `else` with a block or with another `if`.
pub open spec fn else_part(
    input: Seq<TokenView>,
    r: int,
    file: usize,
    loader: Loader,
    budget: nat,
) -> Result<(Option<Box<ExpressionView>>, nat), Seq<ErrorView>>
    decreases budget, remaining(input, r), 5nat,
{
    if kind_at(input, r) is Some && kind_at(input, r)->0 is Else {
        let other = if kind_at(input, r + 1) is Some && kind_at(input, r + 1)->0 is If {
            parse_expr(input, ONE, r + 1, file, loader, budget)
        } else {
            braced(input, r + 1, file, loader, budget, "'{' or 'if' after 'else'"@)
        };
        match other {
            Ok((e, n)) => Ok((Some(Box::new(e)), n + 1)),
            Err(errors) => Err(errors),
        }
    } else {
        Ok((None, 0))
    }
}

/// `if c { a }`, optionally followed by `else { b }` or `else if ..`, with
/// the keyword at `p`.
pub open spec fn if_form(
    input: Seq<TokenView>,
    p: int,
    file: usize,
    loader: Loader,
    budget: nat,
) -> Parsed
    decreases budget, remaining(input, p), 1nat,
{
    if !(0 <= p < input.len()) {
        Err(Seq::empty())
    } else {
        match parse_expr(input, 0, p + 1, file, loader, budget) {
            Ok((condition, n1)) => match braced(
                input,
                p + 1 + n1,
                file,
                loader,
                budget,
                "'{' after if condition"@,
            ) {
                Ok((then, n2)) => match else_part(
                    input,
                    p + 1 + n1 + n2,
                    file,
                    loader,
                    budget,
                ) {
                    Ok((else_, n3)) => Ok(
                        (
                            node(
                                ExprView::If {
                                    condition: Box::new(condition),
                                    then: Box::new(then),
                                    else_,
                                },
                                input[p].span.merged(then.span),
                            ),
                            n1 + n2 + n3 + 1,
                        ),
                    ),
                    Err(errors) => Err(errors),
                },
                Err(errors) => Err(errors),
            },
            Err(errors) => Err(errors),
        }
    }
}

/// `while c { a }`, with the keyword at `p`.
pub open spec fn while_form(
    input: Seq<TokenView>,
    p: int,
    file: usize,
    loader: Loader,
    budget: nat,
) -> Parsed
    decreases budget, remaining(input, p), 1nat,
{
    if !(0 <= p < input.len()) {
        Err(Seq::empty())
    } else {
        match parse_expr(input, 0, p + 1, file, loader, budget) {
            Ok((condition, n1)) => match braced(
                input,
                p + 1 + n1,
                file,
                loader,
                budget,
                "'{' after while condition"@,
            ) {
                Ok((body, n2)) => Ok(
                    (
                        node(
                            ExprView::While {
                                condition: Box::new(condition),
                                body: Box::new(body),
                            },
                            input[p].span.merged(body.span),
                        ),
                        n1 + n2 + 1,
                    ),
                ),
                Err(errors) => Err(errors),
            },
            Err(errors) => Err(errors),
        }
    }
}

/// What stands between an opening brace and its closing brace, read from
/// position `q`: nothing, or one expression at level zero.
pub open spec fn inside(
    input: Seq<TokenView>,
    q: int,
    file: usize,
    loader: Loader,
    budget: nat,
) -> Result<(Option<Box<ExpressionView>>, nat), Seq<ErrorView>>
    decreases budget, remaining(input, q), 4nat,
{
    if has_expression(kind_at(input, q)) {
        match parse_expr(input, 0, q, file, loader, budget) {
            Ok((e, n)) => Ok((Some(Box::new(e)), n)),
            Err(errors) => Err(errors),
        }
    } else {
        Ok((None, 0))
    }
}

/// `{ }` or `{ e }`, with the opening brace at `p`. The span of the node is
/// that of the closing brace.
pub open spec fn block_form(
    input: Seq<TokenView>,
    p: int,
    file: usize,
    loader: Loader,
    budget: nat,
) -> Parsed
    decreases budget, remaining(input, p), 1nat,
{
    if !(0 <= p < input.len()) {
        Err(Seq::empty())
    } else {
        match inside(input, p + 1, file, loader, budget) {
            Ok((body, n)) => {
                let q = p + 1 + n;
                if kind_at(input, q) is Some && kind_at(input, q)->0 is RCBrace {
                    Ok((node(ExprView::Block(body), input[q].span), n + 2))
                } else {
                    Err(unclosed_brace(input, q, file, input[p].span))
                }
            },
            Err(errors) => Err(errors),
        }
    }
}

/// `module name { }` or `module name { e }`, with the keyword at `p`.
pub open spec fn module_form(
    input: Seq<TokenView>,
    p: int,
    file: usize,
    loader: Loader,
    budget: nat,
) -> Parsed
    decreases budget, remaining(input, p), 1nat,
{
    if !(0 <= p < input.len()) {
        Err(Seq::empty())
    } else {
        match kind_at(input, p + 1) {
            Some(TokenTypeView::Ident(name)) => if !(kind_at(input, p + 2) is Some && kind_at(
                input,
                p + 2,
            )->0 is LCBrace) {
                Err(unexpected(input, p + 2, file, E0012.0@, "'{' after module name"@))
            } else {
                match inside(input, p + 3, file, loader, budget) {
                    Ok((body, n)) => {
                        let q = p + 3 + n;
                        if kind_at(input, q) is Some && kind_at(input, q)->0 is RCBrace {
                            Ok((node(ExprView::Module(body, name), input[q].span), n + 4))
                        } else {
                            Err(unclosed_brace(input, q, file, input[p].span))
                        }
                    },
                    Err(errors) => Err(errors),
                }
            },
            _ => Err(unexpected(input, p + 1, file, E0012.0@, "a module name"@)),
        }
    }
}

/// `let name` or `let name = e`, with the keyword at `p`.
pub open spec fn let_form(
    input: Seq<TokenView>,
    p: int,
    file: usize,
    loader: Loader,
    budget: nat,
) -> Parsed
    decreases budget, remaining(input, p), 1nat,
{
    if !(0 <= p < input.len()) {
        Err(Seq::empty())
    } else {
        match kind_at(input, p + 1) {
            Some(TokenTypeView::Ident(name)) => if kind_at(input, p + 2) is Some && kind_at(
                input,
                p + 2,
            )->0 is Eq {
                match parse_expr(input, ASSIGN, p + 3, file, loader, budget) {
                    Ok((value, n)) => Ok(
                        (
                            node(
                                ExprView::Let { name, value: Some(Box::new(value)) },
                                input[p].span.merged(value.span),
                            ),
                            n + 3,
                        ),
                    ),
                    Err(errors) => Err(errors),
                }
            } else {
                Ok(
                    (
                        node(
                            ExprView::Let { name, value: None },
                            input[p].span.merged(input[p + 1].span),
                        ),
                        2,
                    ),
                )
            },
            _ => Err(unexpected(input, p + 1, file, E0012.0@, "a name"@)),
        }
    }
}

/// `fn name(a, b) { e }`, with the keyword at `p`.
pub open spec fn fn_form(
    input: Seq<TokenView>,
    p: int,
    file: usize,
    loader: Loader,
    budget: nat,
) -> Parsed
    decreases budget, remaining(input, p), 1nat,
{
    if !(0 <= p < input.len()) {
        Err(Seq::empty())
    } else {
        match kind_at(input, p + 1) {
            Some(TokenTypeView::Ident(name)) => if !(kind_at(input, p + 2) is Some && kind_at(
                input,
                p + 2,
            )->0 is LParen) {
                Err(unexpected(input, p + 2, file, E0012.0@, "'(' after function name"@))
            } else {
                let (args, n) = names(input, p + 3);
                let q = p + 3 + n;
                if !(kind_at(input, q) is Some && kind_at(input, q)->0 is RParen) {
                    Err(unexpected(
                        input,
                        q,
                        file,
                        E0012.0@,
                        "')' after function argument list"@,
                    ))
                } else {
                    match braced(
                        input,
                        q + 1,
                        file,
                        loader,
                        budget,
                        "'{' after function arguments"@,
                    ) {
                        Ok((body, m)) => Ok(
                            (
                                node(
                                    ExprView::Fn { name, body: Box::new(body), args },
                                    input[p].span.merged(body.span),
                                ),
                                n + m + 4,
                            ),
                        ),
                        Err(errors) => Err(errors),
                    }
                }
            },
            _ => Err(unexpected(input, p + 1, file, E0013.0@, "a function name"@)),
        }
    }
}

/// `include 'path'`, with the keyword at `p`: the expression that the
/// source loaded from that path parses to. The parse fails when no source
/// was loaded from the path, when the source is too large for spans, when
/// includes nest deeper than there are sources, and when lexing or parsing
/// the source raises any diagnostic; those diagnostics come first, then a
/// note at the include.
pub open spec fn include_form(
    input: Seq<TokenView>,
    p: int,
    file: usize,
    loader: Loader,
    budget: nat,
) -> Parsed
    decreases budget, remaining(input, p), 1nat,
{
    if !(0 <= p < input.len()) {
        Err(Seq::empty())
    } else {
        match kind_at(input, p + 1) {
            Some(TokenTypeView::SLiteral { value, .. }) => {
                let at = input[p + 1].span.merged(input[p].span);
                match loader.position_of(value) {
                    Some(index) => {
                        let source = loader.sources()[index];
                        if budget == 0 || byte_len(source.text()) > u32::MAX {
                            Err(seq![failing("failed to load "@ + value, E0014.0@, at)])
                        } else {
                            let lx = lexed(source.text(), source.index);
                            let note = ErrorView {
                                message: "failed to load "@ + value
                                    + " due to compilation errors"@,
                                code: E0014.0@,
                                severity: Severity::Info,
                                labels: seq![None],
                                spans: seq![at],
                            };
                            if has_fatal(lx.errors) {
                                Err(lx.errors.push(note))
                            } else {
                                match parse_expr(
                                    lx.tokens,
                                    0,
                                    0,
                                    source.index,
                                    loader,
                                    (budget - 1) as nat,
                                ) {
                                    Ok((e, _)) => if lx.errors.len() > 0 {
                                        Err(lx.errors.push(note))
                                    } else {
                                        Ok((e, 2))
                                    },
                                    Err(errors) => Err((lx.errors + errors).push(note)),
                                }
                            }
                        }
                    },
                    None => Err(seq![failing("failed to load "@ + value, E0014.0@, at)]),
                }
            },
            _ => Err(unexpected(input, p + 1, file, E0012.0@, "a path after 'include'"@)),
        }
    }
}

/// Arguments of a call from position `p`: expressions at level zero, each
/// followed by a comma but the last. Gives them with the tokens taken. A
/// comma that no argument follows is refused.
pub open spec fn arguments(
    input: Seq<TokenView>,
    p: int,
    file: usize,
    loader: Loader,
    budget: nat,
) -> Result<(Seq<ExpressionView>, nat), Seq<ErrorView>>
    decreases budget, remaining(input, p), 4nat,
{
    if has_expression(kind_at(input, p)) {
        match parse_expr(input, 0, p, file, loader, budget) {
            Ok((e, n)) => if kind_at(input, p + n) is Some && kind_at(input, p + n)->0 is Comma {
                if !has_expression(kind_at(input, p + n + 1)) {
                    Err(unexpected(input, p + n + 1, file, E0012.0@, "an argument after ','"@))
                } else {
                    match arguments(input, p + n + 1, file, loader, budget) {
                        Ok((rest, m)) => Ok((seq![e] + rest, n + m + 1)),
                        Err(errors) => Err(errors),
                    }
                }
            } else {
                Ok((seq![e], n))
            },
            Err(errors) => Err(errors),
        }
    } else {
        Ok((Seq::empty(), 0))
    }
}

/// Whether the operator ahead, of binding power `next`, continues an
/// expression read at `level`.
pub open spec fn continues(level: u8, next: u8) -> bool {
    (level == ASSIGN && level <= next) || level < next
}

/// One infix or postfix step: with `lhs` read and the operator at `p`, the
/// expression that the operator builds and the tokens taken, operator
/// included.
pub open spec fn infix_step(
    input: Seq<TokenView>,
    lhs: ExpressionView,
    p: int,
    file: usize,
    loader: Loader,
    budget: nat,
) -> Parsed
    decreases budget, remaining(input, p), 1nat,
{
    if !(0 <= p < input.len()) {
        Err(Seq::empty())
    } else {
        let token = input[p];
        if binary_of(token.tt) is Some {
            match parse_expr(input, precedence(Some(token.tt)), p + 1, file, loader, budget) {
                Ok((rhs, n)) => Ok(
                    (
                        node(
                            ExprView::Binary {
                                op: binary_of(token.tt)->0,
                                left: Box::new(lhs),
                                right: Box::new(rhs),
                            },
                            lhs.span.merged(rhs.span),
                        ),
                        n + 1,
                    ),
                ),
                Err(errors) => Err(errors),
            }
        } else if compound_of(token.tt) is Some {
            match parse_expr(input, ASSIGN, p + 1, file, loader, budget) {
                Ok((rhs, n)) => Ok(
                    (
                        node(
                            ExprView::AssignOp {
                                left: Box::new(lhs),
                                right: Box::new(rhs),
                                op: compound_of(token.tt)->0,
                            },
                            lhs.span.merged(rhs.span),
                        ),
                        n + 1,
                    ),
                ),
                Err(errors) => Err(errors),
            }
        } else {
            match token.tt {
                TokenTypeView::Eq => match parse_expr(input, ASSIGN, p + 1, file, loader, budget) {
                    Ok((rhs, n)) => Ok(
                        (
                            node(
                                ExprView::Assign { left: Box::new(lhs), right: Box::new(rhs) },
                                lhs.span.merged(rhs.span),
                            ),
                            n + 1,
                        ),
                    ),
                    Err(errors) => Err(errors),
                },
                TokenTypeView::Semicolon => match parse_expr(
                    input,
                    SEMICOLON,
                    p + 1,
                    file,
                    loader,
                    budget,
                ) {
                    Ok((rhs, n)) => Ok(
                        (
                            node(
                                ExprView::Semicolon { left: Box::new(lhs), right: Box::new(rhs) },
                                lhs.span.merged(rhs.span),
                            ),
                            n + 1,
                        ),
                    ),
                    Err(errors) => Err(errors),
                },
                TokenTypeView::Dot => match kind_at(input, p + 1) {
                    Some(TokenTypeView::Ident(name)) => Ok(
                        (
                            node(
                                ExprView::Property { object: Box::new(lhs), name },
                                lhs.span.merged(input[p + 1].span),
                            ),
                            2,
                        ),
                    ),
                    _ => Err(unexpected(input, p + 1, file, E0012.0@, "an identifier after dot"@)),
                },
                TokenTypeView::LParen => match arguments(input, p + 1, file, loader, budget) {
                    Ok((args, n)) => {
                        let q = p + 1 + n;
                        if kind_at(input, q) is Some && kind_at(input, q)->0 is RParen {
                            Ok(
                                (
                                    node(
                                        ExprView::Call { callee: Box::new(lhs), args },
                                        token.span.merged(input[q - 1].span),
                                    ),
                                    n + 2,
                                ),
                            )
                        } else {
                            Err(unexpected(input, q, file, E0012.0@, "')' after arguments"@))
                        }
                    },
                    Err(errors) => Err(errors),
                },
                _ => Err(Seq::empty()),
            }
        }
    }
}

/// The infix and postfix operators that follow `lhs` from position `p`,
/// applied from left to right for as long as they continue the expression.
pub open spec fn parse_infix(
    input: Seq<TokenView>,
    level: u8,
    lhs: ExpressionView,
    p: int,
    file: usize,
    loader: Loader,
    budget: nat,
) -> Parsed
    decreases budget, remaining(input, p), 2nat,
{
    if continues(level, precedence(kind_at(input, p))) {
        match infix_step(input, lhs, p, file, loader, budget) {
            Ok((next, n)) => if n == 0 {
                Err(Seq::empty())
            } else {
                match parse_infix(input, level, next, p + n, file, loader, budget) {
                    Ok((e, m)) => Ok((e, n + m)),
                    Err(errors) => Err(errors),
                }
            },
            Err(errors) => Err(errors),
        }
    } else {
        Ok((lhs, 0))
    }
}

/// The expression that the whole input parses to, or the diagnostics that
/// end the parse. Tokens after the expression are not read.
pub open spec fn parsed(input: Seq<TokenView>, file: usize, loader: Loader) -> Result<
    ExpressionView,
    Seq<ErrorView>,
> {
    match parse_expr(input, 0, 0, file, loader, loader.sources().len()) {
        Ok((e, _)) => Ok(e),
        Err(errors) => Err(errors),
    }
}

} // verus!
