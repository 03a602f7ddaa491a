//! The parser: a Pratt parser over the token stream.

pub mod precedence;
pub mod model;

use vstd::prelude::*;
use vstd::string::StringExecFns;
use crate::ast::{
    BinaryOp, Expr, Expression, UnaryOp, expression_view, optional_view, spans_hold, spans_in,
    string_views,
};
use crate::errors::{
    Error, ErrorView, Severity, error_views, lemma_views_concat, lemma_views_push, E0011, E0012,
    E0013, E0014,
};
use crate::lexer::lex;
use crate::lexer::model::lexed;
use crate::loader::{Loader, Span};
use crate::parser::model::{
    Parsed, arguments, binary_of, block_form, braced, break_form, compound_of, continues,
    else_part, complaint, fn_form, has_expression, has_fatal, if_form, include_form, infix_step, inside, kind_at,
    let_form, loop_form, module_form, name_at, names, paren_form, parse_expr, parse_infix, parse_prefix,
    parsed, remaining, span_at, unary_form, unary_of, unclosed, unexpected, while_form,
};
use crate::parser::precedence::{get_precedence, kind_of, precedence, ASSIGN, BREAK, ONE, SEMICOLON, UNARY};
use crate::text::{lemma_byte_len_is_encoding_len};
use crate::tokens::{Token, TokenType, TokenView, token_views};

verus! {

/// The span of every token names an ordered range between character
/// boundaries of a source of `loader`.
pub open spec fn tokens_hold(input: Seq<TokenView>, loader: Loader) -> bool {
    forall|i: int| 0 <= i < input.len() ==> loader.holds((#[trigger] input[i]).span)
}

/// The result `r` of reading at position `p` is the one that the model
/// `want` gives.
pub open spec fn agrees(
    r: Result<(Box<Expression>, usize), Vec<Error>>,
    want: Parsed,
    p: int,
    len: int,
) -> bool {
    match want {
        Ok((e, n)) => r matches Ok((b, m)) && expression_view(*b) == e && m == n && p + n <= len,
        Err(errors) => r matches Err(v) && error_views(v@) == errors,
    }
}

/// Every token lies in the file `file`, and none of them is `include`.
pub open spec fn tokens_in(input: Seq<TokenView>, file: usize) -> bool {
    forall|i: int|
        0 <= i < input.len() ==> (#[trigger] input[i]).span.file == file && !(input[i].tt
            is Include)
}

/// When every token lies in one file and nothing is included, every node
/// of the expression read lies in that file.
pub open spec fn homed(
    r: Result<(Box<Expression>, usize), Vec<Error>>,
    input: Seq<TokenView>,
    file: usize,
) -> bool {
    tokens_in(input, file) ==> (r matches Ok((b, _)) ==> spans_in(expression_view(*b), file))
}

/// When the spans of the tokens hold, so do those of the expression read.
pub open spec fn sound(
    r: Result<(Box<Expression>, usize), Vec<Error>>,
    input: Seq<TokenView>,
    loader: Loader,
) -> bool {
    tokens_hold(input, loader) ==> (r matches Ok((b, _)) ==> spans_hold(
        expression_view(*b),
        loader,
    ))
}

fn peek<'a>(input: &'a [Token], p: usize) -> (t: Option<&'a Token>)
    ensures
        kind_of(t) == kind_at(token_views(input@), p as int),
        t matches Some(token) ==> p < input@.len() && *token == input@[p as int],
        t is None ==> p >= input@.len(),
        input@.len() <= usize::MAX,
{
    if p < input.len() {
        Some(&input[p])
    } else {
        None
    }
}

fn locate(input: &[Token], p: usize, file: usize) -> (span: Span)
    ensures
        span == span_at(token_views(input@), p as int, file),
{
    if p < input.len() {
        input[p].span
    } else if input.len() == 0 {
        Span { file, start: 0, end: 0 }
    } else {
        let end = input[input.len() - 1].span.end;
        Span { file, start: end, end }
    }
}

fn describe(input: &[Token], p: usize) -> (name: &'static str)
    ensures
        name@ == name_at(token_views(input@), p as int),
{
    if p < input.len() {
        input[p].tt.name_for_errors()
    } else {
        "EOF"
    }
}

fn complain(wanted: &str, input: &[Token], p: usize) -> (message: String)
    ensures
        message@ == complaint(wanted@, token_views(input@), p as int),
{
    let mut message = String::from_str("expected ");
    message.append(wanted);
    message.append(", got ");
    message.append(describe(input, p));
    message
}

fn single(error: Error) -> (errors: Vec<Error>)
    ensures
        error_views(errors@) == seq![error@],
{
    let mut errors: Vec<Error> = Vec::new();
    errors.push(error);
    assert(error_views(errors@) =~= seq![error@]);
    errors
}

fn mismatch(input: &[Token], p: usize, file: usize, code: &'static str, wanted: &str) -> (errors:
    Vec<Error>)
    ensures
        error_views(errors@) == unexpected(token_views(input@), p as int, file, code@, wanted@),
{
    let span = locate(input, p, file);
    single(Error::with_note(complain(wanted, input, p), code, Severity::FatalError, None, span))
}

fn dangling(
    input: &[Token],
    p: usize,
    file: usize,
    open: Span,
    wanted: &str,
    here: &str,
    opener: &str,
) -> (errors: Vec<Error>)
    ensures
        error_views(errors@) == unclosed(
            token_views(input@),
            p as int,
            file,
            open,
            wanted@,
            here@,
            opener@,
        ),
{
    let span = locate(input, p, file);
    single(
        Error::with_notes(
            complain(wanted, input, p),
            E0012.0,
            Severity::FatalError,
            (Some(here), span),
            (Some(opener), open),
        ),
    )
}

fn begins_expression(t: Option<&Token>) -> (r: bool)
    ensures
        r == has_expression(kind_of(t)),
{
    match t {
        Some(token) => match &token.tt {
            TokenType::SLiteral { .. } => true,
            TokenType::ILiteral { .. } => true,
            TokenType::FLiteral { .. } => true,
            TokenType::BLiteral(_) => true,
            TokenType::Break => true,
            TokenType::LParen => true,
            TokenType::LCBrace => true,
            TokenType::Not => true,
            TokenType::Minus => true,
            TokenType::If => true,
            TokenType::Fn => true,
            TokenType::Loop => true,
            TokenType::While => true,
            TokenType::Let => true,
            TokenType::Show => true,
            TokenType::Panic => true,
            TokenType::Include => true,
            TokenType::Module => true,
            TokenType::Ident(_) => true,
            _ => false,
        },
        None => false,
    }
}

fn binary_operator(tt: &TokenType) -> (op: Option<BinaryOp>)
    ensures
        op == binary_of(tt@),
{
    match tt {
        TokenType::Plus => Some(BinaryOp::Add),
        TokenType::Minus => Some(BinaryOp::Sub),
        TokenType::Star => Some(BinaryOp::Mul),
        TokenType::Slash => Some(BinaryOp::Div),
        TokenType::Exp => Some(BinaryOp::Exp),
        TokenType::Lt => Some(BinaryOp::Lt),
        TokenType::Leq => Some(BinaryOp::Leq),
        TokenType::EqEq => Some(BinaryOp::Eq),
        TokenType::Geq => Some(BinaryOp::Geq),
        TokenType::Gt => Some(BinaryOp::Gt),
        TokenType::Neq => Some(BinaryOp::Neq),
        _ => None,
    }
}

fn compound_operator(tt: &TokenType) -> (op: Option<BinaryOp>)
    ensures
        op == compound_of(tt@),
{
    match tt {
        TokenType::StarEq => Some(BinaryOp::Mul),
        TokenType::SlashEq => Some(BinaryOp::Div),
        TokenType::ExpEq => Some(BinaryOp::Exp),
        TokenType::PlusEq => Some(BinaryOp::Add),
        TokenType::MinusEq => Some(BinaryOp::Sub),
        _ => None,
    }
}

fn unary_operator(tt: &TokenType) -> (op: Option<(UnaryOp, u8)>)
    ensures
        op == unary_of(tt@),
{
    match tt {
        TokenType::Not => Some((UnaryOp::Not, UNARY)),
        TokenType::Minus => Some((UnaryOp::Neg, UNARY)),
        TokenType::Show => Some((UnaryOp::Show, 2u8)),
        TokenType::Panic => Some((UnaryOp::Panic, 2u8)),
        _ => None,
    }
}

fn is_kind(t: Option<&Token>, kind: &TokenType) -> (r: bool)
    requires
        !kind@.is_literal() && !(kind@ is Ident),
    ensures
        r == (kind_of(t) == Some(kind@)),
{
    match t {
        Some(token) => same_kind(&token.tt, kind),
        None => false,
    }
}

fn any_fatal(errors: &Vec<Error>) -> (r: bool)
    ensures
        r == has_fatal(error_views(errors@)),
{
    let mut i: usize = 0;
    while i < errors.len()
        invariant
            0 <= i <= errors@.len(),
            forall|k: int| 0 <= k < i ==> errors@[k].severity != Severity::FatalError,
        decreases errors@.len() - i,
    {
        if errors[i].fatal() {
            assert(error_views(errors@)[i as int].severity == Severity::FatalError);
            return true;
        }
        i = i + 1;
    }
    assert forall|k: int| 0 <= k < error_views(errors@).len() implies (#[trigger] error_views(
        errors@,
    )[k]).severity != Severity::FatalError by {
        assert(errors@[k].severity != Severity::FatalError);
    }
    false
}

} // verus!

verus! {

/// Whether `a` is of the kind `kind`, a kind that carries no text.
fn same_kind(a: &TokenType, kind: &TokenType) -> (r: bool)
    requires
        !kind@.is_literal() && !(kind@ is Ident),
    ensures
        r == (a@ == kind@),
{
    match (a, kind) {
        (TokenType::Let, TokenType::Let) => true,
        (TokenType::Eq, TokenType::Eq) => true,
        (TokenType::LParen, TokenType::LParen) => true,
        (TokenType::RParen, TokenType::RParen) => true,
        (TokenType::LBracket, TokenType::LBracket) => true,
        (TokenType::RBracket, TokenType::RBracket) => true,
        (TokenType::Lt, TokenType::Lt) => true,
        (TokenType::Gt, TokenType::Gt) => true,
        (TokenType::Leq, TokenType::Leq) => true,
        (TokenType::Geq, TokenType::Geq) => true,
        (TokenType::EqEq, TokenType::EqEq) => true,
        (TokenType::LCBrace, TokenType::LCBrace) => true,
        (TokenType::RCBrace, TokenType::RCBrace) => true,
        (TokenType::If, TokenType::If) => true,
        (TokenType::Neq, TokenType::Neq) => true,
        (TokenType::Minus, TokenType::Minus) => true,
        (TokenType::Plus, TokenType::Plus) => true,
        (TokenType::Star, TokenType::Star) => true,
        (TokenType::Slash, TokenType::Slash) => true,
        (TokenType::Ret, TokenType::Ret) => true,
        (TokenType::Return, TokenType::Return) => true,
        (TokenType::Exp, TokenType::Exp) => true,
        (TokenType::Semicolon, TokenType::Semicolon) => true,
        (TokenType::Dot, TokenType::Dot) => true,
        (TokenType::Not, TokenType::Not) => true,
        (TokenType::Colon, TokenType::Colon) => true,
        (TokenType::Fn, TokenType::Fn) => true,
        (TokenType::Else, TokenType::Else) => true,
        (TokenType::Match, TokenType::Match) => true,
        (TokenType::Type, TokenType::Type) => true,
        (TokenType::Const, TokenType::Const) => true,
        (TokenType::Continue, TokenType::Continue) => true,
        (TokenType::Break, TokenType::Break) => true,
        (TokenType::MinusEq, TokenType::MinusEq) => true,
        (TokenType::PlusEq, TokenType::PlusEq) => true,
        (TokenType::StarEq, TokenType::StarEq) => true,
        (TokenType::SlashEq, TokenType::SlashEq) => true,
        (TokenType::ExpEq, TokenType::ExpEq) => true,
        (TokenType::Comma, TokenType::Comma) => true,
        (TokenType::Loop, TokenType::Loop) => true,
        (TokenType::While, TokenType::While) => true,
        (TokenType::Use, TokenType::Use) => true,
        (TokenType::As, TokenType::As) => true,
        (TokenType::Mut, TokenType::Mut) => true,
        (TokenType::Show, TokenType::Show) => true,
        (TokenType::Panic, TokenType::Panic) => true,
        (TokenType::Module, TokenType::Module) => true,
        (TokenType::Include, TokenType::Include) => true,
        (TokenType::Enum, TokenType::Enum) => true,
        (TokenType::Struct, TokenType::Struct) => true,
        (TokenType::Compound, TokenType::Compound) => true,
        _ => false,
    }
}

} // verus!

verus! {

/// The models of a sequence of owned expressions, in order.
pub open spec fn boxed_views(items: Seq<Box<Expression>>) -> Seq<crate::ast::ExpressionView> {
    Seq::new(items.len(), |i: int| expression_view(*items[i]))
}

/// A result with `k` more tokens counted as taken.
pub open spec fn shifted(want: Parsed, k: nat) -> Parsed {
    match want {
        Ok((e, n)) => Ok((e, n + k)),
        Err(errors) => Err(errors),
    }
}

fn goes_on(input: &[Token], level: u8, q: usize) -> (r: bool)
    ensures
        r == continues(level, precedence(kind_at(token_views(input@), q as int))),
        input@.len() <= usize::MAX,
{
    let next = get_precedence(&peek(input, q));
    (level == ASSIGN && level <= next) || level < next
}

fn build(et: Expr, span: Span) -> (b: Box<Expression>)
    ensures
        *b == (Expression { et, span }),
{
    Box::new(Expression { et, span })
}

fn parse_impl(
    input: &[Token],
    level: u8,
    p: usize,
    file: usize,
    loader: &Loader,
    budget: usize,
) -> (r: Result<(Box<Expression>, usize), Vec<Error>>)
    requires
        loader.wf(),
    ensures
        agrees(
            r,
            parse_expr(token_views(input@), level, p as int, file, *loader, budget as nat),
            p as int,
            input@.len() as int,
        ),
        sound(r, token_views(input@), *loader),
        homed(r, token_views(input@), file),
    decreases budget, remaining(token_views(input@), p as int), 3nat,
{
    let ghost v = token_views(input@);
    if p >= input.len() {
        return Err(
            single(
                Error::with_note(
                    String::from_str("expected an expression, got EOF"),
                    E0011.0,
                    Severity::FatalError,
                    None,
                    Span { file, start: 0, end: 0 },
                ),
            ),
        );
    }
    let (first, n) = match parse_prefix_exec(input, p, file, loader, budget) {
        Ok(read) => read,
        Err(errors) => {
            return Err(errors);
        },
    };
    let ghost start = expression_view(*first);
    let mut lhs = first;
    let mut q = p + n;
    while goes_on(input, level, q)
        invariant
            loader.wf(),
            v == token_views(input@),
            p < input@.len(),
            p + n <= q <= input@.len(),
            parse_prefix(v, p as int, file, *loader, budget as nat) == Ok::<
                (crate::ast::ExpressionView, nat),
                Seq<ErrorView>,
            >((start, n as nat)),
            parse_infix(v, level, start, p + n, file, *loader, budget as nat) == shifted(
                parse_infix(v, level, expression_view(*lhs), q as int, file, *loader, budget as nat),
                (q - (p + n)) as nat,
            ),
            tokens_hold(v, *loader) ==> spans_hold(expression_view(*lhs), *loader),
            tokens_in(v, file) ==> spans_in(expression_view(*lhs), file),
        decreases input@.len() - q,
    {
        let ghost current = expression_view(*lhs);
        let ghost step = infix_step(v, current, q as int, file, *loader, budget as nat);
        let ghost rest = parse_infix(v, level, current, q as int, file, *loader, budget as nat);
        match infix_step_exec(input, lhs, q, file, loader, budget) {
            Ok((next, m)) => {
                assert(step is Ok);
                assert(rest == shifted(
                    parse_infix(
                        v,
                        level,
                        expression_view(*next),
                        q + m,
                        file,
                        *loader,
                        budget as nat,
                    ),
                    m as nat,
                ));
                lhs = next;
                q = q + m;
            },
            Err(errors) => {
                assert(step is Err);
                assert(rest == Err::<(crate::ast::ExpressionView, nat), _>(error_views(errors@)));
                return Err(errors);
            },
        }
    }
    Ok((lhs, q - p))
}

fn parse_prefix_exec(
    input: &[Token],
    p: usize,
    file: usize,
    loader: &Loader,
    budget: usize,
) -> (r: Result<(Box<Expression>, usize), Vec<Error>>)
    requires
        loader.wf(),
        p < input@.len(),
    ensures
        agrees(
            r,
            parse_prefix(token_views(input@), p as int, file, *loader, budget as nat),
            p as int,
            input@.len() as int,
        ),
        sound(r, token_views(input@), *loader),
        homed(r, token_views(input@), file),
    decreases budget, remaining(token_views(input@), p as int), 2nat,
{
    let token = &input[p];
    match &token.tt {
        TokenType::SLiteral { .. } | TokenType::ILiteral { .. } | TokenType::FLiteral { .. }
        | TokenType::BLiteral(_) => Ok(
            (build(Expr::Literal { src: token.tt.clone() }, token.span), 1),
        ),
        TokenType::Ident(id) => Ok((build(Expr::Identifier { id: id.clone() }, token.span), 1)),
        TokenType::Continue => Ok((build(Expr::Continue, token.span), 1)),
        TokenType::Not | TokenType::Minus | TokenType::Show | TokenType::Panic => unary_exec(
            input,
            p,
            file,
            loader,
            budget,
        ),
        TokenType::Break => break_exec(input, p, file, loader, budget),
        TokenType::Loop => loop_exec(input, p, file, loader, budget),
        TokenType::LParen => paren_exec(input, p, file, loader, budget),
        TokenType::If => if_exec(input, p, file, loader, budget),
        TokenType::While => while_exec(input, p, file, loader, budget),
        TokenType::LCBrace => block_exec(input, p, file, loader, budget),
        TokenType::Module => module_exec(input, p, file, loader, budget),
        TokenType::Let => let_exec(input, p, file, loader, budget),
        TokenType::Fn => fn_exec(input, p, file, loader, budget),
        TokenType::Include => include_exec(input, p, file, loader, budget),
        _ => {
            let mut message = String::from_str("expected an expression, got ");
            message.append(token.tt.name_for_errors());
            Err(
                single(
                    Error::with_note(message, E0011.0, Severity::FatalError, None, token.span),
                ),
            )
        },
    }
}

fn unary_exec(input: &[Token], p: usize, file: usize, loader: &Loader, budget: usize) -> (r:
    Result<(Box<Expression>, usize), Vec<Error>>)
    requires
        loader.wf(),
        p < input@.len(),
        unary_of(input@[p as int].tt@) is Some,
    ensures
        agrees(
            r,
            unary_form(token_views(input@), p as int, file, *loader, budget as nat),
            p as int,
            input@.len() as int,
        ),
        sound(r, token_views(input@), *loader),
        homed(r, token_views(input@), file),
    decreases budget, remaining(token_views(input@), p as int), 1nat,
{
    let token = &input[p];
    match unary_operator(&token.tt) {
        Some((op, level)) => match parse_impl(input, level, p + 1, file, loader, budget) {
            Ok((right, n)) => {
                let span = token.span.merge(right.span);
                Ok((build(Expr::Unary { op, right }, span), n + 1))
            },
            Err(errors) => Err(errors),
        },
        None => Err(Vec::new()),
    }
}

fn break_exec(input: &[Token], p: usize, file: usize, loader: &Loader, budget: usize) -> (r:
    Result<(Box<Expression>, usize), Vec<Error>>)
    requires
        loader.wf(),
        p < input@.len(),
    ensures
        agrees(
            r,
            break_form(token_views(input@), p as int, file, *loader, budget as nat),
            p as int,
            input@.len() as int,
        ),
        sound(r, token_views(input@), *loader),
        homed(r, token_views(input@), file),
    decreases budget, remaining(token_views(input@), p as int), 1nat,
{
    let token = &input[p];
    if begins_expression(peek(input, p + 1)) {
        match parse_impl(input, BREAK, p + 1, file, loader, budget) {
            Ok((with, n)) => {
                let span = token.span.merge(with.span);
                Ok((build(Expr::Break { with: Some(with) }, span), n + 1))
            },
            Err(errors) => Err(errors),
        }
    } else {
        Ok((build(Expr::Break { with: None }, token.span), 1))
    }
}

fn loop_exec(input: &[Token], p: usize, file: usize, loader: &Loader, budget: usize) -> (r:
    Result<(Box<Expression>, usize), Vec<Error>>)
    requires
        loader.wf(),
        p < input@.len(),
    ensures
        agrees(
            r,
            loop_form(token_views(input@), p as int, file, *loader, budget as nat),
            p as int,
            input@.len() as int,
        ),
        sound(r, token_views(input@), *loader),
        homed(r, token_views(input@), file),
    decreases budget, remaining(token_views(input@), p as int), 1nat,
{
    let token = &input[p];
    if !is_kind(peek(input, p + 1), &TokenType::LCBrace) {
        return Err(mismatch(input, p + 1, file, E0012.0, "'{' after 'loop'"));
    }
    match parse_impl(input, ONE, p + 1, file, loader, budget) {
        Ok((inside, n)) => {
            let span = token.span.merge(inside.span);
            Ok((build(Expr::Loop { inside }, span), n + 1))
        },
        Err(errors) => Err(errors),
    }
}

fn paren_exec(input: &[Token], p: usize, file: usize, loader: &Loader, budget: usize) -> (r:
    Result<(Box<Expression>, usize), Vec<Error>>)
    requires
        loader.wf(),
        p < input@.len(),
    ensures
        agrees(
            r,
            paren_form(token_views(input@), p as int, file, *loader, budget as nat),
            p as int,
            input@.len() as int,
        ),
        sound(r, token_views(input@), *loader),
        homed(r, token_views(input@), file),
    decreases budget, remaining(token_views(input@), p as int), 1nat,
{
    let token = &input[p];
    match parse_impl(input, 0, p + 1, file, loader, budget) {
        Ok((inner, n)) => {
            if is_kind(peek(input, p + 1 + n), &TokenType::RParen) {
                Ok((inner, n + 2))
            } else {
                Err(
                    dangling(
                        input,
                        p + 1 + n,
                        file,
                        token.span,
                        "a closing parenthesis",
                        "expected ) here",
                        "opening parenthesis was here",
                    ),
                )
            }
        },
        Err(errors) => Err(errors),
    }
}

fn braced_exec(
    input: &[Token],
    q: usize,
    file: usize,
    loader: &Loader,
    budget: usize,
    wanted: &str,
) -> (r: Result<(Box<Expression>, usize), Vec<Error>>)
    requires
        loader.wf(),
    ensures
        agrees(
            r,
            braced(token_views(input@), q as int, file, *loader, budget as nat, wanted@),
            q as int,
            input@.len() as int,
        ),
        sound(r, token_views(input@), *loader),
        homed(r, token_views(input@), file),
    decreases budget, remaining(token_views(input@), q as int), 4nat,
{
    if !is_kind(peek(input, q), &TokenType::LCBrace) {
        return Err(mismatch(input, q, file, E0012.0, wanted));
    }
    parse_impl(input, ONE, q, file, loader, budget)
}

fn else_exec(input: &[Token], r: usize, file: usize, loader: &Loader, budget: usize) -> (found:
    Result<(Option<Box<Expression>>, usize), Vec<Error>>)
    requires
        loader.wf(),
        r <= input@.len(),
    ensures
        match else_part(token_views(input@), r as int, file, *loader, budget as nat) {
            Ok((e, n)) => found matches Ok((b, m)) && optional_view(b) == e && m == n && r + n
                <= input@.len(),
            Err(errors) => found matches Err(v) && error_views(v@) == errors,
        },
        tokens_hold(token_views(input@), *loader) ==> (found matches Ok((Some(b), _))
            ==> spans_hold(expression_view(*b), *loader)),
        tokens_in(token_views(input@), file) ==> (found matches Ok((Some(b), _)) ==> spans_in(
            expression_view(*b),
            file,
        )),
    decreases budget, remaining(token_views(input@), r as int), 5nat,
{
    if is_kind(peek(input, r), &TokenType::Else) {
        let other = if is_kind(peek(input, r + 1), &TokenType::If) {
            parse_impl(input, ONE, r + 1, file, loader, budget)
        } else {
            braced_exec(input, r + 1, file, loader, budget, "'{' or 'if' after 'else'")
        };
        match other {
            Ok((e, n)) => Ok((Some(e), n + 1)),
            Err(errors) => Err(errors),
        }
    } else {
        Ok((None, 0))
    }
}

fn if_exec(input: &[Token], p: usize, file: usize, loader: &Loader, budget: usize) -> (r: Result<
    (Box<Expression>, usize),
    Vec<Error>,
>)
    requires
        loader.wf(),
        p < input@.len(),
    ensures
        agrees(
            r,
            if_form(token_views(input@), p as int, file, *loader, budget as nat),
            p as int,
            input@.len() as int,
        ),
        sound(r, token_views(input@), *loader),
        homed(r, token_views(input@), file),
    decreases budget, remaining(token_views(input@), p as int), 1nat,
{
    let token = &input[p];
    let (condition, n1) = match parse_impl(input, 0, p + 1, file, loader, budget) {
        Ok(read) => read,
        Err(errors) => {
            return Err(errors);
        },
    };
    let (then, n2) = match braced_exec(
        input,
        p + 1 + n1,
        file,
        loader,
        budget,
        "'{' after if condition",
    ) {
        Ok(read) => read,
        Err(errors) => {
            return Err(errors);
        },
    };
    let span = token.span.merge(then.span);
    match else_exec(input, p + 1 + n1 + n2, file, loader, budget) {
        Ok((else_, n3)) => Ok((build(Expr::If { condition, then, else_ }, span), n1 + n2 + n3 + 1)),
        Err(errors) => Err(errors),
    }
}

fn while_exec(input: &[Token], p: usize, file: usize, loader: &Loader, budget: usize) -> (r:
    Result<(Box<Expression>, usize), Vec<Error>>)
    requires
        loader.wf(),
        p < input@.len(),
    ensures
        agrees(
            r,
            while_form(token_views(input@), p as int, file, *loader, budget as nat),
            p as int,
            input@.len() as int,
        ),
        sound(r, token_views(input@), *loader),
        homed(r, token_views(input@), file),
    decreases budget, remaining(token_views(input@), p as int), 1nat,
{
    let token = &input[p];
    let (condition, n1) = match parse_impl(input, 0, p + 1, file, loader, budget) {
        Ok(read) => read,
        Err(errors) => {
            return Err(errors);
        },
    };
    match braced_exec(input, p + 1 + n1, file, loader, budget, "'{' after while condition") {
        Ok((body, n2)) => {
            let span = token.span.merge(body.span);
            Ok((build(Expr::While { condition, body }, span), n1 + n2 + 1))
        },
        Err(errors) => Err(errors),
    }
}

fn inside_exec(input: &[Token], q: usize, file: usize, loader: &Loader, budget: usize) -> (r:
    Result<(Option<Box<Expression>>, usize), Vec<Error>>)
    requires
        loader.wf(),
        q <= input@.len(),
    ensures
        match inside(token_views(input@), q as int, file, *loader, budget as nat) {
            Ok((e, n)) => r matches Ok((b, m)) && optional_view(b) == e && m == n && q + n
                <= input@.len(),
            Err(errors) => r matches Err(v) && error_views(v@) == errors,
        },
        tokens_hold(token_views(input@), *loader) ==> (r matches Ok((Some(b), _)) ==> spans_hold(
            expression_view(*b),
            *loader,
        )),
        tokens_in(token_views(input@), file) ==> (r matches Ok((Some(b), _)) ==> spans_in(
            expression_view(*b),
            file,
        )),
    decreases budget, remaining(token_views(input@), q as int), 4nat,
{
    if begins_expression(peek(input, q)) {
        match parse_impl(input, 0, q, file, loader, budget) {
            Ok((e, n)) => Ok((Some(e), n)),
            Err(errors) => Err(errors),
        }
    } else {
        Ok((None, 0))
    }
}

fn block_exec(input: &[Token], p: usize, file: usize, loader: &Loader, budget: usize) -> (r:
    Result<(Box<Expression>, usize), Vec<Error>>)
    requires
        loader.wf(),
        p < input@.len(),
    ensures
        agrees(
            r,
            block_form(token_views(input@), p as int, file, *loader, budget as nat),
            p as int,
            input@.len() as int,
        ),
        sound(r, token_views(input@), *loader),
        homed(r, token_views(input@), file),
    decreases budget, remaining(token_views(input@), p as int), 1nat,
{
    let token = &input[p];
    match inside_exec(input, p + 1, file, loader, budget) {
        Ok((body, n)) => {
            let q = p + 1 + n;
            match peek(input, q) {
                Some(Token { tt: TokenType::RCBrace, span }) => Ok(
                    (build(Expr::Block(body), *span), n + 2),
                ),
                _ => Err(
                    dangling(
                        input,
                        q,
                        file,
                        token.span,
                        "a closing '}'",
                        "expected } here",
                        "opening '{' was here",
                    ),
                ),
            }
        },
        Err(errors) => Err(errors),
    }
}

fn module_exec(input: &[Token], p: usize, file: usize, loader: &Loader, budget: usize) -> (r:
    Result<(Box<Expression>, usize), Vec<Error>>)
    requires
        loader.wf(),
        p < input@.len(),
    ensures
        agrees(
            r,
            module_form(token_views(input@), p as int, file, *loader, budget as nat),
            p as int,
            input@.len() as int,
        ),
        sound(r, token_views(input@), *loader),
        homed(r, token_views(input@), file),
    decreases budget, remaining(token_views(input@), p as int), 1nat,
{
    let token = &input[p];
    match peek(input, p + 1) {
        Some(Token { tt: TokenType::Ident(name), .. }) => {
            if !is_kind(peek(input, p + 2), &TokenType::LCBrace) {
                return Err(mismatch(input, p + 2, file, E0012.0, "'{' after module name"));
            }
            match inside_exec(input, p + 3, file, loader, budget) {
                Ok((body, n)) => {
                    let q = p + 3 + n;
                    match peek(input, q) {
                        Some(Token { tt: TokenType::RCBrace, span }) => Ok(
                            (build(Expr::Module(body, name.clone()), *span), n + 4),
                        ),
                        _ => Err(
                            dangling(
                                input,
                                q,
                                file,
                                token.span,
                                "a closing '}'",
                                "expected } here",
                                "opening '{' was here",
                            ),
                        ),
                    }
                },
                Err(errors) => Err(errors),
            }
        },
        _ => Err(mismatch(input, p + 1, file, E0012.0, "a module name")),
    }
}

fn let_exec(input: &[Token], p: usize, file: usize, loader: &Loader, budget: usize) -> (r:
    Result<(Box<Expression>, usize), Vec<Error>>)
    requires
        loader.wf(),
        p < input@.len(),
    ensures
        agrees(
            r,
            let_form(token_views(input@), p as int, file, *loader, budget as nat),
            p as int,
            input@.len() as int,
        ),
        sound(r, token_views(input@), *loader),
        homed(r, token_views(input@), file),
    decreases budget, remaining(token_views(input@), p as int), 1nat,
{
    let token = &input[p];
    match peek(input, p + 1) {
        Some(Token { tt: TokenType::Ident(name), span: name_span }) => {
            if is_kind(peek(input, p + 2), &TokenType::Eq) {
                match parse_impl(input, ASSIGN, p + 3, file, loader, budget) {
                    Ok((value, n)) => {
                        let span = token.span.merge(value.span);
                        Ok(
                            (
                                build(Expr::Let { name: name.clone(), value: Some(value) }, span),
                                n + 3,
                            ),
                        )
                    },
                    Err(errors) => Err(errors),
                }
            } else {
                Ok(
                    (
                        build(
                            Expr::Let { name: name.clone(), value: None },
                            token.span.merge(*name_span),
                        ),
                        2,
                    ),
                )
            }
        },
        _ => Err(mismatch(input, p + 1, file, E0012.0, "a name")),
    }
}

fn names_exec(input: &[Token], start: usize) -> (r: (Vec<String>, usize))
    requires
        start <= input@.len(),
    ensures
        (string_views(r.0@), r.1 as nat) == names(token_views(input@), start as int),
        start + r.1 <= input@.len(),
{
    let ghost v = token_views(input@);
    let mut args: Vec<String> = Vec::new();
    let mut q = start;
    let mut done = false;
    assert(string_views(args@) + names(v, q as int).0 =~= names(v, start as int).0);
    while !done
        invariant
            v == token_views(input@),
            start <= q <= input@.len(),
            names(v, start as int).0 == string_views(args@) + if done {
                Seq::empty()
            } else {
                names(v, q as int).0
            },
            names(v, start as int).1 == (q - start) + if done {
                0
            } else {
                names(v, q as int).1
            },
        decreases input@.len() - q + if done { 0int } else { 1int },
    {
        let ghost before = args@;
        let ahead = peek(input, q);
        match ahead {
            Some(Token { tt: TokenType::Ident(name), .. }) => {
                assert(q < input@.len());
                args.push(name.clone());
                assert(string_views(args@) =~= string_views(before).push(name@));
                if is_kind(peek(input, q + 1), &TokenType::Comma) {
                    assert(string_views(before) + names(v, q as int).0 =~= string_views(args@)
                        + names(v, q + 2).0);
                    q = q + 2;
                } else {
                    assert(string_views(before) + names(v, q as int).0 =~= string_views(args@)
                        + Seq::empty());
                    q = q + 1;
                    done = true;
                }
            },
            _ => {
                done = true;
            },
        }
    }
    assert(string_views(args@) + Seq::<Seq<char>>::empty() =~= string_views(args@));
    (args, q - start)
}

fn fn_exec(input: &[Token], p: usize, file: usize, loader: &Loader, budget: usize) -> (r: Result<
    (Box<Expression>, usize),
    Vec<Error>,
>)
    requires
        loader.wf(),
        p < input@.len(),
    ensures
        agrees(
            r,
            fn_form(token_views(input@), p as int, file, *loader, budget as nat),
            p as int,
            input@.len() as int,
        ),
        sound(r, token_views(input@), *loader),
        homed(r, token_views(input@), file),
    decreases budget, remaining(token_views(input@), p as int), 1nat,
{
    let token = &input[p];
    match peek(input, p + 1) {
        Some(Token { tt: TokenType::Ident(name), .. }) => {
            if !is_kind(peek(input, p + 2), &TokenType::LParen) {
                return Err(mismatch(input, p + 2, file, E0012.0, "'(' after function name"));
            }
            let (args, n) = names_exec(input, p + 3);
            let q = p + 3 + n;
            if !is_kind(peek(input, q), &TokenType::RParen) {
                return Err(
                    mismatch(input, q, file, E0012.0, "')' after function argument list"),
                );
            }
            match braced_exec(input, q + 1, file, loader, budget, "'{' after function arguments") {
                Ok((body, m)) => {
                    let span = token.span.merge(body.span);
                    Ok((build(Expr::Fn { name: name.clone(), body, args }, span), n + m + 4))
                },
                Err(errors) => Err(errors),
            }
        },
        _ => Err(mismatch(input, p + 1, file, E0013.0, "a function name")),
    }
}

fn include_exec(input: &[Token], p: usize, file: usize, loader: &Loader, budget: usize) -> (r:
    Result<(Box<Expression>, usize), Vec<Error>>)
    requires
        loader.wf(),
        p < input@.len(),
        input@[p as int].tt is Include,
    ensures
        agrees(
            r,
            include_form(token_views(input@), p as int, file, *loader, budget as nat),
            p as int,
            input@.len() as int,
        ),
        sound(r, token_views(input@), *loader),
        homed(r, token_views(input@), file),
    decreases budget, remaining(token_views(input@), p as int), 1nat,
{
    let token = &input[p];
    match peek(input, p + 1) {
        Some(Token { tt: TokenType::SLiteral { value, .. }, span }) => {
            let at = span.merge(token.span);
            let mut failure = String::from_str("failed to load ");
            failure.append(value.as_str());
            match loader.find_path(value) {
                Some(index) => {
                    let source = loader.get_file(index);
                    proof {
                        lemma_byte_len_is_encoding_len(source.text());
                    }
                    if budget == 0 || source.string().as_bytes().len() > u32::MAX as usize {
                        return Err(
                            single(
                                Error::with_note(
                                    failure,
                                    E0014.0,
                                    Severity::FatalError,
                                    None,
                                    at,
                                ),
                            ),
                        );
                    }
                    failure.append(" due to compilation errors");
                    let note = Error::with_note(failure, E0014.0, Severity::Info, None, at);
                    let (tokens, status) = lex(source);
                    let mut errors = match status {
                        Ok(()) => Vec::new(),
                        Err(raised) => raised,
                    };
                    let ghost lexing = errors@;
                    assert(error_views(lexing) =~= lexed(source.text(), source.index).errors);
                    proof {
                        lemma_views_push(lexing, note);
                    }
                    if any_fatal(&errors) {
                        errors.push(note);
                        return Err(errors);
                    }
                    let had_errors = errors.len() > 0;
                    let ghost inner = token_views(tokens@);
                    assert(tokens_hold(inner, *loader)) by {
                        assert forall|i: int| 0 <= i < inner.len() implies loader.holds(
                            (#[trigger] inner[i]).span,
                        ) by {
                            assert(tokens@[i].span.file == source.index);
                        }
                    }
                    match parse_impl(tokens.as_slice(), 0, 0, source.index, loader, budget - 1) {
                        Ok((e, _)) => {
                            if had_errors {
                                errors.push(note);
                                Err(errors)
                            } else {
                                Ok((e, 2))
                            }
                        },
                        Err(mut raised) => {
                            proof {
                                lemma_views_concat(lexing, raised@);
                                lemma_views_push(lexing + raised@, note);
                            }
                            errors.append(&mut raised);
                            errors.push(note);
                            Err(errors)
                        },
                    }
                },
                None => Err(
                    single(Error::with_note(failure, E0014.0, Severity::FatalError, None, at)),
                ),
            }
        },
        _ => Err(mismatch(input, p + 1, file, E0012.0, "a path after 'include'")),
    }
}

fn arguments_exec(input: &[Token], p: usize, file: usize, loader: &Loader, budget: usize) -> (r:
    Result<(Vec<Box<Expression>>, usize), Vec<Error>>)
    requires
        loader.wf(),
        p <= input@.len(),
    ensures
        match arguments(token_views(input@), p as int, file, *loader, budget as nat) {
            Ok((es, n)) => r matches Ok((items, m)) && boxed_views(items@) == es && m == n && p
                + n <= input@.len(),
            Err(errors) => r matches Err(v) && error_views(v@) == errors,
        },
        tokens_hold(token_views(input@), *loader) ==> (r matches Ok((items, _)) ==> forall|i: int|
            0 <= i < items@.len() ==> spans_hold(#[trigger] expression_view(*items@[i]), *loader)),
        tokens_in(token_views(input@), file) ==> (r matches Ok((items, _)) ==> forall|i: int|
            0 <= i < items@.len() ==> spans_in(#[trigger] expression_view(*items@[i]), file)),
    decreases budget, remaining(token_views(input@), p as int), 4nat,
{
    let ghost v = token_views(input@);
    let mut items: Vec<Box<Expression>> = Vec::new();
    if !begins_expression(peek(input, p)) {
        assert(boxed_views(items@) =~= Seq::empty());
        return Ok((items, 0));
    }
    match parse_impl(input, 0, p, file, loader, budget) {
        Ok((e, n)) => {
            if is_kind(peek(input, p + n), &TokenType::Comma) {
                if !begins_expression(peek(input, p + n + 1)) {
                    return Err(mismatch(input, p + n + 1, file, E0012.0, "an argument after ','"));
                }
                match arguments_exec(input, p + n + 1, file, loader, budget) {
                    Ok((mut rest, m)) => {
                        let ghost first = expression_view(*e);
                        let ghost others = rest@;
                        rest.insert(0, e);
                        assert(boxed_views(rest@) =~= seq![first] + boxed_views(others));
                        assert forall|i: int|
                            0 <= i < rest@.len() && tokens_hold(v, *loader) implies spans_hold(
                            #[trigger] expression_view(*rest@[i]),
                            *loader,
                        ) by {
                            if i > 0 {
                                assert(rest@[i] == others[i - 1]);
                            }
                        }
                        assert forall|i: int|
                            0 <= i < rest@.len() && tokens_in(v, file) implies spans_in(
                            #[trigger] expression_view(*rest@[i]),
                            file,
                        ) by {
                            if i > 0 {
                                assert(rest@[i] == others[i - 1]);
                            }
                        }
                        Ok((rest, n + m + 1))
                    },
                    Err(errors) => Err(errors),
                }
            } else {
                let ghost first = expression_view(*e);
                items.push(e);
                assert(boxed_views(items@) =~= seq![first]);
                Ok((items, n))
            }
        },
        Err(errors) => Err(errors),
    }
}

#[verifier::rlimit(60)]
fn infix_step_exec(
    input: &[Token],
    lhs: Box<Expression>,
    p: usize,
    file: usize,
    loader: &Loader,
    budget: usize,
) -> (r: Result<(Box<Expression>, usize), Vec<Error>>)
    requires
        loader.wf(),
        p < input@.len(),
        precedence(kind_at(token_views(input@), p as int)) > 0,
        tokens_hold(token_views(input@), *loader) ==> spans_hold(expression_view(*lhs), *loader),
        tokens_in(token_views(input@), file) ==> spans_in(expression_view(*lhs), file),
    ensures
        agrees(
            r,
            infix_step(
                token_views(input@),
                expression_view(*lhs),
                p as int,
                file,
                *loader,
                budget as nat,
            ),
            p as int,
            input@.len() as int,
        ),
        sound(r, token_views(input@), *loader),
        homed(r, token_views(input@), file),
        r matches Ok((_, m)) ==> m >= 1,
    decreases budget, remaining(token_views(input@), p as int), 1nat,
{
    let token = &input[p];
    let left = lhs.span;
    if let Some(op) = binary_operator(&token.tt) {
        let level = get_precedence(&Some(token));
        return match parse_impl(input, level, p + 1, file, loader, budget) {
            Ok((rhs, n)) => {
                let span = left.merge(rhs.span);
                Ok((build(Expr::Binary { op, left: lhs, right: rhs }, span), n + 1))
            },
            Err(errors) => Err(errors),
        };
    }
    if let Some(op) = compound_operator(&token.tt) {
        return match parse_impl(input, ASSIGN, p + 1, file, loader, budget) {
            Ok((rhs, n)) => {
                let span = left.merge(rhs.span);
                Ok((build(Expr::AssignOp { left: lhs, right: rhs, op }, span), n + 1))
            },
            Err(errors) => Err(errors),
        };
    }
    match &token.tt {
        TokenType::Eq => match parse_impl(input, ASSIGN, p + 1, file, loader, budget) {
            Ok((rhs, n)) => {
                let span = left.merge(rhs.span);
                Ok((build(Expr::Assign { left: lhs, right: rhs }, span), n + 1))
            },
            Err(errors) => Err(errors),
        },
        TokenType::Semicolon => match parse_impl(input, SEMICOLON, p + 1, file, loader, budget) {
            Ok((rhs, n)) => {
                let span = left.merge(rhs.span);
                Ok((build(Expr::Semicolon { left: lhs, right: rhs }, span), n + 1))
            },
            Err(errors) => Err(errors),
        },
        TokenType::Dot => match peek(input, p + 1) {
            Some(Token { tt: TokenType::Ident(name), span }) => Ok(
                (build(Expr::Property { object: lhs, name: name.clone() }, left.merge(*span)), 2),
            ),
            _ => Err(mismatch(input, p + 1, file, E0012.0, "an identifier after dot")),
        },
        TokenType::LParen => match arguments_exec(input, p + 1, file, loader, budget) {
            Ok((args, n)) => {
                let q = p + 1 + n;
                if is_kind(peek(input, q), &TokenType::RParen) {
                    let span = token.span.merge(input[q - 1].span);
                    let ghost items = args@;
                    let call = build(Expr::Call { callee: lhs, args }, span);
                    assert(expression_view(*call).et->Call_args =~= boxed_views(items));
                    Ok((call, n + 2))
                } else {
                    Err(mismatch(input, q, file, E0012.0, "')' after arguments"))
                }
            },
            Err(errors) => Err(errors),
        },
        _ => Err(Vec::new()),
    }
}

pub fn parse(input: &[Token], file: usize, loader: &Loader) -> (r: Result<
    Box<Expression>,
    Vec<Error>,
>)
    requires
        loader.wf(),
    ensures
        match parsed(token_views(input@), file, *loader) {
            Ok(e) => r matches Ok(b) && expression_view(*b) == e,
            Err(errors) => r matches Err(v) && error_views(v@) == errors,
        },
        tokens_hold(token_views(input@), *loader) ==> (r matches Ok(b) ==> spans_hold(
            expression_view(*b),
            *loader,
        )),
        tokens_in(token_views(input@), file) ==> (r matches Ok(b) ==> spans_in(
            expression_view(*b),
            file,
        )),
{
    match parse_impl(input, 0, 0, file, loader, loader.len()) {
        Ok((e, _)) => Ok(e),
        Err(errors) => Err(errors),
    }
}

/// The paths that the tokens include: the texts of the string-like
/// literals that stand right behind an `include`, up to position `n`.
pub open spec fn included(input: Seq<TokenView>, n: nat) -> Seq<Seq<char>>
    decreases n,
{
    if n == 0 || n > input.len() {
        Seq::empty()
    } else if n >= 2 && input[n - 2].tt is Include && input[n - 1].tt is SLiteral {
        included(input, (n - 1) as nat).push(input[n - 1].tt->SLiteral_value)
    } else {
        included(input, (n - 1) as nat)
    }
}

/// The paths that the tokens include, in order: the host loads the
/// sources of these paths before it parses the tokens.
pub fn includes_of(input: &[Token]) -> (paths: Vec<String>)
    ensures
        string_views(paths@) == included(token_views(input@), input@.len() as nat),
{
    let ghost v = token_views(input@);
    let mut paths: Vec<String> = Vec::new();
    assert(string_views(paths@) =~= Seq::empty());
    let mut n: usize = 0;
    while n < input.len()
        invariant
            0 <= n <= input@.len(),
            v == token_views(input@),
            string_views(paths@) == included(v, n as nat),
        decreases input@.len() - n,
    {
        let ghost before = paths@;
        if n >= 1 {
            match (&input[n - 1].tt, &input[n].tt) {
                (TokenType::Include, TokenType::SLiteral { value, .. }) => {
                    paths.push(value.clone());
                    assert(string_views(paths@) =~= string_views(before).push(value@));
                },
                _ => {},
            }
        }
        n = n + 1;
    }
    paths
}

} // verus!
