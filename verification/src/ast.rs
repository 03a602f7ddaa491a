//! The expression tree. Every node carries the span of source text that it
//! was parsed from, and owns its children.

use vstd::prelude::*;
use crate::loader::{Loader, Span};
use crate::text::{blanks, put};
use crate::tokens::{IntLiteralType, TokenType, TokenTypeView};
use crate::typing::Type;

verus! {

/// One node of the tree.
#[derive(Debug)]
pub struct Expression {
    pub et: Expr,
    pub span: Span,
}

/// One variant of an enum declaration.
#[derive(Debug)]
pub struct EnumVariant {
    pub name: String,
    pub payload: EnumPayload,
}

/// What a variant of an enum declaration carries.
#[derive(Debug)]
pub enum EnumPayload {
    Tuple(Vec<Type>),
    Struct(Vec<(String, Type)>),
}

#[derive(Debug, Clone, Copy, PartialEq, Eq, Structural)]
pub enum BinaryOp {
    Add,
    Sub,
    Mul,
    Div,
    Exp,
    Eq,
    Lt,
    Gt,
    Leq,
    Geq,
    Neq,
}

#[derive(Debug, Clone, Copy, PartialEq, Eq, Structural)]
pub enum UnaryOp {
    Not,
    Neg,
    Show,
    Panic,
}

/// The form of a node.
#[derive(Debug)]
#[allow(inconsistent_fields)]
pub enum Expr {
    Literal { src: TokenType },
    Unary { op: UnaryOp, right: Box<Expression> },
    Binary { op: BinaryOp, left: Box<Expression>, right: Box<Expression> },
    Semicolon { left: Box<Expression>, right: Box<Expression> },
    Block(Option<Box<Expression>>),
    Module(Option<Box<Expression>>, String),
    Call { callee: Box<Expression>, args: Vec<Box<Expression>> },
    Property { object: Box<Expression>, name: String },
    Break { with: Option<Box<Expression>> },
    Continue,
    Use { imports: Vec<String> },
    Loop { inside: Box<Expression> },
    If { condition: Box<Expression>, then: Box<Expression>, else_: Option<Box<Expression>> },
    Assign { left: Box<Expression>, right: Box<Expression> },
    AssignOp { left: Box<Expression>, right: Box<Expression>, op: BinaryOp },
    Identifier { id: String },
    Fn { name: String, body: Box<Expression>, args: Vec<String> },
    Let { name: String, value: Option<Box<Expression>> },
    While { condition: Box<Expression>, body: Box<Expression> },
    EnumDecl { name: String, variants: Vec<EnumVariant> },
}

/// Mathematical model of an [`Expression`].
pub struct ExpressionView {
    pub et: ExprView,
    pub span: Span,
}

/// Mathematical model of an [`Expr`]: the same forms, over sequences. Of an
/// enum declaration it keeps the names of the enum and of its variants.
#[allow(inconsistent_fields)]
pub enum ExprView {
    Literal { src: TokenTypeView },
    Unary { op: UnaryOp, right: Box<ExpressionView> },
    Binary { op: BinaryOp, left: Box<ExpressionView>, right: Box<ExpressionView> },
    Semicolon { left: Box<ExpressionView>, right: Box<ExpressionView> },
    Block(Option<Box<ExpressionView>>),
    Module(Option<Box<ExpressionView>>, Seq<char>),
    Call { callee: Box<ExpressionView>, args: Seq<ExpressionView> },
    Property { object: Box<ExpressionView>, name: Seq<char> },
    Break { with: Option<Box<ExpressionView>> },
    Continue,
    Use { imports: Seq<Seq<char>> },
    Loop { inside: Box<ExpressionView> },
    If {
        condition: Box<ExpressionView>,
        then: Box<ExpressionView>,
        else_: Option<Box<ExpressionView>>,
    },
    Assign { left: Box<ExpressionView>, right: Box<ExpressionView> },
    AssignOp { left: Box<ExpressionView>, right: Box<ExpressionView>, op: BinaryOp },
    Identifier { id: Seq<char> },
    Fn { name: Seq<char>, body: Box<ExpressionView>, args: Seq<Seq<char>> },
    Let { name: Seq<char>, value: Option<Box<ExpressionView>> },
    While { condition: Box<ExpressionView>, body: Box<ExpressionView> },
    EnumDecl { name: Seq<char>, variants: Seq<Seq<char>> },
}

/// The models of a sequence of strings, in order.
pub open spec fn string_views(strings: Seq<String>) -> Seq<Seq<char>> {
    Seq::new(strings.len(), |i: int| strings[i]@)
}

/// The model of an optional child.
pub open spec fn optional_view(child: Option<Box<Expression>>) -> Option<Box<ExpressionView>> {
    match child {
        Some(e) => Some(Box::new(expression_view(*e))),
        None => None,
    }
}

/// The model of a node: the same tree, with every string and vector
/// replaced by the sequence that it holds.
pub open spec fn expression_view(e: Expression) -> ExpressionView
    decreases e,
{
    ExpressionView {
        et: match e.et {
            Expr::Literal { src } => ExprView::Literal { src: src@ },
            Expr::Unary { op, right } => ExprView::Unary {
                op,
                right: Box::new(expression_view(*right)),
            },
            Expr::Binary { op, left, right } => ExprView::Binary {
                op,
                left: Box::new(expression_view(*left)),
                right: Box::new(expression_view(*right)),
            },
            Expr::Semicolon { left, right } => ExprView::Semicolon {
                left: Box::new(expression_view(*left)),
                right: Box::new(expression_view(*right)),
            },
            Expr::Block(inside) => ExprView::Block(
                match inside {
                    Some(e) => Some(Box::new(expression_view(*e))),
                    None => None,
                },
            ),
            Expr::Module(inside, name) => ExprView::Module(
                match inside {
                    Some(e) => Some(Box::new(expression_view(*e))),
                    None => None,
                },
                name@,
            ),
            Expr::Call { callee, args } => ExprView::Call {
                callee: Box::new(expression_view(*callee)),
                args: Seq::new(
                    args@.len(),
                    |i: int|
                        if 0 <= i < args@.len() {
                            expression_view(*args@[i])
                        } else {
                            arbitrary()
                        },
                ),
            },
            Expr::Property { object, name } => ExprView::Property {
                object: Box::new(expression_view(*object)),
                name: name@,
            },
            Expr::Break { with } => ExprView::Break {
                with: match with {
                    Some(e) => Some(Box::new(expression_view(*e))),
                    None => None,
                },
            },
            Expr::Continue => ExprView::Continue,
            Expr::Use { imports } => ExprView::Use { imports: string_views(imports@) },
            Expr::Loop { inside } => ExprView::Loop { inside: Box::new(expression_view(*inside)) },
            Expr::If { condition, then, else_ } => ExprView::If {
                condition: Box::new(expression_view(*condition)),
                then: Box::new(expression_view(*then)),
                else_: match else_ {
                    Some(e) => Some(Box::new(expression_view(*e))),
                    None => None,
                },
            },
            Expr::Assign { left, right } => ExprView::Assign {
                left: Box::new(expression_view(*left)),
                right: Box::new(expression_view(*right)),
            },
            Expr::AssignOp { left, right, op } => ExprView::AssignOp {
                left: Box::new(expression_view(*left)),
                right: Box::new(expression_view(*right)),
                op,
            },
            Expr::Identifier { id } => ExprView::Identifier { id: id@ },
            Expr::Fn { name, body, args } => ExprView::Fn {
                name: name@,
                body: Box::new(expression_view(*body)),
                args: string_views(args@),
            },
            Expr::Let { name, value } => ExprView::Let {
                name: name@,
                value: match value {
                    Some(e) => Some(Box::new(expression_view(*e))),
                    None => None,
                },
            },
            Expr::While { condition, body } => ExprView::While {
                condition: Box::new(expression_view(*condition)),
                body: Box::new(expression_view(*body)),
            },
            Expr::EnumDecl { name, variants } => ExprView::EnumDecl {
                name: name@,
                variants: Seq::new(variants@.len(), |i: int| variants@[i].name@),
            },
        },
        span: e.span,
    }
}

impl View for Expression {
    type V = ExpressionView;

    open spec fn view(&self) -> ExpressionView {
        expression_view(*self)
    }
}

/// The span of every node of the tree names an ordered range between
/// character boundaries of a source of `loader`.
pub open spec fn spans_hold(e: ExpressionView, loader: Loader) -> bool
    decreases e,
{
    &&& loader.holds(e.span)
    &&& match e.et {
        ExprView::Literal { .. } => true,
        ExprView::Unary { right, .. } => spans_hold(*right, loader),
        ExprView::Binary { left, right, .. } => spans_hold(*left, loader) && spans_hold(
            *right,
            loader,
        ),
        ExprView::Semicolon { left, right } => spans_hold(*left, loader) && spans_hold(
            *right,
            loader,
        ),
        ExprView::Block(inside) => (match inside {
            Some(e) => spans_hold(*e, loader),
            None => true,
        }),
        ExprView::Module(inside, _) => (match inside {
            Some(e) => spans_hold(*e, loader),
            None => true,
        }),
        ExprView::Call { callee, args } => spans_hold(*callee, loader) && forall|i: int|
            0 <= i < args.len() ==> spans_hold(#[trigger] args[i], loader),
        ExprView::Property { object, .. } => spans_hold(*object, loader),
        ExprView::Break { with } => (match with {
            Some(e) => spans_hold(*e, loader),
            None => true,
        }),
        ExprView::Continue => true,
        ExprView::Use { .. } => true,
        ExprView::Loop { inside } => spans_hold(*inside, loader),
        ExprView::If { condition, then, else_ } => spans_hold(*condition, loader) && spans_hold(
            *then,
            loader,
        ) && (match else_ {
            Some(e) => spans_hold(*e, loader),
            None => true,
        }),
        ExprView::Assign { left, right } => spans_hold(*left, loader) && spans_hold(
            *right,
            loader,
        ),
        ExprView::AssignOp { left, right, .. } => spans_hold(*left, loader) && spans_hold(
            *right,
            loader,
        ),
        ExprView::Identifier { .. } => true,
        ExprView::Fn { body, .. } => spans_hold(*body, loader),
        ExprView::Let { value, .. } => (match value {
            Some(e) => spans_hold(*e, loader),
            None => true,
        }),
        ExprView::While { condition, body } => spans_hold(*condition, loader) && spans_hold(
            *body,
            loader,
        ),
        ExprView::EnumDecl { .. } => true,
    }
}

/// The span of every node of the tree lies in the file `file`.
pub open spec fn spans_in(e: ExpressionView, file: usize) -> bool
    decreases e,
{
    &&& e.span.file == file
    &&& match e.et {
        ExprView::Literal { .. } => true,
        ExprView::Unary { right, .. } => spans_in(*right, file),
        ExprView::Binary { left, right, .. } => spans_in(*left, file) && spans_in(
            *right,
            file,
        ),
        ExprView::Semicolon { left, right } => spans_in(*left, file) && spans_in(
            *right,
            file,
        ),
        ExprView::Block(inside) => (match inside {
            Some(e) => spans_in(*e, file),
            None => true,
        }),
        ExprView::Module(inside, _) => (match inside {
            Some(e) => spans_in(*e, file),
            None => true,
        }),
        ExprView::Call { callee, args } => spans_in(*callee, file) && forall|i: int|
            0 <= i < args.len() ==> spans_in(#[trigger] args[i], file),
        ExprView::Property { object, .. } => spans_in(*object, file),
        ExprView::Break { with } => (match with {
            Some(e) => spans_in(*e, file),
            None => true,
        }),
        ExprView::Continue => true,
        ExprView::Use { .. } => true,
        ExprView::Loop { inside } => spans_in(*inside, file),
        ExprView::If { condition, then, else_ } => spans_in(*condition, file) && spans_in(
            *then,
            file,
        ) && (match else_ {
            Some(e) => spans_in(*e, file),
            None => true,
        }),
        ExprView::Assign { left, right } => spans_in(*left, file) && spans_in(
            *right,
            file,
        ),
        ExprView::AssignOp { left, right, .. } => spans_in(*left, file) && spans_in(
            *right,
            file,
        ),
        ExprView::Identifier { .. } => true,
        ExprView::Fn { body, .. } => spans_in(*body, file),
        ExprView::Let { value, .. } => (match value {
            Some(e) => spans_in(*e, file),
            None => true,
        }),
        ExprView::While { condition, body } => spans_in(*condition, file) && spans_in(
            *body,
            file,
        ),
        ExprView::EnumDecl { .. } => true,
    }
}

/// Whether the node opens a scope of its own: a block, a module, a loop or
/// a function.
pub fn is_scope_barrier(expr: &Expression) -> (r: bool)
    ensures
        r == (expr@.et is Block || expr@.et is Module || expr@.et is Loop || expr@.et is Fn),
{
    match &expr.et {
        Expr::Block(_) => true,
        Expr::Module(_, _) => true,
        Expr::Loop { .. } => true,
        Expr::Fn { .. } => true,
        _ => false,
    }
}

/// The escape sequence that colours the brackets of a node at `depth`.
pub open spec fn bracket_color(depth: nat) -> Seq<char> {
    if depth % 3 == 0 {
        "\x1B[34m"@
    } else if depth % 3 == 1 {
        "\x1B[35m"@
    } else {
        "\x1B[36m"@
    }
}

pub open spec fn unary_sign(op: UnaryOp) -> Seq<char> {
    match op {
        UnaryOp::Not => "!"@,
        UnaryOp::Neg => "-"@,
        UnaryOp::Show => "show"@,
        UnaryOp::Panic => "panic"@,
    }
}

pub open spec fn binary_sign(op: BinaryOp) -> Seq<char> {
    match op {
        BinaryOp::Add => "+"@,
        BinaryOp::Sub => "-"@,
        BinaryOp::Mul => "*"@,
        BinaryOp::Div => "/"@,
        BinaryOp::Exp => "**"@,
        BinaryOp::Eq => "=="@,
        BinaryOp::Lt => "<"@,
        BinaryOp::Gt => ">"@,
        BinaryOp::Leq => "<="@,
        BinaryOp::Geq => ">="@,
        BinaryOp::Neq => "!="@,
    }
}

/// The text of a literal: its digits behind the prefix of its base, its
/// characters between double quotes, or its truth value; `?` for a token
/// that is no literal.
pub open spec fn literal_onto(acc: Seq<char>, src: TokenTypeView) -> Seq<char> {
    match src {
        TokenTypeView::BLiteral(v) => acc + if v {
            "true"@
        } else {
            "false"@
        },
        TokenTypeView::FLiteral { value, .. } => acc + "(f) "@ + value,
        TokenTypeView::SLiteral { value, .. } => acc + "\""@ + value + "\""@,
        TokenTypeView::ILiteral { value, kind, .. } => acc + (match kind {
            IntLiteralType::Hexadecimal => "0x"@,
            IntLiteralType::Decimal => ""@,
            IntLiteralType::Octal => "0o"@,
            IntLiteralType::Binary => "0b"@,
        }) + value,
        _ => acc + "?"@,
    }
}

/// `acc` with the first `n` names, separated by a comma and a blank.
pub open spec fn names_onto(acc: Seq<char>, names: Seq<Seq<char>>, n: nat) -> Seq<char>
    decreases n,
{
    if n == 0 || n > names.len() {
        acc
    } else if n == 1 {
        acc + names[0]
    } else {
        names_onto(acc, names, (n - 1) as nat) + ", "@ + names[n - 1]
    }
}

/// `acc` with the first `n` names, each on a line of its own behind
/// `margin` blanks.
pub open spec fn lines_onto(acc: Seq<char>, names: Seq<Seq<char>>, margin: nat, n: nat) -> Seq<
    char,
>
    decreases n,
{
    if n == 0 || n > names.len() {
        acc
    } else {
        lines_onto(acc, names, margin, (n - 1) as nat) + blanks(margin) + names[n - 1] + "\n"@
    }
}

/// The line that closes a node at `depth`.
pub open spec fn closed(acc: Seq<char>, depth: nat) -> Seq<char> {
    acc + blanks(2 * depth) + bracket_color(depth) + ")\x1B[0m\n"@
}

/// The line that closes a block at `depth`.
pub open spec fn braced(acc: Seq<char>, depth: nat) -> Seq<char> {
    acc + blanks(2 * depth) + bracket_color(depth) + "}\x1B[0m\n"@
}

/// What follows the opening brace of a block or module at `depth`: the
/// closing brace at once, or the child on lines of its own.
pub open spec fn inside_onto(acc: Seq<char>, inside: Option<Box<ExpressionView>>, depth: nat) -> Seq<
    char,
>
    decreases inside, 1nat,
{
    match inside {
        None => acc + bracket_color(depth) + "}\x1B[0m\n"@,
        Some(child) => braced(tree_onto(acc + "\n"@, *child, depth + 1), depth),
    }
}

/// `acc` with the trees, one after the other, each at `depth`.
pub open spec fn trees_onto(acc: Seq<char>, trees: Seq<ExpressionView>, depth: nat, n: nat) -> Seq<
    char,
>
    decreases trees, n,
{
    if n == 0 || n > trees.len() {
        acc
    } else {
        tree_onto(trees_onto(acc, trees, depth, (n - 1) as nat), trees[n - 1], depth)
    }
}

/// `acc` with the tree as text: one node a line, children two blanks
/// deeper than their parent, brackets coloured by depth.
pub open spec fn tree_onto(acc: Seq<char>, e: ExpressionView, depth: nat) -> Seq<char>
    decreases e, 0nat,
{
    let start = acc + blanks(2 * depth);
    let color = bracket_color(depth);
    match e.et {
        ExprView::Continue => start + "(continue)\n"@,
        ExprView::Unary { op, right } => closed(
            tree_onto(start + color + "(\x1B[0m"@ + unary_sign(op) + "\n"@, *right, depth + 1),
            depth,
        ),
        ExprView::Use { imports } => closed(
            lines_onto(
                start + color + "(\x1B[32muse\x1B[0m\n"@,
                imports,
                2 * depth + 2,
                imports.len(),
            ),
            depth,
        ),
        ExprView::Block(inside) => inside_onto(start + color + "{\x1B[0m"@, inside, depth),
        ExprView::EnumDecl { name, variants } => {
            let open = start + color + "enum "@ + name + " {\x1B[0m"@;
            if variants.len() == 0 {
                open + color + "}\x1B[0m\n"@
            } else {
                braced(lines_onto(open + "\n"@, variants, 2 * depth + 2, variants.len()), depth)
            }
        },
        ExprView::Module(inside, name) => inside_onto(
            start + color + "mod "@ + name + " {\x1B[0m"@,
            inside,
            depth,
        ),
        ExprView::Literal { src } => literal_onto(start + "\x1B[37m<\x1B[33m"@, src)
            + "\x1B[37m>\n\x1B[0m"@,
        ExprView::Binary { op, left, right } => closed(
            tree_onto(
                tree_onto(
                    start + color + "(\x1B[0m"@ + binary_sign(op) + "\n"@,
                    *left,
                    depth + 1,
                ),
                *right,
                depth + 1,
            ),
            depth,
        ),
        ExprView::Semicolon { left, right } => closed(
            tree_onto(
                tree_onto(start + color + "(\x1B[0m;\n"@, *left, depth + 1),
                *right,
                depth + 1,
            ),
            depth,
        ),
        ExprView::Call { callee, args } => closed(
            trees_onto(
                tree_onto(start + color + "(\x1B[32mcall\x1B[0m\n"@, *callee, depth + 1)
                    + blanks(2 * depth) + " \x1B[32mwith\x1B[0m\n"@,
                args,
                depth + 1,
                args.len(),
            ),
            depth,
        ),
        ExprView::Property { object, name } => closed(
            tree_onto(
                start + color + "(\x1B[32mread\x1B[0m "@ + name + " \x1B[32mof\x1B[0m\n"@,
                *object,
                depth + 1,
            ),
            depth,
        ),
        ExprView::Break { with } => match with {
            Some(thing) => closed(
                tree_onto(start + color + "(\x1B[32mbreak\x1B[0m\n"@, *thing, depth + 1),
                depth,
            ),
            None => start + color + "(\x1B[32mbreak"@ + color + ")\x1B[0m\n"@,
        },
        ExprView::Loop { inside } => closed(
            tree_onto(start + color + "(\x1B[32mloop\x1B[0m\n"@, *inside, depth + 1),
            depth,
        ),
        ExprView::If { condition, then, else_ } => {
            let first = tree_onto(
                tree_onto(start + color + "(\x1B[32mif\x1B[0m\n"@, *condition, depth + 1)
                    + blanks(2 * depth) + "\x1B[32mthen\x1B[0m\n"@,
                *then,
                depth + 1,
            );
            match else_ {
                Some(thing) => closed(
                    tree_onto(
                        first + blanks(2 * depth) + "\x1B[32melse\x1B[0m\n"@,
                        *thing,
                        depth + 1,
                    ),
                    depth,
                ),
                None => closed(first, depth),
            }
        },
        ExprView::Assign { left, right } => closed(
            tree_onto(
                tree_onto(start + color + "(\x1B[0mset\n"@, *left, depth + 1),
                *right,
                depth + 1,
            ),
            depth,
        ),
        ExprView::AssignOp { left, right, op } => closed(
            tree_onto(
                tree_onto(
                    start + color + "(\x1B[0m"@ + binary_sign(op) + "=\n"@,
                    *left,
                    depth + 1,
                ),
                *right,
                depth + 1,
            ),
            depth,
        ),
        ExprView::Identifier { id } => start + "\x1B[31m#"@ + id + "\x1B[0m\n"@,
        ExprView::Fn { name, body, args } => closed(
            tree_onto(
                names_onto(
                    start + color + "(\x1B[32mfn \x1B[31m#"@ + name + "\x1B[0m ["@,
                    args,
                    args.len(),
                ) + "]\n"@,
                *body,
                depth + 1,
            ),
            depth,
        ),
        ExprView::Let { name, value } => {
            let open = start + color + "(\x1B[32mlet \x1B[31m#"@ + name + "\x1B[0m"@;
            match value {
                Some(x) => closed(tree_onto(open + "\n"@, *x, depth + 1), depth),
                None => open + color + ")\x1B[0m\n"@,
            }
        },
        ExprView::While { condition, body } => closed(
            tree_onto(
                tree_onto(start + color + "(\x1B[32mwhile\x1B[0m\n"@, *condition, depth + 1),
                *body,
                depth + 1,
            ),
            depth,
        ),
    }
}

/// The tree as text.
pub open spec fn tree_text(e: ExpressionView) -> Seq<char> {
    tree_onto(Seq::empty(), e, 0)
}

fn color_of(color: u8, Ghost(depth): Ghost<nat>) -> (text: &'static str)
    requires
        color == depth % 3,
    ensures
        text@ == bracket_color(depth),
{
    if color == 0 {
        "\x1B[34m"
    } else if color == 1 {
        "\x1B[35m"
    } else {
        "\x1B[36m"
    }
}

fn unary_sign_of(op: &UnaryOp) -> (text: &'static str)
    ensures
        text@ == unary_sign(*op),
{
    match op {
        UnaryOp::Not => "!",
        UnaryOp::Neg => "-",
        UnaryOp::Show => "show",
        UnaryOp::Panic => "panic",
    }
}

fn binary_sign_of(op: &BinaryOp) -> (text: &'static str)
    ensures
        text@ == binary_sign(*op),
{
    match op {
        BinaryOp::Add => "+",
        BinaryOp::Sub => "-",
        BinaryOp::Mul => "*",
        BinaryOp::Div => "/",
        BinaryOp::Exp => "**",
        BinaryOp::Eq => "==",
        BinaryOp::Lt => "<",
        BinaryOp::Gt => ">",
        BinaryOp::Leq => "<=",
        BinaryOp::Geq => ">=",
        BinaryOp::Neq => "!=",
    }
}

fn put_literal(out: &mut String, src: &TokenType)
    ensures
        final(out)@ == literal_onto(old(out)@, src@),
{
    match src {
        TokenType::BLiteral(v) => {
            if *v {
                put(out, "true");
            } else {
                put(out, "false");
            }
        },
        TokenType::FLiteral { value, .. } => {
            put(out, "(f) ");
            put(out, value.as_str());
        },
        TokenType::SLiteral { value, .. } => {
            put(out, "\"");
            put(out, value.as_str());
            put(out, "\"");
        },
        TokenType::ILiteral { value, kind, .. } => {
            match kind {
                IntLiteralType::Hexadecimal => put(out, "0x"),
                IntLiteralType::Decimal => put(out, ""),
                IntLiteralType::Octal => put(out, "0o"),
                IntLiteralType::Binary => put(out, "0b"),
            }
            put(out, value.as_str());
        },
        _ => {
            put(out, "?");
        },
    }
}

fn put_names(out: &mut String, names: &Vec<String>)
    ensures
        final(out)@ == names_onto(old(out)@, string_views(names@), names@.len() as nat),
{
    let ghost views = string_views(names@);
    let mut k: usize = 0;
    while k < names.len()
        invariant
            0 <= k <= names@.len(),
            views == string_views(names@),
            out@ == names_onto(old(out)@, views, k as nat),
        decreases names@.len() - k,
    {
        if k > 0 {
            put(out, ", ");
        }
        put(out, names[k].as_str());
        k = k + 1;
    }
}

fn put_lines(out: &mut String, names: &Vec<String>, margin: &String, Ghost(width): Ghost<nat>)
    requires
        margin@ == blanks(width),
    ensures
        final(out)@ == lines_onto(old(out)@, string_views(names@), width, names@.len() as nat),
{
    let ghost views = string_views(names@);
    let mut k: usize = 0;
    while k < names.len()
        invariant
            0 <= k <= names@.len(),
            views == string_views(names@),
            margin@ == blanks(width),
            out@ == lines_onto(old(out)@, views, width, k as nat),
        decreases names@.len() - k,
    {
        put(out, margin.as_str());
        put(out, names[k].as_str());
        put(out, "\n");
        k = k + 1;
    }
}

fn put_variants(out: &mut String, variants: &Vec<EnumVariant>, margin: &String, Ghost(width): Ghost<nat>)
    requires
        margin@ == blanks(width),
    ensures
        final(out)@ == lines_onto(
            old(out)@,
            Seq::new(variants@.len(), |i: int| variants@[i].name@),
            width,
            variants@.len() as nat,
        ),
{
    let ghost views = Seq::new(variants@.len(), |i: int| variants@[i].name@);
    let mut k: usize = 0;
    while k < variants.len()
        invariant
            0 <= k <= variants@.len(),
            views == Seq::new(variants@.len(), |i: int| variants@[i].name@),
            margin@ == blanks(width),
            out@ == lines_onto(old(out)@, views, width, k as nat),
        decreases variants@.len() - k,
    {
        put(out, margin.as_str());
        put(out, variants[k].name.as_str());
        put(out, "\n");
        k = k + 1;
    }
}

fn deeper(indent: &String, Ghost(depth): Ghost<nat>) -> (margin: String)
    requires
        indent@ == blanks(2 * depth),
    ensures
        margin@ == blanks(2 * (depth + 1)),
        margin@ == blanks(2 * depth + 2),
{
    let mut margin = indent.clone();
    margin.push(' ');
    margin.push(' ');
    assert(margin@ =~= blanks(2 * (depth + 1)));
    margin
}

fn put_closed(out: &mut String, indent: &String, color: u8, Ghost(depth): Ghost<nat>)
    requires
        indent@ == blanks(2 * depth),
        color == depth % 3,
    ensures
        final(out)@ == closed(old(out)@, depth),
{
    put(out, indent.as_str());
    put(out, color_of(color, Ghost(depth)));
    put(out, ")\x1B[0m\n");
}

fn put_braced(out: &mut String, indent: &String, color: u8, Ghost(depth): Ghost<nat>)
    requires
        indent@ == blanks(2 * depth),
        color == depth % 3,
    ensures
        final(out)@ == braced(old(out)@, depth),
{
    put(out, indent.as_str());
    put(out, color_of(color, Ghost(depth)));
    put(out, "}\x1B[0m\n");
}

fn put_inside(
    out: &mut String,
    inside: &Option<Box<Expression>>,
    indent: &String,
    color: u8,
    Ghost(depth): Ghost<nat>,
)
    requires
        indent@ == blanks(2 * depth),
        color == depth % 3,
    ensures
        final(out)@ == inside_onto(old(out)@, optional_view(*inside), depth),
    decreases inside, 1nat,
{
    match inside {
        None => {
            put(out, color_of(color, Ghost(depth)));
            put(out, "}\x1B[0m\n");
        },
        Some(child) => {
            put(out, "\n");
            let margin = deeper(indent, Ghost(depth));
            put_tree(out, child, &margin, (color + 1) % 3, Ghost(depth + 1));
            put_braced(out, indent, color, Ghost(depth));
        },
    }
}

fn put_tree(
    out: &mut String,
    expr: &Expression,
    indent: &String,
    color: u8,
    Ghost(depth): Ghost<nat>,
)
    requires
        indent@ == blanks(2 * depth),
        color == depth % 3,
    ensures
        final(out)@ == tree_onto(old(out)@, expr@, depth),
    decreases expr, 0nat,
{
    let tint = color_of(color, Ghost(depth));
    let next = (color + 1) % 3;
    put(out, indent.as_str());
    match &expr.et {
        Expr::Continue => {
            put(out, "(continue)\n");
        },
        Expr::Unary { op, right } => {
            put(out, tint);
            put(out, "(\x1B[0m");
            put(out, unary_sign_of(op));
            put(out, "\n");
            let margin = deeper(indent, Ghost(depth));
            put_tree(out, right, &margin, next, Ghost(depth + 1));
            put_closed(out, indent, color, Ghost(depth));
        },
        Expr::Use { imports } => {
            put(out, tint);
            put(out, "(\x1B[32muse\x1B[0m\n");
            let margin = deeper(indent, Ghost(depth));
            put_lines(out, imports, &margin, Ghost(2 * depth + 2));
            put_closed(out, indent, color, Ghost(depth));
        },
        Expr::Block(inside) => {
            put(out, tint);
            put(out, "{\x1B[0m");
            put_inside(out, inside, indent, color, Ghost(depth));
        },
        Expr::EnumDecl { name, variants } => {
            put(out, tint);
            put(out, "enum ");
            put(out, name.as_str());
            put(out, " {\x1B[0m");
            if variants.len() == 0 {
                put(out, tint);
                put(out, "}\x1B[0m\n");
            } else {
                put(out, "\n");
                let margin = deeper(indent, Ghost(depth));
                put_variants(out, variants, &margin, Ghost(2 * depth + 2));
                put_braced(out, indent, color, Ghost(depth));
            }
        },
        Expr::Module(inside, name) => {
            put(out, tint);
            put(out, "mod ");
            put(out, name.as_str());
            put(out, " {\x1B[0m");
            put_inside(out, inside, indent, color, Ghost(depth));
        },
        Expr::Literal { src } => {
            put(out, "\x1B[37m<\x1B[33m");
            put_literal(out, src);
            put(out, "\x1B[37m>\n\x1B[0m");
        },
        Expr::Binary { op, left, right } => {
            put(out, tint);
            put(out, "(\x1B[0m");
            put(out, binary_sign_of(op));
            put(out, "\n");
            let margin = deeper(indent, Ghost(depth));
            put_tree(out, left, &margin, next, Ghost(depth + 1));
            put_tree(out, right, &margin, next, Ghost(depth + 1));
            put_closed(out, indent, color, Ghost(depth));
        },
        Expr::Semicolon { left, right } => {
            put(out, tint);
            put(out, "(\x1B[0m;\n");
            let margin = deeper(indent, Ghost(depth));
            put_tree(out, left, &margin, next, Ghost(depth + 1));
            put_tree(out, right, &margin, next, Ghost(depth + 1));
            put_closed(out, indent, color, Ghost(depth));
        },
        Expr::Call { callee, args } => {
            let ghost views = expr@.et->Call_args;
            put(out, tint);
            put(out, "(\x1B[32mcall\x1B[0m\n");
            let margin = deeper(indent, Ghost(depth));
            put_tree(out, callee, &margin, next, Ghost(depth + 1));
            put(out, indent.as_str());
            put(out, " \x1B[32mwith\x1B[0m\n");
            let ghost start = out@;
            let mut i: usize = 0;
            while i < args.len()
                invariant
                    0 <= i <= args@.len(),
                    views == expr@.et->Call_args,
                    views.len() == args@.len(),
                    forall|k: int| 0 <= k < args@.len() ==> views[k] == expression_view(*args@[k]),
                    expr.et matches Expr::Call { args: mine, .. } && mine == args,
                    margin@ == blanks(2 * (depth + 1)),
                    next == (depth + 1) % 3,
                    out@ == trees_onto(start, views, depth + 1, i as nat),
                decreases args@.len() - i,
            {
                put_tree(out, &args[i], &margin, next, Ghost(depth + 1));
                i = i + 1;
            }
            put_closed(out, indent, color, Ghost(depth));
        },
        Expr::Property { object, name } => {
            put(out, tint);
            put(out, "(\x1B[32mread\x1B[0m ");
            put(out, name.as_str());
            put(out, " \x1B[32mof\x1B[0m\n");
            let margin = deeper(indent, Ghost(depth));
            put_tree(out, object, &margin, next, Ghost(depth + 1));
            put_closed(out, indent, color, Ghost(depth));
        },
        Expr::Break { with } => match with {
            Some(thing) => {
                put(out, tint);
                put(out, "(\x1B[32mbreak\x1B[0m\n");
                let margin = deeper(indent, Ghost(depth));
                put_tree(out, thing, &margin, next, Ghost(depth + 1));
                put_closed(out, indent, color, Ghost(depth));
            },
            None => {
                put(out, tint);
                put(out, "(\x1B[32mbreak");
                put(out, tint);
                put(out, ")\x1B[0m\n");
            },
        },
        Expr::Loop { inside } => {
            put(out, tint);
            put(out, "(\x1B[32mloop\x1B[0m\n");
            let margin = deeper(indent, Ghost(depth));
            put_tree(out, inside, &margin, next, Ghost(depth + 1));
            put_closed(out, indent, color, Ghost(depth));
        },
        Expr::If { condition, then, else_ } => {
            put(out, tint);
            put(out, "(\x1B[32mif\x1B[0m\n");
            let margin = deeper(indent, Ghost(depth));
            put_tree(out, condition, &margin, next, Ghost(depth + 1));
            put(out, indent.as_str());
            put(out, "\x1B[32mthen\x1B[0m\n");
            put_tree(out, then, &margin, next, Ghost(depth + 1));
            match else_ {
                Some(thing) => {
                    put(out, indent.as_str());
                    put(out, "\x1B[32melse\x1B[0m\n");
                    put_tree(out, thing, &margin, next, Ghost(depth + 1));
                },
                None => {},
            }
            put_closed(out, indent, color, Ghost(depth));
        },
        Expr::Assign { left, right } => {
            put(out, tint);
            put(out, "(\x1B[0mset\n");
            let margin = deeper(indent, Ghost(depth));
            put_tree(out, left, &margin, next, Ghost(depth + 1));
            put_tree(out, right, &margin, next, Ghost(depth + 1));
            put_closed(out, indent, color, Ghost(depth));
        },
        Expr::AssignOp { left, right, op } => {
            put(out, tint);
            put(out, "(\x1B[0m");
            put(out, binary_sign_of(op));
            put(out, "=\n");
            let margin = deeper(indent, Ghost(depth));
            put_tree(out, left, &margin, next, Ghost(depth + 1));
            put_tree(out, right, &margin, next, Ghost(depth + 1));
            put_closed(out, indent, color, Ghost(depth));
        },
        Expr::Identifier { id } => {
            put(out, "\x1B[31m#");
            put(out, id.as_str());
            put(out, "\x1B[0m\n");
        },
        Expr::Fn { name, body, args } => {
            put(out, tint);
            put(out, "(\x1B[32mfn \x1B[31m#");
            put(out, name.as_str());
            put(out, "\x1B[0m [");
            put_names(out, args);
            put(out, "]\n");
            let margin = deeper(indent, Ghost(depth));
            put_tree(out, body, &margin, next, Ghost(depth + 1));
            put_closed(out, indent, color, Ghost(depth));
        },
        Expr::Let { name, value } => {
            put(out, tint);
            put(out, "(\x1B[32mlet \x1B[31m#");
            put(out, name.as_str());
            put(out, "\x1B[0m");
            match value {
                Some(x) => {
                    put(out, "\n");
                    let margin = deeper(indent, Ghost(depth));
                    put_tree(out, x, &margin, next, Ghost(depth + 1));
                    put_closed(out, indent, color, Ghost(depth));
                },
                None => {
                    put(out, tint);
                    put(out, ")\x1B[0m\n");
                },
            }
        },
        Expr::While { condition, body } => {
            put(out, tint);
            put(out, "(\x1B[32mwhile\x1B[0m\n");
            let margin = deeper(indent, Ghost(depth));
            put_tree(out, condition, &margin, next, Ghost(depth + 1));
            put_tree(out, body, &margin, next, Ghost(depth + 1));
            put_closed(out, indent, color, Ghost(depth));
        },
    }
}

/// The tree as text, for the eyes of whoever debugs a parse: one node a
/// line, children two blanks deeper than their parent, brackets coloured
/// by depth.
pub fn show_tree(expr: &Expression) -> (text: String)
    ensures
        text@ == tree_text(expr@),
{
    let mut text = String::new();
    let indent = String::new();
    assert(indent@ =~= blanks(0));
    put_tree(&mut text, expr, &indent, 0, Ghost(0));
    text
}

} // verus!
