//! What the lowerer computes, as functions on the model of a builder.

use vstd::prelude::*;
use crate::ast::{BinaryOp, ExprView, ExpressionView, UnaryOp};
use crate::tokens::{IntLiteralType, TokenTypeView};
use crate::vm::{Instruction, ProgramView, ValueView, same_value};

verus! {

/// Mathematical model of a builder: the instructions emitted so far, the
/// tables of constants and names, the next free label, and the function
/// bodies that wait to be appended, each with the instruction that is to
/// stand before it.
pub struct BuilderView {
    pub debug: bool,
    pub instructions: Seq<Instruction>,
    pub constants: Seq<ValueView>,
    pub names: Seq<Seq<char>>,
    pub target_no: usize,
    pub end_stuff: Seq<(Option<Instruction>, BuilderView)>,
}

/// A numeric literal as the source wrote it: its base and its digits. A
/// literal with a fractional part is decimal.
pub struct NumberText {
    pub kind: IntLiteralType,
    pub text: Seq<char>,
}

/// Position of the first constant at or after `from` that equals `v`, or
/// the length of the table.
pub open spec fn constant_slot(constants: Seq<ValueView>, v: ValueView, from: int) -> int
    decreases constants.len() - from,
{
    if from < 0 || from >= constants.len() || same_value(constants[from], v) {
        from
    } else {
        constant_slot(constants, v, from + 1)
    }
}

/// Position of the first name at or after `from` that is `name`, or the
/// length of the table.
pub open spec fn name_slot(names: Seq<Seq<char>>, name: Seq<char>, from: int) -> int
    decreases names.len() - from,
{
    if from < 0 || from >= names.len() || names[from] == name {
        from
    } else {
        name_slot(names, name, from + 1)
    }
}

/// The table with `v` in it, and the position of `v`: a constant that the
/// table holds already is not added again.
pub open spec fn with_constant(constants: Seq<ValueView>, v: ValueView) -> (Seq<ValueView>, usize) {
    let slot = constant_slot(constants, v, 0);
    if slot < constants.len() {
        (constants, slot as usize)
    } else {
        (constants.push(v), constants.len() as usize)
    }
}

/// The table with `name` in it, and the position of `name`.
pub open spec fn with_name(names: Seq<Seq<char>>, name: Seq<char>) -> (Seq<Seq<char>>, usize) {
    let slot = name_slot(names, name, 0);
    if slot < names.len() {
        (names, slot as usize)
    } else {
        (names.push(name), names.len() as usize)
    }
}

impl BuilderView {
    /// An empty builder.
    pub open spec fn fresh(debug: bool) -> BuilderView {
        BuilderView {
            debug,
            instructions: Seq::empty(),
            constants: Seq::empty(),
            names: Seq::empty(),
            target_no: 0,
            end_stuff: Seq::empty(),
        }
    }

    pub open spec fn emit(self, instruction: Instruction) -> BuilderView {
        BuilderView { instructions: self.instructions.push(instruction), ..self }
    }

    pub open spec fn constant(self, v: ValueView) -> (BuilderView, usize) {
        let (constants, slot) = with_constant(self.constants, v);
        (BuilderView { constants, ..self }, slot)
    }

    pub open spec fn name(self, name: Seq<char>) -> (BuilderView, usize) {
        let (names, slot) = with_name(self.names, name);
        (BuilderView { names, ..self }, slot)
    }

    /// A new label that no instruction marks yet.
    pub open spec fn reserve(self) -> (BuilderView, usize) {
        (BuilderView { target_no: (self.target_no + 1) as usize, ..self }, self.target_no)
    }

    /// The position reached is marked with the label `t`.
    pub open spec fn place(self, t: usize) -> BuilderView {
        self.emit(Instruction::JumpTarget(t))
    }

    /// A new label that marks the position reached.
    pub open spec fn target(self) -> (BuilderView, usize) {
        let (b, t) = self.reserve();
        (b.place(t), t)
    }

    pub open spec fn padding(self) -> BuilderView {
        self.emit(Instruction::PushNothing)
    }

    /// The name is added and an instruction that holds its position
    /// emitted.
    pub open spec fn named(self, name: Seq<char>, make: spec_fn(usize) -> Instruction) -> BuilderView {
        let (b, slot) = self.name(name);
        b.emit(make(slot))
    }

    /// The function body `child` waits to be appended after the
    /// instruction `head`.
    pub open spec fn defer(self, head: Instruction, child: BuilderView) -> BuilderView {
        BuilderView { end_stuff: self.end_stuff.push((Some(head), child)), ..self }
    }
}

pub open spec fn unary_instruction(op: UnaryOp) -> Instruction {
    match op {
        UnaryOp::Neg => Instruction::Negate,
        UnaryOp::Not => Instruction::Invert,
        UnaryOp::Show => Instruction::Show,
        UnaryOp::Panic => Instruction::Panic,
    }
}

pub open spec fn binary_instruction(op: BinaryOp) -> Instruction {
    match op {
        BinaryOp::Add => Instruction::Add,
        BinaryOp::Sub => Instruction::Subtract,
        BinaryOp::Mul => Instruction::Multiply,
        BinaryOp::Div => Instruction::Divide,
        BinaryOp::Exp => Instruction::RaiseTo,
        BinaryOp::Eq => Instruction::CheckEquality,
        BinaryOp::Lt => Instruction::Lesser,
        BinaryOp::Gt => Instruction::Greater,
        BinaryOp::Leq => Instruction::LesserEq,
        BinaryOp::Geq => Instruction::GreaterEq,
        BinaryOp::Neq => Instruction::CheckInequality,
    }
}

/// Whether the lowerer has code for every node of the tree: it has none
/// for `break`, `continue`, `use` and enum declarations, nor for a literal
/// node that holds no literal.
pub open spec fn lowerable(e: ExpressionView) -> bool
    decreases e,
{
    match e.et {
        ExprView::Literal { src } => src.is_literal(),
        ExprView::Unary { right, .. } => lowerable(*right),
        ExprView::Binary { left, right, .. } => lowerable(*left) && lowerable(*right),
        ExprView::Semicolon { left, right } => lowerable(*left) && lowerable(*right),
        ExprView::Block(inside) => (match inside {
            Some(inner) => lowerable(*inner),
            None => true,
        }),
        ExprView::Module(inside, _) => (match inside {
            Some(inner) => lowerable(*inner),
            None => true,
        }),
        ExprView::Call { callee, args } => lowerable(*callee) && forall|i: int|
            0 <= i < args.len() ==> lowerable(#[trigger] args[i]),
        ExprView::Property { object, .. } => lowerable(*object),
        ExprView::Break { .. } => false,
        ExprView::Continue => false,
        ExprView::Use { .. } => false,
        ExprView::Loop { inside } => lowerable(*inside),
        ExprView::If { condition, then, else_ } => lowerable(*condition) && lowerable(*then) && (
        match else_ {
            Some(other) => lowerable(*other),
            None => true,
        }),
        ExprView::Assign { left, right } => left.et is Identifier ==> lowerable(*right),
        ExprView::AssignOp { left, right, .. } => left.et is Identifier ==> lowerable(*right),
        ExprView::Identifier { .. } => true,
        ExprView::Fn { body, .. } => lowerable(*body),
        ExprView::Let { value, .. } => (match value {
            Some(x) => lowerable(*x),
            None => true,
        }),
        ExprView::While { condition, body } => lowerable(*condition) && lowerable(*body),
        ExprView::EnumDecl { .. } => false,
    }
}

/// The numeric literals of the tree, in the order in which lowering meets
/// them. An assignment whose target is no identifier is not lowered, and
/// its literals are not met.
pub open spec fn number_texts(e: ExpressionView) -> Seq<NumberText>
    decreases e,
{
    match e.et {
        ExprView::Literal { src } => match src {
            TokenTypeView::ILiteral { value, kind, .. } => seq![NumberText { kind, text: value }],
            TokenTypeView::FLiteral { value, .. } => seq![
                NumberText { kind: IntLiteralType::Decimal, text: value },
            ],
            _ => Seq::empty(),
        },
        ExprView::Unary { right, .. } => number_texts(*right),
        ExprView::Binary { left, right, .. } => number_texts(*left) + number_texts(*right),
        ExprView::Semicolon { left, right } => number_texts(*left) + number_texts(*right),
        ExprView::Block(inside) => (match inside {
            Some(inner) => number_texts(*inner),
            None => Seq::empty(),
        }),
        ExprView::Module(inside, _) => (match inside {
            Some(inner) => number_texts(*inner),
            None => Seq::empty(),
        }),
        ExprView::Call { callee, args } => all_number_texts(args) + number_texts(*callee),
        ExprView::Property { object, .. } => number_texts(*object),
        ExprView::Break { .. } => Seq::empty(),
        ExprView::Continue => Seq::empty(),
        ExprView::Use { .. } => Seq::empty(),
        ExprView::Loop { inside } => number_texts(*inside),
        ExprView::If { condition, then, else_ } => number_texts(*condition) + number_texts(*then)
            + (match else_ {
            Some(other) => number_texts(*other),
            None => Seq::empty(),
        }),
        ExprView::Assign { left, right } => if left.et is Identifier {
            number_texts(*right)
        } else {
            Seq::empty()
        },
        ExprView::AssignOp { left, right, .. } => if left.et is Identifier {
            number_texts(*right)
        } else {
            Seq::empty()
        },
        ExprView::Identifier { .. } => Seq::empty(),
        ExprView::Fn { body, .. } => number_texts(*body),
        ExprView::Let { value, .. } => (match value {
            Some(x) => number_texts(*x),
            None => Seq::empty(),
        }),
        ExprView::While { condition, body } => number_texts(*condition) + number_texts(*body),
        ExprView::EnumDecl { .. } => Seq::empty(),
    }
}

/// The numeric literals of the trees, one tree after the other.
pub open spec fn all_number_texts(es: Seq<ExpressionView>) -> Seq<NumberText>
    decreases es,
{
    if es.len() == 0 {
        Seq::empty()
    } else {
        all_number_texts(es.drop_last()) + number_texts(es.last())
    }
}

/// Number of nodes of the tree.
pub open spec fn weight(e: ExpressionView) -> nat
    decreases e,
{
    1 + match e.et {
        ExprView::Literal { .. } => 0,
        ExprView::Unary { right, .. } => weight(*right),
        ExprView::Binary { left, right, .. } => weight(*left) + weight(*right),
        ExprView::Semicolon { left, right } => weight(*left) + weight(*right),
        ExprView::Block(inside) => (match inside {
            Some(inner) => weight(*inner),
            None => 0,
        }),
        ExprView::Module(inside, _) => (match inside {
            Some(inner) => weight(*inner),
            None => 0,
        }),
        ExprView::Call { callee, args } => weight(*callee) + all_weight(args),
        ExprView::Property { object, .. } => weight(*object),
        ExprView::Break { with } => (match with {
            Some(x) => weight(*x),
            None => 0,
        }),
        ExprView::Continue => 0,
        ExprView::Use { .. } => 0,
        ExprView::Loop { inside } => weight(*inside),
        ExprView::If { condition, then, else_ } => weight(*condition) + weight(*then) + (
        match else_ {
            Some(other) => weight(*other),
            None => 0,
        }),
        ExprView::Assign { left, right } => weight(*left) + weight(*right),
        ExprView::AssignOp { left, right, .. } => weight(*left) + weight(*right),
        ExprView::Identifier { .. } => 0,
        ExprView::Fn { body, .. } => weight(*body),
        ExprView::Let { value, .. } => (match value {
            Some(x) => weight(*x),
            None => 0,
        }),
        ExprView::While { condition, body } => weight(*condition) + weight(*body),
        ExprView::EnumDecl { .. } => 0,
    }
}

/// Number of nodes of the trees together.
pub open spec fn all_weight(es: Seq<ExpressionView>) -> nat
    decreases es,
{
    if es.len() == 0 {
        0
    } else {
        all_weight(es.drop_last()) + weight(es.last())
    }
}

/// The value of a literal. Numbers are taken from `numbers`, of which `at`
/// have been used; the result says how many have been used then.
pub open spec fn literal_value(src: TokenTypeView, numbers: Seq<u64>, at: nat) -> (ValueView, nat) {
    match src {
        TokenTypeView::ILiteral { .. } => (ValueView::Num(numbers[at as int]), at + 1),
        TokenTypeView::FLiteral { .. } => (ValueView::Num(numbers[at as int]), at + 1),
        TokenTypeView::SLiteral { value, .. } => (ValueView::Str(value), at),
        TokenTypeView::BLiteral(b) => (ValueView::Bool(b), at),
        _ => (ValueView::Nothing, at),
    }
}

/// The prologue of a function stores its arguments from the last to the
/// first: the first `n` names of `args` are stored last.
pub open spec fn store_arguments(b: BuilderView, args: Seq<Seq<char>>, n: nat) -> BuilderView
    decreases args.len() - n,
{
    if n >= args.len() {
        b
    } else {
        store_arguments(b, args, n + 1).named(args[n as int], |k: usize| Instruction::AssignStore(k))
    }
}

/// The builder after lowering `e` into `b`: the code of `e` is appended,
/// and leaves exactly one value on the stack when it runs. `numbers` holds
/// the values of the numeric literals in the order in which lowering meets
/// them; `at` of them have been used.
pub open spec fn lowered(e: ExpressionView, b: BuilderView, numbers: Seq<u64>, at: nat) -> (
    BuilderView,
    nat,
)
    decreases e,
{
    match e.et {
        ExprView::Literal { src } => {
            let (v, at1) = literal_value(src, numbers, at);
            let (b1, slot) = b.constant(v);
            (b1.emit(Instruction::LoadConst(slot)), at1)
        },
        ExprView::Unary { op, right } => {
            let (b1, at1) = lowered(*right, b, numbers, at);
            (b1.emit(unary_instruction(op)), at1)
        },
        ExprView::Binary { op, left, right } => {
            let (b1, at1) = lowered(*left, b, numbers, at);
            let (b2, at2) = lowered(*right, b1, numbers, at1);
            (b2.emit(binary_instruction(op)), at2)
        },
        ExprView::Semicolon { left, right } => {
            let (b1, at1) = lowered(*left, b, numbers, at);
            lowered(*right, b1.emit(Instruction::Discard), numbers, at1)
        },
        ExprView::Block(inside) => match inside {
            Some(inner) => {
                let (b1, at1) = lowered(*inner, b.emit(Instruction::NewScope), numbers, at);
                (b1.emit(Instruction::EndScope), at1)
            },
            None => (b.padding(), at),
        },
        ExprView::Module(inside, name) => {
            let (b1, at1) = match inside {
                Some(inner) => lowered(*inner, b.emit(Instruction::NewScope), numbers, at),
                None => (b.emit(Instruction::NewScope).padding(), at),
            };
            (b1.named(name, |k: usize| Instruction::EndAndNameScope(k)), at1)
        },
        ExprView::Call { callee, args } => {
            let (b0, ret) = b.reserve();
            let (b1, at1) = lowered_all(args, b0.emit(Instruction::JumpRefTo(ret)), numbers, at);
            let (b2, at2) = lowered(*callee, b1, numbers, at1);
            (b2.emit(Instruction::Call).place(ret), at2)
        },
        ExprView::Property { object, name } => {
            let (b1, at1) = lowered(*object, b, numbers, at);
            (b1.named(name, |k: usize| Instruction::AccessProperty(k)), at1)
        },
        ExprView::Break { .. } => (b, at),
        ExprView::Continue => (b, at),
        ExprView::Use { .. } => (b, at),
        ExprView::Loop { inside } => {
            let (b0, start) = b.target();
            let (b1, at1) = lowered(*inside, b0, numbers, at);
            (b1.emit(Instruction::Discard).emit(Instruction::JumpTo(start)).padding(), at1)
        },
        ExprView::If { condition, then, else_ } => {
            let (b1, at1) = lowered(*condition, b, numbers, at);
            match else_ {
                Some(other) => {
                    let (b2, target) = b1.reserve();
                    let (b3, end) = b2.reserve();
                    let (b4, at2) = lowered(
                        *then,
                        b3.emit(Instruction::Invert).emit(Instruction::ConditionalJumpTo(target)),
                        numbers,
                        at1,
                    );
                    let (b5, at3) = lowered(
                        *other,
                        b4.emit(Instruction::JumpTo(end)).place(target),
                        numbers,
                        at2,
                    );
                    (b5.place(end), at3)
                },
                None => {
                    let (b2, target) = b1.reserve();
                    let (b3, at2) = lowered(
                        *then,
                        b2.emit(Instruction::Invert).emit(Instruction::ConditionalJumpTo(target)),
                        numbers,
                        at1,
                    );
                    (b3.emit(Instruction::Discard).place(target).padding(), at2)
                },
            }
        },
        ExprView::Assign { left, right } => match left.et {
            ExprView::Identifier { id } => {
                let (b1, at1) = lowered(*right, b, numbers, at);
                (b1.named(id, |k: usize| Instruction::Store(k)).padding(), at1)
            },
            _ => (b, at),
        },
        ExprView::AssignOp { left, right, op } => match left.et {
            ExprView::Identifier { id } => {
                let (b0, slot) = b.name(id);
                let (b1, at1) = lowered(*right, b0.emit(Instruction::LoadVar(slot)), numbers, at);
                (
                    b1.emit(binary_instruction(op)).emit(Instruction::Store(slot)).padding(),
                    at1,
                )
            },
            _ => (b, at),
        },
        ExprView::Identifier { id } => (b.named(id, |k: usize| Instruction::LoadVar(k)), at),
        ExprView::Fn { name, body, args } => {
            let (b0, entry) = b.reserve();
            let child0 = BuilderView::fresh(b.debug);
            let child1 = if b.debug {
                child0.named(name, |k: usize| Instruction::FunctionTag(k))
            } else {
                child0
            };
            let child2 = store_arguments(
                child1.emit(Instruction::NewScope).emit(
                    Instruction::RequireArguments(args.len() as usize),
                ),
                args,
                0,
            );
            let (child3, at1) = lowered(*body, child2, numbers, at);
            let child = child3.emit(Instruction::EndScope).emit(Instruction::Swap).emit(
                Instruction::PopJump,
            );
            let (b1, slot) = b0.constant(ValueView::Fn(entry));
            (
                b1.emit(Instruction::LoadConst(slot)).emit(Instruction::Duplicate).named(
                    name,
                    |k: usize| Instruction::AssignStore(k),
                ).defer(Instruction::JumpTarget(entry), child),
                at1,
            )
        },
        ExprView::Let { name, value } => match value {
            Some(x) => {
                let (b1, at1) = lowered(*x, b, numbers, at);
                (b1.named(name, |k: usize| Instruction::AssignStore(k)).padding(), at1)
            },
            None => (b.padding(), at),
        },
        ExprView::While { condition, body } => {
            let (b0, start) = b.target();
            let (b1, end) = b0.reserve();
            let (b2, at1) = lowered(*condition, b1, numbers, at);
            let (b3, at2) = lowered(
                *body,
                b2.emit(Instruction::Invert).emit(Instruction::ConditionalJumpTo(end)),
                numbers,
                at1,
            );
            (
                b3.emit(Instruction::Discard).emit(Instruction::JumpTo(start)).place(
                    end,
                ).padding(),
                at2,
            )
        },
        ExprView::EnumDecl { .. } => (b, at),
    }
}

/// The builder after lowering the trees into `b`, one after the other.
pub open spec fn lowered_all(es: Seq<ExpressionView>, b: BuilderView, numbers: Seq<u64>, at: nat) -> (
    BuilderView,
    nat,
)
    decreases es,
{
    if es.len() == 0 {
        (b, at)
    } else {
        let (b1, at1) = lowered_all(es.drop_last(), b, numbers, at);
        lowered(es.last(), b1, numbers, at1)
    }
}

/// A label of a function body, as it reads once the body stands in a
/// builder whose labels end at `base`.
pub open spec fn shift_label(t: usize, base: usize) -> usize {
    if t + base <= usize::MAX {
        (t + base) as usize
    } else {
        t
    }
}

/// A constant of a function body, as it reads in the enclosing builder: a
/// function constant holds a label, which is shifted.
pub open spec fn shift_value(v: ValueView, base: usize) -> ValueView {
    match v {
        ValueView::Fn(t) => ValueView::Fn(shift_label(t, base)),
        _ => v,
    }
}

/// The table `acc` with the first `n` constants of a function body added,
/// and for each of them its position in that table.
pub open spec fn merged_constants(
    acc: Seq<ValueView>,
    child: Seq<ValueView>,
    base: usize,
    n: nat,
) -> (Seq<ValueView>, Seq<usize>)
    decreases n,
{
    if n == 0 || n > child.len() {
        (acc, Seq::empty())
    } else {
        let (table, map) = merged_constants(acc, child, base, (n - 1) as nat);
        let (table1, slot) = with_constant(table, shift_value(child[n - 1], base));
        (table1, map.push(slot))
    }
}

/// The table `acc` with the first `n` names of a function body added, and
/// for each of them its position in that table.
pub open spec fn merged_names(acc: Seq<Seq<char>>, child: Seq<Seq<char>>, n: nat) -> (
    Seq<Seq<char>>,
    Seq<usize>,
)
    decreases n,
{
    if n == 0 || n > child.len() {
        (acc, Seq::empty())
    } else {
        let (table, map) = merged_names(acc, child, (n - 1) as nat);
        let (table1, slot) = with_name(table, child[n - 1]);
        (table1, map.push(slot))
    }
}

/// The new position of entry `k` of a table; an operand that names no
/// entry stays.
pub open spec fn lookup(map: Seq<usize>, k: usize) -> usize {
    if k < map.len() {
        map[k as int]
    } else {
        k
    }
}

/// An instruction of a function body, as it reads in the enclosing
/// builder: operands that name a constant or a name follow the tables, and
/// labels are shifted.
pub open spec fn remapped(i: Instruction, base: usize, constants: Seq<usize>, names: Seq<usize>) -> Instruction {
    match i {
        Instruction::LoadConst(n) => Instruction::LoadConst(lookup(constants, n)),
        Instruction::LoadVar(n) => Instruction::LoadVar(lookup(names, n)),
        Instruction::FunctionTag(n) => Instruction::FunctionTag(lookup(names, n)),
        Instruction::EndAndNameScope(n) => Instruction::EndAndNameScope(lookup(names, n)),
        Instruction::AccessProperty(n) => Instruction::AccessProperty(lookup(names, n)),
        Instruction::CodegenHelper(n) => Instruction::CodegenHelper(lookup(names, n)),
        Instruction::Store(n) => Instruction::Store(lookup(names, n)),
        Instruction::AssignStore(n) => Instruction::AssignStore(lookup(names, n)),
        Instruction::JumpTarget(t) => Instruction::JumpTarget(shift_label(t, base)),
        Instruction::JumpTo(t) => Instruction::JumpTo(shift_label(t, base)),
        Instruction::ConditionalJumpTo(t) => Instruction::ConditionalJumpTo(shift_label(t, base)),
        Instruction::JumpRefTo(t) => Instruction::JumpRefTo(shift_label(t, base)),
        other => other,
    }
}

/// The instructions of a function body, as they read in the enclosing
/// builder.
pub open spec fn remapped_all(
    instructions: Seq<Instruction>,
    base: usize,
    constants: Seq<usize>,
    names: Seq<usize>,
) -> Seq<Instruction> {
    Seq::new(instructions.len(), |k: int| remapped(instructions[k], base, constants, names))
}

/// The builder `acc` with the flat function body `child` appended: a
/// `Terminate` keeps the code before it from running into the body, `head`
/// stands before the body, and the tables and labels of the body are
/// carried over into those of `acc`.
pub open spec fn merge(acc: BuilderView, head: Option<Instruction>, child: BuilderView) -> BuilderView {
    let base = acc.target_no;
    let (constants, constant_map) = merged_constants(
        acc.constants,
        child.constants,
        base,
        child.constants.len(),
    );
    let (names, name_map) = merged_names(acc.names, child.names, child.names.len());
    let start = acc.instructions.push(Instruction::Terminate) + (match head {
        Some(h) => seq![h],
        None => Seq::empty(),
    });
    BuilderView {
        debug: acc.debug,
        instructions: start + remapped_all(child.instructions, base, constant_map, name_map),
        constants,
        names,
        target_no: (acc.target_no + child.target_no) as usize,
        end_stuff: acc.end_stuff,
    }
}

/// The builder with every waiting function body appended, the bodies that
/// wait inside a body first.
pub open spec fn flattened(b: BuilderView) -> BuilderView
    decreases b, 0nat,
{
    merged_children(
        BuilderView { end_stuff: Seq::empty(), ..b },
        b.end_stuff,
        b.end_stuff.len(),
    )
}

/// The builder `acc` with the first `n` of the waiting bodies appended.
pub open spec fn merged_children(
    acc: BuilderView,
    children: Seq<(Option<Instruction>, BuilderView)>,
    n: nat,
) -> BuilderView
    decreases children, n,
{
    if n == 0 || n > children.len() {
        acc
    } else {
        merge(
            merged_children(acc, children, (n - 1) as nat),
            children[n - 1].0,
            flattened(children[n - 1].1),
        )
    }
}

/// Number of labels that the builder will hold once it is flat.
pub open spec fn flat_labels(b: BuilderView) -> nat
    decreases b, 0nat,
{
    b.target_no as nat + children_labels(b.end_stuff, b.end_stuff.len())
}

/// Number of labels of the first `n` waiting bodies, once flat.
pub open spec fn children_labels(children: Seq<(Option<Instruction>, BuilderView)>, n: nat) -> nat
    decreases children, n,
{
    if n == 0 || n > children.len() {
        0
    } else {
        children_labels(children, (n - 1) as nat) + flat_labels(children[n - 1].1)
    }
}

/// The instructions without the pairs that push nothing and discard it at
/// once.
pub open spec fn peephole(s: Seq<Instruction>) -> Seq<Instruction>
    decreases s.len(),
{
    if s.len() == 0 {
        s
    } else if s[0] == Instruction::PushNothing && s.len() >= 2 && s[1] == Instruction::Discard {
        peephole(s.skip(2))
    } else {
        seq![s[0]] + peephole(s.skip(1))
    }
}

/// Position of the first mark of the label `t` at or after `from`, or the
/// length of the sequence.
pub open spec fn position(s: Seq<Instruction>, t: usize, from: int) -> int
    decreases s.len() - from,
{
    if from < 0 || from >= s.len() || s[from] == Instruction::JumpTarget(t) {
        from
    } else {
        position(s, t, from + 1)
    }
}

/// Some instruction marks the label `t`.
pub open spec fn defines(s: Seq<Instruction>, t: usize) -> bool {
    position(s, t, 0) < s.len()
}

/// The label that an instruction refers to, if it refers to one.
pub open spec fn label_of(i: Instruction) -> Option<usize> {
    match i {
        Instruction::JumpTo(t) => Some(t),
        Instruction::ConditionalJumpTo(t) => Some(t),
        Instruction::JumpRefTo(t) => Some(t),
        _ => None,
    }
}

/// An instruction with its label replaced by the position that the label
/// marks; a mark becomes a `Null`.
pub open spec fn linked_instruction(i: Instruction, s: Seq<Instruction>) -> Instruction {
    match i {
        Instruction::JumpTarget(_) => Instruction::Null,
        Instruction::JumpTo(t) => Instruction::Jump(position(s, t, 0) as usize),
        Instruction::ConditionalJumpTo(t) => Instruction::ConditionalJump(
            position(s, t, 0) as usize,
        ),
        Instruction::JumpRefTo(t) => Instruction::PushJumpRef(position(s, t, 0) as usize),
        other => other,
    }
}

/// A constant with its label replaced by the position that the label marks.
pub open spec fn linked_value(v: ValueView, s: Seq<Instruction>) -> ValueView {
    match v {
        ValueView::Fn(t) => ValueView::Fn(position(s, t, 0) as usize),
        _ => v,
    }
}

/// Every label that an instruction or a function constant of the flat
/// builder refers to is marked, once the peephole has run.
pub open spec fn linkable(b: BuilderView) -> bool {
    let s = peephole(b.instructions);
    &&& forall|k: int|
        0 <= k < s.len() && label_of(#[trigger] s[k]) is Some ==> defines(s, label_of(s[k])->0)
    &&& forall|k: int|
        0 <= k < b.constants.len() && (#[trigger] b.constants[k]) is Fn ==> defines(
            s,
            b.constants[k]->Fn_0,
        )
}

/// The program that a flat builder links to.
pub open spec fn linked(b: BuilderView) -> ProgramView {
    let s = peephole(b.instructions);
    ProgramView {
        instructions: Seq::new(s.len(), |k: int| linked_instruction(s[k], s)),
        constants: Seq::new(b.constants.len(), |k: int| linked_value(b.constants[k], s)),
        names: b.names,
    }
}

/// The base of the literals whose value is an integer: sixteen, eight or
/// two. A decimal literal is read as a number with a fraction, and has no
/// base here.
pub open spec fn base_of(kind: IntLiteralType) -> Option<nat> {
    match kind {
        IntLiteralType::Hexadecimal => Some(16),
        IntLiteralType::Octal => Some(8),
        IntLiteralType::Binary => Some(2),
        IntLiteralType::Decimal => None,
    }
}

/// The value of a character as a digit of the base, if it is one.
pub open spec fn digit_in(c: char, base: nat) -> Option<nat> {
    let v: nat = if '0' <= c && c <= '9' {
        (c as u32 - '0' as u32) as nat
    } else if 'a' <= c && c <= 'f' {
        (c as u32 - 'a' as u32 + 10) as nat
    } else if 'A' <= c && c <= 'F' {
        (c as u32 - 'A' as u32 + 10) as nat
    } else {
        16
    };
    if v < base {
        Some(v)
    } else {
        None
    }
}

/// `v` times the base, for the bases sixteen, eight and two.
pub open spec fn scaled(v: nat, base: nat) -> nat {
    if base == 16 {
        v * 16
    } else if base == 8 {
        v * 8
    } else {
        v * 2
    }
}

/// The number that the digits stand for in the base, most significant
/// digit first, if every character is a digit of the base. No digits
/// stand for zero.
pub open spec fn digits_value(text: Seq<char>, base: nat) -> Option<nat>
    decreases text.len(),
{
    if text.len() == 0 {
        Some(0)
    } else {
        match (digits_value(text.drop_last(), base), digit_in(text.last(), base)) {
            (Some(v), Some(d)) => Some(scaled(v, base) + d),
            _ => None,
        }
    }
}

/// The integer that a literal in base sixteen, eight or two stands for.
/// There is none for a decimal literal, for a literal without digits or
/// with a character that is no digit of its base, and for a value above
/// the largest 64-bit signed integer.
pub open spec fn integer_value(source: NumberText) -> Option<i64> {
    match base_of(source.kind) {
        Some(base) => match digits_value(source.text, base) {
            Some(v) => if source.text.len() > 0 && v <= i64::MAX {
                Some(v as i64)
            } else {
                None
            },
            None => None,
        },
        None => None,
    }
}

/// The digits read so far stand for no more than all the digits do; and
/// where they stand for no number, neither do all the digits.
pub proof fn lemma_digits_grow(text: Seq<char>, k: int, base: nat)
    requires
        0 <= k <= text.len(),
    ensures
        digits_value(text.take(k), base) is None ==> digits_value(text, base) is None,
        digits_value(text, base) is Some ==> digits_value(text.take(k), base)->0
            <= digits_value(text, base)->0,
    decreases text.len() - k,
{
    if k < text.len() {
        assert(text.take(k + 1).drop_last() =~= text.take(k));
        assert(text.take(k + 1).last() == text[k]);
        lemma_digits_grow(text, k + 1, base);
    } else {
        assert(text.take(k) =~= text);
    }
}

} // verus!
