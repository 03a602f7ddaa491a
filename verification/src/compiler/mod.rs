//! The lowerer: from the expression tree to linked bytecode.

pub mod model;
pub mod laws;
pub mod agreement;
pub mod balance;

use vstd::prelude::*;
use crate::ast::string_views;
use crate::compiler::model::{
    BuilderView, constant_slot, flat_labels, flattened, children_labels, linkable, linked,
    linked_instruction, linked_value, lookup, merge, merged_children, merged_constants,
    merged_names, name_slot, peephole, position, remapped, remapped_all, shift_label, shift_value,
    };
use crate::compiler::laws::{
    lemma_flattened_ok, lemma_fresh_sealed, lemma_linked_well, lemma_lowered_sealed, sealed,
    well_linked,
};
use crate::vm::{Instruction, Program, Value, lemma_value_views_push, value_views};

verus! {

/// Collects the instructions, constants and names of one function body or
/// of the main code, and the function bodies that are to follow it.
#[derive(Debug)]
pub struct ProgramBuilder {
    pub debug_instructions: bool,
    pub instructions: Vec<Instruction>,
    pub constants: Vec<Value>,
    pub names: Vec<String>,
    pub target_no: usize,
    pub end_stuff: Vec<(Option<Instruction>, ProgramBuilder)>,
}

/// The models of the waiting function bodies, in order.
pub open spec fn children_view(children: Seq<(Option<Instruction>, ProgramBuilder)>) -> Seq<
    (Option<Instruction>, BuilderView),
>
    decreases children,
{
    Seq::new(
        children.len(),
        |k: int|
            if 0 <= k < children.len() {
                (children[k].0, builder_view(children[k].1))
            } else {
                arbitrary()
            },
    )
}

/// The model of a builder.
pub open spec fn builder_view(b: ProgramBuilder) -> BuilderView
    decreases b,
{
    BuilderView {
        debug: b.debug_instructions,
        instructions: b.instructions@,
        constants: value_views(b.constants@),
        names: string_views(b.names@),
        target_no: b.target_no,
        end_stuff: children_view(b.end_stuff@),
    }
}

impl View for ProgramBuilder {
    type V = BuilderView;

    open spec fn view(&self) -> BuilderView {
        builder_view(*self)
    }
}

/// The models of a sequence with one more string.
pub proof fn lemma_string_views_push(strings: Seq<String>, s: String)
    ensures
        string_views(strings.push(s)) == string_views(strings).push(s@),
{
    assert(string_views(strings.push(s)) =~= string_views(strings).push(s@));
}

impl ProgramBuilder {
    pub fn new(debug_instructions: bool) -> (builder: ProgramBuilder)
        ensures
            builder@ == BuilderView::fresh(debug_instructions),
            sealed(builder@),
            flat_labels(builder@) == 0,
    {
        proof {
            lemma_fresh_sealed(debug_instructions);
        }
        let builder = ProgramBuilder {
            debug_instructions,
            instructions: Vec::new(),
            constants: Vec::new(),
            names: Vec::new(),
            target_no: 0,
            end_stuff: Vec::new(),
        };
        assert(builder@.constants =~= Seq::empty());
        assert(builder@.names =~= Seq::empty());
        assert(builder@.end_stuff =~= Seq::empty());
        builder
    }

    pub fn add_constant(&mut self, constant: Value) -> (slot: usize)
        ensures
            (final(self)@, slot) == old(self)@.constant(constant@),
            slot < final(self)@.constants.len(),
    {
        let ghost table = value_views(self.constants@);
        let mut index: usize = 0;
        while index < self.constants.len()
            invariant
                *self == *old(self),
                table == value_views(self.constants@),
                0 <= index <= self.constants@.len(),
                constant_slot(table, constant@, 0) == constant_slot(table, constant@, index as int),
            decreases self.constants@.len() - index,
        {
            if self.constants[index].same(&constant) {
                return index;
            }
            index = index + 1;
        }
        proof {
            lemma_value_views_push(self.constants@, constant);
        }
        self.constants.push(constant);
        self.constants.len() - 1
    }

    pub fn add_name(&mut self, name: &String) -> (slot: usize)
        ensures
            (final(self)@, slot) == old(self)@.name(name@),
            slot < final(self)@.names.len(),
    {
        let ghost table = string_views(self.names@);
        let mut index: usize = 0;
        while index < self.names.len()
            invariant
                *self == *old(self),
                table == string_views(self.names@),
                0 <= index <= self.names@.len(),
                name_slot(table, name@, 0) == name_slot(table, name@, index as int),
            decreases self.names@.len() - index,
        {
            if self.names[index] == *name {
                return index;
            }
            index = index + 1;
        }
        let copy = name.clone();
        proof {
            lemma_string_views_push(self.names@, copy);
        }
        self.names.push(copy);
        self.names.len() - 1
    }

    pub fn emit(&mut self, instruction: Instruction)
        ensures
            final(self)@ == old(self)@.emit(instruction),
    {
        self.instructions.push(instruction)
    }

    pub fn target(&mut self) -> (label: usize)
        requires
            old(self).target_no < usize::MAX,
        ensures
            (final(self)@, label) == old(self)@.target(),
    {
        self.instructions.push(Instruction::JumpTarget(self.target_no));
        self.target_no = self.target_no + 1;
        self.target_no - 1
    }

    pub fn reserve_target(&mut self) -> (label: usize)
        requires
            old(self).target_no < usize::MAX,
        ensures
            (final(self)@, label) == old(self)@.reserve(),
    {
        self.target_no = self.target_no + 1;
        self.target_no - 1
    }

    pub fn add_reserved(&mut self, label: usize)
        ensures
            final(self)@ == old(self)@.place(label),
    {
        self.instructions.push(Instruction::JumpTarget(label))
    }

    pub fn stack_padding(&mut self)
        ensures
            final(self)@ == old(self)@.padding(),
    {
        self.emit(Instruction::PushNothing)
    }
}

} // verus!

verus! {

use crate::ast::{BinaryOp, Expr, ExprView, Expression, ExpressionView, UnaryOp, expression_view};
use crate::compiler::model::{
    all_number_texts, all_weight, binary_instruction, lowerable, lowered,
    lowered_all, number_texts, store_arguments, unary_instruction, weight,
};

use crate::tokens::TokenType;

fn unary_code(op: &UnaryOp) -> (i: Instruction)
    ensures
        i == unary_instruction(*op),
{
    match op {
        UnaryOp::Neg => Instruction::Negate,
        UnaryOp::Not => Instruction::Invert,
        UnaryOp::Show => Instruction::Show,
        UnaryOp::Panic => Instruction::Panic,
    }
}

fn binary_code(op: &BinaryOp) -> (i: Instruction)
    ensures
        i == binary_instruction(*op),
{
    match op {
        BinaryOp::Add => Instruction::Add,
        BinaryOp::Sub => Instruction::Subtract,
        BinaryOp::Mul => Instruction::Multiply,
        BinaryOp::Div => Instruction::Divide,
        BinaryOp::Exp => Instruction::RaiseTo,
        BinaryOp::Eq => Instruction::CheckEquality,
        BinaryOp::Lt => Instruction::Lesser,
        BinaryOp::Gt => Instruction::Greater,
        BinaryOp::Leq => Instruction::LesserEq,
        BinaryOp::Geq => Instruction::GreaterEq,
        BinaryOp::Neq => Instruction::CheckInequality,
    }
}

/// The nodes and the numeric literals of the first `i` trees are among
/// those of all of them, and one tree more adds its own.
pub proof fn lemma_take_sums(es: Seq<ExpressionView>, i: int)
    requires
        0 <= i <= es.len(),
    ensures
        all_weight(es.take(i)) <= all_weight(es),
        all_number_texts(es.take(i)).len() <= all_number_texts(es).len(),
        i < es.len() ==> all_weight(es.take(i + 1)) == all_weight(es.take(i)) + weight(es[i]),
        i < es.len() ==> all_number_texts(es.take(i + 1)) == all_number_texts(es.take(i))
            + number_texts(es[i]),
    decreases es.len() - i,
{
    if i < es.len() {
        assert(es.take(i + 1).drop_last() =~= es.take(i));
        assert(es.take(i + 1).last() == es[i]);
        lemma_take_sums(es, i + 1);
    } else {
        assert(es.take(i) =~= es);
    }
}

fn lower_impl(
    expression: &Expression,
    builder: &mut ProgramBuilder,
    numbers: &Vec<u64>,
    at: usize,
) -> (next: usize)
    requires
        lowerable(expression@),
        at + number_texts(expression@).len() <= numbers@.len(),
        old(builder).target_no + 2 * weight(expression@) <= usize::MAX,
    ensures
        (final(builder)@, next as nat) == lowered(
            expression@,
            old(builder)@,
            numbers@,
            at as nat,
        ),
        next == at + number_texts(expression@).len(),
        final(builder).target_no <= old(builder).target_no + 2 * weight(expression@),
    decreases expression, 1nat,
{
    match &expression.et {
        Expr::Literal { src } => {
            assert(expression@.et == ExprView::Literal { src: src@ });
            let count = numbers.len();
            let (value, next) = match src {
                TokenType::ILiteral { .. } => {
                    assert(number_texts(expression@).len() == 1);
                    (Value::Num(numbers[at]), at + 1)
                },
                TokenType::FLiteral { .. } => {
                    assert(number_texts(expression@).len() == 1);
                    (Value::Num(numbers[at]), at + 1)
                },
                TokenType::SLiteral { value, .. } => (Value::Str(value.clone()), at),
                TokenType::BLiteral(b) => (Value::Bool(*b), at),
                _ => (Value::Nothing, at),
            };
            let slot = builder.add_constant(value);
            builder.emit(Instruction::LoadConst(slot));
            next
        },
        Expr::Unary { op, right } => {
            let next = lower_impl(right, builder, numbers, at);
            builder.emit(unary_code(op));
            next
        },
        Expr::Binary { op, left, right } => {
            let middle = lower_impl(left, builder, numbers, at);
            let next = lower_impl(right, builder, numbers, middle);
            builder.emit(binary_code(op));
            next
        },
        Expr::Semicolon { left, right } => {
            let middle = lower_impl(left, builder, numbers, at);
            builder.emit(Instruction::Discard);
            lower_impl(right, builder, numbers, middle)
        },
        Expr::Block(inside) => match inside {
            Some(inner) => {
                builder.emit(Instruction::NewScope);
                let next = lower_impl(inner, builder, numbers, at);
                builder.emit(Instruction::EndScope);
                next
            },
            None => {
                builder.stack_padding();
                at
            },
        },
        Expr::Module(_, _) => lower_module(expression, builder, numbers, at),
        Expr::Call { .. } => lower_call(expression, builder, numbers, at),
        Expr::Property { object, name } => {
            let next = lower_impl(object, builder, numbers, at);
            let slot = builder.add_name(name);
            builder.emit(Instruction::AccessProperty(slot));
            next
        },
        Expr::Break { .. } => at,
        Expr::Continue => at,
        Expr::Use { .. } => at,
        Expr::Loop { .. } => lower_loop(expression, builder, numbers, at),
        Expr::If { .. } => lower_if(expression, builder, numbers, at),
        Expr::Assign { .. } => lower_assign(expression, builder, numbers, at),
        Expr::AssignOp { .. } => lower_assign_op(expression, builder, numbers, at),
        Expr::Identifier { id } => {
            let slot = builder.add_name(id);
            builder.emit(Instruction::LoadVar(slot));
            at
        },
        Expr::Fn { .. } => lower_function(expression, builder, numbers, at),
        Expr::Let { name, value } => match value {
            Some(x) => {
                let next = lower_impl(x, builder, numbers, at);
                let slot = builder.add_name(name);
                builder.emit(Instruction::AssignStore(slot));
                builder.stack_padding();
                next
            },
            None => {
                builder.stack_padding();
                at
            },
        },
        Expr::While { .. } => lower_while(expression, builder, numbers, at),
        Expr::EnumDecl { .. } => at,
    }
}

fn lower_call(
    expression: &Expression,
    builder: &mut ProgramBuilder,
    numbers: &Vec<u64>,
    at: usize,
) -> (next: usize)
    requires
        expression.et is Call,
        lowerable(expression@),
        at + number_texts(expression@).len() <= numbers@.len(),
        old(builder).target_no + 2 * weight(expression@) <= usize::MAX,
    ensures
        (final(builder)@, next as nat) == lowered(
            expression@,
            old(builder)@,
            numbers@,
            at as nat,
        ),
        next == at + number_texts(expression@).len(),
        final(builder).target_no <= old(builder).target_no + 2 * weight(expression@),
    decreases expression, 0nat,
{
    match &expression.et {
        Expr::Call { callee, args } => {
            let ghost views = expression@.et->Call_args;
            let ret = builder.reserve_target();
            builder.emit(Instruction::JumpRefTo(ret));
            let ghost start = builder@;
            let mut next = at;
            let mut i: usize = 0;
            assert(views.take(0) =~= Seq::empty());
            proof {
                lemma_take_sums(views, 0);
            }
            while i < args.len()
                invariant
                    0 <= i <= args@.len(),
                    views == expression@.et->Call_args,
                    views.len() == args@.len(),
                    forall|k: int| 0 <= k < args@.len() ==> views[k] == expression_view(*args@[k]),
                    forall|k: int| 0 <= k < views.len() ==> lowerable(#[trigger] views[k]),
                    expression.et matches Expr::Call { args: mine, .. } && mine == args,
                    (builder@, next as nat) == lowered_all(
                        views.take(i as int),
                        start,
                        numbers@,
                        at as nat,
                    ),
                    next == at + all_number_texts(views.take(i as int)).len(),
                    at + all_number_texts(views).len() <= numbers@.len(),
                    builder.target_no <= start.target_no + 2 * all_weight(views.take(i as int)),
                    start.target_no + 2 * all_weight(views) <= usize::MAX,
                decreases args@.len() - i,
            {
                proof {
                    lemma_take_sums(views, i as int);
                    lemma_take_sums(views, i as int + 1);
                    assert(views.take(i as int + 1).drop_last() =~= views.take(i as int));
                }
                next = lower_impl(&args[i], builder, numbers, next);
                i = i + 1;
            }
            assert(views.take(i as int) =~= views);
            let next = lower_impl(callee, builder, numbers, next);
            builder.emit(Instruction::Call);
            builder.add_reserved(ret);
            next
        },
        _ => at,
    }
}

fn lower_loop(
    expression: &Expression,
    builder: &mut ProgramBuilder,
    numbers: &Vec<u64>,
    at: usize,
) -> (next: usize)
    requires
        expression.et is Loop,
        lowerable(expression@),
        at + number_texts(expression@).len() <= numbers@.len(),
        old(builder).target_no + 2 * weight(expression@) <= usize::MAX,
    ensures
        (final(builder)@, next as nat) == lowered(
            expression@,
            old(builder)@,
            numbers@,
            at as nat,
        ),
        next == at + number_texts(expression@).len(),
        final(builder).target_no <= old(builder).target_no + 2 * weight(expression@),
    decreases expression, 0nat,
{
    match &expression.et {
        Expr::Loop { inside } => {
            let start = builder.target();
            let next = lower_impl(inside, builder, numbers, at);
            builder.emit(Instruction::Discard);
            builder.emit(Instruction::JumpTo(start));
            builder.stack_padding();
            next
        },
        _ => at,
    }
}

fn lower_if(
    expression: &Expression,
    builder: &mut ProgramBuilder,
    numbers: &Vec<u64>,
    at: usize,
) -> (next: usize)
    requires
        expression.et is If,
        lowerable(expression@),
        at + number_texts(expression@).len() <= numbers@.len(),
        old(builder).target_no + 2 * weight(expression@) <= usize::MAX,
    ensures
        (final(builder)@, next as nat) == lowered(
            expression@,
            old(builder)@,
            numbers@,
            at as nat,
        ),
        next == at + number_texts(expression@).len(),
        final(builder).target_no <= old(builder).target_no + 2 * weight(expression@),
    decreases expression, 0nat,
{
    match &expression.et {
        Expr::If { condition, then, else_ } => {
            let first = lower_impl(condition, builder, numbers, at);
            match else_ {
                Some(other) => {
                    let target = builder.reserve_target();
                    let end = builder.reserve_target();
                    builder.emit(Instruction::Invert);
                    builder.emit(Instruction::ConditionalJumpTo(target));
                    let second = lower_impl(then, builder, numbers, first);
                    builder.emit(Instruction::JumpTo(end));
                    builder.add_reserved(target);
                    let next = lower_impl(other, builder, numbers, second);
                    builder.add_reserved(end);
                    next
                },
                None => {
                    let target = builder.reserve_target();
                    builder.emit(Instruction::Invert);
                    builder.emit(Instruction::ConditionalJumpTo(target));
                    let next = lower_impl(then, builder, numbers, first);
                    builder.emit(Instruction::Discard);
                    builder.add_reserved(target);
                    builder.stack_padding();
                    next
                },
            }
        },
        _ => at,
    }
}

fn lower_assign(
    expression: &Expression,
    builder: &mut ProgramBuilder,
    numbers: &Vec<u64>,
    at: usize,
) -> (next: usize)
    requires
        expression.et is Assign,
        lowerable(expression@),
        at + number_texts(expression@).len() <= numbers@.len(),
        old(builder).target_no + 2 * weight(expression@) <= usize::MAX,
    ensures
        (final(builder)@, next as nat) == lowered(
            expression@,
            old(builder)@,
            numbers@,
            at as nat,
        ),
        next == at + number_texts(expression@).len(),
        final(builder).target_no <= old(builder).target_no + 2 * weight(expression@),
    decreases expression, 0nat,
{
    match &expression.et {
        Expr::Assign { left, right } => match &left.et {
            Expr::Identifier { id } => {
                proof {
                    reveal_with_fuel(expression_view, 2);
                }
                let next = lower_impl(right, builder, numbers, at);
                let slot = builder.add_name(id);
                builder.emit(Instruction::Store(slot));
                builder.stack_padding();
                next
            },
            _ => {
                proof {
                    reveal_with_fuel(expression_view, 2);
                }
                at
            },
        },
        _ => at,
    }
}

fn lower_assign_op(
    expression: &Expression,
    builder: &mut ProgramBuilder,
    numbers: &Vec<u64>,
    at: usize,
) -> (next: usize)
    requires
        expression.et is AssignOp,
        lowerable(expression@),
        at + number_texts(expression@).len() <= numbers@.len(),
        old(builder).target_no + 2 * weight(expression@) <= usize::MAX,
    ensures
        (final(builder)@, next as nat) == lowered(
            expression@,
            old(builder)@,
            numbers@,
            at as nat,
        ),
        next == at + number_texts(expression@).len(),
        final(builder).target_no <= old(builder).target_no + 2 * weight(expression@),
    decreases expression, 0nat,
{
    match &expression.et {
        Expr::AssignOp { left, right, op } => match &left.et {
            Expr::Identifier { id } => {
                proof {
                    reveal_with_fuel(expression_view, 2);
                }
                let slot = builder.add_name(id);
                builder.emit(Instruction::LoadVar(slot));
                let next = lower_impl(right, builder, numbers, at);
                builder.emit(binary_code(op));
                builder.emit(Instruction::Store(slot));
                builder.stack_padding();
                next
            },
            _ => {
                proof {
                    reveal_with_fuel(expression_view, 2);
                }
                at
            },
        },
        _ => at,
    }
}

fn lower_function(
    expression: &Expression,
    builder: &mut ProgramBuilder,
    numbers: &Vec<u64>,
    at: usize,
) -> (next: usize)
    requires
        expression.et is Fn,
        lowerable(expression@),
        at + number_texts(expression@).len() <= numbers@.len(),
        old(builder).target_no + 2 * weight(expression@) <= usize::MAX,
    ensures
        (final(builder)@, next as nat) == lowered(
            expression@,
            old(builder)@,
            numbers@,
            at as nat,
        ),
        next == at + number_texts(expression@).len(),
        final(builder).target_no <= old(builder).target_no + 2 * weight(expression@),
    decreases expression, 0nat,
{
    match &expression.et {
        Expr::Fn { name, body, args } => {
            let ghost names = string_views(args@);
            let entry = builder.reserve_target();
            let mut child = ProgramBuilder::new(builder.debug_instructions);
            if builder.debug_instructions {
                let slot = child.add_name(name);
                child.emit(Instruction::FunctionTag(slot));
            }
            child.emit(Instruction::NewScope);
            child.emit(Instruction::RequireArguments(args.len()));
            let ghost prologue = child@;
            let mut i = args.len();
            while i > 0
                invariant
                    0 <= i <= args@.len(),
                    names == string_views(args@),
                    child@ == store_arguments(prologue, names, i as nat),
                    child.target_no == 0,
                decreases i,
            {
                i = i - 1;
                let slot = child.add_name(&args[i]);
                child.emit(Instruction::AssignStore(slot));
            }
            let next = lower_impl(body, &mut child, numbers, at);
            child.emit(Instruction::EndScope);
            child.emit(Instruction::Swap);
            child.emit(Instruction::PopJump);
            let slot = builder.add_constant(Value::Fn(entry));
            builder.emit(Instruction::LoadConst(slot));
            builder.emit(Instruction::Duplicate);
            let slot = builder.add_name(name);
            builder.emit(Instruction::AssignStore(slot));
            let ghost before = builder@;
            let ghost waiting = child@;
            builder.end_stuff.push((Some(Instruction::JumpTarget(entry)), child));
            assert(builder@.end_stuff =~= before.end_stuff.push(
                (Some(Instruction::JumpTarget(entry)), waiting),
            ));
            next
        },
        _ => at,
    }
}

fn lower_while(
    expression: &Expression,
    builder: &mut ProgramBuilder,
    numbers: &Vec<u64>,
    at: usize,
) -> (next: usize)
    requires
        expression.et is While,
        lowerable(expression@),
        at + number_texts(expression@).len() <= numbers@.len(),
        old(builder).target_no + 2 * weight(expression@) <= usize::MAX,
    ensures
        (final(builder)@, next as nat) == lowered(
            expression@,
            old(builder)@,
            numbers@,
            at as nat,
        ),
        next == at + number_texts(expression@).len(),
        final(builder).target_no <= old(builder).target_no + 2 * weight(expression@),
    decreases expression, 0nat,
{
    match &expression.et {
        Expr::While { condition, body } => {
            let start = builder.target();
            let end = builder.reserve_target();
            let first = lower_impl(condition, builder, numbers, at);
            builder.emit(Instruction::Invert);
            builder.emit(Instruction::ConditionalJumpTo(end));
            let next = lower_impl(body, builder, numbers, first);
            builder.emit(Instruction::Discard);
            builder.emit(Instruction::JumpTo(start));
            builder.add_reserved(end);
            builder.stack_padding();
            next
        },
        _ => at,
    }
}

fn lower_module(
    expression: &Expression,
    builder: &mut ProgramBuilder,
    numbers: &Vec<u64>,
    at: usize,
) -> (next: usize)
    requires
        expression.et is Module,
        lowerable(expression@),
        at + number_texts(expression@).len() <= numbers@.len(),
        old(builder).target_no + 2 * weight(expression@) <= usize::MAX,
    ensures
        (final(builder)@, next as nat) == lowered(
            expression@,
            old(builder)@,
            numbers@,
            at as nat,
        ),
        next == at + number_texts(expression@).len(),
        final(builder).target_no <= old(builder).target_no + 2 * weight(expression@),
    decreases expression, 0nat,
{
    match &expression.et {
        Expr::Module(inside, name) => {
            builder.emit(Instruction::NewScope);
            let next = match inside {
                Some(inner) => lower_impl(inner, builder, numbers, at),
                None => {
                    builder.stack_padding();
                    at
                },
            };
            let slot = builder.add_name(name);
            builder.emit(Instruction::EndAndNameScope(slot));
            next
        },
        _ => at,
    }
}

/// Lowers `expression` into `builder`. `numbers` holds the value of every
/// numeric literal of the expression, in the order of
/// [`number_texts`](crate::compiler::model::number_texts).
/// A builder that links keeps linking: see
/// [`sealed`](crate::compiler::laws::sealed).
pub fn lower(expression: &Expression, builder: &mut ProgramBuilder, numbers: &Vec<u64>)
    requires
        lowerable(expression@),
        numbers@.len() == number_texts(expression@).len(),
        flat_labels(old(builder)@) + 2 * weight(expression@) <= usize::MAX,
    ensures
        final(builder)@ == lowered(expression@, old(builder)@, numbers@, 0).0,
        sealed(old(builder)@) ==> sealed(final(builder)@) && flat_labels(final(builder)@)
            <= flat_labels(old(builder)@) + 2 * weight(expression@),
{
    proof {
        if sealed(builder@) {
            lemma_lowered_sealed(expression@, builder@, numbers@, 0, Set::empty());
        }
    }
    let _ = lower_impl(expression, builder, numbers, 0);
}

} // verus!

verus! {

fn shifted(t: usize, base: usize) -> (r: usize)
    ensures
        r == shift_label(t, base),
{
    if t <= usize::MAX - base {
        t + base
    } else {
        t
    }
}

fn moved(map: &Vec<usize>, k: usize) -> (r: usize)
    ensures
        r == lookup(map@, k),
{
    if k < map.len() {
        map[k]
    } else {
        k
    }
}

fn remap(i: Instruction, base: usize, constants: &Vec<usize>, names: &Vec<usize>) -> (r: Instruction)
    ensures
        r == remapped(i, base, constants@, names@),
{
    match i {
        Instruction::LoadConst(n) => Instruction::LoadConst(moved(constants, n)),
        Instruction::LoadVar(n) => Instruction::LoadVar(moved(names, n)),
        Instruction::FunctionTag(n) => Instruction::FunctionTag(moved(names, n)),
        Instruction::EndAndNameScope(n) => Instruction::EndAndNameScope(moved(names, n)),
        Instruction::AccessProperty(n) => Instruction::AccessProperty(moved(names, n)),
        Instruction::CodegenHelper(n) => Instruction::CodegenHelper(moved(names, n)),
        Instruction::Store(n) => Instruction::Store(moved(names, n)),
        Instruction::AssignStore(n) => Instruction::AssignStore(moved(names, n)),
        Instruction::JumpTarget(t) => Instruction::JumpTarget(shifted(t, base)),
        Instruction::JumpTo(t) => Instruction::JumpTo(shifted(t, base)),
        Instruction::ConditionalJumpTo(t) => Instruction::ConditionalJumpTo(shifted(t, base)),
        Instruction::JumpRefTo(t) => Instruction::JumpRefTo(shifted(t, base)),
        other => other,
    }
}

/// Once flat, a builder holds as many labels as `flat_labels` counts.
pub proof fn lemma_flattened_labels(b: BuilderView)
    requires
        flat_labels(b) <= usize::MAX,
    ensures
        flattened(b).target_no == flat_labels(b),
        flattened(b).end_stuff.len() == 0,
        flattened(b).debug == b.debug,
    decreases b, 0nat,
{
    lemma_merged_labels(BuilderView { end_stuff: Seq::empty(), ..b }, b.end_stuff, b.end_stuff.len());
}

/// With the first `n` waiting bodies appended, a builder holds its own
/// labels and theirs.
pub proof fn lemma_merged_labels(
    acc: BuilderView,
    children: Seq<(Option<Instruction>, BuilderView)>,
    n: nat,
)
    requires
        n <= children.len(),
        acc.target_no + children_labels(children, n) <= usize::MAX,
    ensures
        merged_children(acc, children, n).target_no == acc.target_no + children_labels(children, n),
        merged_children(acc, children, n).end_stuff == acc.end_stuff,
        merged_children(acc, children, n).debug == acc.debug,
    decreases children, n,
{
    if n > 0 {
        lemma_merged_labels(acc, children, (n - 1) as nat);
        lemma_flattened_labels(children[n - 1].1);
    }
}

/// The labels of the first `n` waiting bodies are among those of all.
pub proof fn lemma_children_labels_monotonic(
    children: Seq<(Option<Instruction>, BuilderView)>,
    n: nat,
    m: nat,
)
    requires
        n <= m <= children.len(),
    ensures
        children_labels(children, n) <= children_labels(children, m),
    decreases m,
{
    if n < m {
        lemma_children_labels_monotonic(children, n, (m - 1) as nat);
    }
}

impl ProgramBuilder {
    /// Appends the flat function body `child` after a `Terminate` and the
    /// instruction `head`.
    fn absorb(&mut self, head: Option<Instruction>, child: ProgramBuilder)
        requires
            old(self).target_no + child.target_no <= usize::MAX,
        ensures
            final(self)@ == merge(old(self)@, head, child@),
    {
        let base = self.target_no;
        let ghost start = self@;
        let ghost theirs = child@;
        self.instructions.push(Instruction::Terminate);
        match head {
            Some(h) => {
                self.instructions.push(h);
            },
            None => {},
        }
        let ghost opening = self.instructions@;
        assert(opening =~= start.instructions.push(Instruction::Terminate) + (match head {
            Some(h) => seq![h],
            None => Seq::empty(),
        }));
        let mut constant_map: Vec<usize> = Vec::new();
        let mut k: usize = 0;
        while k < child.constants.len()
            invariant
                0 <= k <= child.constants@.len(),
                theirs == child@,
                self.instructions@ == opening,
                self@.names == start.names,
                self@.end_stuff == start.end_stuff,
                self.target_no == base,
                self.debug_instructions == start.debug,
                (self@.constants, constant_map@) == merged_constants(
                    start.constants,
                    theirs.constants,
                    base,
                    k as nat,
                ),
            decreases child.constants@.len() - k,
        {
            let value = match &child.constants[k] {
                Value::Fn(t) => Value::Fn(shifted(*t, base)),
                other => other.clone(),
            };
            assert(value@ == shift_value(theirs.constants[k as int], base));
            let slot = self.add_constant(value);
            constant_map.push(slot);
            k = k + 1;
        }
        let ghost tables = self@.constants;
        let mut name_map: Vec<usize> = Vec::new();
        let mut k: usize = 0;
        while k < child.names.len()
            invariant
                0 <= k <= child.names@.len(),
                theirs == child@,
                self.instructions@ == opening,
                self@.constants == tables,
                self@.end_stuff == start.end_stuff,
                self.target_no == base,
                self.debug_instructions == start.debug,
                (self@.names, name_map@) == merged_names(start.names, theirs.names, k as nat),
            decreases child.names@.len() - k,
        {
            let slot = self.add_name(&child.names[k]);
            name_map.push(slot);
            k = k + 1;
        }
        let ghost names = self@.names;
        let mut k: usize = 0;
        while k < child.instructions.len()
            invariant
                0 <= k <= child.instructions@.len(),
                theirs == child@,
                self@.constants == tables,
                self@.names == names,
                self@.end_stuff == start.end_stuff,
                self.target_no == base,
                self.debug_instructions == start.debug,
                self.instructions@ == opening + remapped_all(
                    theirs.instructions,
                    base,
                    constant_map@,
                    name_map@,
                ).take(k as int),
            decreases child.instructions@.len() - k,
        {
            let ghost before = self.instructions@;
            self.instructions.push(remap(child.instructions[k], base, &constant_map, &name_map));
            assert(self.instructions@ =~= opening + remapped_all(
                theirs.instructions,
                base,
                constant_map@,
                name_map@,
            ).take(k as int + 1));
            k = k + 1;
        }
        assert(remapped_all(theirs.instructions, base, constant_map@, name_map@).take(k as int)
            =~= remapped_all(theirs.instructions, base, constant_map@, name_map@));
        self.target_no = self.target_no + child.target_no;
    }

    /// Appends every waiting function body, the bodies that wait inside a
    /// body first.
    pub fn flattened(self) -> (flat: Self)
        requires
            flat_labels(self@) <= usize::MAX,
        ensures
            flat@ == flattened(self@),
        decreases self,
    {
        let ghost whole = self@;
        let ProgramBuilder {
            debug_instructions,
            instructions,
            constants,
            names,
            target_no,
            end_stuff,
        } = self;
        let mut children = end_stuff;
        let ghost waiting = whole.end_stuff;
        let mut acc = ProgramBuilder {
            debug_instructions,
            instructions,
            constants,
            names,
            target_no,
            end_stuff: Vec::new(),
        };
        assert(acc@.end_stuff =~= Seq::empty());
        let ghost base = acc@;
        let ghost mut done: nat = 0;
        while children.len() > 0
            invariant
                done + children@.len() == waiting.len(),
                waiting == whole.end_stuff,
                base.target_no + children_labels(waiting, waiting.len()) <= usize::MAX,
                forall|j: int|
                    done <= j < waiting.len() ==> #[trigger] waiting[j] == (
                        children@[j - done].0,
                        builder_view(children@[j - done].1),
                    ),
                forall|k: int|
                    0 <= k < children@.len() ==> decreases_to!(self => #[trigger] children@[k].1),
                acc@ == merged_children(base, waiting, done),
            decreases children@.len(),
        {
            let ghost rest = children@;
            assert(waiting[done as int] == (rest[0].0, builder_view(rest[0].1)));
            let (head, child) = children.remove(0);
            assert forall|j: int| done + 1 <= j < waiting.len() implies #[trigger] waiting[j] == (
                children@[j - (done + 1)].0,
                builder_view(children@[j - (done + 1)].1),
            ) by {
                assert(children@[j - (done + 1)] == rest[j - done]);
            }
            assert forall|k: int| 0 <= k < children@.len() implies decreases_to!(self => #[trigger] children@[k].1) by {
                assert(children@[k] == rest[k + 1]);
            }
            proof {
                lemma_children_labels_monotonic(waiting, done + 1, waiting.len());
                lemma_merged_labels(base, waiting, done);
                lemma_flattened_labels(waiting[done as int].1);
            }
            let flat = child.flattened();
            acc.absorb(head, flat);
            proof {
                done = done + 1;
            }
        }
        acc
    }
}

} // verus!

verus! {

fn find(instructions: &Vec<Instruction>, t: usize) -> (p: usize)
    ensures
        p == position(instructions@, t, 0),
        p <= instructions@.len(),
{
    let mut i: usize = 0;
    while i < instructions.len()
        invariant
            0 <= i <= instructions@.len(),
            position(instructions@, t, 0) == position(instructions@, t, i as int),
        decreases instructions@.len() - i,
    {
        match instructions[i] {
            Instruction::JumpTarget(label) => {
                if label == t {
                    return i;
                }
            },
            _ => {},
        }
        i = i + 1;
    }
    i
}

fn without_padding(instructions: &Vec<Instruction>) -> (kept: Vec<Instruction>)
    ensures
        kept@ == peephole(instructions@),
{
    let mut kept: Vec<Instruction> = Vec::new();
    let mut i: usize = 0;
    assert(instructions@.skip(0) =~= instructions@);
    while i < instructions.len()
        invariant
            0 <= i <= instructions@.len(),
            peephole(instructions@) == kept@ + peephole(instructions@.skip(i as int)),
        decreases instructions@.len() - i,
    {
        let ghost rest = instructions@.skip(i as int);
        let ghost before = kept@;
        let padded = match instructions[i] {
            Instruction::PushNothing => if i + 1 < instructions.len() {
                match instructions[i + 1] {
                    Instruction::Discard => true,
                    _ => false,
                }
            } else {
                false
            },
            _ => false,
        };
        if padded {
            assert(rest.skip(2) =~= instructions@.skip(i as int + 2));
            i = i + 2;
        } else {
            assert(rest.skip(1) =~= instructions@.skip(i as int + 1));
            kept.push(instructions[i]);
            assert(before + peephole(rest) =~= kept@ + peephole(rest.skip(1)));
            i = i + 1;
        }
    }
    assert(kept@ + peephole(instructions@.skip(i as int)) =~= kept@);
    kept
}

impl ProgramBuilder {
    /// Links a flat builder: the peephole runs, then every label gives
    /// way to the position that it marks.
    fn finish_(self) -> (program: Program)
        requires
            linkable(self@),
        ensures
            program@ == linked(self@),
    {
        let ghost whole = self@;
        let kept = without_padding(&self.instructions);
        let mut instructions: Vec<Instruction> = Vec::new();
        let mut k: usize = 0;
        while k < kept.len()
            invariant
                0 <= k <= kept@.len(),
                instructions@.len() == k,
                forall|j: int|
                    0 <= j < k ==> #[trigger] instructions@[j] == linked_instruction(
                        kept@[j],
                        kept@,
                    ),
            decreases kept@.len() - k,
        {
            let resolved = match kept[k] {
                Instruction::JumpTarget(_) => Instruction::Null,
                Instruction::JumpTo(t) => Instruction::Jump(find(&kept, t)),
                Instruction::ConditionalJumpTo(t) => Instruction::ConditionalJump(find(&kept, t)),
                Instruction::JumpRefTo(t) => Instruction::PushJumpRef(find(&kept, t)),
                other => other,
            };
            instructions.push(resolved);
            k = k + 1;
        }
        let ProgramBuilder { constants: mut labelled, names, .. } = self;
        let ghost symbolic = value_views(labelled@);
        let mut constants: Vec<Value> = Vec::new();
        let mut k: usize = 0;
        while k < labelled.len()
            invariant
                0 <= k <= labelled@.len(),
                value_views(labelled@) == symbolic,
                constants@.len() == k,
                forall|j: int|
                    0 <= j < k ==> (#[trigger] constants@[j])@ == linked_value(symbolic[j], kept@),
            decreases labelled@.len() - k,
        {
            let value = match &labelled[k] {
                Value::Fn(t) => Value::Fn(find(&kept, *t)),
                other => other.clone(),
            };
            assert(value@ == linked_value(symbolic[k as int], kept@));
            constants.push(value);
            k = k + 1;
        }
        let program = Program { instructions, constants, names };
        assert(program@.instructions =~= linked(whole).instructions);
        assert(program@.constants =~= linked(whole).constants);
        program
    }

    /// The linked program: every waiting function body is appended, the
    /// peephole runs, and every label gives way to the position that it
    /// marks.
    ///
    /// The builder must link, as one does that lowering filled: then every
    /// jump of the program holds the position of one of its instructions,
    /// and every function constant the position of the first instruction
    /// of a function body, right behind a `Terminate`.
    pub fn finish(self) -> (program: Program)
        requires
            sealed(self@),
            flat_labels(self@) <= usize::MAX,
        ensures
            program@ == linked(flattened(self@)),
            well_linked(program@),
    {
        let ghost whole = self@;
        let flat = self.flattened();
        let count = flat.instructions.len();
        proof {
            lemma_flattened_ok(whole);
            lemma_linked_well(flat@);
        }
        flat.finish_()
    }
}

} // verus!

verus! {

use crate::compiler::model::NumberText;
use crate::tokens::IntLiteralType;

/// A numeric literal as the source wrote it: its base and its digits. A
/// literal with a fractional part is decimal.
#[derive(Debug)]
pub struct NumberSource {
    pub kind: IntLiteralType,
    pub text: String,
}

impl View for NumberSource {
    type V = NumberText;

    open spec fn view(&self) -> NumberText {
        NumberText { kind: self.kind, text: self.text@ }
    }
}

/// The models of a sequence of numeric literals, in order.
pub open spec fn number_views(sources: Seq<NumberSource>) -> Seq<NumberText> {
    Seq::new(sources.len(), |i: int| sources[i]@)
}

fn collect(expression: &Expression, out: &mut Vec<NumberSource>)
    ensures
        number_views(final(out)@) == number_views(old(out)@) + number_texts(expression@),
    decreases expression,
{
    let ghost before = number_views(out@);
    match &expression.et {
        Expr::Literal { src } => match src {
            TokenType::ILiteral { value, kind, .. } => {
                out.push(NumberSource { kind: *kind, text: value.clone() });
                assert(number_views(out@) =~= before + number_texts(expression@));
            },
            TokenType::FLiteral { value, .. } => {
                out.push(NumberSource { kind: IntLiteralType::Decimal, text: value.clone() });
                assert(number_views(out@) =~= before + number_texts(expression@));
            },
            _ => {
                assert(number_views(out@) =~= before + number_texts(expression@));
            },
        },
        Expr::Unary { right, .. } => collect(right, out),
        Expr::Binary { left, right, .. } => {
            collect(left, out);
            collect(right, out);
            assert(number_views(out@) =~= before + number_texts(expression@));
        },
        Expr::Semicolon { left, right } => {
            collect(left, out);
            collect(right, out);
            assert(number_views(out@) =~= before + number_texts(expression@));
        },
        Expr::Block(inside) => match inside {
            Some(inner) => collect(inner, out),
            None => {
                assert(number_views(out@) =~= before + number_texts(expression@));
            },
        },
        Expr::Module(inside, _) => match inside {
            Some(inner) => collect(inner, out),
            None => {
                assert(number_views(out@) =~= before + number_texts(expression@));
            },
        },
        Expr::Call { callee, args } => {
            let ghost views = expression@.et->Call_args;
            let mut i: usize = 0;
            assert(views.take(0) =~= Seq::empty());
            assert(number_views(out@) =~= before + all_number_texts(views.take(0)));
            while i < args.len()
                invariant
                    0 <= i <= args@.len(),
                    views.len() == args@.len(),
                    forall|k: int| 0 <= k < args@.len() ==> views[k] == expression_view(*args@[k]),
                    expression.et matches Expr::Call { args: mine, .. } && mine == args,
                    number_views(out@) == before + all_number_texts(views.take(i as int)),
                decreases args@.len() - i,
            {
                proof {
                    lemma_take_sums(views, i as int);
                }
                collect(&args[i], out);
                assert(number_views(out@) =~= before + all_number_texts(views.take(i as int + 1)));
                i = i + 1;
            }
            assert(views.take(i as int) =~= views);
            collect(callee, out);
            assert(number_views(out@) =~= before + number_texts(expression@));
        },
        Expr::Property { object, .. } => collect(object, out),
        Expr::Loop { inside } => collect(inside, out),
        Expr::If { condition, then, else_ } => {
            collect(condition, out);
            collect(then, out);
            match else_ {
                Some(other) => {
                    collect(other, out);
                },
                None => {},
            }
            assert(number_views(out@) =~= before + number_texts(expression@));
        },
        Expr::Assign { left, right } => {
            proof {
                reveal_with_fuel(expression_view, 2);
            }
            match &left.et {
                Expr::Identifier { .. } => collect(right, out),
                _ => {
                    assert(number_views(out@) =~= before + number_texts(expression@));
                },
            }
        },
        Expr::AssignOp { left, right, .. } => {
            proof {
                reveal_with_fuel(expression_view, 2);
            }
            match &left.et {
                Expr::Identifier { .. } => collect(right, out),
                _ => {
                    assert(number_views(out@) =~= before + number_texts(expression@));
                },
            }
        },
        Expr::Fn { body, .. } => collect(body, out),
        Expr::Let { value, .. } => match value {
            Some(x) => collect(x, out),
            None => {
                assert(number_views(out@) =~= before + number_texts(expression@));
            },
        },
        Expr::While { condition, body } => {
            collect(condition, out);
            collect(body, out);
            assert(number_views(out@) =~= before + number_texts(expression@));
        },
        _ => {
            assert(number_views(out@) =~= before + number_texts(expression@));
        },
    }
}

/// The numeric literals of the expression, in the order in which lowering
/// meets them: the host gives their values to [`lower`] in this order.
pub fn numbers_of(expression: &Expression) -> (sources: Vec<NumberSource>)
    ensures
        number_views(sources@) == number_texts(expression@),
{
    let mut sources: Vec<NumberSource> = Vec::new();
    assert(number_views(sources@) =~= Seq::empty());
    collect(expression, &mut sources);
    assert(Seq::<NumberText>::empty() + number_texts(expression@) =~= number_texts(expression@));
    sources
}

/// Lowering and linking are functions of the tree: two trees with the same
/// model, lowered from builders with the same model with the same
/// numbers, give the same builder, and so the same program.
pub proof fn lowering_is_deterministic(
    first: Expression,
    second: Expression,
    a: ProgramBuilder,
    b: ProgramBuilder,
    numbers: Seq<u64>,
)
    requires
        first@ == second@,
        a@ == b@,
    ensures
        lowered(first@, a@, numbers, 0) == lowered(second@, b@, numbers, 0),
        linked(flattened(lowered(first@, a@, numbers, 0).0)) == linked(
            flattened(lowered(second@, b@, numbers, 0).0),
        ),
{
}

/// Whether the lowerer has code for every node of the tree.
pub fn can_lower(expression: &Expression) -> (r: bool)
    ensures
        r == lowerable(expression@),
    decreases expression,
{
    match &expression.et {
        Expr::Literal { src } => match src {
            TokenType::ILiteral { .. } => true,
            TokenType::FLiteral { .. } => true,
            TokenType::SLiteral { .. } => true,
            TokenType::BLiteral(_) => true,
            _ => false,
        },
        Expr::Unary { right, .. } => can_lower(right),
        Expr::Binary { left, right, .. } => can_lower(left) && can_lower(right),
        Expr::Semicolon { left, right } => can_lower(left) && can_lower(right),
        Expr::Block(inside) => match inside {
            Some(inner) => can_lower(inner),
            None => true,
        },
        Expr::Module(inside, _) => match inside {
            Some(inner) => can_lower(inner),
            None => true,
        },
        Expr::Call { callee, args } => {
            if !can_lower(callee) {
                return false;
            }
            let ghost views = expression@.et->Call_args;
            let mut i: usize = 0;
            while i < args.len()
                invariant
                    0 <= i <= args@.len(),
                    views.len() == args@.len(),
                    forall|k: int| 0 <= k < args@.len() ==> views[k] == expression_view(*args@[k]),
                    expression.et matches Expr::Call { args: mine, .. } && mine == args,
                    views == expression@.et->Call_args,
                    expression@.et is Call,
                    forall|k: int| 0 <= k < i ==> lowerable(#[trigger] views[k]),
                decreases args@.len() - i,
            {
                if !can_lower(&args[i]) {
                    assert(!lowerable(views[i as int]));
                    return false;
                }
                i = i + 1;
            }
            true
        },
        Expr::Property { object, .. } => can_lower(object),
        Expr::Break { .. } => false,
        Expr::Continue => false,
        Expr::Use { .. } => false,
        Expr::Loop { inside } => can_lower(inside),
        Expr::If { condition, then, else_ } => can_lower(condition) && can_lower(then) && match else_ {
            Some(other) => can_lower(other),
            None => true,
        },
        Expr::Assign { left, right } => {
            proof {
                reveal_with_fuel(expression_view, 2);
            }
            match &left.et {
                Expr::Identifier { .. } => can_lower(right),
                _ => true,
            }
        },
        Expr::AssignOp { left, right, .. } => {
            proof {
                reveal_with_fuel(expression_view, 2);
            }
            match &left.et {
                Expr::Identifier { .. } => can_lower(right),
                _ => true,
            }
        },
        Expr::Identifier { .. } => true,
        Expr::Fn { body, .. } => can_lower(body),
        Expr::Let { value, .. } => match value {
            Some(x) => can_lower(x),
            None => true,
        },
        Expr::While { condition, body } => can_lower(condition) && can_lower(body),
        Expr::EnumDecl { .. } => false,
    }
}

fn join(a: Option<usize>, b: Option<usize>) -> (sum: Option<usize>)
    ensures
        match (a, b) {
            (Some(x), Some(y)) => if x + y <= usize::MAX {
                sum == Some((x + y) as usize)
            } else {
                sum is None
            },
            _ => sum is None,
        },
{
    match (a, b) {
        (Some(x), Some(y)) => x.checked_add(y),
        _ => None,
    }
}

/// Number of nodes of the tree, when a `usize` holds it.
pub fn size_of(expression: &Expression) -> (size: Option<usize>)
    ensures
        match size {
            Some(n) => n == weight(expression@),
            None => weight(expression@) > usize::MAX,
        },
    decreases expression,
{
    let below = match &expression.et {
        Expr::Literal { .. } => Some(0),
        Expr::Unary { right, .. } => size_of(right),
        Expr::Binary { left, right, .. } => join(size_of(left), size_of(right)),
        Expr::Semicolon { left, right } => join(size_of(left), size_of(right)),
        Expr::Block(inside) => match inside {
            Some(inner) => size_of(inner),
            None => Some(0),
        },
        Expr::Module(inside, _) => match inside {
            Some(inner) => size_of(inner),
            None => Some(0),
        },
        Expr::Call { callee, args } => {
            let ghost views = expression@.et->Call_args;
            let mut total = size_of(callee);
            let mut i: usize = 0;
            assert(views.take(0) =~= Seq::empty());
            while i < args.len()
                invariant
                    0 <= i <= args@.len(),
                    views.len() == args@.len(),
                    forall|k: int| 0 <= k < args@.len() ==> views[k] == expression_view(*args@[k]),
                    expression.et matches Expr::Call { args: mine, callee: theirs } && mine == args
                        && theirs == callee,
                    match total {
                        Some(n) => n == weight(expression_view(**callee)) + all_weight(
                            views.take(i as int),
                        ),
                        None => weight(expression_view(**callee)) + all_weight(
                            views.take(i as int),
                        ) > usize::MAX,
                    },
                decreases args@.len() - i,
            {
                proof {
                    lemma_take_sums(views, i as int);
                }
                total = join(total, size_of(&args[i]));
                i = i + 1;
            }
            assert(views.take(i as int) =~= views);
            total
        },
        Expr::Property { object, .. } => size_of(object),
        Expr::Break { with } => match with {
            Some(x) => size_of(x),
            None => Some(0),
        },
        Expr::Continue => Some(0),
        Expr::Use { .. } => Some(0),
        Expr::Loop { inside } => size_of(inside),
        Expr::If { condition, then, else_ } => join(
            join(size_of(condition), size_of(then)),
            match else_ {
                Some(other) => size_of(other),
                None => Some(0),
            },
        ),
        Expr::Assign { left, right } => join(size_of(left), size_of(right)),
        Expr::AssignOp { left, right, .. } => join(size_of(left), size_of(right)),
        Expr::Identifier { .. } => Some(0),
        Expr::Fn { body, .. } => size_of(body),
        Expr::Let { value, .. } => match value {
            Some(x) => size_of(x),
            None => Some(0),
        },
        Expr::While { condition, body } => join(size_of(condition), size_of(body)),
        Expr::EnumDecl { .. } => Some(0),
    };
    join(Some(1), below)
}

/// Lowers the tree into an empty builder and links it. `numbers` holds the
/// value of every numeric literal of the tree, in the order of
/// [`numbers_of`]. There is a program exactly when every node of the tree
/// can be lowered, `numbers` holds one value for each numeric literal, and
/// the labels of the tree can be counted; the program then links well.
pub fn compile(expression: &Expression, numbers: &Vec<u64>, debug: bool) -> (program: Option<
    Program,
>)
    ensures
        program is Some <==> lowerable(expression@) && numbers@.len() == number_texts(
            expression@,
        ).len() && 2 * weight(expression@) <= usize::MAX,
        program matches Some(p) ==> p@ == linked(
            flattened(lowered(expression@, BuilderView::fresh(debug), numbers@, 0).0),
        ) && well_linked(p@),
{
    if !can_lower(expression) {
        return None;
    }
    let expected = numbers_of(expression);
    if expected.len() != numbers.len() {
        return None;
    }
    match size_of(expression) {
        Some(size) => {
            if size > usize::MAX / 2 {
                return None;
            }
        },
        None => {
            return None;
        },
    }
    let mut builder = ProgramBuilder::new(debug);
    lower(expression, &mut builder, numbers);
    Some(builder.finish())
}

impl Default for ProgramBuilder {
    fn default() -> (builder: ProgramBuilder)
        ensures
            builder@ == BuilderView::fresh(false),
            sealed(builder@),
    {
        ProgramBuilder::new(false)
    }
}

fn digit_value_in(c: char, base: u64) -> (d: Option<u64>)
    requires
        base <= 16,
    ensures
        match crate::compiler::model::digit_in(c, base as nat) {
            Some(v) => d == Some(v as u64) && v < 16,
            None => d is None,
        },
{
    let v: u32 = if c >= '0' && c <= '9' {
        c as u32 - '0' as u32
    } else if c >= 'a' && c <= 'f' {
        c as u32 - 'a' as u32 + 10
    } else if c >= 'A' && c <= 'F' {
        c as u32 - 'A' as u32 + 10
    } else {
        16
    };
    if (v as u64) < base {
        Some(v as u64)
    } else {
        None
    }
}

/// The integer that a literal in base sixteen, eight or two stands for:
/// the value of its digits, when they fit a 64-bit signed integer. The
/// value of a decimal literal is for the host to read.
pub fn integer_of(source: &NumberSource) -> (value: Option<i64>)
    ensures
        value == crate::compiler::model::integer_value(source@),
{
    let base: u64 = match source.kind {
        IntLiteralType::Hexadecimal => 16,
        IntLiteralType::Octal => 8,
        IntLiteralType::Binary => 2,
        IntLiteralType::Decimal => {
            return None;
        },
    };
    let chars = crate::text::chars_of(source.text.as_str());
    let ghost text = source.text@;
    let limit: u64 = 0x7fff_ffff_ffff_ffff;
    let mut value: u64 = 0;
    let mut k: usize = 0;
    assert(text.take(0) =~= Seq::empty());
    while k < chars.len()
        invariant
            0 <= k <= chars@.len(),
            chars@ == text,
            text == source.text@,
            crate::compiler::model::base_of(source.kind) == Some(base as nat),
            base == 16 || base == 8 || base == 2,
            limit == i64::MAX,
            value <= limit,
            crate::compiler::model::digits_value(text.take(k as int), base as nat) == Some(
                value as nat,
            ),
        decreases chars@.len() - k,
    {
        proof {
            assert(text.take(k as int + 1).drop_last() =~= text.take(k as int));
            assert(text.take(k as int + 1).last() == text[k as int]);
            crate::compiler::model::lemma_digits_grow(text, k as int + 1, base as nat);
        }
        let digit = match digit_value_in(chars[k], base) {
            Some(d) => d,
            None => {
                return None;
            },
        };
        let wide: u128 = if base == 16 {
            value as u128 * 16
        } else if base == 8 {
            value as u128 * 8
        } else {
            value as u128 * 2
        } + digit as u128;
        if wide > limit as u128 {
            return None;
        }
        value = wide as u64;
        k = k + 1;
    }
    assert(text.take(k as int) =~= text);
    if chars.len() == 0 {
        None
    } else {
        Some(value as i64)
    }
}

} // verus!
