//! What the machine does, as a function from one state to the next.

use vstd::prelude::*;
use crate::number::{negated, number_eq, number_lt};
use crate::vm::{Instruction, ProgramView, ValueView, same_value};

verus! {

/// Mathematical model of a scope: its bindings, oldest first. No name is
/// bound twice.
pub struct ScopeView {
    pub stuff: Seq<(Seq<char>, ValueView)>,
}

/// Mathematical model of the machine: the position of the next
/// instruction, the program, the operand stack with its top last, the
/// scope stack with the global scope first, and the scopes that modules
/// left behind.
pub struct MachineView {
    pub ip: usize,
    pub program: ProgramView,
    pub stack: Seq<ValueView>,
    pub scopes: Seq<ScopeView>,
    pub heap: Seq<ScopeView>,
}

/// The arithmetic that the machine leaves to its host.
#[derive(Debug, Clone, Copy, PartialEq, Eq, Structural)]
pub enum Arithmetic {
    Add,
    Subtract,
    Multiply,
    Divide,
    RaiseTo,
}

/// Why the machine cannot go on.
#[derive(Debug, Clone, Copy, PartialEq, Eq, Structural)]
pub enum Fault {
    /// An instruction needs more operands than the stack holds.
    StackEmpty,
    /// An operand is no number.
    ExpectedNumber,
    /// An operand is no boolean.
    ExpectedBool,
    /// The value called is no function.
    ExpectedFunction,
    /// The value read from is no scope.
    ExpectedScope,
    /// The value jumped to is no jump reference, or the stack holds none.
    ExpectedJumpRef,
    /// A function received another number of arguments than it requires.
    ArgumentCount { expected: usize, received: usize },
    /// No scope binds the name with this index.
    Undefined(usize),
    /// The scope read from does not bind the name with this index.
    NoProperty(usize),
    /// The instruction holds a label: the program is not linked.
    Unlinked,
    /// An operand names no constant, no name or no scope.
    BadOperand,
}

/// Mathematical model of what one step asks of the host.
pub enum EffectView {
    /// Nothing: the next step may follow.
    Continue,
    /// The program has ended.
    Halt,
    /// The value is to be printed.
    Show(ValueView),
    /// The result of the operation is to be supplied as a number.
    Compute { op: Arithmetic, lhs: u64, rhs: u64 },
    /// The program aborts with the value.
    Panic(ValueView),
    /// The machine cannot go on.
    Fault(Fault),
}

/// Position of the first binding of `name` at or after `from`, or the
/// number of bindings.
pub open spec fn binding_slot(stuff: Seq<(Seq<char>, ValueView)>, name: Seq<char>, from: int) -> int
    decreases stuff.len() - from,
{
    if from < 0 || from >= stuff.len() || stuff[from].0 == name {
        from
    } else {
        binding_slot(stuff, name, from + 1)
    }
}

impl ScopeView {
    pub open spec fn empty() -> ScopeView {
        ScopeView { stuff: Seq::empty() }
    }

    /// The scope binds `name`.
    pub open spec fn binds(self, name: Seq<char>) -> bool {
        binding_slot(self.stuff, name, 0) < self.stuff.len()
    }

    /// The value that `name` is bound to.
    pub open spec fn get(self, name: Seq<char>) -> ValueView {
        self.stuff[binding_slot(self.stuff, name, 0)].1
    }

    /// The scope with `name` bound to `v`, in place of what it was bound to.
    pub open spec fn bind(self, name: Seq<char>, v: ValueView) -> ScopeView {
        let slot = binding_slot(self.stuff, name, 0);
        if slot < self.stuff.len() {
            ScopeView { stuff: self.stuff.update(slot, (name, v)) }
        } else {
            ScopeView { stuff: self.stuff.push((name, v)) }
        }
    }
}

/// The innermost scope at or below position `from` that binds `name`, or
/// -1 when none does.
pub open spec fn binder(scopes: Seq<ScopeView>, name: Seq<char>, from: int) -> int
    decreases from + 1,
{
    if from < 0 || from >= scopes.len() {
        -1
    } else if scopes[from].binds(name) {
        from
    } else {
        binder(scopes, name, from - 1)
    }
}

/// Number of values above the topmost jump reference among the first
/// `upto` values of the stack, or -1 when there is none.
pub open spec fn above_jump_ref(stack: Seq<ValueView>, upto: int) -> int
    decreases upto,
{
    if upto <= 0 || upto > stack.len() {
        -1
    } else if stack[upto - 1] is JumpRef {
        stack.len() - upto
    } else {
        above_jump_ref(stack, upto - 1)
    }
}

/// The position after `to`: a jump lands on a mark, and the machine goes
/// on behind it.
pub open spec fn behind(to: usize) -> usize {
    if to < usize::MAX {
        (to + 1) as usize
    } else {
        to
    }
}

impl MachineView {
    /// The machine before the first step: an empty stack and the global
    /// scope.
    pub open spec fn start(program: ProgramView) -> MachineView {
        MachineView {
            ip: 0,
            program,
            stack: Seq::empty(),
            scopes: seq![ScopeView::empty()],
            heap: Seq::empty(),
        }
    }

    /// The machine at the next instruction.
    pub open spec fn advance(self) -> MachineView {
        MachineView { ip: behind(self.ip), ..self }
    }

    /// The machine behind the position `to`.
    pub open spec fn jump(self, to: usize) -> MachineView {
        MachineView { ip: behind(to), ..self }
    }

    pub open spec fn push(self, v: ValueView) -> MachineView {
        MachineView { stack: self.stack.push(v), ..self }
    }

    /// The machine without the `n` topmost values.
    pub open spec fn pop(self, n: int) -> MachineView {
        MachineView { stack: self.stack.take(self.stack.len() - n), ..self }
    }

    /// The value `depth` below the top of the stack.
    pub open spec fn top(self, depth: int) -> ValueView {
        self.stack[self.stack.len() - 1 - depth]
    }

    pub open spec fn done(self) -> (MachineView, EffectView) {
        (self.advance(), EffectView::Continue)
    }

    pub open spec fn fails(self, fault: Fault) -> (MachineView, EffectView) {
        (self, EffectView::Fault(fault))
    }
}

/// The result of a comparison of two numbers.
pub open spec fn compared(i: Instruction, a: u64, b: u64) -> bool {
    match i {
        Instruction::Lesser => number_lt(a, b),
        Instruction::Greater => number_lt(b, a),
        Instruction::LesserEq => number_lt(a, b) || number_eq(a, b),
        _ => number_lt(b, a) || number_eq(a, b),
    }
}

/// The operation that an arithmetic instruction asks of the host.
pub open spec fn arithmetic_of(i: Instruction) -> Arithmetic {
    match i {
        Instruction::Add => Arithmetic::Add,
        Instruction::Subtract => Arithmetic::Subtract,
        Instruction::Multiply => Arithmetic::Multiply,
        Instruction::Divide => Arithmetic::Divide,
        _ => Arithmetic::RaiseTo,
    }
}

/// An instruction on two numbers: an operation for the host, or a
/// comparison.
pub open spec fn binary(m: MachineView, i: Instruction) -> (MachineView, EffectView) {
    if m.stack.len() < 2 {
        m.fails(Fault::StackEmpty)
    } else {
        match (m.top(1), m.top(0)) {
            (ValueView::Num(lhs), ValueView::Num(rhs)) => match i {
                Instruction::Lesser | Instruction::Greater | Instruction::LesserEq
                | Instruction::GreaterEq => m.pop(2).push(
                    ValueView::Bool(compared(i, lhs, rhs)),
                ).done(),
                _ => (m.pop(2).advance(), EffectView::Compute { op: arithmetic_of(i), lhs, rhs }),
            },
            _ => m.fails(Fault::ExpectedNumber),
        }
    }
}

/// `Store`: the innermost scope that binds the name gets the value on top
/// of the stack.
pub open spec fn store(m: MachineView, k: usize) -> (MachineView, EffectView) {
    if k >= m.program.names.len() {
        m.fails(Fault::BadOperand)
    } else {
        let name = m.program.names[k as int];
        let at = binder(m.scopes, name, m.scopes.len() - 1);
        if at < 0 {
            m.fails(Fault::Undefined(k))
        } else if m.stack.len() == 0 {
            m.fails(Fault::StackEmpty)
        } else {
            MachineView {
                scopes: m.scopes.update(at, m.scopes[at].bind(name, m.top(0))),
                ..m.pop(1)
            }.done()
        }
    }
}

/// `AssignStore`: the innermost scope binds the name to the value on top
/// of the stack.
pub open spec fn assign_store(m: MachineView, k: usize) -> (MachineView, EffectView) {
    if k >= m.program.names.len() || m.scopes.len() == 0 {
        m.fails(Fault::BadOperand)
    } else if m.stack.len() == 0 {
        m.fails(Fault::StackEmpty)
    } else {
        let at = m.scopes.len() - 1;
        MachineView {
            scopes: m.scopes.update(at, m.scopes[at].bind(m.program.names[k as int], m.top(0))),
            ..m.pop(1)
        }.done()
    }
}

/// `LoadVar`: the value that the innermost scope that binds the name
/// binds it to.
pub open spec fn load_var(m: MachineView, k: usize) -> (MachineView, EffectView) {
    if k >= m.program.names.len() {
        m.fails(Fault::BadOperand)
    } else {
        let name = m.program.names[k as int];
        let at = binder(m.scopes, name, m.scopes.len() - 1);
        if at < 0 {
            m.fails(Fault::Undefined(k))
        } else {
            m.push(m.scopes[at].get(name)).done()
        }
    }
}

/// `EndAndNameScope`: the innermost scope leaves the scope stack, and the
/// scope below it binds the name to it.
pub open spec fn end_and_name_scope(m: MachineView, k: usize) -> (MachineView, EffectView) {
    if k >= m.program.names.len() || m.scopes.len() < 2 || m.heap.len() >= usize::MAX {
        m.fails(Fault::BadOperand)
    } else {
        let at = m.scopes.len() - 2;
        let handle = m.heap.len() as usize;
        MachineView {
            scopes: m.scopes.take(at).push(
                m.scopes[at].bind(m.program.names[k as int], ValueView::Scope(handle)),
            ),
            heap: m.heap.push(m.scopes.last()),
            ..m
        }.done()
    }
}

/// `AccessProperty`: the value that the scope on top of the stack binds
/// the name to.
pub open spec fn access_property(m: MachineView, k: usize) -> (MachineView, EffectView) {
    if k >= m.program.names.len() {
        m.fails(Fault::BadOperand)
    } else if m.stack.len() == 0 {
        m.fails(Fault::StackEmpty)
    } else {
        match m.top(0) {
            ValueView::Scope(handle) => if handle >= m.heap.len() {
                m.fails(Fault::BadOperand)
            } else if !m.heap[handle as int].binds(m.program.names[k as int]) {
                m.fails(Fault::NoProperty(k))
            } else {
                m.pop(1).push(m.heap[handle as int].get(m.program.names[k as int])).done()
            },
            _ => m.fails(Fault::ExpectedScope),
        }
    }
}

/// `RequireArguments`: exactly `n` values lie above the topmost jump
/// reference.
pub open spec fn require_arguments(m: MachineView, n: usize) -> (MachineView, EffectView) {
    let received = above_jump_ref(m.stack, m.stack.len() as int);
    if received < 0 {
        m.fails(Fault::ExpectedJumpRef)
    } else if received != n {
        m.fails(Fault::ArgumentCount { expected: n, received: received as usize })
    } else {
        m.done()
    }
}

/// An instruction that takes one value off the stack and says what it is.
pub open spec fn unary(m: MachineView, i: Instruction) -> (MachineView, EffectView) {
    if m.stack.len() == 0 {
        m.fails(
            if i is PopJump {
                Fault::ExpectedJumpRef
            } else if i is ConditionalJump {
                Fault::ExpectedBool
            } else {
                Fault::StackEmpty
            },
        )
    } else {
        let v = m.top(0);
        match i {
            Instruction::Duplicate => m.push(v).done(),
            Instruction::Show => (m.advance(), EffectView::Show(v)),
            Instruction::Panic => (m.pop(1).advance(), EffectView::Panic(v)),
            Instruction::Negate => match v {
                ValueView::Num(bits) => m.pop(1).push(ValueView::Num(negated(bits))).done(),
                _ => m.fails(Fault::ExpectedNumber),
            },
            Instruction::Invert => match v {
                ValueView::Bool(b) => m.pop(1).push(ValueView::Bool(!b)).done(),
                _ => m.fails(Fault::ExpectedBool),
            },
            Instruction::ConditionalJump(to) => match v {
                ValueView::Bool(b) => if b {
                    (m.pop(1).jump(to), EffectView::Continue)
                } else {
                    m.pop(1).done()
                },
                _ => m.fails(Fault::ExpectedBool),
            },
            Instruction::Call => match v {
                ValueView::Fn(target) => (m.pop(1).jump(target), EffectView::Continue),
                _ => m.fails(Fault::ExpectedFunction),
            },
            Instruction::PopJump => match v {
                ValueView::JumpRef(to) => (m.pop(1).jump(to), EffectView::Continue),
                _ => m.fails(Fault::ExpectedJumpRef),
            },
            _ => m.done(),
        }
    }
}

/// What the instruction `i` does to the machine `m`.
pub open spec fn execute(m: MachineView, i: Instruction) -> (MachineView, EffectView) {
    match i {
        Instruction::LoadConst(k) => if k < m.program.constants.len() {
            m.push(m.program.constants[k as int]).done()
        } else {
            m.fails(Fault::BadOperand)
        },
        Instruction::Discard => if m.stack.len() == 0 {
            m.done()
        } else {
            m.pop(1).done()
        },
        Instruction::PushNothing => m.push(ValueView::Nothing).done(),
        Instruction::PushJumpRef(n) => m.push(ValueView::JumpRef(n)).done(),
        Instruction::Swap => if m.stack.len() < 2 {
            m.fails(Fault::StackEmpty)
        } else {
            m.pop(2).push(m.top(0)).push(m.top(1)).done()
        },
        Instruction::Jump(to) => (m.jump(to), EffectView::Continue),
        Instruction::Terminate => (m, EffectView::Halt),
        Instruction::RequireArguments(n) => require_arguments(m, n),
        Instruction::Null => m.done(),
        Instruction::FunctionTag(_) => m.done(),
        Instruction::CodegenHelper(_) => m.done(),
        Instruction::Duplicate | Instruction::Show | Instruction::Panic | Instruction::Negate
        | Instruction::Invert | Instruction::ConditionalJump(_) | Instruction::Call
        | Instruction::PopJump => unary(m, i),
        Instruction::Add | Instruction::Subtract | Instruction::Multiply | Instruction::Divide
        | Instruction::RaiseTo | Instruction::Lesser | Instruction::Greater
        | Instruction::LesserEq | Instruction::GreaterEq => binary(m, i),
        Instruction::CheckEquality => if m.stack.len() < 2 {
            m.fails(Fault::StackEmpty)
        } else {
            m.pop(2).push(ValueView::Bool(same_value(m.top(0), m.top(1)))).done()
        },
        Instruction::CheckInequality => if m.stack.len() < 2 {
            m.fails(Fault::StackEmpty)
        } else {
            m.pop(2).push(ValueView::Bool(!same_value(m.top(0), m.top(1)))).done()
        },
        Instruction::AccessProperty(k) => access_property(m, k),
        Instruction::NewScope => MachineView { scopes: m.scopes.push(ScopeView::empty()), ..m }.done(),
        Instruction::LoadVar(k) => load_var(m, k),
        Instruction::Store(k) => store(m, k),
        Instruction::AssignStore(k) => assign_store(m, k),
        Instruction::EndScope => if m.scopes.len() == 0 {
            m.done()
        } else {
            MachineView { scopes: m.scopes.drop_last(), ..m }.done()
        },
        Instruction::EndAndNameScope(k) => end_and_name_scope(m, k),
        Instruction::JumpTo(_) => m.fails(Fault::Unlinked),
        Instruction::ConditionalJumpTo(_) => m.fails(Fault::Unlinked),
        Instruction::JumpTarget(_) => m.fails(Fault::Unlinked),
        Instruction::JumpRefTo(_) => m.fails(Fault::Unlinked),
    }
}

/// One step of the machine: the instruction at the position reached, or
/// the end of the program when the position lies behind it.
pub open spec fn step(m: MachineView) -> (MachineView, EffectView) {
    if m.ip >= m.program.instructions.len() {
        (m, EffectView::Halt)
    } else {
        execute(m, m.program.instructions[m.ip as int])
    }
}

/// Up to `budget` steps of the machine, for as long as no step asks
/// anything of the host.
pub open spec fn run(m: MachineView, budget: nat) -> (MachineView, EffectView)
    decreases budget,
{
    if budget == 0 {
        (m, EffectView::Continue)
    } else {
        let (next, effect) = step(m);
        if effect is Continue {
            run(next, (budget - 1) as nat)
        } else {
            (next, effect)
        }
    }
}

/// `Show` hands the value on top of the stack to the host and leaves the
/// stack as it is: what is shown is also what the expression yields.
pub proof fn show_keeps_its_operand(m: MachineView)
    requires
        m.ip < m.program.instructions.len(),
        m.program.instructions[m.ip as int] == Instruction::Show,
        m.stack.len() > 0,
    ensures
        step(m).1 == EffectView::Show(m.top(0)),
        step(m).0.stack == m.stack,
        step(m).0.scopes == m.scopes,
        step(m).0.ip == behind(m.ip),
{
}

/// Two `Show` in a row hand the same value to the host twice, and leave
/// the stack as it is.
pub proof fn show_twice_shows_the_same(m: MachineView)
    requires
        m.ip + 1 < m.program.instructions.len(),
        m.program.instructions.len() <= usize::MAX,
        m.program.instructions[m.ip as int] == Instruction::Show,
        m.program.instructions[m.ip + 1] == Instruction::Show,
        m.stack.len() > 0,
    ensures
        step(m).1 == EffectView::Show(m.top(0)),
        step(step(m).0).1 == EffectView::Show(m.top(0)),
        step(step(m).0).0.stack == m.stack,
{
    show_keeps_its_operand(m);
    show_keeps_its_operand(step(m).0);
}

/// The scope that binds a name lies at or below the position searched
/// from.
pub proof fn lemma_binder_bounds(scopes: Seq<ScopeView>, name: Seq<char>, from: int)
    requires
        -1 <= from < scopes.len(),
    ensures
        -1 <= binder(scopes, name, from) <= from,
        binder(scopes, name, from) >= 0 ==> scopes[binder(scopes, name, from)].binds(name),
    decreases from + 1,
{
    if from >= 0 && !scopes[from].binds(name) {
        lemma_binder_bounds(scopes, name, from - 1);
    }
}

/// By how much an instruction changes the depth of the scope stack when
/// it does not fail: `NewScope` opens one scope, `EndScope` and
/// `EndAndNameScope` close one, and nothing else touches the scope stack.
pub open spec fn scope_change(i: Instruction) -> int {
    match i {
        Instruction::NewScope => 1,
        Instruction::EndScope => -1,
        Instruction::EndAndNameScope(_) => -1,
        _ => 0,
    }
}

/// The depth of the scope stack changes at `NewScope`, `EndScope` and
/// `EndAndNameScope` only, and there by one: a step that does not fail
/// changes it by what [`scope_change`] says, but that `EndScope` leaves an
/// empty scope stack empty. So the depth at the `EndScope` that closes a
/// `NewScope` is one more than the depth at that `NewScope` whenever the
/// steps between them open as many scopes as they close.
pub proof fn scope_depth_changes_by_one(m: MachineView)
    requires
        m.ip < m.program.instructions.len(),
        !(step(m).1 is Fault),
    ensures
        step(m).0.scopes.len() == if m.program.instructions[m.ip as int] is EndScope
            && m.scopes.len() == 0 {
            0
        } else {
            m.scopes.len() + scope_change(m.program.instructions[m.ip as int])
        },
{
    let i = m.program.instructions[m.ip as int];
    match i {
        Instruction::Store(k) => {
            assert(step(m) == store(m, k));
            if k < m.program.names.len() {
                lemma_binder_bounds(m.scopes, m.program.names[k as int], m.scopes.len() - 1);
            }
        },
        Instruction::AssignStore(k) => {
            assert(step(m) == assign_store(m, k));
        },
        Instruction::EndAndNameScope(k) => {
            assert(step(m) == end_and_name_scope(m, k));
        },
        Instruction::LoadVar(k) => {
            assert(step(m) == load_var(m, k));
        },
        Instruction::AccessProperty(k) => {
            assert(step(m) == access_property(m, k));
        },
        Instruction::RequireArguments(n) => {
            assert(step(m) == require_arguments(m, n));
        },
        Instruction::Duplicate | Instruction::Show | Instruction::Panic | Instruction::Negate
        | Instruction::Invert | Instruction::ConditionalJump(_) | Instruction::Call
        | Instruction::PopJump => {
            assert(step(m) == unary(m, i));
        },
        Instruction::Add | Instruction::Subtract | Instruction::Multiply | Instruction::Divide
        | Instruction::RaiseTo | Instruction::Lesser | Instruction::Greater
        | Instruction::LesserEq | Instruction::GreaterEq => {
            assert(step(m) == binary(m, i));
        },
        _ => {},
    }
}

/// A step that fails leaves the machine as it was.
pub proof fn fault_changes_nothing(m: MachineView)
    requires
        step(m).1 is Fault,
    ensures
        step(m).0 == m,
{
}

/// `Call` takes the function off the stack and goes on behind its entry:
/// the arguments and the jump reference below them stay where they are.
pub proof fn call_keeps_the_arguments(m: MachineView, target: usize)
    requires
        m.ip < m.program.instructions.len(),
        m.program.instructions[m.ip as int] == Instruction::Call,
        m.stack.len() > 0,
        m.stack.last() == ValueView::Fn(target),
    ensures
        step(m).1 is Continue,
        step(m).0.stack == m.stack.drop_last(),
        step(m).0.ip == behind(target),
        step(m).0.scopes == m.scopes,
{
}

/// `Swap` and `PopJump` at the end of a function body hand the result back:
/// with the result on top of the jump reference of the call, they leave the
/// result in the place of the jump reference and go on behind the return
/// point.
pub proof fn return_leaves_the_result(m: MachineView, result: ValueView, back: usize)
    requires
        m.ip + 1 < m.program.instructions.len(),
        m.program.instructions.len() <= usize::MAX,
        m.program.instructions[m.ip as int] == Instruction::Swap,
        m.program.instructions[m.ip + 1] == Instruction::PopJump,
        m.stack.len() >= 2,
        m.stack[m.stack.len() - 1] == result,
        m.stack[m.stack.len() - 2] == ValueView::JumpRef(back),
    ensures
        step(step(m).0).1 is Continue,
        step(step(m).0).0.stack == m.stack.take(m.stack.len() - 2).push(result),
        step(step(m).0).0.ip == behind(back),
{
    let after = step(m).0;
    assert(after.stack =~= m.stack.take(m.stack.len() - 2).push(result).push(
        ValueView::JumpRef(back),
    ));
    assert(step(after).0.stack =~= m.stack.take(m.stack.len() - 2).push(result));
}

/// `RequireArguments(n)` lets the machine go on exactly when `n` values lie
/// above the topmost jump reference of the stack.
pub proof fn arguments_are_counted(m: MachineView, n: usize)
    requires
        m.ip < m.program.instructions.len(),
        m.program.instructions[m.ip as int] == Instruction::RequireArguments(n),
    ensures
        step(m).1 is Continue <==> above_jump_ref(m.stack, m.stack.len() as int) == n,
        step(m).0.stack == m.stack,
{
}

} // verus!
