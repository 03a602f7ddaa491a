//! The stack machine: linked bytecode, the values it works on, and the
//! interpreter that runs it one instruction at a time.

pub mod model;
pub mod listing;

use vstd::prelude::*;
use crate::number::{equal, number_eq};

verus! {

/// One instruction. The forms that hold a label exist between lowering and
/// linking only: linking replaces them by the forms that hold an index.
#[derive(Debug, Clone, Copy, PartialEq, Eq, Structural)]
pub enum Instruction {
    LoadConst(usize),
    Discard,
    PushNothing,
    Duplicate,
    PushJumpRef(usize),
    Swap,
    Jump(usize),
    ConditionalJump(usize),
    Terminate,
    RequireArguments(usize),
    Null,
    Call,
    Panic,
    Negate,
    Add,
    Subtract,
    Multiply,
    Divide,
    Invert,
    RaiseTo,
    CheckEquality,
    Lesser,
    Greater,
    LesserEq,
    GreaterEq,
    CheckInequality,
    Show,
    AccessProperty(usize),
    NewScope,
    LoadVar(usize),
    Store(usize),
    AssignStore(usize),
    EndScope,
    EndAndNameScope(usize),
    PopJump,
    JumpTo(usize),
    ConditionalJumpTo(usize),
    JumpTarget(usize),
    JumpRefTo(usize),
    FunctionTag(usize),
    CodegenHelper(usize),
}

/// A value of the machine. A number is held as its IEEE 754 binary64 bit
/// pattern. A function and a jump reference hold a label before linking
/// and an instruction index after it. A scope value names a scope that a
/// module left behind, by its position among them.
#[derive(Debug, PartialEq)]
pub enum Value {
    Num(u64),
    Str(String),
    Bool(bool),
    Fn(usize),
    JumpRef(usize),
    Nothing,
    Scope(usize),
}

/// Mathematical model of a [`Value`].
pub enum ValueView {
    Num(u64),
    Str(Seq<char>),
    Bool(bool),
    Fn(usize),
    JumpRef(usize),
    Nothing,
    Scope(usize),
}

impl View for Value {
    type V = ValueView;

    open spec fn view(&self) -> ValueView {
        match self {
            Value::Num(bits) => ValueView::Num(*bits),
            Value::Str(s) => ValueView::Str(s@),
            Value::Bool(b) => ValueView::Bool(*b),
            Value::Fn(label) => ValueView::Fn(*label),
            Value::JumpRef(label) => ValueView::JumpRef(*label),
            Value::Nothing => ValueView::Nothing,
            Value::Scope(handle) => ValueView::Scope(*handle),
        }
    }
}

impl Clone for Value {
    fn clone(&self) -> (copy: Self)
        ensures
            copy == *self,
    {
        match self {
            Value::Num(bits) => Value::Num(*bits),
            Value::Str(s) => Value::Str(s.clone()),
            Value::Bool(b) => Value::Bool(*b),
            Value::Fn(label) => Value::Fn(*label),
            Value::JumpRef(label) => Value::JumpRef(*label),
            Value::Nothing => Value::Nothing,
            Value::Scope(handle) => Value::Scope(*handle),
        }
    }
}

/// Equality of values: numbers compare as numbers, so that what is not a
/// number equals nothing and the two zeros are equal; strings, booleans,
/// functions and jump references compare by what they hold; scope values
/// are equal when they name the same scope.
pub open spec fn same_value(a: ValueView, b: ValueView) -> bool {
    match (a, b) {
        (ValueView::Num(x), ValueView::Num(y)) => number_eq(x, y),
        (ValueView::Str(s), ValueView::Str(t)) => s == t,
        (ValueView::Bool(x), ValueView::Bool(y)) => x == y,
        (ValueView::Fn(x), ValueView::Fn(y)) => x == y,
        (ValueView::JumpRef(x), ValueView::JumpRef(y)) => x == y,
        (ValueView::Nothing, ValueView::Nothing) => true,
        (ValueView::Scope(x), ValueView::Scope(y)) => x == y,
        _ => false,
    }
}

impl Value {
    /// Whether the two values are equal, as the machine compares them.
    pub fn same(&self, other: &Value) -> (r: bool)
        ensures
            r == same_value(self@, other@),
    {
        match (self, other) {
            (Value::Num(x), Value::Num(y)) => equal(*x, *y),
            (Value::Str(s), Value::Str(t)) => *s == *t,
            (Value::Bool(x), Value::Bool(y)) => *x == *y,
            (Value::Fn(x), Value::Fn(y)) => *x == *y,
            (Value::JumpRef(x), Value::JumpRef(y)) => *x == *y,
            (Value::Nothing, Value::Nothing) => true,
            (Value::Scope(x), Value::Scope(y)) => *x == *y,
            _ => false,
        }
    }
}

/// The models of a sequence of values, in order.
pub open spec fn value_views(values: Seq<Value>) -> Seq<ValueView> {
    Seq::new(values.len(), |i: int| values[i]@)
}

/// The models of a sequence with one more value.
pub proof fn lemma_value_views_push(values: Seq<Value>, v: Value)
    ensures
        value_views(values.push(v)) == value_views(values).push(v@),
{
    assert(value_views(values.push(v)) =~= value_views(values).push(v@));
}

/// Linked bytecode: every jump holds an instruction index, and so does
/// every function constant.
#[derive(Debug)]
pub struct Program {
    pub instructions: Vec<Instruction>,
    pub constants: Vec<Value>,
    pub names: Vec<String>,
}

/// Mathematical model of a [`Program`].
pub struct ProgramView {
    pub instructions: Seq<Instruction>,
    pub constants: Seq<ValueView>,
    pub names: Seq<Seq<char>>,
}

impl View for Program {
    type V = ProgramView;

    open spec fn view(&self) -> ProgramView {
        ProgramView {
            instructions: self.instructions@,
            constants: value_views(self.constants@),
            names: crate::ast::string_views(self.names@),
        }
    }
}

} // verus!

verus! {

use crate::ast::string_views;
use crate::number::{less, negate};
use crate::vm::model::{
    Arithmetic, EffectView, Fault, MachineView, ScopeView, above_jump_ref, access_property,
    assign_store, behind, binary, binder, binding_slot, end_and_name_scope, load_var, require_arguments, run, step, store, unary,
};

/// A scope: the bindings of the names declared in it, in the order of
/// their declaration. No name is bound twice. The bindings are a vector
/// that is searched by name, not a hash map: what Verus knows of the
/// contents of a hash map rests on a model of its keys that vstd has for
/// integers, and has not for strings.
#[derive(Debug)]
pub struct Scope {
    pub stuff: Vec<(String, Value)>,
}

/// The models of the bindings of a scope, in order.
pub open spec fn binding_views(stuff: Seq<(String, Value)>) -> Seq<(Seq<char>, ValueView)> {
    Seq::new(stuff.len(), |i: int| (stuff[i].0@, stuff[i].1@))
}

impl View for Scope {
    type V = ScopeView;

    open spec fn view(&self) -> ScopeView {
        ScopeView { stuff: binding_views(self.stuff@) }
    }
}

impl Scope {
    pub fn new() -> (scope: Scope)
        ensures
            scope@ == ScopeView::empty(),
    {
        let scope = Scope { stuff: Vec::new() };
        assert(scope@.stuff =~= Seq::empty());
        scope
    }

    fn find(&self, name: &String) -> (slot: usize)
        ensures
            slot == binding_slot(self@.stuff, name@, 0),
            slot <= self.stuff@.len(),
    {
        let mut i: usize = 0;
        while i < self.stuff.len()
            invariant
                0 <= i <= self.stuff@.len(),
                binding_slot(self@.stuff, name@, 0) == binding_slot(self@.stuff, name@, i as int),
            decreases self.stuff@.len() - i,
        {
            if self.stuff[i].0 == *name {
                return i;
            }
            i = i + 1;
        }
        i
    }

    /// The value that the scope binds `name` to, if it binds it.
    pub fn get(&self, name: &String) -> (value: Option<&Value>)
        ensures
            value is Some == self@.binds(name@),
            value matches Some(v) ==> v@ == self@.get(name@),
    {
        let slot = self.find(name);
        if slot < self.stuff.len() {
            Some(&self.stuff[slot].1)
        } else {
            None
        }
    }

    /// Binds `name` to `value`, in place of what it was bound to.
    pub fn bind(&mut self, name: String, value: Value)
        ensures
            final(self)@ == old(self)@.bind(name@, value@),
    {
        let slot = self.find(&name);
        if slot < self.stuff.len() {
            self.stuff.set(slot, (name, value));
            assert(self@.stuff =~= old(self)@.stuff.update(slot as int, (name@, value@)));
        } else {
            self.stuff.push((name, value));
            assert(self@.stuff =~= old(self)@.stuff.push((name@, value@)));
        }
    }
}

/// After binding a name, the scope binds it to the value given, and binds
/// every other name as before.
pub proof fn binding_then_reading(scope: ScopeView, name: Seq<char>, v: ValueView, other: Seq<char>)
    ensures
        scope.bind(name, v).binds(name),
        scope.bind(name, v).get(name) == v,
        other != name ==> scope.bind(name, v).binds(other) == scope.binds(other),
        other != name && scope.binds(other) ==> scope.bind(name, v).get(other) == scope.get(other),
{
    let slot = binding_slot(scope.stuff, name, 0);
    let after = scope.bind(name, v).stuff;
    lemma_slot_bounds(scope.stuff, name, 0);
    lemma_slot_bounds(scope.stuff, other, 0);
    if slot < scope.stuff.len() {
        lemma_same_keys(scope.stuff, after, name, 0);
        lemma_same_keys(scope.stuff, after, other, 0);
    } else {
        lemma_pushed_slot(scope.stuff, (name, v), name, 0);
        lemma_pushed_slot(scope.stuff, (name, v), other, 0);
    }
}

/// The first binding of a name lies between the position searched from and
/// the end, and binds that name.
pub proof fn lemma_slot_bounds(stuff: Seq<(Seq<char>, ValueView)>, name: Seq<char>, from: int)
    requires
        0 <= from <= stuff.len(),
    ensures
        from <= binding_slot(stuff, name, from) <= stuff.len(),
        binding_slot(stuff, name, from) < stuff.len() ==> ({
            let slot = binding_slot(stuff, name, from);
            stuff[slot].0 == name
        }),
    decreases stuff.len() - from,
{
    if from < stuff.len() && stuff[from].0 != name {
        lemma_slot_bounds(stuff, name, from + 1);
    }
}

/// Two lists of bindings with the same names in the same order bind every
/// name at the same place.
proof fn lemma_same_keys(
    a: Seq<(Seq<char>, ValueView)>,
    b: Seq<(Seq<char>, ValueView)>,
    name: Seq<char>,
    from: int,
)
    requires
        0 <= from <= a.len(),
        a.len() == b.len(),
        forall|j: int| 0 <= j < a.len() ==> (#[trigger] a[j]).0 == b[j].0,
    ensures
        binding_slot(a, name, from) == binding_slot(b, name, from),
    decreases a.len() - from,
{
    if from < a.len() {
        assert(a[from].0 == b[from].0);
        if a[from].0 != name {
            lemma_same_keys(a, b, name, from + 1);
        }
    }
}

/// With one more binding at the end, a name that was bound is bound at the
/// same place, and one that was not is bound at the end only if it is the
/// name added.
proof fn lemma_pushed_slot(
    a: Seq<(Seq<char>, ValueView)>,
    added: (Seq<char>, ValueView),
    name: Seq<char>,
    from: int,
)
    requires
        0 <= from <= a.len(),
    ensures
        binding_slot(a, name, from) < a.len() ==> binding_slot(a.push(added), name, from)
            == binding_slot(a, name, from),
        binding_slot(a, name, from) >= a.len() && added.0 == name ==> binding_slot(
            a.push(added),
            name,
            from,
        ) == a.len(),
        binding_slot(a, name, from) >= a.len() && added.0 != name ==> binding_slot(
            a.push(added),
            name,
            from,
        ) == a.len() + 1,
    decreases a.len() - from,
{
    let b = a.push(added);
    if from < a.len() {
        assert(b[from] == a[from]);
        if a[from].0 != name {
            lemma_pushed_slot(a, added, name, from + 1);
        }
    } else {
        assert(b[from] == added);
        if added.0 != name {
            assert(binding_slot(b, name, from + 1) == from + 1);
        }
    }
}

/// What one step asks of the host.
#[derive(Debug)]
pub enum Effect {
    /// Nothing: the next step may follow.
    Continue,
    /// The program has ended.
    Halt,
    /// The value is to be printed.
    Show(Value),
    /// The result of the operation is to be supplied as a number.
    Compute { op: Arithmetic, lhs: u64, rhs: u64 },
    /// The program aborts with the value.
    Panic(Value),
    /// The machine cannot go on.
    Fault(Fault),
}

impl View for Effect {
    type V = EffectView;

    open spec fn view(&self) -> EffectView {
        match self {
            Effect::Continue => EffectView::Continue,
            Effect::Halt => EffectView::Halt,
            Effect::Show(v) => EffectView::Show(v@),
            Effect::Compute { op, lhs, rhs } => EffectView::Compute {
                op: *op,
                lhs: *lhs,
                rhs: *rhs,
            },
            Effect::Panic(v) => EffectView::Panic(v@),
            Effect::Fault(fault) => EffectView::Fault(*fault),
        }
    }
}

/// The models of a sequence of scopes, in order.
pub open spec fn scope_views(scopes: Seq<Scope>) -> Seq<ScopeView> {
    Seq::new(scopes.len(), |i: int| scopes[i]@)
}

/// The machine: the position of the next instruction, the program, the
/// operand stack, the scope stack with the global scope at the bottom, and
/// the scopes that modules left behind. Such a scope is shared by every
/// value that names it and can still be written to, so it has one place,
/// in `heap`, and the values hold its position there: a cell that is
/// shared and written to is beyond what Verus follows.
#[derive(Debug)]
pub struct VM {
    pub ip: usize,
    pub program: Program,
    pub stack: Vec<Value>,
    pub scopes: Vec<Scope>,
    pub heap: Vec<Scope>,
}

impl View for VM {
    type V = MachineView;

    open spec fn view(&self) -> MachineView {
        MachineView {
            ip: self.ip,
            program: self.program@,
            stack: value_views(self.stack@),
            scopes: scope_views(self.scopes@),
            heap: scope_views(self.heap@),
        }
    }
}

impl VM {
    pub fn new(program: Program) -> (vm: VM)
        ensures
            vm@ == MachineView::start(program@),
    {
        let mut scopes: Vec<Scope> = Vec::new();
        scopes.push(Scope::new());
        let vm = VM { ip: 0, program, stack: Vec::new(), scopes, heap: Vec::new() };
        assert(vm@.stack =~= Seq::empty());
        assert(vm@.scopes =~= seq![ScopeView::empty()]);
        assert(vm@.heap =~= Seq::empty());
        vm
    }

    fn advance(&mut self)
        ensures
            final(self)@ == old(self)@.advance(),
    {
        if self.ip < usize::MAX {
            self.ip = self.ip + 1;
        }
    }

    fn goto(&mut self, to: usize)
        ensures
            final(self)@ == old(self)@.jump(to),
    {
        if to < usize::MAX {
            self.ip = to + 1;
        } else {
            self.ip = to;
        }
    }

    fn push(&mut self, v: Value)
        ensures
            final(self)@ == old(self)@.push(v@),
    {
        proof {
            lemma_value_views_push(self.stack@, v);
        }
        self.stack.push(v);
    }

    fn take(&mut self) -> (v: Value)
        requires
            old(self).stack@.len() > 0,
        ensures
            v@ == old(self)@.top(0),
            final(self)@ == old(self)@.pop(1),
            final(self).stack@.len() == old(self).stack@.len() - 1,
    {
        let v = self.stack.pop().unwrap();
        assert(value_views(self.stack@) =~= value_views(old(self).stack@).take(
            old(self).stack@.len() - 1,
        ));
        v
    }

    /// Pushes the number that the host computed for the last `Compute`.
    pub fn supply(&mut self, bits: u64)
        ensures
            final(self)@ == old(self)@.push(ValueView::Num(bits)),
    {
        self.push(Value::Num(bits));
    }
}

} // verus!

verus! {

impl VM {
    fn fails(&self, fault: Fault) -> (effect: Effect)
        ensures
            (self@, effect@) == self@.fails(fault),
    {
        Effect::Fault(fault)
    }

    fn done(&mut self) -> (effect: Effect)
        ensures
            (final(self)@, effect@) == old(self)@.done(),
    {
        self.advance();
        Effect::Continue
    }

    fn name_of(&self, k: usize) -> (name: String)
        requires
            k < self.program.names@.len(),
        ensures
            name@ == self@.program.names[k as int],
    {
        self.program.names[k].clone()
    }

    fn rebind(&mut self, at: usize, name: String, value: Value)
        requires
            at < old(self).scopes@.len(),
        ensures
            final(self)@ == (MachineView {
                scopes: old(self)@.scopes.update(
                    at as int,
                    old(self)@.scopes[at as int].bind(name@, value@),
                ),
                ..old(self)@
            }),
    {
        let mut scope = self.scopes.remove(at);
        scope.bind(name, value);
        self.scopes.insert(at, scope);
        assert(scope_views(self.scopes@) =~= scope_views(old(self).scopes@).update(
            at as int,
            old(self)@.scopes[at as int].bind(name@, value@),
        ));
    }

    fn find_binder(&self, name: &String) -> (found: Option<usize>)
        ensures
            match found {
                Some(at) => at < self.scopes@.len() && binder(
                    self@.scopes,
                    name@,
                    self@.scopes.len() - 1,
                ) == at && self@.scopes[at as int].binds(name@),
                None => binder(self@.scopes, name@, self@.scopes.len() - 1) < 0,
            },
    {
        let mut i = self.scopes.len();
        while i > 0
            invariant
                0 <= i <= self.scopes@.len(),
                binder(self@.scopes, name@, self@.scopes.len() - 1) == binder(
                    self@.scopes,
                    name@,
                    i - 1,
                ),
            decreases i,
        {
            i = i - 1;
            if self.scopes[i].get(name).is_some() {
                return Some(i);
            }
        }
        None
    }

    fn count_arguments(&self) -> (received: Option<usize>)
        ensures
            match received {
                Some(n) => above_jump_ref(self@.stack, self@.stack.len() as int) == n,
                None => above_jump_ref(self@.stack, self@.stack.len() as int) < 0,
            },
    {
        let mut upto = self.stack.len();
        while upto > 0
            invariant
                0 <= upto <= self.stack@.len(),
                above_jump_ref(self@.stack, self@.stack.len() as int) == above_jump_ref(
                    self@.stack,
                    upto as int,
                ),
            decreases upto,
        {
            match &self.stack[upto - 1] {
                Value::JumpRef(_) => {
                    return Some(self.stack.len() - upto);
                },
                _ => {},
            }
            upto = upto - 1;
        }
        None
    }

    fn require_arguments_step(&mut self, n: usize) -> (effect: Effect)
        ensures
            (final(self)@, effect@) == require_arguments(old(self)@, n),
    {
        match self.count_arguments() {
            None => self.fails(Fault::ExpectedJumpRef),
            Some(received) => {
                if received != n {
                    self.fails(Fault::ArgumentCount { expected: n, received })
                } else {
                    self.done()
                }
            },
        }
    }

    fn store_step(&mut self, k: usize) -> (effect: Effect)
        ensures
            (final(self)@, effect@) == store(old(self)@, k),
    {
        if k >= self.program.names.len() {
            return self.fails(Fault::BadOperand);
        }
        let name = self.name_of(k);
        match self.find_binder(&name) {
            None => self.fails(Fault::Undefined(k)),
            Some(at) => {
                if self.stack.len() == 0 {
                    return self.fails(Fault::StackEmpty);
                }
                let value = self.take();
                self.rebind(at, name, value);
                self.done()
            },
        }
    }

    fn assign_store_step(&mut self, k: usize) -> (effect: Effect)
        ensures
            (final(self)@, effect@) == assign_store(old(self)@, k),
    {
        if k >= self.program.names.len() || self.scopes.len() == 0 {
            return self.fails(Fault::BadOperand);
        }
        if self.stack.len() == 0 {
            return self.fails(Fault::StackEmpty);
        }
        let name = self.name_of(k);
        let value = self.take();
        let at = self.scopes.len() - 1;
        self.rebind(at, name, value);
        self.done()
    }

    fn load_var_step(&mut self, k: usize) -> (effect: Effect)
        ensures
            (final(self)@, effect@) == load_var(old(self)@, k),
    {
        if k >= self.program.names.len() {
            return self.fails(Fault::BadOperand);
        }
        let name = self.name_of(k);
        match self.find_binder(&name) {
            None => self.fails(Fault::Undefined(k)),
            Some(at) => {
                let value = match self.scopes[at].get(&name) {
                    Some(v) => v.clone(),
                    None => Value::Nothing,
                };
                self.push(value);
                self.done()
            },
        }
    }

    fn end_and_name_scope_step(&mut self, k: usize) -> (effect: Effect)
        ensures
            (final(self)@, effect@) == end_and_name_scope(old(self)@, k),
    {
        if k >= self.program.names.len() || self.scopes.len() < 2 || self.heap.len()
            >= usize::MAX {
            return self.fails(Fault::BadOperand);
        }
        let name = self.name_of(k);
        let handle = self.heap.len();
        let ghost before = self@;
        let scope = self.scopes.pop().unwrap();
        let ghost left = scope@;
        self.heap.push(scope);
        assert(scope_views(self.heap@) =~= before.heap.push(left));
        assert(scope_views(self.scopes@) =~= before.scopes.take(before.scopes.len() - 1));
        let at = self.scopes.len() - 1;
        self.rebind(at, name, Value::Scope(handle));
        assert(self@.scopes =~= before.scopes.take(at as int).push(
            before.scopes[at as int].bind(name@, ValueView::Scope(handle)),
        ));
        self.done()
    }

    fn access_property_step(&mut self, k: usize) -> (effect: Effect)
        ensures
            (final(self)@, effect@) == access_property(old(self)@, k),
    {
        if k >= self.program.names.len() {
            return self.fails(Fault::BadOperand);
        }
        if self.stack.len() == 0 {
            return self.fails(Fault::StackEmpty);
        }
        let name = self.name_of(k);
        let found = match &self.stack[self.stack.len() - 1] {
            Value::Scope(handle) => {
                if *handle >= self.heap.len() {
                    return self.fails(Fault::BadOperand);
                }
                match self.heap[*handle].get(&name) {
                    Some(v) => v.clone(),
                    None => {
                        return self.fails(Fault::NoProperty(k));
                    },
                }
            },
            _ => {
                return self.fails(Fault::ExpectedScope);
            },
        };
        let _ = self.take();
        self.push(found);
        self.done()
    }

    fn binary_step(&mut self, i: Instruction) -> (effect: Effect)
        ensures
            (final(self)@, effect@) == binary(old(self)@, i),
    {
        let len = self.stack.len();
        if len < 2 {
            return self.fails(Fault::StackEmpty);
        }
        let (lhs, rhs) = match (&self.stack[len - 2], &self.stack[len - 1]) {
            (Value::Num(lhs), Value::Num(rhs)) => (*lhs, *rhs),
            _ => {
                return self.fails(Fault::ExpectedNumber);
            },
        };
        let ghost before = self@;
        let _ = self.take();
        let _ = self.take();
        assert(self@ == before.pop(2)) by {
            assert(self@.stack =~= before.stack.take(before.stack.len() - 2));
        }
        match i {
            Instruction::Lesser => {
                self.push(Value::Bool(less(lhs, rhs)));
                self.done()
            },
            Instruction::Greater => {
                self.push(Value::Bool(less(rhs, lhs)));
                self.done()
            },
            Instruction::LesserEq => {
                self.push(Value::Bool(less(lhs, rhs) || equal(lhs, rhs)));
                self.done()
            },
            Instruction::GreaterEq => {
                self.push(Value::Bool(less(rhs, lhs) || equal(lhs, rhs)));
                self.done()
            },
            Instruction::Add => {
                self.advance();
                Effect::Compute { op: Arithmetic::Add, lhs, rhs }
            },
            Instruction::Subtract => {
                self.advance();
                Effect::Compute { op: Arithmetic::Subtract, lhs, rhs }
            },
            Instruction::Multiply => {
                self.advance();
                Effect::Compute { op: Arithmetic::Multiply, lhs, rhs }
            },
            Instruction::Divide => {
                self.advance();
                Effect::Compute { op: Arithmetic::Divide, lhs, rhs }
            },
            _ => {
                self.advance();
                Effect::Compute { op: Arithmetic::RaiseTo, lhs, rhs }
            },
        }
    }

    fn unary_step(&mut self, i: Instruction) -> (effect: Effect)
        ensures
            (final(self)@, effect@) == unary(old(self)@, i),
    {
        let len = self.stack.len();
        if len == 0 {
            return match i {
                Instruction::PopJump => self.fails(Fault::ExpectedJumpRef),
                Instruction::ConditionalJump(_) => self.fails(Fault::ExpectedBool),
                _ => self.fails(Fault::StackEmpty),
            };
        }
        match i {
            Instruction::Duplicate => {
                let copy = self.stack[len - 1].clone();
                self.push(copy);
                self.done()
            },
            Instruction::Show => {
                let copy = self.stack[len - 1].clone();
                self.advance();
                Effect::Show(copy)
            },
            Instruction::Panic => {
                let value = self.take();
                self.advance();
                Effect::Panic(value)
            },
            Instruction::Negate => match &self.stack[len - 1] {
                Value::Num(bits) => {
                    let flipped = negate(*bits);
                    let _ = self.take();
                    self.push(Value::Num(flipped));
                    self.done()
                },
                _ => self.fails(Fault::ExpectedNumber),
            },
            Instruction::Invert => match &self.stack[len - 1] {
                Value::Bool(b) => {
                    let inverted = !*b;
                    let _ = self.take();
                    self.push(Value::Bool(inverted));
                    self.done()
                },
                _ => self.fails(Fault::ExpectedBool),
            },
            Instruction::ConditionalJump(to) => match &self.stack[len - 1] {
                Value::Bool(b) => {
                    let taken = *b;
                    let _ = self.take();
                    if taken {
                        self.goto(to);
                        Effect::Continue
                    } else {
                        self.done()
                    }
                },
                _ => self.fails(Fault::ExpectedBool),
            },
            Instruction::Call => match &self.stack[len - 1] {
                Value::Fn(target) => {
                    let to = *target;
                    let _ = self.take();
                    self.goto(to);
                    Effect::Continue
                },
                _ => self.fails(Fault::ExpectedFunction),
            },
            Instruction::PopJump => match &self.stack[len - 1] {
                Value::JumpRef(target) => {
                    let to = *target;
                    let _ = self.take();
                    self.goto(to);
                    Effect::Continue
                },
                _ => self.fails(Fault::ExpectedJumpRef),
            },
            _ => self.done(),
        }
    }

    fn compare_step(&mut self, negated: bool) -> (effect: Effect)
        ensures
            (final(self)@, effect@) == if old(self)@.stack.len() < 2 {
                old(self)@.fails(Fault::StackEmpty)
            } else {
                old(self)@.pop(2).push(
                    ValueView::Bool(
                        negated != same_value(old(self)@.top(0), old(self)@.top(1)),
                    ),
                ).done()
            },
    {
        if self.stack.len() < 2 {
            return self.fails(Fault::StackEmpty);
        }
        let ghost before = self@;
        let first = self.take();
        let second = self.take();
        assert(self@ == before.pop(2)) by {
            assert(self@.stack =~= before.stack.take(before.stack.len() - 2));
        }
        let same = first.same(&second);
        self.push(Value::Bool(negated != same));
        self.done()
    }

    fn swap_step(&mut self) -> (effect: Effect)
        ensures
            (final(self)@, effect@) == if old(self)@.stack.len() < 2 {
                old(self)@.fails(Fault::StackEmpty)
            } else {
                old(self)@.pop(2).push(old(self)@.top(0)).push(old(self)@.top(1)).done()
            },
    {
        if self.stack.len() < 2 {
            return self.fails(Fault::StackEmpty);
        }
        let ghost before = self@;
        let a = self.take();
        let b = self.take();
        assert(self@ == before.pop(2)) by {
            assert(self@.stack =~= before.stack.take(before.stack.len() - 2));
        }
        self.push(a);
        self.push(b);
        self.done()
    }

    /// Executes the instruction at the position reached.
    pub fn step(&mut self) -> (effect: Effect)
        ensures
            (final(self)@, effect@) == step(old(self)@),
    {
        if self.ip >= self.program.instructions.len() {
            return Effect::Halt;
        }
        let i = self.program.instructions[self.ip];
        match i {
            Instruction::LoadConst(k) => {
                if k < self.program.constants.len() {
                    let value = self.program.constants[k].clone();
                    self.push(value);
                    self.done()
                } else {
                    self.fails(Fault::BadOperand)
                }
            },
            Instruction::Discard => {
                if self.stack.len() > 0 {
                    let _ = self.take();
                }
                self.done()
            },
            Instruction::PushNothing => {
                self.push(Value::Nothing);
                self.done()
            },
            Instruction::PushJumpRef(n) => {
                self.push(Value::JumpRef(n));
                self.done()
            },
            Instruction::Swap => self.swap_step(),
            Instruction::Jump(to) => {
                self.goto(to);
                Effect::Continue
            },
            Instruction::Terminate => Effect::Halt,
            Instruction::RequireArguments(n) => self.require_arguments_step(n),
            Instruction::Null => self.done(),
            Instruction::FunctionTag(_) => self.done(),
            Instruction::CodegenHelper(_) => self.done(),
            Instruction::Duplicate | Instruction::Show | Instruction::Panic | Instruction::Negate
            | Instruction::Invert | Instruction::ConditionalJump(_) | Instruction::Call
            | Instruction::PopJump => self.unary_step(i),
            Instruction::Add | Instruction::Subtract | Instruction::Multiply
            | Instruction::Divide | Instruction::RaiseTo | Instruction::Lesser
            | Instruction::Greater | Instruction::LesserEq | Instruction::GreaterEq => self.binary_step(i),
            Instruction::CheckEquality => self.compare_step(false),
            Instruction::CheckInequality => self.compare_step(true),
            Instruction::AccessProperty(k) => self.access_property_step(k),
            Instruction::NewScope => {
                let ghost before = self@;
                self.scopes.push(Scope::new());
                assert(scope_views(self.scopes@) =~= before.scopes.push(ScopeView::empty()));
                self.done()
            },
            Instruction::LoadVar(k) => self.load_var_step(k),
            Instruction::Store(k) => self.store_step(k),
            Instruction::AssignStore(k) => self.assign_store_step(k),
            Instruction::EndScope => {
                if self.scopes.len() > 0 {
                    let ghost before = self@;
                    let _ = self.scopes.pop();
                    assert(scope_views(self.scopes@) =~= before.scopes.drop_last());
                }
                self.done()
            },
            Instruction::EndAndNameScope(k) => self.end_and_name_scope_step(k),
            Instruction::JumpTo(_) => self.fails(Fault::Unlinked),
            Instruction::ConditionalJumpTo(_) => self.fails(Fault::Unlinked),
            Instruction::JumpTarget(_) => self.fails(Fault::Unlinked),
            Instruction::JumpRefTo(_) => self.fails(Fault::Unlinked),
        }
    }

    /// Executes up to `budget` instructions, and stops at the first that
    /// asks anything of the host.
    pub fn run(&mut self, budget: usize) -> (effect: Effect)
        ensures
            (final(self)@, effect@) == run(old(self)@, budget as nat),
    {
        let mut left = budget;
        while left > 0
            invariant
                run(old(self)@, budget as nat) == run(self@, left as nat),
            decreases left,
        {
            let effect = self.step();
            match effect {
                Effect::Continue => {},
                other => {
                    return other;
                },
            }
            left = left - 1;
        }
        Effect::Continue
    }
}

/// How a value reads when it is shown. A number has no text here: the
/// host renders it.
pub open spec fn shown(v: ValueView) -> Option<Seq<char>> {
    match v {
        ValueView::Num(_) => None,
        ValueView::Str(text) => Some(text),
        ValueView::Bool(b) => Some(
            if b {
                "true"@
            } else {
                "false"@
            },
        ),
        ValueView::Fn(n) => Some("<function @ "@ + crate::text::decimal(n as nat) + ">"@),
        ValueView::JumpRef(n) => Some("<jump ref : "@ + crate::text::decimal(n as nat) + ">"@),
        ValueView::Nothing => Some("<nothing>"@),
        ValueView::Scope(n) => Some("<scope "@ + crate::text::decimal(n as nat) + ">"@),
    }
}

impl Value {
    /// The text of the value as `show` prints it, but for a number.
    pub fn show(&self) -> (text: Option<String>)
        ensures
            match shown(self@) {
                Some(t) => text matches Some(s) && s@ == t,
                None => text is None,
            },
    {
        match self {
            Value::Num(_) => None,
            Value::Str(text) => Some(text.clone()),
            Value::Bool(b) => Some(
                if *b {
                    "true".to_owned()
                } else {
                    "false".to_owned()
                },
            ),
            Value::Fn(n) => {
                let mut text = "<function @ ".to_owned();
                crate::text::push_decimal(&mut text, *n as u64);
                crate::text::put(&mut text, ">");
                Some(text)
            },
            Value::JumpRef(n) => {
                let mut text = "<jump ref : ".to_owned();
                crate::text::push_decimal(&mut text, *n as u64);
                crate::text::put(&mut text, ">");
                Some(text)
            },
            Value::Nothing => Some("<nothing>".to_owned()),
            Value::Scope(n) => {
                let mut text = "<scope ".to_owned();
                crate::text::push_decimal(&mut text, *n as u64);
                crate::text::put(&mut text, ">");
                Some(text)
            },
        }
    }
}

impl Default for Scope {
    fn default() -> (scope: Scope)
        ensures
            scope@ == ScopeView::empty(),
    {
        Scope::new()
    }
}

} // verus!
