//! The one-value invariant, read off the code: followed instruction by
//! instruction and along every jump, the code of an expression leaves one
//! value more on the operand stack than it found, and as many scopes.

use vstd::prelude::*;
use crate::ast::{ExprView, ExpressionView};
use crate::compiler::model::{
    BuilderView, all_weight, binary_instruction, literal_value, lowerable, lowered, lowered_all,
    store_arguments, unary_instruction, weight,
};
use crate::vm::Instruction;

verus! {

/// What is known at one point of the code: the height of the operand stack
/// and the depth of the scope stack there, both counted from the start of
/// the code that is followed, or nothing where no instruction leads; the
/// height and depth that each label met so far stands for; and whether
/// everything met so far fits.
pub struct Balance {
    pub live: Option<(int, int)>,
    pub expect: Map<usize, (int, int)>,
    pub ok: bool,
}

impl Balance {
    /// The start of code that finds `h` values and `d` scopes.
    pub open spec fn start(h: int, d: int) -> Balance {
        Balance { live: Some((h, d)), expect: Map::empty(), ok: true }
    }

    /// The point behind an instruction that leaves `h` values and `d`
    /// scopes, when `fits` holds of what it found.
    pub open spec fn goes(self, fits: bool, h: int, d: int) -> Balance {
        Balance { live: Some((h, d)), ok: self.ok && fits, ..self }
    }

    /// The point behind an instruction that hands control elsewhere.
    pub open spec fn leaves(self, fits: bool) -> Balance {
        Balance { live: None, ok: self.ok && fits, ..self }
    }

    /// The label `t` stands for `h` values and `d` scopes: it is noted when
    /// it is met first, and must agree with what was noted otherwise.
    pub open spec fn meet(self, t: usize, h: int, d: int) -> Balance {
        if self.expect.contains_key(t) {
            Balance { ok: self.ok && self.expect[t] == (h, d), ..self }
        } else {
            Balance { expect: self.expect.insert(t, (h, d)), ..self }
        }
    }
}

/// What is known behind the instruction `i`, from what is known before it.
/// Where no instruction leads, only a mark whose label was met brings the
/// code back to life. A jump notes or checks its label. The end of a
/// function body, `PopJump`, must find two values, the result and the jump
/// reference, and no scope left open.
pub open spec fn follow(st: Balance, i: Instruction) -> Balance {
    match st.live {
        None => match i {
            Instruction::JumpTarget(t) => if st.expect.contains_key(t) {
                Balance { live: Some(st.expect[t]), ..st }
            } else {
                st
            },
            _ => st,
        },
        Some((h, d)) => match i {
            Instruction::LoadConst(_) => st.goes(true, h + 1, d),
            Instruction::PushNothing => st.goes(true, h + 1, d),
            Instruction::LoadVar(_) => st.goes(true, h + 1, d),
            Instruction::Duplicate => st.goes(h >= 1, h + 1, d),
            Instruction::Discard => st.goes(h >= 1, h - 1, d),
            Instruction::Store(_) => st.goes(h >= 1, h - 1, d),
            Instruction::AssignStore(_) => st.goes(h >= 1, h - 1, d),
            Instruction::Swap => st.goes(h >= 2, h, d),
            Instruction::Negate => st.goes(h >= 1, h, d),
            Instruction::Invert => st.goes(h >= 1, h, d),
            Instruction::Show => st.goes(h >= 1, h, d),
            Instruction::AccessProperty(_) => st.goes(h >= 1, h, d),
            Instruction::Add => st.goes(h >= 2, h - 1, d),
            Instruction::Subtract => st.goes(h >= 2, h - 1, d),
            Instruction::Multiply => st.goes(h >= 2, h - 1, d),
            Instruction::Divide => st.goes(h >= 2, h - 1, d),
            Instruction::RaiseTo => st.goes(h >= 2, h - 1, d),
            Instruction::CheckEquality => st.goes(h >= 2, h - 1, d),
            Instruction::CheckInequality => st.goes(h >= 2, h - 1, d),
            Instruction::Lesser => st.goes(h >= 2, h - 1, d),
            Instruction::Greater => st.goes(h >= 2, h - 1, d),
            Instruction::LesserEq => st.goes(h >= 2, h - 1, d),
            Instruction::GreaterEq => st.goes(h >= 2, h - 1, d),
            Instruction::Panic => st.leaves(h >= 1),
            Instruction::NewScope => st.goes(true, h, d + 1),
            Instruction::EndScope => st.goes(d >= 1, h, d - 1),
            Instruction::EndAndNameScope(_) => st.goes(d >= 1, h, d - 1),
            Instruction::RequireArguments(n) => st.goes(true, h + n, d),
            Instruction::Null => st,
            Instruction::FunctionTag(_) => st,
            Instruction::CodegenHelper(_) => st,
            Instruction::Terminate => st.leaves(true),
            Instruction::Call => st.leaves(h >= 1),
            Instruction::PopJump => st.leaves(h == 2 && d == 0),
            Instruction::JumpRefTo(r) => st.meet(r, h + 1, d).goes(true, h + 1, d),
            Instruction::JumpTo(t) => st.meet(t, h, d).leaves(true),
            Instruction::ConditionalJumpTo(t) => st.meet(t, h - 1, d).goes(h >= 1, h - 1, d),
            Instruction::JumpTarget(t) => st.meet(t, h, d),
            Instruction::Jump(_) => st.leaves(false),
            Instruction::ConditionalJump(_) => st.leaves(false),
            Instruction::PushJumpRef(_) => st.leaves(false),
        },
    }
}

/// What is known behind the instructions, followed in order from `st`.
pub open spec fn followed(s: Seq<Instruction>, st: Balance) -> Balance
    decreases s.len(),
{
    if s.len() == 0 {
        st
    } else {
        follow(followed(s.drop_last(), st), s.last())
    }
}

/// The body of a function keeps the balance: entered with its jump
/// reference on the stack, it fits throughout, ends where control is
/// handed back, and so does every function body that waits inside it.
pub open spec fn body_balanced(b: BuilderView) -> bool
    decreases b,
{
    &&& followed(b.instructions, Balance::start(1, 0)).ok
    &&& followed(b.instructions, Balance::start(1, 0)).live is None
    &&& forall|i: int| 0 <= i < b.end_stuff.len() ==> body_balanced((#[trigger] b.end_stuff[i]).1)
}

/// The code of the builder, followed from `st`, fits, and stands at `h`
/// values and `d` scopes or where no instruction leads; every label met is
/// one that the builder reserved; and every waiting function body keeps
/// the balance.
pub open spec fn tracks(b: BuilderView, st: Balance, h: int, d: int) -> bool {
    let at = followed(b.instructions, st);
    &&& at.ok
    &&& at.live is None || at.live == Some((h, d))
    &&& forall|t: usize| at.expect.contains_key(t) ==> t < b.target_no
    &&& forall|i: int| 0 <= i < b.end_stuff.len() ==> body_balanced((#[trigger] b.end_stuff[i]).1)
}

/// The labels below `limit` stand for the same in both.
pub open spec fn same_below(a: Map<usize, (int, int)>, b: Map<usize, (int, int)>, limit: usize) -> bool {
    forall|t: usize|
        #![trigger a.contains_key(t)]
        #![trigger b.contains_key(t)]
        t < limit ==> a.contains_key(t) == b.contains_key(t) && (a.contains_key(t) ==> a[t] == b[t])
}

/// Whether lowering gives every node of the tree code that leaves one
/// value: every node can be lowered, every assignment has an identifier as
/// its target, and the parameters of every function can be counted.
pub open spec fn proper(e: ExpressionView) -> bool
    decreases e,
{
    match e.et {
        ExprView::Literal { src } => src.is_literal(),
        ExprView::Unary { right, .. } => proper(*right),
        ExprView::Binary { left, right, .. } => proper(*left) && proper(*right),
        ExprView::Semicolon { left, right } => proper(*left) && proper(*right),
        ExprView::Block(inside) => (match inside {
            Some(inner) => proper(*inner),
            None => true,
        }),
        ExprView::Module(inside, _) => (match inside {
            Some(inner) => proper(*inner),
            None => true,
        }),
        ExprView::Call { callee, args } => proper(*callee) && forall|i: int|
            0 <= i < args.len() ==> proper(#[trigger] args[i]),
        ExprView::Property { object, .. } => proper(*object),
        ExprView::Break { .. } => false,
        ExprView::Continue => false,
        ExprView::Use { .. } => false,
        ExprView::Loop { inside } => proper(*inside),
        ExprView::If { condition, then, else_ } => proper(*condition) && proper(*then) && (
        match else_ {
            Some(other) => proper(*other),
            None => true,
        }),
        ExprView::Assign { left, right } => left.et is Identifier && proper(*right),
        ExprView::AssignOp { left, right, .. } => left.et is Identifier && proper(*right),
        ExprView::Identifier { .. } => true,
        ExprView::Fn { body, args, .. } => proper(*body) && args.len() <= usize::MAX,
        ExprView::Let { value, .. } => (match value {
            Some(x) => proper(*x),
            None => true,
        }),
        ExprView::While { condition, body } => proper(*condition) && proper(*body),
        ExprView::EnumDecl { .. } => false,
    }
}

/// Where no instruction leads before the code of a step, none leads behind
/// it.
pub open spec fn stays_dead(b: BuilderView, r: BuilderView, st: Balance) -> bool {
    followed(b.instructions, st).live is None ==> followed(r.instructions, st).live is None
}

/// What a step of lowering keeps: the builder `r` goes on from `b`, with
/// the labels that `b` had noted unchanged, and without life where `b`
/// had none.
pub open spec fn extends(b: BuilderView, r: BuilderView, st: Balance) -> bool {
    &&& b.target_no <= r.target_no
    &&& r.debug == b.debug
    &&& same_below(
        followed(b.instructions, st).expect,
        followed(r.instructions, st).expect,
        b.target_no,
    )
    &&& stays_dead(b, r, st)
    &&& followed(b.instructions, st).live is None ==> followed(r.instructions, st).expect
        == followed(b.instructions, st).expect
}

/// Emitting an instruction is following it.
pub proof fn lemma_emit_follows(b: BuilderView, st: Balance, i: Instruction)
    ensures
        followed(b.emit(i).instructions, st) == follow(followed(b.instructions, st), i),
{
    assert(b.instructions.push(i).drop_last() =~= b.instructions);
}

/// An instruction that takes `need` values and leaves `gives`, and does
/// not touch the scopes nor jump.
pub open spec fn simple(i: Instruction, need: int, gives: int) -> bool {
    &&& !(i is JumpTarget)
    &&& forall|st: Balance| st.live is Some ==> #[trigger] follow(st, i) == moved(st, need, gives)
}

/// The point behind an instruction that takes `need` values and leaves
/// `gives`.
pub open spec fn moved(st: Balance, need: int, gives: int) -> Balance {
    match st.live {
        Some((h, d)) => st.goes(need <= 0 || h >= need, h - need + gives, d),
        None => st,
    }
}

/// Emitting a simple instruction moves the height and keeps the rest.
pub proof fn lemma_emit_simple(
    b: BuilderView,
    st: Balance,
    h: int,
    d: int,
    i: Instruction,
    need: int,
    gives: int,
)
    requires
        tracks(b, st, h, d),
        simple(i, need, gives),
        h >= need,
    ensures
        tracks(b.emit(i), st, h - need + gives, d),
        extends(b, b.emit(i), st),
        b.emit(i).target_no == b.target_no,
{
    lemma_emit_follows(b, st, i);
    let before = followed(b.instructions, st);
    if before.live is Some {
        assert(follow(before, i) == moved(before, need, gives));
    }
}

/// Emitting an instruction that opens or closes a scope moves the depth
/// and keeps the rest.
pub proof fn lemma_emit_scope(b: BuilderView, st: Balance, h: int, d: int, i: Instruction)
    requires
        tracks(b, st, h, d),
        i is NewScope || ((i is EndScope || i is EndAndNameScope) && d >= 1),
    ensures
        tracks(
            b.emit(i),
            st,
            h,
            if i is NewScope {
                d + 1
            } else {
                d - 1
            },
        ),
        extends(b, b.emit(i), st),
        b.emit(i).target_no == b.target_no,
{
    lemma_emit_follows(b, st, i);
}

/// Adding a name and emitting a simple instruction that holds its
/// position moves the height and keeps the rest.
pub proof fn lemma_named_simple(
    b: BuilderView,
    st: Balance,
    h: int,
    d: int,
    name: Seq<char>,
    make: spec_fn(usize) -> Instruction,
    need: int,
    gives: int,
)
    requires
        tracks(b, st, h, d),
        forall|k: usize| simple(#[trigger] make(k), need, gives),
        h >= need,
    ensures
        tracks(b.named(name, make), st, h - need + gives, d),
        extends(b, b.named(name, make), st),
        b.named(name, make).target_no == b.target_no,
{
    let (b1, slot) = b.name(name);
    lemma_emit_simple(b1, st, h, d, make(slot), need, gives);
}

/// Reserving a label changes nothing that is followed.
pub proof fn lemma_reserve_tracks(b: BuilderView, st: Balance, h: int, d: int)
    requires
        tracks(b, st, h, d),
        b.target_no < usize::MAX,
    ensures
        tracks(b.reserve().0, st, h, d),
        extends(b, b.reserve().0, st),
        b.reserve().1 == b.target_no,
        b.reserve().0.target_no == b.target_no + 1,
        b.reserve().0.instructions == b.instructions,
        !followed(b.instructions, st).expect.contains_key(b.target_no),
{
}

/// One step after another keeps what each keeps.
pub proof fn lemma_extends_twice(a: BuilderView, b: BuilderView, c: BuilderView, st: Balance)
    requires
        extends(a, b, st),
        extends(b, c, st),
    ensures
        extends(a, c, st),
{
    let x = followed(a.instructions, st).expect;
    let y = followed(b.instructions, st).expect;
    let z = followed(c.instructions, st).expect;
    assert forall|t: usize| t < a.target_no implies x.contains_key(t) == z.contains_key(t) && (
    x.contains_key(t) ==> x[t] == z[t]) by {
        assert(x.contains_key(t) == y.contains_key(t));
        assert(y.contains_key(t) == z.contains_key(t));
    }
}

/// What lowering needs of a builder that is followed: the tree is proper,
/// the builder tracks, and has room for the labels that the tree takes.
pub open spec fn set(e: ExpressionView, b: BuilderView, st: Balance, h: int, d: int) -> bool {
    &&& proper(e)
    &&& tracks(b, st, h, d)
    &&& h >= 0
    &&& d >= 0
    &&& b.target_no + 2 * weight(e) <= usize::MAX
}

/// What lowering gives: the builder `r` stands one value higher than `b`,
/// and goes on from it.
pub open spec fn risen(
    e: ExpressionView,
    b: BuilderView,
    r: BuilderView,
    st: Balance,
    h: int,
    d: int,
) -> bool {
    &&& tracks(r, st, h + 1, d)
    &&& extends(b, r, st)
    &&& r.target_no <= b.target_no + 2 * weight(e)
}

proof fn lemma_simple_instructions()
    ensures
        simple(Instruction::PushNothing, 0, 1),
        simple(Instruction::Duplicate, 1, 2),
        simple(Instruction::Discard, 1, 0),
        simple(Instruction::Swap, 2, 2),
        simple(Instruction::Negate, 1, 1),
        simple(Instruction::Invert, 1, 1),
        simple(Instruction::Show, 1, 1),
        forall|k: usize| #[trigger] simple(Instruction::LoadConst(k), 0, 1),
        forall|k: usize| #[trigger] simple(Instruction::LoadVar(k), 0, 1),
        forall|k: usize| #[trigger] simple(Instruction::Store(k), 1, 0),
        forall|k: usize| #[trigger] simple(Instruction::AssignStore(k), 1, 0),
        forall|k: usize| #[trigger] simple(Instruction::AccessProperty(k), 1, 1),
        forall|k: usize| #[trigger] simple(Instruction::FunctionTag(k), 0, 0),
        forall|op: crate::ast::BinaryOp| simple(#[trigger] binary_instruction(op), 2, 1),
{
    assert forall|op: crate::ast::BinaryOp| simple(#[trigger] binary_instruction(op), 2, 1) by {
        match op {
            crate::ast::BinaryOp::Add => {},
            crate::ast::BinaryOp::Sub => {},
            crate::ast::BinaryOp::Mul => {},
            crate::ast::BinaryOp::Div => {},
            crate::ast::BinaryOp::Exp => {},
            crate::ast::BinaryOp::Eq => {},
            crate::ast::BinaryOp::Lt => {},
            crate::ast::BinaryOp::Gt => {},
            crate::ast::BinaryOp::Leq => {},
            crate::ast::BinaryOp::Geq => {},
            crate::ast::BinaryOp::Neq => {},
        }
    }
}

/// What is known of a label while the code between its jumps and its mark
/// is lowered: if it was noted, it stands for `h` values and `d` scopes.
pub open spec fn noted(b: BuilderView, st: Balance, t: usize, h: int, d: int) -> bool {
    let at = followed(b.instructions, st);
    at.expect.contains_key(t) ==> at.expect[t] == (h, d)
}

/// A jump or a mark with a label that `orig` had not reserved keeps what
/// `orig` had noted.
proof fn lemma_emit_label(
    orig: BuilderView,
    cur: BuilderView,
    st: Balance,
    h: int,
    d: int,
    i: Instruction,
    t: usize,
)
    requires
        tracks(cur, st, h, d),
        extends(orig, cur, st),
        orig.target_no <= t < cur.target_no,
        forall|u: usize|
            followed(orig.instructions, st).expect.contains_key(u) ==> u < orig.target_no,
        i == Instruction::JumpTarget(t) || i == Instruction::JumpTo(t) || i
            == Instruction::ConditionalJumpTo(t) || i == Instruction::JumpRefTo(t),
    ensures
        followed(cur.emit(i).instructions, st) == follow(followed(cur.instructions, st), i),
        extends(orig, cur.emit(i), st),
        forall|u: usize|
            u != t ==> followed(cur.emit(i).instructions, st).expect.contains_key(u) == followed(
                cur.instructions,
                st,
            ).expect.contains_key(u) && (followed(cur.instructions, st).expect.contains_key(u)
                ==> followed(cur.emit(i).instructions, st).expect[u] == followed(
                cur.instructions,
                st,
            ).expect[u]),
        forall|u: usize|
            followed(cur.emit(i).instructions, st).expect.contains_key(u) ==> u
                < cur.target_no,
        cur.emit(i).target_no == cur.target_no,
        cur.emit(i).end_stuff == cur.end_stuff,
{
    lemma_emit_follows(cur, st, i);
    let before = followed(cur.instructions, st);
    let start = followed(orig.instructions, st);
    let after = followed(cur.emit(i).instructions, st);
    assert(after == follow(before, i));
    if start.live is None {
        assert(before.live is None);
        assert(before.expect == start.expect);
        assert(!start.expect.contains_key(t)) by {
            if start.expect.contains_key(t) {
                assert(t < orig.target_no);
            }
        }
        assert(after == before);
    }
    assert forall|u: usize|
        u < orig.target_no implies start.expect.contains_key(u) == after.expect.contains_key(u) && (
    start.expect.contains_key(u) ==> start.expect[u] == after.expect[u]) by {
        assert(start.expect.contains_key(u) == before.expect.contains_key(u));
    }
}

proof fn lemma_while_balanced(
    e: ExpressionView,
    b: BuilderView,
    numbers: Seq<u64>,
    at: nat,
    st: Balance,
    h: int,
    d: int,
)
    requires
        set(e, b, st, h, d),
        e.et is While,
    ensures
        risen(e, b, lowered(e, b, numbers, at).0, st, h, d),
    decreases e, 0nat,
{
    lemma_simple_instructions();
    let condition = *e.et->While_condition;
    let body = *e.et->While_body;
    lemma_reserve_tracks(b, st, h, d);
    let (r0, start) = b.reserve();
    lemma_emit_label(b, r0, st, h, d, Instruction::JumpTarget(start), start);
    let b0 = r0.place(start);
    assert(tracks(b0, st, h, d));
    let s0 = followed(b0.instructions, st);
    assert(s0.live is Some ==> s0.expect.contains_key(start) && s0.expect[start] == (h, d));
    lemma_reserve_tracks(b0, st, h, d);
    let (b1, end) = b0.reserve();
    lemma_extends_twice(b, b0, b1, st);
    lemma_lowered_balanced(condition, b1, numbers, at, st, h, d);
    let (b2, at1) = lowered(condition, b1, numbers, at);
    lemma_extends_twice(b, b1, b2, st);
    lemma_emit_simple(b2, st, h + 1, d, Instruction::Invert, 1, 1);
    let b2a = b2.emit(Instruction::Invert);
    lemma_extends_twice(b, b2, b2a, st);
    lemma_emit_label(b, b2a, st, h + 1, d, Instruction::ConditionalJumpTo(end), end);
    let b2b = b2a.emit(Instruction::ConditionalJumpTo(end));
    let s2 = followed(b2b.instructions, st);
    assert(!followed(b2a.instructions, st).expect.contains_key(end));
    assert(tracks(b2b, st, h, d));
    assert(noted(b2b, st, end, h, d));
    assert(s2.live is Some ==> s2.expect.contains_key(start) && s2.expect[start] == (h, d));
    lemma_lowered_balanced(body, b2b, numbers, at1, st, h, d);
    let (b3, at2) = lowered(body, b2b, numbers, at1);
    lemma_extends_twice(b, b2b, b3, st);
    lemma_emit_simple(b3, st, h + 1, d, Instruction::Discard, 1, 0);
    let b4 = b3.emit(Instruction::Discard);
    lemma_extends_twice(b, b3, b4, st);
    let s4 = followed(b4.instructions, st);
    assert(noted(b4, st, end, h, d));
    assert(s4.live is Some ==> s4.expect.contains_key(start) && s4.expect[start] == (h, d)) by {
        if s4.live is Some {
            assert(s2.live is Some);
        }
    }
    lemma_emit_label(b, b4, st, h, d, Instruction::JumpTo(start), start);
    let b5 = b4.emit(Instruction::JumpTo(start));
    assert(followed(b5.instructions, st).live is None);
    assert(tracks(b5, st, h, d));
    assert(noted(b5, st, end, h, d));
    lemma_emit_label(b, b5, st, h, d, Instruction::JumpTarget(end), end);
    let b6 = b5.place(end);
    assert(tracks(b6, st, h, d));
    lemma_emit_simple(b6, st, h, d, Instruction::PushNothing, 0, 1);
    lemma_extends_twice(b, b6, b6.padding(), st);
}

proof fn lemma_loop_balanced(
    e: ExpressionView,
    b: BuilderView,
    numbers: Seq<u64>,
    at: nat,
    st: Balance,
    h: int,
    d: int,
)
    requires
        set(e, b, st, h, d),
        e.et is Loop,
    ensures
        risen(e, b, lowered(e, b, numbers, at).0, st, h, d),
    decreases e, 0nat,
{
    lemma_simple_instructions();
    let inside = *e.et->Loop_inside;
    lemma_reserve_tracks(b, st, h, d);
    let (r0, start) = b.reserve();
    lemma_emit_label(b, r0, st, h, d, Instruction::JumpTarget(start), start);
    let b0 = r0.place(start);
    assert(tracks(b0, st, h, d));
    let s0 = followed(b0.instructions, st);
    assert(s0.live is Some ==> s0.expect.contains_key(start) && s0.expect[start] == (h, d));
    lemma_lowered_balanced(inside, b0, numbers, at, st, h, d);
    let (b1, at1) = lowered(inside, b0, numbers, at);
    lemma_extends_twice(b, b0, b1, st);
    lemma_emit_simple(b1, st, h + 1, d, Instruction::Discard, 1, 0);
    let b2 = b1.emit(Instruction::Discard);
    lemma_extends_twice(b, b1, b2, st);
    let s2 = followed(b2.instructions, st);
    assert(s2.live is Some ==> s2.expect.contains_key(start) && s2.expect[start] == (h, d)) by {
        if s2.live is Some {
            assert(s0.live is Some);
        }
    }
    lemma_emit_label(b, b2, st, h, d, Instruction::JumpTo(start), start);
    let b3 = b2.emit(Instruction::JumpTo(start));
    assert(followed(b3.instructions, st).live is None);
    assert(tracks(b3, st, h, d));
    lemma_emit_simple(b3, st, h, d, Instruction::PushNothing, 0, 1);
    lemma_extends_twice(b, b3, b3.padding(), st);
}

proof fn lemma_if_balanced(
    e: ExpressionView,
    b: BuilderView,
    numbers: Seq<u64>,
    at: nat,
    st: Balance,
    h: int,
    d: int,
)
    requires
        set(e, b, st, h, d),
        e.et is If,
    ensures
        risen(e, b, lowered(e, b, numbers, at).0, st, h, d),
    decreases e, 0nat,
{
    lemma_simple_instructions();
    let condition = *e.et->If_condition;
    let then = *e.et->If_then;
    lemma_lowered_balanced(condition, b, numbers, at, st, h, d);
    let (b1, at1) = lowered(condition, b, numbers, at);
    lemma_reserve_tracks(b1, st, h + 1, d);
    let (b2, target) = b1.reserve();
    lemma_extends_twice(b, b1, b2, st);
    match e.et->If_else_ {
        Some(boxed) => {
            let other = *boxed;
            lemma_reserve_tracks(b2, st, h + 1, d);
            let (b3, end) = b2.reserve();
            lemma_extends_twice(b, b2, b3, st);
            lemma_emit_simple(b3, st, h + 1, d, Instruction::Invert, 1, 1);
            let b3a = b3.emit(Instruction::Invert);
            lemma_extends_twice(b, b3, b3a, st);
            lemma_emit_label(b, b3a, st, h + 1, d, Instruction::ConditionalJumpTo(target), target);
            let b3b = b3a.emit(Instruction::ConditionalJumpTo(target));
            assert(!followed(b3a.instructions, st).expect.contains_key(target));
            assert(!followed(b3a.instructions, st).expect.contains_key(end));
            assert(tracks(b3b, st, h, d));
            assert(noted(b3b, st, target, h, d));
            assert(!followed(b3b.instructions, st).expect.contains_key(end));
            lemma_lowered_balanced(then, b3b, numbers, at1, st, h, d);
            let (b4, at2) = lowered(then, b3b, numbers, at1);
            lemma_extends_twice(b, b3b, b4, st);
            assert(noted(b4, st, target, h, d));
            assert(!followed(b4.instructions, st).expect.contains_key(end));
            lemma_emit_label(b, b4, st, h + 1, d, Instruction::JumpTo(end), end);
            let b4a = b4.emit(Instruction::JumpTo(end));
            assert(followed(b4a.instructions, st).live is None);
            assert(tracks(b4a, st, h, d));
            assert(noted(b4a, st, target, h, d));
            assert(noted(b4a, st, end, h + 1, d));
            lemma_emit_label(b, b4a, st, h, d, Instruction::JumpTarget(target), target);
            let b4b = b4a.place(target);
            assert(tracks(b4b, st, h, d));
            assert(noted(b4b, st, end, h + 1, d));
            lemma_lowered_balanced(other, b4b, numbers, at2, st, h, d);
            let (b5, at3) = lowered(other, b4b, numbers, at2);
            lemma_extends_twice(b, b4b, b5, st);
            assert(noted(b5, st, end, h + 1, d));
            lemma_emit_label(b, b5, st, h + 1, d, Instruction::JumpTarget(end), end);
            assert(tracks(b5.place(end), st, h + 1, d));
        },
        None => {
            lemma_emit_simple(b2, st, h + 1, d, Instruction::Invert, 1, 1);
            let b2a = b2.emit(Instruction::Invert);
            lemma_extends_twice(b, b2, b2a, st);
            lemma_emit_label(b, b2a, st, h + 1, d, Instruction::ConditionalJumpTo(target), target);
            let b2b = b2a.emit(Instruction::ConditionalJumpTo(target));
            assert(!followed(b2a.instructions, st).expect.contains_key(target));
            assert(tracks(b2b, st, h, d));
            assert(noted(b2b, st, target, h, d));
            lemma_lowered_balanced(then, b2b, numbers, at1, st, h, d);
            let (b3, at2) = lowered(then, b2b, numbers, at1);
            lemma_extends_twice(b, b2b, b3, st);
            lemma_emit_simple(b3, st, h + 1, d, Instruction::Discard, 1, 0);
            let b3a = b3.emit(Instruction::Discard);
            lemma_extends_twice(b, b3, b3a, st);
            assert(noted(b3a, st, target, h, d));
            lemma_emit_label(b, b3a, st, h, d, Instruction::JumpTarget(target), target);
            let b3b = b3a.place(target);
            assert(tracks(b3b, st, h, d));
            lemma_emit_simple(b3b, st, h, d, Instruction::PushNothing, 0, 1);
            lemma_extends_twice(b, b3b, b3b.padding(), st);
        },
    }
}

proof fn lemma_all_balanced(
    es: Seq<ExpressionView>,
    b: BuilderView,
    numbers: Seq<u64>,
    at: nat,
    st: Balance,
    h: int,
    d: int,
)
    requires
        forall|i: int| 0 <= i < es.len() ==> proper(#[trigger] es[i]),
        tracks(b, st, h, d),
        h >= 0,
        d >= 0,
        b.target_no + 2 * all_weight(es) <= usize::MAX,
    ensures
        tracks(lowered_all(es, b, numbers, at).0, st, h + es.len(), d),
        extends(b, lowered_all(es, b, numbers, at).0, st),
        lowered_all(es, b, numbers, at).0.target_no <= b.target_no + 2 * all_weight(es),
    decreases es, 1nat,
{
    if es.len() > 0 {
        assert forall|i: int| 0 <= i < es.drop_last().len() implies proper(
            #[trigger] es.drop_last()[i],
        ) by {
            assert(es.drop_last()[i] == es[i]);
        }
        lemma_all_balanced(es.drop_last(), b, numbers, at, st, h, d);
        let (b1, at1) = lowered_all(es.drop_last(), b, numbers, at);
        lemma_lowered_balanced(es.last(), b1, numbers, at1, st, h + es.len() - 1, d);
        lemma_extends_twice(b, b1, lowered(es.last(), b1, numbers, at1).0, st);
    }
}

proof fn lemma_call_balanced(
    e: ExpressionView,
    b: BuilderView,
    numbers: Seq<u64>,
    at: nat,
    st: Balance,
    h: int,
    d: int,
)
    requires
        set(e, b, st, h, d),
        e.et is Call,
    ensures
        risen(e, b, lowered(e, b, numbers, at).0, st, h, d),
    decreases e, 0nat,
{
    lemma_simple_instructions();
    let callee = *e.et->Call_callee;
    let args = e.et->Call_args;
    lemma_reserve_tracks(b, st, h, d);
    let (b0, ret) = b.reserve();
    lemma_emit_label(b, b0, st, h, d, Instruction::JumpRefTo(ret), ret);
    let b1 = b0.emit(Instruction::JumpRefTo(ret));
    assert(tracks(b1, st, h + 1, d));
    assert(noted(b1, st, ret, h + 1, d));
    lemma_all_balanced(args, b1, numbers, at, st, h + 1, d);
    let (b2, at1) = lowered_all(args, b1, numbers, at);
    lemma_extends_twice(b, b1, b2, st);
    lemma_lowered_balanced(callee, b2, numbers, at1, st, h + 1 + args.len(), d);
    let (b3, at2) = lowered(callee, b2, numbers, at1);
    lemma_extends_twice(b, b2, b3, st);
    assert(noted(b3, st, ret, h + 1, d));
    lemma_emit_follows(b3, st, Instruction::Call);
    let b4 = b3.emit(Instruction::Call);
    assert(followed(b4.instructions, st).live is None);
    assert(tracks(b4, st, h, d));
    assert(extends(b3, b4, st));
    lemma_extends_twice(b, b3, b4, st);
    assert(noted(b4, st, ret, h + 1, d));
    lemma_emit_label(b, b4, st, h, d, Instruction::JumpTarget(ret), ret);
    assert(tracks(b4.place(ret), st, h + 1, d));
}

proof fn lemma_store_arguments_balanced(
    b: BuilderView,
    args: Seq<Seq<char>>,
    n: nat,
    st: Balance,
    h: int,
    d: int,
)
    requires
        tracks(b, st, h, d),
        n <= args.len(),
        h >= args.len() - n,
    ensures
        tracks(store_arguments(b, args, n), st, h - (args.len() - n), d),
        extends(b, store_arguments(b, args, n), st),
        store_arguments(b, args, n).target_no == b.target_no,
        store_arguments(b, args, n).end_stuff == b.end_stuff,
    decreases args.len() - n,
{
    lemma_simple_instructions();
    if n < args.len() {
        lemma_store_arguments_balanced(b, args, n + 1, st, h, d);
        let inner = store_arguments(b, args, n + 1);
        let make = |k: usize| Instruction::AssignStore(k);
        assert forall|k: usize| simple(#[trigger] make(k), 1, 0) by {}
        lemma_named_simple(inner, st, h - (args.len() - n - 1), d, args[n as int], make, 1, 0);
        lemma_extends_twice(b, inner, inner.named(args[n as int], make), st);
    }
}

proof fn lemma_function_balanced(
    e: ExpressionView,
    b: BuilderView,
    numbers: Seq<u64>,
    at: nat,
    st: Balance,
    h: int,
    d: int,
)
    requires
        set(e, b, st, h, d),
        e.et is Fn,
    ensures
        risen(e, b, lowered(e, b, numbers, at).0, st, h, d),
    decreases e, 0nat,
{
    lemma_simple_instructions();
    let name = e.et->Fn_name;
    let body = *e.et->Fn_body;
    let args = e.et->Fn_args;
    let entry_state = Balance::start(1, 0);
    lemma_reserve_tracks(b, st, h, d);
    let (b0, entry) = b.reserve();
    let child0 = BuilderView::fresh(b.debug);
    assert(child0.instructions.len() == 0);
    assert(followed(child0.instructions, entry_state) == entry_state);
    assert(tracks(child0, entry_state, 1, 0));
    let tag = |k: usize| Instruction::FunctionTag(k);
    assert forall|k: usize| simple(#[trigger] tag(k), 0, 0) by {}
    let child1 = if b.debug {
        child0.named(name, tag)
    } else {
        child0
    };
    if b.debug {
        lemma_named_simple(child0, entry_state, 1, 0, name, tag, 0, 0);
    }
    assert(tracks(child1, entry_state, 1, 0));
    lemma_emit_scope(child1, entry_state, 1, 0, Instruction::NewScope);
    let child1a = child1.emit(Instruction::NewScope);
    let count = args.len() as usize;
    lemma_emit_follows(child1a, entry_state, Instruction::RequireArguments(count));
    let child1b = child1a.emit(Instruction::RequireArguments(count));
    assert(count == args.len());
    assert(tracks(child1b, entry_state, 1 + args.len() as int, 1));
    lemma_store_arguments_balanced(child1b, args, 0, entry_state, 1 + args.len() as int, 1);
    let child2 = store_arguments(child1b, args, 0);
    assert(child2.target_no == 0);
    lemma_lowered_balanced(body, child2, numbers, at, entry_state, 1, 1);
    let (child3, at1) = lowered(body, child2, numbers, at);
    lemma_emit_scope(child3, entry_state, 2, 1, Instruction::EndScope);
    let child3a = child3.emit(Instruction::EndScope);
    lemma_emit_simple(child3a, entry_state, 2, 0, Instruction::Swap, 2, 2);
    let child3b = child3a.emit(Instruction::Swap);
    lemma_emit_follows(child3b, entry_state, Instruction::PopJump);
    let child = child3b.emit(Instruction::PopJump);
    assert(followed(child.instructions, entry_state).live is None);
    assert(followed(child.instructions, entry_state).ok);
    assert(child.end_stuff == child3.end_stuff);
    assert(body_balanced(child));
    let (b1, slot) = b0.constant(crate::vm::ValueView::Fn(entry));
    assert(tracks(b1, st, h, d));
    lemma_emit_simple(b1, st, h, d, Instruction::LoadConst(slot), 0, 1);
    let b2 = b1.emit(Instruction::LoadConst(slot));
    lemma_emit_simple(b2, st, h + 1, d, Instruction::Duplicate, 1, 2);
    let b3 = b2.emit(Instruction::Duplicate);
    let declare = |k: usize| Instruction::AssignStore(k);
    assert forall|k: usize| simple(#[trigger] declare(k), 1, 0) by {}
    lemma_named_simple(b3, st, h + 2, d, name, declare, 1, 0);
    let b4 = b3.named(name, declare);
    let r = b4.defer(Instruction::JumpTarget(entry), child);
    assert(r.instructions == b4.instructions);
    assert forall|i: int| 0 <= i < r.end_stuff.len() implies body_balanced(
        (#[trigger] r.end_stuff[i]).1,
    ) by {
        if i < b.end_stuff.len() {
            assert(r.end_stuff[i] == b.end_stuff[i]);
        }
    }
    assert(tracks(r, st, h + 1, d));
    assert(extends(b, b1, st));
    lemma_extends_twice(b, b1, b2, st);
    lemma_extends_twice(b, b2, b3, st);
    lemma_extends_twice(b, b3, b4, st);
    assert(extends(b, r, st));
}

proof fn lemma_literal_balanced(
    e: ExpressionView,
    b: BuilderView,
    numbers: Seq<u64>,
    at: nat,
    st: Balance,
    h: int,
    d: int,
)
    requires
        set(e, b, st, h, d),
        e.et is Literal,
    ensures
        risen(e, b, lowered(e, b, numbers, at).0, st, h, d),
    decreases e, 0nat,
{
    lemma_simple_instructions();
    let store = |k: usize| Instruction::Store(k);
    let declare = |k: usize| Instruction::AssignStore(k);
    let load = |k: usize| Instruction::LoadVar(k);
    let read = |k: usize| Instruction::AccessProperty(k);
    assert forall|k: usize| simple(#[trigger] store(k), 1, 0) by {}
    assert forall|k: usize| simple(#[trigger] declare(k), 1, 0) by {}
    assert forall|k: usize| simple(#[trigger] load(k), 0, 1) by {}
    assert forall|k: usize| simple(#[trigger] read(k), 1, 1) by {}
    match e.et {
        ExprView::Literal { src } => {
            let (v, at1) = literal_value(src, numbers, at);
            let (b1, slot) = b.constant(v);
            assert(tracks(b1, st, h, d));
            lemma_emit_simple(b1, st, h, d, Instruction::LoadConst(slot), 0, 1);
            assert(extends(b, b1, st));
            lemma_extends_twice(b, b1, b1.emit(Instruction::LoadConst(slot)), st);
        },
        _ => {},
    }
}

proof fn lemma_unary_balanced(
    e: ExpressionView,
    b: BuilderView,
    numbers: Seq<u64>,
    at: nat,
    st: Balance,
    h: int,
    d: int,
)
    requires
        set(e, b, st, h, d),
        e.et is Unary,
    ensures
        risen(e, b, lowered(e, b, numbers, at).0, st, h, d),
    decreases e, 0nat,
{
    lemma_simple_instructions();
    let store = |k: usize| Instruction::Store(k);
    let declare = |k: usize| Instruction::AssignStore(k);
    let load = |k: usize| Instruction::LoadVar(k);
    let read = |k: usize| Instruction::AccessProperty(k);
    assert forall|k: usize| simple(#[trigger] store(k), 1, 0) by {}
    assert forall|k: usize| simple(#[trigger] declare(k), 1, 0) by {}
    assert forall|k: usize| simple(#[trigger] load(k), 0, 1) by {}
    assert forall|k: usize| simple(#[trigger] read(k), 1, 1) by {}
    match e.et {
        ExprView::Unary { op, right } => {
            lemma_lowered_balanced(*right, b, numbers, at, st, h, d);
            let (b1, at1) = lowered(*right, b, numbers, at);
            let i = unary_instruction(op);
            lemma_emit_follows(b1, st, i);
            let r = b1.emit(i);
            assert(tracks(r, st, h + 1, d));
            assert(extends(b1, r, st));
            lemma_extends_twice(b, b1, r, st);
        },
        _ => {},
    }
}

proof fn lemma_binary_balanced(
    e: ExpressionView,
    b: BuilderView,
    numbers: Seq<u64>,
    at: nat,
    st: Balance,
    h: int,
    d: int,
)
    requires
        set(e, b, st, h, d),
        e.et is Binary,
    ensures
        risen(e, b, lowered(e, b, numbers, at).0, st, h, d),
    decreases e, 0nat,
{
    lemma_simple_instructions();
    let store = |k: usize| Instruction::Store(k);
    let declare = |k: usize| Instruction::AssignStore(k);
    let load = |k: usize| Instruction::LoadVar(k);
    let read = |k: usize| Instruction::AccessProperty(k);
    assert forall|k: usize| simple(#[trigger] store(k), 1, 0) by {}
    assert forall|k: usize| simple(#[trigger] declare(k), 1, 0) by {}
    assert forall|k: usize| simple(#[trigger] load(k), 0, 1) by {}
    assert forall|k: usize| simple(#[trigger] read(k), 1, 1) by {}
    match e.et {
        ExprView::Binary { op, left, right } => {
            lemma_lowered_balanced(*left, b, numbers, at, st, h, d);
            let (b1, at1) = lowered(*left, b, numbers, at);
            lemma_lowered_balanced(*right, b1, numbers, at1, st, h + 1, d);
            let (b2, at2) = lowered(*right, b1, numbers, at1);
            lemma_extends_twice(b, b1, b2, st);
            lemma_emit_simple(b2, st, h + 2, d, binary_instruction(op), 2, 1);
            lemma_extends_twice(b, b2, b2.emit(binary_instruction(op)), st);
        },
        _ => {},
    }
}

proof fn lemma_semicolon_balanced(
    e: ExpressionView,
    b: BuilderView,
    numbers: Seq<u64>,
    at: nat,
    st: Balance,
    h: int,
    d: int,
)
    requires
        set(e, b, st, h, d),
        e.et is Semicolon,
    ensures
        risen(e, b, lowered(e, b, numbers, at).0, st, h, d),
    decreases e, 0nat,
{
    lemma_simple_instructions();
    let store = |k: usize| Instruction::Store(k);
    let declare = |k: usize| Instruction::AssignStore(k);
    let load = |k: usize| Instruction::LoadVar(k);
    let read = |k: usize| Instruction::AccessProperty(k);
    assert forall|k: usize| simple(#[trigger] store(k), 1, 0) by {}
    assert forall|k: usize| simple(#[trigger] declare(k), 1, 0) by {}
    assert forall|k: usize| simple(#[trigger] load(k), 0, 1) by {}
    assert forall|k: usize| simple(#[trigger] read(k), 1, 1) by {}
    match e.et {
        ExprView::Semicolon { left, right } => {
            lemma_lowered_balanced(*left, b, numbers, at, st, h, d);
            let (b1, at1) = lowered(*left, b, numbers, at);
            lemma_emit_simple(b1, st, h + 1, d, Instruction::Discard, 1, 0);
            let b2 = b1.emit(Instruction::Discard);
            lemma_extends_twice(b, b1, b2, st);
            lemma_lowered_balanced(*right, b2, numbers, at1, st, h, d);
            lemma_extends_twice(b, b2, lowered(*right, b2, numbers, at1).0, st);
        },
        _ => {},
    }
}

proof fn lemma_block_balanced(
    e: ExpressionView,
    b: BuilderView,
    numbers: Seq<u64>,
    at: nat,
    st: Balance,
    h: int,
    d: int,
)
    requires
        set(e, b, st, h, d),
        e.et is Block,
    ensures
        risen(e, b, lowered(e, b, numbers, at).0, st, h, d),
    decreases e, 0nat,
{
    lemma_simple_instructions();
    let store = |k: usize| Instruction::Store(k);
    let declare = |k: usize| Instruction::AssignStore(k);
    let load = |k: usize| Instruction::LoadVar(k);
    let read = |k: usize| Instruction::AccessProperty(k);
    assert forall|k: usize| simple(#[trigger] store(k), 1, 0) by {}
    assert forall|k: usize| simple(#[trigger] declare(k), 1, 0) by {}
    assert forall|k: usize| simple(#[trigger] load(k), 0, 1) by {}
    assert forall|k: usize| simple(#[trigger] read(k), 1, 1) by {}
    match e.et {
        ExprView::Block(inside) => match inside {
            Some(inner) => {
                lemma_emit_scope(b, st, h, d, Instruction::NewScope);
                let b0 = b.emit(Instruction::NewScope);
                lemma_lowered_balanced(*inner, b0, numbers, at, st, h, d + 1);
                let (b1, at1) = lowered(*inner, b0, numbers, at);
                lemma_extends_twice(b, b0, b1, st);
                lemma_emit_scope(b1, st, h + 1, d + 1, Instruction::EndScope);
                lemma_extends_twice(b, b1, b1.emit(Instruction::EndScope), st);
            },
            None => {
                lemma_emit_simple(b, st, h, d, Instruction::PushNothing, 0, 1);
            },
        },
        _ => {},
    }
}

proof fn lemma_module_balanced(
    e: ExpressionView,
    b: BuilderView,
    numbers: Seq<u64>,
    at: nat,
    st: Balance,
    h: int,
    d: int,
)
    requires
        set(e, b, st, h, d),
        e.et is Module,
    ensures
        risen(e, b, lowered(e, b, numbers, at).0, st, h, d),
    decreases e, 0nat,
{
    lemma_simple_instructions();
    let store = |k: usize| Instruction::Store(k);
    let declare = |k: usize| Instruction::AssignStore(k);
    let load = |k: usize| Instruction::LoadVar(k);
    let read = |k: usize| Instruction::AccessProperty(k);
    assert forall|k: usize| simple(#[trigger] store(k), 1, 0) by {}
    assert forall|k: usize| simple(#[trigger] declare(k), 1, 0) by {}
    assert forall|k: usize| simple(#[trigger] load(k), 0, 1) by {}
    assert forall|k: usize| simple(#[trigger] read(k), 1, 1) by {}
    match e.et {
        ExprView::Module(inside, name) => {
            lemma_emit_scope(b, st, h, d, Instruction::NewScope);
            let b0 = b.emit(Instruction::NewScope);
            let b1 = match inside {
                Some(inner) => lowered(*inner, b0, numbers, at).0,
                None => b0.padding(),
            };
            match inside {
                Some(inner) => {
                    lemma_lowered_balanced(*inner, b0, numbers, at, st, h, d + 1);
                },
                None => {
                    lemma_emit_simple(b0, st, h, d + 1, Instruction::PushNothing, 0, 1);
                },
            }
            lemma_extends_twice(b, b0, b1, st);
            let (b2, slot) = b1.name(name);
            assert(tracks(b2, st, h + 1, d + 1));
            lemma_emit_scope(b2, st, h + 1, d + 1, Instruction::EndAndNameScope(slot));
            let r = b2.emit(Instruction::EndAndNameScope(slot));
            assert(extends(b1, b2, st));
            lemma_extends_twice(b1, b2, r, st);
            lemma_extends_twice(b, b1, r, st);
        },
        _ => {},
    }
}

proof fn lemma_property_balanced(
    e: ExpressionView,
    b: BuilderView,
    numbers: Seq<u64>,
    at: nat,
    st: Balance,
    h: int,
    d: int,
)
    requires
        set(e, b, st, h, d),
        e.et is Property,
    ensures
        risen(e, b, lowered(e, b, numbers, at).0, st, h, d),
    decreases e, 0nat,
{
    lemma_simple_instructions();
    let store = |k: usize| Instruction::Store(k);
    let declare = |k: usize| Instruction::AssignStore(k);
    let load = |k: usize| Instruction::LoadVar(k);
    let read = |k: usize| Instruction::AccessProperty(k);
    assert forall|k: usize| simple(#[trigger] store(k), 1, 0) by {}
    assert forall|k: usize| simple(#[trigger] declare(k), 1, 0) by {}
    assert forall|k: usize| simple(#[trigger] load(k), 0, 1) by {}
    assert forall|k: usize| simple(#[trigger] read(k), 1, 1) by {}
    match e.et {
        ExprView::Property { object, name } => {
            lemma_lowered_balanced(*object, b, numbers, at, st, h, d);
            let (b1, at1) = lowered(*object, b, numbers, at);
            lemma_named_simple(b1, st, h + 1, d, name, read, 1, 1);
            lemma_extends_twice(b, b1, b1.named(name, read), st);
        },
        _ => {},
    }
}

proof fn lemma_assign_balanced(
    e: ExpressionView,
    b: BuilderView,
    numbers: Seq<u64>,
    at: nat,
    st: Balance,
    h: int,
    d: int,
)
    requires
        set(e, b, st, h, d),
        e.et is Assign,
    ensures
        risen(e, b, lowered(e, b, numbers, at).0, st, h, d),
    decreases e, 0nat,
{
    lemma_simple_instructions();
    let store = |k: usize| Instruction::Store(k);
    let declare = |k: usize| Instruction::AssignStore(k);
    let load = |k: usize| Instruction::LoadVar(k);
    let read = |k: usize| Instruction::AccessProperty(k);
    assert forall|k: usize| simple(#[trigger] store(k), 1, 0) by {}
    assert forall|k: usize| simple(#[trigger] declare(k), 1, 0) by {}
    assert forall|k: usize| simple(#[trigger] load(k), 0, 1) by {}
    assert forall|k: usize| simple(#[trigger] read(k), 1, 1) by {}
    match e.et {
        ExprView::Assign { left, right } => match left.et {
            ExprView::Identifier { id } => {
                lemma_lowered_balanced(*right, b, numbers, at, st, h, d);
                let (b1, at1) = lowered(*right, b, numbers, at);
                lemma_named_simple(b1, st, h + 1, d, id, store, 1, 0);
                let b2 = b1.named(id, store);
                lemma_extends_twice(b, b1, b2, st);
                lemma_emit_simple(b2, st, h, d, Instruction::PushNothing, 0, 1);
                lemma_extends_twice(b, b2, b2.padding(), st);
            },
            _ => {},
        },
        _ => {},
    }
}

proof fn lemma_assign_op_balanced(
    e: ExpressionView,
    b: BuilderView,
    numbers: Seq<u64>,
    at: nat,
    st: Balance,
    h: int,
    d: int,
)
    requires
        set(e, b, st, h, d),
        e.et is AssignOp,
    ensures
        risen(e, b, lowered(e, b, numbers, at).0, st, h, d),
    decreases e, 0nat,
{
    lemma_simple_instructions();
    let store = |k: usize| Instruction::Store(k);
    let declare = |k: usize| Instruction::AssignStore(k);
    let load = |k: usize| Instruction::LoadVar(k);
    let read = |k: usize| Instruction::AccessProperty(k);
    assert forall|k: usize| simple(#[trigger] store(k), 1, 0) by {}
    assert forall|k: usize| simple(#[trigger] declare(k), 1, 0) by {}
    assert forall|k: usize| simple(#[trigger] load(k), 0, 1) by {}
    assert forall|k: usize| simple(#[trigger] read(k), 1, 1) by {}
    match e.et {
        ExprView::AssignOp { left, right, op } => match left.et {
            ExprView::Identifier { id } => {
                let (b0, slot) = b.name(id);
                assert(tracks(b0, st, h, d));
                assert(extends(b, b0, st));
                lemma_emit_simple(b0, st, h, d, Instruction::LoadVar(slot), 0, 1);
                let b0a = b0.emit(Instruction::LoadVar(slot));
                lemma_extends_twice(b, b0, b0a, st);
                lemma_lowered_balanced(*right, b0a, numbers, at, st, h + 1, d);
                let (b1, at1) = lowered(*right, b0a, numbers, at);
                lemma_extends_twice(b, b0a, b1, st);
                lemma_emit_simple(b1, st, h + 2, d, binary_instruction(op), 2, 1);
                let b2 = b1.emit(binary_instruction(op));
                lemma_extends_twice(b, b1, b2, st);
                lemma_emit_simple(b2, st, h + 1, d, Instruction::Store(slot), 1, 0);
                let b3 = b2.emit(Instruction::Store(slot));
                lemma_extends_twice(b, b2, b3, st);
                lemma_emit_simple(b3, st, h, d, Instruction::PushNothing, 0, 1);
                lemma_extends_twice(b, b3, b3.padding(), st);
            },
            _ => {},
        },
        _ => {},
    }
}

proof fn lemma_let_balanced(
    e: ExpressionView,
    b: BuilderView,
    numbers: Seq<u64>,
    at: nat,
    st: Balance,
    h: int,
    d: int,
)
    requires
        set(e, b, st, h, d),
        e.et is Let,
    ensures
        risen(e, b, lowered(e, b, numbers, at).0, st, h, d),
    decreases e, 0nat,
{
    lemma_simple_instructions();
    let store = |k: usize| Instruction::Store(k);
    let declare = |k: usize| Instruction::AssignStore(k);
    let load = |k: usize| Instruction::LoadVar(k);
    let read = |k: usize| Instruction::AccessProperty(k);
    assert forall|k: usize| simple(#[trigger] store(k), 1, 0) by {}
    assert forall|k: usize| simple(#[trigger] declare(k), 1, 0) by {}
    assert forall|k: usize| simple(#[trigger] load(k), 0, 1) by {}
    assert forall|k: usize| simple(#[trigger] read(k), 1, 1) by {}
    match e.et {
        ExprView::Let { name, value } => match value {
            Some(x) => {
                lemma_lowered_balanced(*x, b, numbers, at, st, h, d);
                let (b1, at1) = lowered(*x, b, numbers, at);
                lemma_named_simple(b1, st, h + 1, d, name, declare, 1, 0);
                let b2 = b1.named(name, declare);
                lemma_extends_twice(b, b1, b2, st);
                lemma_emit_simple(b2, st, h, d, Instruction::PushNothing, 0, 1);
                lemma_extends_twice(b, b2, b2.padding(), st);
            },
            None => {
                lemma_emit_simple(b, st, h, d, Instruction::PushNothing, 0, 1);
            },
        },
        _ => {},
    }
}

/// Lowering keeps the balance: the code of a proper tree, followed from a
/// point with `h` values and `d` scopes, fits and ends with one value more
/// and as many scopes, or where no instruction leads; and every function
/// body that it leaves waiting keeps the balance.
pub proof fn lemma_lowered_balanced(
    e: ExpressionView,
    b: BuilderView,
    numbers: Seq<u64>,
    at: nat,
    st: Balance,
    h: int,
    d: int,
)
    requires
        set(e, b, st, h, d),
    ensures
        risen(e, b, lowered(e, b, numbers, at).0, st, h, d),
    decreases e, 1nat,
{
    lemma_simple_instructions();
    let store = |k: usize| Instruction::Store(k);
    let declare = |k: usize| Instruction::AssignStore(k);
    let load = |k: usize| Instruction::LoadVar(k);
    let read = |k: usize| Instruction::AccessProperty(k);
    assert forall|k: usize| simple(#[trigger] store(k), 1, 0) by {}
    assert forall|k: usize| simple(#[trigger] declare(k), 1, 0) by {}
    assert forall|k: usize| simple(#[trigger] load(k), 0, 1) by {}
    assert forall|k: usize| simple(#[trigger] read(k), 1, 1) by {}
    match e.et {
        ExprView::Literal { .. } => {
            lemma_literal_balanced(e, b, numbers, at, st, h, d);
        },
        ExprView::Unary { .. } => {
            lemma_unary_balanced(e, b, numbers, at, st, h, d);
        },
        ExprView::Binary { .. } => {
            lemma_binary_balanced(e, b, numbers, at, st, h, d);
        },
        ExprView::Semicolon { .. } => {
            lemma_semicolon_balanced(e, b, numbers, at, st, h, d);
        },
        ExprView::Block(_) => {
            lemma_block_balanced(e, b, numbers, at, st, h, d);
        },
        ExprView::Module(_, _) => {
            lemma_module_balanced(e, b, numbers, at, st, h, d);
        },
        ExprView::Call { .. } => {
            lemma_call_balanced(e, b, numbers, at, st, h, d);
        },
        ExprView::Property { .. } => {
            lemma_property_balanced(e, b, numbers, at, st, h, d);
        },
        ExprView::Break { .. } => {},
        ExprView::Continue => {},
        ExprView::Use { .. } => {},
        ExprView::Loop { .. } => {
            lemma_loop_balanced(e, b, numbers, at, st, h, d);
        },
        ExprView::If { .. } => {
            lemma_if_balanced(e, b, numbers, at, st, h, d);
        },
        ExprView::Assign { .. } => {
            lemma_assign_balanced(e, b, numbers, at, st, h, d);
        },
        ExprView::AssignOp { .. } => {
            lemma_assign_op_balanced(e, b, numbers, at, st, h, d);
        },
        ExprView::Identifier { id } => {
            lemma_named_simple(b, st, h, d, id, load, 0, 1);
        },
        ExprView::Fn { .. } => {
            lemma_function_balanced(e, b, numbers, at, st, h, d);
        },
        ExprView::Let { .. } => {
            lemma_let_balanced(e, b, numbers, at, st, h, d);
        },
        ExprView::While { .. } => {
            lemma_while_balanced(e, b, numbers, at, st, h, d);
        },
        ExprView::EnumDecl { .. } => {},
    }
}

/// The one-value invariant of lowering: the code of a proper tree, lowered
/// into an empty builder and followed instruction by instruction and along
/// every jump, fits what each instruction takes from the operand stack and
/// from the scope stack, and ends with exactly one value and no scope left
/// open, or where no instruction leads; every function body that it leaves
/// waiting, entered with its jump reference and its arguments on the stack,
/// ends with `PopJump` on its result and its jump reference, with no scope
/// left open.
pub proof fn lowered_code_leaves_one_value(e: ExpressionView, debug: bool, numbers: Seq<u64>)
    requires
        proper(e),
        2 * weight(e) <= usize::MAX,
    ensures
        ({
            let b = lowered(e, BuilderView::fresh(debug), numbers, 0).0;
            let end = followed(b.instructions, Balance::start(0, 0));
            &&& end.ok
            &&& end.live is None || end.live == Some((1int, 0int))
            &&& forall|i: int|
                0 <= i < b.end_stuff.len() ==> body_balanced((#[trigger] b.end_stuff[i]).1)
        }),
{
    let b = BuilderView::fresh(debug);
    let st = Balance::start(0, 0);
    assert(b.instructions.len() == 0);
    assert(followed(b.instructions, st) == st);
    lemma_lowered_balanced(e, b, numbers, 0, st, 0, 0);
}

/// A proper tree can be lowered.
pub proof fn proper_trees_can_be_lowered(e: ExpressionView)
    requires
        proper(e),
    ensures
        lowerable(e),
    decreases e,
{
    match e.et {
        ExprView::Unary { right, .. } => proper_trees_can_be_lowered(*right),
        ExprView::Binary { left, right, .. } => {
            proper_trees_can_be_lowered(*left);
            proper_trees_can_be_lowered(*right);
        },
        ExprView::Semicolon { left, right } => {
            proper_trees_can_be_lowered(*left);
            proper_trees_can_be_lowered(*right);
        },
        ExprView::Block(inside) => match inside {
            Some(inner) => proper_trees_can_be_lowered(*inner),
            None => {},
        },
        ExprView::Module(inside, _) => match inside {
            Some(inner) => proper_trees_can_be_lowered(*inner),
            None => {},
        },
        ExprView::Call { callee, args } => {
            proper_trees_can_be_lowered(*callee);
            assert forall|i: int| 0 <= i < args.len() implies lowerable(#[trigger] args[i]) by {
                proper_trees_can_be_lowered(args[i]);
            }
        },
        ExprView::Property { object, .. } => proper_trees_can_be_lowered(*object),
        ExprView::Loop { inside } => proper_trees_can_be_lowered(*inside),
        ExprView::If { condition, then, else_ } => {
            proper_trees_can_be_lowered(*condition);
            proper_trees_can_be_lowered(*then);
            match else_ {
                Some(other) => proper_trees_can_be_lowered(*other),
                None => {},
            }
        },
        ExprView::Assign { right, .. } => proper_trees_can_be_lowered(*right),
        ExprView::AssignOp { right, .. } => proper_trees_can_be_lowered(*right),
        ExprView::Fn { body, .. } => proper_trees_can_be_lowered(*body),
        ExprView::Let { value, .. } => match value {
            Some(x) => proper_trees_can_be_lowered(*x),
            None => {},
        },
        ExprView::While { condition, body } => {
            proper_trees_can_be_lowered(*condition);
            proper_trees_can_be_lowered(*body);
        },
        _ => {},
    }
}

} // verus!
