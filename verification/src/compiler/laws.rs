//! What holds of every builder that lowering made: every label that is
//! referred to gets marked, and every function constant names the entry of
//! a function body.

use vstd::prelude::*;
use crate::ast::{ExprView, ExpressionView};
use crate::compiler::model::{
    BuilderView, all_weight, binary_instruction, children_labels, constant_slot, defines,
    flat_labels, flattened, label_of, linkable, linked, linked_instruction, linked_value,
    literal_value, lowerable, lowered, lowered_all, merge, merged_children,
    merged_constants, merged_names, peephole, position, remapped, remapped_all, shift_value, store_arguments, unary_instruction, weight, with_constant, };
use crate::vm::{Instruction, ValueView};

verus! {

/// Some instruction of the sequence marks the label `t`.
pub open spec fn marked(s: Seq<Instruction>, t: usize) -> bool {
    exists|k: int| 0 <= k < s.len() && #[trigger] s[k] == Instruction::JumpTarget(t)
}

/// The label `t` is the one that stands before a waiting function body.
pub open spec fn is_head(children: Seq<(Option<Instruction>, BuilderView)>, t: usize) -> bool {
    exists|i: int|
        0 <= i < children.len() && (#[trigger] children[i]).0 == Some(Instruction::JumpTarget(t))
}

/// The instruction is one that lowering emits: it holds no position.
pub open spec fn symbolic(i: Instruction) -> bool {
    !(i is Jump) && !(i is ConditionalJump) && !(i is PushJumpRef) && !(i is Null)
}

/// The instruction holds no label and no position.
pub open spec fn plain(i: Instruction) -> bool {
    symbolic(i) && label_of(i) is None && !(i is JumpTarget)
}

/// The label that an instruction marks or refers to is below `limit`.
pub open spec fn label_below(i: Instruction, limit: usize) -> bool {
    match i {
        Instruction::JumpTarget(t) => t < limit,
        Instruction::JumpTo(t) => t < limit,
        Instruction::ConditionalJumpTo(t) => t < limit,
        Instruction::JumpRefTo(t) => t < limit,
        _ => true,
    }
}

/// Every label that an instruction of the builder refers to is marked in
/// the builder, stands before a waiting body, or is in `pending`.
pub open spec fn refs_ok(b: BuilderView, pending: Set<usize>) -> bool {
    forall|k: int|
        0 <= k < b.instructions.len() && label_of(#[trigger] b.instructions[k]) is Some ==> {
            let t = label_of(b.instructions[k])->0;
            marked(b.instructions, t) || is_head(b.end_stuff, t) || pending.contains(t)
        }
}

/// Every function constant names a label that stands before a waiting
/// body.
pub open spec fn consts_ok(b: BuilderView) -> bool {
    forall|k: int|
        0 <= k < b.constants.len() && (#[trigger] b.constants[k]) is Fn ==> is_head(
            b.end_stuff,
            b.constants[k]->Fn_0,
        )
}

/// Every instruction is symbolic and its label below the next free one;
/// before every waiting body stands a mark with such a label.
pub open spec fn labels_ok(b: BuilderView) -> bool {
    &&& forall|k: int|
        0 <= k < b.instructions.len() ==> symbolic(#[trigger] b.instructions[k]) && label_below(
            b.instructions[k],
            b.target_no,
        )
    &&& forall|i: int|
        0 <= i < b.end_stuff.len() ==> (#[trigger] b.end_stuff[i]).0 is Some
            && b.end_stuff[i].0->0 is JumpTarget && label_below(
            b.end_stuff[i].0->0,
            b.target_no,
        )
}

/// No label that stands before a waiting body is marked in the builder,
/// and no two waiting bodies have the same label before them.
pub open spec fn heads_ok(b: BuilderView) -> bool {
    &&& forall|t: usize| is_head(b.end_stuff, t) ==> !marked(b.instructions, t)
    &&& forall|i: int, j: int|
        0 <= i < j < b.end_stuff.len() ==> (#[trigger] b.end_stuff[i]).0 != (
        #[trigger] b.end_stuff[j]).0
}

/// Every pending label is reserved, and neither marked nor before a
/// waiting body.
pub open spec fn pending_ok(b: BuilderView, pending: Set<usize>) -> bool {
    forall|t: usize|
        pending.contains(t) ==> t < b.target_no && !marked(b.instructions, t) && !is_head(
            b.end_stuff,
            t,
        )
}

/// The builder links, but for the labels in `pending`, which are reserved
/// and wait for their mark: every other label referred to is marked or
/// stands before a waiting body, every function constant names the label
/// before a waiting body, and every waiting body links by itself.
pub open spec fn sealed_but(b: BuilderView, pending: Set<usize>) -> bool
    decreases b,
{
    &&& refs_ok(b, pending)
    &&& consts_ok(b)
    &&& labels_ok(b)
    &&& heads_ok(b)
    &&& pending_ok(b, pending)
    &&& forall|i: int|
        0 <= i < b.end_stuff.len() ==> sealed_but((#[trigger] b.end_stuff[i]).1, Set::empty())
}

/// The builder links: see [`sealed_but`].
pub open spec fn sealed(b: BuilderView) -> bool {
    sealed_but(b, Set::empty())
}

/// The builder `r` came from `b` by emitting, reserving and deferring: it
/// keeps the marks and the debug switch of `b`, and its labels go on from
/// those of `b`.
pub open spec fn follows(b: BuilderView, r: BuilderView) -> bool {
    &&& forall|t: usize| marked(b.instructions, t) ==> marked(r.instructions, t)
    &&& b.target_no <= r.target_no
    &&& r.debug == b.debug
    &&& flat_labels(b) <= flat_labels(r)
}

/// An empty builder links.
pub proof fn lemma_fresh_sealed(debug: bool)
    ensures
        sealed(BuilderView::fresh(debug)),
        flat_labels(BuilderView::fresh(debug)) == 0,
{
}

proof fn lemma_marked_push(s: Seq<Instruction>, i: Instruction, t: usize)
    ensures
        marked(s.push(i), t) == (marked(s, t) || i == Instruction::JumpTarget(t)),
{
    let after = s.push(i);
    if marked(s, t) {
        let k = choose|k: int| 0 <= k < s.len() && #[trigger] s[k] == Instruction::JumpTarget(t);
        assert(after[k] == Instruction::JumpTarget(t));
    }
    if i == Instruction::JumpTarget(t) {
        assert(after[s.len() as int] == Instruction::JumpTarget(t));
    }
    if marked(after, t) {
        let k = choose|k: int|
            0 <= k < after.len() && #[trigger] after[k] == Instruction::JumpTarget(t);
        if k < s.len() {
            assert(s[k] == Instruction::JumpTarget(t));
        }
    }
}

/// Emitting an instruction that holds no label keeps the builder sealed.
pub proof fn lemma_emit_plain(b: BuilderView, pending: Set<usize>, i: Instruction)
    requires
        sealed_but(b, pending),
        plain(i),
    ensures
        sealed_but(b.emit(i), pending),
        flat_labels(b.emit(i)) == flat_labels(b),
        follows(b, b.emit(i)),
{
    let after = b.emit(i);
    assert forall|t: usize| marked(after.instructions, t) == marked(b.instructions, t) by {
        lemma_marked_push(b.instructions, i, t);
    }
    assert forall|k: int|
        0 <= k < after.instructions.len() && label_of(
            #[trigger] after.instructions[k],
        ) is Some implies {
        let t = label_of(after.instructions[k])->0;
        marked(after.instructions, t) || is_head(after.end_stuff, t) || pending.contains(t)
    } by {
        assert(k < b.instructions.len());
        assert(after.instructions[k] == b.instructions[k]);
    }
    assert forall|k: int| 0 <= k < after.instructions.len() implies symbolic(
        #[trigger] after.instructions[k],
    ) && label_below(after.instructions[k], after.target_no) by {
        if k < b.instructions.len() {
            assert(after.instructions[k] == b.instructions[k]);
        }
    }
}

/// Emitting a reference to a label that is marked already or pending keeps
/// the builder sealed.
pub proof fn lemma_emit_reference(b: BuilderView, pending: Set<usize>, i: Instruction)
    requires
        sealed_but(b, pending),
        label_of(i) is Some,
        label_of(i)->0 < b.target_no,
        marked(b.instructions, label_of(i)->0) || pending.contains(label_of(i)->0),
    ensures
        sealed_but(b.emit(i), pending),
        flat_labels(b.emit(i)) == flat_labels(b),
        follows(b, b.emit(i)),
{
    let after = b.emit(i);
    assert forall|t: usize| marked(after.instructions, t) == marked(b.instructions, t) by {
        lemma_marked_push(b.instructions, i, t);
    }
    assert forall|k: int|
        0 <= k < after.instructions.len() && label_of(
            #[trigger] after.instructions[k],
        ) is Some implies {
        let t = label_of(after.instructions[k])->0;
        marked(after.instructions, t) || is_head(after.end_stuff, t) || pending.contains(t)
    } by {
        if k < b.instructions.len() {
            assert(after.instructions[k] == b.instructions[k]);
        }
    }
    assert forall|k: int| 0 <= k < after.instructions.len() implies symbolic(
        #[trigger] after.instructions[k],
    ) && label_below(after.instructions[k], after.target_no) by {
        if k < b.instructions.len() {
            assert(after.instructions[k] == b.instructions[k]);
        }
    }
}

/// Reserving a label makes it pending.
pub proof fn lemma_reserve(b: BuilderView, pending: Set<usize>)
    requires
        sealed_but(b, pending),
        b.target_no < usize::MAX,
    ensures
        sealed_but(b.reserve().0, pending.insert(b.target_no)),
        b.reserve().1 == b.target_no,
        b.reserve().0.target_no == b.target_no + 1,
        flat_labels(b.reserve().0) == flat_labels(b) + 1,
        !pending.contains(b.target_no),
        follows(b, b.reserve().0),
{
    let after = b.reserve().0;
    let t = b.target_no;
    assert(after.instructions == b.instructions);
    assert(after.end_stuff == b.end_stuff);
    if marked(b.instructions, t) {
        let k = choose|k: int|
            0 <= k < b.instructions.len() && #[trigger] b.instructions[k]
                == Instruction::JumpTarget(t);
        assert(label_below(b.instructions[k], b.target_no));
    }
    if is_head(b.end_stuff, t) {
        let i = choose|i: int|
            0 <= i < b.end_stuff.len() && (#[trigger] b.end_stuff[i]).0 == Some(
                Instruction::JumpTarget(t),
            );
        assert(label_below(b.end_stuff[i].0->0, b.target_no));
    }
}

/// Marking a pending label settles it.
pub proof fn lemma_place(b: BuilderView, pending: Set<usize>, t: usize)
    requires
        sealed_but(b, pending),
        pending.contains(t),
    ensures
        sealed_but(b.place(t), pending.remove(t)),
        flat_labels(b.place(t)) == flat_labels(b),
        follows(b, b.place(t)),
        marked(b.place(t).instructions, t),
{
    let i = Instruction::JumpTarget(t);
    let after = b.place(t);
    assert forall|u: usize|
        marked(after.instructions, u) == (marked(b.instructions, u) || u == t) by {
        lemma_marked_push(b.instructions, i, u);
    }
    assert forall|k: int|
        0 <= k < after.instructions.len() && label_of(
            #[trigger] after.instructions[k],
        ) is Some implies {
        let u = label_of(after.instructions[k])->0;
        marked(after.instructions, u) || is_head(after.end_stuff, u) || pending.remove(
            t,
        ).contains(u)
    } by {
        assert(k < b.instructions.len());
        assert(after.instructions[k] == b.instructions[k]);
    }
    assert forall|k: int| 0 <= k < after.instructions.len() implies symbolic(
        #[trigger] after.instructions[k],
    ) && label_below(after.instructions[k], after.target_no) by {
        if k < b.instructions.len() {
            assert(after.instructions[k] == b.instructions[k]);
        }
    }
}

/// Adding a constant that is no function keeps the builder sealed.
pub proof fn lemma_constant_plain(b: BuilderView, pending: Set<usize>, v: ValueView)
    requires
        sealed_but(b, pending),
        !(v is Fn),
    ensures
        sealed_but(b.constant(v).0, pending),
        flat_labels(b.constant(v).0) == flat_labels(b),
        b.constant(v).0.target_no == b.target_no,
        follows(b, b.constant(v).0),
{
    let after = b.constant(v).0;
    assert forall|k: int|
        0 <= k < after.constants.len() && (#[trigger] after.constants[k]) is Fn implies is_head(
        after.end_stuff,
        after.constants[k]->Fn_0,
    ) by {
        if k < b.constants.len() {
            assert(after.constants[k] == b.constants[k]);
        }
    }
}

/// Adding a name keeps the builder sealed.
pub proof fn lemma_name(b: BuilderView, pending: Set<usize>, name: Seq<char>)
    requires
        sealed_but(b, pending),
    ensures
        sealed_but(b.name(name).0, pending),
        flat_labels(b.name(name).0) == flat_labels(b),
        b.name(name).0.target_no == b.target_no,
        follows(b, b.name(name).0),
{
}

/// Adding a name and emitting an instruction that holds its position
/// keeps the builder sealed.
pub proof fn lemma_named(
    b: BuilderView,
    pending: Set<usize>,
    name: Seq<char>,
    make: spec_fn(usize) -> Instruction,
)
    requires
        sealed_but(b, pending),
        forall|k: usize| plain(#[trigger] make(k)),
    ensures
        sealed_but(b.named(name, make), pending),
        flat_labels(b.named(name, make)) == flat_labels(b),
        follows(b, b.named(name, make)),
{
    lemma_name(b, pending, name);
    let (b1, slot) = b.name(name);
    lemma_emit_plain(b1, pending, make(slot));
}

/// The labels of the first waiting bodies do not depend on a body that
/// is added behind them.
pub proof fn lemma_children_labels_kept(
    children: Seq<(Option<Instruction>, BuilderView)>,
    added: (Option<Instruction>, BuilderView),
    n: nat,
)
    requires
        n <= children.len(),
    ensures
        children_labels(children.push(added), n) == children_labels(children, n),
    decreases n,
{
    if n > 0 {
        lemma_children_labels_kept(children, added, (n - 1) as nat);
        assert(children.push(added)[n - 1] == children[n - 1]);
    }
}

/// The labels of the waiting bodies with one more body.
pub proof fn lemma_children_labels_push(
    children: Seq<(Option<Instruction>, BuilderView)>,
    added: (Option<Instruction>, BuilderView),
)
    ensures
        children_labels(children.push(added), children.len() + 1) == children_labels(
            children,
            children.len(),
        ) + flat_labels(added.1),
{
    lemma_children_labels_kept(children, added, children.len());
    assert(children.push(added)[children.len() as int] == added);
}

/// A function whose entry is pending: its constant is added and loaded,
/// its name declared, and its body put among the waiting ones behind the
/// mark of the entry. The entry is pending no more.
pub proof fn lemma_defer(
    b: BuilderView,
    pending: Set<usize>,
    entry: usize,
    name: Seq<char>,
    child: BuilderView,
)
    requires
        sealed_but(b, pending),
        pending.contains(entry),
        sealed(child),
    ensures
        ({
            let (b1, slot) = b.constant(ValueView::Fn(entry));
            let r = b1.emit(Instruction::LoadConst(slot)).emit(Instruction::Duplicate).named(
                name,
                |k: usize| Instruction::AssignStore(k),
            ).defer(Instruction::JumpTarget(entry), child);
            &&& sealed_but(r, pending.remove(entry))
            &&& flat_labels(r) == flat_labels(b) + flat_labels(child)
            &&& follows(b, r)
        }),
{
    let (b1, slot) = b.constant(ValueView::Fn(entry));
    let b2 = b1.emit(Instruction::LoadConst(slot));
    let b3 = b2.emit(Instruction::Duplicate);
    let (b4, at) = b3.name(name);
    let b5 = b4.emit(Instruction::AssignStore(at));
    let head = Instruction::JumpTarget(entry);
    let r = b5.defer(head, child);
    let rest = pending.remove(entry);
    assert(b5.named(name, |k: usize| Instruction::AssignStore(k)) == b5.named(
        name,
        |k: usize| Instruction::AssignStore(k),
    ));
    assert(r.end_stuff == b.end_stuff.push((Some(head), child)));
    assert(r.end_stuff[b.end_stuff.len() as int] == (Some(head), child));
    assert(is_head(r.end_stuff, entry));
    assert forall|t: usize| is_head(b.end_stuff, t) implies is_head(r.end_stuff, t) by {
        let i = choose|i: int|
            0 <= i < b.end_stuff.len() && (#[trigger] b.end_stuff[i]).0 == Some(
                Instruction::JumpTarget(t),
            );
        assert(r.end_stuff[i] == b.end_stuff[i]);
    }
    assert forall|t: usize| is_head(r.end_stuff, t) implies is_head(b.end_stuff, t) || t
        == entry by {
        let i = choose|i: int|
            0 <= i < r.end_stuff.len() && (#[trigger] r.end_stuff[i]).0 == Some(
                Instruction::JumpTarget(t),
            );
        if i < b.end_stuff.len() {
            assert(r.end_stuff[i] == b.end_stuff[i]);
        }
    }
    assert forall|t: usize| marked(r.instructions, t) == marked(b.instructions, t) by {
        lemma_marked_push(b.instructions, Instruction::LoadConst(slot), t);
        lemma_marked_push(b2.instructions, Instruction::Duplicate, t);
        lemma_marked_push(b3.instructions, Instruction::AssignStore(at), t);
    }
    assert forall|k: int|
        0 <= k < r.instructions.len() && label_of(#[trigger] r.instructions[k]) is Some implies {
        let t = label_of(r.instructions[k])->0;
        marked(r.instructions, t) || is_head(r.end_stuff, t) || rest.contains(t)
    } by {
        assert(k < b.instructions.len());
        assert(r.instructions[k] == b.instructions[k]);
    }
    assert forall|k: int|
        0 <= k < r.constants.len() && (#[trigger] r.constants[k]) is Fn implies is_head(
        r.end_stuff,
        r.constants[k]->Fn_0,
    ) by {
        if k < b.constants.len() {
            assert(r.constants[k] == b.constants[k]);
        }
    }
    assert forall|k: int| 0 <= k < r.instructions.len() implies symbolic(
        #[trigger] r.instructions[k],
    ) && label_below(r.instructions[k], r.target_no) by {
        if k < b.instructions.len() {
            assert(r.instructions[k] == b.instructions[k]);
        }
    }
    assert forall|i: int| 0 <= i < r.end_stuff.len() implies (#[trigger] r.end_stuff[i]).0 is Some
        && r.end_stuff[i].0->0 is JumpTarget && label_below(
        r.end_stuff[i].0->0,
        r.target_no,
    ) && sealed_but(r.end_stuff[i].1, Set::empty()) by {
        if i < b.end_stuff.len() {
            assert(r.end_stuff[i] == b.end_stuff[i]);
        }
    }
    assert forall|i: int, j: int| 0 <= i < j < r.end_stuff.len() implies (
    #[trigger] r.end_stuff[i]).0 != (#[trigger] r.end_stuff[j]).0 by {
        assert(r.end_stuff[i] == b.end_stuff[i]);
        if j < b.end_stuff.len() {
            assert(r.end_stuff[j] == b.end_stuff[j]);
        } else {
            assert(!is_head(b.end_stuff, entry));
        }
    }
    lemma_children_labels_push(b.end_stuff, (Some(head), child));
}

/// What lowering needs of a builder: it is sealed but for `pending`, and
/// has room for the labels that the tree takes.
pub open spec fn ready(e: ExpressionView, b: BuilderView, pending: Set<usize>) -> bool {
    &&& lowerable(e)
    &&& sealed_but(b, pending)
    &&& flat_labels(b) + 2 * weight(e) <= usize::MAX
}

/// What lowering gives: the builder `r` is sealed but for `pending`,
/// follows `b`, and holds at most two labels more for each node.
pub open spec fn lowered_well(
    e: ExpressionView,
    b: BuilderView,
    r: BuilderView,
    pending: Set<usize>,
) -> bool {
    &&& sealed_but(r, pending)
    &&& follows(b, r)
    &&& flat_labels(r) <= flat_labels(b) + 2 * weight(e)
}

proof fn lemma_store_arguments(b: BuilderView, args: Seq<Seq<char>>, n: nat)
    requires
        sealed(b),
    ensures
        sealed(store_arguments(b, args, n)),
        flat_labels(store_arguments(b, args, n)) == flat_labels(b),
        follows(b, store_arguments(b, args, n)),
    decreases args.len() - n,
{
    if n < args.len() {
        lemma_store_arguments(b, args, n + 1);
        let make = |k: usize| Instruction::AssignStore(k);
        assert forall|k: usize| plain(#[trigger] make(k)) by {}
        lemma_named(store_arguments(b, args, n + 1), Set::empty(), args[n as int], make);
    }
}

proof fn lemma_call_sealed(
    e: ExpressionView,
    b: BuilderView,
    numbers: Seq<u64>,
    at: nat,
    pending: Set<usize>,
)
    requires
        ready(e, b, pending),
        e.et is Call,
    ensures
        lowered_well(e, b, lowered(e, b, numbers, at).0, pending),
    decreases e, 0nat,
{
    let callee = *e.et->Call_callee;
    let args = e.et->Call_args;
    lemma_reserve(b, pending);
    let (b0, ret) = b.reserve();
    let waiting = pending.insert(ret);
    lemma_emit_reference(b0, waiting, Instruction::JumpRefTo(ret));
    let b1 = b0.emit(Instruction::JumpRefTo(ret));
    lemma_all_sealed(args, b1, numbers, at, waiting);
    let (b2, at1) = lowered_all(args, b1, numbers, at);
    lemma_lowered_sealed(callee, b2, numbers, at1, waiting);
    let (b3, at2) = lowered(callee, b2, numbers, at1);
    lemma_emit_plain(b3, waiting, Instruction::Call);
    lemma_place(b3.emit(Instruction::Call), waiting, ret);
    assert(waiting.remove(ret) =~= pending);
}

proof fn lemma_all_sealed(
    es: Seq<ExpressionView>,
    b: BuilderView,
    numbers: Seq<u64>,
    at: nat,
    pending: Set<usize>,
)
    requires
        forall|i: int| 0 <= i < es.len() ==> lowerable(#[trigger] es[i]),
        sealed_but(b, pending),
        flat_labels(b) + 2 * all_weight(es) <= usize::MAX,
    ensures
        sealed_but(lowered_all(es, b, numbers, at).0, pending),
        follows(b, lowered_all(es, b, numbers, at).0),
        flat_labels(lowered_all(es, b, numbers, at).0) <= flat_labels(b) + 2 * all_weight(es),
    decreases es, 1nat,
{
    if es.len() > 0 {
        assert forall|i: int| 0 <= i < es.drop_last().len() implies lowerable(
            #[trigger] es.drop_last()[i],
        ) by {
            assert(es.drop_last()[i] == es[i]);
        }
        lemma_all_sealed(es.drop_last(), b, numbers, at, pending);
        let (b1, at1) = lowered_all(es.drop_last(), b, numbers, at);
        lemma_lowered_sealed(es.last(), b1, numbers, at1, pending);
    }
}

proof fn lemma_loop_sealed(
    e: ExpressionView,
    b: BuilderView,
    numbers: Seq<u64>,
    at: nat,
    pending: Set<usize>,
)
    requires
        ready(e, b, pending),
        e.et is Loop,
    ensures
        lowered_well(e, b, lowered(e, b, numbers, at).0, pending),
    decreases e, 0nat,
{
    let inside = *e.et->Loop_inside;
    lemma_reserve(b, pending);
    let (r0, start) = b.reserve();
    lemma_place(r0, pending.insert(start), start);
    assert(pending.insert(start).remove(start) =~= pending);
    let b0 = r0.place(start);
    lemma_lowered_sealed(inside, b0, numbers, at, pending);
    let (b1, at1) = lowered(inside, b0, numbers, at);
    lemma_emit_plain(b1, pending, Instruction::Discard);
    let b2 = b1.emit(Instruction::Discard);
    lemma_emit_reference(b2, pending, Instruction::JumpTo(start));
    lemma_emit_plain(b2.emit(Instruction::JumpTo(start)), pending, Instruction::PushNothing);
}

proof fn lemma_while_sealed(
    e: ExpressionView,
    b: BuilderView,
    numbers: Seq<u64>,
    at: nat,
    pending: Set<usize>,
)
    requires
        ready(e, b, pending),
        e.et is While,
    ensures
        lowered_well(e, b, lowered(e, b, numbers, at).0, pending),
    decreases e, 0nat,
{
    let condition = *e.et->While_condition;
    let body = *e.et->While_body;
    lemma_reserve(b, pending);
    let (r0, start) = b.reserve();
    lemma_place(r0, pending.insert(start), start);
    assert(pending.insert(start).remove(start) =~= pending);
    let b0 = r0.place(start);
    lemma_reserve(b0, pending);
    let (b1, end) = b0.reserve();
    let waiting = pending.insert(end);
    lemma_lowered_sealed(condition, b1, numbers, at, waiting);
    let (b2, at1) = lowered(condition, b1, numbers, at);
    lemma_emit_plain(b2, waiting, Instruction::Invert);
    let b2a = b2.emit(Instruction::Invert);
    lemma_emit_reference(b2a, waiting, Instruction::ConditionalJumpTo(end));
    let b2b = b2a.emit(Instruction::ConditionalJumpTo(end));
    lemma_lowered_sealed(body, b2b, numbers, at1, waiting);
    let (b3, at2) = lowered(body, b2b, numbers, at1);
    lemma_emit_plain(b3, waiting, Instruction::Discard);
    let b4 = b3.emit(Instruction::Discard);
    lemma_emit_reference(b4, waiting, Instruction::JumpTo(start));
    let b5 = b4.emit(Instruction::JumpTo(start));
    lemma_place(b5, waiting, end);
    assert(waiting.remove(end) =~= pending);
    lemma_emit_plain(b5.place(end), pending, Instruction::PushNothing);
}

proof fn lemma_if_sealed(
    e: ExpressionView,
    b: BuilderView,
    numbers: Seq<u64>,
    at: nat,
    pending: Set<usize>,
)
    requires
        ready(e, b, pending),
        e.et is If,
    ensures
        lowered_well(e, b, lowered(e, b, numbers, at).0, pending),
    decreases e, 0nat,
{
    let condition = *e.et->If_condition;
    let then = *e.et->If_then;
    lemma_lowered_sealed(condition, b, numbers, at, pending);
    let (b1, at1) = lowered(condition, b, numbers, at);
    lemma_reserve(b1, pending);
    let (b2, target) = b1.reserve();
    let one = pending.insert(target);
    match e.et->If_else_ {
        Some(boxed) => {
            let other = *boxed;
            lemma_reserve(b2, one);
            let (b3, end) = b2.reserve();
            let two = one.insert(end);
            lemma_emit_plain(b3, two, Instruction::Invert);
            let b3a = b3.emit(Instruction::Invert);
            lemma_emit_reference(b3a, two, Instruction::ConditionalJumpTo(target));
            let b3b = b3a.emit(Instruction::ConditionalJumpTo(target));
            lemma_lowered_sealed(then, b3b, numbers, at1, two);
            let (b4, at2) = lowered(then, b3b, numbers, at1);
            lemma_emit_reference(b4, two, Instruction::JumpTo(end));
            let b4a = b4.emit(Instruction::JumpTo(end));
            lemma_place(b4a, two, target);
            let left = two.remove(target);
            assert(left =~= pending.insert(end));
            lemma_lowered_sealed(other, b4a.place(target), numbers, at2, left);
            let (b5, at3) = lowered(other, b4a.place(target), numbers, at2);
            lemma_place(b5, left, end);
            assert(left.remove(end) =~= pending);
        },
        None => {
            lemma_emit_plain(b2, one, Instruction::Invert);
            let b2a = b2.emit(Instruction::Invert);
            lemma_emit_reference(b2a, one, Instruction::ConditionalJumpTo(target));
            let b2b = b2a.emit(Instruction::ConditionalJumpTo(target));
            lemma_lowered_sealed(then, b2b, numbers, at1, one);
            let (b3, at2) = lowered(then, b2b, numbers, at1);
            lemma_emit_plain(b3, one, Instruction::Discard);
            let b3a = b3.emit(Instruction::Discard);
            lemma_place(b3a, one, target);
            assert(one.remove(target) =~= pending);
            lemma_emit_plain(b3a.place(target), pending, Instruction::PushNothing);
        },
    }
}

proof fn lemma_function_sealed(
    e: ExpressionView,
    b: BuilderView,
    numbers: Seq<u64>,
    at: nat,
    pending: Set<usize>,
)
    requires
        ready(e, b, pending),
        e.et is Fn,
    ensures
        lowered_well(e, b, lowered(e, b, numbers, at).0, pending),
    decreases e, 0nat,
{
    let name = e.et->Fn_name;
    let body = *e.et->Fn_body;
    let args = e.et->Fn_args;
    lemma_reserve(b, pending);
    let (b0, entry) = b.reserve();
    let waiting = pending.insert(entry);
    let child0 = BuilderView::fresh(b.debug);
    lemma_fresh_sealed(b.debug);
    let tag = |k: usize| Instruction::FunctionTag(k);
    assert forall|k: usize| plain(#[trigger] tag(k)) by {}
    let child1 = if b.debug {
        child0.named(name, tag)
    } else {
        child0
    };
    if b.debug {
        lemma_named(child0, Set::empty(), name, tag);
    }
    lemma_emit_plain(child1, Set::empty(), Instruction::NewScope);
    let child1a = child1.emit(Instruction::NewScope);
    lemma_emit_plain(child1a, Set::empty(), Instruction::RequireArguments(args.len() as usize));
    let child1b = child1a.emit(Instruction::RequireArguments(args.len() as usize));
    lemma_store_arguments(child1b, args, 0);
    let child2 = store_arguments(child1b, args, 0);
    lemma_lowered_sealed(body, child2, numbers, at, Set::empty());
    let (child3, at1) = lowered(body, child2, numbers, at);
    lemma_emit_plain(child3, Set::empty(), Instruction::EndScope);
    let child3a = child3.emit(Instruction::EndScope);
    lemma_emit_plain(child3a, Set::empty(), Instruction::Swap);
    let child3b = child3a.emit(Instruction::Swap);
    lemma_emit_plain(child3b, Set::empty(), Instruction::PopJump);
    let child = child3b.emit(Instruction::PopJump);
    lemma_defer(b0, waiting, entry, name, child);
    assert(waiting.remove(entry) =~= pending);
}

/// Lowering keeps a builder sealed: whatever label the code of the tree
/// refers to, the code marks, and the function constants that it adds
/// name the entries of the bodies that it leaves waiting.
pub proof fn lemma_lowered_sealed(
    e: ExpressionView,
    b: BuilderView,
    numbers: Seq<u64>,
    at: nat,
    pending: Set<usize>,
)
    requires
        ready(e, b, pending),
    ensures
        lowered_well(e, b, lowered(e, b, numbers, at).0, pending),
    decreases e, 1nat,
{
    let store = |k: usize| Instruction::Store(k);
    let declare = |k: usize| Instruction::AssignStore(k);
    let load = |k: usize| Instruction::LoadVar(k);
    let read = |k: usize| Instruction::AccessProperty(k);
    let close = |k: usize| Instruction::EndAndNameScope(k);
    assert forall|k: usize| plain(#[trigger] store(k)) by {}
    assert forall|k: usize| plain(#[trigger] declare(k)) by {}
    assert forall|k: usize| plain(#[trigger] load(k)) by {}
    assert forall|k: usize| plain(#[trigger] read(k)) by {}
    assert forall|k: usize| plain(#[trigger] close(k)) by {}
    match e.et {
        ExprView::Literal { src } => {
            let (v, at1) = literal_value(src, numbers, at);
            lemma_constant_plain(b, pending, v);
            let (b1, slot) = b.constant(v);
            lemma_emit_plain(b1, pending, Instruction::LoadConst(slot));
        },
        ExprView::Unary { op, right } => {
            lemma_lowered_sealed(*right, b, numbers, at, pending);
            let (b1, at1) = lowered(*right, b, numbers, at);
            lemma_emit_plain(b1, pending, unary_instruction(op));
        },
        ExprView::Binary { op, left, right } => {
            lemma_lowered_sealed(*left, b, numbers, at, pending);
            let (b1, at1) = lowered(*left, b, numbers, at);
            lemma_lowered_sealed(*right, b1, numbers, at1, pending);
            let (b2, at2) = lowered(*right, b1, numbers, at1);
            lemma_emit_plain(b2, pending, binary_instruction(op));
        },
        ExprView::Semicolon { left, right } => {
            lemma_lowered_sealed(*left, b, numbers, at, pending);
            let (b1, at1) = lowered(*left, b, numbers, at);
            lemma_emit_plain(b1, pending, Instruction::Discard);
            lemma_lowered_sealed(*right, b1.emit(Instruction::Discard), numbers, at1, pending);
        },
        ExprView::Block(inside) => match inside {
            Some(inner) => {
                lemma_emit_plain(b, pending, Instruction::NewScope);
                let b0 = b.emit(Instruction::NewScope);
                lemma_lowered_sealed(*inner, b0, numbers, at, pending);
                let (b1, at1) = lowered(*inner, b0, numbers, at);
                lemma_emit_plain(b1, pending, Instruction::EndScope);
            },
            None => {
                lemma_emit_plain(b, pending, Instruction::PushNothing);
            },
        },
        ExprView::Module(inside, name) => {
            lemma_emit_plain(b, pending, Instruction::NewScope);
            let b0 = b.emit(Instruction::NewScope);
            match inside {
                Some(inner) => {
                    lemma_lowered_sealed(*inner, b0, numbers, at, pending);
                    let (b1, at1) = lowered(*inner, b0, numbers, at);
                    lemma_named(b1, pending, name, close);
                },
                None => {
                    lemma_emit_plain(b0, pending, Instruction::PushNothing);
                    lemma_named(b0.padding(), pending, name, close);
                },
            }
        },
        ExprView::Call { .. } => {
            lemma_call_sealed(e, b, numbers, at, pending);
        },
        ExprView::Property { object, name } => {
            lemma_lowered_sealed(*object, b, numbers, at, pending);
            let (b1, at1) = lowered(*object, b, numbers, at);
            lemma_named(b1, pending, name, read);
        },
        ExprView::Break { .. } => {},
        ExprView::Continue => {},
        ExprView::Use { .. } => {},
        ExprView::Loop { .. } => {
            lemma_loop_sealed(e, b, numbers, at, pending);
        },
        ExprView::If { .. } => {
            lemma_if_sealed(e, b, numbers, at, pending);
        },
        ExprView::Assign { left, right } => match left.et {
            ExprView::Identifier { id } => {
                lemma_lowered_sealed(*right, b, numbers, at, pending);
                let (b1, at1) = lowered(*right, b, numbers, at);
                lemma_named(b1, pending, id, store);
                lemma_emit_plain(b1.named(id, store), pending, Instruction::PushNothing);
            },
            _ => {},
        },
        ExprView::AssignOp { left, right, op } => match left.et {
            ExprView::Identifier { id } => {
                lemma_name(b, pending, id);
                let (b0, slot) = b.name(id);
                lemma_emit_plain(b0, pending, Instruction::LoadVar(slot));
                let b0a = b0.emit(Instruction::LoadVar(slot));
                lemma_lowered_sealed(*right, b0a, numbers, at, pending);
                let (b1, at1) = lowered(*right, b0a, numbers, at);
                lemma_emit_plain(b1, pending, binary_instruction(op));
                let b2 = b1.emit(binary_instruction(op));
                lemma_emit_plain(b2, pending, Instruction::Store(slot));
                lemma_emit_plain(b2.emit(Instruction::Store(slot)), pending, Instruction::PushNothing);
            },
            _ => {},
        },
        ExprView::Identifier { id } => {
            lemma_named(b, pending, id, load);
        },
        ExprView::Fn { .. } => {
            lemma_function_sealed(e, b, numbers, at, pending);
        },
        ExprView::Let { name, value } => match value {
            Some(x) => {
                lemma_lowered_sealed(*x, b, numbers, at, pending);
                let (b1, at1) = lowered(*x, b, numbers, at);
                lemma_named(b1, pending, name, declare);
                lemma_emit_plain(b1.named(name, declare), pending, Instruction::PushNothing);
            },
            None => {
                lemma_emit_plain(b, pending, Instruction::PushNothing);
            },
        },
        ExprView::While { .. } => {
            lemma_while_sealed(e, b, numbers, at, pending);
        },
        ExprView::EnumDecl { .. } => {},
    }
}

/// The first mark of a label lies where `position` says: nothing before it
/// marks the label.
pub proof fn lemma_position_first(s: Seq<Instruction>, t: usize, from: int)
    requires
        0 <= from <= s.len(),
    ensures
        from <= position(s, t, from) <= s.len(),
        position(s, t, from) < s.len() ==> s[position(s, t, from)] == Instruction::JumpTarget(t),
        forall|j: int|
            from <= j < position(s, t, from) ==> #[trigger] s[j] != Instruction::JumpTarget(t),
    decreases s.len() - from,
{
    if from < s.len() && s[from] != Instruction::JumpTarget(t) {
        lemma_position_first(s, t, from + 1);
    }
}

/// A mark with no mark of the same label before it is where `position`
/// says.
pub proof fn lemma_position_is(s: Seq<Instruction>, t: usize, p: int)
    requires
        0 <= p < s.len(),
        s[p] == Instruction::JumpTarget(t),
        forall|j: int| 0 <= j < p ==> #[trigger] s[j] != Instruction::JumpTarget(t),
    ensures
        position(s, t, 0) == p,
{
    lemma_position_first(s, t, 0);
    let q = position(s, t, 0);
    if q < p {
        assert(s[q] == Instruction::JumpTarget(t));
    } else if q > p {
        assert(s[p] != Instruction::JumpTarget(t));
    }
}

/// A label is marked exactly when `position` finds a mark.
pub proof fn lemma_marked_is_defined(s: Seq<Instruction>, t: usize)
    ensures
        marked(s, t) == defines(s, t),
{
    lemma_position_first(s, t, 0);
    if marked(s, t) {
        let k = choose|k: int| 0 <= k < s.len() && #[trigger] s[k] == Instruction::JumpTarget(t);
        if position(s, t, 0) >= s.len() {
            assert(s[k] != Instruction::JumpTarget(t));
        }
    }
}

/// The label `t` marks the entry of a function body: its first mark stands
/// right behind a `Terminate`.
pub open spec fn entry_at(s: Seq<Instruction>, t: usize) -> bool {
    let p = position(s, t, 0);
    0 < p < s.len() && s[p - 1] == Instruction::Terminate
}

/// What holds of a builder while its waiting bodies are appended: every
/// instruction is symbolic with its label below the next free one; every
/// label referred to is marked or stands before a body yet to come; every
/// function constant names the entry of a body appended or the label
/// before a body yet to come; and no label before a body yet to come is
/// marked.
pub open spec fn flat_ok(f: BuilderView, coming: Set<usize>) -> bool {
    &&& forall|k: int|
        0 <= k < f.instructions.len() ==> symbolic(#[trigger] f.instructions[k]) && label_below(
            f.instructions[k],
            f.target_no,
        )
    &&& forall|k: int|
        0 <= k < f.instructions.len() && label_of(#[trigger] f.instructions[k]) is Some ==> marked(
            f.instructions,
            label_of(f.instructions[k])->0,
        ) || coming.contains(label_of(f.instructions[k])->0)
    &&& forall|k: int|
        0 <= k < f.constants.len() && (#[trigger] f.constants[k]) is Fn ==> entry_at(
            f.instructions,
            f.constants[k]->Fn_0,
        ) || coming.contains(f.constants[k]->Fn_0)
    &&& forall|t: usize| coming.contains(t) ==> t < f.target_no && !marked(f.instructions, t)
}

/// Every constant of the merged table is one of the table before or a
/// constant of the body, shifted.
proof fn lemma_merged_constants(acc: Seq<ValueView>, child: Seq<ValueView>, base: usize, n: nat)
    requires
        n <= child.len(),
    ensures
        ({
            let table = merged_constants(acc, child, base, n).0;
            &&& acc.len() <= table.len()
            &&& forall|k: int| 0 <= k < acc.len() ==> #[trigger] table[k] == acc[k]
            &&& forall|k: int|
                acc.len() <= k < table.len() ==> exists|j: int|
                    0 <= j < n && #[trigger] table[k] == shift_value(#[trigger] child[j], base)
        }),
    decreases n,
{
    if n > 0 {
        lemma_merged_constants(acc, child, base, (n - 1) as nat);
        let before = merged_constants(acc, child, base, (n - 1) as nat).0;
        let added = shift_value(child[n - 1], base);
        let table = merged_constants(acc, child, base, n).0;
        assert(table == with_constant(before, added).0);
        assert forall|k: int| acc.len() <= k < table.len() implies exists|j: int|
            0 <= j < n && #[trigger] table[k] == shift_value(#[trigger] child[j], base) by {
            if k < before.len() {
                assert(table[k] == before[k]);
                let j = choose|j: int|
                    0 <= j < n - 1 && #[trigger] before[k] == shift_value(
                        #[trigger] child[j],
                        base,
                    );
                assert(table[k] == shift_value(child[j], base));
            } else {
                assert(table[k] == shift_value(child[n - 1], base));
            }
        }
    }
}

/// Where the marks of the shifted instructions of a body lie: where those
/// of the body lie.
proof fn lemma_remapped_marks(
    s: Seq<Instruction>,
    base: usize,
    constants: Seq<usize>,
    names: Seq<usize>,
    limit: usize,
)
    requires
        base + limit <= usize::MAX,
        forall|k: int| 0 <= k < s.len() ==> label_below(#[trigger] s[k], limit),
    ensures
        ({
            let r = remapped_all(s, base, constants, names);
            &&& r.len() == s.len()
            &&& forall|k: int|
                0 <= k < s.len() ==> (#[trigger] r[k] is JumpTarget) == (s[k] is JumpTarget) && (
                s[k] is JumpTarget ==> r[k]->JumpTarget_0 == s[k]->JumpTarget_0 + base)
            &&& forall|k: int|
                0 <= k < s.len() ==> (symbolic(s[k]) ==> symbolic(#[trigger] r[k])) && label_below(
                    r[k],
                    (base + limit) as usize,
                ) && (s[k] == Instruction::Terminate ==> r[k] == Instruction::Terminate) && (
                label_of(r[k]) is Some) == (label_of(s[k]) is Some) && (label_of(s[k]) is Some
                    ==> label_of(r[k])->0 == label_of(s[k])->0 + base)
        }),
{
    let r = remapped_all(s, base, constants, names);
    assert forall|k: int| 0 <= k < s.len() implies label_below(s[k], limit) && #[trigger] r[k]
        == remapped(s[k], base, constants, names) by {}
}

/// Appending a function body behind its mark keeps the builder fit for
/// linking, and the label of the body is no more to come.
proof fn lemma_merge_ok(acc: BuilderView, h: usize, flat: BuilderView, coming: Set<usize>)
    requires
        flat_ok(acc, coming),
        coming.contains(h),
        flat_ok(flat, Set::empty()),
        acc.target_no + flat.target_no <= usize::MAX,
    ensures
        flat_ok(merge(acc, Some(Instruction::JumpTarget(h)), flat), coming.remove(h)),
{
    let base = acc.target_no;
    let new = merge(acc, Some(Instruction::JumpTarget(h)), flat);
    let (table, constant_map) = merged_constants(
        acc.constants,
        flat.constants,
        base,
        flat.constants.len(),
    );
    let (names, name_map) = merged_names(acc.names, flat.names, flat.names.len());
    let r = remapped_all(flat.instructions, base, constant_map, name_map);
    let a = acc.instructions;
    let n = a.len() as int;
    let s = new.instructions;
    lemma_remapped_marks(flat.instructions, base, constant_map, name_map, flat.target_no);
    lemma_merged_constants(acc.constants, flat.constants, base, flat.constants.len());
    assert(s.len() == n + 2 + r.len());
    assert(forall|k: int| 0 <= k < n ==> #[trigger] s[k] == a[k]);
    assert(s[n] == Instruction::Terminate);
    assert(s[n + 1] == Instruction::JumpTarget(h));
    assert(forall|k: int| 0 <= k < r.len() ==> #[trigger] s[n + 2 + k] == r[k]);
    // marks of the old part stay marks
    assert forall|t: usize| marked(a, t) implies marked(s, t) by {
        let k = choose|k: int| 0 <= k < a.len() && #[trigger] a[k] == Instruction::JumpTarget(t);
        assert(s[k] == Instruction::JumpTarget(t));
    }
    assert(marked(s, h));
    // marks of the body, shifted, are marks
    assert forall|t: usize| marked(flat.instructions, t) implies marked(
        s,
        (t + base) as usize,
    ) by {
        let k = choose|k: int|
            0 <= k < flat.instructions.len() && #[trigger] flat.instructions[k]
                == Instruction::JumpTarget(t);
        assert(label_below(flat.instructions[k], flat.target_no));
        assert(r[k] == Instruction::JumpTarget((t + base) as usize));
        assert(s[n + 2 + k] == Instruction::JumpTarget((t + base) as usize));
    }
    // every instruction is symbolic, with its label below the limit
    assert forall|k: int| 0 <= k < s.len() implies symbolic(#[trigger] s[k]) && label_below(
        s[k],
        new.target_no,
    ) by {
        if k < n {
            assert(s[k] == a[k]);
        } else if k >= n + 2 {
            assert(s[k] == r[k - n - 2]);
            assert(symbolic(flat.instructions[k - n - 2]));
        }
    }
    // every label referred to is marked or to come
    assert forall|k: int| 0 <= k < s.len() && label_of(#[trigger] s[k]) is Some implies marked(
        s,
        label_of(s[k])->0,
    ) || coming.remove(h).contains(label_of(s[k])->0) by {
        if k < n {
            assert(s[k] == a[k]);
        } else if k >= n + 2 {
            let j = k - n - 2;
            assert(s[k] == r[j]);
            let t = label_of(flat.instructions[j])->0;
            assert(label_below(flat.instructions[j], flat.target_no));
            assert(marked(flat.instructions, t));
        }
    }
    // no label to come is marked
    assert forall|t: usize| coming.remove(h).contains(t) implies t < new.target_no && !marked(
        s,
        t,
    ) by {
        if marked(s, t) {
            let k = choose|k: int| 0 <= k < s.len() && #[trigger] s[k] == Instruction::JumpTarget(t);
            if k < n {
                assert(a[k] == Instruction::JumpTarget(t));
            } else if k >= n + 2 {
                assert(r[k - n - 2] == Instruction::JumpTarget(t));
            }
        }
    }
    // every function constant names an entry or a label to come
    assert forall|k: int|
        0 <= k < new.constants.len() && (#[trigger] new.constants[k]) is Fn implies entry_at(
        s,
        new.constants[k]->Fn_0,
    ) || coming.remove(h).contains(new.constants[k]->Fn_0) by {
        let u = new.constants[k]->Fn_0;
        if k < acc.constants.len() {
            assert(new.constants[k] == acc.constants[k]);
            if coming.contains(u) {
                if u == h {
                    assert forall|j: int| 0 <= j < n + 1 implies #[trigger] s[j]
                        != Instruction::JumpTarget(h) by {
                        if j < n {
                            assert(a[j] == s[j]);
                        }
                    }
                    lemma_position_is(s, h, n + 1);
                }
            } else {
                assert(entry_at(a, u));
                let p = position(a, u, 0);
                lemma_position_first(a, u, 0);
                assert forall|j: int| 0 <= j < p implies #[trigger] s[j]
                    != Instruction::JumpTarget(u) by {
                    assert(s[j] == a[j]);
                }
                assert(s[p] == a[p]);
                assert(s[p - 1] == a[p - 1]);
                lemma_position_is(s, u, p);
            }
        } else {
            let j = choose|j: int|
                0 <= j < flat.constants.len() && #[trigger] table[k] == shift_value(
                    #[trigger] flat.constants[j],
                    base,
                );
            let t = flat.constants[j]->Fn_0;
            assert(flat.constants[j] is Fn);
            assert(entry_at(flat.instructions, t));
            let p = position(flat.instructions, t, 0);
            lemma_position_first(flat.instructions, t, 0);
            assert(label_below(flat.instructions[p], flat.target_no));
            assert(u == t + base);
            assert forall|i: int| 0 <= i < n + 2 + p implies #[trigger] s[i]
                != Instruction::JumpTarget(u) by {
                if i < n {
                    assert(s[i] == a[i]);
                    assert(label_below(a[i], acc.target_no));
                } else if i == n + 1 {
                    assert(h < base);
                } else if i >= n + 2 {
                    assert(s[i] == r[i - n - 2]);
                    assert(flat.instructions[i - n - 2] != Instruction::JumpTarget(t));
                }
            }
            assert(s[n + 2 + p] == r[p]);
            assert(s[n + 2 + p - 1] == r[p - 1]);
            lemma_position_is(s, u, n + 2 + p);
        }
    }
}

/// The labels that stand before the waiting bodies from the `n`-th on.
pub open spec fn heads_from(children: Seq<(Option<Instruction>, BuilderView)>, n: int) -> Set<
    usize,
> {
    Set::new(
        |t: usize|
            exists|i: int|
                n <= i < children.len() && (#[trigger] children[i]).0 == Some(
                    Instruction::JumpTarget(t),
                ),
    )
}

/// With the first `n` waiting bodies appended, the builder is fit for
/// linking but for the labels of the bodies yet to come.
proof fn lemma_merged_ok(
    b: BuilderView,
    n: nat,
)
    requires
        sealed(b),
        flat_labels(b) <= usize::MAX,
        n <= b.end_stuff.len(),
    ensures
        flat_ok(
            merged_children(BuilderView { end_stuff: Seq::empty(), ..b }, b.end_stuff, n),
            heads_from(b.end_stuff, n as int),
        ),
    decreases b, n,
{
    let base = BuilderView { end_stuff: Seq::empty(), ..b };
    let children = b.end_stuff;
    if n == 0 {
        let coming = heads_from(children, 0);
        assert forall|t: usize| is_head(children, t) implies coming.contains(t) by {
            let i = choose|i: int|
                0 <= i < children.len() && (#[trigger] children[i]).0 == Some(
                    Instruction::JumpTarget(t),
                );
            assert(0 <= i < children.len() && children[i].0 == Some(Instruction::JumpTarget(t)));
        }
        assert forall|t: usize| coming.contains(t) implies t < base.target_no && !marked(
            base.instructions,
            t,
        ) by {
            let i = choose|i: int|
                0 <= i < children.len() && (#[trigger] children[i]).0 == Some(
                    Instruction::JumpTarget(t),
                );
            assert(is_head(children, t));
            assert(label_below(children[i].0->0, b.target_no));
        }
        assert forall|k: int|
            0 <= k < base.constants.len() && (#[trigger] base.constants[k]) is Fn implies entry_at(
            base.instructions,
            base.constants[k]->Fn_0,
        ) || coming.contains(base.constants[k]->Fn_0) by {
            assert(is_head(children, b.constants[k]->Fn_0));
        }
        assert forall|k: int|
            0 <= k < base.instructions.len() && label_of(
                #[trigger] base.instructions[k],
            ) is Some implies marked(base.instructions, label_of(base.instructions[k])->0)
            || coming.contains(label_of(base.instructions[k])->0) by {
            let t = label_of(b.instructions[k])->0;
            assert(marked(b.instructions, t) || is_head(children, t));
        }
    } else {
        let m = (n - 1) as nat;
        lemma_merged_ok(b, m);
        let acc = merged_children(base, children, m);
        let child = children[n - 1].1;
        let head = children[n - 1].0;
        assert(head is Some && head->0 is JumpTarget);
        let h = head->0->JumpTarget_0;
        assert(head == Some(Instruction::JumpTarget(h)));
        crate::compiler::lemma_children_labels_monotonic(children, n, children.len());
        crate::compiler::lemma_merged_labels(base, children, m);
        crate::compiler::lemma_flattened_labels(child);
        lemma_flattened_ok(child);
        let coming = heads_from(children, m as int);
        assert(coming.contains(h));
        lemma_merge_ok(acc, h, flattened(child), coming);
        assert(coming.remove(h) =~= heads_from(children, n as int)) by {
            assert forall|t: usize| coming.remove(h).contains(t) implies heads_from(
                children,
                n as int,
            ).contains(t) by {
                let i = choose|i: int|
                    m <= i < children.len() && (#[trigger] children[i]).0 == Some(
                        Instruction::JumpTarget(t),
                    );
                assert(i != n - 1);
                assert(n <= i < children.len() && children[i].0 == Some(
                    Instruction::JumpTarget(t),
                ));
            }
            assert forall|t: usize| heads_from(children, n as int).contains(
                t,
            ) implies coming.remove(h).contains(t) by {
                let i = choose|i: int|
                    n <= i < children.len() && (#[trigger] children[i]).0 == Some(
                        Instruction::JumpTarget(t),
                    );
                assert(m <= i < children.len() && children[i].0 == Some(
                    Instruction::JumpTarget(t),
                ));
                assert(children[n - 1].0 != children[i].0);
            }
        }
    }
}

/// A sealed builder is fit for linking once it is flat: every label that
/// an instruction refers to is marked, and every function constant names
/// the entry of a function body.
pub proof fn lemma_flattened_ok(b: BuilderView)
    requires
        sealed(b),
        flat_labels(b) <= usize::MAX,
    ensures
        flat_ok(flattened(b), Set::empty()),
    decreases b, b.end_stuff.len() + 1,
{
    lemma_merged_ok(b, b.end_stuff.len());
    assert(heads_from(b.end_stuff, b.end_stuff.len() as int) =~= Set::empty());
}

/// The first mark of `t` exists, and stands right behind a `Terminate`,
/// or at the very start when `prev`, the instruction before the sequence,
/// is a `Terminate`.
pub open spec fn entry_after(s: Seq<Instruction>, t: usize, prev: Instruction) -> bool {
    let p = position(s, t, 0);
    &&& p < s.len()
    &&& p == 0 ==> prev == Instruction::Terminate
    &&& p > 0 ==> s[p - 1] == Instruction::Terminate
}

proof fn lemma_position_skip(s: Seq<Instruction>, t: usize, n: int)
    requires
        0 <= n <= s.len(),
        forall|j: int| 0 <= j < n ==> #[trigger] s[j] != Instruction::JumpTarget(t),
    ensures
        position(s, t, 0) == n + position(s.skip(n), t, 0),
{
    let rest = s.skip(n);
    lemma_position_first(rest, t, 0);
    let q = position(rest, t, 0);
    if q < rest.len() {
        assert forall|j: int| 0 <= j < n + q implies #[trigger] s[j]
            != Instruction::JumpTarget(t) by {
            if j >= n {
                assert(rest[j - n] == s[j]);
            }
        }
        assert(s[n + q] == rest[q]);
        lemma_position_is(s, t, n + q);
    } else {
        lemma_position_first(s, t, 0);
        let p = position(s, t, 0);
        if p < s.len() {
            assert(rest[p - n] == s[p]);
        }
    }
}

proof fn lemma_position_cons(first: Instruction, rest: Seq<Instruction>, t: usize)
    ensures
        position(seq![first] + rest, t, 0) == if first == Instruction::JumpTarget(t) {
            0
        } else {
            1 + position(rest, t, 0)
        },
{
    let s = seq![first] + rest;
    assert(s[0] == first);
    if first != Instruction::JumpTarget(t) {
        assert(s.skip(1) =~= rest);
        lemma_position_skip(s, t, 1);
    }
}

/// The peephole keeps the entries of function bodies: it drops no mark and
/// no `Terminate`, and nothing between a `Terminate` and the mark behind
/// it.
proof fn lemma_peephole_entry(s: Seq<Instruction>, t: usize, prev: Instruction)
    requires
        entry_after(s, t, prev),
    ensures
        entry_after(peephole(s), t, prev),
    decreases s.len(),
{
    lemma_position_first(s, t, 0);
    let p = position(s, t, 0);
    assert(s.len() > 0);
    if s[0] == Instruction::PushNothing && s.len() >= 2 && s[1] == Instruction::Discard {
        assert(peephole(s) == peephole(s.skip(2)));
        assert(s[0] != Instruction::JumpTarget(t));
        assert(s[1] != Instruction::JumpTarget(t));
        lemma_position_skip(s, t, 2);
        let rest = s.skip(2);
        assert(p >= 2);
        assert(p - 2 > 0) by {
            if p == 2 {
                assert(s[p - 1] == Instruction::Discard);
            }
        }
        assert(position(rest, t, 0) == p - 2);
        assert(rest[p - 3] == s[p - 1]);
        assert(entry_after(rest, t, prev));
        lemma_peephole_entry(rest, t, prev);
        assert(entry_after(peephole(s), t, prev));
    } else {
        let rest = s.skip(1);
        let kept = seq![s[0]] + peephole(rest);
        assert(peephole(s) == kept);
        lemma_position_cons(s[0], peephole(rest), t);
        if p > 0 {
            assert(s[0] != Instruction::JumpTarget(t));
            lemma_position_skip(s, t, 1);
            assert(position(rest, t, 0) == p - 1);
            if p > 1 {
                assert(rest[p - 2] == s[p - 1]);
            }
            assert(entry_after(rest, t, s[0]));
            lemma_peephole_entry(rest, t, s[0]);
            let q = position(peephole(rest), t, 0);
            lemma_position_first(peephole(rest), t, 0);
            assert(position(kept, t, 0) == q + 1);
            assert(q < peephole(rest).len());
            assert(kept.len() == peephole(rest).len() + 1);
            if q > 0 {
                assert(kept[q] == peephole(rest)[q - 1]);
                assert(kept[q] == Instruction::Terminate);
            } else {
                assert(kept[0] == s[0]);
                assert(s[0] == Instruction::Terminate);
            }
            assert(entry_after(kept, t, prev));
        } else {
            assert(s[0] == Instruction::JumpTarget(t));
            assert(position(kept, t, 0) == 0);
            assert(prev == Instruction::Terminate);
            assert(entry_after(kept, t, prev));
        }
    }
}

/// The peephole adds no instruction.
proof fn lemma_peephole_len(s: Seq<Instruction>)
    ensures
        peephole(s).len() <= s.len(),
    decreases s.len(),
{
    if s.len() == 0 {
    } else if s[0] == Instruction::PushNothing && s.len() >= 2 && s[1] == Instruction::Discard {
        lemma_peephole_len(s.skip(2));
    } else {
        lemma_peephole_len(s.skip(1));
    }
}

/// The peephole drops no mark, and keeps only instructions that were
/// there.
proof fn lemma_peephole_keeps(s: Seq<Instruction>)
    ensures
        forall|t: usize| marked(s, t) ==> marked(peephole(s), t),
        forall|k: int|
            0 <= k < peephole(s).len() ==> exists|j: int|
                0 <= j < s.len() && #[trigger] s[j] == #[trigger] peephole(s)[k],
    decreases s.len(),
{
    if s.len() == 0 {
    } else if s[0] == Instruction::PushNothing && s.len() >= 2 && s[1] == Instruction::Discard {
        let rest = s.skip(2);
        lemma_peephole_keeps(rest);
        assert forall|t: usize| marked(s, t) implies marked(peephole(s), t) by {
            let k = choose|k: int| 0 <= k < s.len() && #[trigger] s[k] == Instruction::JumpTarget(t);
            assert(rest[k - 2] == s[k]);
            assert(marked(rest, t));
        }
        assert forall|k: int| 0 <= k < peephole(s).len() implies exists|j: int|
            0 <= j < s.len() && #[trigger] s[j] == #[trigger] peephole(s)[k] by {
            let j = choose|j: int| 0 <= j < rest.len() && #[trigger] rest[j] == peephole(rest)[k];
            assert(s[j + 2] == peephole(s)[k]);
        }
    } else {
        let rest = s.skip(1);
        let kept = peephole(s);
        lemma_peephole_keeps(rest);
        assert(kept == seq![s[0]] + peephole(rest));
        assert forall|t: usize| marked(s, t) implies marked(kept, t) by {
            let k = choose|k: int| 0 <= k < s.len() && #[trigger] s[k] == Instruction::JumpTarget(t);
            if k == 0 {
                assert(kept[0] == Instruction::JumpTarget(t));
            } else {
                assert(rest[k - 1] == s[k]);
                assert(marked(rest, t));
                let q = choose|q: int|
                    0 <= q < peephole(rest).len() && #[trigger] peephole(rest)[q]
                        == Instruction::JumpTarget(t);
                assert(kept[q + 1] == Instruction::JumpTarget(t));
            }
        }
        assert forall|k: int| 0 <= k < kept.len() implies exists|j: int|
            0 <= j < s.len() && #[trigger] s[j] == #[trigger] kept[k] by {
            if k == 0 {
                assert(s[0] == kept[0]);
            } else {
                assert(kept[k] == peephole(rest)[k - 1]);
                let j = choose|j: int|
                    0 <= j < rest.len() && #[trigger] rest[j] == peephole(rest)[k - 1];
                assert(s[j + 1] == kept[k]);
            }
        }
    }
}

/// The position `n` lies in the program and holds a `Null`: the slot where
/// the mark of a label stood before linking.
pub open spec fn lands(instructions: Seq<Instruction>, n: usize) -> bool {
    n < instructions.len() && instructions[n as int] == Instruction::Null
}

/// What holds of a linked program: every jump and every jump reference
/// holds the position of a `Null`, where the mark of its label stood; no
/// instruction holds a label; and every function constant holds the
/// position of a `Null` that stands right behind a `Terminate`: the entry
/// of a function body.
pub open spec fn well_linked(p: crate::vm::ProgramView) -> bool {
    &&& forall|k: int|
        0 <= k < p.instructions.len() ==> match #[trigger] p.instructions[k] {
            Instruction::Jump(n) => lands(p.instructions, n),
            Instruction::ConditionalJump(n) => lands(p.instructions, n),
            Instruction::PushJumpRef(n) => lands(p.instructions, n),
            Instruction::JumpTo(_) => false,
            Instruction::ConditionalJumpTo(_) => false,
            Instruction::JumpRefTo(_) => false,
            Instruction::JumpTarget(_) => false,
            _ => true,
        }
    &&& forall|k: int|
        0 <= k < p.constants.len() ==> match #[trigger] p.constants[k] {
            ValueView::Fn(n) => 0 < n < p.instructions.len() && p.instructions[n as int]
                == Instruction::Null && p.instructions[n - 1] == Instruction::Terminate,
            _ => true,
        }
}

/// A flat builder that is fit for linking links, and links well.
pub proof fn lemma_linked_well(f: BuilderView)
    requires
        flat_ok(f, Set::empty()),
        f.instructions.len() <= usize::MAX,
    ensures
        linkable(f),
        well_linked(linked(f)),
{
    let s = f.instructions;
    let kept = peephole(s);
    let p = linked(f);
    lemma_peephole_keeps(s);
    lemma_peephole_len(s);
    assert(p.instructions.len() == kept.len());
    assert forall|k: int| 0 <= k < kept.len() implies symbolic(#[trigger] kept[k]) && (label_of(
        kept[k],
    ) is Some ==> defines(kept, label_of(kept[k])->0)) by {
        let j = choose|j: int| 0 <= j < s.len() && #[trigger] s[j] == kept[k];
        assert(symbolic(s[j]));
        if label_of(kept[k]) is Some {
            let t = label_of(kept[k])->0;
            assert(marked(s, t));
            lemma_marked_is_defined(kept, t);
        }
    }
    assert forall|k: int|
        0 <= k < f.constants.len() && (#[trigger] f.constants[k]) is Fn implies entry_at(
        kept,
        f.constants[k]->Fn_0,
    ) by {
        let t = f.constants[k]->Fn_0;
        assert(entry_at(s, t));
        assert(entry_after(s, t, Instruction::PushNothing));
        lemma_peephole_entry(s, t, Instruction::PushNothing);
        assert(entry_after(kept, t, Instruction::PushNothing));
        lemma_position_first(kept, t, 0);
    }
    assert forall|k: int| 0 <= k < p.instructions.len() implies match #[trigger] p.instructions[k] {
        Instruction::Jump(n) => lands(p.instructions, n),
        Instruction::ConditionalJump(n) => lands(p.instructions, n),
        Instruction::PushJumpRef(n) => lands(p.instructions, n),
        Instruction::JumpTo(_) => false,
        Instruction::ConditionalJumpTo(_) => false,
        Instruction::JumpRefTo(_) => false,
        Instruction::JumpTarget(_) => false,
        _ => true,
    } by {
        assert(p.instructions[k] == linked_instruction(kept[k], kept));
        assert(symbolic(kept[k]));
        if label_of(kept[k]) is Some {
            let t = label_of(kept[k])->0;
            assert(defines(kept, t));
            assert(position(kept, t, 0) < kept.len());
            lemma_position_first(kept, t, 0);
            let q = position(kept, t, 0);
            assert(p.instructions[q] == linked_instruction(kept[q], kept));
        }
    }
    assert forall|k: int| 0 <= k < p.constants.len() implies match #[trigger] p.constants[k] {
        ValueView::Fn(n) => 0 < n < p.instructions.len() && p.instructions[n as int]
            == Instruction::Null && p.instructions[n - 1] == Instruction::Terminate,
        _ => true,
    } by {
        assert(p.constants[k] == linked_value(f.constants[k], kept));
        if f.constants[k] is Fn {
            let t = f.constants[k]->Fn_0;
            assert(entry_at(kept, t));
            let q = position(kept, t, 0);
            lemma_position_first(kept, t, 0);
            assert(p.instructions[q] == linked_instruction(kept[q], kept));
            assert(p.instructions[q - 1] == linked_instruction(kept[q - 1], kept));
        }
    }
}

/// A sealed builder links well: once its waiting bodies are appended and
/// its labels resolved, every jump holds the position of an instruction,
/// and every function constant the position of the entry of a function
/// body, right behind a `Terminate`.
pub proof fn sealed_builder_links_well(b: BuilderView)
    requires
        sealed(b),
        flat_labels(b) <= usize::MAX,
        flattened(b).instructions.len() <= usize::MAX,
    ensures
        linkable(flattened(b)),
        well_linked(linked(flattened(b))),
{
    lemma_flattened_ok(b);
    lemma_linked_well(flattened(b));
}

/// Lowering a tree into an empty builder gives a program that links well,
/// as long as its instructions can be counted: every jump of the linked
/// program holds the position of one of its instructions, and every
/// function constant the position of the first instruction of a function
/// body, right behind a `Terminate`.
pub proof fn lowered_program_links_well(e: ExpressionView, debug: bool, numbers: Seq<u64>)
    requires
        lowerable(e),
        2 * weight(e) <= usize::MAX,
        flattened(lowered(e, BuilderView::fresh(debug), numbers, 0).0).instructions.len()
            <= usize::MAX,
    ensures
        ({
            let b = lowered(e, BuilderView::fresh(debug), numbers, 0).0;
            &&& sealed(b)
            &&& flat_labels(b) <= usize::MAX
            &&& linkable(flattened(b))
            &&& well_linked(linked(flattened(b)))
        }),
{
    lemma_fresh_sealed(debug);
    lemma_lowered_sealed(e, BuilderView::fresh(debug), numbers, 0, Set::empty());
    sealed_builder_links_well(lowered(e, BuilderView::fresh(debug), numbers, 0).0);
}

/// A flat builder has no body waiting, and flattening it again changes
/// nothing.
pub proof fn flattening_twice_changes_nothing(b: BuilderView)
    requires
        flat_labels(b) <= usize::MAX,
    ensures
        flattened(b).end_stuff.len() == 0,
        flattened(flattened(b)) == flattened(b),
{
    crate::compiler::lemma_flattened_labels(b);
    let f = flattened(b);
    assert(f.end_stuff =~= Seq::empty());
    assert(BuilderView { end_stuff: Seq::empty(), ..f } == f);
}

/// A table holds a constant once it is added, at the position given, and
/// keeps every entry that it held where it was; a constant that equals an
/// entry is not added again.
pub proof fn constants_are_added_once(constants: Seq<ValueView>, v: ValueView)
    requires
        constants.len() < usize::MAX,
    ensures
        ({
            let (table, slot) = with_constant(constants, v);
            &&& slot < table.len()
            &&& table.len() == constants.len() || (table.len() == constants.len() + 1 && table.last()
                == v)
            &&& forall|k: int| 0 <= k < constants.len() ==> table[k] == constants[k]
            &&& table.len() == constants.len() <==> exists|k: int|
                0 <= k < constants.len() && crate::vm::same_value(#[trigger] constants[k], v)
            &&& slot < constants.len() ==> crate::vm::same_value(table[slot as int], v)
        }),
{
    lemma_constant_slot(constants, v, 0);
    let at = constant_slot(constants, v, 0);
    if at < constants.len() {
        assert(crate::vm::same_value(constants[at], v));
    }
}

/// The first entry that equals `v` lies between the position searched from
/// and the end of the table, and no entry before it equals `v`.
pub proof fn lemma_constant_slot(constants: Seq<ValueView>, v: ValueView, from: int)
    requires
        0 <= from <= constants.len(),
    ensures
        from <= constant_slot(constants, v, from) <= constants.len(),
        constant_slot(constants, v, from) < constants.len() ==> crate::vm::same_value(
            constants[constant_slot(constants, v, from)],
            v,
        ),
        forall|k: int|
            from <= k < constant_slot(constants, v, from) ==> !crate::vm::same_value(
                #[trigger] constants[k],
                v,
            ),
    decreases constants.len() - from,
{
    if from < constants.len() && !crate::vm::same_value(constants[from], v) {
        lemma_constant_slot(constants, v, from + 1);
    }
}

} // verus!
