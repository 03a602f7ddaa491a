//! The machine and the balance agree: what the balance says of one
//! instruction is what a step of the machine on it does to the operand
//! stack and to the scope stack.

use vstd::prelude::*;
use crate::compiler::balance::{follow, Balance};
use crate::compiler::model::{label_of, linked_instruction};
use crate::vm::Instruction;
use crate::vm::model::{
    assign_store, binary, end_and_name_scope, lemma_binder_bounds, step, store, unary,
    MachineView, ScopeView,
};

verus! {

/// One step of the machine keeps the balance. Where the balance fits the
/// instruction `i` at `h` values and `d` scopes, and the machine, which
/// holds at least as many of both, takes the step on the linked form of
/// `i` without a fault, the operand stack and the scope stack change as
/// the balance says: by what is known behind the instruction, where the
/// code goes on behind it, and by what its label stands for, where it
/// refers to one. A result that the host still owes counts as pushed.
/// `RequireArguments` is left out: with it the balance counts the
/// arguments that the call left on the stack.
pub proof fn a_step_keeps_the_balance(
    m: MachineView,
    i: Instruction,
    s: Seq<Instruction>,
    h: int,
    d: int,
)
    requires
        m.ip < m.program.instructions.len(),
        m.program.instructions[m.ip as int] == linked_instruction(i, s),
        !(i is RequireArguments),
        0 <= h <= m.stack.len(),
        0 <= d <= m.scopes.len(),
        follow(Balance::start(h, d), i).ok,
        !(step(m).1 is Fault),
    ensures
        ({
            let (next, effect) = step(m);
            let after = follow(Balance::start(h, d), i);
            let owed: int = if effect is Compute {
                1
            } else {
                0
            };
            &&& after.live matches Some((h2, d2)) ==> next.stack.len() + owed - m.stack.len() == h2
                - h && next.scopes.len() - m.scopes.len() == d2 - d
            &&& label_of(i) matches Some(t) ==> after.expect.contains_key(t) && next.stack.len()
                - m.stack.len() == after.expect[t].0 - h && next.scopes.len() - m.scopes.len()
                == after.expect[t].1 - d
        }),
{
    let st = Balance::start(h, d);
    match i {
        Instruction::JumpTo(t) => {
            assert(follow(st, i) == st.meet(t, h, d).leaves(true));
        },
        Instruction::ConditionalJumpTo(t) => {
            assert(follow(st, i) == st.meet(t, h - 1, d).goes(h >= 1, h - 1, d));
        },
        Instruction::JumpRefTo(t) => {
            assert(follow(st, i) == st.meet(t, h + 1, d).goes(true, h + 1, d));
        },
        Instruction::Add | Instruction::Subtract | Instruction::Multiply | Instruction::Divide
        | Instruction::RaiseTo | Instruction::Lesser | Instruction::Greater
        | Instruction::LesserEq | Instruction::GreaterEq => {
            assert(step(m) == binary(m, i));
        },
        Instruction::Duplicate | Instruction::Show | Instruction::Panic | Instruction::Negate
        | Instruction::Invert | Instruction::Call | Instruction::PopJump => {
            assert(step(m) == unary(m, i));
        },
        Instruction::EndAndNameScope(k) => {
            assert(step(m) == end_and_name_scope(m, k));
            assert(m.scopes.take(m.scopes.len() - 2).len() == m.scopes.len() - 2);
        },
        Instruction::EndScope => {
            assert(m.scopes.drop_last().len() == m.scopes.len() - 1);
        },
        Instruction::Store(k) => {
            assert(step(m) == store(m, k));
            if k < m.program.names.len() {
                lemma_binder_bounds(m.scopes, m.program.names[k as int], m.scopes.len() - 1);
            }
        },
        Instruction::AssignStore(k) => {
            assert(step(m) == assign_store(m, k));
        },
        Instruction::NewScope => {
            assert(m.scopes.push(ScopeView::empty()).len() == m.scopes.len() + 1);
        },
        _ => {},
    }
}

} // verus!
