//! The disassembler: a listing of the constants, the names and the
//! instructions of a program.

use vstd::prelude::*;
use vstd::string::StringExecFns;
use crate::ast::string_views;
use crate::text::{blanks, decimal, push_decimal, put, put_blanks};
use crate::vm::{Instruction, Program, ProgramView, Value, ValueView};

verus! {

/// Width of the column that holds the positions of `count` entries: two
/// more than the digits of `count`.
pub open spec fn column(count: nat) -> nat {
    if count == 0 {
        3
    } else {
        decimal(count).len() + 2
    }
}

/// The texts of the numbers that the host rendered, in order.
pub open spec fn rendered(numbers: Seq<String>) -> Seq<Seq<char>> {
    string_views(numbers)
}

/// `acc` with the constant at position `k` as text. A number reads as the
/// host rendered it, a constant that the program does not hold as `?`.
pub open spec fn constant_onto(
    acc: Seq<char>,
    constants: Seq<ValueView>,
    numbers: Seq<Seq<char>>,
    k: int,
) -> Seq<char> {
    if !(0 <= k < constants.len()) {
        acc + "?"@
    } else {
        match constants[k] {
            ValueView::Num(_) => if k < numbers.len() {
                acc + numbers[k]
            } else {
                acc + "?"@
            },
            ValueView::Str(text) => acc + "'"@ + text + "'"@,
            ValueView::Bool(b) => acc + if b {
                "true"@
            } else {
                "false"@
            },
            ValueView::Fn(n) => acc + "<function @ "@ + decimal(n as nat) + ">"@,
            ValueView::Nothing => acc + "<nothing>"@,
            ValueView::JumpRef(n) => acc + "<jump ref : "@ + decimal(n as nat) + ">"@,
            ValueView::Scope(n) => acc + "<scope "@ + decimal(n as nat) + ">"@,
        }
    }
}

/// `acc` with the name at position `k`, or `?` when the program holds
/// none there.
pub open spec fn name_onto(acc: Seq<char>, names: Seq<Seq<char>>, k: int) -> Seq<char> {
    if 0 <= k < names.len() {
        acc + names[k]
    } else {
        acc + "?"@
    }
}

/// The mnemonic of an instruction that holds no operand.
pub open spec fn mnemonic(i: Instruction) -> Seq<char> {
    match i {
        Instruction::Discard => "discard"@,
        Instruction::PushNothing => "push-nothing"@,
        Instruction::Duplicate => "duplicate"@,
        Instruction::Swap => "swap"@,
        Instruction::Terminate => "---"@,
        Instruction::Null => ""@,
        Instruction::Call => "call"@,
        Instruction::Panic => "panic"@,
        Instruction::Negate => "neg"@,
        Instruction::Add => "add"@,
        Instruction::Subtract => "sub"@,
        Instruction::Multiply => "mul"@,
        Instruction::Divide => "div"@,
        Instruction::Invert => "invert"@,
        Instruction::RaiseTo => "exp"@,
        Instruction::CheckEquality => "check-eq"@,
        Instruction::Lesser => "lt"@,
        Instruction::Greater => "gt"@,
        Instruction::LesserEq => "leq"@,
        Instruction::GreaterEq => "geq"@,
        Instruction::CheckInequality => "check-neq"@,
        Instruction::Show => "show"@,
        Instruction::NewScope => "new-scope"@,
        Instruction::EndScope => "end-scope"@,
        Instruction::PopJump => "pop-jump"@,
        Instruction::LoadConst(_) => "load"@,
        Instruction::PushJumpRef(_) => "push-jump-ref"@,
        Instruction::Jump(_) => "jump"@,
        Instruction::ConditionalJump(_) => "conditional-jump"@,
        Instruction::RequireArguments(_) => "require-args"@,
        Instruction::AccessProperty(_) => "read-property"@,
        Instruction::LoadVar(_) => "load-name"@,
        Instruction::Store(_) => "store"@,
        Instruction::AssignStore(_) => "declare-store"@,
        Instruction::EndAndNameScope(_) => "end-store-scope"@,
        Instruction::JumpTo(_) => "jump-to"@,
        Instruction::ConditionalJumpTo(_) => "conditional-jump-to"@,
        Instruction::JumpTarget(_) => "jump-target"@,
        Instruction::JumpRefTo(_) => "jump-ref-to"@,
        Instruction::FunctionTag(_) => "\x1B[35m"@,
        Instruction::CodegenHelper(_) => "\x1B[35m-- "@,
    }
}

/// How the operand of an instruction is shown.
pub enum Operand {
    /// The instruction holds none.
    Absent,
    /// A position or a count, in decimal.
    Plain(usize),
    /// A constant, then its position between parentheses.
    Constant(usize),
    /// A name, then its position between parentheses.
    Name(usize),
    /// A name followed by a colon.
    Tag(usize),
    /// A name.
    Note(usize),
}

pub open spec fn operand_of(i: Instruction) -> Operand {
    match i {
        Instruction::LoadConst(n) => Operand::Constant(n),
        Instruction::PushJumpRef(n) => Operand::Plain(n),
        Instruction::Jump(n) => Operand::Plain(n),
        Instruction::ConditionalJump(n) => Operand::Plain(n),
        Instruction::RequireArguments(n) => Operand::Plain(n),
        Instruction::JumpTo(n) => Operand::Plain(n),
        Instruction::ConditionalJumpTo(n) => Operand::Plain(n),
        Instruction::JumpTarget(n) => Operand::Plain(n),
        Instruction::JumpRefTo(n) => Operand::Plain(n),
        Instruction::AccessProperty(n) => Operand::Name(n),
        Instruction::LoadVar(n) => Operand::Name(n),
        Instruction::Store(n) => Operand::Name(n),
        Instruction::AssignStore(n) => Operand::Name(n),
        Instruction::EndAndNameScope(n) => Operand::Name(n),
        Instruction::FunctionTag(n) => Operand::Tag(n),
        Instruction::CodegenHelper(n) => Operand::Note(n),
        _ => Operand::Absent,
    }
}

/// `acc` with an instruction as text: its mnemonic, then its operand.
pub open spec fn instruction_onto(
    acc: Seq<char>,
    i: Instruction,
    program: ProgramView,
    numbers: Seq<Seq<char>>,
) -> Seq<char> {
    let start = acc + mnemonic(i);
    match operand_of(i) {
        Operand::Absent => start,
        Operand::Plain(n) => start + "\x1B[0m "@ + decimal(n as nat),
        Operand::Constant(n) => constant_onto(
            start + "\x1B[0m "@,
            program.constants,
            numbers,
            n as int,
        ) + " \x1B[37m("@ + decimal(n as nat) + ")"@,
        Operand::Name(n) => name_onto(start + "\x1B[0m "@, program.names, n as int)
            + " \x1B[37m("@ + decimal(n as nat) + ")"@,
        Operand::Tag(n) => name_onto(start, program.names, n as int) + ":"@,
        Operand::Note(n) => name_onto(start, program.names, n as int),
    }
}

/// `acc` with the start of the line of entry `k` in a column `width`
/// wide: the position, flush right, and the colour of the entry.
pub open spec fn entry_onto(acc: Seq<char>, width: nat, k: nat) -> Seq<char> {
    acc + "\x1B[33m"@ + blanks((width - decimal(k).len()) as nat) + decimal(k) + " \x1B[34m"@
}

/// `acc` with the lines of the first `n` constants.
pub open spec fn constants_onto(
    acc: Seq<char>,
    program: ProgramView,
    numbers: Seq<Seq<char>>,
    n: nat,
) -> Seq<char>
    decreases n,
{
    if n == 0 {
        acc
    } else {
        constant_onto(
            entry_onto(
                constants_onto(acc, program, numbers, (n - 1) as nat),
                column(program.constants.len()),
                (n - 1) as nat,
            ),
            program.constants,
            numbers,
            n - 1,
        ) + "\x1B[0m\n"@
    }
}

/// `acc` with the lines of the first `n` names.
pub open spec fn names_onto(acc: Seq<char>, program: ProgramView, n: nat) -> Seq<char>
    decreases n,
{
    if n == 0 {
        acc
    } else {
        name_onto(
            entry_onto(
                names_onto(acc, program, (n - 1) as nat),
                column(program.names.len()),
                (n - 1) as nat,
            ),
            program.names,
            n - 1,
        ) + "\x1B[0m\n"@
    }
}

/// `acc` with the lines of the first `n` instructions.
pub open spec fn instructions_onto(
    acc: Seq<char>,
    program: ProgramView,
    numbers: Seq<Seq<char>>,
    n: nat,
) -> Seq<char>
    decreases n,
{
    if n == 0 || n > program.instructions.len() {
        acc
    } else {
        instruction_onto(
            entry_onto(
                instructions_onto(acc, program, numbers, (n - 1) as nat),
                column(program.instructions.len()),
                (n - 1) as nat,
            ),
            program.instructions[n - 1],
            program,
            numbers,
        ) + "\x1B[0m\n"@
    }
}

/// The listing of a program: its constants, its names and its
/// instructions, each under a heading and behind its position.
pub open spec fn program_text(program: ProgramView, numbers: Seq<Seq<char>>) -> Seq<char> {
    instructions_onto(
        names_onto(
            constants_onto("\x1B[32mConstants:\x1B[0m\n"@, program, numbers, program.constants.len())
                + "\n\x1B[32mNames:\x1B[0m\n"@,
            program,
            program.names.len(),
        ) + "\n\x1B[32mInstructions:\x1B[0m\n"@,
        program,
        numbers,
        program.instructions.len(),
    )
}

/// A number has at least as many digits as every smaller one.
pub proof fn lemma_decimal_len(a: nat, b: nat)
    requires
        a <= b,
    ensures
        1 <= decimal(a).len() <= decimal(b).len(),
    decreases b,
{
    if b >= 10 {
        if a >= 10 {
            lemma_decimal_len(a / 10, b / 10);
        } else {
            lemma_decimal_len(0, b / 10);
        }
    }
}

/// Ten to the power of `k`.
pub open spec fn power_of_ten(k: nat) -> nat
    decreases k,
{
    if k == 0 {
        1
    } else {
        10 * power_of_ten((k - 1) as nat)
    }
}

/// A number below ten to the power of `k` has at most `k` digits.
pub proof fn lemma_decimal_below(n: nat, k: nat)
    requires
        k >= 1,
        n < power_of_ten(k),
    ensures
        decimal(n).len() <= k,
    decreases k,
{
    if n >= 10 {
        assert(k >= 2) by {
            if k == 1 {
                assert(power_of_ten(1) == 10 * power_of_ten(0));
            }
        }
        lemma_decimal_below(n / 10, (k - 1) as nat);
    }
}

fn digits(n: usize) -> (count: usize)
    ensures
        count == decimal(n as nat).len(),
        1 <= count <= 20,
    decreases n,
{
    proof {
        assert(power_of_ten(20) == 100_000_000_000_000_000_000nat) by {
            reveal_with_fuel(power_of_ten, 21);
        }
        lemma_decimal_below(n as nat, 20);
        lemma_decimal_len(0, n as nat);
    }
    if n < 10 {
        1
    } else {
        digits(n / 10) + 1
    }
}

fn column_of(count: usize) -> (width: usize)
    ensures
        width == column(count as nat),
        3 <= width <= 22,
{
    if count == 0 {
        3
    } else {
        digits(count) + 2
    }
}

fn put_entry(out: &mut String, width: usize, k: usize, Ghost(count): Ghost<nat>)
    requires
        width == column(count),
        k < count,
    ensures
        final(out)@ == entry_onto(old(out)@, width as nat, k as nat),
{
    proof {
        lemma_decimal_len(k as nat, count);
    }
    put(out, "\x1B[33m");
    put_blanks(out, width - digits(k));
    push_decimal(out, k as u64);
    put(out, " \x1B[34m");
}

fn put_constant(out: &mut String, program: &Program, numbers: &Vec<String>, k: usize)
    ensures
        final(out)@ == constant_onto(
            old(out)@,
            program@.constants,
            rendered(numbers@),
            k as int,
        ),
{
    if k >= program.constants.len() {
        put(out, "?");
        return ;
    }
    match &program.constants[k] {
        Value::Num(_) => {
            if k < numbers.len() {
                put(out, numbers[k].as_str());
            } else {
                put(out, "?");
            }
        },
        Value::Str(text) => {
            put(out, "'");
            put(out, text.as_str());
            put(out, "'");
        },
        Value::Bool(b) => {
            if *b {
                put(out, "true");
            } else {
                put(out, "false");
            }
        },
        Value::Fn(n) => {
            put(out, "<function @ ");
            push_decimal(out, *n as u64);
            put(out, ">");
        },
        Value::Nothing => {
            put(out, "<nothing>");
        },
        Value::JumpRef(n) => {
            put(out, "<jump ref : ");
            push_decimal(out, *n as u64);
            put(out, ">");
        },
        Value::Scope(n) => {
            put(out, "<scope ");
            push_decimal(out, *n as u64);
            put(out, ">");
        },
    }
}

fn put_name(out: &mut String, program: &Program, k: usize)
    ensures
        final(out)@ == name_onto(old(out)@, program@.names, k as int),
{
    if k < program.names.len() {
        put(out, program.names[k].as_str());
    } else {
        put(out, "?");
    }
}

fn mnemonic_of(i: &Instruction) -> (text: &'static str)
    ensures
        text@ == mnemonic(*i),
{
    match i {
        Instruction::Discard => "discard",
        Instruction::PushNothing => "push-nothing",
        Instruction::Duplicate => "duplicate",
        Instruction::Swap => "swap",
        Instruction::Terminate => "---",
        Instruction::Null => "",
        Instruction::Call => "call",
        Instruction::Panic => "panic",
        Instruction::Negate => "neg",
        Instruction::Add => "add",
        Instruction::Subtract => "sub",
        Instruction::Multiply => "mul",
        Instruction::Divide => "div",
        Instruction::Invert => "invert",
        Instruction::RaiseTo => "exp",
        Instruction::CheckEquality => "check-eq",
        Instruction::Lesser => "lt",
        Instruction::Greater => "gt",
        Instruction::LesserEq => "leq",
        Instruction::GreaterEq => "geq",
        Instruction::CheckInequality => "check-neq",
        Instruction::Show => "show",
        Instruction::NewScope => "new-scope",
        Instruction::EndScope => "end-scope",
        Instruction::PopJump => "pop-jump",
        Instruction::LoadConst(_) => "load",
        Instruction::PushJumpRef(_) => "push-jump-ref",
        Instruction::Jump(_) => "jump",
        Instruction::ConditionalJump(_) => "conditional-jump",
        Instruction::RequireArguments(_) => "require-args",
        Instruction::AccessProperty(_) => "read-property",
        Instruction::LoadVar(_) => "load-name",
        Instruction::Store(_) => "store",
        Instruction::AssignStore(_) => "declare-store",
        Instruction::EndAndNameScope(_) => "end-store-scope",
        Instruction::JumpTo(_) => "jump-to",
        Instruction::ConditionalJumpTo(_) => "conditional-jump-to",
        Instruction::JumpTarget(_) => "jump-target",
        Instruction::JumpRefTo(_) => "jump-ref-to",
        Instruction::FunctionTag(_) => "\x1B[35m",
        Instruction::CodegenHelper(_) => "\x1B[35m-- ",
    }
}

fn operand(i: &Instruction) -> (r: Operand)
    ensures
        r == operand_of(*i),
{
    match i {
        Instruction::LoadConst(n) => Operand::Constant(*n),
        Instruction::PushJumpRef(n) => Operand::Plain(*n),
        Instruction::Jump(n) => Operand::Plain(*n),
        Instruction::ConditionalJump(n) => Operand::Plain(*n),
        Instruction::RequireArguments(n) => Operand::Plain(*n),
        Instruction::JumpTo(n) => Operand::Plain(*n),
        Instruction::ConditionalJumpTo(n) => Operand::Plain(*n),
        Instruction::JumpTarget(n) => Operand::Plain(*n),
        Instruction::JumpRefTo(n) => Operand::Plain(*n),
        Instruction::AccessProperty(n) => Operand::Name(*n),
        Instruction::LoadVar(n) => Operand::Name(*n),
        Instruction::Store(n) => Operand::Name(*n),
        Instruction::AssignStore(n) => Operand::Name(*n),
        Instruction::EndAndNameScope(n) => Operand::Name(*n),
        Instruction::FunctionTag(n) => Operand::Tag(*n),
        Instruction::CodegenHelper(n) => Operand::Note(*n),
        _ => Operand::Absent,
    }
}

fn put_instruction(out: &mut String, i: &Instruction, program: &Program, numbers: &Vec<String>)
    ensures
        final(out)@ == instruction_onto(old(out)@, *i, program@, rendered(numbers@)),
{
    put(out, mnemonic_of(i));
    match operand(i) {
        Operand::Absent => {},
        Operand::Plain(n) => {
            put(out, "\x1B[0m ");
            push_decimal(out, n as u64);
        },
        Operand::Constant(n) => {
            put(out, "\x1B[0m ");
            put_constant(out, program, numbers, n);
            put(out, " \x1B[37m(");
            push_decimal(out, n as u64);
            put(out, ")");
        },
        Operand::Name(n) => {
            put(out, "\x1B[0m ");
            put_name(out, program, n);
            put(out, " \x1B[37m(");
            push_decimal(out, n as u64);
            put(out, ")");
        },
        Operand::Tag(n) => {
            put_name(out, program, n);
            put(out, ":");
        },
        Operand::Note(n) => {
            put_name(out, program, n);
        },
    }
}

/// The listing of a program. `numbers` holds, for every constant that is
/// a number, its text at the position of the constant.
pub fn show_program(program: &Program, numbers: &Vec<String>) -> (text: String)
    ensures
        text@ == program_text(program@, rendered(numbers@)),
{
    let ghost view = program@;
    let ghost texts = rendered(numbers@);
    let mut text = String::from_str("\x1B[32mConstants:\x1B[0m\n");
    let ghost start = text@;
    let count = program.constants.len();
    let width = column_of(count);
    let mut k: usize = 0;
    while k < count
        invariant
            0 <= k <= count,
            count == program.constants@.len(),
            width == column(count as nat),
            view == program@,
            texts == rendered(numbers@),
            text@ == constants_onto(start, view, texts, k as nat),
        decreases count - k,
    {
        put_entry(&mut text, width, k, Ghost(count as nat));
        put_constant(&mut text, program, numbers, k);
        put(&mut text, "\x1B[0m\n");
        k = k + 1;
    }
    put(&mut text, "\n\x1B[32mNames:\x1B[0m\n");
    let ghost start = text@;
    let count = program.names.len();
    let width = column_of(count);
    let mut k: usize = 0;
    while k < count
        invariant
            0 <= k <= count,
            count == program.names@.len(),
            width == column(count as nat),
            view == program@,
            text@ == names_onto(start, view, k as nat),
        decreases count - k,
    {
        put_entry(&mut text, width, k, Ghost(count as nat));
        put_name(&mut text, program, k);
        put(&mut text, "\x1B[0m\n");
        k = k + 1;
    }
    put(&mut text, "\n\x1B[32mInstructions:\x1B[0m\n");
    let ghost start = text@;
    let count = program.instructions.len();
    let width = column_of(count);
    let mut k: usize = 0;
    while k < count
        invariant
            0 <= k <= count,
            count == program.instructions@.len(),
            width == column(count as nat),
            view == program@,
            texts == rendered(numbers@),
            text@ == instructions_onto(start, view, texts, k as nat),
        decreases count - k,
    {
        put_entry(&mut text, width, k, Ghost(count as nat));
        put_instruction(&mut text, &program.instructions[k], program, numbers);
        put(&mut text, "\x1B[0m\n");
        k = k + 1;
    }
    text
}

} // verus!
