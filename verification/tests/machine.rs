use eeeee::compiler::ProgramBuilder;
use eeeee::number::{equal, less, nan, negate};
use eeeee::vm::listing::show_program;
use eeeee::vm::model::{Arithmetic, Fault};
use eeeee::vm::Instruction::{
    LoadConst, Discard, PushNothing, Duplicate, PushJumpRef, Swap, Jump, ConditionalJump, Terminate, RequireArguments, Null, Call, Negate, Add, Subtract, Multiply, Divide, Invert, RaiseTo, CheckEquality, Lesser, Greater, LesserEq, GreaterEq, CheckInequality, Show, AccessProperty, NewScope, LoadVar, Store, AssignStore, EndScope, EndAndNameScope, PopJump, JumpTo, ConditionalJumpTo, JumpTarget, JumpRefTo,
};
use eeeee::vm::{Effect, Instruction, Program, Scope, Value, VM};

fn number(x: f64) -> Value {
    Value::Num(x.to_bits())
}

fn machine(instructions: Vec<Instruction>, constants: Vec<Value>, names: Vec<&str>) -> VM {
    VM::new(Program {
        instructions,
        constants,
        names: names.into_iter().map(|n| n.to_owned()).collect(),
    })
}

#[test]
fn numbers_compare_as_numbers() {
    let samples = [
        0.0,
        -0.0,
        1.0,
        -1.0,
        1.5,
        -2.5e300,
        f64::MIN_POSITIVE,
        f64::MAX,
        f64::INFINITY,
        f64::NEG_INFINITY,
        f64::NAN,
        -f64::NAN,
    ];
    for a in samples {
        assert_eq!(nan(a.to_bits()), a.is_nan());
        assert_eq!(negate(a.to_bits()), (-a).to_bits());
        for b in samples {
            assert_eq!(equal(a.to_bits(), b.to_bits()), a == b, "{} == {}", a, b);
            assert_eq!(less(a.to_bits(), b.to_bits()), a < b, "{} < {}", a, b);
        }
    }
}

#[test]
fn values_compare_by_what_they_hold() {
    assert!(number(0.0).same(&number(-0.0)));
    assert!(!number(f64::NAN).same(&number(f64::NAN)));
    assert!(Value::Str("a".to_owned()).same(&Value::Str("a".to_owned())));
    assert!(!Value::Str("a".to_owned()).same(&Value::Str("b".to_owned())));
    assert!(!Value::Fn(1).same(&Value::JumpRef(1)));
    assert!(Value::Nothing.same(&Value::Nothing));
    assert!(Value::Scope(2).same(&Value::Scope(2)));
    assert!(!Value::Bool(true).same(&number(1.0)));
}

#[test]
fn values_read_as_text() {
    assert_eq!(number(1.0).show(), None);
    assert_eq!(Value::Str("hi".to_owned()).show(), Some("hi".to_owned()));
    assert_eq!(Value::Bool(false).show(), Some("false".to_owned()));
    assert_eq!(Value::Fn(12).show(), Some("<function @ 12>".to_owned()));
    assert_eq!(Value::JumpRef(0).show(), Some("<jump ref : 0>".to_owned()));
    assert_eq!(Value::Nothing.show(), Some("<nothing>".to_owned()));
    assert_eq!(Value::Scope(3).show(), Some("<scope 3>".to_owned()));
}

#[test]
fn scopes_bind_each_name_once() {
    let mut scope = Scope::new();
    assert!(scope.get(&"x".to_owned()).is_none());
    scope.bind("x".to_owned(), number(1.0));
    scope.bind("y".to_owned(), number(2.0));
    scope.bind("x".to_owned(), number(3.0));
    assert_eq!(scope.stuff.len(), 2);
    assert_eq!(scope.get(&"x".to_owned()), Some(&number(3.0)));
    assert_eq!(scope.get(&"y".to_owned()), Some(&number(2.0)));
    assert!(Scope::default().stuff.is_empty());
}

#[test]
fn a_new_machine_has_the_global_scope() {
    let vm = machine(vec![], vec![], vec![]);
    assert_eq!(vm.ip, 0);
    assert!(vm.stack.is_empty());
    assert_eq!(vm.scopes.len(), 1);
    assert!(vm.heap.is_empty());
}

#[test]
fn running_off_the_end_halts() {
    let mut vm = machine(vec![Instruction::PushNothing], vec![], vec![]);
    assert!(matches!(vm.step(), Effect::Continue));
    assert!(matches!(vm.step(), Effect::Halt));
    assert_eq!(vm.stack, vec![Value::Nothing]);
}

#[test]
fn stack_instructions() {
    let mut vm = machine(
        vec![LoadConst(0), LoadConst(1), Swap, Duplicate, Discard, PushJumpRef(9), Terminate],
        vec![number(1.0), Value::Bool(true)],
        vec![],
    );
    assert!(matches!(vm.run(100), Effect::Halt));
    assert_eq!(
        vm.stack,
        vec![Value::Bool(true), number(1.0), Value::JumpRef(9)]
    );
    assert_eq!(vm.ip, 6);
}

#[test]
fn discard_on_an_empty_stack_does_nothing() {
    let mut vm = machine(vec![Instruction::Discard], vec![], vec![]);
    assert!(matches!(vm.step(), Effect::Continue));
    assert!(vm.stack.is_empty());
    assert_eq!(vm.ip, 1);
}

#[test]
fn a_jump_lands_behind_its_target() {
    let mut vm = machine(vec![Jump(2), PushNothing, Null, PushJumpRef(1)], vec![], vec![]);
    assert!(matches!(vm.run(100), Effect::Halt));
    assert_eq!(vm.stack, vec![Value::JumpRef(1)]);
}

#[test]
fn a_conditional_jump_pops_a_boolean() {
    let program = |flag: bool| {
        machine(
            vec![LoadConst(0), ConditionalJump(3), PushNothing, Null, PushJumpRef(7)],
            vec![Value::Bool(flag)],
            vec![],
        )
    };
    let mut taken = program(true);
    assert!(matches!(taken.run(100), Effect::Halt));
    assert_eq!(taken.stack, vec![Value::JumpRef(7)]);
    let mut not_taken = program(false);
    assert!(matches!(not_taken.run(100), Effect::Halt));
    assert_eq!(not_taken.stack, vec![Value::Nothing, Value::JumpRef(7)]);
}

#[test]
fn arithmetic_is_left_to_the_host() {
    let mut vm = machine(
        vec![LoadConst(0), LoadConst(1), Subtract],
        vec![number(5.0), number(3.0)],
        vec![],
    );
    match vm.run(100) {
        Effect::Compute { op, lhs, rhs } => {
            assert_eq!(op, Arithmetic::Subtract);
            assert_eq!((lhs, rhs), (5f64.to_bits(), 3f64.to_bits()));
        }
        _ => panic!("expected a request"),
    }
    assert!(vm.stack.is_empty());
    assert_eq!(vm.ip, 3);
    vm.supply(2f64.to_bits());
    assert_eq!(vm.stack, vec![number(2.0)]);
}

#[test]
fn every_arithmetic_instruction_names_its_operation() {
    for (instruction, wanted) in [
        (Add, Arithmetic::Add),
        (Subtract, Arithmetic::Subtract),
        (Multiply, Arithmetic::Multiply),
        (Divide, Arithmetic::Divide),
        (RaiseTo, Arithmetic::RaiseTo),
    ] {
        let mut vm = machine(
            vec![LoadConst(0), LoadConst(0), instruction],
            vec![number(2.0)],
            vec![],
        );
        match vm.run(100) {
            Effect::Compute { op, .. } => assert_eq!(op, wanted),
            _ => panic!("expected a request"),
        }
    }
}

#[test]
fn comparisons_push_booleans() {
    for (instruction, wanted) in [
        (Lesser, true),
        (Greater, false),
        (LesserEq, true),
        (GreaterEq, false),
        (CheckEquality, false),
        (CheckInequality, true),
    ] {
        let mut vm = machine(
            vec![LoadConst(0), LoadConst(1), instruction],
            vec![number(1.0), number(2.0)],
            vec![],
        );
        assert!(matches!(vm.run(100), Effect::Halt));
        assert_eq!(vm.stack, vec![Value::Bool(wanted)]);
    }
}

#[test]
fn negate_and_invert() {
    let mut vm = machine(
        vec![LoadConst(0), Negate, LoadConst(1), Invert],
        vec![number(1.5), Value::Bool(false)],
        vec![],
    );
    assert!(matches!(vm.run(100), Effect::Halt));
    assert_eq!(vm.stack, vec![number(-1.5), Value::Bool(true)]);
}

#[test]
fn show_keeps_its_operand_and_panic_takes_it() {
    let mut vm = machine(vec![LoadConst(0), Show, Show, Instruction::Panic], vec![number(4.0)], vec![]);
    assert!(matches!(vm.run(100), Effect::Show(v) if v == number(4.0)));
    assert_eq!(vm.stack, vec![number(4.0)]);
    assert!(matches!(vm.run(100), Effect::Show(v) if v == number(4.0)));
    assert_eq!(vm.stack, vec![number(4.0)]);
    assert!(matches!(vm.run(100), Effect::Panic(v) if v == number(4.0)));
    assert!(vm.stack.is_empty());
}

#[test]
fn variables_live_in_scopes() {
    let mut vm = machine(
        vec![
            LoadConst(0),
            AssignStore(0),
            NewScope,
            LoadConst(1),
            AssignStore(0),
            LoadVar(0),
            LoadConst(0),
            Store(1),
            EndScope,
            LoadVar(0),
        ],
        vec![number(1.0), number(2.0)],
        vec!["x", "y"],
    );
    assert!(matches!(vm.run(7), Effect::Continue));
    assert_eq!(vm.stack, vec![number(2.0), number(1.0)]);
    assert_eq!(vm.scopes.len(), 2);
    assert!(matches!(vm.step(), Effect::Fault(Fault::Undefined(1))));
    assert_eq!(vm.stack, vec![number(2.0), number(1.0)]);
    vm.ip = 8;
    assert!(matches!(vm.run(100), Effect::Halt));
    assert_eq!(vm.scopes.len(), 1);
    assert_eq!(vm.stack, vec![number(2.0), number(1.0), number(1.0)]);
}

#[test]
fn store_reaches_the_scope_that_binds() {
    let mut vm = machine(
        vec![LoadConst(0), AssignStore(0), NewScope, LoadConst(1), Store(0), EndScope, LoadVar(0)],
        vec![number(1.0), number(2.0)],
        vec!["x"],
    );
    assert!(matches!(vm.run(100), Effect::Halt));
    assert_eq!(vm.stack, vec![number(2.0)]);
}

#[test]
fn a_module_leaves_its_scope_behind() {
    let mut vm = machine(
        vec![NewScope, LoadConst(0), AssignStore(0), EndAndNameScope(1), LoadVar(1), AccessProperty(0)],
        vec![number(7.0)],
        vec!["k", "m"],
    );
    assert!(matches!(vm.run(5), Effect::Continue));
    assert_eq!(vm.stack, vec![Value::Scope(0)]);
    assert_eq!(vm.heap.len(), 1);
    assert_eq!(vm.scopes.len(), 1);
    assert!(matches!(vm.run(100), Effect::Halt));
    assert_eq!(vm.stack, vec![number(7.0)]);
}

#[test]
fn call_and_return() {
    let mut vm = machine(
        vec![
            PushJumpRef(4),
            LoadConst(0),
            LoadConst(1),
            Call,
            Null,
            Terminate,
            Null,
            RequireArguments(1),
            Swap,
            PopJump,
        ],
        vec![number(3.0), Value::Fn(6)],
        vec![],
    );
    assert!(matches!(vm.run(100), Effect::Halt));
    assert_eq!(vm.stack, vec![number(3.0)]);
    assert_eq!(vm.ip, 5);
}

#[test]
fn faults_leave_the_machine_as_it_was() {
    let cases: Vec<(Vec<Instruction>, Fault)> = vec![
        (vec![Swap], Fault::StackEmpty),
        (vec![Duplicate], Fault::StackEmpty),
        (vec![Show], Fault::StackEmpty),
        (vec![PushNothing, Negate], Fault::ExpectedNumber),
        (vec![PushNothing, PushNothing, Add], Fault::ExpectedNumber),
        (vec![PushNothing, Add], Fault::StackEmpty),
        (vec![PushNothing, Invert], Fault::ExpectedBool),
        (vec![PushNothing, ConditionalJump(0)], Fault::ExpectedBool),
        (vec![ConditionalJump(0)], Fault::ExpectedBool),
        (vec![PushNothing, Call], Fault::ExpectedFunction),
        (vec![PushNothing, PopJump], Fault::ExpectedJumpRef),
        (vec![PopJump], Fault::ExpectedJumpRef),
        (vec![PushNothing, AccessProperty(0)], Fault::ExpectedScope),
        (vec![RequireArguments(0)], Fault::ExpectedJumpRef),
        (
            vec![PushJumpRef(0), PushNothing, RequireArguments(2)],
            Fault::ArgumentCount { expected: 2, received: 1 },
        ),
        (vec![LoadVar(0)], Fault::Undefined(0)),
        (vec![PushNothing, Store(0)], Fault::Undefined(0)),
        (vec![LoadConst(5)], Fault::BadOperand),
        (vec![LoadVar(5)], Fault::BadOperand),
        (vec![EndAndNameScope(0)], Fault::BadOperand),
        (vec![AssignStore(0)], Fault::StackEmpty),
        (vec![JumpTo(0)], Fault::Unlinked),
        (vec![ConditionalJumpTo(0)], Fault::Unlinked),
        (vec![JumpTarget(0)], Fault::Unlinked),
        (vec![JumpRefTo(0)], Fault::Unlinked),
    ];
    for (instructions, wanted) in cases {
        let last = instructions.len() - 1;
        let mut vm = machine(instructions.clone(), vec![], vec!["x"]);
        let effect = vm.run(100);
        match effect {
            Effect::Fault(fault) => assert_eq!(fault, wanted, "{:?}", instructions),
            other => panic!("{:?} gave {:?}", instructions, other),
        }
        assert_eq!(vm.ip, last);
        assert_eq!(vm.stack.len(), last.min(2));
    }
}

#[test]
fn a_budget_of_steps_is_kept() {
    let mut vm = machine(vec![Null, Jump(0)], vec![], vec![]);
    assert!(matches!(vm.run(1000), Effect::Continue));
    assert!(matches!(vm.run(0), Effect::Continue));
}

#[test]
fn builder_tables_hold_each_entry_once() {
    let mut builder = ProgramBuilder::new(false);
    assert_eq!(builder.add_constant(number(1.0)), 0);
    assert_eq!(builder.add_constant(Value::Str("a".to_owned())), 1);
    assert_eq!(builder.add_constant(number(1.0)), 0);
    assert_eq!(builder.add_constant(number(f64::NAN)), 2);
    assert_eq!(builder.add_constant(number(f64::NAN)), 3);
    assert_eq!(builder.add_name(&"x".to_owned()), 0);
    assert_eq!(builder.add_name(&"y".to_owned()), 1);
    assert_eq!(builder.add_name(&"x".to_owned()), 0);
    assert_eq!(builder.constants.len(), 4);
    assert_eq!(builder.names, vec!["x".to_owned(), "y".to_owned()]);
}

#[test]
fn builder_labels_count_up() {
    let mut builder = ProgramBuilder::default();
    assert_eq!(builder.target(), 0);
    assert_eq!(builder.reserve_target(), 1);
    builder.emit(Instruction::JumpTo(1));
    builder.stack_padding();
    builder.add_reserved(1);
    assert_eq!(
        builder.instructions,
        vec![
            Instruction::JumpTarget(0),
            Instruction::JumpTo(1),
            Instruction::PushNothing,
            Instruction::JumpTarget(1),
        ]
    );
    assert_eq!(builder.target_no, 2);
    let program = builder.finish();
    assert_eq!(
        program.instructions,
        vec![
            Instruction::Null,
            Instruction::Jump(3),
            Instruction::PushNothing,
            Instruction::Null,
        ]
    );
}

#[test]
fn flattening_appends_bodies_behind_a_terminate() {
    let mut child = ProgramBuilder::new(false);
    let inner = child.target();
    child.emit(Instruction::JumpTo(inner));
    let k = child.add_constant(Value::Str("c".to_owned()));
    child.emit(Instruction::LoadConst(k));
    let n = child.add_name(&"n".to_owned());
    child.emit(Instruction::LoadVar(n));
    let mut parent = ProgramBuilder::new(false);
    let entry = parent.reserve_target();
    let own = parent.target();
    parent.add_constant(number(1.0));
    parent.add_name(&"p".to_owned());
    parent.emit(Instruction::JumpTo(own));
    parent.end_stuff.push((Some(Instruction::JumpTarget(entry)), child));
    let flat = parent.flattened();
    assert!(flat.end_stuff.is_empty());
    assert_eq!(
        flat.instructions,
        vec![
            Instruction::JumpTarget(1),
            Instruction::JumpTo(1),
            Instruction::Terminate,
            Instruction::JumpTarget(0),
            Instruction::JumpTarget(2),
            Instruction::JumpTo(2),
            Instruction::LoadConst(1),
            Instruction::LoadVar(1),
        ]
    );
    assert_eq!(flat.constants, vec![number(1.0), Value::Str("c".to_owned())]);
    assert_eq!(flat.names, vec!["p".to_owned(), "n".to_owned()]);
    assert_eq!(flat.target_no, 3);
}

#[test]
fn a_program_is_listed() {
    let program = Program {
        instructions: vec![
            Instruction::LoadConst(0),
            Instruction::AssignStore(0),
            Instruction::LoadConst(1),
            Instruction::Jump(4),
            Instruction::Null,
            Instruction::Terminate,
        ],
        constants: vec![number(1.5), Value::Str("hi".to_owned())],
        names: vec!["x".to_owned()],
    };
    let texts = vec!["1.5".to_owned(), String::new()];
    assert_eq!(
        show_program(&program, &texts),
        "\x1B[32mConstants:\x1B[0m\n\
         \x1B[33m  0 \x1B[34m1.5\x1B[0m\n\
         \x1B[33m  1 \x1B[34m'hi'\x1B[0m\n\
         \n\x1B[32mNames:\x1B[0m\n\
         \x1B[33m  0 \x1B[34mx\x1B[0m\n\
         \n\x1B[32mInstructions:\x1B[0m\n\
         \x1B[33m  0 \x1B[34mload\x1B[0m 1.5 \x1B[37m(0)\x1B[0m\n\
         \x1B[33m  1 \x1B[34mdeclare-store\x1B[0m x \x1B[37m(0)\x1B[0m\n\
         \x1B[33m  2 \x1B[34mload\x1B[0m 'hi' \x1B[37m(1)\x1B[0m\n\
         \x1B[33m  3 \x1B[34mjump\x1B[0m 4\x1B[0m\n\
         \x1B[33m  4 \x1B[34m\x1B[0m\n\
         \x1B[33m  5 \x1B[34m---\x1B[0m\n"
    );
}

#[test]
fn listing_columns_widen_with_the_count() {
    let program = Program {
        instructions: vec![Instruction::Null; 11],
        constants: vec![],
        names: vec![],
    };
    let text = show_program(&program, &vec![]);
    assert!(text.contains("\x1B[33m   0 \x1B[34m\x1B[0m\n"));
    assert!(text.contains("\x1B[33m  10 \x1B[34m\x1B[0m\n"));
}
