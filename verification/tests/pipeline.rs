use eeeee::ast::Expression;
use eeeee::compiler::{integer_of, lower, numbers_of, NumberSource, ProgramBuilder};
use eeeee::errors::Severity;
use eeeee::lexer::lex;
use eeeee::loader::Loader;
use eeeee::parser::parse;
use eeeee::tokens::IntLiteralType;
use eeeee::vm::model::{Arithmetic, Fault};
use eeeee::vm::{Effect, Instruction, Program, Value, VM};

fn bits_of(source: &NumberSource) -> u64 {
    let number = match source.kind {
        IntLiteralType::Decimal => source.text.parse::<f64>().unwrap(),
        _ => integer_of(source).unwrap() as f64,
    };
    number.to_bits()
}

fn tree_of(text: &str) -> Box<Expression> {
    let mut loader = Loader::new();
    let index = loader.load_from_memory(text.to_owned(), "test".to_owned());
    let (tokens, status) = lex(loader.get_file(index));
    assert!(status.is_ok());
    parse(&tokens, index, &loader).unwrap()
}

fn program_of(text: &str) -> Program {
    let tree = tree_of(text);
    let numbers: Vec<u64> = numbers_of(&tree).iter().map(bits_of).collect();
    let mut builder = ProgramBuilder::new(false);
    lower(&tree, &mut builder, &numbers);
    builder.finish()
}

fn rendering(value: &Value) -> String {
    match value {
        Value::Num(bits) => f64::from_bits(*bits).to_string(),
        Value::Str(s) => s.clone(),
        Value::Bool(b) => b.to_string(),
        Value::Fn(n) => format!("<function @ {}>", n),
        Value::JumpRef(n) => format!("<jump ref : {}>", n),
        Value::Nothing => "<nothing>".to_owned(),
        Value::Scope(n) => format!("<scope {}>", n),
    }
}

struct Outcome {
    printed: Vec<String>,
    stack: Vec<Value>,
    scopes: usize,
    last: Effect,
}

fn run(text: &str) -> Outcome {
    let mut vm = VM::new(program_of(text));
    let mut printed = vec![];
    let mut rounds = 0;
    loop {
        rounds += 1;
        assert!(rounds < 100_000);
        match vm.run(1000) {
            Effect::Continue => {}
            Effect::Show(value) => printed.push(rendering(&value)),
            Effect::Compute { op, lhs, rhs } => {
                let (a, b) = (f64::from_bits(lhs), f64::from_bits(rhs));
                let result = match op {
                    Arithmetic::Add => a + b,
                    Arithmetic::Subtract => a - b,
                    Arithmetic::Multiply => a * b,
                    Arithmetic::Divide => a / b,
                    Arithmetic::RaiseTo => a.powf(b),
                };
                vm.supply(result.to_bits());
            }
            last => {
                let scopes = vm.scopes.len();
                return Outcome { printed, stack: vm.stack, scopes, last };
            }
        }
    }
}

fn number(x: f64) -> Value {
    Value::Num(x.to_bits())
}

#[test]
fn a_literal_is_its_own_result() {
    let outcome = run("42");
    assert!(outcome.printed.is_empty());
    assert_eq!(outcome.stack, vec![number(42.0)]);
    assert!(matches!(outcome.last, Effect::Halt));
}

#[test]
fn show_prints_and_yields_its_operand() {
    let outcome = run("show 3");
    assert_eq!(outcome.printed, vec!["3"]);
    assert_eq!(outcome.stack, vec![number(3.0)]);
    let twice = run("show (show 3)");
    assert_eq!(twice.printed, vec!["3", "3"]);
    assert_eq!(twice.stack, vec![number(3.0)]);
}

#[test]
fn empty_block_yields_nothing() {
    let outcome = run("{}");
    assert_eq!(outcome.stack, vec![Value::Nothing]);
    assert!(outcome.printed.is_empty());
}

#[test]
fn if_without_else_yields_nothing_when_false() {
    let outcome = run("if false { 1 }");
    assert_eq!(outcome.stack, vec![Value::Nothing]);
}

#[test]
fn if_without_else_yields_nothing_when_true() {
    let outcome = run("if true { show 1 }");
    assert_eq!(outcome.printed, vec!["1"]);
    assert_eq!(outcome.stack, vec![Value::Nothing]);
}

#[test]
fn hexadecimal_literal_with_underscore_is_65535() {
    let outcome = run("0xFF_FF");
    assert_eq!(outcome.stack, vec![number(65535.0)]);
}

#[test]
fn arithmetic_follows_precedence() {
    let outcome = run("show 1 + 2 * 3");
    assert_eq!(outcome.printed, vec!["7"]);
    assert_eq!(outcome.stack, vec![number(7.0)]);
}

#[test]
fn variables_are_declared_read_and_assigned() {
    let outcome = run("let x = 5; show x; x = x + 1; show x");
    assert_eq!(outcome.printed, vec!["5", "6"]);
    assert_eq!(outcome.stack.len(), 1);
}

#[test]
fn functions_are_called_with_arguments() {
    let outcome = run("fn f(a, b) { a + b }; show f(10, 32)");
    assert_eq!(outcome.printed, vec!["42"]);
    assert_eq!(outcome.stack, vec![number(42.0)]);
    assert_eq!(outcome.scopes, 1);
}

#[test]
fn while_loops_until_the_condition_fails() {
    let outcome = run("let n = 0; while n < 3 { n = n + 1 }; show n");
    assert_eq!(outcome.printed, vec!["3"]);
    assert_eq!(outcome.stack.len(), 1);
}

#[test]
fn modules_keep_their_scope() {
    let outcome = run("module m { let k = 7 }; show m.k");
    assert_eq!(outcome.printed, vec!["7"]);
    assert_eq!(outcome.stack, vec![number(7.0)]);
}

#[test]
fn if_else_takes_one_branch() {
    let outcome = run("if true { show 'yes' } else { show 'no' }");
    assert_eq!(outcome.printed, vec!["yes"]);
    let other = run("if false { show 'yes' } else { show 'no' }");
    assert_eq!(other.printed, vec!["no"]);
    assert_eq!(other.stack, vec![Value::Str("no".to_owned())]);
}

#[test]
fn else_if_chains() {
    let outcome = run("let x = 2; if x == 1 { show 'a' } else if x == 2 { show 'b' } else { show 'c' }");
    assert_eq!(outcome.printed, vec!["b"]);
}

#[test]
fn compound_assignment_updates_in_place() {
    let outcome = run("let x = 2; x *= 5; x -= 1; show x");
    assert_eq!(outcome.printed, vec!["9"]);
}

#[test]
fn nested_functions_and_recursion() {
    let text = "fn fact(n) { if n < 2 { 1 } else { n * fact(n - 1) } }; show fact(5)";
    let outcome = run(text);
    assert_eq!(outcome.printed, vec!["120"]);
    assert_eq!(outcome.stack, vec![number(120.0)]);
}

#[test]
fn inner_function_is_linked_behind_its_parent() {
    let text = "fn outer(a) { fn inner(b) { b + 1 }; inner(a) * 2 }; show outer(4)";
    let outcome = run(text);
    assert_eq!(outcome.printed, vec!["10"]);
}

#[test]
fn wrong_argument_count_is_a_fault() {
    let outcome = run("fn f(a) { a }; f(1, 2)");
    assert!(matches!(
        outcome.last,
        Effect::Fault(Fault::ArgumentCount { expected: 1, received: 2 })
    ));
}

#[test]
fn unbound_name_is_a_fault() {
    let outcome = run("show y");
    assert!(matches!(outcome.last, Effect::Fault(Fault::Undefined(_))));
}

#[test]
fn type_mismatch_is_a_fault() {
    let outcome = run("1 + true");
    assert!(matches!(outcome.last, Effect::Fault(Fault::ExpectedNumber)));
    let other = run("if 1 { 2 }");
    assert!(matches!(other.last, Effect::Fault(Fault::ExpectedBool)));
}

#[test]
fn missing_property_is_a_fault() {
    let outcome = run("module m { let k = 7 }; m.j");
    assert!(matches!(outcome.last, Effect::Fault(Fault::NoProperty(_))));
}

#[test]
fn panic_aborts_with_its_value() {
    let outcome = run("show 1; panic 'stop'; show 2");
    assert_eq!(outcome.printed, vec!["1"]);
    match outcome.last {
        Effect::Panic(value) => assert_eq!(value, Value::Str("stop".to_owned())),
        _ => panic!("expected a panic"),
    }
}

#[test]
fn comparisons_and_equality() {
    let outcome = run("show 1 < 2; show 2 <= 2; show 3 > 4; show 1 == 1; show 'a' != 'b'; show 1 == '1'");
    assert_eq!(outcome.printed, vec!["true", "true", "false", "true", "true", "false"]);
}

#[test]
fn negation_and_inversion() {
    let outcome = run("show -3; show !true; show -(-2)");
    assert_eq!(outcome.printed, vec!["-3", "false", "2"]);
}

#[test]
fn blocks_shadow_and_restore() {
    let outcome = run("let x = 1; { let x = 2; show x }; show x");
    assert_eq!(outcome.printed, vec!["2", "1"]);
    assert_eq!(outcome.scopes, 1);
}

#[test]
fn assignment_reaches_the_enclosing_scope() {
    let outcome = run("let x = 1; { x = 5 }; show x");
    assert_eq!(outcome.printed, vec!["5"]);
}

#[test]
fn constants_are_not_repeated() {
    let program = program_of("1; 1.0; 0x1; 'a'; 'a'; 2");
    assert_eq!(
        program.constants,
        vec![number(1.0), Value::Str("a".to_owned()), number(2.0)]
    );
    assert_eq!(
        program.instructions,
        vec![
            Instruction::LoadConst(0),
            Instruction::Discard,
            Instruction::LoadConst(0),
            Instruction::Discard,
            Instruction::LoadConst(0),
            Instruction::Discard,
            Instruction::LoadConst(1),
            Instruction::Discard,
            Instruction::LoadConst(1),
            Instruction::Discard,
            Instruction::LoadConst(2),
        ]
    );
}

#[test]
fn linked_function_sits_behind_a_terminate() {
    let program = program_of("fn f(a) { a }; f(1)");
    let entry = program
        .constants
        .iter()
        .find_map(|c| match c {
            Value::Fn(k) => Some(*k),
            _ => None,
        })
        .unwrap();
    assert_eq!(program.instructions[entry], Instruction::Null);
    assert_eq!(program.instructions[entry - 1], Instruction::Terminate);
    assert_eq!(program.instructions[entry + 1], Instruction::NewScope);
    for instruction in program.instructions.iter() {
        match instruction {
            Instruction::Jump(k) | Instruction::ConditionalJump(k) | Instruction::PushJumpRef(k) => {
                assert!(*k < program.instructions.len());
                assert_eq!(program.instructions[*k], Instruction::Null);
            }
            Instruction::JumpTo(_)
            | Instruction::ConditionalJumpTo(_)
            | Instruction::JumpRefTo(_)
            | Instruction::JumpTarget(_) => panic!("a label is left"),
            _ => {}
        }
    }
}

#[test]
fn peephole_drops_padding_that_is_discarded() {
    let program = program_of("let x = 1; x");
    assert_eq!(
        program.instructions,
        vec![
            Instruction::LoadConst(0),
            Instruction::AssignStore(0),
            Instruction::LoadVar(0),
        ]
    );
}

#[test]
fn lowering_is_deterministic() {
    let text = "fn f(a) { if a < 1 { 0 } else { f(a - 1) } }; while false { f(2) }; f(3)";
    let first = program_of(text);
    let second = program_of(text);
    assert_eq!(first.instructions, second.instructions);
    assert_eq!(first.constants, second.constants);
    assert_eq!(first.names, second.names);
}

#[test]
fn unclosed_block_is_fatal_with_a_note_on_the_opening_brace() {
    let mut loader = Loader::new();
    let index = loader.load_from_memory("if 1 {".to_owned(), "test".to_owned());
    let (tokens, status) = lex(loader.get_file(index));
    assert!(status.is_ok());
    let errors = parse(&tokens, index, &loader).unwrap_err();
    assert_eq!(errors.len(), 1);
    assert_eq!(errors[0].severity, Severity::FatalError);
    assert_eq!(errors[0].code, "E0012");
    assert_eq!(errors[0].spans.len(), 2);
    assert_eq!(errors[0].spans[1], tokens[2].span);
}

#[test]
fn assignment_to_what_is_no_name_lowers_to_nothing() {
    let program = program_of("1.x = 2");
    assert!(program.instructions.is_empty());
    let outcome = run("1.x = 2");
    assert!(outcome.stack.is_empty());
    assert!(matches!(outcome.last, Effect::Halt));
}

#[test]
fn let_without_a_value_yields_nothing() {
    let outcome = run("let x");
    assert_eq!(outcome.stack, vec![Value::Nothing]);
}

#[test]
fn every_sample_program_leaves_one_value() {
    for text in [
        "1",
        "{}",
        "let x = 1",
        "let x = 1; x = 2",
        "if true { 1 }",
        "if false { 1 } else { 2 }",
        "let n = 0; while n < 2 { n += 1 }",
        "module m { let k = 1 }",
        "module m {}; m",
        "fn f(a) { a }",
        "fn f(a) { a }; f(f(1))",
        "fn f() { fn g() { 1 }; g }; f()()",
        "show 1; show 'a'",
    ] {
        let outcome = run(text);
        assert!(matches!(outcome.last, Effect::Halt), "{}", text);
        assert_eq!(outcome.stack.len(), 1, "{}", text);
        assert_eq!(outcome.scopes, 1, "{}", text);
    }
}

fn literal(kind: IntLiteralType, text: &str) -> NumberSource {
    NumberSource { kind, text: text.to_owned() }
}

#[test]
fn integers_are_read_in_their_base() {
    assert_eq!(integer_of(&literal(IntLiteralType::Hexadecimal, "FFFF")), Some(65535));
    assert_eq!(integer_of(&literal(IntLiteralType::Hexadecimal, "ffff")), Some(65535));
    assert_eq!(integer_of(&literal(IntLiteralType::Hexadecimal, "0")), Some(0));
    assert_eq!(integer_of(&literal(IntLiteralType::Hexadecimal, "1aF")), Some(431));
    assert_eq!(integer_of(&literal(IntLiteralType::Octal, "17")), Some(15));
    assert_eq!(integer_of(&literal(IntLiteralType::Octal, "777")), Some(511));
    assert_eq!(integer_of(&literal(IntLiteralType::Binary, "101")), Some(5));
    assert_eq!(integer_of(&literal(IntLiteralType::Binary, "0001")), Some(1));
}

#[test]
fn integers_that_do_not_fit_have_no_value() {
    assert_eq!(
        integer_of(&literal(IntLiteralType::Hexadecimal, "7FFFFFFFFFFFFFFF")),
        Some(i64::MAX)
    );
    assert_eq!(integer_of(&literal(IntLiteralType::Hexadecimal, "8000000000000000")), None);
    assert_eq!(integer_of(&literal(IntLiteralType::Hexadecimal, "FFFFFFFFFFFFFFFFFFFF")), None);
    assert_eq!(integer_of(&literal(IntLiteralType::Octal, "777777777777777777777")), Some(i64::MAX));
    assert_eq!(integer_of(&literal(IntLiteralType::Octal, "1000000000000000000000")), None);
    let ones = "1".repeat(63);
    assert_eq!(integer_of(&literal(IntLiteralType::Binary, &ones)), Some(i64::MAX));
    let more = "1".repeat(64);
    assert_eq!(integer_of(&literal(IntLiteralType::Binary, &more)), None);
}

#[test]
fn integers_need_digits_of_their_base() {
    assert_eq!(integer_of(&literal(IntLiteralType::Hexadecimal, "")), None);
    assert_eq!(integer_of(&literal(IntLiteralType::Hexadecimal, "1G")), None);
    assert_eq!(integer_of(&literal(IntLiteralType::Octal, "8")), None);
    assert_eq!(integer_of(&literal(IntLiteralType::Binary, "12")), None);
    assert_eq!(integer_of(&literal(IntLiteralType::Binary, "-1")), None);
    assert_eq!(integer_of(&literal(IntLiteralType::Decimal, "12")), None);
}

#[test]
fn every_jump_lands_on_a_target() {
    let text = "fn f(a) { if a < 1 { 0 } else { f(a - 1) } }; let i = 0; while i < 3 { i += 1; if i == 2 { f(i) } }; loop { f(0) }; f(2)";
    let program = program_of(text);
    let mut jumps = 0;
    for instruction in program.instructions.iter() {
        match instruction {
            Instruction::Jump(k) | Instruction::ConditionalJump(k) | Instruction::PushJumpRef(k) => {
                jumps += 1;
                assert_eq!(program.instructions[*k], Instruction::Null);
            }
            _ => {}
        }
    }
    assert!(jumps > 3);
}
