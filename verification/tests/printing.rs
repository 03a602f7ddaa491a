use eeeee::ast::{Expr, Expression};
use eeeee::compiler::{can_lower, compile, numbers_of, size_of};
use eeeee::expressions::show_tree;
use eeeee::lexer::lex;
use eeeee::loader::{Loader, Span};
use eeeee::parser::parse;
use eeeee::tokens::IntLiteralType;
use eeeee::typing::{Float, Integer, Machine, Type, TypeId, TypeInfo};

fn tree(text: &str) -> Box<Expression> {
    let mut loader = Loader::new();
    let index = loader.load_from_memory(text.to_owned(), "test".to_owned());
    let (tokens, status) = lex(loader.get_file(index));
    assert!(status.is_ok());
    parse(&tokens, index, &loader).unwrap()
}

#[test]
fn a_sum_is_shown_as_a_tree() {
    assert_eq!(
        show_tree(&tree("1 + x")),
        "\x1B[34m(\x1B[0m+\n\
         \x20 \x1B[37m<\x1B[33m1\x1B[37m>\n\x1B[0m\
         \x20 \x1B[31m#x\x1B[0m\n\
         \x1B[34m)\x1B[0m\n"
    );
}

#[test]
fn brackets_change_colour_with_depth() {
    assert_eq!(
        show_tree(&tree("!-!-a")),
        "\x1B[34m(\x1B[0m!\n\
         \x20 \x1B[35m(\x1B[0m-\n\
         \x20   \x1B[36m(\x1B[0m!\n\
         \x20     \x1B[34m(\x1B[0m-\n\
         \x20       \x1B[31m#a\x1B[0m\n\
         \x20     \x1B[34m)\x1B[0m\n\
         \x20   \x1B[36m)\x1B[0m\n\
         \x20 \x1B[35m)\x1B[0m\n\
         \x1B[34m)\x1B[0m\n"
    );
}

#[test]
fn literals_are_shown_with_their_base() {
    assert_eq!(show_tree(&tree("0x1F")), "\x1B[37m<\x1B[33m0x1F\x1B[37m>\n\x1B[0m");
    assert_eq!(show_tree(&tree("0o17")), "\x1B[37m<\x1B[33m0o17\x1B[37m>\n\x1B[0m");
    assert_eq!(show_tree(&tree("0b1")), "\x1B[37m<\x1B[33m0b1\x1B[37m>\n\x1B[0m");
    assert_eq!(show_tree(&tree("1.5")), "\x1B[37m<\x1B[33m(f) 1.5\x1B[37m>\n\x1B[0m");
    assert_eq!(show_tree(&tree("'a'")), "\x1B[37m<\x1B[33m\"a\"\x1B[37m>\n\x1B[0m");
    assert_eq!(show_tree(&tree("true")), "\x1B[37m<\x1B[33mtrue\x1B[37m>\n\x1B[0m");
}

#[test]
fn blocks_functions_and_lets_are_shown() {
    assert_eq!(show_tree(&tree("{}")), "\x1B[34m{\x1B[0m\x1B[34m}\x1B[0m\n");
    assert_eq!(
        show_tree(&tree("{ a }")),
        "\x1B[34m{\x1B[0m\n\x20 \x1B[31m#a\x1B[0m\n\x1B[34m}\x1B[0m\n"
    );
    assert_eq!(
        show_tree(&tree("let x")),
        "\x1B[34m(\x1B[32mlet \x1B[31m#x\x1B[0m\x1B[34m)\x1B[0m\n"
    );
    assert_eq!(
        show_tree(&tree("fn f(a, b) {}")),
        "\x1B[34m(\x1B[32mfn \x1B[31m#f\x1B[0m [a, b]\n\
         \x20 \x1B[35m{\x1B[0m\x1B[35m}\x1B[0m\n\
         \x1B[34m)\x1B[0m\n"
    );
    assert_eq!(
        show_tree(&tree("module m {}")),
        "\x1B[34mmod m {\x1B[0m\x1B[34m}\x1B[0m\n"
    );
    assert_eq!(show_tree(&tree("continue")), "(continue)\n");
    assert_eq!(
        show_tree(&tree("break")),
        "\x1B[34m(\x1B[32mbreak\x1B[34m)\x1B[0m\n"
    );
}

#[test]
fn calls_and_conditions_are_shown() {
    assert_eq!(
        show_tree(&tree("f(1)")),
        "\x1B[34m(\x1B[32mcall\x1B[0m\n\
         \x20 \x1B[31m#f\x1B[0m\n\
         \x20\x1B[32mwith\x1B[0m\n\
         \x20 \x1B[37m<\x1B[33m1\x1B[37m>\n\x1B[0m\
         \x1B[34m)\x1B[0m\n"
    );
    assert_eq!(
        show_tree(&tree("if a { } else { }")),
        "\x1B[34m(\x1B[32mif\x1B[0m\n\
         \x20 \x1B[31m#a\x1B[0m\n\
         \x1B[32mthen\x1B[0m\n\
         \x20 \x1B[35m{\x1B[0m\x1B[35m}\x1B[0m\n\
         \x1B[32melse\x1B[0m\n\
         \x20 \x1B[35m{\x1B[0m\x1B[35m}\x1B[0m\n\
         \x1B[34m)\x1B[0m\n"
    );
    assert_eq!(
        show_tree(&tree("m.k")),
        "\x1B[34m(\x1B[32mread\x1B[0m k \x1B[32mof\x1B[0m\n\
         \x20 \x1B[31m#m\x1B[0m\n\
         \x1B[34m)\x1B[0m\n"
    );
    assert_eq!(
        show_tree(&tree("a += 1")),
        "\x1B[34m(\x1B[0m+=\n\
         \x20 \x1B[31m#a\x1B[0m\n\
         \x20 \x1B[37m<\x1B[33m1\x1B[37m>\n\x1B[0m\
         \x1B[34m)\x1B[0m\n"
    );
}

#[test]
fn a_use_is_shown_with_its_imports() {
    let node = Expression {
        et: Expr::Use { imports: vec!["a".to_owned(), "b".to_owned()] },
        span: Span::new(0, 0, 0),
    };
    assert_eq!(
        show_tree(&node),
        "\x1B[34m(\x1B[32muse\x1B[0m\n\x20 a\n\x20 b\n\x1B[34m)\x1B[0m\n"
    );
}

#[test]
fn numeric_literals_are_listed_in_lowering_order() {
    let sources = numbers_of(&tree("f(0x10, 2.5)(3); 'a'; fn g() { 0b1 }; 4"));
    let listed: Vec<(IntLiteralType, &str)> =
        sources.iter().map(|s| (s.kind, s.text.as_str())).collect();
    assert_eq!(
        listed,
        vec![
            (IntLiteralType::Decimal, "3"),
            (IntLiteralType::Hexadecimal, "10"),
            (IntLiteralType::Decimal, "2.5"),
            (IntLiteralType::Binary, "1"),
            (IntLiteralType::Decimal, "4"),
        ]
    );
    assert!(numbers_of(&tree("1.x = 2")).len() == 0);
}

#[test]
fn trees_are_weighed_and_checked() {
    assert_eq!(size_of(&tree("1")), Some(1));
    assert_eq!(size_of(&tree("1 + 2 * 3")), Some(5));
    assert_eq!(size_of(&tree("f(1, 2)")), Some(4));
    assert_eq!(size_of(&tree("if a { b }")), Some(4));
    assert!(can_lower(&tree("fn f(a) { while a < 1 { a = a + 1 } }; f(0)")));
    assert!(!can_lower(&tree("loop { break }")));
    assert!(!can_lower(&tree("1 + (continue)")));
    assert!(can_lower(&tree("1.x = continue")));
}

#[test]
fn compile_refuses_what_cannot_be_lowered() {
    assert!(compile(&tree("loop { break }"), &vec![], false).is_none());
    assert!(compile(&tree("1 + 2"), &vec![1f64.to_bits()], false).is_none());
    assert!(compile(&tree("1 + 2"), &vec![1f64.to_bits(), 2f64.to_bits()], false).is_some());
}

#[test]
fn debugging_tags_name_the_functions() {
    let program = compile(&tree("fn f() {}"), &vec![], true).unwrap();
    assert!(program
        .instructions
        .iter()
        .any(|i| matches!(i, eeeee::vm::Instruction::FunctionTag(_))));
    let plain = compile(&tree("fn f() {}"), &vec![], false).unwrap();
    assert!(!plain
        .instructions
        .iter()
        .any(|i| matches!(i, eeeee::vm::Instruction::FunctionTag(_))));
}

#[test]
fn unknown_variables_take_the_type_of_the_other() {
    let mut machine = Machine::default();
    let a = machine.insert(TypeInfo::Unknown);
    let b = machine.insert(TypeInfo::Bool);
    assert_eq!((a, b), (TypeId(0), TypeId(1)));
    assert!(machine.unify(a, b).is_ok());
    assert!(matches!(machine.reconstruct(a), Ok(Type::Bool)));
    assert!(matches!(machine.reconstruct(b), Ok(Type::Bool)));
}

#[test]
fn numbers_unify_by_width() {
    let mut machine = Machine::new();
    let wide = machine.insert(TypeInfo::Integer(Some(Integer::U64)));
    let narrow = machine.insert(TypeInfo::Integer(Some(Integer::U8)));
    let open = machine.insert(TypeInfo::Integer(None));
    let other = machine.insert(TypeInfo::Integer(Some(Integer::U64)));
    assert!(machine.unify(wide, narrow).is_err());
    assert!(machine.unify(wide, other).is_ok());
    assert!(machine.unify(open, wide).is_ok());
    assert!(matches!(machine.reconstruct(narrow), Ok(Type::U8)));
    assert!(matches!(machine.reconstruct(other), Ok(Type::U64)));
    let fraction = machine.insert(TypeInfo::Float(None));
    assert!(matches!(machine.reconstruct(fraction), Ok(Type::F64)));
    let single = machine.insert(TypeInfo::Float(Some(Float::F32)));
    assert!(matches!(machine.reconstruct(single), Ok(Type::F32)));
    assert!(machine.unify(single, wide).is_err());
    let whole = machine.insert(TypeInfo::Integer(None));
    assert!(matches!(machine.reconstruct(whole), Ok(Type::I32)));
}

#[test]
fn references_unify_through_what_they_refer_to() {
    let mut machine = Machine::new();
    let unknown = machine.insert(TypeInfo::Unknown);
    let truth = machine.insert(TypeInfo::Bool);
    let first = machine.insert(TypeInfo::RefTo(unknown));
    let second = machine.insert(TypeInfo::RefTo(truth));
    let third = machine.insert(TypeInfo::RefMutTo(truth));
    assert!(machine.unify(first, third).is_err());
    assert!(machine.unify(first, second).is_ok());
    match machine.reconstruct(first) {
        Ok(Type::Ref(inner)) => assert!(matches!(*inner, Type::Bool)),
        _ => panic!("expected a reference"),
    }
    match machine.reconstruct(third) {
        Ok(Type::RefMut(inner)) => assert!(matches!(*inner, Type::Bool)),
        _ => panic!("expected a mutable reference"),
    }
}

#[test]
fn what_is_unknown_cannot_be_reconstructed() {
    let mut machine = Machine::new();
    let unknown = machine.insert(TypeInfo::Unknown);
    assert!(machine.reconstruct(unknown).is_err());
    assert!(machine.reconstruct(TypeId(7)).is_err());
    assert!(machine.unify(unknown, TypeId(7)).is_err());
    let character = machine.insert(TypeInfo::Char);
    assert!(matches!(machine.reconstruct(character), Ok(Type::Char)));
}

#[test]
fn a_variable_that_stands_for_itself_ends_the_search() {
    let mut machine = Machine::new();
    let a = machine.insert(TypeInfo::Unknown);
    assert!(machine.unify(a, a).is_ok());
    assert!(machine.reconstruct(a).is_err());
    let b = machine.insert(TypeInfo::Bool);
    assert!(machine.unify(a, b).is_err());
}
