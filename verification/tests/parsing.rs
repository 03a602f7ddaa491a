use eeeee::ast::{is_scope_barrier, BinaryOp, Expr, Expression, UnaryOp};
use eeeee::errors::{Error, Severity};
use eeeee::lexer::lex;
use eeeee::loader::{Loader, Span};
use eeeee::parser::precedence::{
    get_precedence, ADD_SUB, ASSIGN, CALL, DOT, LOGICAL, MUL_DIV_EXP, SEMICOLON,
};
use eeeee::parser::{includes_of, parse};
use eeeee::tokens::{ILiteralTypeHint, IntLiteralType, Token, TokenType};

fn parsed(text: &str) -> Result<Box<Expression>, Vec<Error>> {
    let mut loader = Loader::new();
    let index = loader.load_from_memory(text.to_owned(), "test".to_owned());
    let (tokens, status) = lex(loader.get_file(index));
    assert!(status.is_ok());
    parse(&tokens, index, &loader)
}

fn tree(text: &str) -> Box<Expression> {
    parsed(text).unwrap()
}

fn failure(text: &str) -> Vec<Error> {
    parsed(text).unwrap_err()
}

/// The tree in a compact notation, for comparisons.
fn shape(e: &Expression) -> String {
    match &e.et {
        Expr::Literal { src } => match src {
            TokenType::ILiteral { value, .. } => value.clone(),
            TokenType::FLiteral { value, .. } => value.clone(),
            TokenType::SLiteral { value, .. } => format!("'{}'", value),
            TokenType::BLiteral(b) => b.to_string(),
            _ => "?".to_owned(),
        },
        Expr::Identifier { id } => id.clone(),
        Expr::Unary { op, right } => format!("({:?} {})", op, shape(right)),
        Expr::Binary { op, left, right } => format!("({:?} {} {})", op, shape(left), shape(right)),
        Expr::Semicolon { left, right } => format!("(; {} {})", shape(left), shape(right)),
        Expr::Block(None) => "{}".to_owned(),
        Expr::Block(Some(inner)) => format!("{{{}}}", shape(inner)),
        Expr::Module(None, name) => format!("(module {})", name),
        Expr::Module(Some(inner), name) => format!("(module {} {})", name, shape(inner)),
        Expr::Call { callee, args } => {
            let args: Vec<String> = args.iter().map(|a| shape(a)).collect();
            format!("(call {} [{}])", shape(callee), args.join(" "))
        }
        Expr::Property { object, name } => format!("(. {} {})", shape(object), name),
        Expr::Break { with: None } => "(break)".to_owned(),
        Expr::Break { with: Some(x) } => format!("(break {})", shape(x)),
        Expr::Continue => "(continue)".to_owned(),
        Expr::Use { imports } => format!("(use {})", imports.join(" ")),
        Expr::Loop { inside } => format!("(loop {})", shape(inside)),
        Expr::If { condition, then, else_: None } => {
            format!("(if {} {})", shape(condition), shape(then))
        }
        Expr::If { condition, then, else_: Some(other) } => {
            format!("(if {} {} {})", shape(condition), shape(then), shape(other))
        }
        Expr::Assign { left, right } => format!("(= {} {})", shape(left), shape(right)),
        Expr::AssignOp { left, right, op } => {
            format!("({:?}= {} {})", op, shape(left), shape(right))
        }
        Expr::Fn { name, body, args } => format!("(fn {} [{}] {})", name, args.join(" "), shape(body)),
        Expr::Let { name, value: None } => format!("(let {})", name),
        Expr::Let { name, value: Some(x) } => format!("(let {} {})", name, shape(x)),
        Expr::While { condition, body } => format!("(while {} {})", shape(condition), shape(body)),
        Expr::EnumDecl { name, .. } => format!("(enum {})", name),
    }
}

/// Whether `holds` is true of the node and of every node below it.
fn every_node(e: &Expression, holds: &dyn Fn(&Expression) -> bool) -> bool {
    let here = holds(e);
    let below = match &e.et {
        Expr::Unary { right, .. } => every_node(right, holds),
        Expr::Binary { left, right, .. }
        | Expr::Semicolon { left, right }
        | Expr::Assign { left, right }
        | Expr::AssignOp { left, right, .. } => every_node(left, holds) && every_node(right, holds),
        Expr::Block(Some(x)) | Expr::Module(Some(x), _) | Expr::Break { with: Some(x) } => {
            every_node(x, holds)
        }
        Expr::Call { callee, args } => {
            every_node(callee, holds) && args.iter().all(|a| every_node(a, holds))
        }
        Expr::Property { object, .. } => every_node(object, holds),
        Expr::Loop { inside } => every_node(inside, holds),
        Expr::If { condition, then, else_ } => {
            every_node(condition, holds)
                && every_node(then, holds)
                && else_.as_ref().map_or(true, |x| every_node(x, holds))
        }
        Expr::Fn { body, .. } => every_node(body, holds),
        Expr::Let { value: Some(x), .. } => every_node(x, holds),
        Expr::While { condition, body } => every_node(condition, holds) && every_node(body, holds),
        _ => true,
    };
    here && below
}

fn spans_are_ordered(e: &Expression) -> bool {
    every_node(e, &|node| node.span.start <= node.span.end)
}

#[test]
fn multiplication_binds_tighter_than_addition() {
    assert_eq!(shape(&tree("1 + 2 * 3")), "(Add 1 (Mul 2 3))");
    assert_eq!(shape(&tree("1 * 2 + 3")), "(Add (Mul 1 2) 3)");
}

#[test]
fn binary_operators_group_to_the_left() {
    assert_eq!(shape(&tree("1 - 2 - 3")), "(Sub (Sub 1 2) 3)");
    assert_eq!(shape(&tree("8 / 4 / 2")), "(Div (Div 8 4) 2)");
}

#[test]
fn assignment_groups_to_the_right() {
    assert_eq!(shape(&tree("a = b = 3")), "(= a (= b 3))");
    assert_eq!(shape(&tree("a += b -= 3")), "(Add= a (Sub= b 3))");
}

#[test]
fn comparison_binds_looser_than_arithmetic() {
    assert_eq!(shape(&tree("1 + 2 < 3 * 4")), "(Lt (Add 1 2) (Mul 3 4))");
    assert_eq!(shape(&tree("a == b != c")), "(Neq (Eq a b) c)");
}

#[test]
fn semicolon_sequences_to_the_left() {
    assert_eq!(shape(&tree("1; 2; 3")), "(; (; 1 2) 3)");
}

#[test]
fn show_takes_everything_up_to_the_semicolon() {
    assert_eq!(shape(&tree("show 1 + 2; 3")), "(; (Show (Add 1 2)) 3)");
    assert_eq!(shape(&tree("panic 'x'")), "(Panic 'x')");
}

#[test]
fn prefix_operators_bind_tighter_than_infix() {
    assert_eq!(shape(&tree("-1 + 2")), "(Add (Neg 1) 2)");
    assert_eq!(shape(&tree("!a == b")), "(Eq (Not a) b)");
    assert_eq!(shape(&tree("-f(1)")), "(Neg (call f [1]))");
}

#[test]
fn calls_and_properties_chain() {
    assert_eq!(shape(&tree("f(1, 2)(3)")), "(call (call f [1 2]) [3])");
    assert_eq!(shape(&tree("m.a.b")), "(. (. m a) b)");
    assert_eq!(shape(&tree("m.f(x).y")), "(. (call (. m f) [x]) y)");
    assert_eq!(shape(&tree("f()")), "(call f [])");
}

#[test]
fn unclosed_call_is_reported() {
    let errors = failure("f(1, 2");
    assert_eq!(errors.len(), 1);
    assert_eq!(errors[0].code, "E0012");
    assert_eq!(errors[0].severity, Severity::FatalError);
}

#[test]
fn parentheses_group() {
    assert_eq!(shape(&tree("(1 + 2) * 3")), "(Mul (Add 1 2) 3)");
}

#[test]
fn blocks_hold_at_most_one_expression() {
    assert_eq!(shape(&tree("{}")), "{}");
    assert_eq!(shape(&tree("{ 1; 2 }")), "{(; 1 2)}");
}

#[test]
fn if_with_and_without_else() {
    assert_eq!(shape(&tree("if a { 1 }")), "(if a {1})");
    assert_eq!(shape(&tree("if a { 1 } else { 2 }")), "(if a {1} {2})");
    assert_eq!(
        shape(&tree("if a { 1 } else if b { 2 } else { 3 }")),
        "(if a {1} (if b {2} {3}))"
    );
}

#[test]
fn loops_functions_modules_and_lets() {
    assert_eq!(shape(&tree("while a < 3 { a = a + 1 }")), "(while (Lt a 3) {(= a (Add a 1))})");
    assert_eq!(shape(&tree("loop { break }")), "(loop {(break)})");
    assert_eq!(shape(&tree("loop { break 1 + 2 }")), "(loop {(break (Add 1 2))})");
    assert_eq!(shape(&tree("fn f(a, b) { a }")), "(fn f [a b] {a})");
    assert_eq!(shape(&tree("fn g() {}")), "(fn g [] {})");
    assert_eq!(shape(&tree("module m { let k = 7 }")), "(module m (let k 7))");
    assert_eq!(shape(&tree("module m {}")), "(module m)");
    assert_eq!(shape(&tree("let x")), "(let x)");
    assert_eq!(shape(&tree("let x = 1 + 2; x")), "(; (let x (Add 1 2)) x)");
    assert_eq!(shape(&tree("continue")), "(continue)");
}

#[test]
fn literals_keep_their_token() {
    let e = tree("0x1Fu8");
    match &e.et {
        Expr::Literal { src } => assert_eq!(
            *src,
            TokenType::ILiteral {
                value: "1F".to_owned(),
                kind: IntLiteralType::Hexadecimal,
                type_hint: ILiteralTypeHint::U8,
            }
        ),
        _ => panic!("expected a literal"),
    }
}

#[test]
fn spans_cover_their_operands() {
    let e = tree("1 + 23");
    assert_eq!(e.span, Span { file: 0, start: 0, end: 6 });
    let e = tree("  -x");
    assert_eq!(e.span, Span { file: 0, start: 2, end: 4 });
    let e = tree("let abc");
    assert_eq!(e.span, Span { file: 0, start: 0, end: 7 });
    let e = tree("{ 1 }");
    assert_eq!(e.span, Span { file: 0, start: 4, end: 5 });
}

#[test]
fn every_span_is_ordered() {
    let text = "fn f(a) { if a < 1 { 0 } else { f(a - 1) } }; module m { let k = 'x' }; while false { m.k }; -f(3)";
    assert!(spans_are_ordered(&tree(text)));
}

#[test]
fn empty_input_is_reported_at_the_start() {
    let errors = failure("");
    assert_eq!(errors.len(), 1);
    assert_eq!(errors[0].code, "E0011");
    assert_eq!(errors[0].severity, Severity::FatalError);
    assert_eq!(errors[0].spans, vec![Span { file: 0, start: 0, end: 0 }]);
}

#[test]
fn a_token_that_begins_no_expression_is_reported() {
    let errors = failure("1 + )");
    assert_eq!(errors.len(), 1);
    assert_eq!(errors[0].code, "E0011");
    assert_eq!(errors[0].spans, vec![Span { file: 0, start: 4, end: 5 }]);
}

#[test]
fn unclosed_parenthesis_names_both_ends() {
    let errors = failure("(1 + 2");
    assert_eq!(errors.len(), 1);
    assert_eq!(errors[0].code, "E0012");
    assert_eq!(errors[0].severity, Severity::FatalError);
    assert_eq!(
        errors[0].spans,
        vec![Span { file: 0, start: 6, end: 6 }, Span { file: 0, start: 0, end: 1 }]
    );
    let errors = failure("(1 2");
    assert_eq!(
        errors[0].spans,
        vec![Span { file: 0, start: 3, end: 4 }, Span { file: 0, start: 0, end: 1 }]
    );
}

#[test]
fn function_without_a_name_is_reported() {
    let errors = failure("fn (a) {}");
    assert_eq!(errors[0].code, "E0013");
    assert_eq!(errors[0].spans, vec![Span { file: 0, start: 3, end: 4 }]);
    let errors = failure("fn");
    assert_eq!(errors[0].code, "E0013");
    assert_eq!(errors[0].spans, vec![Span { file: 0, start: 2, end: 2 }]);
}

#[test]
fn missing_pieces_are_reported() {
    assert_eq!(failure("let 1")[0].code, "E0012");
    assert_eq!(failure("module 1 {}")[0].code, "E0012");
    assert_eq!(failure("module m 1")[0].code, "E0012");
    assert_eq!(failure("while a 1")[0].code, "E0012");
    assert_eq!(failure("loop 1")[0].code, "E0012");
    assert_eq!(failure("if a { 1 } else 2")[0].code, "E0012");
    assert_eq!(failure("a.1")[0].code, "E0012");
    assert_eq!(failure("fn f(a { a }")[0].code, "E0012");
    assert_eq!(failure("fn f(a) a")[0].code, "E0012");
    assert_eq!(failure("{ continue }")[0].code, "E0012");
}

#[test]
fn tokens_behind_the_expression_are_not_read() {
    assert_eq!(shape(&tree("1 2 3")), "1");
}

#[test]
fn precedences_are_as_tabulated() {
    let token = |tt: TokenType| Token { span: Span { file: 0, start: 0, end: 1 }, tt };
    let level = |tt: TokenType| get_precedence(&Some(&token(tt)));
    assert_eq!(level(TokenType::Semicolon), SEMICOLON);
    assert_eq!(level(TokenType::Eq), ASSIGN);
    assert_eq!(level(TokenType::ExpEq), ASSIGN);
    assert_eq!(level(TokenType::Neq), LOGICAL);
    assert_eq!(level(TokenType::Lt), LOGICAL);
    assert_eq!(level(TokenType::Plus), ADD_SUB);
    assert_eq!(level(TokenType::Minus), ADD_SUB);
    assert_eq!(level(TokenType::Star), MUL_DIV_EXP);
    assert_eq!(level(TokenType::Exp), MUL_DIV_EXP);
    assert_eq!(level(TokenType::LParen), CALL);
    assert_eq!(level(TokenType::Dot), DOT);
    assert_eq!(level(TokenType::RParen), 0);
    assert_eq!(level(TokenType::Let), 0);
    assert_eq!(get_precedence(&None), 0);
    assert_eq!((SEMICOLON, ASSIGN, LOGICAL, ADD_SUB, MUL_DIV_EXP, CALL, DOT), (1, 6, 10, 20, 30, 50, 60));
}

#[test]
fn scope_barriers() {
    assert!(is_scope_barrier(&tree("{ 1 }")));
    assert!(is_scope_barrier(&tree("module m {}")));
    assert!(is_scope_barrier(&tree("loop { 1 }")));
    assert!(is_scope_barrier(&tree("fn f() {}")));
    assert!(!is_scope_barrier(&tree("while a { 1 }")));
    assert!(!is_scope_barrier(&tree("1 + 2")));
}

#[test]
fn unary_and_binary_operators_are_named() {
    match &tree("show -1").et {
        Expr::Unary { op: UnaryOp::Show, right } => {
            assert!(matches!(right.et, Expr::Unary { op: UnaryOp::Neg, .. }))
        }
        _ => panic!("expected show"),
    }
    match &tree("2 ** 3").et {
        Expr::Binary { op, .. } => assert_eq!(*op, BinaryOp::Exp),
        _ => panic!("expected a power"),
    }
}

fn with_library(main: &str, library: Option<&str>) -> Result<Box<Expression>, Vec<Error>> {
    let mut loader = Loader::new();
    let index = loader.load_from_memory(main.to_owned(), "main".to_owned());
    if let Some(text) = library {
        loader.load_bytes(text.as_bytes().to_vec(), "lib.txt".to_owned()).unwrap();
    }
    let (tokens, status) = lex(loader.get_file(index));
    assert!(status.is_ok());
    assert_eq!(includes_of(&tokens), vec!["lib.txt".to_owned()]);
    parse(&tokens, index, &loader)
}

#[test]
fn include_splices_the_tree_of_the_file() {
    let e = with_library("include 'lib.txt'; f(1)", Some("fn f(a) { a }")).unwrap();
    assert_eq!(shape(&e), "(; (fn f [a] {a}) (call f [1]))");
    match &e.et {
        Expr::Semicolon { left, .. } => assert_eq!(left.span.file, 1),
        _ => panic!("expected a sequence"),
    }
}

#[test]
fn include_of_a_file_that_is_not_loaded_is_fatal() {
    let errors = with_library("include 'lib.txt'", None).unwrap_err();
    assert_eq!(errors.len(), 1);
    assert_eq!(errors[0].code, "E0014");
    assert_eq!(errors[0].severity, Severity::FatalError);
    assert_eq!(errors[0].spans, vec![Span { file: 0, start: 0, end: 17 }]);
}

#[test]
fn include_of_a_file_with_errors_ends_with_a_note_at_the_include() {
    let errors = with_library("include 'lib.txt'", Some("1 + ")).unwrap_err();
    assert_eq!(errors.len(), 2);
    assert_eq!(errors[0].code, "E0011");
    assert_eq!(errors[1].code, "E0014");
    assert_eq!(errors[1].severity, Severity::Info);
    let errors = with_library("include 'lib.txt'", Some("0x; 1")).unwrap_err();
    assert_eq!(errors.len(), 2);
    assert_eq!(errors[0].code, "E0003");
    assert_eq!(errors[1].code, "E0014");
    assert_eq!(errors[1].severity, Severity::Info);
    let errors = with_library("include 'lib.txt'", Some("'abc")).unwrap_err();
    assert_eq!(errors[0].code, "E0004");
    assert_eq!(errors[1].severity, Severity::Info);
}

#[test]
fn include_of_itself_is_reported_and_ends() {
    let errors = with_library("include 'lib.txt'", Some("include 'lib.txt'")).unwrap_err();
    assert!(!errors.is_empty());
    assert!(errors.iter().all(|e| e.code == "E0014"));
    assert_eq!(errors[0].severity, Severity::FatalError);
}

#[test]
fn include_without_a_path_is_reported() {
    let mut loader = Loader::new();
    let index = loader.load_from_memory("include 1".to_owned(), "main".to_owned());
    let (tokens, _) = lex(loader.get_file(index));
    assert!(includes_of(&tokens).is_empty());
    let errors = parse(&tokens, index, &loader).unwrap_err();
    assert_eq!(errors[0].code, "E0012");
}

#[test]
fn diagnostics_say_what_was_expected() {
    let errors = failure("if 1 {");
    assert_eq!(errors[0].message, "expected a closing '}', got EOF");
    assert_eq!(
        errors[0].pieces,
        vec![Some("expected } here".to_owned()), Some("opening '{' was here".to_owned())]
    );
    let errors = failure("(1 2");
    assert_eq!(errors[0].message, "expected a closing parenthesis, got <int literal>");
    assert_eq!(
        errors[0].pieces,
        vec![
            Some("expected ) here".to_owned()),
            Some("opening parenthesis was here".to_owned())
        ]
    );
    let errors = failure("");
    assert_eq!(errors[0].message, "expected an expression, got EOF");
    assert_eq!(errors[0].pieces, vec![None]);
    assert_eq!(failure("1 + )")[0].message, "expected an expression, got ')'");
    assert_eq!(failure("fn 1")[0].message, "expected a function name, got <int literal>");
    assert_eq!(failure("fn f 1")[0].message, "expected '(' after function name, got <int literal>");
    assert_eq!(
        failure("fn f(a")[0].message,
        "expected ')' after function argument list, got EOF"
    );
    assert_eq!(failure("fn f() 1")[0].message, "expected '{' after function arguments, got <int literal>");
    assert_eq!(failure("let =")[0].message, "expected a name, got '='");
    assert_eq!(failure("loop x")[0].message, "expected '{' after 'loop', got <identifier>");
    assert_eq!(failure("while a b")[0].message, "expected '{' after while condition, got <identifier>");
    assert_eq!(failure("if a b")[0].message, "expected '{' after if condition, got <identifier>");
    assert_eq!(
        failure("if a {} else b")[0].message,
        "expected '{' or 'if' after 'else', got <identifier>"
    );
    assert_eq!(failure("module 1")[0].message, "expected a module name, got <int literal>");
    assert_eq!(failure("module m 1")[0].message, "expected '{' after module name, got <int literal>");
    assert_eq!(failure("a.1")[0].message, "expected an identifier after dot, got <int literal>");
    assert_eq!(failure("f(1 2)")[0].message, "expected ')' after arguments, got <int literal>");
    assert_eq!(failure("include 1")[0].message, "expected a path after 'include', got <int literal>");
}

#[test]
fn failed_includes_name_the_path() {
    let errors = with_library("include 'lib.txt'", None).unwrap_err();
    assert_eq!(errors[0].message, "failed to load lib.txt");
    let errors = with_library("include 'lib.txt'", Some("1 +")).unwrap_err();
    assert_eq!(errors[1].message, "failed to load lib.txt due to compilation errors");
}

#[test]
fn a_comma_that_no_argument_follows_is_refused() {
    let errors = failure("f(1,)");
    assert_eq!(errors.len(), 1);
    assert_eq!(errors[0].code, "E0012");
    assert_eq!(errors[0].severity, Severity::FatalError);
    assert_eq!(errors[0].message, "expected an argument after ',', got ')'");
    assert_eq!(errors[0].spans, vec![Span { file: 0, start: 4, end: 5 }]);
    let errors = failure("f(1, 2,)");
    assert_eq!(errors[0].code, "E0012");
    assert_eq!(errors[0].spans, vec![Span { file: 0, start: 7, end: 8 }]);
    let errors = failure("f(1,");
    assert_eq!(errors[0].code, "E0012");
    assert_eq!(shape(&tree("f(1, 2)")), "(call f [1 2])");
    assert_eq!(shape(&tree("f()")), "(call f [])");
}

#[test]
fn every_span_names_the_file_parsed() {
    let mut loader = Loader::new();
    loader.load_from_memory("0".to_owned(), "first".to_owned());
    let text = "fn f(a) { if a < 1 { 0 } else { f(a - 1, 2) } }; module m { let k = 'x' }; while false { m.k }; -f(3)";
    let index = loader.load_from_memory(text.to_owned(), "second".to_owned());
    assert_eq!(index, 1);
    let (tokens, status) = lex(loader.get_file(index));
    assert!(status.is_ok());
    let e = parse(&tokens, index, &loader).unwrap();
    assert!(every_node(&e, &|node| node.span.file == 1));
    let source = loader.get_file(index).string();
    assert!(every_node(&e, &|node| {
        let (start, end) = (node.span.start as usize, node.span.end as usize);
        start <= end && source.is_char_boundary(start) && source.is_char_boundary(end)
    }));
}
