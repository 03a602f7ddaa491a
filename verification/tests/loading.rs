use eeeee::errors::{
    find_line_col, fuse, lines, print_error, print_tokens, Error, Severity, E0001, E0014,
};
use eeeee::failure::Failure;
use eeeee::lexer::lex;
use eeeee::loader::{Loader, Span};
use eeeee::tokens::TokenType;

#[test]
fn span_new_keeps_its_arguments() {
    let span = Span::new(3, 4, 9);
    assert_eq!(span, Span { file: 3, start: 4, end: 9 });
}

#[test]
fn merge_covers_both_spans() {
    let a = Span::new(0, 4, 9);
    let b = Span::new(0, 6, 12);
    assert_eq!(a.merge(b), Span { file: 0, start: 4, end: 12 });
    assert_eq!(b.merge(a), Span { file: 0, start: 4, end: 12 });
    let inner = Span::new(0, 5, 6);
    assert_eq!(a.merge(inner), a);
    assert_eq!(a.merge(a), a);
}

#[test]
fn merge_across_files_keeps_the_first() {
    let a = Span::new(0, 4, 9);
    let b = Span::new(1, 0, 20);
    assert_eq!(a.merge(b), a);
    assert_eq!(b.merge(a), b);
}

#[test]
fn loader_hands_out_indices_in_order() {
    let mut loader = Loader::new();
    assert_eq!(loader.len(), 0);
    let first = loader.load_from_memory("one".to_owned(), "a".to_owned());
    let second = loader.load_from_memory("two".to_owned(), "b".to_owned());
    assert_eq!((first, second), (0, 1));
    assert_eq!(loader.len(), 2);
    assert_eq!(loader.get_file(0).string(), "one");
    assert_eq!(loader.get_file(1).string(), "two");
    assert_eq!(loader.get_file(1).index, 1);
    assert_eq!(loader.get_file(0).src(), Some("a"));
}

#[test]
fn default_loader_is_empty() {
    assert_eq!(Loader::default().len(), 0);
}

#[test]
fn sources_loaded_from_a_path_are_found_by_it() {
    let mut loader = Loader::new();
    loader.load_from_memory("one".to_owned(), "lib.txt".to_owned());
    assert_eq!(loader.find_path(&"lib.txt".to_owned()), None);
    let index = loader.load_from_path("two".to_owned(), "lib.txt".to_owned());
    loader.load_from_path("three".to_owned(), "lib.txt".to_owned());
    assert_eq!(loader.find_path(&"lib.txt".to_owned()), Some(index));
    assert_eq!(loader.find_path(&"other.txt".to_owned()), None);
    assert!(loader.get_file(index).is_path(&"lib.txt".to_owned()));
    assert!(!loader.get_file(0).is_path(&"lib.txt".to_owned()));
}

#[test]
fn bytes_that_are_utf8_are_loaded() {
    let mut loader = Loader::new();
    let index = loader.load_bytes("h\u{e9}llo".as_bytes().to_vec(), "p".to_owned()).unwrap();
    assert_eq!(index, 0);
    assert_eq!(loader.get_file(0).string(), "h\u{e9}llo");
    assert_eq!(loader.get_file(0).src(), Some("p"));
}

#[test]
fn bytes_that_are_no_utf8_are_refused() {
    let mut loader = Loader::new();
    let failure = loader.load_bytes(vec![b'a', 0xff, b'b'], "p".to_owned()).unwrap_err();
    assert!(matches!(failure, Failure::Utf8Error(_)));
    assert_eq!(loader.len(), 0);
}

#[test]
fn span_content_slices_by_bytes() {
    let mut loader = Loader::new();
    loader.load_from_memory("let \u{e9}t\u{e9} = 1".to_owned(), "a".to_owned());
    assert_eq!(loader.span_content(Span::new(0, 4, 9)), "\u{e9}t\u{e9}");
    assert_eq!(loader.span_content(Span::new(0, 0, 3)), "let");
    assert_eq!(loader.span_content(Span::new(0, 13, 13)), "");
}

#[test]
fn span_content_with_margins_clamps_to_the_text() {
    let mut loader = Loader::new();
    loader.load_from_memory("0123456789".to_owned(), "a".to_owned());
    assert_eq!(
        loader.span_content_with_margins(Span::new(0, 4, 6), 2, 3),
        ("23", "45", "678")
    );
    assert_eq!(
        loader.span_content_with_margins(Span::new(0, 1, 9), 5, 5),
        ("0", "12345678", "9")
    );
    assert_eq!(
        loader.span_content_with_margins(Span::new(0, 0, 10), 5, 5),
        ("", "0123456789", "")
    );
}

#[test]
fn lines_and_columns_count_from_zero() {
    let mut loader = Loader::new();
    loader.load_from_memory("ab\ncd\n\nef".to_owned(), "a".to_owned());
    let source = loader.get_file(0);
    assert_eq!(find_line_col(source, 0), (0, 0));
    assert_eq!(find_line_col(source, 1), (0, 1));
    assert_eq!(find_line_col(source, 3), (1, 0));
    assert_eq!(find_line_col(source, 4), (1, 1));
    assert_eq!(find_line_col(source, 6), (2, 0));
    assert_eq!(find_line_col(source, 7), (3, 0));
    assert_eq!(find_line_col(source, 9), (3, 2));
    assert_eq!(find_line_col(source, 100), (3, 2));
    assert_eq!(lines(source), 3);
}

#[test]
fn columns_count_characters_not_bytes() {
    let mut loader = Loader::new();
    loader.load_from_memory("\u{e9}\u{e9}x".to_owned(), "a".to_owned());
    assert_eq!(find_line_col(loader.get_file(0), 4), (0, 2));
}

#[test]
fn ranges_that_overlap_are_fused() {
    let groups = fuse(&[(0, 0, 5), (0, 10, 12), (0, 4, 8), (1, 0, 5), (0, 7, 11)]);
    assert_eq!(
        groups,
        vec![(0, 0, 11, vec![0, 2, 4]), (0, 10, 12, vec![1]), (1, 0, 5, vec![3])]
    );
    assert_eq!(fuse(&[]), vec![]);
    assert_eq!(fuse(&[(0, 0, 5), (0, 5, 6)]), vec![(0, 0, 5, vec![0]), (0, 5, 6, vec![1])]);
}

#[test]
fn errors_collect_their_notes() {
    let mut error = Error::new("message".to_owned(), E0001.0, Severity::Warning);
    assert!(error.spans.is_empty());
    assert!(error.pieces.is_empty());
    error
        .push("first".to_owned(), Span::new(0, 1, 2))
        .push(None, Span::new(0, 3, 4));
    assert_eq!(error.message, "message");
    assert_eq!(error.code, "E0001");
    assert_eq!(error.severity, Severity::Warning);
    assert_eq!(error.pieces, vec![Some("first".to_owned()), None]);
    assert_eq!(error.spans, vec![Span::new(0, 1, 2), Span::new(0, 3, 4)]);
    assert!(!error.fatal());
    assert!(Error::new(String::new(), E0014.0, Severity::FatalError).fatal());
}

#[test]
fn constructors_with_notes() {
    let one = Error::with_note(
        "m".to_owned(),
        E0001.0,
        Severity::Error,
        Some("label"),
        Span::new(0, 1, 2),
    );
    assert_eq!(one.pieces, vec![Some("label".to_owned())]);
    assert_eq!(one.spans, vec![Span::new(0, 1, 2)]);
    let two = Error::with_notes(
        "m".to_owned(),
        E0001.0,
        Severity::Info,
        (None, Span::new(0, 1, 2)),
        (Some("b"), Span::new(0, 3, 4)),
    );
    assert_eq!(two.pieces, vec![None, Some("b".to_owned())]);
    assert_eq!(two.spans, vec![Span::new(0, 1, 2), Span::new(0, 3, 4)]);
    assert_eq!(two.severity, Severity::Info);
}

#[test]
fn a_diagnostic_reads_as_text() {
    let mut loader = Loader::new();
    loader.load_from_memory("let x = 0x;\nshow x".to_owned(), "demo".to_owned());
    let (_, status) = lex(loader.get_file(0));
    let errors = status.unwrap_err();
    assert_eq!(
        print_error(&errors[0], &loader),
        "\x1B[31merror (E0003):\x1B[0m empty literal: digits must follow the prefix\n\
         \x1B[34mhere\x1B[0m\n\
         --> \x1B[34mdemo\x1B[0m:\x1B[34m1\x1B[0m:\x1B[34m9\x1B[0m\n\
         \x20x = \x1B[36m0x\x1B[0m;\nsho\n"
    );
    let second = Error::with_note(
        "look".to_owned(),
        E0014.0,
        Severity::Info,
        Some("this one"),
        Span::new(0, 12, 16),
    );
    assert_eq!(
        print_error(&second, &loader),
        "\x1B[36minfo (E0014):\x1B[0m look\n\x1B[34mthis one\x1B[0m\n\
         --> \x1B[34mdemo\x1B[0m:\x1B[34m2\x1B[0m:\x1B[34m1\x1B[0m\n\
         \x200x;\n\x1B[36mshow\x1B[0m x\n"
    );
}

#[test]
fn tokens_are_listed_as_notes() {
    let mut loader = Loader::new();
    loader.load_from_memory("let x = 1".to_owned(), "demo".to_owned());
    let (tokens, _) = lex(loader.get_file(0));
    let listing = print_tokens(&tokens);
    assert_eq!(listing.code, "debug");
    assert_eq!(listing.severity, Severity::Info);
    assert_eq!(listing.spans.len(), 4);
    assert_eq!(listing.spans[1], Span::new(0, 4, 5));
    assert_eq!(
        listing.pieces,
        vec![
            Some("'let'".to_owned()),
            Some("<identifier>".to_owned()),
            Some("'='".to_owned()),
            Some("<int literal>".to_owned()),
        ]
    );
}

#[test]
fn tokens_are_named_for_diagnostics() {
    assert_eq!(TokenType::Let.name_for_errors(), "'let'");
    assert_eq!(TokenType::ExpEq.name_for_errors(), "'**='");
    assert_eq!(TokenType::Ret.name_for_errors(), "'->'");
    assert_eq!(TokenType::LCBrace.name_for_errors(), "'{'");
    assert_eq!(TokenType::Ident("x".to_owned()).name_for_errors(), "<identifier>");
    assert_eq!(TokenType::BLiteral(true).name_for_errors(), "<boolean literal>");
    assert_eq!(TokenType::Compound.name_for_errors(), "'compound'");
}

#[test]
fn notes_are_added_behind_the_others() {
    let mut error = Error::new("m".to_owned(), E0001.0, Severity::Warning);
    error.push(Some("first".to_owned()), Span::new(0, 1, 2));
    error.push(None, Span::new(0, 3, 4));
    error.push_label(Some("third".to_owned()), Span::new(1, 5, 6));
    error.push_label(None, Span::new(1, 7, 8)).push(Some("fifth".to_owned()), Span::new(2, 0, 0));
    assert_eq!(
        error.pieces,
        vec![Some("first".to_owned()), None, Some("third".to_owned()), None, Some("fifth".to_owned())]
    );
    assert_eq!(
        error.spans,
        vec![
            Span::new(0, 1, 2),
            Span::new(0, 3, 4),
            Span::new(1, 5, 6),
            Span::new(1, 7, 8),
            Span::new(2, 0, 0)
        ]
    );
    assert_eq!(error.message, "m");
    assert_eq!(error.code, "E0001");
    assert_eq!(error.severity, Severity::Warning);
}
