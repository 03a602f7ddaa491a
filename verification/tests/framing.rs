use eeeee::errors::{Error, Severity, E0003, E0014};
use eeeee::frame::framed_error;
use eeeee::lexer::lex;
use eeeee::loader::{Loader, Span};

#[test]
fn a_note_on_one_line_is_underlined() {
    let mut loader = Loader::new();
    loader.load_from_memory("let x = 0x;\nshow x".to_owned(), "demo".to_owned());
    let (_, status) = lex(loader.get_file(0));
    let errors = status.unwrap_err();
    assert_eq!(errors[0].code, E0003.0);
    assert_eq!(errors[0].spans, vec![Span::new(0, 8, 10)]);
    assert_eq!(
        framed_error(&errors[0], &loader),
        "\x1B[31merror (E0003):\x1B[0m empty literal: digits must follow the prefix\n\
         \x1B[34m   1 | \x1B[0mlet x = 0x;\n\
         \x1B[34m     : \x1B[0m        \x1B[36m^^ here\x1B[0m\n\
         \x1B[34m   2 | \x1B[0mshow x\n"
    );
}

#[test]
fn a_note_over_several_lines_is_bracketed() {
    let mut loader = Loader::new();
    loader.load_from_memory("fn f() {\n  1\n}\nf()".to_owned(), "demo".to_owned());
    let error = Error::with_notes(
        "m".to_owned(),
        E0014.0,
        Severity::Warning,
        (Some("body"), Span::new(0, 7, 14)),
        (Some("called here"), Span::new(0, 15, 16)),
    );
    assert_eq!(
        framed_error(&error, &loader),
        "\x1B[33mwarning (E0014):\x1B[0m m\n\
         \x1B[34m     : \x1B[0m      \x1B[36mv-\\\x1B[0m\n\
         \x1B[34m   1 | \x1B[0mfn f() {\x1B[36m|\x1B[0m\n\
         \x1B[34m   2 | \x1B[0m  1     \x1B[36m|\x1B[0m\n\
         \x1B[34m   3 | \x1B[0m}       \x1B[36m|\x1B[0m\n\
         \x1B[34m     : \x1B[0m        \x1B[36m|\x1B[0m\n\
         \x1B[34m     : \x1B[0m \x1B[36m^------/\x1B[0m\n\
         \x1B[34m   4 | \x1B[0mf()\n\
         \x1B[34m     : \x1B[0m\x1B[36m^ called here\x1B[0m\n"
    );
}

fn sixty_lines() -> String {
    let mut text = String::new();
    for i in 0..60 {
        text.push_str(&format!("line {}\n", i));
    }
    text
}

#[test]
fn notes_far_apart_are_shown_apart() {
    let mut loader = Loader::new();
    loader.load_from_memory(sixty_lines(), "demo".to_owned());
    let error = Error::with_notes(
        "two places".to_owned(),
        E0014.0,
        Severity::Info,
        (None, Span::new(0, 422, 426)),
        (Some("and here"), Span::new(0, 19, 20)),
    );
    assert_eq!(
        framed_error(&error, &loader),
        "\x1B[36minfo (E0014):\x1B[0m two places\n\
         \x1B[34m   53 | \x1B[0mline 52\n\
         \x1B[34m   54 | \x1B[0mline 53\n\
         \x1B[34m   55 | \x1B[0mline 54\n\
         \x1B[34m      : \x1B[0m\x1B[36m^--^ here\x1B[0m\n\
         \x1B[34m   56 | \x1B[0mline 55\n\
         \x1B[34m   57 | \x1B[0mline 56\n\
         \x1B[34m   1 | \x1B[0mline 0\n\
         \x1B[34m   2 | \x1B[0mline 1\n\
         \x1B[34m   3 | \x1B[0mline 2\n\
         \x1B[34m     : \x1B[0m     \x1B[36m^ and here\x1B[0m\n\
         \x1B[34m   4 | \x1B[0mline 3\n\
         \x1B[34m   5 | \x1B[0mline 4\n"
    );
}

#[test]
fn the_column_of_numbers_widens_with_the_lines() {
    let mut loader = Loader::new();
    loader.load_from_memory(sixty_lines(), "demo".to_owned());
    let error = Error::with_note(
        String::new(),
        E0014.0,
        Severity::FatalError,
        Some("x"),
        Span::new(0, 390, 391),
    );
    assert_eq!(
        framed_error(&error, &loader),
        "\x1B[31mfatal error (E0014):\x1B[0m \n\
         \x1B[34m  49 | \x1B[0mline 48\n\
         \x1B[34m  50 | \x1B[0mline 49\n\
         \x1B[34m  51 | \x1B[0mline 50\n\
         \x1B[34m     : \x1B[0m\x1B[36m^ x\x1B[0m\n\
         \x1B[34m   52 | \x1B[0mline 51\n\
         \x1B[34m   53 | \x1B[0mline 52\n"
    );
}

#[test]
fn a_carriage_return_takes_no_room() {
    let mut loader = Loader::new();
    loader.load_from_memory("ab {\r\n}".to_owned(), "demo".to_owned());
    let error = Error::with_note(
        "m".to_owned(),
        E0014.0,
        Severity::Error,
        Some("block"),
        Span::new(0, 3, 7),
    );
    assert_eq!(
        framed_error(&error, &loader),
        "\x1B[31merror (E0014):\x1B[0m m\n\
         \x1B[34m     : \x1B[0m  \x1B[36mv-\\\x1B[0m\n\
         \x1B[34m   1 | \x1B[0mab {\r\x1B[36m|\x1B[0m\n\
         \x1B[34m   2 | \x1B[0m}   \x1B[36m|\x1B[0m\n\
         \x1B[34m     : \x1B[0m    \x1B[36m|\x1B[0m\n\
         \x1B[34m     : \x1B[0m \x1B[36m^--/\x1B[0m\n"
    );
}

#[test]
fn a_diagnostic_without_notes_is_its_heading() {
    let loader = Loader::new();
    let error = Error::new("nothing to show".to_owned(), E0014.0, Severity::Warning);
    assert_eq!(framed_error(&error, &loader), "\x1B[33mwarning (E0014):\x1B[0m nothing to show\n");
}
