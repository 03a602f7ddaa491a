use eeeee::errors::Severity;
use eeeee::lexer::lex;
use eeeee::loader::{Loader, Span};
use eeeee::tokens::{
    FLiteralTypeHint, ILiteralTypeHint, IntLiteralType, SLiteralTypeHint, Token, TokenType,
};

fn tokens_of(text: &str) -> (Vec<Token>, Vec<(String, Severity, Vec<Span>)>) {
    let mut loader = Loader::new();
    let index = loader.load_from_memory(text.to_owned(), "test".to_owned());
    let (tokens, status) = lex(loader.get_file(index));
    let errors = match status {
        Ok(()) => vec![],
        Err(errors) => errors
            .iter()
            .map(|e| (e.code.to_owned(), e.severity, e.spans.clone()))
            .collect(),
    };
    (tokens, errors)
}

fn kinds(text: &str) -> Vec<TokenType> {
    tokens_of(text).0.into_iter().map(|t| t.tt).collect()
}

fn integer(value: &str, kind: IntLiteralType, type_hint: ILiteralTypeHint) -> TokenType {
    TokenType::ILiteral { value: value.to_owned(), kind, type_hint }
}

fn dec(value: &str) -> TokenType {
    integer(value, IntLiteralType::Decimal, ILiteralTypeHint::NoHint)
}

fn ident(name: &str) -> TokenType {
    TokenType::Ident(name.to_owned())
}

fn text(value: &str) -> TokenType {
    TokenType::SLiteral { value: value.to_owned(), type_hint: SLiteralTypeHint::NoHint }
}

#[test]
fn lexes_a_let_statement() {
    assert_eq!(
        kinds("let x = 5; show x"),
        vec![
            TokenType::Let,
            ident("x"),
            TokenType::Eq,
            dec("5"),
            TokenType::Semicolon,
            TokenType::Show,
            ident("x"),
        ]
    );
}

#[test]
fn hexadecimal_literal_drops_underscores() {
    let (tokens, errors) = tokens_of("0xFF_FF");
    assert!(errors.is_empty());
    assert_eq!(tokens.len(), 1);
    assert_eq!(
        tokens[0].tt,
        integer("FFFF", IntLiteralType::Hexadecimal, ILiteralTypeHint::NoHint)
    );
    assert_eq!(tokens[0].span, Span { file: 0, start: 0, end: 7 });
}

#[test]
fn empty_hexadecimal_literal_is_reported_over_its_prefix() {
    let (tokens, errors) = tokens_of("0x");
    assert_eq!(errors.len(), 1);
    assert_eq!(errors[0].0, "E0003");
    assert_eq!(errors[0].1, Severity::Error);
    assert_eq!(errors[0].2, vec![Span { file: 0, start: 0, end: 2 }]);
    assert_eq!(
        tokens[0].tt,
        integer("0", IntLiteralType::Hexadecimal, ILiteralTypeHint::NoHint)
    );
}

#[test]
fn octal_and_binary_literals() {
    assert_eq!(
        kinds("0o17 0b1_01u8"),
        vec![
            integer("17", IntLiteralType::Octal, ILiteralTypeHint::NoHint),
            integer("101", IntLiteralType::Binary, ILiteralTypeHint::U8),
        ]
    );
}

#[test]
fn nested_block_comment_emits_no_token() {
    let (tokens, errors) = tokens_of("/* /* */ */");
    assert!(tokens.is_empty());
    assert!(errors.is_empty());
}

#[test]
fn nested_block_comment_ends_at_the_outer_close() {
    assert_eq!(kinds("/* a /* b */ c */ 7"), vec![dec("7")]);
}

#[test]
fn unclosed_comment_is_fatal_and_points_at_the_innermost_opening() {
    let (tokens, errors) = tokens_of("1 /* a /* b */");
    assert_eq!(tokens.len(), 1);
    assert_eq!(errors.len(), 1);
    assert_eq!(errors[0].0, "E0002");
    assert_eq!(errors[0].1, Severity::FatalError);
    assert_eq!(errors[0].2, vec![Span { file: 0, start: 2, end: 4 }]);
}

#[test]
fn line_comment_runs_to_the_end_of_the_line() {
    assert_eq!(kinds("1 // two\n3"), vec![dec("1"), dec("3")]);
}

#[test]
fn empty_unicode_escape_warns_and_gives_a_zero_char() {
    let (tokens, errors) = tokens_of("'\\u{}'");
    assert_eq!(errors.len(), 1);
    assert_eq!(errors[0].0, "E0008");
    assert_eq!(errors[0].1, Severity::Warning);
    assert_eq!(tokens.len(), 1);
    assert_eq!(tokens[0].tt, text("\0"));
}

#[test]
fn unicode_escape_gives_the_character() {
    assert_eq!(kinds("'\\u{41}\\u{20AC}'"), vec![text("A\u{20AC}")]);
}

#[test]
fn surrogate_unicode_escape_is_invalid() {
    let (tokens, errors) = tokens_of("'\\u{D800}'");
    assert_eq!(errors.len(), 1);
    assert_eq!(errors[0].0, "E0008");
    assert_eq!(errors[0].1, Severity::Error);
    assert_eq!(tokens[0].tt, text("\0"));
}

#[test]
fn hex_escape_takes_two_digits() {
    assert_eq!(kinds("'\\x41\\x7a'"), vec![text("Az")]);
}

#[test]
fn simple_escapes() {
    assert_eq!(kinds("'a\\n\\t\\r\\0\\\\'"), vec![text("a\n\t\r\0\\")]);
}

#[test]
fn an_escaped_quote_stands_for_a_quote() {
    let (tokens, errors) = tokens_of("'it\\'s'");
    assert!(errors.is_empty());
    assert_eq!(tokens.len(), 1);
    assert_eq!(tokens[0].tt, text("it's"));
    assert_eq!(kinds("'\\''"), vec![text("'")]);
}

#[test]
fn unknown_escape_is_reported_and_the_character_kept() {
    let (tokens, errors) = tokens_of("'\\q'");
    assert_eq!(errors.len(), 1);
    assert_eq!(errors[0].0, "E0005");
    assert_eq!(errors[0].1, Severity::Error);
    assert_eq!(tokens[0].tt, text("q"));
}

#[test]
fn unterminated_string_is_fatal() {
    let (tokens, errors) = tokens_of("1 'abc");
    assert_eq!(tokens.len(), 1);
    assert_eq!(errors.len(), 1);
    assert_eq!(errors[0].0, "E0004");
    assert_eq!(errors[0].1, Severity::FatalError);
    assert_eq!(errors[0].2, vec![Span { file: 0, start: 2, end: 3 }]);
}

#[test]
fn string_hints() {
    assert_eq!(
        kinds("'a'char 'b'_str"),
        vec![
            TokenType::SLiteral { value: "a".to_owned(), type_hint: SLiteralTypeHint::Char },
            TokenType::SLiteral { value: "b".to_owned(), type_hint: SLiteralTypeHint::Str },
        ]
    );
}

#[test]
fn underscore_without_hint_after_string_is_reported() {
    let (tokens, errors) = tokens_of("'a'_");
    assert_eq!(errors.len(), 1);
    assert_eq!(errors[0].0, "E0010");
    assert_eq!(tokens.len(), 2);
    assert_eq!(tokens[0].tt, text("a"));
    assert_eq!(tokens[1].tt, ident("_"));
}

#[test]
fn fractional_literal_and_trailing_dot() {
    assert_eq!(
        kinds("42.5 7.x 1.5f32"),
        vec![
            TokenType::FLiteral { value: "42.5".to_owned(), type_hint: FLiteralTypeHint::NoHint },
            dec("7"),
            TokenType::Dot,
            ident("x"),
            TokenType::FLiteral { value: "1.5".to_owned(), type_hint: FLiteralTypeHint::F32 },
        ]
    );
}

#[test]
fn invalid_type_hint_is_reported() {
    let (tokens, errors) = tokens_of("12abc");
    assert_eq!(errors.len(), 1);
    assert_eq!(errors[0].0, "E0009");
    assert_eq!(errors[0].1, Severity::Error);
    assert_eq!(tokens[0].tt, dec("12"));
}

#[test]
fn operators_take_the_longest_match() {
    assert_eq!(
        kinds("**= ** *= * -> -= - += + != ! /= / == = <= < >= >"),
        vec![
            TokenType::ExpEq,
            TokenType::Exp,
            TokenType::StarEq,
            TokenType::Star,
            TokenType::Ret,
            TokenType::MinusEq,
            TokenType::Minus,
            TokenType::PlusEq,
            TokenType::Plus,
            TokenType::Neq,
            TokenType::Not,
            TokenType::SlashEq,
            TokenType::Slash,
            TokenType::EqEq,
            TokenType::Eq,
            TokenType::Leq,
            TokenType::Lt,
            TokenType::Geq,
            TokenType::Gt,
        ]
    );
}

#[test]
fn power_operator_leaves_its_operand() {
    assert_eq!(kinds("2**3"), vec![dec("2"), TokenType::Exp, dec("3")]);
}

#[test]
fn keywords_and_booleans() {
    assert_eq!(
        kinds("if else fn while loop module include true false break continue"),
        vec![
            TokenType::If,
            TokenType::Else,
            TokenType::Fn,
            TokenType::While,
            TokenType::Loop,
            TokenType::Module,
            TokenType::Include,
            TokenType::BLiteral(true),
            TokenType::BLiteral(false),
            TokenType::Break,
            TokenType::Continue,
        ]
    );
}

#[test]
fn identifiers_follow_unicode_rules() {
    assert_eq!(kinds("_a1 \u{e9}t\u{e9}"), vec![ident("_a1"), ident("\u{e9}t\u{e9}")]);
}

#[test]
fn unrecognized_character_is_reported_and_skipped() {
    let (tokens, errors) = tokens_of("1 # 2");
    assert_eq!(tokens.len(), 2);
    assert_eq!(errors.len(), 1);
    assert_eq!(errors[0].0, "E0001");
    assert_eq!(errors[0].2, vec![Span { file: 0, start: 2, end: 3 }]);
}

#[test]
fn spans_are_byte_offsets() {
    let (tokens, errors) = tokens_of("'\u{e9}' x");
    assert!(errors.is_empty());
    assert_eq!(tokens[0].span, Span { file: 0, start: 0, end: 4 });
    assert_eq!(tokens[1].span, Span { file: 0, start: 5, end: 6 });
}

#[test]
fn unicode_white_space_is_skipped() {
    assert_eq!(kinds("1\u{2028}2\u{0085}3"), vec![dec("1"), dec("2"), dec("3")]);
}

fn messages_of(text: &str) -> Vec<(String, Vec<Option<String>>)> {
    let mut loader = Loader::new();
    let index = loader.load_from_memory(text.to_owned(), "test".to_owned());
    match lex(loader.get_file(index)).1 {
        Ok(()) => vec![],
        Err(errors) => errors.into_iter().map(|e| (e.message, e.pieces)).collect(),
    }
}

#[test]
fn diagnostics_say_what_is_wrong() {
    assert_eq!(
        messages_of("0x"),
        vec![("empty literal: digits must follow the prefix".to_owned(), vec![None])]
    );
    assert_eq!(
        messages_of("12abc"),
        vec![(
            "abc is not a valid type hint for {integer} (valid ones are u8, i8, u16, i16, u32, i32, u64, i64)"
                .to_owned(),
            vec![None]
        )]
    );
    assert_eq!(
        messages_of("1.5x"),
        vec![("x is not a valid type hint for {float} (valid ones are f32, f64)".to_owned(), vec![None])]
    );
    assert_eq!(
        messages_of("'a'b"),
        vec![(
            "b is not a valid type hint for {string-like} (valid ones are char, str)".to_owned(),
            vec![None]
        )]
    );
    assert_eq!(messages_of("#"), vec![("unrecognized character: #".to_owned(), vec![None])]);
    assert_eq!(
        messages_of("\""),
        vec![(
            "unrecognized character: \" (note: use single quotes for string or char literals)"
                .to_owned(),
            vec![None]
        )]
    );
    assert_eq!(messages_of("/*"), vec![("unmatched /*".to_owned(), vec![None])]);
    assert_eq!(
        messages_of("'abc"),
        vec![(
            "expected a closing single quote, got <EOF>".to_owned(),
            vec![Some("opening quote was here".to_owned())]
        )]
    );
    assert_eq!(
        messages_of("'\\"),
        vec![(
            "expected a character after \\, got EOF".to_owned(),
            vec![None, Some("unterminated string started here".to_owned())]
        )]
    );
    assert_eq!(
        messages_of("'\\q'"),
        vec![("unknown backslash escape: q".to_owned(), vec![None])]
    );
    assert_eq!(
        messages_of("'\\xg1'"),
        vec![("expected a hexadecimal digit, got g".to_owned(), vec![None])]
    );
    assert_eq!(
        messages_of("'\\x"),
        vec![("expected an hexadecimal digit, got <EOF>".to_owned(), vec![None])]
    );
    assert_eq!(
        messages_of("'\\ua'"),
        vec![("expected { after \\u, got a".to_owned(), vec![None])]
    );
    assert_eq!(
        messages_of("'\\u{}'"),
        vec![(
            "\\u Unicode escapes should contain at least 1 hexadecimal digit".to_owned(),
            vec![None]
        )]
    );
    assert_eq!(
        messages_of("'\\u{1g}'"),
        vec![("invalid character in escape sequence: g".to_owned(), vec![None])]
    );
    assert_eq!(
        messages_of("'\\u{110000}'"),
        vec![("invalid escape sequence".to_owned(), vec![None])]
    );
    assert_eq!(
        messages_of("'a'_"),
        vec![("unexpected identifier '_' after {string-like}".to_owned(), vec![None])]
    );
}

#[test]
fn a_character_that_starts_no_identifier_is_unrecognized() {
    let (tokens, errors) = tokens_of("a \u{25b3} b");
    assert_eq!(tokens.len(), 2);
    assert_eq!(errors.len(), 1);
    assert_eq!(errors[0].0, "E0001");
    assert_eq!(errors[0].2, vec![Span { file: 0, start: 2, end: 5 }]);
}

#[test]
fn digits_continue_an_identifier_but_do_not_start_one() {
    assert_eq!(kinds("a1 1a"), vec![ident("a1"), dec("1")]);
    let (_, errors) = tokens_of("a1 1a");
    assert_eq!(errors.len(), 1);
    assert_eq!(errors[0].0, "E0009");
}

#[test]
fn long_unicode_escapes_are_invalid_not_wrapped() {
    let (tokens, errors) = tokens_of("'\\u{100000041}'");
    assert_eq!(errors.len(), 1);
    assert_eq!(errors[0].0, "E0008");
    assert_eq!(tokens[0].tt, text("\0"));
}

#[test]
fn tokens_follow_one_another() {
    let (tokens, _) = tokens_of("let x = f(1, 'a'_) ** 2.5; /* c */ x");
    for pair in tokens.windows(2) {
        assert!(pair[0].span.start < pair[0].span.end);
        assert!(pair[0].span.end <= pair[1].span.start);
    }
}
