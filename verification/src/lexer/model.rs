//! What the lexer computes, as functions on the characters of a source.
//!
//! Positions are indices of characters; spans hold the byte offsets of
//! those positions.

use vstd::prelude::*;
use crate::errors::{
    ErrorView, Severity, E0001, E0002, E0003, E0004, E0005, E0006, E0007, E0008, E0009, E0010,
};
use crate::loader::Span;
use crate::text::byte_offset;
use crate::tokens::{
    FLiteralTypeHint, ILiteralTypeHint, IntLiteralType, SLiteralTypeHint, TokenTypeView, TokenView,
};
use crate::unicode::{xid_continue, xid_start};

verus! {

/// What lexing yields: the tokens read, and the diagnostics raised.
pub struct Lexed {
    pub tokens: Seq<TokenView>,
    pub errors: Seq<ErrorView>,
}

/// What reading at one position yields: at most one token, the diagnostics
/// raised, the position to go on from, and whether lexing stops there.
pub struct Scan {
    pub token: Option<TokenView>,
    pub errors: Seq<ErrorView>,
    pub next: int,
    pub fatal: bool,
}

/// A run of characters that the lexer reads as one piece.
pub enum Class {
    Hex,
    Dec,
    Oct,
    Bin,
    Hint,
    Word,
}

pub open spec fn is_dec(c: char) -> bool {
    '0' <= c && c <= '9'
}

pub open spec fn is_hex(c: char) -> bool {
    is_dec(c) || ('a' <= c && c <= 'f') || ('A' <= c && c <= 'F')
}

/// Whether `c` is white space: an ASCII blank or line break, or one of the
/// Unicode separators and marks that count as such.
pub open spec fn is_space(c: char) -> bool {
    c == ' ' || c == '\n' || c == '\t' || c == '\r' || c == '\u{000B}' || c == '\u{000C}' || c
        == '\u{0085}' || c == '\u{200E}' || c == '\u{200F}' || c == '\u{2028}' || c == '\u{2029}'
}

/// Whether `c` goes on a run of the class. Digits of every base may be
/// separated by underscores.
pub open spec fn accepts(class: Class, c: char) -> bool {
    match class {
        Class::Hex => is_hex(c) || c == '_',
        Class::Dec => is_dec(c) || c == '_',
        Class::Oct => ('0' <= c && c <= '7') || c == '_',
        Class::Bin => c == '0' || c == '1' || c == '_',
        Class::Hint => ('a' <= c && c <= 'z') || is_dec(c),
        Class::Word => xid_continue(c),
    }
}

/// Number of characters at and after position `i`.
pub open spec fn left(text: Seq<char>, i: int) -> nat {
    if 0 <= i < text.len() {
        (text.len() - i) as nat
    } else {
        0
    }
}

/// The character at position `i`, if the text reaches that far.
pub open spec fn at(text: Seq<char>, i: int) -> Option<char> {
    if 0 <= i < text.len() {
        Some(text[i])
    } else {
        None
    }
}

/// End of the longest run of the class from position `from`.
pub open spec fn run_end(text: Seq<char>, from: int, class: Class) -> int
    decreases text.len() - from,
{
    if from < 0 || from >= text.len() || !accepts(class, text[from]) {
        from
    } else {
        run_end(text, from + 1, class)
    }
}

/// The characters of `s` that are not underscores.
pub open spec fn compact(s: Seq<char>) -> Seq<char>
    decreases s.len(),
{
    if s.len() == 0 {
        Seq::empty()
    } else if s.last() == '_' {
        compact(s.drop_last())
    } else {
        compact(s.drop_last()).push(s.last())
    }
}

/// Value of a hexadecimal digit.
pub open spec fn hex_value(c: char) -> nat {
    if is_dec(c) {
        (c as u32 - '0' as u32) as nat
    } else if 'a' <= c && c <= 'f' {
        (c as u32 - 'a' as u32 + 10) as nat
    } else {
        (c as u32 - 'A' as u32 + 10) as nat
    }
}

/// The span between the character positions `a` and `b`.
pub open spec fn span_of(text: Seq<char>, file: usize, a: int, b: int) -> Span {
    Span { file, start: byte_offset(text, a) as u32, end: byte_offset(text, b) as u32 }
}

/// A diagnostic with the message `message` and one note without a label,
/// between the positions `a` and `b`.
pub open spec fn raised(
    message: Seq<char>,
    code: Seq<char>,
    severity: Severity,
    text: Seq<char>,
    file: usize,
    a: int,
    b: int,
) -> ErrorView {
    ErrorView { message, code, severity, labels: seq![None], spans: seq![span_of(text, file, a, b)] }
}

/// The width hint that `word` names after an integer literal; `None` when
/// it names none. The empty word is the absence of a hint.
pub open spec fn integer_hint(word: Seq<char>) -> Option<ILiteralTypeHint> {
    if word.len() == 0 {
        Some(ILiteralTypeHint::NoHint)
    } else if word == "u8"@ {
        Some(ILiteralTypeHint::U8)
    } else if word == "i8"@ {
        Some(ILiteralTypeHint::I8)
    } else if word == "u16"@ {
        Some(ILiteralTypeHint::U16)
    } else if word == "i16"@ {
        Some(ILiteralTypeHint::I16)
    } else if word == "u32"@ {
        Some(ILiteralTypeHint::U32)
    } else if word == "i32"@ {
        Some(ILiteralTypeHint::I32)
    } else if word == "u64"@ {
        Some(ILiteralTypeHint::U64)
    } else if word == "i64"@ {
        Some(ILiteralTypeHint::I64)
    } else {
        None
    }
}

/// The width hint that `word` names after a literal with a fractional part.
pub open spec fn fractional_hint(word: Seq<char>) -> Option<FLiteralTypeHint> {
    if word.len() == 0 {
        Some(FLiteralTypeHint::NoHint)
    } else if word == "f32"@ {
        Some(FLiteralTypeHint::F32)
    } else if word == "f64"@ {
        Some(FLiteralTypeHint::F64)
    } else {
        None
    }
}

/// The hint that `word` names after a string-like literal.
pub open spec fn text_hint(word: Seq<char>) -> Option<SLiteralTypeHint> {
    if word.len() == 0 {
        Some(SLiteralTypeHint::NoHint)
    } else if word == "char"@ {
        Some(SLiteralTypeHint::Char)
    } else if word == "str"@ {
        Some(SLiteralTypeHint::Str)
    } else {
        None
    }
}

/// The diagnostics for the hint word between `from` and `to`: none when the
/// word is valid, one otherwise.
pub open spec fn hint_errors(
    valid: bool,
    text: Seq<char>,
    file: usize,
    from: int,
    to: int,
    kind: Seq<char>,
    names: Seq<char>,
) -> Seq<ErrorView> {
    if valid {
        Seq::empty()
    } else {
        seq![
            raised(
                hint_message(text.subrange(from, to), kind, names),
                E0009.0@,
                Severity::Error,
                text,
                file,
                from,
                to - 1,
            ),
        ]
    }
}

/// What is said of a hint word that names no hint of the kind of literal
/// `kind`, whose hints are `names`.
pub open spec fn hint_message(word: Seq<char>, kind: Seq<char>, names: Seq<char>) -> Seq<char> {
    word + " is not a valid type hint for {"@ + kind + "} (valid ones are "@ + names + ")"@
}

/// The names of the hints of integer literals.
pub open spec fn integer_hints() -> Seq<char> {
    "u8, i8, u16, i16, u32, i32, u64, i64"@
}

/// What is said where the text ends inside an escape.
pub open spec fn digit_missing() -> Seq<char> {
    "expected an hexadecimal digit, got <EOF>"@
}

/// What is said of a character that the language has no use for.
pub open spec fn unrecognized(c: char) -> Seq<char> {
    if c == '"' {
        "unrecognized character: "@.push(c)
            + " (note: use single quotes for string or char literals)"@
    } else {
        "unrecognized character: "@.push(c)
    }
}

/// The kind of token that an identifier-like word is: a keyword, a boolean
/// literal, or an identifier.
pub open spec fn word_kind(word: Seq<char>) -> TokenTypeView {
    if word == "let"@ {
        TokenTypeView::Let
    } else if word == "if"@ {
        TokenTypeView::If
    } else if word == "fn"@ {
        TokenTypeView::Fn
    } else if word == "return"@ {
        TokenTypeView::Return
    } else if word == "const"@ {
        TokenTypeView::Const
    } else if word == "else"@ {
        TokenTypeView::Else
    } else if word == "match"@ {
        TokenTypeView::Match
    } else if word == "type"@ {
        TokenTypeView::Type
    } else if word == "mut"@ {
        TokenTypeView::Mut
    } else if word == "continue"@ {
        TokenTypeView::Continue
    } else if word == "break"@ {
        TokenTypeView::Break
    } else if word == "loop"@ {
        TokenTypeView::Loop
    } else if word == "while"@ {
        TokenTypeView::While
    } else if word == "use"@ {
        TokenTypeView::Use
    } else if word == "as"@ {
        TokenTypeView::As
    } else if word == "true"@ {
        TokenTypeView::BLiteral(true)
    } else if word == "false"@ {
        TokenTypeView::BLiteral(false)
    } else if word == "show"@ {
        TokenTypeView::Show
    } else if word == "panic"@ {
        TokenTypeView::Panic
    } else if word == "module"@ {
        TokenTypeView::Module
    } else if word == "include"@ {
        TokenTypeView::Include
    } else if word == "enum"@ {
        TokenTypeView::Enum
    } else if word == "struct"@ {
        TokenTypeView::Struct
    } else if word == "compound"@ {
        TokenTypeView::Compound
    } else {
        TokenTypeView::Ident(word)
    }
}

/// A token of kind `tt` between the positions `a` and `b`, with lexing to
/// go on at `b`.
pub open spec fn token(tt: TokenTypeView, text: Seq<char>, file: usize, a: int, b: int) -> Scan {
    Scan {
        token: Some(TokenView { span: span_of(text, file, a, b), tt }),
        errors: Seq::empty(),
        next: b,
        fatal: false,
    }
}

/// Nothing read up to position `next`.
pub open spec fn skipped(next: int) -> Scan {
    Scan { token: None, errors: Seq::empty(), next, fatal: false }
}

/// Lexing stops with the diagnostic `error`.
pub open spec fn stopped(error: ErrorView) -> Scan {
    Scan { token: None, errors: seq![error], next: 0, fatal: true }
}

/// Position just after the first line feed at or after `i`, or the end of
/// the text.
pub open spec fn after_line(text: Seq<char>, i: int) -> int
    decreases text.len() - i,
{
    if i < 0 || i >= text.len() {
        text.len() as int
    } else if text[i] == '\n' {
        i + 1
    } else {
        after_line(text, i + 1)
    }
}

/// How a block comment ends: after its closing `*/`, or not at all, with
/// the position of the innermost `/*` left open.
pub enum CommentEnd {
    Closed(int),
    Open(int),
}

/// The end of a block comment, read from position `i` with `opens` holding
/// the positions of the `/*` that are open, outermost first, and `prev` the
/// character read last. A `/*` inside the comment opens a nested one.
pub open spec fn comment_end(text: Seq<char>, i: int, prev: char, opens: Seq<int>) -> CommentEnd
    decreases text.len() - i,
{
    if i < 0 || i >= text.len() || opens.len() == 0 {
        CommentEnd::Open(
            if opens.len() == 0 {
                0
            } else {
                opens.last()
            },
        )
    } else if prev == '/' && text[i] == '*' {
        comment_end(text, i + 1, text[i], opens.push(i - 1))
    } else if prev == '*' && text[i] == '/' {
        if opens.len() == 1 {
            CommentEnd::Closed(i + 1)
        } else {
            comment_end(text, i + 1, text[i], opens.drop_last())
        }
    } else {
        comment_end(text, i + 1, text[i], opens)
    }
}

/// A literal in base sixteen, eight or two, whose prefix is at `n`.
pub open spec fn base_literal(
    text: Seq<char>,
    file: usize,
    n: int,
    kind: IntLiteralType,
    class: Class,
) -> Scan {
    let d_end = run_end(text, n + 2, class);
    let digits = compact(text.subrange(n + 2, d_end));
    let h_end = run_end(text, d_end, Class::Hint);
    let hint = integer_hint(text.subrange(d_end, h_end));
    Scan {
        token: Some(
            TokenView {
                span: span_of(text, file, n, h_end),
                tt: TokenTypeView::ILiteral {
                    value: if digits.len() == 0 {
                        seq!['0']
                    } else {
                        digits
                    },
                    kind,
                    type_hint: if hint is Some {
                        hint->0
                    } else {
                        ILiteralTypeHint::NoHint
                    },
                },
            },
        ),
        errors: (if digits.len() == 0 {
            seq![raised(
                "empty literal: digits must follow the prefix"@,
                E0003.0@,
                Severity::Error,
                text,
                file,
                n,
                d_end,
            )]
        } else {
            Seq::empty()
        }) + hint_errors(
            hint is Some,
            text,
            file,
            d_end,
            h_end,
            "integer"@,
            integer_hints(),
        ),
        next: h_end,
        fatal: false,
    }
}

/// A decimal literal whose first digit is at `n`: an integer, or a number
/// with a fractional part when a dot and a digit follow the digits.
pub open spec fn decimal_literal(text: Seq<char>, file: usize, n: int) -> Scan {
    let d_end = run_end(text, n + 1, Class::Dec);
    let whole = compact(text.subrange(n, d_end));
    if at(text, d_end) == Some('.') && at(text, d_end + 1) is Some && is_dec(text[d_end + 1]) {
        let f_end = run_end(text, d_end + 1, Class::Dec);
        let h_end = run_end(text, f_end, Class::Hint);
        let hint = fractional_hint(text.subrange(f_end, h_end));
        Scan {
            token: Some(
                TokenView {
                    span: span_of(text, file, n, h_end),
                    tt: TokenTypeView::FLiteral {
                        value: whole.push('.') + compact(text.subrange(d_end + 1, f_end)),
                        type_hint: if hint is Some {
                            hint->0
                        } else {
                            FLiteralTypeHint::NoHint
                        },
                    },
                },
            ),
            errors: hint_errors(
                hint is Some,
                text,
                file,
                f_end,
                h_end,
                "float"@,
                "f32, f64"@,
            ),
            next: h_end,
            fatal: false,
        }
    } else {
        let h_end = run_end(text, d_end, Class::Hint);
        let hint = integer_hint(text.subrange(d_end, h_end));
        Scan {
            token: Some(
                TokenView {
                    span: span_of(text, file, n, h_end),
                    tt: TokenTypeView::ILiteral {
                        value: whole,
                        kind: IntLiteralType::Decimal,
                        type_hint: if hint is Some {
                            hint->0
                        } else {
                            ILiteralTypeHint::NoHint
                        },
                    },
                },
            ),
            errors: hint_errors(
            hint is Some,
            text,
            file,
            d_end,
            h_end,
            "integer"@,
            integer_hints(),
        ),
            next: h_end,
            fatal: false,
        }
    }
}

/// What one escape sequence yields: the character it stands for, if any,
/// the diagnostics raised, the position to go on from, and whether lexing
/// stops there.
pub struct Escape {
    pub produced: Option<char>,
    pub errors: Seq<ErrorView>,
    pub next: int,
    pub fatal: bool,
}

/// The largest value that is kept of the digits of a `\u` escape: one more
/// than the last Unicode scalar value.
pub open spec fn cap(value: nat) -> nat {
    if value > 0x110000 {
        0x110000
    } else {
        value
    }
}

/// What the digits of a `\u{..}` escape yield, read from position `i`.
pub struct Digits {
    pub value: nat,
    pub count: nat,
    pub errors: Seq<ErrorView>,
    pub end: int,
    pub fatal: bool,
}

/// The digits of a `\u{..}` escape from position `i`, up to the closing
/// brace: their value in base sixteen, capped, and how many characters
/// were read. A character that is no digit raises a diagnostic and counts.
pub open spec fn unicode_digits(
    text: Seq<char>,
    file: usize,
    i: int,
    value: nat,
    count: nat,
) -> Digits
    decreases text.len() - i,
{
    if i < 0 || i >= text.len() {
        Digits {
            value,
            count,
            errors: seq![raised(digit_missing(), E0008.0@, Severity::FatalError, text, file, i - 1, i)],
            end: i,
            fatal: true,
        }
    } else if text[i] == '}' {
        Digits { value, count, errors: Seq::empty(), end: i, fatal: false }
    } else if is_hex(text[i]) {
        unicode_digits(text, file, i + 1, cap(value * 16 + hex_value(text[i])), count + 1)
    } else {
        let rest = unicode_digits(text, file, i + 1, value, count + 1);
        Digits {
            errors: seq![raised(
                    "invalid character in escape sequence: "@.push(text[i]),
                    E0008.0@,
                    Severity::Error,
                    text,
                    file,
                    i,
                    i + 1,
                )] + rest.errors,
            ..rest
        }
    }
}

/// Whether `value` is the code of a character.
pub open spec fn is_char_code(value: nat) -> bool {
    value <= 0xD7FF || (0xE000 <= value && value <= 0x10FFFF)
}

/// The escape `\x..`, with the `x` at position `j`: two hexadecimal digits.
pub open spec fn hex_escape(text: Seq<char>, file: usize, j: int) -> Escape {
    if at(text, j + 1) is None {
        Escape {
            produced: None,
            errors: seq![raised(digit_missing(), E0006.0@, Severity::FatalError, text, file, j, j + 1)],
            next: j + 1,
            fatal: true,
        }
    } else if !is_hex(text[j + 1]) {
        Escape {
            produced: Some('\0'),
            errors: seq![raised(
                    "expected a hexadecimal digit, got "@.push(text[j + 1]),
                    E0006.0@,
                    Severity::Error,
                    text,
                    file,
                    j + 1,
                    j + 2,
                )],
            next: j + 1,
            fatal: false,
        }
    } else if at(text, j + 2) is None {
        Escape {
            produced: None,
            errors: seq![raised(digit_missing(), E0006.0@, Severity::FatalError, text, file, j + 1, j + 2)],
            next: j + 2,
            fatal: true,
        }
    } else if !is_hex(text[j + 2]) {
        Escape {
            produced: Some('\0'),
            errors: seq![raised(
                    "expected a hexadecimal digit, got "@.push(text[j + 2]),
                    E0006.0@,
                    Severity::Error,
                    text,
                    file,
                    j + 2,
                    j + 3,
                )],
            next: j + 2,
            fatal: false,
        }
    } else {
        Escape {
            produced: Some(((hex_value(text[j + 1]) * 16 + hex_value(text[j + 2])) as u32) as char),
            errors: Seq::empty(),
            next: j + 3,
            fatal: false,
        }
    }
}

/// The escape `\u{..}`, with the `u` at position `j`.
pub open spec fn unicode_escape(text: Seq<char>, file: usize, j: int) -> Escape {
    if at(text, j + 1) is None {
        Escape {
            produced: None,
            errors: seq![raised(
                    "expected { after \\u, got <EOF>"@,
                    E0007.0@,
                    Severity::FatalError,
                    text,
                    file,
                    j,
                    j + 1,
                )],
            next: j + 1,
            fatal: true,
        }
    } else if text[j + 1] != '{' {
        Escape {
            produced: Some('\0'),
            errors: seq![raised(
                    "expected { after \\u, got "@.push(text[j + 1]),
                    E0007.0@,
                    Severity::Error,
                    text,
                    file,
                    j + 1,
                    j + 2,
                )],
            next: j + 2,
            fatal: false,
        }
    } else {
        let digits = unicode_digits(text, file, j + 2, 0, 0);
        if digits.fatal {
            Escape { produced: None, errors: digits.errors, next: j + 2, fatal: true }
        } else {
            let empty: Seq<ErrorView> = if digits.count == 0 {
                seq![raised(
                        "\\u Unicode escapes should contain at least 1 hexadecimal digit"@,
                        E0008.0@,
                        Severity::Warning,
                        text,
                        file,
                        j + 1,
                        digits.end,
                    )]
            } else {
                Seq::empty()
            };
            if is_char_code(digits.value) {
                Escape {
                    produced: Some((digits.value as u32) as char),
                    errors: digits.errors + empty,
                    next: digits.end + 1,
                    fatal: false,
                }
            } else {
                Escape {
                    produced: Some('\0'),
                    errors: digits.errors + empty + seq![
                        raised(
                            "invalid escape sequence"@,
                            E0008.0@,
                            Severity::Error,
                            text,
                            file,
                            j + 1,
                            digits.end - 1,
                        ),
                    ],
                    next: digits.end + 1,
                    fatal: false,
                }
            }
        }
    }
}

/// An escape that stands for one character.
pub open spec fn plain(c: char, next: int) -> Escape {
    Escape { produced: Some(c), errors: Seq::empty(), next, fatal: false }
}

/// The escape sequence whose backslash is at position `i`, inside the
/// string-like literal opened at `open`. After an unknown escape the
/// character that follows the backslash is read as it stands.
pub open spec fn escape(text: Seq<char>, file: usize, open: int, i: int) -> Escape {
    match at(text, i + 1) {
        None => Escape {
            produced: None,
            errors: seq![
                ErrorView {
                    message: "expected a character after \\, got EOF"@,
                    code: E0005.0@,
                    severity: Severity::FatalError,
                    labels: seq![None, Some("unterminated string started here"@)],
                    spans: seq![
                        span_of(text, file, i, i + 1),
                        span_of(text, file, open, open + 1),
                    ],
                },
            ],
            next: i + 1,
            fatal: true,
        },
        Some(c) => if c == '\\' {
            plain('\\', i + 2)
        } else if c == '0' {
            plain('\0', i + 2)
        } else if c == 'n' {
            plain('\n', i + 2)
        } else if c == 'r' {
            plain('\r', i + 2)
        } else if c == 't' {
            plain('\t', i + 2)
        } else if c == '\'' {
            plain('\'', i + 2)
        } else if c == 'x' {
            hex_escape(text, file, i + 1)
        } else if c == 'u' {
            unicode_escape(text, file, i + 1)
        } else {
            Escape {
                produced: None,
                errors: seq![raised(
                        "unknown backslash escape: "@.push(c),
                        E0005.0@,
                        Severity::Error,
                        text,
                        file,
                        i + 1,
                        i + 2,
                    )],
                next: i + 1,
                fatal: false,
            }
        },
    }
}

/// What the body of a string-like literal yields: its characters, the
/// diagnostics raised, the position of the closing quote, and whether
/// lexing stops inside it.
pub struct Body {
    pub contents: Seq<char>,
    pub errors: Seq<ErrorView>,
    pub close: int,
    pub fatal: bool,
}

/// The body of the string-like literal opened at `open`, read from
/// position `i` up to the closing quote.
pub open spec fn body(text: Seq<char>, file: usize, open: int, i: int) -> Body
    decreases left(text, i),
{
    if i < 0 || i >= text.len() {
        Body {
            contents: Seq::empty(),
            errors: seq![
                ErrorView {
                    message: "expected a closing single quote, got <EOF>"@,
                    code: E0004.0@,
                    severity: Severity::FatalError,
                    labels: seq![Some("opening quote was here"@)],
                    spans: seq![span_of(text, file, open, open + 1)],
                },
            ],
            close: i,
            fatal: true,
        }
    } else if text[i] == '\'' {
        Body { contents: Seq::empty(), errors: Seq::empty(), close: i, fatal: false }
    } else if text[i] == '\\' {
        let esc = escape(text, file, open, i);
        if esc.fatal || esc.next <= i {
            Body { contents: Seq::empty(), errors: esc.errors, close: i, fatal: true }
        } else {
            let rest = body(text, file, open, esc.next);
            Body {
                contents: (match esc.produced {
                    Some(c) => seq![c],
                    None => Seq::empty(),
                }) + rest.contents,
                errors: esc.errors + rest.errors,
                close: rest.close,
                fatal: rest.fatal,
            }
        }
    } else {
        let rest = body(text, file, open, i + 1);
        Body { contents: seq![text[i]] + rest.contents, ..rest }
    }
}

/// A string-like literal whose opening quote is at `n`. An underscore may
/// stand between the closing quote and the hint; one that no hint follows
/// raises a diagnostic and is left for the next token.
pub open spec fn string_literal(text: Seq<char>, file: usize, n: int) -> Scan {
    let read = body(text, file, n, n + 1);
    if read.fatal {
        Scan { token: None, errors: read.errors, next: 0, fatal: true }
    } else {
        let underscore = at(text, read.close + 1) == Some('_');
        let h_start = if underscore {
            read.close + 2
        } else {
            read.close + 1
        };
        let h_end = run_end(text, h_start, Class::Hint);
        let hint = text_hint(text.subrange(h_start, h_end));
        if underscore && h_end == h_start {
            Scan {
                token: Some(
                    TokenView {
                        span: span_of(text, file, n, read.close + 1),
                        tt: TokenTypeView::SLiteral {
                            value: read.contents,
                            type_hint: SLiteralTypeHint::NoHint,
                        },
                    },
                ),
                errors: read.errors.push(
                    raised(
                        "unexpected identifier '_' after {string-like}"@,
                        E0010.0@,
                        Severity::Error,
                        text,
                        file,
                        read.close + 1,
                        read.close + 2,
                    ),
                ),
                next: read.close + 1,
                fatal: false,
            }
        } else {
            Scan {
                token: Some(
                    TokenView {
                        span: span_of(text, file, n, h_end),
                        tt: TokenTypeView::SLiteral {
                            value: read.contents,
                            type_hint: if hint is Some {
                                hint->0
                            } else {
                                SLiteralTypeHint::NoHint
                            },
                        },
                    },
                ),
                errors: read.errors + hint_errors(
                    hint is Some,
                    text,
                    file,
                    h_start,
                    h_end,
                    "string-like"@,
                    "char, str"@,
                ),
                next: h_end,
                fatal: false,
            }
        }
    }
}

/// The kind of the punctuation or operator that starts with `c`, given the
/// two characters after it, with the number of characters it takes. The
/// longest operator wins.
pub open spec fn operator(c: char, second: Option<char>, third: Option<char>) -> Option<
    (TokenTypeView, int),
> {
    if c == '(' {
        Some((TokenTypeView::LParen, 1))
    } else if c == ')' {
        Some((TokenTypeView::RParen, 1))
    } else if c == '[' {
        Some((TokenTypeView::LBracket, 1))
    } else if c == ']' {
        Some((TokenTypeView::RBracket, 1))
    } else if c == '{' {
        Some((TokenTypeView::LCBrace, 1))
    } else if c == '}' {
        Some((TokenTypeView::RCBrace, 1))
    } else if c == ';' {
        Some((TokenTypeView::Semicolon, 1))
    } else if c == '.' {
        Some((TokenTypeView::Dot, 1))
    } else if c == ':' {
        Some((TokenTypeView::Colon, 1))
    } else if c == ',' {
        Some((TokenTypeView::Comma, 1))
    } else if c == '\u{2192}' {
        Some((TokenTypeView::Ret, 1))
    } else if c == '-' {
        if second == Some('>') {
            Some((TokenTypeView::Ret, 2))
        } else if second == Some('=') {
            Some((TokenTypeView::MinusEq, 2))
        } else {
            Some((TokenTypeView::Minus, 1))
        }
    } else if c == '+' {
        if second == Some('=') {
            Some((TokenTypeView::PlusEq, 2))
        } else {
            Some((TokenTypeView::Plus, 1))
        }
    } else if c == '!' {
        if second == Some('=') {
            Some((TokenTypeView::Neq, 2))
        } else {
            Some((TokenTypeView::Not, 1))
        }
    } else if c == '/' {
        if second == Some('=') {
            Some((TokenTypeView::SlashEq, 2))
        } else {
            Some((TokenTypeView::Slash, 1))
        }
    } else if c == '=' {
        if second == Some('=') {
            Some((TokenTypeView::EqEq, 2))
        } else {
            Some((TokenTypeView::Eq, 1))
        }
    } else if c == '<' {
        if second == Some('=') {
            Some((TokenTypeView::Leq, 2))
        } else {
            Some((TokenTypeView::Lt, 1))
        }
    } else if c == '>' {
        if second == Some('=') {
            Some((TokenTypeView::Geq, 2))
        } else {
            Some((TokenTypeView::Gt, 1))
        }
    } else if c == '*' {
        if second == Some('*') {
            if third == Some('=') {
                Some((TokenTypeView::ExpEq, 3))
            } else {
                Some((TokenTypeView::Exp, 2))
            }
        } else if second == Some('=') {
            Some((TokenTypeView::StarEq, 2))
        } else {
            Some((TokenTypeView::Star, 1))
        }
    } else {
        None
    }
}

/// What reading at position `n` yields.
#[verifier::opaque]
pub open spec fn scan(text: Seq<char>, file: usize, n: int) -> Scan {
    if !(0 <= n < text.len()) {
        skipped(n + 1)
    } else {
        let c = text[n];
        let second = at(text, n + 1);
        if is_space(c) {
            skipped(n + 1)
        } else if c == '/' && second == Some('/') {
            skipped(after_line(text, n + 1))
        } else if c == '/' && second == Some('*') {
            match comment_end(text, n + 2, '@', seq![n]) {
                CommentEnd::Closed(next) => skipped(next),
                CommentEnd::Open(at) => stopped(
                    raised("unmatched /*"@, E0002.0@, Severity::FatalError, text, file, at, at + 2),
                ),
            }
        } else if operator(c, second, at(text, n + 2)) is Some {
            let (tt, width) = operator(c, second, at(text, n + 2))->0;
            token(tt, text, file, n, n + width)
        } else if c == '0' && second == Some('x') {
            base_literal(text, file, n, IntLiteralType::Hexadecimal, Class::Hex)
        } else if c == '0' && second == Some('o') {
            base_literal(text, file, n, IntLiteralType::Octal, Class::Oct)
        } else if c == '0' && second == Some('b') {
            base_literal(text, file, n, IntLiteralType::Binary, Class::Bin)
        } else if is_dec(c) {
            decimal_literal(text, file, n)
        } else if c == '_' || xid_start(c) {
            let end = run_end(text, n + 1, Class::Word);
            token(word_kind(text.subrange(n, end)), text, file, n, end)
        } else if c == '\'' {
            string_literal(text, file, n)
        } else {
            Scan {
                token: None,
                errors: seq![raised(unrecognized(c), E0001.0@, Severity::Error, text, file, n, n + 1)],
                next: n + 1,
                fatal: false,
            }
        }
    }
}

/// What lexing yields from position `n` on. A fatal diagnostic ends it:
/// the tokens read before it stay.
pub open spec fn lexed_from(text: Seq<char>, file: usize, n: int) -> Lexed
    decreases left(text, n),
{
    if !(0 <= n < text.len()) {
        Lexed { tokens: Seq::empty(), errors: Seq::empty() }
    } else {
        let read = scan(text, file, n);
        if read.fatal || read.next <= n {
            Lexed { tokens: Seq::empty(), errors: read.errors }
        } else {
            let rest = lexed_from(text, file, read.next);
            Lexed {
                tokens: (match read.token {
                    Some(t) => seq![t],
                    None => Seq::empty(),
                }) + rest.tokens,
                errors: read.errors + rest.errors,
            }
        }
    }
}

/// The tokens of `text`, and the diagnostics that lexing it raises. The
/// spans name the file `file`.
pub open spec fn lexed(text: Seq<char>, file: usize) -> Lexed {
    lexed_from(text, file, 0)
}

} // verus!
