//! The lexer: a single scan over the characters of a source.

pub mod model;

use vstd::prelude::*;
use vstd::string::StringExecFns;
use crate::errors::{
    Error, ErrorView, Severity, error_views, lemma_views_concat, lemma_views_push, E0001, E0002,
    E0003, E0004, E0005, E0006, E0007, E0008, E0009, E0010,
};
use crate::lexer::model::{
    Body, Class, CommentEnd, Digits, Escape, Scan, accepts, after_line, at, base_literal,
    body, comment_end, compact, decimal_literal, escape, fractional_hint, hex_escape,
    hex_value, hint_errors, hint_message, integer_hint, integer_hints, is_char_code, is_dec, is_hex, is_space, lexed,
    lexed_from, operator, raised, run_end, scan, span_of, string_literal, text_hint,
    unicode_digits, unicode_escape, word_kind,
};
use crate::loader::{Source, Span};
use crate::text::{
    byte_len, byte_offset, chars_of, is_boundary, lemma_byte_offset_monotonic, offsets_of,
};
use crate::tokens::{
    FLiteralTypeHint, ILiteralTypeHint, IntLiteralType, SLiteralTypeHint, Token, TokenType,
    TokenView, token_views,
};
use crate::unicode::{is_xid_continue, is_xid_start};

verus! {

/// The characters of a source with the byte offset of each position.
pub struct Reader<'a> {
    pub chars: &'a Vec<char>,
    pub offsets: &'a Vec<usize>,
    pub file: usize,
}

/// What reading at one position gave.
pub struct Step {
    pub token: Option<Token>,
    pub errors: Vec<Error>,
    pub next: usize,
    pub fatal: bool,
}

impl Step {
    /// The step is the one that the model `want` gives for position `n`. Of
    /// a step that stops lexing, only the diagnostics count.
    pub open spec fn agrees(&self, want: Scan, n: int, len: int) -> bool {
        &&& self.fatal == want.fatal
        &&& error_views(self.errors@) == want.errors
        &&& !want.fatal ==> {
            &&& self.next == want.next
            &&& n < self.next <= len
            &&& match want.token {
                Some(t) => self.token matches Some(mine) && mine@ == t,
                None => self.token is None,
            }
        }
    }
}

fn no_errors() -> (errors: Vec<Error>)
    ensures
        error_views(errors@) == Seq::<ErrorView>::empty(),
{
    let errors: Vec<Error> = Vec::new();
    assert(error_views(errors@) =~= Seq::<ErrorView>::empty());
    errors
}

fn one_error(error: Error) -> (errors: Vec<Error>)
    ensures
        error_views(errors@) == seq![error@],
{
    let mut errors: Vec<Error> = Vec::new();
    errors.push(error);
    assert(error_views(errors@) =~= seq![error@]);
    errors
}

fn hex_digit(c: char) -> (r: bool)
    ensures
        r == is_hex(c),
{
    (c >= '0' && c <= '9') || (c >= 'a' && c <= 'f') || (c >= 'A' && c <= 'F')
}

fn dec_digit(c: char) -> (r: bool)
    ensures
        r == is_dec(c),
{
    c >= '0' && c <= '9'
}

fn goes_on(class: &Class, c: char) -> (r: bool)
    ensures
        r == accepts(*class, c),
{
    match class {
        Class::Hex => hex_digit(c) || c == '_',
        Class::Dec => dec_digit(c) || c == '_',
        Class::Oct => (c >= '0' && c <= '7') || c == '_',
        Class::Bin => c == '0' || c == '1' || c == '_',
        Class::Hint => (c >= 'a' && c <= 'z') || dec_digit(c),
        Class::Word => is_xid_continue(c),
    }
}

fn digit_value(c: char) -> (v: u32)
    requires
        is_hex(c),
    ensures
        v == hex_value(c),
        v < 16,
{
    if c >= '0' && c <= '9' {
        c as u32 - '0' as u32
    } else if c >= 'a' && c <= 'f' {
        c as u32 - 'a' as u32 + 10
    } else {
        c as u32 - 'A' as u32 + 10
    }
}

fn blank(c: char) -> (r: bool)
    ensures
        r == is_space(c),
{
    c == ' ' || c == '\n' || c == '\t' || c == '\r' || c == '\u{000B}' || c == '\u{000C}' || c
        == '\u{0085}' || c == '\u{200E}' || c == '\u{200F}' || c == '\u{2028}' || c == '\u{2029}'
}

impl<'a> Reader<'a> {
    /// The characters read.
    pub open spec fn text(&self) -> Seq<char> {
        self.chars@
    }

    /// The offsets are those of the characters, and every one fits a span.
    pub open spec fn ready(&self) -> bool {
        &&& self.offsets@.len() == self.chars@.len() + 1
        &&& forall|i: int|
            0 <= i <= self.chars@.len() ==> #[trigger] self.offsets@[i] == byte_offset(
                self.chars@,
                i,
            )
        &&& byte_len(self.chars@) <= u32::MAX
        &&& self.chars@.len() <= usize::MAX
    }

    fn len(&self) -> (n: usize)
        ensures
            n == self.text().len(),
    {
        self.chars.len()
    }

    fn peek(&self, i: usize) -> (c: Option<char>)
        ensures
            c == at(self.text(), i as int),
            self.text().len() <= usize::MAX,
    {
        if i < self.chars.len() {
            Some(self.chars[i])
        } else {
            None
        }
    }

    fn span(&self, a: usize, b: usize) -> (span: Span)
        requires
            self.ready(),
            a <= self.text().len(),
            b <= self.text().len(),
        ensures
            span == span_of(self.text(), self.file, a as int, b as int),
            a <= b ==> span.within(self.text()),
            span.file == self.file,
    {
        proof {
            lemma_byte_offset_monotonic(self.text(), a as int, self.text().len() as int);
            lemma_byte_offset_monotonic(self.text(), b as int, self.text().len() as int);
            if a <= b {
                lemma_byte_offset_monotonic(self.text(), a as int, b as int);
                assert(is_boundary(self.text(), byte_offset(self.text(), a as int) as int));
                assert(is_boundary(self.text(), byte_offset(self.text(), b as int) as int));
            }
        }
        Span { file: self.file, start: self.offsets[a] as u32, end: self.offsets[b] as u32 }
    }

    fn raise(&self, message: String, code: &'static str, severity: Severity, a: usize, b: usize) -> (error:
        Error)
        requires
            self.ready(),
            a <= self.text().len(),
            b <= self.text().len(),
        ensures
            error@ == raised(
                message@,
                code@,
                severity,
                self.text(),
                self.file,
                a as int,
                b as int,
            ),
    {
        Error::with_note(message, code, severity, None, self.span(a, b))
    }

    fn run(&self, from: usize, class: &Class) -> (end: usize)
        requires
            from <= self.text().len(),
        ensures
            end == run_end(self.text(), from as int, *class),
            from <= end <= self.text().len(),
    {
        let mut i = from;
        while i < self.chars.len() && goes_on(class, self.chars[i])
            invariant
                from <= i <= self.text().len(),
                run_end(self.text(), from as int, *class) == run_end(self.text(), i as int, *class),
            decreases self.text().len() - i,
        {
            i = i + 1;
        }
        i
    }

    fn word(&self, from: usize, to: usize) -> (word: String)
        requires
            from <= to <= self.text().len(),
        ensures
            word@ == self.text().subrange(from as int, to as int),
    {
        let mut word = String::new();
        let mut i = from;
        while i < to
            invariant
                from <= i <= to <= self.text().len(),
                word@ == self.text().subrange(from as int, i as int),
            decreases to - i,
        {
            word.push(self.chars[i]);
            assert(word@ =~= self.text().subrange(from as int, i as int + 1));
            i = i + 1;
        }
        assert(word@ =~= self.text().subrange(from as int, to as int));
        word
    }

    fn digits(&self, from: usize, to: usize, out: &mut String)
        requires
            from <= to <= self.text().len(),
        ensures
            final(out)@ == old(out)@ + compact(self.text().subrange(from as int, to as int)),
    {
        let mut i = from;
        assert(out@ =~= old(out)@ + compact(self.text().subrange(from as int, i as int)));
        while i < to
            invariant
                from <= i <= to <= self.text().len(),
                out@ == old(out)@ + compact(self.text().subrange(from as int, i as int)),
            decreases to - i,
        {
            let c = self.chars[i];
            let ghost before = self.text().subrange(from as int, i as int);
            let ghost after = self.text().subrange(from as int, i as int + 1);
            assert(after.drop_last() =~= before);
            assert(after.last() == c);
            if c != '_' {
                out.push(c);
                assert(out@ =~= old(out)@ + compact(after));
            }
            i = i + 1;
        }
    }
}

} // verus!

verus! {

fn same(word: &String, name: &str) -> (r: bool)
    ensures
        r == (word@ == name@),
{
    *word == String::from_str(name)
}

fn integer_hint_of(word: &String) -> (hint: Option<ILiteralTypeHint>)
    ensures
        hint == integer_hint(word@),
{
    if word.as_str().is_empty() {
        Some(ILiteralTypeHint::NoHint)
    } else if same(word, "u8") {
        Some(ILiteralTypeHint::U8)
    } else if same(word, "i8") {
        Some(ILiteralTypeHint::I8)
    } else if same(word, "u16") {
        Some(ILiteralTypeHint::U16)
    } else if same(word, "i16") {
        Some(ILiteralTypeHint::I16)
    } else if same(word, "u32") {
        Some(ILiteralTypeHint::U32)
    } else if same(word, "i32") {
        Some(ILiteralTypeHint::I32)
    } else if same(word, "u64") {
        Some(ILiteralTypeHint::U64)
    } else if same(word, "i64") {
        Some(ILiteralTypeHint::I64)
    } else {
        None
    }
}

fn fractional_hint_of(word: &String) -> (hint: Option<FLiteralTypeHint>)
    ensures
        hint == fractional_hint(word@),
{
    if word.as_str().is_empty() {
        Some(FLiteralTypeHint::NoHint)
    } else if same(word, "f32") {
        Some(FLiteralTypeHint::F32)
    } else if same(word, "f64") {
        Some(FLiteralTypeHint::F64)
    } else {
        None
    }
}

fn text_hint_of(word: &String) -> (hint: Option<SLiteralTypeHint>)
    ensures
        hint == text_hint(word@),
{
    if word.as_str().is_empty() {
        Some(SLiteralTypeHint::NoHint)
    } else if same(word, "char") {
        Some(SLiteralTypeHint::Char)
    } else if same(word, "str") {
        Some(SLiteralTypeHint::Str)
    } else {
        None
    }
}

fn word_kind_of(word: String) -> (tt: TokenType)
    ensures
        tt@ == word_kind(word@),
{
    if same(&word, "let") {
        TokenType::Let
    } else if same(&word, "if") {
        TokenType::If
    } else if same(&word, "fn") {
        TokenType::Fn
    } else if same(&word, "return") {
        TokenType::Return
    } else if same(&word, "const") {
        TokenType::Const
    } else if same(&word, "else") {
        TokenType::Else
    } else if same(&word, "match") {
        TokenType::Match
    } else if same(&word, "type") {
        TokenType::Type
    } else if same(&word, "mut") {
        TokenType::Mut
    } else if same(&word, "continue") {
        TokenType::Continue
    } else if same(&word, "break") {
        TokenType::Break
    } else if same(&word, "loop") {
        TokenType::Loop
    } else if same(&word, "while") {
        TokenType::While
    } else if same(&word, "use") {
        TokenType::Use
    } else if same(&word, "as") {
        TokenType::As
    } else if same(&word, "true") {
        TokenType::BLiteral(true)
    } else if same(&word, "false") {
        TokenType::BLiteral(false)
    } else if same(&word, "show") {
        TokenType::Show
    } else if same(&word, "panic") {
        TokenType::Panic
    } else if same(&word, "module") {
        TokenType::Module
    } else if same(&word, "include") {
        TokenType::Include
    } else if same(&word, "enum") {
        TokenType::Enum
    } else if same(&word, "struct") {
        TokenType::Struct
    } else if same(&word, "compound") {
        TokenType::Compound
    } else {
        TokenType::Ident(word)
    }
}

fn operator_of(c: char, second: Option<char>, third: Option<char>) -> (r: Option<(TokenType, usize)>)
    ensures
        match operator(c, second, third) {
            Some((tt, width)) => r matches Some((mine, w)) && mine@ == tt && w == width && 1 <= w
                <= 3 && (w >= 2 ==> second is Some) && (w >= 3 ==> third is Some),
            None => r is None,
        },
{
    if c == '(' {
        Some((TokenType::LParen, 1))
    } else if c == ')' {
        Some((TokenType::RParen, 1))
    } else if c == '[' {
        Some((TokenType::LBracket, 1))
    } else if c == ']' {
        Some((TokenType::RBracket, 1))
    } else if c == '{' {
        Some((TokenType::LCBrace, 1))
    } else if c == '}' {
        Some((TokenType::RCBrace, 1))
    } else if c == ';' {
        Some((TokenType::Semicolon, 1))
    } else if c == '.' {
        Some((TokenType::Dot, 1))
    } else if c == ':' {
        Some((TokenType::Colon, 1))
    } else if c == ',' {
        Some((TokenType::Comma, 1))
    } else if c == '\u{2192}' {
        Some((TokenType::Ret, 1))
    } else if c == '-' {
        if second == Some('>') {
            Some((TokenType::Ret, 2))
        } else if second == Some('=') {
            Some((TokenType::MinusEq, 2))
        } else {
            Some((TokenType::Minus, 1))
        }
    } else if c == '+' {
        if second == Some('=') {
            Some((TokenType::PlusEq, 2))
        } else {
            Some((TokenType::Plus, 1))
        }
    } else if c == '!' {
        if second == Some('=') {
            Some((TokenType::Neq, 2))
        } else {
            Some((TokenType::Not, 1))
        }
    } else if c == '/' {
        if second == Some('=') {
            Some((TokenType::SlashEq, 2))
        } else {
            Some((TokenType::Slash, 1))
        }
    } else if c == '=' {
        if second == Some('=') {
            Some((TokenType::EqEq, 2))
        } else {
            Some((TokenType::Eq, 1))
        }
    } else if c == '<' {
        if second == Some('=') {
            Some((TokenType::Leq, 2))
        } else {
            Some((TokenType::Lt, 1))
        }
    } else if c == '>' {
        if second == Some('=') {
            Some((TokenType::Geq, 2))
        } else {
            Some((TokenType::Gt, 1))
        }
    } else if c == '*' {
        if second == Some('*') {
            if third == Some('=') {
                Some((TokenType::ExpEq, 3))
            } else {
                Some((TokenType::Exp, 2))
            }
        } else if second == Some('=') {
            Some((TokenType::StarEq, 2))
        } else {
            Some((TokenType::Star, 1))
        }
    } else {
        None
    }
}

fn hint_complaint(word: &String, kind: &str, valid: &str) -> (message: String)
    ensures
        message@ == hint_message(word@, kind@, valid@),
{
    let mut message = word.clone();
    message.append(" is not a valid type hint for {");
    message.append(kind);
    message.append("} (valid ones are ");
    message.append(valid);
    message.append(")");
    message
}

impl Step {
    /// The token read at position `n`, if any, lies in the file, between
    /// character boundaries of the text, and reaches from `n` to where
    /// lexing goes on.
    pub open spec fn spanned(&self, text: Seq<char>, file: usize, n: int) -> bool {
        self.token matches Some(t) ==> t.span.file == file && t.span.within(text) && t.span
            == span_of(text, file, n, self.next as int)
    }
}

impl<'a> Reader<'a> {
    fn hint_error(&self, valid: bool, word: &String, kind: &str, names: &str, from: usize, to: usize, errors: &mut Vec<Error>)
        requires
            self.ready(),
            from <= to <= self.text().len(),
            !valid ==> from < to,
            word@ == self.text().subrange(from as int, to as int),
        ensures
            error_views(final(errors)@) == error_views(old(errors)@) + hint_errors(
                valid,
                self.text(),
                self.file,
                from as int,
                to as int,
                kind@,
                names@,
            ),
    {
        if !valid {
            let error = self.raise(
                hint_complaint(word, kind, names),
                E0009.0,
                Severity::Error,
                from,
                to - 1,
            );
            proof {
                lemma_views_push(errors@, error);
            }
            errors.push(error);
            assert(error_views(errors@) =~= error_views(old(errors)@) + hint_errors(
                valid,
                self.text(),
                self.file,
                from as int,
                to as int,
                kind@,
                names@,
            ));
        } else {
            assert(error_views(errors@) =~= error_views(old(errors)@) + hint_errors(
                valid,
                self.text(),
                self.file,
                from as int,
                to as int,
                kind@,
                names@,
            ));
        }
    }

    fn integer_hint_at(&self, from: usize, errors: &mut Vec<Error>) -> (r: (ILiteralTypeHint, usize))
        requires
            self.ready(),
            from <= self.text().len(),
        ensures
            r.1 == run_end(self.text(), from as int, Class::Hint),
            from <= r.1 <= self.text().len(),
            ({
                let hint = integer_hint(self.text().subrange(from as int, r.1 as int));
                &&& r.0 == if hint is Some {
                    hint->0
                } else {
                    ILiteralTypeHint::NoHint
                }
                &&& error_views(final(errors)@) == error_views(old(errors)@) + hint_errors(
                    hint is Some,
                    self.text(),
                    self.file,
                    from as int,
                    r.1 as int,
                    "integer"@,
                    integer_hints(),
                )
            }),
    {
        let end = self.run(from, &Class::Hint);
        let word = self.word(from, end);
        let hint = integer_hint_of(&word);
        self.hint_error(
            hint.is_some(),
            &word,
            "integer",
            "u8, i8, u16, i16, u32, i32, u64, i64",
            from,
            end,
            errors,
        );
        match hint {
            Some(h) => (h, end),
            None => (ILiteralTypeHint::NoHint, end),
        }
    }

    fn base_literal_at(&self, n: usize, kind: IntLiteralType, class: Class) -> (step: Step)
        requires
            self.ready(),
            n + 1 < self.text().len(),
        ensures
            step.agrees(
                base_literal(self.text(), self.file, n as int, kind, class),
                n as int,
                self.text().len() as int,
            ),
            step.spanned(self.text(), self.file, n as int),
    {
        let d_end = self.run(n + 2, &class);
        let mut value = String::new();
        self.digits(n + 2, d_end, &mut value);
        assert(value@ =~= compact(self.text().subrange(n + 2, d_end as int)));
        let mut errors = no_errors();
        if value.as_str().is_empty() {
            let error = self.raise(
                String::from_str("empty literal: digits must follow the prefix"),
                E0003.0,
                Severity::Error,
                n,
                d_end,
            );
            proof {
                lemma_views_push(errors@, error);
            }
            errors.push(error);
            value.push('0');
            assert(value@ =~= seq!['0']);
        }
        let ghost first = error_views(errors@);
        let (type_hint, h_end) = self.integer_hint_at(d_end, &mut errors);
        let token = Token {
            span: self.span(n, h_end),
            tt: TokenType::ILiteral { value, kind, type_hint },
        };
        assert(first =~= if compact(self.text().subrange(n + 2, d_end as int)).len() == 0 {
            seq![
                raised(
                    "empty literal: digits must follow the prefix"@,
                    E0003.0@,
                    Severity::Error,
                    self.text(),
                    self.file,
                    n as int,
                    d_end as int,
                ),
            ]
        } else {
            Seq::empty()
        });
        Step { token: Some(token), errors, next: h_end, fatal: false }
    }

    fn decimal_literal_at(&self, n: usize) -> (step: Step)
        requires
            self.ready(),
            n < self.text().len(),
            is_dec(self.text()[n as int]),
        ensures
            step.agrees(
                decimal_literal(self.text(), self.file, n as int),
                n as int,
                self.text().len() as int,
            ),
            step.spanned(self.text(), self.file, n as int),
    {
        let d_end = self.run(n + 1, &Class::Dec);
        let mut value = String::new();
        self.digits(n, d_end, &mut value);
        assert(value@ =~= compact(self.text().subrange(n as int, d_end as int)));
        let mut errors = no_errors();
        let fraction = match self.peek(d_end) {
            Some('.') => match self.peek(d_end + 1) {
                Some(c) => dec_digit(c),
                None => false,
            },
            _ => false,
        };
        if fraction {
            let f_end = self.run(d_end + 1, &Class::Dec);
            value.push('.');
            self.digits(d_end + 1, f_end, &mut value);
            let h_end = self.run(f_end, &Class::Hint);
            let word = self.word(f_end, h_end);
            let hint = fractional_hint_of(&word);
            self.hint_error(hint.is_some(), &word, "float", "f32, f64", f_end, h_end, &mut errors);
            let type_hint = match hint {
                Some(h) => h,
                None => FLiteralTypeHint::NoHint,
            };
            let token = Token {
                span: self.span(n, h_end),
                tt: TokenType::FLiteral { value, type_hint },
            };
            assert(error_views(errors@) =~= hint_errors(
                hint is Some,
                self.text(),
                self.file,
                f_end as int,
                h_end as int,
                "float"@,
                "f32, f64"@,
            ));
            Step { token: Some(token), errors, next: h_end, fatal: false }
        } else {
            let (type_hint, h_end) = self.integer_hint_at(d_end, &mut errors);
            let token = Token {
                span: self.span(n, h_end),
                tt: TokenType::ILiteral { value, kind: IntLiteralType::Decimal, type_hint },
            };
            assert(error_views(errors@) =~= hint_errors(
                integer_hint(self.text().subrange(d_end as int, h_end as int)) is Some,
                self.text(),
                self.file,
                d_end as int,
                h_end as int,
                "integer"@,
                integer_hints(),
            ));
            Step { token: Some(token), errors, next: h_end, fatal: false }
        }
    }

    fn line_end(&self, from: usize) -> (next: usize)
        requires
            from <= self.text().len(),
        ensures
            next == after_line(self.text(), from as int),
            from <= next <= self.text().len(),
    {
        let mut i = from;
        while i < self.chars.len() && self.chars[i] != '\n'
            invariant
                from <= i <= self.text().len(),
                after_line(self.text(), from as int) == after_line(self.text(), i as int),
            decreases self.text().len() - i,
        {
            i = i + 1;
        }
        if i < self.chars.len() {
            i + 1
        } else {
            i
        }
    }
}

/// The positions held by a stack of open comments.
pub open spec fn positions(opens: Seq<usize>) -> Seq<int> {
    Seq::new(opens.len(), |k: int| opens[k] as int)
}

impl<'a> Reader<'a> {
    fn comment_at(&self, n: usize) -> (step: Step)
        requires
            self.ready(),
            n + 1 < self.text().len(),
        ensures
            step.agrees(
                match comment_end(self.text(), n + 2, '@', seq![n as int]) {
                    CommentEnd::Closed(next) => crate::lexer::model::skipped(next),
                    CommentEnd::Open(at) => crate::lexer::model::stopped(
                        raised(
                            "unmatched /*"@,
                            E0002.0@,
                            Severity::FatalError,
                            self.text(),
                            self.file,
                            at,
                            at + 2,
                        ),
                    ),
                },
                n as int,
                self.text().len() as int,
            ),
            step.spanned(self.text(), self.file, n as int),
    {
        let mut opens: Vec<usize> = Vec::new();
        opens.push(n);
        assert(positions(opens@) =~= seq![n as int]);
        let mut prev = '@';
        let mut i = n + 2;
        while i < self.chars.len()
            invariant
                n + 2 <= i <= self.text().len(),
                opens@.len() >= 1,
                forall|k: int| 0 <= k < opens@.len() ==> #[trigger] opens@[k] + 1 < self.text().len(),
                comment_end(self.text(), n + 2, '@', seq![n as int]) == comment_end(
                    self.text(),
                    i as int,
                    prev,
                    positions(opens@),
                ),
            decreases self.text().len() - i,
        {
            let c = self.chars[i];
            let ghost before = opens@;
            if prev == '/' && c == '*' {
                opens.push(i - 1);
                assert(positions(opens@) =~= positions(before).push(i - 1));
            } else if prev == '*' && c == '/' {
                if opens.len() == 1 {
                    return Step { token: None, errors: no_errors(), next: i + 1, fatal: false };
                }
                opens.pop();
                assert(positions(opens@) =~= positions(before).drop_last());
            }
            prev = c;
            i = i + 1;
        }
        let open = opens[opens.len() - 1];
        assert(positions(opens@).last() == open as int);
        let error = self.raise(String::from_str("unmatched /*"), E0002.0, Severity::FatalError, open, open + 2);
        Step { token: None, errors: one_error(error), next: 0, fatal: true }
    }

    fn word_at(&self, n: usize) -> (step: Step)
        requires
            self.ready(),
            n < self.text().len(),
        ensures
            step.agrees(
                crate::lexer::model::token(
                    word_kind(
                        self.text().subrange(
                            n as int,
                            run_end(self.text(), n + 1, Class::Word),
                        ),
                    ),
                    self.text(),
                    self.file,
                    n as int,
                    run_end(self.text(), n + 1, Class::Word),
                ),
                n as int,
                self.text().len() as int,
            ),
            step.spanned(self.text(), self.file, n as int),
    {
        let end = self.run(n + 1, &Class::Word);
        let word = self.word(n, end);
        let token = Token { span: self.span(n, end), tt: word_kind_of(word) };
        Step { token: Some(token), errors: no_errors(), next: end, fatal: false }
    }
}

} // verus!

verus! {

/// What reading one escape sequence gave.
pub struct Escaped {
    pub produced: Option<char>,
    pub errors: Vec<Error>,
    pub next: usize,
    pub fatal: bool,
}

impl Escaped {
    /// The escape is the one that the model `want` gives for the backslash
    /// at `i`.
    pub open spec fn agrees(&self, want: Escape, i: int, len: int) -> bool {
        &&& self.fatal == want.fatal
        &&& error_views(self.errors@) == want.errors
        &&& want.fatal ==> want.errors.len() > 0
        &&& !want.fatal ==> {
            &&& self.next == want.next
            &&& i < self.next <= len
            &&& self.produced == want.produced
        }
    }
}

/// Digits with the diagnostics `errors` raised before them.
pub open spec fn ahead(errors: Seq<ErrorView>, digits: Digits) -> Digits {
    Digits { errors: errors + digits.errors, ..digits }
}

/// A body with the characters `contents` and the diagnostics `errors` read
/// before it.
pub open spec fn joined(contents: Seq<char>, errors: Seq<ErrorView>, rest: Body) -> Body {
    Body {
        contents: contents + rest.contents,
        errors: errors + rest.errors,
        close: rest.close,
        fatal: rest.fatal,
    }
}

fn stands_for(c: char, next: usize) -> (r: Escaped)
    ensures
        r.produced == Some(c),
        error_views(r.errors@) == Seq::<ErrorView>::empty(),
        r.next == next,
        !r.fatal,
{
    Escaped { produced: Some(c), errors: no_errors(), next, fatal: false }
}

fn character(code: u32) -> (c: char)
    ensures
        is_char_code(code as nat) ==> c == code as char,
        !is_char_code(code as nat) ==> c == '\0',
{
    match char::from_u32(code) {
        Some(c) => {
            proof {
                vstd::utf8::char_u32_cast(c, code);
            }
            c
        },
        None => '\0',
    }
}

impl<'a> Reader<'a> {
    fn hex_escape_at(&self, j: usize) -> (r: Escaped)
        requires
            self.ready(),
            1 <= j < self.text().len(),
        ensures
            r.agrees(hex_escape(self.text(), self.file, j as int), j - 1, self.text().len() as int),
    {
        let first = match self.peek(j + 1) {
            Some(c) => c,
            None => {
                let error = self.raise(
                    String::from_str("expected an hexadecimal digit, got <EOF>"),
                    E0006.0,
                    Severity::FatalError,
                    j,
                    j + 1,
                );
                return Escaped { produced: None, errors: one_error(error), next: j + 1, fatal: true };
            },
        };
        if !hex_digit(first) {
            let mut message = String::from_str("expected a hexadecimal digit, got ");
            message.push(first);
            let error = self.raise(message, E0006.0, Severity::Error, j + 1, j + 2);
            return Escaped {
                produced: Some('\0'),
                errors: one_error(error),
                next: j + 1,
                fatal: false,
            };
        }
        let second = match self.peek(j + 2) {
            Some(c) => c,
            None => {
                let error = self.raise(
                    String::from_str("expected an hexadecimal digit, got <EOF>"),
                    E0006.0,
                    Severity::FatalError,
                    j + 1,
                    j + 2,
                );
                return Escaped { produced: None, errors: one_error(error), next: j + 2, fatal: true };
            },
        };
        if !hex_digit(second) {
            let mut message = String::from_str("expected a hexadecimal digit, got ");
            message.push(second);
            let error = self.raise(message, E0006.0, Severity::Error, j + 2, j + 3);
            return Escaped {
                produced: Some('\0'),
                errors: one_error(error),
                next: j + 2,
                fatal: false,
            };
        }
        let code = digit_value(first) * 16 + digit_value(second);
        stands_for(character(code), j + 3)
    }

    fn unicode_digits_at(&self, start: usize) -> (r: (u32, usize, Vec<Error>, usize, bool))
        requires
            self.ready(),
            1 <= start <= self.text().len(),
        ensures
            ({
                let digits = unicode_digits(self.text(), self.file, start as int, 0, 0);
                &&& r.4 == digits.fatal
                &&& error_views(r.2@) == digits.errors
                &&& digits.fatal ==> digits.errors.len() > 0
                &&& !digits.fatal ==> {
                    &&& r.0 == digits.value
                    &&& r.1 == digits.count
                    &&& r.3 == digits.end
                    &&& start <= r.3 < self.text().len()
                    &&& r.1 <= r.3 - start
                }
            }),
    {
        let mut value: u32 = 0;
        let mut count: usize = 0;
        let mut errors = no_errors();
        let mut i = start;
        let ghost whole = unicode_digits(self.text(), self.file, start as int, 0, 0);
        assert(whole == ahead(error_views(errors@), whole));
        while i < self.chars.len()
            invariant
                self.ready(),
                1 <= start <= i <= self.text().len(),
                value <= 0x110000,
                count == i - start,
                whole == unicode_digits(self.text(), self.file, start as int, 0, 0),
                whole == ahead(
                    error_views(errors@),
                    unicode_digits(self.text(), self.file, i as int, value as nat, count as nat),
                ),
            decreases self.text().len() - i,
        {
            let c = self.chars[i];
            let ghost here = unicode_digits(
                self.text(),
                self.file,
                i as int,
                value as nat,
                count as nat,
            );
            let ghost seen = error_views(errors@);
            if c == '}' {
                assert(seen + here.errors =~= seen);
                return (value, count, errors, i, false);
            }
            if hex_digit(c) {
                let wider = value * 16 + digit_value(c);
                value = if wider > 0x110000 {
                    0x110000
                } else {
                    wider
                };
            } else {
                let mut message = String::from_str("invalid character in escape sequence: ");
                message.push(c);
                let error = self.raise(message, E0008.0, Severity::Error, i, i + 1);
                proof {
                    lemma_views_push(errors@, error);
                }
                errors.push(error);
                let ghost rest = unicode_digits(
                    self.text(),
                    self.file,
                    i + 1,
                    value as nat,
                    count as nat + 1,
                );
                assert(seen + here.errors =~= error_views(errors@) + rest.errors);
            }
            count = count + 1;
            i = i + 1;
        }
        let error = self.raise(
            String::from_str("expected an hexadecimal digit, got <EOF>"),
            E0008.0,
            Severity::FatalError,
            i - 1,
            i,
        );
        proof {
            lemma_views_push(errors@, error);
        }
        let ghost seen = error_views(errors@);
        errors.push(error);
        assert(error_views(errors@) =~= seen + seq![error@]);
        (value, count, errors, i, true)
    }

    fn unicode_escape_at(&self, j: usize) -> (r: Escaped)
        requires
            self.ready(),
            1 <= j < self.text().len(),
        ensures
            r.agrees(
                unicode_escape(self.text(), self.file, j as int),
                j - 1,
                self.text().len() as int,
            ),
    {
        let after = match self.peek(j + 1) {
            Some(c) => c,
            None => {
                let error = self.raise(
                    String::from_str("expected { after \\u, got <EOF>"),
                    E0007.0,
                    Severity::FatalError,
                    j,
                    j + 1,
                );
                return Escaped { produced: None, errors: one_error(error), next: j + 1, fatal: true };
            },
        };
        if after != '{' {
            let mut message = String::from_str("expected { after \\u, got ");
            message.push(after);
            let error = self.raise(message, E0007.0, Severity::Error, j + 1, j + 2);
            return Escaped {
                produced: Some('\0'),
                errors: one_error(error),
                next: j + 2,
                fatal: false,
            };
        }
        let (value, count, mut errors, end, fatal) = self.unicode_digits_at(j + 2);
        if fatal {
            return Escaped { produced: None, errors, next: j + 2, fatal: true };
        }
        let ghost digits = error_views(errors@);
        if count == 0 {
            let error = self.raise(
                String::from_str("\\u Unicode escapes should contain at least 1 hexadecimal digit"),
                E0008.0,
                Severity::Warning,
                j + 1,
                end,
            );
            proof {
                lemma_views_push(errors@, error);
            }
            errors.push(error);
        }
        let ghost warned = error_views(errors@);
        assert(warned =~= digits + if count == 0 {
            seq![
                raised(
                    "\\u Unicode escapes should contain at least 1 hexadecimal digit"@,
                    E0008.0@,
                    Severity::Warning,
                    self.text(),
                    self.file,
                    j + 1,
                    end as int,
                ),
            ]
        } else {
            Seq::<ErrorView>::empty()
        });
        let valid = value <= 0xD7FF || (0xE000 <= value && value <= 0x10FFFF);
        if !valid {
            let error = self.raise(
                String::from_str("invalid escape sequence"),
                E0008.0,
                Severity::Error,
                j + 1,
                end - 1,
            );
            proof {
                lemma_views_push(errors@, error);
            }
            errors.push(error);
            assert(error_views(errors@) =~= warned + seq![error@]);
        }
        Escaped { produced: Some(character(value)), errors, next: end + 1, fatal: false }
    }

    fn escape_at(&self, open: usize, i: usize) -> (r: Escaped)
        requires
            self.ready(),
            open < i < self.text().len(),
        ensures
            r.agrees(
                escape(self.text(), self.file, open as int, i as int),
                i as int,
                self.text().len() as int,
            ),
    {
        let c = match self.peek(i + 1) {
            Some(c) => c,
            None => {
                let error = Error::with_notes(
                    String::from_str("expected a character after \\, got EOF"),
                    E0005.0,
                    Severity::FatalError,
                    (None, self.span(i, i + 1)),
                    (Some("unterminated string started here"), self.span(open, open + 1)),
                );
                return Escaped { produced: None, errors: one_error(error), next: i + 1, fatal: true };
            },
        };
        if c == '\\' {
            stands_for('\\', i + 2)
        } else if c == '0' {
            stands_for('\0', i + 2)
        } else if c == 'n' {
            stands_for('\n', i + 2)
        } else if c == 'r' {
            stands_for('\r', i + 2)
        } else if c == 't' {
            stands_for('\t', i + 2)
        } else if c == '\'' {
            stands_for('\'', i + 2)
        } else if c == 'x' {
            self.hex_escape_at(i + 1)
        } else if c == 'u' {
            self.unicode_escape_at(i + 1)
        } else {
            let mut message = String::from_str("unknown backslash escape: ");
            message.push(c);
            let error = self.raise(message, E0005.0, Severity::Error, i + 1, i + 2);
            Escaped { produced: None, errors: one_error(error), next: i + 1, fatal: false }
        }
    }

    fn body_at(&self, open: usize, start: usize) -> (r: (String, Vec<Error>, usize, bool))
        requires
            self.ready(),
            open < start <= self.text().len(),
        ensures
            ({
                let read = body(self.text(), self.file, open as int, start as int);
                &&& r.3 == read.fatal
                &&& error_views(r.1@) == read.errors
                &&& read.fatal ==> read.errors.len() > 0
                &&& !read.fatal ==> {
                    &&& r.0@ == read.contents
                    &&& r.2 == read.close
                    &&& start <= r.2 < self.text().len()
                }
            }),
    {
        let mut contents = String::new();
        let mut errors = no_errors();
        let mut i = start;
        let ghost whole = body(self.text(), self.file, open as int, start as int);
        assert(whole == joined(contents@, error_views(errors@), whole)) by {
            assert(contents@ + whole.contents =~= whole.contents);
            assert(error_views(errors@) + whole.errors =~= whole.errors);
        }
        while i < self.chars.len()
            invariant
                self.ready(),
                open < start <= i <= self.text().len(),
                whole == body(self.text(), self.file, open as int, start as int),
                whole == joined(
                    contents@,
                    error_views(errors@),
                    body(self.text(), self.file, open as int, i as int),
                ),
            decreases self.text().len() - i,
        {
            let c = self.chars[i];
            let ghost here = body(self.text(), self.file, open as int, i as int);
            let ghost seen = error_views(errors@);
            let ghost read = contents@;
            if c == '\'' {
                assert(read + here.contents =~= read);
                assert(seen + here.errors =~= seen);
                return (contents, errors, i, false);
            }
            if c == '\\' {
                let Escaped { produced, errors: mut raised, next, fatal } = self.escape_at(open, i);
                proof {
                    lemma_views_concat(errors@, raised@);
                }
                errors.append(&mut raised);
                if fatal {
                    assert(error_views(errors@) =~= seen + here.errors);
                    return (contents, errors, i, true);
                }
                match produced {
                    Some(made) => {
                        contents.push(made);
                    },
                    None => {},
                }
                let ghost rest = body(self.text(), self.file, open as int, next as int);
                assert(read + here.contents =~= contents@ + rest.contents);
                assert(seen + here.errors =~= error_views(errors@) + rest.errors);
                i = next;
            } else {
                contents.push(c);
                let ghost rest = body(self.text(), self.file, open as int, i + 1);
                assert(read + here.contents =~= contents@ + rest.contents);
                i = i + 1;
            }
        }
        let error = Error::with_note(
            String::from_str("expected a closing single quote, got <EOF>"),
            E0004.0,
            Severity::FatalError,
            Some("opening quote was here"),
            self.span(open, open + 1),
        );
        proof {
            lemma_views_push(errors@, error);
        }
        let ghost seen = error_views(errors@);
        errors.push(error);
        assert(error_views(errors@) =~= seen + seq![error@]);
        (contents, errors, i, true)
    }

    fn string_literal_at(&self, n: usize) -> (step: Step)
        requires
            self.ready(),
            n < self.text().len(),
        ensures
            step.agrees(
                string_literal(self.text(), self.file, n as int),
                n as int,
                self.text().len() as int,
            ),
            step.spanned(self.text(), self.file, n as int),
            step.fatal ==> step.errors@.len() > 0,
    {
        let (value, mut errors, close, fatal) = self.body_at(n, n + 1);
        if fatal {
            assert(error_views(errors@).len() == errors@.len());
            return Step { token: None, errors, next: 0, fatal: true };
        }
        let underscore = match self.peek(close + 1) {
            Some('_') => true,
            _ => false,
        };
        let h_start = if underscore {
            close + 2
        } else {
            close + 1
        };
        let h_end = self.run(h_start, &Class::Hint);
        if underscore && h_end == h_start {
            let error = self.raise(
                String::from_str("unexpected identifier '_' after {string-like}"),
                E0010.0,
                Severity::Error,
                close + 1,
                close + 2,
            );
            proof {
                lemma_views_push(errors@, error);
            }
            errors.push(error);
            let token = Token {
                span: self.span(n, close + 1),
                tt: TokenType::SLiteral { value, type_hint: SLiteralTypeHint::NoHint },
            };
            Step { token: Some(token), errors, next: close + 1, fatal: false }
        } else {
            let word = self.word(h_start, h_end);
            let hint = text_hint_of(&word);
            self.hint_error(
                hint.is_some(),
                &word,
                "string-like",
                "char, str",
                h_start,
                h_end,
                &mut errors,
            );
            let type_hint = match hint {
                Some(h) => h,
                None => SLiteralTypeHint::NoHint,
            };
            let token = Token {
                span: self.span(n, h_end),
                tt: TokenType::SLiteral { value, type_hint },
            };
            Step { token: Some(token), errors, next: h_end, fatal: false }
        }
    }

    fn scan_at(&self, n: usize) -> (step: Step)
        requires
            self.ready(),
            n < self.text().len(),
        ensures
            step.agrees(scan(self.text(), self.file, n as int), n as int, self.text().len() as int),
            step.spanned(self.text(), self.file, n as int),
            step.fatal ==> step.errors@.len() > 0,
    {
        reveal(scan);
        let c = self.chars[n];
        let second = self.peek(n + 1);
        if blank(c) {
            return Step { token: None, errors: no_errors(), next: n + 1, fatal: false };
        }
        if c == '/' && second == Some('/') {
            return Step {
                token: None,
                errors: no_errors(),
                next: self.line_end(n + 1),
                fatal: false,
            };
        }
        if c == '/' && second == Some('*') {
            let step = self.comment_at(n);
            assert(error_views(step.errors@).len() == step.errors@.len());
            return step;
        }
        let third = match second {
            Some(_) => self.peek(n + 2),
            None => None,
        };
        match operator_of(c, second, third) {
            Some((tt, width)) => {
                return Step {
                    token: Some(Token { span: self.span(n, n + width), tt }),
                    errors: no_errors(),
                    next: n + width,
                    fatal: false,
                };
            },
            None => {},
        }
        if c == '0' && second == Some('x') {
            self.base_literal_at(n, IntLiteralType::Hexadecimal, Class::Hex)
        } else if c == '0' && second == Some('o') {
            self.base_literal_at(n, IntLiteralType::Octal, Class::Oct)
        } else if c == '0' && second == Some('b') {
            self.base_literal_at(n, IntLiteralType::Binary, Class::Bin)
        } else if dec_digit(c) {
            self.decimal_literal_at(n)
        } else if c == '_' || is_xid_start(c) {
            self.word_at(n)
        } else if c == '\'' {
            self.string_literal_at(n)
        } else {
            let mut message = String::from_str("unrecognized character: ");
            message.push(c);
            if c == '"' {
                message.append(" (note: use single quotes for string or char literals)");
            }
            let error = self.raise(message, E0001.0, Severity::Error, n, n + 1);
            Step { token: None, errors: one_error(error), next: n + 1, fatal: false }
        }
    }
}

/// The models of a sequence with one more token.
pub proof fn lemma_token_views_push(tokens: Seq<Token>, t: Token)
    ensures
        token_views(tokens.push(t)) == token_views(tokens).push(t@),
{
    assert(token_views(tokens.push(t)) =~= token_views(tokens).push(t@));
}

pub fn lex(input: &Source) -> (r: (Vec<Token>, Result<(), Vec<Error>>))
    requires
        byte_len(input.text()) <= u32::MAX,
    ensures
        token_views(r.0@) == lexed(input.text(), input.index).tokens,
        r.1 is Ok <==> lexed(input.text(), input.index).errors.len() == 0,
        r.1 matches Err(errors) ==> error_views(errors@) == lexed(
            input.text(),
            input.index,
        ).errors,
        forall|i: int|
            0 <= i < r.0@.len() ==> (#[trigger] r.0@[i]).span.file == input.index
                && r.0@[i].span.within(input.text()),
        forall|i: int| 0 <= i < r.0@.len() ==> (#[trigger] r.0@[i]).span.start < r.0@[i].span.end,
        forall|i: int, j: int|
            0 <= i < j < r.0@.len() ==> (#[trigger] r.0@[i]).span.end <= (
            #[trigger] r.0@[j]).span.start,
{
    let chars = chars_of(input.string());
    let offsets = offsets_of(&chars);
    let len = chars.len();
    let reader = Reader { chars: &chars, offsets: &offsets, file: input.index };
    let ghost text = input.text();
    let ghost file = input.index;
    let ghost whole = lexed(text, file);
    let mut tokens: Vec<Token> = Vec::new();
    let mut errors = no_errors();
    let mut n: usize = 0;
    assert(token_views(tokens@) + whole.tokens =~= whole.tokens);
    assert(error_views(errors@) + whole.errors =~= whole.errors);
    while n < len
        invariant
            reader.ready(),
            reader.text() == text,
            reader.file == file,
            text == input.text(),
            file == input.index,
            len == text.len(),
            0 <= n <= len,
            whole == lexed(text, file),
            whole.tokens == token_views(tokens@) + lexed_from(text, file, n as int).tokens,
            whole.errors == error_views(errors@) + lexed_from(text, file, n as int).errors,
            forall|i: int|
                0 <= i < tokens@.len() ==> (#[trigger] tokens@[i]).span.file == file
                    && tokens@[i].span.within(text),
            forall|i: int|
                0 <= i < tokens@.len() ==> (#[trigger] tokens@[i]).span.start
                    < tokens@[i].span.end && tokens@[i].span.end <= byte_offset(text, n as int),
            forall|i: int, j: int|
                0 <= i < j < tokens@.len() ==> (#[trigger] tokens@[i]).span.end <= (
                #[trigger] tokens@[j]).span.start,
        decreases len - n,
    {
        let ghost here = lexed_from(text, file, n as int);
        let ghost seen = error_views(errors@);
        let ghost read = token_views(tokens@);
        let Step { token, errors: mut raised, next, fatal } = reader.scan_at(n);
        proof {
            lemma_views_concat(errors@, raised@);
        }
        let ghost count = raised@.len();
        errors.append(&mut raised);
        if fatal {
            assert(error_views(errors@) =~= seen + here.errors);
            assert(read + here.tokens =~= read);
            assert(errors@.len() > 0);
            assert(error_views(errors@).len() == errors@.len());
            return (tokens, Err(errors));
        }
        let ghost rest = lexed_from(text, file, next as int);
        proof {
            lemma_byte_offset_monotonic(text, n as int, next as int);
            lemma_byte_offset_monotonic(text, next as int, len as int);
        }
        match token {
            Some(t) => {
                proof {
                    lemma_token_views_push(tokens@, t);
                }
                tokens.push(t);
            },
            None => {},
        }
        assert(read + here.tokens =~= token_views(tokens@) + rest.tokens);
        assert(seen + here.errors =~= error_views(errors@) + rest.errors);
        n = next;
    }
    assert(token_views(tokens@) + Seq::<TokenView>::empty() =~= token_views(tokens@));
    assert(error_views(errors@) + Seq::<ErrorView>::empty() =~= error_views(errors@));
    assert(error_views(errors@).len() == errors@.len());
    if errors.len() == 0 {
        (tokens, Ok(()))
    } else {
        (tokens, Err(errors))
    }
}

} // verus!
