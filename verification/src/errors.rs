//! Diagnostics: what every stage reports, with a severity, a stable code and
//! notes that point into the sources.

use vstd::prelude::*;
use vstd::string::{StringExecFns};
use vstd::utf8::{decode_utf8, encode_utf8, encode_utf8_decode_utf8};
use crate::loader::{Loader, Source, Span, margin_end, margin_start};
use crate::text::{byte_offset, chars_of, char_width, decimal, is_boundary, push_decimal, put};
use crate::tokens::Token;

verus! {

/// Code and explanation: E0001.
pub const E0001: (&'static str, &'static str) = ("E0001", "unrecognized character");

/// Code and explanation: E0002.
pub const E0002: (&'static str, &'static str) = ("E0002", "a block comment is opened with /* and never closed");

/// Code and explanation: E0003.
pub const E0003: (&'static str, &'static str) = ("E0003", "a hexadecimal, octal or binary literal has no digit after its prefix");

/// Code and explanation: E0004.
pub const E0004: (&'static str, &'static str) = ("E0004", "a string-like literal is opened with ' and never closed");

/// Code and explanation: E0005.
pub const E0005: (&'static str, &'static str) = ("E0005", "unknown escape sequence after a backslash");

/// Code and explanation: E0006.
pub const E0006: (&'static str, &'static str) = ("E0006", "a \\x escape takes exactly two hexadecimal digits");

/// Code and explanation: E0007.
pub const E0007: (&'static str, &'static str) = ("E0007", "a \\u escape takes its digits between { and }");

/// Code and explanation: E0008.
pub const E0008: (&'static str, &'static str) = ("E0008", "the digits of a \\u escape do not name a Unicode scalar value");

/// Code and explanation: E0009.
pub const E0009: (&'static str, &'static str) = ("E0009", "invalid type hint after a literal");

/// Code and explanation: E0010.
pub const E0010: (&'static str, &'static str) = ("E0010", "unexpected identifier after a literal");

/// Code and explanation: E0011.
pub const E0011: (&'static str, &'static str) = ("E0011", "an expression was expected");

/// Code and explanation: E0012.
pub const E0012: (&'static str, &'static str) = ("E0012", "a specific token was expected");

/// Code and explanation: E0013.
pub const E0013: (&'static str, &'static str) = ("E0013", "a function name was expected");

/// Code and explanation: E0014.
pub const E0014: (&'static str, &'static str) = ("E0014", "an included file could not be loaded or compiled");

/// How serious a diagnostic is. A fatal error halts the stage that raised it.
#[derive(Debug, Clone, Copy, PartialEq, Eq, Structural)]
pub enum Severity {
    Info,
    Warning,
    Error,
    FatalError,
}

/// One diagnostic. Note `i` is the label `pieces[i]`, if any, at `spans[i]`.
#[derive(Debug)]
pub struct Error {
    pub message: String,
    pub pieces: Vec<Option<String>>,
    pub spans: Vec<Span>,
    pub severity: Severity,
    pub code: &'static str,
}

/// Mathematical model of a diagnostic: its message, its code, its severity,
/// and for each note its label, if it has one, and where it points.
pub struct ErrorView {
    pub message: Seq<char>,
    pub code: Seq<char>,
    pub severity: Severity,
    pub labels: Seq<Option<Seq<char>>>,
    pub spans: Seq<Span>,
}

/// The model of the label of a note.
pub open spec fn label_view(piece: Option<String>) -> Option<Seq<char>> {
    match piece {
        Some(label) => Some(label@),
        None => None,
    }
}

/// The models of the labels of the notes, in order.
pub open spec fn label_views(pieces: Seq<Option<String>>) -> Seq<Option<Seq<char>>> {
    Seq::new(pieces.len(), |i: int| label_view(pieces[i]))
}

/// The model of a label given as text.
pub open spec fn given(label: Option<&str>) -> Option<Seq<char>> {
    match label {
        Some(text) => Some(text@),
        None => None,
    }
}

impl View for Error {
    type V = ErrorView;

    open spec fn view(&self) -> ErrorView {
        ErrorView {
            message: self.message@,
            code: self.code@,
            severity: self.severity,
            labels: label_views(self.pieces@),
            spans: self.spans@,
        }
    }
}

impl Error {
    pub fn new(message: String, code: &'static str, severity: Severity) -> (error: Self)
        ensures
            error.message == message,
            error.code == code,
            error.severity == severity,
            error.pieces@.len() == 0,
            error.spans@.len() == 0,
    {
        Self { message, pieces: Vec::new(), spans: Vec::new(), code, severity }
    }

    /// Adds a note: the label that `piece` converts to, at `span`. The notes
    /// that the diagnostic had stay as they were.
    pub fn push<T: Into<Option<String>>>(&mut self, piece: T, span: Span) -> (same: &mut Self)
        ensures
            same.spans@ == old(self).spans@.push(span),
            same.pieces@.len() == old(self).pieces@.len() + 1,
            same.pieces@.drop_last() == old(self).pieces@,
            call_ensures(T::into, (piece,), same.pieces@.last()),
            same.message == old(self).message,
            same.code == old(self).code,
            same.severity == old(self).severity,
            *final(self) == *final(same),
    {
        let label: Option<String> = piece.into();
        self.push_label(label, span)
    }

    /// Adds a note with the label `piece`, if any, at `span`.
    pub fn push_label(&mut self, piece: Option<String>, span: Span) -> (same: &mut Self)
        ensures
            same.spans@ == old(self).spans@.push(span),
            same.pieces@ == old(self).pieces@.push(piece),
            same.message == old(self).message,
            same.code == old(self).code,
            same.severity == old(self).severity,
            same@.labels == old(self)@.labels.push(label_view(piece)),
            *final(self) == *final(same),
    {
        self.pieces.push(piece);
        self.spans.push(span);
        assert(label_views(self.pieces@) =~= label_views(old(self).pieces@).push(
            label_view(piece),
        ));
        self
    }

    /// Whether the diagnostic halts the stage that raised it.
    pub fn fatal(&self) -> (r: bool)
        ensures
            r == (self.severity == Severity::FatalError),
    {
        match self.severity {
            Severity::FatalError => true,
            _ => false,
        }
    }

    /// A diagnostic with one note.
    pub fn with_note(
        message: String,
        code: &'static str,
        severity: Severity,
        label: Option<&str>,
        span: Span,
    ) -> (error: Self)
        ensures
            error@ == (ErrorView {
                message: message@,
                code: code@,
                severity,
                labels: seq![given(label)],
                spans: seq![span],
            }),
    {
        let mut pieces: Vec<Option<String>> = Vec::new();
        let mut spans: Vec<Span> = Vec::new();
        pieces.push(owned(label));
        spans.push(span);
        assert(spans@ =~= seq![span]);
        assert(label_views(pieces@) =~= seq![given(label)]);
        Self { message, pieces, spans, severity, code }
    }

    /// A diagnostic with two notes.
    pub fn with_notes(
        message: String,
        code: &'static str,
        severity: Severity,
        first: (Option<&str>, Span),
        second: (Option<&str>, Span),
    ) -> (error: Self)
        ensures
            error@ == (ErrorView {
                message: message@,
                code: code@,
                severity,
                labels: seq![given(first.0), given(second.0)],
                spans: seq![first.1, second.1],
            }),
    {
        let mut pieces: Vec<Option<String>> = Vec::new();
        let mut spans: Vec<Span> = Vec::new();
        pieces.push(owned(first.0));
        spans.push(first.1);
        pieces.push(owned(second.0));
        spans.push(second.1);
        assert(spans@ =~= seq![first.1, second.1]);
        assert(label_views(pieces@) =~= seq![given(first.0), given(second.0)]);
        Self { message, pieces, spans, severity, code }
    }
}

fn owned(label: Option<&str>) -> (r: Option<String>)
    ensures
        label_view(r) == given(label),
{
    match label {
        Some(text) => Some(text.to_owned()),
        None => None,
    }
}

/// The models of a sequence of diagnostics, in order.
pub open spec fn error_views(errors: Seq<Error>) -> Seq<ErrorView> {
    Seq::new(errors.len(), |i: int| errors[i]@)
}

/// The models of a sequence with one more diagnostic.
pub proof fn lemma_views_push(errors: Seq<Error>, e: Error)
    ensures
        error_views(errors.push(e)) == error_views(errors).push(e@),
{
    assert(error_views(errors.push(e)) =~= error_views(errors).push(e@));
}

/// The models of two sequences of diagnostics, one after the other.
pub proof fn lemma_views_concat(a: Seq<Error>, b: Seq<Error>)
    ensures
        error_views(a + b) == error_views(a) + error_views(b),
{
    assert(error_views(a + b) =~= error_views(a) + error_views(b));
}

/// Number of characters of `text` that start before byte `position`.
pub open spec fn chars_before(text: Seq<char>, position: int, from: int) -> int
    decreases text.len() - from,
{
    if from < 0 || from >= text.len() || byte_offset(text, from) >= position {
        from
    } else {
        chars_before(text, position, from + 1)
    }
}

/// Line and column, both from zero, reached after the first `count`
/// characters of `text`: a line feed starts a new line.
pub open spec fn line_col(text: Seq<char>, count: int) -> (int, int)
    decreases count,
{
    if count <= 0 || count > text.len() {
        (0, 0)
    } else {
        let (line, col) = line_col(text, count - 1);
        if text[count - 1] == '\n' {
            (line + 1, 0)
        } else {
            (line, col + 1)
        }
    }
}

pub proof fn lemma_line_col_bounds(text: Seq<char>, count: int)
    requires
        0 <= count <= text.len(),
    ensures
        0 <= line_col(text, count).0 <= count,
        0 <= line_col(text, count).1 <= count,
    decreases count,
{
    if count > 0 {
        lemma_line_col_bounds(text, count - 1);
    }
}

/// Line and column, both from zero, of the character at byte `position`.
pub fn find_line_col(source: &Source, position: u32) -> (at: (usize, usize))
    ensures
        (at.0 as int, at.1 as int) == line_col(
            source.text(),
            chars_before(source.text(), position as int, 0),
        ),
        at.0 <= position,
        at.1 <= position,
{
    let chars = chars_of(source.string());
    let ghost text = source.text();
    let mut line: usize = 0;
    let mut chr: usize = 0;
    let mut index: usize = 0;
    let mut offset: u64 = 0;
    while index < chars.len() && offset < position as u64
        invariant
            chars@ == text,
            0 <= index <= text.len(),
            offset == byte_offset(text, index as int),
            index <= offset,
            index <= position,
            line <= index,
            chr <= index,
            chars_before(text, position as int, 0) == chars_before(
                text,
                position as int,
                index as int,
            ),
            (line as int, chr as int) == line_col(text, index as int),
        decreases text.len() - index,
    {
        proof {
            lemma_line_col_bounds(text, index as int + 1);
        }
        let c = chars[index];
        if c == '\n' {
            line = line + 1;
            chr = 0;
        } else {
            chr = chr + 1;
        }
        offset = offset + char_width(c) as u64;
        index = index + 1;
    }
    (line, chr)
}

/// Number of line feeds in the source.
pub fn lines(file: &Source) -> (count: usize)
    ensures
        count == line_col(file.text(), file.text().len() as int).0,
{
    let chars = chars_of(file.string());
    let mut count: usize = 0;
    let mut index: usize = 0;
    let mut col: Ghost<int> = Ghost(0);
    while index < chars.len()
        invariant
            chars@ == file.text(),
            0 <= index <= chars@.len(),
            (count as int, col@) == line_col(chars@, index as int),
        decreases chars@.len() - index,
    {
        proof {
            lemma_line_col_bounds(chars@, index as int + 1);
        }
        if chars[index] == '\n' {
            count = count + 1;
            proof {
                col@ = 0;
            }
        } else {
            proof {
                col@ = col@ + 1;
            }
        }
        index = index + 1;
    }
    count
}

/// Mathematical model of a group of notes that are shown together: the
/// file, the first and the last line shown, and the notes of the group.
pub struct FusedView {
    pub file: usize,
    pub start: usize,
    pub end: usize,
    pub members: Seq<usize>,
}

/// The model of a group.
pub open spec fn fused_view(group: (usize, usize, usize, Vec<usize>)) -> FusedView {
    FusedView { file: group.0, start: group.1, end: group.2, members: group.3@ }
}

/// The models of a sequence of groups, in order.
pub open spec fn fused_views(groups: Seq<(usize, usize, usize, Vec<usize>)>) -> Seq<FusedView> {
    Seq::new(groups.len(), |i: int| fused_view(groups[i]))
}

/// The ranges of lines overlap within one file.
pub open spec fn overlaps(group: FusedView, range: (usize, usize, usize)) -> bool {
    group.file == range.0 && range.1 < group.end && group.start < range.2
}

/// Position of the first group at or after `from` that `range` overlaps,
/// or the number of groups.
pub open spec fn overlapped(groups: Seq<FusedView>, range: (usize, usize, usize), from: int) -> int
    decreases groups.len() - from,
{
    if from < 0 || from >= groups.len() || overlaps(groups[from], range) {
        from
    } else {
        overlapped(groups, range, from + 1)
    }
}

/// The groups with the range of note `index` taken in: the first group
/// that it overlaps grows to cover it, and a range that overlaps no group
/// makes a group of its own.
pub open spec fn fused_with(groups: Seq<FusedView>, range: (usize, usize, usize), index: usize) -> Seq<
    FusedView,
> {
    let at = overlapped(groups, range, 0);
    if at < groups.len() {
        groups.update(
            at,
            FusedView {
                file: groups[at].file,
                start: if groups[at].start <= range.1 {
                    groups[at].start
                } else {
                    range.1
                },
                end: if groups[at].end >= range.2 {
                    groups[at].end
                } else {
                    range.2
                },
                members: groups[at].members.push(index),
            },
        )
    } else {
        groups.push(
            FusedView { file: range.0, start: range.1, end: range.2, members: seq![index] },
        )
    }
}

/// The groups that the first `n` ranges fuse into, taken in order.
pub open spec fn fused(spans: Seq<(usize, usize, usize)>, n: nat) -> Seq<FusedView>
    decreases n,
{
    if n == 0 || n > spans.len() {
        Seq::empty()
    } else {
        fused_with(fused(spans, (n - 1) as nat), spans[n - 1], (n - 1) as usize)
    }
}

/// Fuses ranges of lines, each given as file, first line and line after
/// the last, into groups that are shown together.
pub fn fuse(spans: &[(usize, usize, usize)]) -> (output: Vec<(usize, usize, usize, Vec<usize>)>)
    ensures
        fused_views(output@) == fused(spans@, spans@.len() as nat),
{
    let mut output: Vec<(usize, usize, usize, Vec<usize>)> = Vec::new();
    assert(fused_views(output@) =~= Seq::empty());
    let mut n: usize = 0;
    while n < spans.len()
        invariant
            0 <= n <= spans@.len(),
            fused_views(output@) == fused(spans@, n as nat),
        decreases spans@.len() - n,
    {
        let range = spans[n];
        let ghost groups = fused_views(output@);
        let mut at: usize = 0;
        while at < output.len() && !(output[at].0 == range.0 && range.1 < output[at].2
            && output[at].1 < range.2)
            invariant
                0 <= at <= output@.len(),
                groups == fused_views(output@),
                overlapped(groups, range, 0) == overlapped(groups, range, at as int),
            decreases output@.len() - at,
        {
            at = at + 1;
        }
        if at < output.len() {
            let (file, start, end, mut members) = output.remove(at);
            members.push(n);
            let start = if start <= range.1 {
                start
            } else {
                range.1
            };
            let end = if end >= range.2 {
                end
            } else {
                range.2
            };
            output.insert(at, (file, start, end, members));
            assert(fused_views(output@) =~= fused_with(groups, range, n));
        } else {
            let mut members: Vec<usize> = Vec::new();
            members.push(n);
            output.push((range.0, range.1, range.2, members));
            assert(fused_views(output@) =~= fused_with(groups, range, n));
        }
        n = n + 1;
    }
    output
}

/// The diagnostic that lists the tokens: one note for each token, at its
/// span and labelled with the name of its kind.
pub fn print_tokens(tokens: &[Token]) -> (listing: Error)
    ensures
        listing@.message == "tokens"@,
        listing@.code == "debug"@,
        listing@.severity == Severity::Info,
        listing@.spans == Seq::new(tokens@.len(), |i: int| tokens@[i].span),
        listing@.labels == Seq::new(
            tokens@.len(),
            |i: int| Some(tokens@[i].tt@.name()),
        ),
{
    let mut listing = Error::new(String::from_str("tokens"), "debug", Severity::Info);
    let mut i: usize = 0;
    while i < tokens.len()
        invariant
            0 <= i <= tokens@.len(),
            listing.message@ == "tokens"@,
            listing.code@ == "debug"@,
            listing.severity == Severity::Info,
            listing.spans@ == Seq::new(i as nat, |k: int| tokens@[k].span),
            listing.pieces@.len() == i,
            forall|k: int|
                0 <= k < i ==> label_view(#[trigger] listing.pieces@[k]) == Some(
                    tokens@[k].tt@.name(),
                ),
        decreases tokens@.len() - i,
    {
        let label = String::from_str(tokens[i].tt.name_for_errors());
        listing.pieces.push(Some(label));
        listing.spans.push(tokens[i].span);
        assert(listing.spans@ =~= Seq::new((i + 1) as nat, |k: int| tokens@[k].span));
        i = i + 1;
    }
    assert(label_views(listing.pieces@) =~= Seq::new(
        tokens@.len(),
        |i: int| Some(tokens@[i].tt@.name()),
    ));
    listing
}

/// How a severity reads at the head of a diagnostic, with its colour.
pub open spec fn severity_text(severity: Severity) -> Seq<char> {
    match severity {
        Severity::Warning => "\x1B[33mwarning"@,
        Severity::Error => "\x1B[31merror"@,
        Severity::FatalError => "\x1B[31mfatal error"@,
        Severity::Info => "\x1B[36minfo"@,
    }
}

/// The characters that `text` holds between the byte offsets `from` and
/// `to`.
pub open spec fn slice(text: Seq<char>, from: int, to: int) -> Seq<char> {
    decode_utf8(encode_utf8(text).subrange(from, to))
}

/// The label of a note, or `here` for a note without one.
pub open spec fn label_text(piece: Option<String>) -> Seq<char> {
    match piece {
        Some(label) => label@,
        None => "here"@,
    }
}

/// Number of bytes shown before and after the range of a note.
pub const MARGIN: usize = 5;

/// `acc` with note `i` of the diagnostic: its label, where it points, by
/// file, line and column counted from one, and the text there between
/// margins, the range of the note set off by its colour.
pub open spec fn note_onto(acc: Seq<char>, error: Error, sources: Loader, i: int) -> Seq<char> {
    let span = error.spans@[i];
    let source = sources.sources()[span.file as int];
    let text = source.text();
    let at = line_col(text, chars_before(text, span.start as int, 0));
    acc + "\x1B[34m"@ + label_text(error.pieces@[i]) + "\x1B[0m\n"@ + "--> \x1B[34m"@
        + source.origin() + "\x1B[0m:\x1B[34m"@ + decimal((at.0 + 1) as nat)
        + "\x1B[0m:\x1B[34m"@ + decimal((at.1 + 1) as nat) + "\x1B[0m\n"@ + slice(
        text,
        margin_start(span, MARGIN as int),
        span.start as int,
    ) + "\x1B[36m"@ + slice(text, span.start as int, span.end as int) + "\x1B[0m"@ + slice(
        text,
        span.end as int,
        margin_end(span, MARGIN as int, text),
    ) + "\n"@
}

/// `acc` with the first `n` notes of the diagnostic.
pub open spec fn notes_onto(acc: Seq<char>, error: Error, sources: Loader, n: nat) -> Seq<char>
    decreases n,
{
    if n == 0 {
        acc
    } else {
        note_onto(notes_onto(acc, error, sources, (n - 1) as nat), error, sources, n - 1)
    }
}

/// The diagnostic as text: its severity, its code and its message on one
/// line, then its notes.
pub open spec fn error_text(error: Error, sources: Loader) -> Seq<char> {
    notes_onto(
        severity_text(error.severity) + " ("@ + error.code@ + "):\x1B[0m "@ + error.message@
            + "\n"@,
        error,
        sources,
        error.spans@.len(),
    )
}

/// Note `i` of the diagnostic can be shown: its span holds in the loader,
/// and the margins around it end on character boundaries.
pub open spec fn showable(error: Error, sources: Loader, i: int) -> bool {
    let span = error.spans@[i];
    let text = sources.sources()[span.file as int].text();
    &&& sources.holds(span)
    &&& is_boundary(text, margin_start(span, MARGIN as int))
    &&& is_boundary(text, margin_end(span, MARGIN as int, text))
}

/// The diagnostic as text: its severity, its code and its message, then
/// each note with its label, the place where it points and the text there.
pub fn print_error(error: &Error, sources: &Loader) -> (text: String)
    requires
        error.pieces@.len() == error.spans@.len(),
        forall|i: int| 0 <= i < error.spans@.len() ==> showable(*error, *sources, i),
    ensures
        text@ == error_text(*error, *sources),
{
    let mut text = String::from_str(
        match error.severity {
            Severity::Warning => "\x1B[33mwarning",
            Severity::Error => "\x1B[31merror",
            Severity::FatalError => "\x1B[31mfatal error",
            Severity::Info => "\x1B[36minfo",
        },
    );
    put(&mut text, " (");
    put(&mut text, error.code);
    put(&mut text, "):\x1B[0m ");
    put(&mut text, error.message.as_str());
    put(&mut text, "\n");
    let ghost start = text@;
    let mut i: usize = 0;
    while i < error.spans.len()
        invariant
            0 <= i <= error.spans@.len(),
            error.pieces@.len() == error.spans@.len(),
            forall|k: int| 0 <= k < error.spans@.len() ==> showable(*error, *sources, k),
            text@ == notes_onto(start, *error, *sources, i as nat),
        decreases error.spans@.len() - i,
    {
        assert(showable(*error, *sources, i as int));
        let span = error.spans[i];
        let source = sources.get_file(span.file);
        let at = find_line_col(source, span.start);
        put(&mut text, "\x1B[34m");
        match &error.pieces[i] {
            Some(label) => put(&mut text, label.as_str()),
            None => put(&mut text, "here"),
        }
        put(&mut text, "\x1B[0m\n");
        put(&mut text, "--> \x1B[34m");
        match source.src() {
            Some(name) => put(&mut text, name),
            None => {},
        }
        put(&mut text, "\x1B[0m:\x1B[34m");
        push_decimal(&mut text, at.0 as u64 + 1);
        put(&mut text, "\x1B[0m:\x1B[34m");
        push_decimal(&mut text, at.1 as u64 + 1);
        put(&mut text, "\x1B[0m\n");
        let (left, mid, right) = sources.span_content_with_margins(span, MARGIN, MARGIN);
        proof {
            encode_utf8_decode_utf8(left@);
            encode_utf8_decode_utf8(mid@);
            encode_utf8_decode_utf8(right@);
        }
        put(&mut text, left);
        put(&mut text, "\x1B[36m");
        put(&mut text, mid);
        put(&mut text, "\x1B[0m");
        put(&mut text, right);
        put(&mut text, "\n");
        i = i + 1;
    }
    text
}

} // verus!

