//! A diagnostic shown with the lines that its notes point into: notes on
//! one line are underlined, notes over several lines are bracketed on the
//! right of the text.

use vstd::prelude::*;
use vstd::string::{StringExecFns};
use crate::errors::{
    chars_before, find_line_col, fuse, fused, fused_view, fused_views, label_text, line_col,
    lines, overlapped, overlaps, severity_text, Error, FusedView, Severity,
};
use crate::loader::Loader;
use crate::text::{chars_of, decimal, push_chars, push_decimal, put};

verus! {

/// The character `c`, `n` times.
pub open spec fn repeated(c: char, n: int) -> Seq<char> {
    Seq::new(
        if n > 0 {
            n as nat
        } else {
            0
        },
        |i: int| c,
    )
}

/// `a - b`, or zero where `b` is the larger.
pub open spec fn less(a: int, b: int) -> int {
    if a > b {
        a - b
    } else {
        0
    }
}

/// Width of the column of line numbers beside line `line`, counted from
/// zero: the digits of `line + 49`, and two more.
pub open spec fn gutter(line: int) -> int {
    decimal((line + 49) as nat).len() as int + 2
}

/// `acc` with the start of a line that holds no text of the source: the
/// column of line numbers left blank.
pub open spec fn line_start_onto(acc: Seq<char>, line: int) -> Seq<char> {
    acc + "\x1B[34m"@ + repeated(' ', gutter(line)) + " : \x1B[0m"@
}

/// The lines that end among the first `n` characters of `text`, each
/// without its line feed, and the characters of the line that is open
/// after them.
pub open spec fn cut(text: Seq<char>, n: int) -> (Seq<Seq<char>>, Seq<char>)
    decreases n,
{
    if n <= 0 || n > text.len() {
        (Seq::empty(), Seq::empty())
    } else {
        let (done, open) = cut(text, n - 1);
        if text[n - 1] == '\n' {
            (done.push(open), Seq::empty())
        } else {
            (done, open.push(text[n - 1]))
        }
    }
}

/// The lines of `text`: what stands between its line feeds, and after the
/// last of them if anything does.
pub open spec fn rows_of(text: Seq<char>) -> Seq<Seq<char>> {
    let (done, open) = cut(text, text.len() as int);
    if open.len() > 0 {
        done.push(open)
    } else {
        done
    }
}

/// Number of lines of `text` that end with a line feed.
pub open spec fn ended_rows(text: Seq<char>) -> int {
    cut(text, text.len() as int).0.len() as int
}

/// Number of characters of line `i` that take room: a carriage return
/// before the line feed takes none.
pub open spec fn shown_len(rows: Seq<Seq<char>>, ended: int, i: int) -> int {
    let row = rows[i];
    if i < ended && row.len() > 0 && row.last() == '\r' {
        row.len() - 1
    } else {
        row.len() as int
    }
}

/// The most room that a line from `from` up to `to` takes.
pub open spec fn widest(rows: Seq<Seq<char>>, ended: int, from: int, to: int) -> int
    decreases to - from,
{
    if to <= from {
        0
    } else {
        let rest = widest(rows, ended, from, to - 1);
        let here = shown_len(rows, ended, to - 1);
        if here > rest {
            here
        } else {
            rest
        }
    }
}

/// Where a note starts and ends, each as line and column from zero, and
/// which note of the diagnostic it is.
#[derive(Clone, Copy, Debug)]
pub struct Placed {
    pub from: (usize, usize),
    pub to: (usize, usize),
    pub note: usize,
}

impl Placed {
    /// The note starts and ends on one line.
    pub open spec fn on_one_line(self) -> bool {
        self.from.0 == self.to.0
    }
}

/// Note `i` of the diagnostic, placed in its source.
pub open spec fn placed(error: Error, sources: Loader, i: int) -> Placed {
    let span = error.spans@[i];
    let text = sources.sources()[span.file as int].text();
    let from = line_col(text, chars_before(text, span.start as int, 0));
    let to = line_col(text, chars_before(text, span.end as int, 0));
    Placed {
        from: (from.0 as usize, from.1 as usize),
        to: (to.0 as usize, to.1 as usize),
        note: i as usize,
    }
}

/// Those of the first `n` notes of the diagnostic that `members` names,
/// placed, in the order of the diagnostic.
pub open spec fn relevant(error: Error, sources: Loader, members: Seq<usize>, n: nat) -> Seq<
    Placed,
>
    decreases n,
{
    if n == 0 {
        Seq::empty()
    } else {
        let rest = relevant(error, sources, members, (n - 1) as nat);
        if members.contains((n - 1) as usize) {
            rest.push(placed(error, sources, n - 1))
        } else {
            rest
        }
    }
}

/// The lines shown for note `i`: its file, the second line before its
/// start, and the line after the second line behind its end, no further
/// than one line after the last line feed.
pub open spec fn range_of(error: Error, sources: Loader, i: int) -> (usize, usize, usize) {
    let span = error.spans@[i];
    let text = sources.sources()[span.file as int].text();
    let from = line_col(text, chars_before(text, span.start as int, 0)).0;
    let to = line_col(text, chars_before(text, span.end as int, 0)).0;
    let total = line_col(text, text.len() as int).0;
    (
        span.file,
        less(from, 2) as usize,
        if to + 3 <= total {
            (to + 3) as usize
        } else if total < usize::MAX {
            (total + 1) as usize
        } else {
            total as usize
        },
    )
}

/// The lines shown for each of the first `n` notes.
pub open spec fn ranges(error: Error, sources: Loader, n: nat) -> Seq<(usize, usize, usize)> {
    Seq::new(n, |i: int| range_of(error, sources, i))
}

/// What the lines of one group are drawn from: the lines of the file,
/// how many of them end with a line feed, the notes of the group, the
/// labels of the diagnostic, and the room that the widest line takes.
pub struct Sheet {
    pub rows: Seq<Seq<char>>,
    pub ended: int,
    pub notes: Seq<Placed>,
    pub pieces: Seq<Option<String>>,
    pub width: int,
}

/// The text so far, and the notes over several lines that are open, in
/// the order in which they were opened, each by its place in the group.
pub struct Frame {
    pub text: Seq<char>,
    pub stack: Seq<usize>,
}

/// Position of the first `k` in `stack` at or after `from`, or the length
/// of `stack`.
pub open spec fn first_at(stack: Seq<usize>, k: usize, from: int) -> int
    decreases stack.len() - from,
{
    if from < 0 || from >= stack.len() || stack[from] == k {
        from
    } else {
        first_at(stack, k, from + 1)
    }
}

/// The frame before line `line`, with a bracket opened for each of the
/// first `k` notes of the group that start on this line and end on
/// another: a `v` above the column where the note starts, drawn out to
/// the right of the text.
pub open spec fn opened(f: Frame, sheet: Sheet, line: int, k: int) -> Frame
    decreases k,
{
    if k <= 0 {
        f
    } else {
        let g = opened(f, sheet, line, k - 1);
        let p = sheet.notes[k - 1];
        if p.from.0 == line && !p.on_one_line() {
            Frame {
                text: line_start_onto(g.text, line) + repeated(' ', less(p.from.1 as int, 1))
                    + "\x1B[36mv"@ + repeated(
                    '-',
                    less(sheet.width + g.stack.len(), p.from.1 as int),
                ) + "\\\x1B[0m\n"@,
                stack: g.stack.push((k - 1) as usize),
            }
        } else {
            g
        }
    }
}

/// `acc` with line `line` of the source behind its number, counted from
/// one; where `depth` brackets are open, the line is filled up to the
/// widest and a bar follows for each.
pub open spec fn row_onto(acc: Seq<char>, sheet: Sheet, line: int, depth: int) -> Seq<char> {
    let number = decimal((line + 1) as nat);
    let head = acc + "\x1B[34m"@ + repeated(' ', less(gutter(line), number.len() as int)) + number
        + " | \x1B[0m"@ + sheet.rows[line];
    if depth == 0 {
        head + "\n"@
    } else {
        head + repeated(' ', less(sheet.width, shown_len(sheet.rows, sheet.ended, line)))
            + "\x1B[36m"@ + repeated('|', depth) + "\x1B[0m\n"@
    }
}

/// `acc` with a line for each of the first `k` notes of the group that
/// start and end on line `line`: the columns of the note underlined, and
/// its label.
pub open spec fn underlined(acc: Seq<char>, sheet: Sheet, line: int, k: int) -> Seq<char>
    decreases k,
{
    if k <= 0 {
        acc
    } else {
        let rest = underlined(acc, sheet, line, k - 1);
        let p = sheet.notes[k - 1];
        if p.to.0 == line && p.on_one_line() {
            let span = less(p.to.1 as int, p.from.1 as int);
            let mark = line_start_onto(rest, line) + repeated(' ', p.from.1 as int)
                + "\x1B[36m^"@;
            let drawn = if span > 1 {
                mark + repeated('-', span - 2) + "^"@
            } else {
                mark
            };
            drawn + " "@ + label_text(sheet.pieces[p.note as int]) + "\x1B[0m\n"@
        } else {
            rest
        }
    }
}

/// The frame behind line `line`, with the bracket closed of each of the
/// first `k` notes of the group that end on this line, started on
/// another and are open: a line on which its bar ends, and a line that
/// leads from the right of the text to the column where the note ends.
pub open spec fn shut(f: Frame, sheet: Sheet, line: int, k: int) -> Frame
    decreases k,
{
    if k <= 0 {
        f
    } else {
        let g = shut(f, sheet, line, k - 1);
        let p = sheet.notes[k - 1];
        let at = first_at(g.stack, (k - 1) as usize, 0);
        if p.to.0 == line && !p.on_one_line() && at < g.stack.len() {
            Frame {
                text: line_start_onto(
                    line_start_onto(g.text, line) + repeated(' ', sheet.width) + "\x1B[36m"@
                        + repeated(':', at) + "|"@ + repeated(':', g.stack.len() - at - 1)
                        + "\x1B[0m\n"@,
                    line,
                ) + repeated(' ', p.to.1 as int) + "\x1B[36m^"@ + repeated(
                    '-',
                    less(less(sheet.width + at, p.to.1 as int), 1),
                ) + "/\x1B[0m\n"@,
                stack: g.stack.remove(at),
            }
        } else {
            g
        }
    }
}

/// The frame with line `line`: the brackets that open above it, the line
/// itself, what is underlined on it, and the brackets that close below.
pub open spec fn line_frame(f: Frame, sheet: Sheet, line: int) -> Frame {
    let above = opened(f, sheet, line, sheet.notes.len() as int);
    let row = row_onto(above.text, sheet, line, above.stack.len() as int);
    let marked = underlined(row, sheet, line, sheet.notes.len() as int);
    shut(Frame { text: marked, stack: above.stack }, sheet, line, sheet.notes.len() as int)
}

/// The frame with the lines from `from` up to `to`.
pub open spec fn lines_frame(f: Frame, sheet: Sheet, from: int, to: int) -> Frame
    decreases to - from,
{
    if to <= from {
        f
    } else {
        line_frame(lines_frame(f, sheet, from, to - 1), sheet, to - 1)
    }
}

/// The smaller of the two.
pub open spec fn least(a: int, b: int) -> int {
    if a <= b {
        a
    } else {
        b
    }
}

/// What the lines of a group are drawn from.
pub open spec fn sheet_of(error: Error, sources: Loader, group: FusedView) -> Sheet {
    let text = sources.sources()[group.file as int].text();
    let rows = rows_of(text);
    let last = least(group.end as int, rows.len() as int);
    let first = least(group.start as int, last);
    Sheet {
        rows,
        ended: ended_rows(text),
        notes: relevant(error, sources, group.members, error.spans@.len()),
        pieces: error.pieces@,
        width: widest(rows, ended_rows(text), first, last),
    }
}

/// `acc` with the lines of a group, as far as its file has them.
pub open spec fn group_onto(acc: Seq<char>, error: Error, sources: Loader, group: FusedView) -> Seq<
    char,
> {
    let sheet = sheet_of(error, sources, group);
    let last = least(group.end as int, sheet.rows.len() as int);
    let first = least(group.start as int, last);
    lines_frame(Frame { text: acc, stack: Seq::empty() }, sheet, first, last).text
}

/// `acc` with the lines of the first `n` groups.
pub open spec fn groups_onto(
    acc: Seq<char>,
    error: Error,
    sources: Loader,
    groups: Seq<FusedView>,
    n: nat,
) -> Seq<char>
    decreases n,
{
    if n == 0 {
        acc
    } else {
        group_onto(
            groups_onto(acc, error, sources, groups, (n - 1) as nat),
            error,
            sources,
            groups[n - 1],
        )
    }
}

/// The diagnostic with the lines of its notes: its severity, its code and
/// its message on one line; then, for each group of notes whose lines
/// overlap, those lines with their numbers, the notes marked on them.
pub open spec fn framed_text(error: Error, sources: Loader) -> Seq<char> {
    let groups = fused(ranges(error, sources, error.spans@.len()), error.spans@.len());
    groups_onto(
        severity_text(error.severity) + " ("@ + error.code@ + "):\x1B[0m "@ + error.message@
            + "\n"@,
        error,
        sources,
        groups,
        groups.len(),
    )
}

proof fn lemma_overlapped_bounds(groups: Seq<FusedView>, range: (usize, usize, usize), from: int)
    requires
        0 <= from <= groups.len(),
    ensures
        from <= overlapped(groups, range, from) <= groups.len(),
    decreases groups.len() - from,
{
    if from < groups.len() && !overlaps(groups[from], range) {
        lemma_overlapped_bounds(groups, range, from + 1);
    }
}

/// Every group lies in the file of one of its ranges: where every range
/// names a file below `limit`, so does every group.
pub proof fn lemma_fused_files(spans: Seq<(usize, usize, usize)>, n: nat, limit: int)
    requires
        n <= spans.len(),
        forall|i: int| 0 <= i < spans.len() ==> (#[trigger] spans[i]).0 < limit,
    ensures
        forall|g: int| 0 <= g < fused(spans, n).len() ==> (#[trigger] fused(spans, n)[g]).file < limit,
    decreases n,
{
    if n > 0 {
        let before = fused(spans, (n - 1) as nat);
        lemma_fused_files(spans, (n - 1) as nat, limit);
        lemma_overlapped_bounds(before, spans[n - 1], 0);
        assert(spans[n - 1].0 < limit);
    }
}

fn put_repeated(out: &mut String, c: char, n: u128)
    ensures
        final(out)@ == old(out)@ + repeated(c, n as int),
{
    let mut i: u128 = 0;
    assert(out@ =~= old(out)@ + repeated(c, 0));
    while i < n
        invariant
            0 <= i <= n,
            out@ == old(out)@ + repeated(c, i as int),
        decreases n - i,
    {
        out.push(c);
        i = i + 1;
        assert(out@ =~= old(out)@ + repeated(c, i as int));
    }
}

/// Number of decimal digits of `n`.
fn digits(n: u128) -> (count: u128)
    ensures
        count == decimal(n as nat).len(),
        9 * (count - 1) <= n,
{
    let mut rest: u128 = n;
    let mut count: u128 = 1;
    while rest >= 10
        invariant
            count >= 1,
            9 * (count - 1) + rest <= n,
            decimal(n as nat).len() == decimal(rest as nat).len() + count - 1,
        decreases rest,
    {
        rest = rest / 10;
        count = count + 1;
    }
    count
}

fn gutter_of(line: usize) -> (width: u128)
    ensures
        width == gutter(line as int),
{
    digits(line as u128 + 49) + 2
}

fn put_line_start(out: &mut String, line: usize)
    ensures
        final(out)@ == line_start_onto(old(out)@, line as int),
{
    put(out, "\x1B[34m");
    put_repeated(out, ' ', gutter_of(line));
    put(out, " : \x1B[0m");
}

/// The models of a sequence of lines, in order.
pub open spec fn row_views(rows: Seq<Vec<char>>) -> Seq<Seq<char>> {
    Seq::new(rows.len(), |i: int| rows[i]@)
}

/// The lines of the text, and how many of them end with a line feed.
fn rows_in(chars: &Vec<char>) -> (r: (Vec<Vec<char>>, usize))
    ensures
        row_views(r.0@) == rows_of(chars@),
        r.1 == ended_rows(chars@),
{
    let mut done: Vec<Vec<char>> = Vec::new();
    let mut open: Vec<char> = Vec::new();
    let mut n: usize = 0;
    assert(row_views(done@) =~= Seq::empty());
    while n < chars.len()
        invariant
            0 <= n <= chars@.len(),
            done@.len() <= n,
            (row_views(done@), open@) == cut(chars@, n as int),
        decreases chars@.len() - n,
    {
        let c = chars[n];
        if c == '\n' {
            let ghost before = done@;
            done.push(open);
            assert(row_views(done@) =~= row_views(before).push(open@));
            open = Vec::new();
        } else {
            open.push(c);
        }
        n = n + 1;
    }
    let ended = done.len();
    if open.len() > 0 {
        let ghost before = done@;
        done.push(open);
        assert(row_views(done@) =~= row_views(before).push(open@));
    }
    (done, ended)
}

fn shown_len_of(rows: &Vec<Vec<char>>, ended: usize, i: usize) -> (n: usize)
    requires
        i < rows@.len(),
    ensures
        n == shown_len(row_views(rows@), ended as int, i as int),
{
    let row = &rows[i];
    if i < ended && row.len() > 0 && row[row.len() - 1] == '\r' {
        row.len() - 1
    } else {
        row.len()
    }
}

fn widest_of(rows: &Vec<Vec<char>>, ended: usize, from: usize, to: usize) -> (width: usize)
    requires
        from <= to <= rows@.len(),
    ensures
        width == widest(row_views(rows@), ended as int, from as int, to as int),
{
    let mut width: usize = 0;
    let mut i: usize = from;
    while i < to
        invariant
            from <= i <= to <= rows@.len(),
            width == widest(row_views(rows@), ended as int, from as int, i as int),
        decreases to - i,
    {
        let here = shown_len_of(rows, ended, i);
        if here > width {
            width = here;
        }
        i = i + 1;
    }
    width
}

fn names(members: &Vec<usize>, i: usize) -> (found: bool)
    ensures
        found == members@.contains(i),
{
    let mut k: usize = 0;
    while k < members.len()
        invariant
            0 <= k <= members@.len(),
            forall|j: int| 0 <= j < k ==> members@[j] != i,
        decreases members@.len() - k,
    {
        if members[k] == i {
            return true;
        }
        k = k + 1;
    }
    false
}

fn placed_of(error: &Error, sources: &Loader, members: &Vec<usize>) -> (notes: Vec<Placed>)
    requires
        forall|i: int| 0 <= i < error.spans@.len() ==> sources.holds(#[trigger] error.spans@[i]),
    ensures
        notes@ == relevant(*error, *sources, members@, error.spans@.len()),
        forall|k: int| 0 <= k < notes@.len() ==> (#[trigger] notes@[k]).note < error.spans@.len(),
{
    let mut notes: Vec<Placed> = Vec::new();
    let mut i: usize = 0;
    while i < error.spans.len()
        invariant
            0 <= i <= error.spans@.len(),
            forall|j: int|
                0 <= j < error.spans@.len() ==> sources.holds(#[trigger] error.spans@[j]),
            notes@ == relevant(*error, *sources, members@, i as nat),
            forall|k: int| 0 <= k < notes@.len() ==> (#[trigger] notes@[k]).note < error.spans@.len(),
        decreases error.spans@.len() - i,
    {
        if names(members, i) {
            let span = error.spans[i];
            assert(sources.holds(error.spans@[i as int]));
            let source = sources.get_file(span.file);
            let from = find_line_col(source, span.start);
            let to = find_line_col(source, span.end);
            notes.push(Placed { from, to, note: i });
        }
        i = i + 1;
    }
    notes
}

fn ranges_of(error: &Error, sources: &Loader) -> (shown: Vec<(usize, usize, usize)>)
    requires
        forall|i: int| 0 <= i < error.spans@.len() ==> sources.holds(#[trigger] error.spans@[i]),
    ensures
        shown@ == ranges(*error, *sources, error.spans@.len()),
{
    let mut shown: Vec<(usize, usize, usize)> = Vec::new();
    let mut i: usize = 0;
    while i < error.spans.len()
        invariant
            0 <= i <= error.spans@.len(),
            forall|j: int|
                0 <= j < error.spans@.len() ==> sources.holds(#[trigger] error.spans@[j]),
            shown@ =~= ranges(*error, *sources, i as nat),
        decreases error.spans@.len() - i,
    {
        let span = error.spans[i];
        assert(sources.holds(error.spans@[i as int]));
        let source = sources.get_file(span.file);
        let total = lines(source);
        let from = find_line_col(source, span.start).0;
        let to = find_line_col(source, span.end).0;
        let end: usize = if total >= 3 && to <= total - 3 {
            to + 3
        } else if total < usize::MAX {
            total + 1
        } else {
            total
        };
        shown.push((span.file, from.saturating_sub(2), end));
        i = i + 1;
    }
    shown
}

fn first_in(stack: &Vec<usize>, k: usize) -> (at: usize)
    ensures
        at == first_at(stack@, k, 0),
        at <= stack@.len(),
{
    let mut at: usize = 0;
    while at < stack.len() && stack[at] != k
        invariant
            0 <= at <= stack@.len(),
            first_at(stack@, k, 0) == first_at(stack@, k, at as int),
        decreases stack@.len() - at,
    {
        at = at + 1;
    }
    at
}

/// What the lines of one group are drawn from, as the printer holds it.
struct Page<'a> {
    rows: &'a Vec<Vec<char>>,
    ended: usize,
    notes: &'a Vec<Placed>,
    pieces: &'a Vec<Option<String>>,
    width: usize,
}

impl<'a> Page<'a> {
    spec fn sheet(&self) -> Sheet {
        Sheet {
            rows: row_views(self.rows@),
            ended: self.ended as int,
            notes: self.notes@,
            pieces: self.pieces@,
            width: self.width as int,
        }
    }

    spec fn wf(&self) -> bool {
        forall|k: int|
            0 <= k < self.notes@.len() ==> (#[trigger] self.notes@[k]).note < self.pieces@.len()
    }
}

fn open_brackets(out: &mut String, stack: &mut Vec<usize>, page: &Page, line: usize)
    ensures
        (Frame { text: final(out)@, stack: final(stack)@ }) == opened(
            Frame { text: old(out)@, stack: old(stack)@ },
            page.sheet(),
            line as int,
            page.notes@.len() as int,
        ),
{
    let mut k: usize = 0;
    while k < page.notes.len()
        invariant
            0 <= k <= page.notes@.len(),
            (Frame { text: out@, stack: stack@ }) == opened(
                Frame { text: old(out)@, stack: old(stack)@ },
                page.sheet(),
                line as int,
                k as int,
            ),
        decreases page.notes@.len() - k,
    {
        let p = page.notes[k];
        if p.from.0 == line && p.from.0 != p.to.0 {
            put_line_start(out, line);
            put_repeated(out, ' ', p.from.1.saturating_sub(1) as u128);
            put(out, "\x1B[36mv");
            let reach: u128 = page.width as u128 + stack.len() as u128;
            put_repeated(
                out,
                '-',
                if reach > p.from.1 as u128 {
                    reach - p.from.1 as u128
                } else {
                    0
                },
            );
            put(out, "\\\x1B[0m\n");
            stack.push(k);
        }
        k = k + 1;
    }
}

fn put_row(out: &mut String, page: &Page, line: usize, depth: usize)
    requires
        line < page.rows@.len(),
    ensures
        final(out)@ == row_onto(old(out)@, page.sheet(), line as int, depth as int),
{
    put(out, "\x1B[34m");
    let number: u128 = digits(line as u128 + 1);
    let room: u128 = gutter_of(line);
    put_repeated(
        out,
        ' ',
        if room > number {
            room - number
        } else {
            0
        },
    );
    assert(line < page.rows.len());
    push_decimal(out, line as u64 + 1);
    put(out, " | \x1B[0m");
    push_chars(out, &page.rows[line]);
    if depth == 0 {
        put(out, "\n");
    } else {
        let taken = shown_len_of(page.rows, page.ended, line);
        put_repeated(out, ' ', page.width.saturating_sub(taken) as u128);
        put(out, "\x1B[36m");
        put_repeated(out, '|', depth as u128);
        put(out, "\x1B[0m\n");
    }
}

fn underline(out: &mut String, page: &Page, line: usize)
    requires
        page.wf(),
    ensures
        final(out)@ == underlined(old(out)@, page.sheet(), line as int, page.notes@.len() as int),
{
    let mut k: usize = 0;
    while k < page.notes.len()
        invariant
            0 <= k <= page.notes@.len(),
            page.wf(),
            out@ == underlined(old(out)@, page.sheet(), line as int, k as int),
        decreases page.notes@.len() - k,
    {
        let p = page.notes[k];
        if p.to.0 == line && p.from.0 == p.to.0 {
            put_line_start(out, line);
            put_repeated(out, ' ', p.from.1 as u128);
            put(out, "\x1B[36m^");
            let span = p.to.1.saturating_sub(p.from.1);
            if span > 1 {
                put_repeated(out, '-', (span - 2) as u128);
                put(out, "^");
            }
            put(out, " ");
            match &page.pieces[p.note] {
                Some(label) => put(out, label.as_str()),
                None => put(out, "here"),
            }
            put(out, "\x1B[0m\n");
        }
        k = k + 1;
    }
}

fn shut_brackets(out: &mut String, stack: &mut Vec<usize>, page: &Page, line: usize)
    ensures
        (Frame { text: final(out)@, stack: final(stack)@ }) == shut(
            Frame { text: old(out)@, stack: old(stack)@ },
            page.sheet(),
            line as int,
            page.notes@.len() as int,
        ),
{
    let mut k: usize = 0;
    while k < page.notes.len()
        invariant
            0 <= k <= page.notes@.len(),
            (Frame { text: out@, stack: stack@ }) == shut(
                Frame { text: old(out)@, stack: old(stack)@ },
                page.sheet(),
                line as int,
                k as int,
            ),
        decreases page.notes@.len() - k,
    {
        let p = page.notes[k];
        let at = first_in(stack, k);
        if p.to.0 == line && p.from.0 != p.to.0 && at < stack.len() {
            put_line_start(out, line);
            put_repeated(out, ' ', page.width as u128);
            put(out, "\x1B[36m");
            put_repeated(out, ':', at as u128);
            put(out, "|");
            put_repeated(out, ':', (stack.len() - at - 1) as u128);
            put(out, "\x1B[0m\n");
            stack.remove(at);
            put_line_start(out, line);
            put_repeated(out, ' ', p.to.1 as u128);
            put(out, "\x1B[36m^");
            let reach: u128 = page.width as u128 + at as u128;
            put_repeated(
                out,
                '-',
                if reach > p.to.1 as u128 + 1 {
                    reach - p.to.1 as u128 - 1
                } else {
                    0
                },
            );
            put(out, "/\x1B[0m\n");
        }
        k = k + 1;
    }
}

fn put_group(
    out: &mut String,
    error: &Error,
    sources: &Loader,
    group: &(usize, usize, usize, Vec<usize>),
)
    requires
        error.pieces@.len() == error.spans@.len(),
        forall|i: int| 0 <= i < error.spans@.len() ==> sources.holds(#[trigger] error.spans@[i]),
        group.0 < sources.sources().len(),
    ensures
        final(out)@ == group_onto(old(out)@, *error, *sources, fused_view(*group)),
{
    let chars = chars_of(sources.get_file(group.0).string());
    let (rows, ended) = rows_in(&chars);
    assert(row_views(rows@).len() == rows@.len());
    let last: usize = if group.2 <= rows.len() {
        group.2
    } else {
        rows.len()
    };
    let first: usize = if group.1 <= last {
        group.1
    } else {
        last
    };
    let notes = placed_of(error, sources, &group.3);
    let width = widest_of(&rows, ended, first, last);
    let page = Page { rows: &rows, ended, notes: &notes, pieces: &error.pieces, width };
    assert(page.sheet() == sheet_of(*error, *sources, fused_view(*group)));
    let mut stack: Vec<usize> = Vec::new();
    let mut line: usize = first;
    while line < last
        invariant
            first <= line <= last <= rows@.len(),
            page.wf(),
            page.rows == &rows,
            (Frame { text: out@, stack: stack@ }) == lines_frame(
                Frame { text: old(out)@, stack: Seq::empty() },
                page.sheet(),
                first as int,
                line as int,
            ),
        decreases last - line,
    {
        open_brackets(out, &mut stack, &page, line);
        put_row(out, &page, line, stack.len());
        underline(out, &page, line);
        shut_brackets(out, &mut stack, &page, line);
        line = line + 1;
    }
}

/// The diagnostic with the lines that its notes point into: its
/// severity, its code and its message, then the lines of each group of
/// notes with their numbers; a note on one line is underlined and
/// labelled, a note over several lines is bracketed on the right.
pub fn framed_error(error: &Error, sources: &Loader) -> (text: String)
    requires
        error.pieces@.len() == error.spans@.len(),
        forall|i: int| 0 <= i < error.spans@.len() ==> sources.holds(#[trigger] error.spans@[i]),
    ensures
        text@ == framed_text(*error, *sources),
{
    let mut text = String::from_str(
        match error.severity {
            Severity::Warning => "\x1B[33mwarning",
            Severity::Error => "\x1B[31merror",
            Severity::FatalError => "\x1B[31mfatal error",
            Severity::Info => "\x1B[36minfo",
        },
    );
    put(&mut text, " (");
    put(&mut text, error.code);
    put(&mut text, "):\x1B[0m ");
    put(&mut text, error.message.as_str());
    put(&mut text, "\n");
    let ghost start = text@;
    let shown = ranges_of(error, sources);
    let groups = fuse(shown.as_slice());
    proof {
        lemma_fused_files(shown@, shown@.len(), sources.sources().len() as int);
    }
    let mut g: usize = 0;
    while g < groups.len()
        invariant
            0 <= g <= groups@.len(),
            forall|k: int|
                0 <= k < groups@.len() ==> (#[trigger] fused_views(groups@)[k]).file
                    < sources.sources().len(),
            error.pieces@.len() == error.spans@.len(),
            forall|i: int|
                0 <= i < error.spans@.len() ==> sources.holds(#[trigger] error.spans@[i]),
            text@ == groups_onto(start, *error, *sources, fused_views(groups@), g as nat),
        decreases groups@.len() - g,
    {
        assert(fused_views(groups@)[g as int] == fused_view(groups@[g as int]));
        put_group(&mut text, error, sources, &groups[g]);
        g = g + 1;
    }
    text
}

} // verus!
