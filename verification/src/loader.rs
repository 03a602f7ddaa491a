//! Source buffers and spans: the loader owns an append-only table of sources,
//! and a span names a byte range of one of them by its position in the table.

use vstd::prelude::*;
use vstd::string::*;
use vstd::utf8::*;
use crate::failure::Failure;
use crate::text::{byte_len, byte_offset, is_boundary, lemma_byte_len_is_encoding_len, lemma_byte_offset_monotonic, lemma_offsets_are_char_boundaries};

verus! {

/// A byte range `[start, end)` of the source with index `file`.
#[derive(Debug, Clone, Copy, PartialEq, Eq, Structural)]
pub struct Span {
    pub file: usize,
    pub start: u32,
    pub end: u32,
}

impl Span {
    /// The range is not inverted.
    pub open spec fn ordered(self) -> bool {
        self.start <= self.end
    }

    /// The range is not inverted and both ends fall on character boundaries
    /// of `text`.
    pub open spec fn within(self, text: Seq<char>) -> bool {
        &&& self.start <= self.end
        &&& is_boundary(text, self.start as int)
        &&& is_boundary(text, self.end as int)
    }

    /// The smallest span that covers both, when they lie in the same file;
    /// `self` otherwise.
    pub open spec fn merged(self, other: Span) -> Span {
        if self.file != other.file {
            self
        } else {
            Span {
                file: self.file,
                start: if self.start <= other.start {
                    self.start
                } else {
                    other.start
                },
                end: if self.end >= other.end {
                    self.end
                } else {
                    other.end
                },
            }
        }
    }

    pub fn new(file: usize, start: usize, end: usize) -> (span: Span)
        requires
            start <= u32::MAX,
            end <= u32::MAX,
        ensures
            span.file == file,
            span.start == start,
            span.end == end,
    {
        Span { file, start: start as u32, end: end as u32 }
    }

    pub fn merge(self, other: Span) -> (span: Span)
        ensures
            span == self.merged(other),
    {
        if self.file != other.file {
            return self;
        }
        Span {
            file: self.file,
            start: if self.start <= other.start {
                self.start
            } else {
                other.start
            },
            end: if self.end >= other.end {
                self.end
            } else {
                other.end
            },
        }
    }
}

/// Merging keeps both ends among the ends of the two spans, so a merged
/// span is ordered and on boundaries whenever both inputs are.
pub proof fn merge_stays_within(a: Span, b: Span, text: Seq<char>)
    requires
        a.within(text),
        a.file == b.file ==> b.within(text),
    ensures
        a.merged(b).within(text),
        a.merged(b).file == a.file,
{
}

/// Within one file, merging covers both spans and nothing less will: the
/// result starts at the smaller start and ends at the larger end. It does
/// not depend on the order of the two spans, and merging a span with
/// itself or with a span that it covers changes nothing.
pub proof fn merge_covers_both(a: Span, b: Span)
    requires
        a.file == b.file,
    ensures
        a.merged(b).start <= a.start && a.merged(b).start <= b.start,
        a.merged(b).end >= a.end && a.merged(b).end >= b.end,
        a.merged(b).start == a.start || a.merged(b).start == b.start,
        a.merged(b).end == a.end || a.merged(b).end == b.end,
        a.merged(b) == b.merged(a),
        a.merged(a) == a,
        a.start <= b.start && b.end <= a.end ==> a.merged(b) == a,
        a.ordered() ==> a.merged(b).ordered(),
{
}

/// Within one file, merging three spans gives the same span in whatever
/// order they are taken.
pub proof fn merge_is_associative(a: Span, b: Span, c: Span)
    requires
        a.file == b.file,
        b.file == c.file,
    ensures
        a.merged(b).merged(c) == a.merged(b.merged(c)),
{
}

/// Where a source came from: an in-memory name, or a path.
#[derive(Debug)]
pub enum FileSource {
    Memory(String),
    Path(String),
}

/// One loaded source buffer. `index` is its position in the loader's table,
/// and the file id of every span into it.
#[derive(Debug)]
pub struct Source {
    pub string: String,
    pub src: FileSource,
    pub index: usize,
}

impl Source {
    /// The characters of the buffer.
    pub open spec fn text(&self) -> Seq<char> {
        self.string@
    }

    /// The name or path that the buffer was loaded under.
    pub open spec fn origin(&self) -> Seq<char> {
        match self.src {
            FileSource::Memory(s) => s@,
            FileSource::Path(s) => s@,
        }
    }

    /// The buffer was loaded from a path, not from memory.
    pub open spec fn from_path(&self) -> bool {
        self.src is Path
    }

    pub fn string(&self) -> (s: &str)
        ensures
            s@ == self.text(),
    {
        self.string.as_str()
    }

    pub fn src(&self) -> (name: Option<&str>)
        ensures
            name matches Some(s) && s@ == self.origin(),
    {
        match &self.src {
            FileSource::Memory(s) => Some(s.as_str()),
            FileSource::Path(s) => Some(s.as_str()),
        }
    }

    /// Whether the buffer was loaded from the path `path`.
    pub fn is_path(&self, path: &String) -> (r: bool)
        ensures
            r == (self.from_path() && self.origin() == path@),
    {
        match &self.src {
            FileSource::Memory(_) => false,
            FileSource::Path(s) => *s == *path,
        }
    }
}

/// The table of loaded sources.
#[derive(Debug)]
pub struct Loader {
    files: Vec<Source>,
}

impl Loader {
    /// The loaded sources, in load order.
    pub closed spec fn sources(&self) -> Seq<Source> {
        self.files@
    }

    /// Every source sits at the position that its `index` names.
    pub open spec fn wf(&self) -> bool {
        forall|i: int| 0 <= i < self.sources().len() ==> (#[trigger] self.sources()[i]).index == i
    }

    /// `span` names an ordered range between character boundaries of a
    /// loaded source.
    pub open spec fn holds(&self, span: Span) -> bool {
        &&& span.file < self.sources().len()
        &&& span.within(self.sources()[span.file as int].text())
    }

    /// Position of the first source loaded from `path`, if any.
    pub open spec fn position_of(&self, path: Seq<char>) -> Option<int> {
        first_from_path(self.sources(), path, 0)
    }

    pub fn new() -> (loader: Loader)
        ensures
            loader.sources() == Seq::<Source>::empty(),
            loader.wf(),
    {
        Loader { files: Vec::new() }
    }

    /// Number of loaded sources.
    pub fn len(&self) -> (n: usize)
        ensures
            n == self.sources().len(),
    {
        self.files.len()
    }

    pub fn load_from_memory(&mut self, src: String, filename: String) -> (index: usize)
        requires
            old(self).wf(),
        ensures
            final(self).wf(),
            index == old(self).sources().len(),
            final(self).sources().len() == index + 1,
            final(self).sources().take(index as int) == old(self).sources(),
            final(self).sources()[index as int].text() == src@,
            final(self).sources()[index as int].origin() == filename@,
            !final(self).sources()[index as int].from_path(),
    {
        let index = self.files.len();
        self.files.push(Source { index, src: FileSource::Memory(filename), string: src });
        assert(self.files@.take(index as int) =~= old(self).files@);
        index
    }

    /// Adds a buffer that was read from `path`.
    pub fn load_from_path(&mut self, src: String, path: String) -> (index: usize)
        requires
            old(self).wf(),
        ensures
            final(self).wf(),
            index == old(self).sources().len(),
            final(self).sources().len() == index + 1,
            final(self).sources().take(index as int) == old(self).sources(),
            final(self).sources()[index as int].text() == src@,
            final(self).sources()[index as int].origin() == path@,
            final(self).sources()[index as int].from_path(),
    {
        let index = self.files.len();
        self.files.push(Source { index, src: FileSource::Path(path), string: src });
        assert(self.files@.take(index as int) =~= old(self).files@);
        index
    }

    /// Adds the buffer that was read from `path`, if it is UTF-8.
    pub fn load_bytes(&mut self, bytes: Vec<u8>, path: String) -> (loaded: Result<usize, Failure>)
        requires
            old(self).wf(),
        ensures
            final(self).wf(),
            loaded is Ok == valid_utf8(bytes@),
            loaded matches Ok(index) ==> {
                &&& index == old(self).sources().len()
                &&& final(self).sources().len() == index + 1
                &&& final(self).sources().take(index as int) == old(self).sources()
                &&& encode_utf8(final(self).sources()[index as int].text()) == bytes@
                &&& final(self).sources()[index as int].origin() == path@
                &&& final(self).sources()[index as int].from_path()
            },
            loaded matches Err(failure) ==> failure is Utf8Error && final(self).sources() == old(
                self,
            ).sources(),
    {
        match text_of(bytes) {
            Ok(text) => Ok(self.load_from_path(text, path)),
            Err(error) => Err(Failure::Utf8Error(error)),
        }
    }

    pub fn get_file(&self, index: usize) -> (source: &Source)
        requires
            index < self.sources().len(),
        ensures
            *source == self.sources()[index as int],
    {
        &self.files[index]
    }

    /// Looks for the first source that was loaded from `path`.
    pub fn find_path(&self, path: &String) -> (found: Option<usize>)
        ensures
            found matches Some(i) ==> self.position_of(path@) == Some(i as int) && i
                < self.sources().len(),
            found is None ==> self.position_of(path@) is None,
    {
        let mut i: usize = 0;
        while i < self.files.len()
            invariant
                0 <= i <= self.files@.len(),
                first_from_path(self.sources(), path@, 0) == first_from_path(
                    self.sources(),
                    path@,
                    i as int,
                ),
            decreases self.files@.len() - i,
        {
            if self.files[i].is_path(path) {
                return Some(i);
            }
            i = i + 1;
        }
        None
    }

    pub fn span_content(&self, span: Span) -> (content: &str)
        requires
            self.holds(span),
        ensures
            content.spec_bytes() == encode_utf8(self.sources()[span.file as int].text()).subrange(
                span.start as int,
                span.end as int,
            ),
    {
        let text = self.files[span.file].string.as_str();
        proof {
            lemma_boundary_is_char_boundary(text@, span.start as int);
            lemma_boundary_is_char_boundary(text@, span.end as int);
        }
        slice_bytes(text, span.start as usize, span.end as usize)
    }

    pub fn span_content_with_margins(&self, span: Span, left: usize, right: usize) -> (parts: (
        &str,
        &str,
        &str,
    ))
        requires
            self.holds(span),
            is_boundary(
                self.sources()[span.file as int].text(),
                margin_start(span, left as int),
            ),
            is_boundary(
                self.sources()[span.file as int].text(),
                margin_end(span, right as int, self.sources()[span.file as int].text()),
            ),
        ensures
            ({
                let text = self.sources()[span.file as int].text();
                let bytes = encode_utf8(text);
                &&& parts.0.spec_bytes() == bytes.subrange(
                    margin_start(span, left as int),
                    span.start as int,
                )
                &&& parts.1.spec_bytes() == bytes.subrange(span.start as int, span.end as int)
                &&& parts.2.spec_bytes() == bytes.subrange(
                    span.end as int,
                    margin_end(span, right as int, text),
                )
            }),
    {
        let text = self.files[span.file].string.as_str();
        let len = text.as_bytes().len();
        proof {
            lemma_byte_len_is_encoding_len(text@);
            lemma_boundary_is_char_boundary(text@, span.start as int);
            lemma_boundary_is_char_boundary(text@, span.end as int);
            lemma_boundary_is_char_boundary(text@, margin_start(span, left as int));
            lemma_boundary_is_char_boundary(text@, margin_end(span, right as int, text@));
        }
        let mut start = span.start as usize;
        if left > start {
            start = 0;
        } else {
            start = start - left;
        }
        let mut end = span.end as usize;
        if right > len - end {
            end = len;
        } else {
            end = end + right;
        }
        (
            slice_bytes(text, start, span.start as usize),
            slice_bytes(text, span.start as usize, span.end as usize),
            slice_bytes(text, span.end as usize, end),
        )
    }
}

/// `String::from_utf8` of std: the string whose encoding the bytes are,
/// when they are the encoding of one, and the reason why they are none
/// otherwise.
#[verifier::external_body]
fn text_of(bytes: Vec<u8>) -> (r: Result<String, std::string::FromUtf8Error>)
    ensures
        r is Ok == valid_utf8(bytes@),
        r matches Ok(text) ==> encode_utf8(text@) == bytes@,
{
    String::from_utf8(bytes)
}

impl Default for Loader {
    fn default() -> (loader: Loader)
        ensures
            loader.sources() == Seq::<Source>::empty(),
            loader.wf(),
    {
        Loader::new()
    }
}

/// First byte offset shown before the span when `left` bytes of margin are
/// asked for.
pub open spec fn margin_start(span: Span, left: int) -> int {
    if left > span.start {
        0
    } else {
        span.start - left
    }
}

/// Last byte offset shown after the span when `right` bytes of margin are
/// asked for.
pub open spec fn margin_end(span: Span, right: int, text: Seq<char>) -> int {
    if span.end + right > byte_len(text) {
        byte_len(text) as int
    } else {
        span.end + right
    }
}

/// Position of the first source at or after `from` that was loaded from
/// `path`.
pub open spec fn first_from_path(sources: Seq<Source>, path: Seq<char>, from: int) -> Option<int>
    decreases sources.len() - from,
{
    if from < 0 || from >= sources.len() {
        None
    } else if sources[from].from_path() && sources[from].origin() == path {
        Some(from)
    } else {
        first_from_path(sources, path, from + 1)
    }
}

/// A byte offset of a character position is a character boundary of the
/// encoded text, and lies within it.
pub proof fn lemma_boundary_is_char_boundary(text: Seq<char>, offset: int)
    requires
        is_boundary(text, offset),
    ensures
        is_char_boundary(encode_utf8(text), offset),
        0 <= offset <= encode_utf8(text).len(),
{
    let i = choose|i: int| 0 <= i <= text.len() && #[trigger] byte_offset(text, i) == offset;
    lemma_offsets_are_char_boundaries(text, i);
    lemma_byte_offset_monotonic(text, i, text.len() as int);
    lemma_byte_len_is_encoding_len(text);
}

/// The part of `text` between two character boundaries, given as byte
/// offsets.
fn slice_bytes(text: &str, start: usize, end: usize) -> (part: &str)
    requires
        start <= end <= text.spec_bytes().len(),
        is_char_boundary(text.spec_bytes(), start as int),
        is_char_boundary(text.spec_bytes(), end as int),
    ensures
        part.spec_bytes() == text.spec_bytes().subrange(start as int, end as int),
{
    let (head, _) = text.split_at(end);
    proof {
        encode_utf8_valid_utf8(text@);
        lemma_char_boundary_of_prefix(text.spec_bytes(), end as int, start as int);
    }
    let (_, part) = head.split_at(start);
    assert(part.spec_bytes() =~= text.spec_bytes().subrange(start as int, end as int));
    part
}

/// A character boundary of a byte sequence is one of each of its prefixes
/// that end at a later boundary.
proof fn lemma_char_boundary_of_prefix(bytes: Seq<u8>, end: int, index: int)
    requires
        valid_utf8(bytes),
        0 <= index <= end <= bytes.len(),
        is_char_boundary(bytes, end),
        is_char_boundary(bytes, index),
    ensures
        is_char_boundary(bytes.subrange(0, end), index),
{
    valid_utf8_split(bytes, end);
    let head = bytes.subrange(0, end);
    if index == end {
        is_char_boundary_start_end_of_seq(head);
    } else {
        is_char_boundary_iff_not_is_continuation_byte(bytes, index);
        is_char_boundary_iff_not_is_continuation_byte(head, index);
    }
}

} // verus!
