//! Text utilities shared by every stage: characters of a string, UTF-8 byte
//! offsets of character positions, and decimal rendering of integers.

use vstd::prelude::*;
use vstd::string::*;
use vstd::string::StringExecFns;
use vstd::utf8::*;
use vstd::std_specs::iter::IteratorSpec;

verus! {

/// `String::push` appends one character.
pub assume_specification[ std::string::String::push ](s: &mut std::string::String, c: char)
    ensures
        final(s)@ == old(s)@.push(c),
;

/// `char::from_u32` succeeds exactly on Unicode scalar values, and then gives
/// the character with that code.
pub assume_specification[ char::from_u32 ](i: u32) -> (r: Option<char>)
    ensures
        r is Some <==> is_scalar(i),
        r matches Some(c) ==> c as u32 == i,
;

/// Number of bytes in the UTF-8 encoding of `c`.
pub open spec fn utf8_len(c: char) -> nat {
    encode_scalar(c as u32).len()
}

/// Byte offset, in the UTF-8 encoding of `chars`, of the character at
/// position `i`; for `i == chars.len()` the length of the encoding.
pub open spec fn byte_offset(chars: Seq<char>, i: int) -> nat
    decreases i,
{
    if i <= 0 || i > chars.len() {
        0
    } else {
        byte_offset(chars, i - 1) + utf8_len(chars[i - 1])
    }
}

/// Total length of the UTF-8 encoding of `chars`.
pub open spec fn byte_len(chars: Seq<char>) -> nat {
    byte_offset(chars, chars.len() as int)
}

/// `offset` is the byte offset of some character position of `chars`
/// (the end of the text included).
pub open spec fn is_boundary(chars: Seq<char>, offset: int) -> bool {
    exists|i: int| 0 <= i <= chars.len() && #[trigger] byte_offset(chars, i) == offset
}

pub proof fn lemma_utf8_len_bounds(c: char)
    ensures
        1 <= utf8_len(c) <= 4,
        utf8_len(c) == if (c as u32) < 0x80 {
            1nat
        } else if (c as u32) < 0x800 {
            2nat
        } else if (c as u32) < 0x10000 {
            3nat
        } else {
            4nat
        },
{
    char_is_scalar(c);
}

pub proof fn lemma_byte_offset_monotonic(chars: Seq<char>, i: int, j: int)
    requires
        0 <= i <= j <= chars.len(),
    ensures
        byte_offset(chars, i) + (j - i) <= byte_offset(chars, j),
    decreases j - i,
{
    if i < j {
        lemma_byte_offset_monotonic(chars, i, j - 1);
        lemma_utf8_len_bounds(chars[j - 1]);
    }
}

pub proof fn lemma_byte_offset_prefix(chars: Seq<char>, k: int, i: int)
    requires
        0 <= i <= k <= chars.len(),
    ensures
        byte_offset(chars.take(k), i) == byte_offset(chars, i),
    decreases i,
{
    if i > 0 {
        lemma_byte_offset_prefix(chars, k, i - 1);
    }
}

pub proof fn lemma_encode_push(chars: Seq<char>, c: char)
    ensures
        encode_utf8(chars.push(c)) =~= encode_utf8(chars) + encode_scalar(c as u32),
    decreases chars.len(),
{
    if chars.len() == 0 {
        assert(chars.push(c).drop_first() =~= chars);
        assert(encode_utf8(chars.push(c).drop_first()) =~= Seq::<u8>::empty());
    } else {
        assert(chars.push(c).drop_first() =~= chars.drop_first().push(c));
        lemma_encode_push(chars.drop_first(), c);
    }
}

/// The byte offset of the end of the text is the length of its encoding.
pub proof fn lemma_byte_len_is_encoding_len(chars: Seq<char>)
    ensures
        byte_len(chars) == encode_utf8(chars).len(),
    decreases chars.len(),
{
    if chars.len() > 0 {
        let n = chars.len() as int;
        let front = chars.take(n - 1);
        lemma_byte_len_is_encoding_len(front);
        lemma_byte_offset_prefix(chars, n - 1, n - 1);
        lemma_encode_push(front, chars[n - 1]);
        assert(front.push(chars[n - 1]) =~= chars);
    }
}

/// Every character position falls on a character boundary of the encoding.
pub proof fn lemma_offsets_are_char_boundaries(chars: Seq<char>, i: int)
    requires
        0 <= i <= chars.len(),
    ensures
        is_char_boundary(encode_utf8(chars), byte_offset(chars, i) as int),
    decreases chars.len(),
{
    let bytes = encode_utf8(chars);
    encode_utf8_valid_utf8(chars);
    if i == 0 {
    } else {
        let rest = chars.drop_first();
        encode_utf8_first_scalar(chars);
        assert(pop_first_scalar(bytes) =~= encode_utf8(rest));
        lemma_offsets_are_char_boundaries(rest, i - 1);
        lemma_byte_offset_shift(chars, i);
        lemma_utf8_len_bounds(chars[0]);
        lemma_byte_offset_monotonic(chars, 0, i);
        lemma_byte_offset_monotonic(chars, i, chars.len() as int);
        lemma_byte_len_is_encoding_len(chars);
    }
}

pub proof fn lemma_byte_offset_shift(chars: Seq<char>, i: int)
    requires
        1 <= i <= chars.len(),
    ensures
        byte_offset(chars, i) == utf8_len(chars[0]) + byte_offset(chars.drop_first(), i - 1),
    decreases i,
{
    let rest = chars.drop_first();
    if i > 1 {
        lemma_byte_offset_shift(chars, i - 1);
        assert(rest[i - 2] == chars[i - 1]);
    } else {
        assert(byte_offset(chars, 0) == 0);
        assert(byte_offset(rest, 0) == 0);
    }
}

/// Width in bytes of the UTF-8 encoding of one character.
pub fn char_width(c: char) -> (n: usize)
    ensures
        n == utf8_len(c),
        1 <= n <= 4,
{
    proof {
        lemma_utf8_len_bounds(c);
    }
    let v: u32 = c as u32;
    if v < 0x80 {
        1
    } else if v < 0x800 {
        2
    } else if v < 0x10000 {
        3
    } else {
        4
    }
}

/// The characters of a string, in order.
pub fn chars_of(s: &str) -> (v: Vec<char>)
    ensures
        v@ == s@,
{
    broadcast use vstd::string::group_string_axioms;

    let mut v: Vec<char> = Vec::new();
    let mut it = s.chars();
    loop
        invariant
            it.obeys_prophetic_iter_laws(),
            v@ + it.remaining() == s@,
            it.decrease() is Some,
        ensures
            v@ == s@,
        decreases it.decrease()->0,
    {
        match it.next() {
            Some(c) => {
                v.push(c);
                assert(v@ + it.remaining() =~= s@);
            },
            None => {
                assert(v@ =~= s@);
                break ;
            },
        }
    }
    v
}

/// The byte offset of every character position of `chars`, the end included.
pub fn offsets_of(chars: &Vec<char>) -> (offsets: Vec<usize>)
    requires
        byte_len(chars@) <= usize::MAX,
    ensures
        offsets@.len() == chars@.len() + 1,
        forall|i: int| 0 <= i <= chars@.len() ==> #[trigger] offsets@[i] == byte_offset(chars@, i),
{
    let mut offsets: Vec<usize> = Vec::new();
    offsets.push(0);
    let mut i: usize = 0;
    let mut at: usize = 0;
    while i < chars.len()
        invariant
            0 <= i <= chars@.len(),
            byte_len(chars@) <= usize::MAX,
            at == byte_offset(chars@, i as int),
            offsets@.len() == i + 1,
            forall|k: int| 0 <= k <= i ==> #[trigger] offsets@[k] == byte_offset(chars@, k),
        decreases chars@.len() - i,
    {
        let w = char_width(chars[i]);
        proof {
            lemma_byte_offset_monotonic(chars@, i as int + 1, chars@.len() as int);
        }
        at = at + w;
        i = i + 1;
        offsets.push(at);
    }
    offsets
}

/// Character of the decimal digit `d`.
pub open spec fn digit_char(d: nat) -> char {
    if d == 0 {
        '0'
    } else if d == 1 {
        '1'
    } else if d == 2 {
        '2'
    } else if d == 3 {
        '3'
    } else if d == 4 {
        '4'
    } else if d == 5 {
        '5'
    } else if d == 6 {
        '6'
    } else if d == 7 {
        '7'
    } else if d == 8 {
        '8'
    } else {
        '9'
    }
}

/// Decimal digits of `n`, most significant first, without leading zeros.
pub open spec fn decimal(n: nat) -> Seq<char>
    decreases n,
{
    if n < 10 {
        seq![digit_char(n)]
    } else {
        decimal(n / 10).push(digit_char(n % 10))
    }
}

fn digit_of(d: u64) -> (c: char)
    requires
        d < 10,
    ensures
        c == digit_char(d as nat),
{
    if d == 0 {
        '0'
    } else if d == 1 {
        '1'
    } else if d == 2 {
        '2'
    } else if d == 3 {
        '3'
    } else if d == 4 {
        '4'
    } else if d == 5 {
        '5'
    } else if d == 6 {
        '6'
    } else if d == 7 {
        '7'
    } else if d == 8 {
        '8'
    } else {
        '9'
    }
}

/// Appends the decimal rendering of `n` to `out`.
pub fn push_decimal(out: &mut String, n: u64)
    ensures
        final(out)@ == old(out)@ + decimal(n as nat),
    decreases n,
{
    if n < 10 {
        out.push(digit_of(n));
        assert(out@ =~= old(out)@ + decimal(n as nat));
    } else {
        push_decimal(out, n / 10);
        out.push(digit_of(n % 10));
        assert(out@ =~= old(out)@ + decimal(n as nat));
    }
}

/// Appends every character of `chars` to `out`.
pub fn push_chars(out: &mut String, chars: &Vec<char>)
    ensures
        final(out)@ == old(out)@ + chars@,
{
    let mut i: usize = 0;
    while i < chars.len()
        invariant
            0 <= i <= chars@.len(),
            out@ == old(out)@ + chars@.take(i as int),
        decreases chars@.len() - i,
    {
        out.push(chars[i]);
        assert(out@ =~= old(out)@ + chars@.take(i as int + 1));
        i = i + 1;
    }
    assert(chars@.take(i as int) =~= chars@);
}

/// Appends `piece` to `out`.
pub fn put(out: &mut String, piece: &str)
    ensures
        final(out)@ == old(out)@ + piece@,
{
    out.append(piece);
}

/// `n` blanks.
pub open spec fn blanks(n: nat) -> Seq<char> {
    Seq::new(n, |i: int| ' ')
}

/// Appends `n` blanks to `out`.
pub fn put_blanks(out: &mut String, n: usize)
    ensures
        final(out)@ == old(out)@ + blanks(n as nat),
{
    let mut i: usize = 0;
    assert(out@ =~= old(out)@ + blanks(0));
    while i < n
        invariant
            0 <= i <= n,
            out@ == old(out)@ + blanks(i as nat),
        decreases n - i,
    {
        out.push(' ');
        assert(out@ =~= old(out)@ + blanks((i + 1) as nat));
        i = i + 1;
    }
}

} // verus!
