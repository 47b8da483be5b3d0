//! Byte offsets in UTF-8 text.
//!
//! Offsets into a text count bytes. An offset is a boundary when a character
//! starts there or the text ends there; only boundaries cut a text.

use vstd::prelude::*;
use vstd::string::*;
use vstd::utf8::*;

use crate::chars::{ascii_lower, lowered, to_ascii_lower};

verus! {

/// Whether a character starts at byte `at`, or the bytes end there.
pub open spec fn boundary(bytes: Seq<u8>, at: int) -> bool {
    0 <= at <= bytes.len() && (at == bytes.len() || !is_continuation_byte(bytes[at]))
}

/// The bytes of a text.
pub open spec fn utf8(text: Seq<char>) -> Seq<u8> {
    encode_utf8(text)
}

/// Bytes that one character takes.
pub open spec fn char_bytes(c: char) -> nat {
    encode_scalar(c as u32).len()
}

/// Boundaries of a text are where it may be cut.
pub proof fn boundary_is_char_boundary(text: Seq<char>, at: int)
    ensures
        boundary(utf8(text), at) <==> is_char_boundary(utf8(text), at),
{
    let bytes = utf8(text);
    encode_utf8_valid_utf8(text);
    is_char_boundary_start_end_of_seq(bytes);
    if 0 <= at < bytes.len() {
        is_char_boundary_iff_not_is_continuation_byte(bytes, at);
    } else if at > bytes.len() {
        assert(!is_char_boundary(bytes, at));
    }
}

/// The bytes of a concatenation are the bytes of its parts, in order.
pub proof fn utf8_of_concat(a: Seq<char>, b: Seq<char>)
    ensures
        utf8(a + b) == utf8(a) + utf8(b),
    decreases a.len(),
{
    if a.len() == 0 {
        assert(a + b =~= b);
        assert(utf8(a) + utf8(b) =~= utf8(b));
    } else {
        utf8_of_concat(a.drop_first(), b);
        assert((a + b).drop_first() =~= a.drop_first() + b);
        assert(utf8(a + b) =~= utf8(a) + utf8(b));
    }
}

/// Texts with the same bytes are the same text.
pub proof fn utf8_is_injective(a: Seq<char>, b: Seq<char>)
    requires
        utf8(a) == utf8(b),
    ensures
        a == b,
{
    encode_utf8_decode_utf8(a);
    encode_utf8_decode_utf8(b);
}

/// Both ends of a text are boundaries.
pub proof fn ends_are_boundaries(text: Seq<char>)
    ensures
        boundary(utf8(text), 0),
        boundary(utf8(text), utf8(text).len() as int),
{
    encode_utf8_valid_utf8(text);
    is_char_boundary_start_end_of_seq(utf8(text));
    boundary_is_char_boundary(text, 0);
}

/// The first byte of a text starts a character.
pub proof fn first_byte_leads(text: Seq<char>)
    requires
        text.len() > 0,
    ensures
        utf8(text).len() > 0,
        !is_continuation_byte(utf8(text)[0]),
        utf8(text).len() >= char_bytes(text[0]),
        1 <= char_bytes(text[0]) <= 4,
{
    ends_are_boundaries(text);
}

/// Concatenation keeps the boundaries of its parts and adds the seam.
pub proof fn concat_boundaries(a: Seq<char>, b: Seq<char>, at: int)
    ensures
        at <= utf8(a).len() ==> (boundary(utf8(a + b), at) <==> boundary(utf8(a), at)),
        at >= utf8(a).len() ==> (boundary(utf8(a + b), at) <==> boundary(
            utf8(b),
            at - utf8(a).len(),
        )),
{
    utf8_of_concat(a, b);
    ends_are_boundaries(b);
    ends_are_boundaries(a);
    assert(utf8(a + b) =~= utf8(a) + utf8(b));
}

/// Number of bytes of `text`.
pub fn byte_len(text: &str) -> (count: usize)
    ensures
        count == utf8(text@).len(),
{
    text.as_bytes().len()
}

/// Whether two texts are the same.
pub fn same_text(a: &str, b: &str) -> (same: bool)
    ensures
        same == (a@ == b@),
{
    let left: &[u8] = a.as_bytes();
    let right: &[u8] = b.as_bytes();
    proof {
        if a@ != b@ && utf8(a@) =~= utf8(b@) {
            utf8_is_injective(a@, b@);
        }
    }
    if left.len() != right.len() {
        return false;
    }
    let mut at: usize = 0;
    while at < left.len()
        invariant
            at <= left.len(),
            left.len() == right.len(),
            left@ == utf8(a@),
            right@ == utf8(b@),
            forall|i: int| 0 <= i < at ==> left@[i] == right@[i],
        decreases left.len() - at,
    {
        if left[at] != right[at] {
            return false;
        }
        at += 1;
    }
    assert(left@ =~= right@);
    proof {
        utf8_is_injective(a@, b@);
    }
    true
}

/// The part of `text` between two boundaries.
pub fn slice_text(text: &str, from: usize, to: usize) -> (part: &str)
    requires
        from <= to,
        boundary(utf8(text@), from as int),
        boundary(utf8(text@), to as int),
    ensures
        utf8(part@) == utf8(text@).subrange(from as int, to as int),
{
    proof {
        boundary_is_char_boundary(text@, to as int);
    }
    let (head, _) = text.split_at(to);
    proof {
        assert(utf8(head@) =~= utf8(text@).subrange(0, to as int));
        if from < to {
            assert(utf8(head@)[from as int] == utf8(text@)[from as int]);
        }
        ends_are_boundaries(head@);
        boundary_is_char_boundary(head@, from as int);
    }
    let (_, part) = head.split_at(from);
    assert(utf8(part@) =~= utf8(text@).subrange(from as int, to as int));
    part
}

/// Whether the character at byte `at` of `text` may be cut there.
pub fn at_boundary(text: &str, at: usize) -> (cuts: bool)
    ensures
        cuts == boundary(utf8(text@), at as int),
{
    proof {
        boundary_is_char_boundary(text@, at as int);
    }
    text.is_char_boundary(at)
}

/// `text` with the bytes from `from` to `to` replaced by `insert`.
pub fn splice_text(text: &str, from: usize, to: usize, insert: &str) -> (result: String)
    requires
        from <= to,
        boundary(utf8(text@), from as int),
        boundary(utf8(text@), to as int),
    ensures
        utf8(result@) == utf8(text@).subrange(0, from as int) + utf8(insert@) + utf8(
            text@,
        ).subrange(to as int, utf8(text@).len() as int),
        exists|head: Seq<char>, tail: Seq<char>|
            #![trigger head + insert@ + tail]
            {
                &&& result@ == head + insert@ + tail
                &&& utf8(head) == utf8(text@).subrange(0, from as int)
                &&& utf8(tail) == utf8(text@).subrange(to as int, utf8(text@).len() as int)
            },
{
    proof {
        boundary_is_char_boundary(text@, from as int);
        boundary_is_char_boundary(text@, to as int);
    }
    let (head, _) = text.split_at(from);
    let (_, tail) = text.split_at(to);
    let mut result: String = head.to_owned();
    result.append(insert);
    result.append(tail);
    proof {
        utf8_of_concat(head@, insert@);
        utf8_of_concat(head@ + insert@, tail@);
        assert(utf8(head@) =~= utf8(text@).subrange(0, from as int));
        assert(utf8(tail@) =~= utf8(text@).subrange(to as int, utf8(text@).len() as int));
        assert(result@ == head@ + insert@ + tail@);
    }
    result
}

/// Bytes that `c` takes in UTF-8.
pub fn char_len(c: char) -> (bytes: usize)
    ensures
        bytes == char_bytes(c),
{
    let code: u32 = c as u32;
    if code < 0x80 {
        1
    } else if code < 0x800 {
        2
    } else if code < 0x10000 {
        3
    } else {
        4
    }
}

/// The characters of `text`, in order.
pub fn chars_of(text: &str) -> (chars: Vec<char>)
    ensures
        chars@ == text@,
{
    let mut chars: Vec<char> = Vec::new();
    for c in iter: text.chars()
        invariant
            iter.seq() == text@,
            chars@ == text@.take(iter.index() as int),
    {
        assert(text@.take(iter.index() as int + 1) =~= text@.take(iter.index() as int).push(c));
        chars.push(c);
    }
    assert(text@.take(text@.len() as int) =~= text@);
    chars
}

/// Whether two texts differ at most in the case of ASCII letters.
pub fn same_ignoring_case(a: &str, b: &str) -> (same: bool)
    ensures
        same == (lowered(a@) == lowered(b@)),
{
    let x: Vec<char> = chars_of(a);
    let y: Vec<char> = chars_of(b);
    if x.len() != y.len() {
        assert(lowered(a@).len() != lowered(b@).len());
        return false;
    }
    let mut at: usize = 0;
    while at < x.len()
        invariant
            at <= x.len(),
            x@ == a@,
            y@ == b@,
            x.len() == y.len(),
            forall|i: int| 0 <= i < at ==> ascii_lower(#[trigger] a@[i]) == ascii_lower(b@[i]),
        decreases x.len() - at,
    {
        if to_ascii_lower(x[at]) != to_ascii_lower(y[at]) {
            assert(lowered(a@)[at as int] != lowered(b@)[at as int]);
            return false;
        }
        at += 1;
    }
    assert(lowered(a@) =~= lowered(b@));
    true
}

} // verus!
