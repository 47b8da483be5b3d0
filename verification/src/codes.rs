//! Markup that prose assistance leaves alone: Markdown code and XML tags.

use vstd::prelude::*;
use vstd::utf8::*;

use crate::chars::{all_whitespace, is_whitespace, whitespace};
use crate::layout::{
    ascii_then_boundary, cut_part, find_line_start, is_all_whitespace, line_start,
    line_start_is_boundary, part, part_bytes,
};
use crate::ranges::{listed, ranges_get, ranges_len, ranges_new, ranges_push, RangeList};
use crate::strings::{
    boundary, char_bytes, char_len, chars_of, ends_are_boundaries, slice_text, utf8, utf8_of_concat,
};

verus! {

/// Number of bytes from `at` on that equal the byte at `at`.
pub open spec fn run_length(bytes: Seq<u8>, at: int) -> int
    decreases bytes.len() - at,
{
    if at + 1 < bytes.len() && bytes[at + 1] == bytes[at] {
        run_length(bytes, at + 1) + 1
    } else {
        1
    }
}

/// First position at or behind `at` that holds `wanted`, or the end.
pub open spec fn next_byte(bytes: Seq<u8>, wanted: u8, at: int) -> int
    decreases bytes.len() - at,
{
    if at >= bytes.len() {
        bytes.len() as int
    } else if bytes[at] == wanted {
        at
    } else {
        next_byte(bytes, wanted, at + 1)
    }
}

/// Whether at most three bytes, all whitespace, stand before `at` on its line.
pub open spec fn indents_fence(bytes: Seq<u8>, at: int) -> bool {
    let start = line_start(bytes, at);
    at - start <= 3 && all_whitespace(part(bytes, start, at))
}

/// Whether the run of markers at `at` opens a fence.
pub open spec fn opens_fence(bytes: Seq<u8>, at: int) -> bool {
    run_length(bytes, at) >= 3 && indents_fence(bytes, at)
}

/// Whether the run of markers at `at` closes a span or fence opened by `run`
/// markers.
pub open spec fn closes(bytes: Seq<u8>, at: int, run: int, fenced: bool) -> bool {
    if fenced {
        run_length(bytes, at) >= run && indents_fence(bytes, at)
    } else {
        run_length(bytes, at) == run
    }
}

/// The end of the first closing run of `marker` at or behind `at`, or the end
/// of the text.
pub open spec fn closing_end(bytes: Seq<u8>, marker: u8, run: int, fenced: bool, at: int) -> int
    decreases bytes.len() - at,
{
    let found = next_byte(bytes, marker, at);
    let length = run_length(bytes, found);
    if found < at || found >= bytes.len() || length < 1 || found + length > bytes.len() {
        bytes.len() as int
    } else if closes(bytes, found, run, fenced) {
        found + length
    } else {
        closing_end(bytes, marker, run, fenced, found + length)
    }
}

/// The code spans and fences from `at` on.
pub open spec fn code_from(bytes: Seq<u8>, at: int) -> Seq<(usize, usize)>
    decreases bytes.len() - at,
{
    if at >= bytes.len() {
        Seq::empty()
    } else if bytes[at] != 96 && bytes[at] != 126 {
        code_from(bytes, at + 1)
    } else {
        let run = run_length(bytes, at);
        let fenced = opens_fence(bytes, at);
        let end = closing_end(bytes, bytes[at], run, fenced, at + run);
        if run < 1 || at + run > bytes.len() || end < at + 1 || end > bytes.len() {
            Seq::empty()
        } else if bytes[at] == 126 && !fenced {
            code_from(bytes, at + run)
        } else {
            seq![(at as usize, end as usize)] + code_from(bytes, end)
        }
    }
}

/// A run of markers is not empty and ends inside the text.
proof fn run_facts(bytes: Seq<u8>, at: int)
    requires
        0 <= at < bytes.len(),
    ensures
        1 <= run_length(bytes, at) <= bytes.len() - at,
    decreases bytes.len() - at,
{
    if at + 1 < bytes.len() && bytes[at + 1] == bytes[at] {
        run_facts(bytes, at + 1);
    }
}

proof fn next_byte_facts(bytes: Seq<u8>, wanted: u8, at: int)
    requires
        0 <= at <= bytes.len(),
    ensures
        at <= next_byte(bytes, wanted, at) <= bytes.len(),
        next_byte(bytes, wanted, at) < bytes.len() ==> bytes[next_byte(bytes, wanted, at)]
            == wanted,
        forall|i: int| at <= i < next_byte(bytes, wanted, at) ==> bytes[i] != wanted,
    decreases bytes.len() - at,
{
    if at < bytes.len() && bytes[at] != wanted {
        next_byte_facts(bytes, wanted, at + 1);
    }
}

proof fn closing_facts(bytes: Seq<u8>, marker: u8, run: int, fenced: bool, at: int)
    requires
        0 <= at <= bytes.len(),
    ensures
        at <= closing_end(bytes, marker, run, fenced, at) <= bytes.len(),
    decreases bytes.len() - at,
{
    next_byte_facts(bytes, marker, at);
    let found = next_byte(bytes, marker, at);
    if found < bytes.len() {
        run_facts(bytes, found);
        if !closes(bytes, found, run, fenced) {
            closing_facts(bytes, marker, run, fenced, found + run_length(bytes, found));
        }
    }
}

/// Whether ranges are in order, not empty, apart, and inside `from..to`.
pub open spec fn ordered(ranges: Seq<(usize, usize)>, from: int, to: int) -> bool {
    &&& forall|i: int|
        0 <= i < ranges.len() ==> from <= (#[trigger] ranges[i]).0 < ranges[i].1 <= to
    &&& forall|i: int, j: int|
        0 <= i < j < ranges.len() ==> (#[trigger] ranges[i]).1 <= (#[trigger] ranges[j]).0
}

/// Code ranges are in order, not empty and apart.
pub proof fn code_ranges_are_ordered(bytes: Seq<u8>, at: int)
    requires
        0 <= at <= bytes.len() <= usize::MAX,
    ensures
        ordered(code_from(bytes, at), at, bytes.len() as int),
    decreases bytes.len() - at,
{
    if at < bytes.len() {
        if bytes[at] != 96 && bytes[at] != 126 {
            code_ranges_are_ordered(bytes, at + 1);
        } else {
            let run = run_length(bytes, at);
            let fenced = opens_fence(bytes, at);
            run_facts(bytes, at);
            closing_facts(bytes, bytes[at], run, fenced, at + run);
            let end = closing_end(bytes, bytes[at], run, fenced, at + run);
            if bytes[at] == 126 && !fenced {
                code_ranges_are_ordered(bytes, at + run);
            } else {
                code_ranges_are_ordered(bytes, end);
                let rest = code_from(bytes, end);
                let all = code_from(bytes, at);
                assert(all == seq![(at as usize, end as usize)] + rest);
                assert forall|i: int| 0 <= i < all.len() implies at <= (#[trigger] all[i]).0
                    < all[i].1 <= bytes.len() by {
                    if i > 0 {
                        assert(all[i] == rest[i - 1]);
                    }
                }
                assert forall|i: int, j: int| 0 <= i < j < all.len() implies (#[trigger] all[i]).1
                    <= (#[trigger] all[j]).0 by {
                    assert(all[j] == rest[j - 1]);
                    if i > 0 {
                        assert(all[i] == rest[i - 1]);
                    }
                }
            }
        }
    }
}

/// Number of bytes from `at` on that equal the byte at `at`.
fn count_run(bytes: &[u8], at: usize) -> (run: usize)
    requires
        at < bytes.len(),
    ensures
        run == run_length(bytes@, at as int),
        1 <= run <= bytes.len() - at,
{
    let mut run: usize = 1;
    while at + run < bytes.len() && bytes[at + run] == bytes[at]
        invariant
            at < bytes.len(),
            1 <= run <= bytes.len() - at,
            bytes@[at + run - 1] == bytes@[at as int],
            run_length(bytes@, at as int) == run - 1 + run_length(bytes@, at + run - 1),
        decreases bytes.len() - at - run,
    {
        run += 1;
    }
    run
}

/// First position at or behind `at` that holds `wanted`, or the end.
fn find_byte(bytes: &[u8], wanted: u8, at: usize) -> (found: usize)
    requires
        at <= bytes.len(),
    ensures
        found == next_byte(bytes@, wanted, at as int),
        at <= found <= bytes.len(),
        found < bytes.len() ==> bytes@[found as int] == wanted,
{
    proof {
        next_byte_facts(bytes@, wanted, at as int);
    }
    let mut found: usize = at;
    while found < bytes.len() && bytes[found] != wanted
        invariant
            at <= found <= bytes.len(),
            next_byte(bytes@, wanted, at as int) == next_byte(bytes@, wanted, found as int),
        decreases bytes.len() - found,
    {
        found += 1;
    }
    found
}

/// An ASCII byte starts a character, and so does the byte behind it.
pub proof fn ascii_byte_boundaries(text: Seq<char>, at: int)
    requires
        0 <= at < utf8(text).len(),
        utf8(text)[at] <= 0x7f,
    ensures
        boundary(utf8(text), at),
        boundary(utf8(text), at + 1),
{
    encode_utf8_valid_utf8(text);
    ascii_then_boundary(utf8(text), at);
}

/// Whether at most three bytes, all whitespace, stand before `at` on its line.
fn is_fence_indent(text: &str, at: usize) -> (yes: bool)
    requires
        boundary(utf8(text@), at as int),
    ensures
        yes == indents_fence(utf8(text@), at as int),
{
    let start: usize = find_line_start(text, at);
    proof {
        line_start_is_boundary(text@, at as int);
    }
    at - start <= 3 && is_all_whitespace(cut_part(text, start, at))
}

/// The end of the first closing run of `marker` at or behind `from`, or the
/// end of the text.
fn find_closing(text: &str, marker: u8, run: usize, fenced: bool, from: usize) -> (end: usize)
    requires
        from <= utf8(text@).len(),
        marker <= 0x7f,
    ensures
        end == closing_end(utf8(text@), marker, run as int, fenced, from as int),
        from <= end <= utf8(text@).len(),
{
    let bytes: &[u8] = text.as_bytes();
    proof {
        closing_facts(bytes@, marker, run as int, fenced, from as int);
    }
    let mut search: usize = from;
    loop
        invariant
            from <= search <= bytes.len(),
            bytes@ == utf8(text@),
            marker <= 0x7f,
            closing_end(bytes@, marker, run as int, fenced, from as int) == closing_end(
                bytes@,
                marker,
                run as int,
                fenced,
                search as int,
            ),
            from <= closing_end(bytes@, marker, run as int, fenced, from as int) <= bytes.len(),
        decreases bytes.len() - search,
    {
        let candidate: usize = find_byte(bytes, marker, search);
        if candidate >= bytes.len() {
            return bytes.len();
        }
        let candidate_run: usize = count_run(bytes, candidate);
        proof {
            ascii_byte_boundaries(text@, candidate as int);
        }
        let done: bool = if fenced {
            candidate_run >= run && is_fence_indent(text, candidate)
        } else {
            candidate_run == run
        };
        if done {
            return candidate + candidate_run;
        }
        search = candidate + candidate_run;
    }
}

/// Markdown code spans and fences whose contents are opaque to XML completion
/// and prose assistance.
pub fn code_ranges(text: &str) -> (ranges: RangeList)
    ensures
        listed(ranges) == code_from(utf8(text@), 0),
        ordered(listed(ranges), 0, utf8(text@).len() as int),
{
    let bytes: &[u8] = text.as_bytes();
    let length: usize = bytes.len();
    proof {
        code_ranges_are_ordered(bytes@, 0);
    }
    let mut ranges: RangeList = ranges_new();
    let mut at: usize = 0;
    assert(listed(ranges) + code_from(bytes@, 0) =~= code_from(bytes@, 0));
    while at < length
        invariant
            at <= length,
            length == bytes.len(),
            bytes@ == utf8(text@),
            code_from(bytes@, 0) == listed(ranges) + code_from(bytes@, at as int),
        decreases bytes.len() - at,
    {
        let marker: u8 = bytes[at];
        if marker != 96 && marker != 126 {
            at += 1;
        } else {
            let run: usize = count_run(bytes, at);
            proof {
                ascii_byte_boundaries(text@, at as int);
            }
            let fenced: bool = run >= 3 && is_fence_indent(text, at);
            let end: usize = find_closing(text, marker, run, fenced, at + run);
            if marker == 126 && !fenced {
                at += run;
            } else {
                let ghost before = listed(ranges);
                ranges_push(&mut ranges, at, end);
                assert(before + (seq![(at, end)] + code_from(bytes@, end as int)) =~= before.push(
                    (at, end),
                ) + code_from(bytes@, end as int));
                at = end;
            }
        }
    }
    assert(listed(ranges) + code_from(bytes@, at as int) =~= listed(ranges));
    ranges
}

/// The end of the comment that starts at `at`, behind its opening.
pub open spec fn comment_end(bytes: Seq<u8>, at: int) -> Option<int>
    decreases bytes.len() - at,
{
    if at + 3 > bytes.len() {
        None
    } else if bytes[at] == 45 && bytes[at + 1] == 45 && bytes[at + 2] == 62 {
        Some(at + 3)
    } else {
        comment_end(bytes, at + 1)
    }
}

/// The `>` that ends the tag whose inside starts at `at`, passing over quoted
/// text; a processing instruction ends with `?>`.
pub open spec fn tag_close(
    bytes: Seq<u8>,
    at: int,
    processing: bool,
    quote: Option<u8>,
    previous: Option<u8>,
) -> Option<int>
    decreases bytes.len() - at,
{
    if at >= bytes.len() {
        None
    } else {
        let byte = bytes[at];
        match quote {
            Some(delimiter) => tag_close(
                bytes,
                at + 1,
                processing,
                if byte == delimiter {
                    None
                } else {
                    quote
                },
                Some(byte),
            ),
            None => if byte == 34 || byte == 39 {
                tag_close(bytes, at + 1, processing, Some(byte), Some(byte))
            } else if byte == 62 && (!processing || previous == Some(63u8)) {
                Some(at)
            } else {
                tag_close(bytes, at + 1, processing, None, Some(byte))
            },
        }
    }
}

/// Whether the `<` at `at` starts markup.
pub open spec fn starts_markup(bytes: Seq<u8>, at: int) -> bool {
    at + 1 < bytes.len() && (bytes[at + 1] == 47 || bytes[at + 1] == 33 || bytes[at + 1] == 63
        || 65 <= bytes[at + 1] <= 90 || 97 <= bytes[at + 1] <= 122)
}

/// Whether a comment opens at `at`.
pub open spec fn opens_comment(bytes: Seq<u8>, at: int) -> bool {
    at + 3 < bytes.len() && bytes[at + 1] == 33 && bytes[at + 2] == 45 && bytes[at + 3] == 45
}

/// Whether the byte behind `at` is a question mark.
pub open spec fn opens_processing(bytes: Seq<u8>, at: int) -> bool {
    at + 1 < bytes.len() && bytes[at + 1] == 63
}

/// The end of the markup that starts at `at`, or the end of the text.
pub open spec fn markup_end(bytes: Seq<u8>, at: int) -> int {
    if opens_comment(bytes, at) {
        match comment_end(bytes, at + 4) {
            Some(end) => end,
            None => bytes.len() as int,
        }
    } else {
        match tag_close(bytes, at + 1, opens_processing(bytes, at), None, None) {
            Some(end) => end + 1,
            None => bytes.len() as int,
        }
    }
}

/// The tags, comments, declarations and processing instructions from `at` on.
pub open spec fn xml_from(bytes: Seq<u8>, at: int) -> Seq<(usize, usize)>
    decreases bytes.len() - at,
{
    let start = next_byte(bytes, 60, at);
    let end = markup_end(bytes, start);
    if start < at || start >= bytes.len() {
        Seq::empty()
    } else if !starts_markup(bytes, start) {
        xml_from(bytes, start + 1)
    } else if end <= start || end > bytes.len() {
        Seq::empty()
    } else {
        seq![(start as usize, end as usize)] + xml_from(bytes, end)
    }
}

proof fn comment_facts(bytes: Seq<u8>, at: int)
    requires
        0 <= at,
    ensures
        comment_end(bytes, at) matches Some(end) ==> at < end <= bytes.len() && bytes[end - 1]
            == 62,
    decreases bytes.len() - at,
{
    if at + 3 <= bytes.len() && !(bytes[at] == 45 && bytes[at + 1] == 45 && bytes[at + 2] == 62) {
        comment_facts(bytes, at + 1);
    }
}

proof fn tag_facts(
    bytes: Seq<u8>,
    at: int,
    processing: bool,
    quote: Option<u8>,
    previous: Option<u8>,
)
    requires
        0 <= at,
    ensures
        tag_close(bytes, at, processing, quote, previous) matches Some(end) ==> at <= end
            < bytes.len() && bytes[end] == 62,
    decreases bytes.len() - at,
{
    if at < bytes.len() {
        let byte = bytes[at];
        match quote {
            Some(delimiter) => {
                tag_facts(
                    bytes,
                    at + 1,
                    processing,
                    if byte == delimiter {
                        None
                    } else {
                        quote
                    },
                    Some(byte),
                );
            },
            None => {
                if byte == 34 || byte == 39 {
                    tag_facts(bytes, at + 1, processing, Some(byte), Some(byte));
                } else {
                    tag_facts(bytes, at + 1, processing, None, Some(byte));
                }
            },
        }
    }
}

proof fn markup_facts(bytes: Seq<u8>, at: int)
    requires
        0 <= at < bytes.len(),
    ensures
        at < markup_end(bytes, at) <= bytes.len(),
{
    comment_facts(bytes, at + 4);
    tag_facts(bytes, at + 1, opens_processing(bytes, at), None, None);
}

/// Markup ranges are in order, not empty and apart.
pub proof fn xml_ranges_are_ordered(bytes: Seq<u8>, at: int)
    requires
        0 <= at <= bytes.len() <= usize::MAX,
    ensures
        ordered(xml_from(bytes, at), at, bytes.len() as int),
    decreases bytes.len() - at,
{
    next_byte_facts(bytes, 60, at);
    let start = next_byte(bytes, 60, at);
    if start < bytes.len() {
        markup_facts(bytes, start);
        let end = markup_end(bytes, start);
        if !starts_markup(bytes, start) {
            xml_ranges_are_ordered(bytes, start + 1);
        } else {
            xml_ranges_are_ordered(bytes, end);
            let rest = xml_from(bytes, end);
            let all = xml_from(bytes, at);
            assert(all == seq![(start as usize, end as usize)] + rest);
            assert forall|i: int| 0 <= i < all.len() implies at <= (#[trigger] all[i]).0 < all[i].1
                <= bytes.len() by {
                if i > 0 {
                    assert(all[i] == rest[i - 1]);
                }
            }
            assert forall|i: int, j: int| 0 <= i < j < all.len() implies (#[trigger] all[i]).1 <= (
            #[trigger] all[j]).0 by {
                assert(all[j] == rest[j - 1]);
                if i > 0 {
                    assert(all[i] == rest[i - 1]);
                }
            }
        }
    }
}

/// The end of the comment whose inside starts at `at`.
fn find_comment_end(bytes: &[u8], at: usize) -> (end: Option<usize>)
    requires
        at <= bytes.len(),
    ensures
        match end {
            Some(found) => comment_end(bytes@, at as int) == Some(found as int) && at < found
                <= bytes.len(),
            None => comment_end(bytes@, at as int) is None,
        },
{
    let mut here: usize = at;
    while bytes.len() - here >= 3
        invariant
            at <= here <= bytes.len(),
            comment_end(bytes@, at as int) == comment_end(bytes@, here as int),
        decreases bytes.len() - here,
    {
        if bytes[here] == 45 && bytes[here + 1] == 45 && bytes[here + 2] == 62 {
            return Some(here + 3);
        }
        here += 1;
    }
    None
}

/// The `>` that ends the tag whose inside starts at `start`.
pub fn tag_end(text: &str, start: usize, processing: bool) -> (end: Option<usize>)
    requires
        start <= utf8(text@).len(),
    ensures
        match end {
            Some(found) => tag_close(utf8(text@), start as int, processing, None, None) == Some(
                found as int,
            ) && start <= found < utf8(text@).len(),
            None => tag_close(utf8(text@), start as int, processing, None, None) is None,
        },
{
    let bytes: &[u8] = text.as_bytes();
    let mut quote: Option<u8> = None;
    let mut previous: Option<u8> = None;
    let mut at: usize = start;
    while at < bytes.len()
        invariant
            start <= at <= bytes.len(),
            bytes@ == utf8(text@),
            tag_close(bytes@, start as int, processing, None, None) == tag_close(
                bytes@,
                at as int,
                processing,
                quote,
                previous,
            ),
        decreases bytes.len() - at,
    {
        let byte: u8 = bytes[at];
        match quote {
            Some(delimiter) => {
                if byte == delimiter {
                    quote = None;
                }
            },
            None => {
                if byte == 34 || byte == 39 {
                    quote = Some(byte);
                } else if byte == 62 && (!processing || matches!(previous, Some(63))) {
                    return Some(at);
                }
            },
        }
        previous = Some(byte);
        at += 1;
    }
    None
}

/// XML tags, comments, declarations, and processing instructions hidden from
/// prose assistance. Apparent markup inside Markdown code is already covered
/// by [`code_ranges`].
pub fn xml_ranges(text: &str) -> (ranges: RangeList)
    ensures
        listed(ranges) == xml_from(utf8(text@), 0),
        ordered(listed(ranges), 0, utf8(text@).len() as int),
{
    let bytes: &[u8] = text.as_bytes();
    let length: usize = bytes.len();
    proof {
        xml_ranges_are_ordered(bytes@, 0);
    }
    let mut ranges: RangeList = ranges_new();
    let mut offset: usize = 0;
    assert(listed(ranges) + xml_from(bytes@, 0) =~= xml_from(bytes@, 0));
    loop
        invariant_except_break
            offset <= length,
            length == bytes.len(),
            bytes@ == utf8(text@),
            xml_from(bytes@, 0) == listed(ranges) + xml_from(bytes@, offset as int),
        ensures
            listed(ranges) == xml_from(bytes@, 0),
        decreases length - offset,
    {
        let start: usize = find_byte(bytes, 60, offset);
        if start >= length {
            assert(listed(ranges) + xml_from(bytes@, offset as int) =~= listed(ranges));
            break;
        }
        let valid: bool = start + 1 < length && (bytes[start + 1] == 47 || bytes[start + 1] == 33
            || bytes[start + 1] == 63 || (65 <= bytes[start + 1] && bytes[start + 1] <= 90) || (97
            <= bytes[start + 1] && bytes[start + 1] <= 122));
        if !valid {
            offset = start + 1;
        } else {
            proof {
                markup_facts(bytes@, start as int);
            }
            let comment: bool = length - start > 3 && bytes[start + 1] == 33 && bytes[start + 2]
                == 45 && bytes[start + 3] == 45;
            let end: usize = if comment {
                match find_comment_end(bytes, start + 4) {
                    Some(found) => found,
                    None => length,
                }
            } else {
                match tag_end(text, start + 1, bytes[start + 1] == 63) {
                    Some(found) => found + 1,
                    None => length,
                }
            };
            let ghost before = listed(ranges);
            ranges_push(&mut ranges, start, end);
            assert(before + (seq![(start, end)] + xml_from(bytes@, end as int)) =~= before.push(
                (start, end),
            ) + xml_from(bytes@, end as int));
            offset = end;
        }
    }
    ranges
}

/// Whether a character ends a tag name.
pub open spec fn ends_name(c: char) -> bool {
    whitespace(c) || c == '/' || c == '>' || c == '<' || c == '=' || c == '?' || c == '!' || c
        == '"' || c == '\''
}

/// Bytes of the characters that lead a text and belong to a tag name.
pub open spec fn name_bytes(text: Seq<char>) -> int
    decreases text.len(),
{
    if text.len() == 0 || ends_name(text[0]) {
        0
    } else {
        char_bytes(text[0]) + name_bytes(text.drop_first())
    }
}

/// Where the tag name that starts at `from` ends.
pub open spec fn name_end(bytes: Seq<u8>, from: int, to: int) -> int {
    from + name_bytes(part(bytes, from, to))
}

/// Where the bytes from `from` up to `to` end without trailing ASCII whitespace.
pub open spec fn ascii_trimmed(bytes: Seq<u8>, from: int, to: int) -> int
    decreases to - from,
{
    if from < to && (bytes[to - 1] == 32 || bytes[to - 1] == 9 || bytes[to - 1] == 10 || bytes[to
        - 1] == 12 || bytes[to - 1] == 13) {
        ascii_trimmed(bytes, from, to - 1)
    } else {
        to
    }
}

/// Whether a tag closes itself: a slash stands at its end.
pub open spec fn closes_itself(bytes: Seq<u8>, from: int, to: int) -> bool {
    let end = ascii_trimmed(bytes, from, to);
    end > from && bytes[end - 1] == 47
}

/// The end of the first range that covers `at`.
pub open spec fn covering_end(ranges: Seq<(usize, usize)>, at: int) -> Option<int>
    decreases ranges.len(),
{
    if ranges.len() == 0 {
        None
    } else if ranges[0].0 <= at < ranges[0].1 {
        Some(ranges[0].1 as int)
    } else {
        covering_end(ranges.drop_first(), at)
    }
}

/// Whether two ranges hold the same bytes.
pub open spec fn same_bytes(bytes: Seq<u8>, a: (usize, usize), b: (usize, usize)) -> bool {
    bytes.subrange(a.0 as int, a.1 as int) == bytes.subrange(b.0 as int, b.1 as int)
}

/// The open tags left when a closing tag named `name` is met: the innermost
/// tag of that name goes, with all inside it.
pub open spec fn closed_tag(
    bytes: Seq<u8>,
    open: Seq<(usize, usize)>,
    name: (usize, usize),
    count: int,
) -> Seq<(usize, usize)>
    decreases count,
{
    if count <= 0 {
        open
    } else if same_bytes(bytes, open[count - 1], name) {
        open.take(count - 1)
    } else {
        closed_tag(bytes, open, name, count - 1)
    }
}

/// The open tags after the tag from `start` to its `>` at `end`.
pub open spec fn met_tag(
    bytes: Seq<u8>,
    open: Seq<(usize, usize)>,
    start: int,
    end: int,
) -> Seq<(usize, usize)> {
    let closing = bytes[start + 1] == 47;
    let from = if closing {
        start + 2
    } else {
        start + 1
    };
    let to = name_end(bytes, from, end);
    if to == from {
        open
    } else if closing {
        closed_tag(bytes, open, (from as usize, to as usize), open.len() as int)
    } else if closes_itself(bytes, to, end) {
        open
    } else {
        open.push((from as usize, to as usize))
    }
}

/// The names of the tags that are open at the end of the text, outermost first.
pub open spec fn open_tags(
    bytes: Seq<u8>,
    code: Seq<(usize, usize)>,
    at: int,
    open: Seq<(usize, usize)>,
) -> Seq<(usize, usize)>
    decreases bytes.len() - at,
{
    let start = next_byte(bytes, 60, at);
    if start < at || start >= bytes.len() {
        open
    } else {
        match covering_end(code, start) {
            Some(end) => if start < end <= bytes.len() {
                open_tags(bytes, code, end, open)
            } else {
                open
            },
            None => if opens_comment(bytes, start) {
                match comment_end(bytes, start + 4) {
                    Some(end) => if start < end <= bytes.len() {
                        open_tags(bytes, code, end, open)
                    } else {
                        open
                    },
                    None => open,
                }
            } else {
                let processing = opens_processing(bytes, start);
                match tag_close(bytes, start + 1, processing, None, None) {
                    Some(end) => if start < end < bytes.len() {
                        open_tags(
                            bytes,
                            code,
                            end + 1,
                            if processing || bytes[start + 1] == 33 {
                                open
                            } else {
                                met_tag(bytes, open, start, end)
                            },
                        )
                    } else {
                        open
                    },
                    None => open,
                }
            },
        }
    }
}

/// The name of the innermost tag that is open at the end of the text.
pub open spec fn innermost_open_tag(bytes: Seq<u8>) -> Option<(usize, usize)> {
    let open = open_tags(bytes, code_from(bytes, 0), 0, Seq::empty());
    if open.len() == 0 {
        None
    } else {
        Some(open.last())
    }
}

/// The bytes of a tag name lead its text.
proof fn name_bytes_facts(text: Seq<char>)
    ensures
        0 <= name_bytes(text) <= utf8(text).len(),
        boundary(utf8(text), name_bytes(text)),
    decreases text.len(),
{
    ends_are_boundaries(text);
    if text.len() > 0 && !ends_name(text[0]) {
        let rest = text.drop_first();
        name_bytes_facts(rest);
        let head = seq![text[0]];
        assert(text =~= head + rest);
        assert(head.drop_first() =~= Seq::<char>::empty());
        assert(utf8(head.drop_first()) =~= Seq::<u8>::empty());
        assert(utf8(head) =~= encode_scalar(text[0] as u32));
        crate::strings::concat_boundaries(head, rest, name_bytes(text));
        utf8_of_concat(head, rest);
    }
}

/// A tag name ends at a boundary inside its tag.
proof fn name_end_facts(text: Seq<char>, from: int, to: int)
    requires
        0 <= from <= to <= utf8(text).len(),
        boundary(utf8(text), from),
        boundary(utf8(text), to),
    ensures
        from <= name_end(utf8(text), from, to) <= to,
        boundary(utf8(text), name_end(utf8(text), from, to)),
{
    let bytes = utf8(text);
    let piece = part(bytes, from, to);
    part_bytes(text, from, to);
    name_bytes_facts(piece);
    let end = name_end(bytes, from, to);
    if end < to {
        assert(bytes.subrange(from, to)[end - from] == bytes[end]);
    }
}

/// Where the tag name that starts at `from` ends.
fn find_name_end(text: &str, from: usize, to: usize) -> (end: usize)
    requires
        from <= to,
        boundary(utf8(text@), from as int),
        boundary(utf8(text@), to as int),
    ensures
        end == name_end(utf8(text@), from as int, to as int),
        from <= end <= to,
        boundary(utf8(text@), end as int),
{
    let piece: &str = cut_part(text, from, to);
    let chars: Vec<char> = chars_of(piece);
    proof {
        name_end_facts(text@, from as int, to as int);
        assert(chars@.skip(0) =~= chars@);
    }
    let mut end: usize = from;
    let mut at: usize = 0;
    while at < chars.len()
        invariant
            at <= chars.len(),
            from <= end <= to,
            name_end(utf8(text@), from as int, to as int) <= to,
            boundary(utf8(text@), name_end(utf8(text@), from as int, to as int)),
            name_end(utf8(text@), from as int, to as int) == end + name_bytes(
                chars@.skip(at as int),
            ),
        decreases chars.len() - at,
    {
        let c: char = chars[at];
        let ghost rest = chars@.skip(at as int);
        assert(rest[0] == c);
        assert(rest.drop_first() =~= chars@.skip(at + 1));
        proof {
            name_bytes_facts(chars@.skip(at + 1));
        }
        if is_whitespace(c) || c == '/' || c == '>' || c == '<' || c == '=' || c == '?' || c == '!'
            || c == '"' || c == '\'' {
            return end;
        }
        end += char_len(c);
        at += 1;
    }
    end
}

/// Whether a tag closes itself.
fn is_self_closing(bytes: &[u8], from: usize, to: usize) -> (yes: bool)
    requires
        from <= to <= bytes.len(),
    ensures
        yes == closes_itself(bytes@, from as int, to as int),
{
    let mut end: usize = to;
    while from < end && (bytes[end - 1] == 32 || bytes[end - 1] == 9 || bytes[end - 1] == 10
        || bytes[end - 1] == 12 || bytes[end - 1] == 13)
        invariant
            from <= end <= to <= bytes.len(),
            ascii_trimmed(bytes@, from as int, to as int) == ascii_trimmed(
                bytes@,
                from as int,
                end as int,
            ),
        decreases end,
    {
        end -= 1;
    }
    end > from && bytes[end - 1] == 47
}

/// The end of the first range that covers `at`.
fn find_covering(ranges: &RangeList, at: usize) -> (end: Option<usize>)
    ensures
        match end {
            Some(found) => covering_end(listed(*ranges), at as int) == Some(found as int),
            None => covering_end(listed(*ranges), at as int) is None,
        },
{
    let count: usize = ranges_len(ranges);
    let ghost all = listed(*ranges);
    let mut index: usize = 0;
    assert(all.skip(0) =~= all);
    while index < count
        invariant
            index <= count,
            count == all.len(),
            all == listed(*ranges),
            covering_end(all, at as int) == covering_end(all.skip(index as int), at as int),
        decreases count - index,
    {
        let (start, end): (usize, usize) = ranges_get(ranges, index);
        assert(all.skip(index as int)[0] == (start, end));
        assert(all.skip(index as int).drop_first() =~= all.skip(index + 1));
        if start <= at && at < end {
            return Some(end);
        }
        index += 1;
    }
    None
}

/// Whether every name lies inside the text, cut at boundaries.
pub open spec fn names_cut(bytes: Seq<u8>, names: Seq<(usize, usize)>) -> bool {
    forall|i: int|
        0 <= i < names.len() ==> (#[trigger] names[i]).0 < names[i].1 <= bytes.len() && boundary(
            bytes,
            names[i].0 as int,
        ) && boundary(bytes, names[i].1 as int)
}

/// Whether two ranges of the same text hold the same bytes.
fn same_name(bytes: &[u8], a: (usize, usize), b: (usize, usize)) -> (same: bool)
    requires
        a.0 <= a.1 <= bytes.len(),
        b.0 <= b.1 <= bytes.len(),
    ensures
        same == same_bytes(bytes@, a, b),
{
    let ghost left = bytes@.subrange(a.0 as int, a.1 as int);
    let ghost right = bytes@.subrange(b.0 as int, b.1 as int);
    if a.1 - a.0 != b.1 - b.0 {
        assert(left.len() != right.len());
        return false;
    }
    let count: usize = a.1 - a.0;
    let mut at: usize = 0;
    while at < count
        invariant
            at <= count,
            count == a.1 - a.0,
            count == b.1 - b.0,
            a.0 <= a.1 <= bytes.len(),
            b.0 <= b.1 <= bytes.len(),
            left == bytes@.subrange(a.0 as int, a.1 as int),
            right == bytes@.subrange(b.0 as int, b.1 as int),
            forall|i: int| 0 <= i < at ==> left[i] == right[i],
        decreases count - at,
    {
        if bytes[a.0 + at] != bytes[b.0 + at] {
            assert(left[at as int] != right[at as int]);
            return false;
        }
        at += 1;
    }
    assert(left =~= right);
    true
}

/// Records the tag from `start` to its `>` at `end`.
fn meet_tag(text: &str, open: &mut Vec<(usize, usize)>, start: usize, end: usize)
    requires
        start < end < utf8(text@).len(),
        utf8(text@)[start as int] == 60,
        utf8(text@)[end as int] == 62,
        names_cut(utf8(text@), old(open)@),
    ensures
        final(open)@ == met_tag(utf8(text@), old(open)@, start as int, end as int),
        names_cut(utf8(text@), final(open)@),
{
    let bytes: &[u8] = text.as_bytes();
    proof {
        ascii_byte_boundaries(text@, start as int);
        ascii_byte_boundaries(text@, end as int);
    }
    let closing: bool = bytes[start + 1] == 47;
    proof {
        if closing {
            ascii_byte_boundaries(text@, start + 1);
        }
    }
    let from: usize = if closing {
        start + 2
    } else {
        start + 1
    };
    let to: usize = find_name_end(text, from, end);
    if to == from {
        return;
    }
    if closing {
        let mut count: usize = open.len();
        while count > 0
            invariant
                count <= open.len(),
                *open == *old(open),
                bytes@ == utf8(text@),
                from < to <= bytes.len(),
                start + 1 < bytes.len(),
                bytes@[start + 1] == 47,
                from == start + 2,
                to == name_end(bytes@, from as int, end as int),
                names_cut(bytes@, open@),
                closed_tag(bytes@, open@, (from, to), open.len() as int) == closed_tag(
                    bytes@,
                    open@,
                    (from, to),
                    count as int,
                ),
            decreases count,
        {
            let name: (usize, usize) = open[count - 1];
            if same_name(bytes, name, (from, to)) {
                open.truncate(count - 1);
                assert(open@ =~= old(open)@.take(count - 1));
                return;
            }
            count -= 1;
        }
    } else if !is_self_closing(bytes, to, end) {
        open.push((from, to));
    }
}

/// The name of the innermost tag that is open at the end of `text`.
pub fn nearest_open_tag(text: &str) -> (name: Option<&str>)
    ensures
        match name {
            Some(found) => innermost_open_tag(utf8(text@)) matches Some(range) && range.0 < range.1
                <= utf8(text@).len() && boundary(utf8(text@), range.0 as int) && boundary(
                utf8(text@),
                range.1 as int,
            ) && utf8(found@) == utf8(text@).subrange(range.0 as int, range.1 as int),
            None => innermost_open_tag(utf8(text@)) is None,
        },
{
    let code: RangeList = code_ranges(text);
    let bytes: &[u8] = text.as_bytes();
    let length: usize = bytes.len();
    let mut open: Vec<(usize, usize)> = Vec::new();
    let mut offset: usize = 0;
    let ghost goal = open_tags(bytes@, listed(code), 0, Seq::empty());
    loop
        invariant_except_break
            offset <= length,
            length == bytes.len(),
            bytes@ == utf8(text@),
            names_cut(bytes@, open@),
            ordered(listed(code), 0, length as int),
            goal == open_tags(bytes@, listed(code), offset as int, open@),
        ensures
            open@ == goal,
            names_cut(bytes@, open@),
            bytes@ == utf8(text@),
        decreases length - offset,
    {
        let start: usize = find_byte(bytes, 60, offset);
        if start >= length {
            break;
        }
        match find_covering(&code, start) {
            Some(end) => {
                proof {
                    covering_is_inside(listed(code), start as int, length as int);
                }
                offset = end;
            },
            None => {
                let comment: bool = length - start > 3 && bytes[start + 1] == 33 && bytes[start + 2]
                    == 45 && bytes[start + 3] == 45;
                if comment {
                    match find_comment_end(bytes, start + 4) {
                        Some(end) => {
                            offset = end;
                        },
                        None => {
                            break;
                        },
                    }
                } else {
                    let processing: bool = start + 1 < length && bytes[start + 1] == 63;
                    proof {
                        tag_facts(bytes@, start + 1, processing, None, None);
                    }
                    match tag_end(text, start + 1, processing) {
                        Some(end) => {
                            if !(processing || bytes[start + 1] == 33) {
                                meet_tag(text, &mut open, start, end);
                            }
                            offset = end + 1;
                        },
                        None => {
                            break;
                        },
                    }
                }
            },
        }
    }
    if open.len() == 0 {
        None
    } else {
        let (from, to): (usize, usize) = open[open.len() - 1];
        Some(slice_text(text, from, to))
    }
}

proof fn covering_is_inside(ranges: Seq<(usize, usize)>, at: int, length: int)
    requires
        ordered(ranges, 0, length),
    ensures
        covering_end(ranges, at) matches Some(end) ==> at < end <= length,
    decreases ranges.len(),
{
    if ranges.len() > 0 && !(ranges[0].0 <= at < ranges[0].1) {
        let rest = ranges.drop_first();
        assert forall|i: int| 0 <= i < rest.len() implies 0 <= (#[trigger] rest[i]).0 < rest[i].1
            <= length by {
            assert(rest[i] == ranges[i + 1]);
        }
        assert forall|i: int, j: int| 0 <= i < j < rest.len() implies (#[trigger] rest[i]).1 <= (
        #[trigger] rest[j]).0 by {
            assert(rest[i] == ranges[i + 1]);
            assert(rest[j] == ranges[j + 1]);
        }
        covering_is_inside(rest, at, length);
    }
}

} // verus!
