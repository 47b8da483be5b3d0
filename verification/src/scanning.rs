//! What holds of finding things in text: code and tags, shortcodes and
//! emoticons, and the paths that a directory offers.

use vstd::prelude::*;

use crate::buffer::BufferView;
use crate::codes::{
    closed_tag, closes, closing_end, code_from, comment_end, met_tag, name_end, next_byte,
    opens_fence, run_length, same_bytes, tag_close,
};
use crate::commands::ArgumentView;
use crate::emoji::{
    catalog_rows, closed_shortcode, emoji_row, emoji_rows, emoticon_at, emoticon_rows, emoticons,
    emoticons_replaced, left_boundary, name_byte, name_start, name_stop, named_emoji,
    open_shortcode, right_boundary, shortcode_replaced, MAX_EMOJI_SUGGESTIONS,
};
use crate::paths::{
    comes_before, offered_name, parent_end, path_candidate, path_candidates, sorted_position,
};
use crate::scoring::{lower_bytes, stands_at, starts_with};
use crate::strings::utf8;

verus! {

/// A run is as many equal bytes as there are in a row.
pub proof fn runs_are_whole(bytes: Seq<u8>, at: int)
    requires
        0 <= at < bytes.len(),
    ensures
        ({
            let end = at + run_length(bytes, at);
            &&& at < end <= bytes.len()
            &&& forall|k: int| at <= k < end ==> #[trigger] bytes[k] == bytes[at]
            &&& end < bytes.len() ==> bytes[end] != bytes[at]
        }),
    decreases bytes.len() - at,
{
    if at + 1 < bytes.len() && bytes[at + 1] == bytes[at] {
        runs_are_whole(bytes, at + 1);
    }
}

proof fn next_is_the_first(bytes: Seq<u8>, wanted: u8, at: int)
    requires
        0 <= at <= bytes.len(),
    ensures
        at <= next_byte(bytes, wanted, at) <= bytes.len(),
        next_byte(bytes, wanted, at) < bytes.len() ==> bytes[next_byte(bytes, wanted, at)]
            == wanted,
        forall|i: int| at <= i < next_byte(bytes, wanted, at) ==> #[trigger] bytes[i] != wanted,
    decreases bytes.len() - at,
{
    if at < bytes.len() && bytes[at] != wanted {
        next_is_the_first(bytes, wanted, at + 1);
    }
}

/// Whether a whole run of `marker` starts at `k` that is not part of a longer
/// one further left, counted from `from` on.
pub open spec fn starts_run(bytes: Seq<u8>, marker: u8, from: int, k: int) -> bool {
    from <= k < bytes.len() && bytes[k] == marker && (k == from || bytes[k - 1] != marker)
}

/// A span or fence ends with the first whole run of its marker that closes it:
/// for a span one as long as the one that opened it, for a fence one no shorter
/// that is indented like a fence. Where there is none, it reaches to the end of
/// the text.
pub proof fn code_ends_with_the_first_closing_run(
    bytes: Seq<u8>,
    marker: u8,
    run: int,
    fenced: bool,
    at: int,
)
    requires
        0 <= at <= bytes.len(),
    ensures
        ({
            let end = closing_end(bytes, marker, run, fenced, at);
            ||| exists|k: int| #[trigger]
                starts_run(bytes, marker, at, k) && closes(bytes, k, run, fenced) && end == k
                    + run_length(bytes, k) && forall|j: int| #[trigger]
                    starts_run(bytes, marker, at, j) && j < k ==> !closes(bytes, j, run, fenced)
            ||| end == bytes.len() && forall|j: int| #[trigger]
                starts_run(bytes, marker, at, j) ==> !closes(bytes, j, run, fenced)
        }),
    decreases bytes.len() - at,
{
    next_is_the_first(bytes, marker, at);
    let found = next_byte(bytes, marker, at);
    if found < bytes.len() {
        runs_are_whole(bytes, found);
        let behind = found + run_length(bytes, found);
        assert(starts_run(bytes, marker, at, found));
        if closes(bytes, found, run, fenced) {
            assert forall|j: int| #[trigger]
                starts_run(bytes, marker, at, j) && j < found implies !closes(
                bytes,
                j,
                run,
                fenced,
            ) by {
                assert(bytes[j] != marker);
            }
        } else {
            code_ends_with_the_first_closing_run(bytes, marker, run, fenced, behind);
            assert forall|j: int| #[trigger] starts_run(bytes, marker, at, j) implies j == found
                || starts_run(bytes, marker, behind, j) by {
                if j < found {
                    assert(bytes[j] != marker);
                } else if found < j < behind {
                    assert(bytes[j - 1] == marker);
                }
            }
            assert forall|j: int| #[trigger] starts_run(bytes, marker, behind, j) implies starts_run(
                bytes,
                marker,
                at,
                j,
            ) by {
                if j == behind {
                    assert(bytes[behind] != bytes[found]);
                }
            }
        }
    }
}

/// Whether a byte lies in one of the ranges.
pub open spec fn covered(ranges: Seq<(usize, usize)>, k: int) -> bool {
    exists|i: int| 0 <= i < ranges.len() && (#[trigger] ranges[i]).0 <= k < ranges[i].1
}

/// Every backtick lies in code, and every range of code starts with a run of
/// backticks or a fence of tildes, and ends where that run is closed.
pub proof fn backticks_make_code(bytes: Seq<u8>, at: int)
    requires
        0 <= at <= bytes.len() <= usize::MAX,
    ensures
        forall|k: int|
            at <= k < bytes.len() && #[trigger] bytes[k] == 96 ==> covered(
                code_from(bytes, at),
                k,
            ),
        forall|i: int|
            0 <= i < code_from(bytes, at).len() ==> {
                let range = #[trigger] code_from(bytes, at)[i];
                let start = range.0 as int;
                &&& at <= start < bytes.len()
                &&& bytes[start] == 96 || bytes[start] == 126 && opens_fence(bytes, start)
                &&& range.1 == closing_end(
                    bytes,
                    bytes[start],
                    run_length(bytes, start),
                    opens_fence(bytes, start),
                    start + run_length(bytes, start),
                )
            },
    decreases bytes.len() - at,
{
    let ranges = code_from(bytes, at);
    if at < bytes.len() {
        if bytes[at] != 96 && bytes[at] != 126 {
            backticks_make_code(bytes, at + 1);
            assert(ranges == code_from(bytes, at + 1));
        } else {
            let run = run_length(bytes, at);
            let fenced = opens_fence(bytes, at);
            runs_are_whole(bytes, at);
            let end = closing_end(bytes, bytes[at], run, fenced, at + run);
            closing_within(bytes, bytes[at], run, fenced, at + run);
            if bytes[at] == 126 && !fenced {
                backticks_make_code(bytes, at + run);
                assert(ranges == code_from(bytes, at + run));
            } else {
                backticks_make_code(bytes, end);
                let rest = code_from(bytes, end);
                assert(ranges == seq![(at as usize, end as usize)] + rest);
                assert forall|k: int|
                    at <= k < bytes.len() && #[trigger] bytes[k] == 96 implies covered(
                    ranges,
                    k,
                ) by {
                    if k < end {
                        assert(ranges[0].0 <= k < ranges[0].1);
                    } else {
                        let i = choose|i: int|
                            0 <= i < rest.len() && (#[trigger] rest[i]).0 <= k < rest[i].1;
                        assert(ranges[i + 1] == rest[i]);
                    }
                }
                assert forall|i: int| 0 <= i < ranges.len() implies {
                    let range = #[trigger] ranges[i];
                    let start = range.0 as int;
                    &&& at <= start < bytes.len()
                    &&& bytes[start] == 96 || bytes[start] == 126 && opens_fence(bytes, start)
                    &&& range.1 == closing_end(
                        bytes,
                        bytes[start],
                        run_length(bytes, start),
                        opens_fence(bytes, start),
                        start + run_length(bytes, start),
                    )
                } by {
                    if i > 0 {
                        assert(ranges[i] == rest[i - 1]);
                    }
                }
            }
        }
    }
}

proof fn closing_within(bytes: Seq<u8>, marker: u8, run: int, fenced: bool, at: int)
    requires
        0 <= at <= bytes.len(),
    ensures
        at <= closing_end(bytes, marker, run, fenced, at) <= bytes.len(),
    decreases bytes.len() - at,
{
    next_is_the_first(bytes, marker, at);
    let found = next_byte(bytes, marker, at);
    if found < bytes.len() {
        runs_are_whole(bytes, found);
        if !closes(bytes, found, run, fenced) {
            closing_within(bytes, marker, run, fenced, found + run_length(bytes, found));
        }
    }
}

proof fn quotes_run_to_their_end(
    bytes: Seq<u8>,
    at: int,
    processing: bool,
    delimiter: u8,
    end: int,
    previous: Option<u8>,
)
    requires
        0 <= at <= end < bytes.len(),
        bytes[end] == delimiter,
        forall|k: int| at <= k < end ==> #[trigger] bytes[k] != delimiter,
    ensures
        tag_close(bytes, at, processing, Some(delimiter), previous) == tag_close(
            bytes,
            end + 1,
            processing,
            None,
            Some(delimiter),
        ),
    decreases end - at,
{
    if at < end {
        quotes_run_to_their_end(bytes, at + 1, processing, delimiter, end, Some(bytes[at]));
    }
}

/// Text in quotes is passed over on the way to the end of a tag, whatever it
/// holds.
pub proof fn quoted_text_is_passed_over(
    bytes: Seq<u8>,
    at: int,
    end: int,
    processing: bool,
    previous: Option<u8>,
)
    requires
        0 <= at < end < bytes.len(),
        bytes[at] == 34 || bytes[at] == 39,
        bytes[end] == bytes[at],
        forall|k: int| at < k < end ==> #[trigger] bytes[k] != bytes[at],
    ensures
        tag_close(bytes, at, processing, None, previous) == tag_close(
            bytes,
            end + 1,
            processing,
            None,
            Some(bytes[at]),
        ),
{
    quotes_run_to_their_end(bytes, at + 1, processing, bytes[at], end, Some(bytes[at]));
}

/// A tag without quotes ends with the first `>` in it.
pub proof fn tags_end_with_the_first_bracket(
    bytes: Seq<u8>,
    at: int,
    end: int,
    previous: Option<u8>,
)
    requires
        0 <= at <= end < bytes.len(),
        bytes[end] == 62,
        forall|k: int|
            at <= k < end ==> #[trigger] bytes[k] != 62 && bytes[k] != 34 && bytes[k] != 39,
    ensures
        tag_close(bytes, at, false, None, previous) == Some(end),
    decreases end - at,
{
    if at < end {
        tags_end_with_the_first_bracket(bytes, at + 1, end, Some(bytes[at]));
    }
}

/// A comment ends with the first `-->` in it.
pub proof fn comments_end_with_their_mark(bytes: Seq<u8>, at: int)
    requires
        0 <= at,
    ensures
        match comment_end(bytes, at) {
            Some(end) => {
                &&& at + 3 <= end <= bytes.len()
                &&& bytes.subrange(end - 3, end) =~= seq![45u8, 45, 62]
                &&& forall|k: int|
                    at <= k < end - 3 ==> !(#[trigger] bytes.subrange(k, k + 3) =~= seq![
                        45u8,
                        45,
                        62,
                    ])
            },
            None => forall|k: int|
                at <= k && k + 3 <= bytes.len() ==> !(#[trigger] bytes.subrange(k, k + 3) =~= seq![
                    45u8,
                    45,
                    62,
                ]),
        },
    decreases bytes.len() - at,
{
    if at + 3 <= bytes.len() {
        let here = bytes.subrange(at, at + 3);
        assert(here[0] == bytes[at] && here[1] == bytes[at + 1] && here[2] == bytes[at + 2]);
        if bytes[at] == 45 && bytes[at + 1] == 45 && bytes[at + 2] == 62 {
            assert(here =~= seq![45u8, 45, 62]);
        } else {
            comments_end_with_their_mark(bytes, at + 1);
        }
    }
}

/// A closing tag closes the innermost open tag of its name, and all that is open
/// inside that one; where none has its name, nothing.
pub proof fn closing_tags_close_the_innermost(
    bytes: Seq<u8>,
    open: Seq<(usize, usize)>,
    name: (usize, usize),
    count: int,
)
    requires
        0 <= count <= open.len(),
    ensures
        ({
            let left = closed_tag(bytes, open, name, count);
            ||| exists|i: int|
                0 <= i < count && same_bytes(bytes, #[trigger] open[i], name) && left == open.take(
                    i,
                ) && forall|j: int| i < j < count ==> !same_bytes(bytes, #[trigger] open[j], name)
            ||| left == open && forall|j: int|
                0 <= j < count ==> !same_bytes(bytes, #[trigger] open[j], name)
        }),
    decreases count,
{
    if count > 0 && !same_bytes(bytes, open[count - 1], name) {
        closing_tags_close_the_innermost(bytes, open, name, count - 1);
    } else if count > 0 {
        assert(same_bytes(bytes, open[count - 1], name));
    }
}

/// A closing tag right behind the opening tag of its name leaves open what was
/// open before both.
pub proof fn closing_undoes_opening(
    bytes: Seq<u8>,
    open: Seq<(usize, usize)>,
    start: int,
    end: int,
    close_start: int,
    close_end: int,
)
    requires
        bytes[start + 1] != 47,
        bytes[close_start + 1] == 47,
        ({
            let from = start + 1;
            let to = name_end(bytes, from, end);
            let close_from = close_start + 2;
            let close_to = name_end(bytes, close_from, close_end);
            &&& from < to <= usize::MAX
            &&& 0 <= from
            &&& !crate::codes::closes_itself(bytes, to, end)
            &&& 0 <= close_from < close_to <= usize::MAX
            &&& bytes.subrange(from, to) == bytes.subrange(close_from, close_to)
        }),
    ensures
        met_tag(bytes, met_tag(bytes, open, start, end), close_start, close_end) == open,
{
    let from = start + 1;
    let to = name_end(bytes, from, end);
    let more = open.push((from as usize, to as usize));
    assert(met_tag(bytes, open, start, end) == more);
    assert(more.take(more.len() - 1) =~= open);
}

proof fn names_start(bytes: Seq<u8>, at: int)
    requires
        0 <= at <= bytes.len(),
    ensures
        0 <= name_start(bytes, at) <= at,
        forall|k: int| name_start(bytes, at) <= k < at ==> name_byte(#[trigger] bytes[k]),
        name_start(bytes, at) > 0 ==> !name_byte(bytes[name_start(bytes, at) - 1]),
    decreases at,
{
    if at > 0 && name_byte(bytes[at - 1]) {
        names_start(bytes, at - 1);
    }
}

/// A name ends with the last of the letters, digits and marks in a row.
pub proof fn names_stop(bytes: Seq<u8>, at: int)
    requires
        0 <= at <= bytes.len(),
    ensures
        at <= name_stop(bytes, at) <= bytes.len(),
        forall|k: int| at <= k < name_stop(bytes, at) ==> name_byte(#[trigger] bytes[k]),
        name_stop(bytes, at) < bytes.len() ==> !name_byte(bytes[name_stop(bytes, at)]),
    decreases bytes.len() - at,
{
    if at < bytes.len() && name_byte(bytes[at]) {
        names_stop(bytes, at + 1);
    }
}

/// Whether a shortcode name, opened by a colon at `open` where one may stand,
/// reaches up to `end`.
pub open spec fn names_shortcode(bytes: Seq<u8>, open: int, end: int) -> bool {
    &&& 0 <= open && open + 1 < end <= bytes.len()
    &&& bytes[open] == 58
    &&& left_boundary(bytes, open)
    &&& forall|k: int| open < k < end ==> name_byte(#[trigger] bytes[k])
}

/// A shortcode is closed by a colon right behind its name, and is being typed
/// where its name reaches up to the cursor; the name counts in lower case.
pub proof fn shortcodes_stand_between_colons(bytes: Seq<u8>, cursor: int)
    requires
        0 <= cursor <= bytes.len(),
    ensures
        forall|open: int| #[trigger]
            names_shortcode(bytes, open, cursor) ==> open_shortcode(bytes, cursor) == Some(
                (open, lower_bytes(bytes.subrange(open + 1, cursor))),
            ),
        open_shortcode(bytes, cursor) matches Some((open, _)) ==> names_shortcode(
            bytes,
            open,
            cursor,
        ),
        cursor > 0 && bytes[cursor - 1] == 58 ==> forall|open: int| #[trigger]
            names_shortcode(bytes, open, cursor - 1) ==> closed_shortcode(bytes, cursor) == Some(
                (open, lower_bytes(bytes.subrange(open + 1, cursor - 1))),
            ),
        closed_shortcode(bytes, cursor) matches Some((open, _)) ==> cursor > 0 && bytes[cursor - 1]
            == 58 && names_shortcode(bytes, open, cursor - 1),
{
    names_start(bytes, cursor);
    assert forall|open: int| #[trigger] names_shortcode(bytes, open, cursor) implies open_shortcode(
        bytes,
        cursor,
    ) == Some((open, lower_bytes(bytes.subrange(open + 1, cursor)))) by {
        let start = name_start(bytes, cursor);
        if start <= open {
            assert(name_byte(bytes[open]));
        } else if start > open + 1 {
            assert(name_byte(bytes[start - 1]));
        }
    }
    if cursor > 0 {
        names_start(bytes, cursor - 1);
        assert forall|open: int| #[trigger]
            names_shortcode(bytes, open, cursor - 1) && bytes[cursor - 1] == 58 implies closed_shortcode(
        bytes, cursor) == Some((open, lower_bytes(bytes.subrange(open + 1, cursor - 1)))) by {
            let start = name_start(bytes, cursor - 1);
            if start <= open {
                assert(name_byte(bytes[open]));
            } else if start > open + 1 {
                assert(name_byte(bytes[start - 1]));
            }
        }
    }
}

/// A name stands for the emoji of the first catalog entry that has it.
pub proof fn names_stand_for_the_first_emoji(
    catalog: Seq<(Seq<char>, Seq<char>)>,
    name: Seq<u8>,
    at: int,
)
    requires
        0 <= at <= catalog.len(),
    ensures
        match named_emoji(catalog, name, at) {
            Some(emoji) => exists|i: int|
                at <= i < catalog.len() && utf8((#[trigger] catalog[i]).0) == name && catalog[i].1
                    == emoji && forall|j: int|
                    at <= j < i ==> utf8((#[trigger] catalog[j]).0) != name,
            None => forall|j: int|
                at <= j < catalog.len() ==> utf8((#[trigger] catalog[j]).0) != name,
        },
    decreases catalog.len() - at,
{
    if at < catalog.len() {
        if utf8(catalog[at].0) == name {
            assert(catalog[at].1 == named_emoji(catalog, name, at)->0);
        } else {
            names_stand_for_the_first_emoji(catalog, name, at + 1);
        }
    }
}

/// A closed shortcode that the catalog knows gives way to its emoji, colons and
/// all; the text around it stays. One it does not know stays as typed.
pub proof fn known_shortcodes_become_emoji(
    buffer: BufferView,
    catalog: Seq<(Seq<char>, Seq<char>)>,
    open: int,
)
    requires
        buffer.atoms.len() == 0,
        0 < buffer.cursor <= buffer.bytes.len(),
        buffer.bytes[buffer.cursor - 1] == 58,
        names_shortcode(buffer.bytes, open, buffer.cursor - 1),
    ensures
        ({
            let name = lower_bytes(buffer.bytes.subrange(open + 1, buffer.cursor - 1));
            let after = shortcode_replaced(buffer, catalog);
            match named_emoji(catalog, name, 0) {
                Some(emoji) => after.bytes == buffer.bytes.subrange(0, open) + utf8(emoji)
                    + buffer.bytes.subrange(buffer.cursor, buffer.bytes.len() as int)
                    && after.cursor == open + utf8(emoji).len(),
                None => after == buffer,
            }
        }),
{
    shortcodes_stand_between_colons(buffer.bytes, buffer.cursor);
}

/// The emoticon at a byte is the first of the table that stands there with a
/// blank or the end behind it.
pub proof fn emoticons_stand_alone(bytes: Seq<u8>, index: int, at: int)
    requires
        0 <= at <= emoticons().len(),
    ensures
        match emoticon_at(bytes, index, at) {
            Some(i) => {
                let pattern = utf8(emoticons()[i].0);
                &&& at <= i < emoticons().len()
                &&& stands_at(bytes, pattern, index)
                &&& right_boundary(bytes, index + pattern.len())
            },
            None => forall|i: int|
                at <= i < emoticons().len() ==> !(stands_at(
                    bytes,
                    utf8((#[trigger] emoticons()[i]).0),
                    index,
                ) && right_boundary(bytes, index + utf8(emoticons()[i].0).len())),
        },
    decreases emoticons().len() - at,
{
    if at < emoticons().len() {
        let pattern = utf8(emoticons()[at].0);
        if !(stands_at(bytes, pattern, index) && right_boundary(bytes, index + pattern.len())) {
            emoticons_stand_alone(bytes, index, at + 1);
        }
    }
}

/// A byte where no emoticon stands on its own stays as it is.
#[verifier::rlimit(40)]
proof fn other_bytes_stay(bytes: Seq<u8>, index: int)
    requires
        0 <= index < bytes.len(),
        !(left_boundary(bytes, index) && emoticon_at(bytes, index, 0) is Some),
    ensures
        emoticons_replaced(bytes, index) == seq![bytes[index]] + emoticons_replaced(
            bytes,
            index + 1,
        ),
{
}

/// An emoticon that stands on its own gives way to its emoji.
#[verifier::rlimit(40)]
pub proof fn emoticons_give_way_to_emoji(bytes: Seq<u8>, index: int, i: int)
    requires
        0 <= index < bytes.len(),
        left_boundary(bytes, index),
        emoticon_at(bytes, index, 0) == Some(i),
        utf8(emoticons()[i].0).len() > 0,
    ensures
        emoticons_replaced(bytes, index) == utf8(emoticons()[i].1) + emoticons_replaced(
            bytes,
            index + utf8(emoticons()[i].0).len(),
        ),
{
    emoticons_stand_alone(bytes, index, 0);
}

/// Text before the next emoticon stays as it is, and text without emoticons as a
/// whole.
pub proof fn only_emoticons_are_replaced(bytes: Seq<u8>, index: int, end: int)
    requires
        0 <= index <= end <= bytes.len(),
        forall|k: int|
            index <= k < end ==> !(left_boundary(bytes, k) && (#[trigger] emoticon_at(
                bytes,
                k,
                0,
            )) is Some),
    ensures
        emoticons_replaced(bytes, index) == bytes.subrange(index, end) + emoticons_replaced(
            bytes,
            end,
        ),
    decreases end - index,
{
    let rest = emoticons_replaced(bytes, end);
    if index < end {
        only_emoticons_are_replaced(bytes, index + 1, end);
        assert(!(left_boundary(bytes, index) && emoticon_at(bytes, index, 0) is Some));
        other_bytes_stay(bytes, index);
        assert(seq![bytes[index]] + (bytes.subrange(index + 1, end) + rest) =~= bytes.subrange(
            index,
            end,
        ) + rest);
    } else {
        assert(bytes.subrange(index, end) + rest =~= rest);
    }
}

proof fn catalog_rows_match(
    catalog: Seq<(Seq<char>, Seq<char>)>,
    query: Seq<u8>,
    at: int,
    room: int,
)
    requires
        0 <= at <= catalog.len(),
        0 <= room,
    ensures
        ({
            let rows = catalog_rows(catalog, query, at, room);
            &&& rows.len() <= room
            &&& forall|r: int|
                0 <= r < rows.len() ==> exists|i: int|
                    at <= i < catalog.len() && #[trigger] rows[r] == emoji_row(
                        (#[trigger] catalog[i]).1,
                        catalog[i].0,
                    ) && starts_with(utf8(catalog[i].0), query)
            &&& rows.len() < room ==> forall|i: int|
                at <= i < catalog.len() && starts_with(utf8((#[trigger] catalog[i]).0), query)
                    ==> rows.contains(emoji_row(catalog[i].1, catalog[i].0))
        }),
    decreases catalog.len() - at,
{
    if at < catalog.len() && room > 0 {
        let rows = catalog_rows(catalog, query, at, room);
        if starts_with(utf8(catalog[at].0), query) {
            catalog_rows_match(catalog, query, at + 1, room - 1);
            let rest = catalog_rows(catalog, query, at + 1, room - 1);
            let first = emoji_row(catalog[at].1, catalog[at].0);
            assert(rows == seq![first] + rest);
            assert forall|r: int| 0 <= r < rows.len() implies exists|i: int|
                at <= i < catalog.len() && #[trigger] rows[r] == emoji_row(
                    (#[trigger] catalog[i]).1,
                    catalog[i].0,
                ) && starts_with(utf8(catalog[i].0), query) by {
                if r == 0 {
                    assert(rows[r] == emoji_row(catalog[at].1, catalog[at].0));
                } else {
                    assert(rows[r] == rest[r - 1]);
                }
            }
            if rows.len() < room {
                assert forall|i: int|
                    at <= i < catalog.len() && starts_with(
                        utf8((#[trigger] catalog[i]).0),
                        query,
                    ) implies rows.contains(emoji_row(catalog[i].1, catalog[i].0)) by {
                    let row = emoji_row(catalog[i].1, catalog[i].0);
                    if i == at {
                        assert(rows[0] == row);
                    } else {
                        assert(rest.contains(row));
                        let r = choose|r: int| 0 <= r < rest.len() && rest[r] == row;
                        assert(rows[r + 1] == row);
                    }
                }
            }
        } else {
            catalog_rows_match(catalog, query, at + 1, room);
        }
    }
}

proof fn emoticon_rows_fit(wanted: Seq<u8>, at: int, room: int)
    requires
        0 <= room,
    ensures
        emoticon_rows(wanted, at, room).len() <= room,
    decreases emoticons().len() - at,
{
    if at < emoticons().len() && room > 0 {
        emoticon_rows_fit(wanted, at + 1, room - 1);
        emoticon_rows_fit(wanted, at + 1, room);
    }
}

/// The emoji dropdown holds no more rows than it may; behind the emoticons come
/// the catalog entries whose names start as typed, and where there is room, all
/// of them.
pub proof fn emoji_rows_start_as_typed(catalog: Seq<(Seq<char>, Seq<char>)>, query: Seq<u8>)
    ensures
        ({
            let rows = emoji_rows(catalog, query);
            let first = emoticon_rows(
                seq![58u8] + query,
                0,
                MAX_EMOJI_SUGGESTIONS as int,
            ).len() as int;
            &&& rows.len() <= MAX_EMOJI_SUGGESTIONS
            &&& first <= rows.len()
            &&& forall|r: int|
                first <= r < rows.len() ==> exists|i: int|
                    0 <= i < catalog.len() && #[trigger] rows[r] == emoji_row(
                        (#[trigger] catalog[i]).1,
                        catalog[i].0,
                    ) && starts_with(utf8(catalog[i].0), query)
            &&& rows.len() < MAX_EMOJI_SUGGESTIONS ==> forall|i: int|
                0 <= i < catalog.len() && starts_with(utf8((#[trigger] catalog[i]).0), query)
                    ==> rows.contains(emoji_row(catalog[i].1, catalog[i].0))
        }),
{
    let rows = emoji_rows(catalog, query);
    let front = emoticon_rows(seq![58u8] + query, 0, MAX_EMOJI_SUGGESTIONS as int);
    emoticon_rows_fit(seq![58u8] + query, 0, MAX_EMOJI_SUGGESTIONS as int);
    let room = MAX_EMOJI_SUGGESTIONS - front.len();
    catalog_rows_match(catalog, query, 0, room);
    let back = catalog_rows(catalog, query, 0, room);
    assert forall|r: int| front.len() <= r < rows.len() implies exists|i: int|
        0 <= i < catalog.len() && #[trigger] rows[r] == emoji_row(
            (#[trigger] catalog[i]).1,
            catalog[i].0,
        ) && starts_with(utf8(catalog[i].0), query) by {
        assert(rows[r] == back[r - front.len()]);
    }
    if rows.len() < MAX_EMOJI_SUGGESTIONS {
        assert forall|i: int|
            0 <= i < catalog.len() && starts_with(
                utf8((#[trigger] catalog[i]).0),
                query,
            ) implies rows.contains(emoji_row(catalog[i].1, catalog[i].0)) by {
            let row = emoji_row(catalog[i].1, catalog[i].0);
            assert(back.contains(row));
            let r = choose|r: int| 0 <= r < back.len() && back[r] == row;
            assert(rows[front.len() + r] == row);
        }
    }
}

/// Bytes come before others at the first place where they differ, or where they
/// end and the others go on.
pub proof fn order_is_by_the_first_difference(a: Seq<u8>, b: Seq<u8>, at: int, k: int)
    requires
        0 <= at <= k <= a.len(),
        k <= b.len(),
        forall|i: int| at <= i < k ==> a[i] == #[trigger] b[i],
    ensures
        k == a.len() ==> (comes_before(a, b, at) <==> k < b.len()),
        k == b.len() ==> !comes_before(a, b, at),
        k < a.len() && k < b.len() && a[k] != b[k] ==> (comes_before(a, b, at) <==> a[k] < b[k]),
    decreases k - at,
{
    if at < k {
        assert(a[at] == b[at]);
        order_is_by_the_first_difference(a, b, at + 1, k);
    }
}

proof fn order_is_transitive(a: Seq<u8>, b: Seq<u8>, c: Seq<u8>, at: int)
    requires
        0 <= at,
        comes_before(a, b, at),
        !comes_before(c, b, at),
    ensures
        comes_before(a, c, at),
    decreases a.len() - at,
{
    if at < a.len() && at < b.len() && a[at] == b[at] && at < c.len() && c[at] == b[at] {
        order_is_transitive(a, b, c, at + 1);
    }
}

/// Whether candidates are sorted by their paths' bytes.
pub open spec fn sorted(list: Seq<ArgumentView>) -> bool {
    forall|i: int, j: int|
        0 <= i < j < list.len() ==> !comes_before(
            utf8((#[trigger] list[j]).value),
            utf8((#[trigger] list[i]).value),
            0,
        )
}

proof fn sorted_place(list: Seq<ArgumentView>, item: ArgumentView, at: int)
    requires
        0 <= at <= list.len(),
    ensures
        0 <= sorted_position(list, item, at) <= at,
        forall|i: int|
            sorted_position(list, item, at) <= i < at ==> comes_before(
                utf8(item.value),
                utf8((#[trigger] list[i]).value),
                0,
            ),
        sorted_position(list, item, at) > 0 ==> !comes_before(
            utf8(item.value),
            utf8(list[sorted_position(list, item, at) - 1].value),
            0,
        ),
    decreases at,
{
    if at > 0 && comes_before(utf8(item.value), utf8(list[at - 1].value), 0) {
        sorted_place(list, item, at - 1);
    }
}

proof fn order_goes_one_way(a: Seq<u8>, b: Seq<u8>, at: int)
    requires
        0 <= at,
    ensures
        !(comes_before(a, b, at) && comes_before(b, a, at)),
    decreases a.len() - at,
{
    if at < a.len() && at < b.len() && a[at] == b[at] {
        order_goes_one_way(a, b, at + 1);
    }
}

proof fn insertion_keeps_order(list: Seq<ArgumentView>, item: ArgumentView)
    requires
        sorted(list),
    ensures
        sorted(list.insert(sorted_position(list, item, list.len() as int), item)),
{
    let place = sorted_position(list, item, list.len() as int);
    sorted_place(list, item, list.len() as int);
    let all = list.insert(place, item);
    let own = utf8(item.value);
    assert forall|i: int, j: int| 0 <= i < j < all.len() implies !comes_before(
        utf8((#[trigger] all[j]).value),
        utf8((#[trigger] all[i]).value),
        0,
    ) by {
        if j < place {
            assert(all[i] == list[i] && all[j] == list[j]);
        } else if j == place {
            assert(all[i] == list[i]);
            let near = utf8(list[place - 1].value);
            let far = utf8(list[i].value);
            if i < place - 1 && comes_before(own, far, 0) {
                assert(!comes_before(near, far, 0));
                order_is_transitive(own, far, near, 0);
            }
        } else if i == place {
            assert(all[j] == list[j - 1]);
            order_goes_one_way(own, utf8(list[j - 1].value), 0);
        } else if i < place {
            assert(all[i] == list[i] && all[j] == list[j - 1]);
        } else {
            assert(all[i] == list[i - 1] && all[j] == list[j - 1]);
        }
    }
}

/// Whether a candidate is that of an offered entry among the first `at`.
pub open spec fn comes_of_entry(
    item: ArgumentView,
    entries: Seq<(Seq<char>, bool)>,
    parent: Seq<char>,
    prefix: Seq<u8>,
    separator: char,
    at: int,
) -> bool {
    exists|k: int|
        0 <= k < at && offered_name((#[trigger] entries[k]).0, prefix) && item == path_candidate(
            parent,
            entries[k].0,
            entries[k].1,
            separator,
        )
}

proof fn candidates_from(
    list: Seq<ArgumentView>,
    entries: Seq<(Seq<char>, bool)>,
    parent: Seq<char>,
    prefix: Seq<u8>,
    separator: char,
    at: int,
)
    requires
        0 <= at <= entries.len(),
        sorted(list),
        forall|i: int|
            0 <= i < list.len() ==> comes_of_entry(
                #[trigger] list[i],
                entries,
                parent,
                prefix,
                separator,
                at,
            ),
        forall|k: int|
            0 <= k < at && offered_name((#[trigger] entries[k]).0, prefix) ==> list.contains(
                path_candidate(parent, entries[k].0, entries[k].1, separator),
            ),
    ensures
        ({
            let all = path_candidates(list, entries, parent, prefix, separator, at);
            &&& sorted(all)
            &&& forall|i: int|
                0 <= i < all.len() ==> comes_of_entry(
                    #[trigger] all[i],
                    entries,
                    parent,
                    prefix,
                    separator,
                    entries.len() as int,
                )
            &&& forall|k: int|
                0 <= k < entries.len() && offered_name((#[trigger] entries[k]).0, prefix)
                    ==> all.contains(
                    path_candidate(parent, entries[k].0, entries[k].1, separator),
                )
        }),
    decreases entries.len() - at,
{
    if at < entries.len() {
        if !offered_name(entries[at].0, prefix) {
            assert forall|i: int| 0 <= i < list.len() implies comes_of_entry(
                #[trigger] list[i],
                entries,
                parent,
                prefix,
                separator,
                at + 1,
            ) by {
                assert(comes_of_entry(list[i], entries, parent, prefix, separator, at));
            }
            candidates_from(list, entries, parent, prefix, separator, at + 1);
        } else {
            let item = path_candidate(parent, entries[at].0, entries[at].1, separator);
            let place = sorted_position(list, item, list.len() as int);
            sorted_place(list, item, list.len() as int);
            insertion_keeps_order(list, item);
            let all = list.insert(place, item);
            assert forall|i: int| 0 <= i < all.len() implies comes_of_entry(
                #[trigger] all[i],
                entries,
                parent,
                prefix,
                separator,
                at + 1,
            ) by {
                if i == place {
                    assert(offered_name(entries[at].0, prefix));
                } else {
                    let old = if i < place {
                        i
                    } else {
                        i - 1
                    };
                    assert(all[i] == list[old]);
                    assert(comes_of_entry(list[old], entries, parent, prefix, separator, at));
                }
            }
            assert forall|k: int|
                0 <= k < at + 1 && offered_name(
                    (#[trigger] entries[k]).0,
                    prefix,
                ) implies all.contains(
                path_candidate(parent, entries[k].0, entries[k].1, separator),
            ) by {
                let wanted = path_candidate(parent, entries[k].0, entries[k].1, separator);
                if k == at {
                    assert(all[place] == wanted);
                } else {
                    let i = choose|i: int| 0 <= i < list.len() && list[i] == wanted;
                    if i < place {
                        assert(all[i] == wanted);
                    } else {
                        assert(all[i + 1] == wanted);
                    }
                }
            }
            candidates_from(all, entries, parent, prefix, separator, at + 1);
        }
    }
}

/// A directory's candidates are those of its entries that start as typed, but
/// for the repository's own, sorted by their bytes.
pub proof fn paths_are_offered_sorted(
    entries: Seq<(Seq<char>, bool)>,
    parent: Seq<char>,
    prefix: Seq<u8>,
    separator: char,
)
    ensures
        ({
            let all = path_candidates(Seq::empty(), entries, parent, prefix, separator, 0);
            &&& sorted(all)
            &&& forall|i: int|
                0 <= i < all.len() ==> exists|k: int|
                    0 <= k < entries.len() && (#[trigger] entries[k]).0 != ".git"@ && starts_with(
                        utf8(entries[k].0),
                        prefix,
                    ) && #[trigger] all[i] == path_candidate(
                        parent,
                        entries[k].0,
                        entries[k].1,
                        separator,
                    )
            &&& forall|k: int|
                0 <= k < entries.len() && (#[trigger] entries[k]).0 != ".git"@ && starts_with(
                    utf8(entries[k].0),
                    prefix,
                ) ==> all.contains(
                    path_candidate(parent, entries[k].0, entries[k].1, separator),
                )
        }),
{
    let none = Seq::<ArgumentView>::empty();
    candidates_from(none, entries, parent, prefix, separator, 0);
    let all = path_candidates(none, entries, parent, prefix, separator, 0);
    assert forall|i: int| 0 <= i < all.len() implies exists|k: int|
        0 <= k < entries.len() && (#[trigger] entries[k]).0 != ".git"@ && starts_with(
            utf8(entries[k].0),
            prefix,
        ) && #[trigger] all[i] == path_candidate(parent, entries[k].0, entries[k].1, separator) by {
        let item = all[i];
        assert(comes_of_entry(item, entries, parent, prefix, separator, entries.len() as int));
        let k = choose|k: int|
            0 <= k < entries.len() && offered_name((#[trigger] entries[k]).0, prefix) && item
                == path_candidate(parent, entries[k].0, entries[k].1, separator);
        assert(entries[k].0 != ".git"@);
    }
}

/// The directory part of a path ends with its last separator.
pub proof fn parents_end_with_the_last_separator(bytes: Seq<u8>, at: int)
    requires
        0 <= at <= bytes.len(),
    ensures
        ({
            let end = parent_end(bytes, at);
            &&& 0 <= end <= at
            &&& end > 0 ==> bytes[end - 1] == 47 || bytes[end - 1] == 92
            &&& forall|k: int| end <= k < at ==> #[trigger] bytes[k] != 47 && bytes[k] != 92
        }),
    decreases at,
{
    if at > 0 && bytes[at - 1] != 47 && bytes[at - 1] != 92 {
        parents_end_with_the_last_separator(bytes, at - 1);
    }
}

} // verus!
