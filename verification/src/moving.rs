//! What holds of motions and typing as a whole: where the cursor lands, what a
//! line shows, and what goes where.

use vstd::prelude::*;

use crate::atoms::spliced_bytes;
use crate::buffer::{Action, BufferView, Jump};
use crate::chars::{all_whitespace, whitespace};
use crate::layout::{
    between, cells_within, classified, columns, cursor_row, cursor_row_holds,
    every_position_has_a_row, glyph_offset, last_between, line_end, line_end_facts,
    line_end_is_boundary, line_segments, line_segments_facts, lines_measured, max_column, offset_at_column, part,
    segments_from, segments_of, tiles, tiles_order, trimmed, Glyph, Segment,
};
use crate::motion::{char_at_or_behind, char_before, line_feeds, lines_from, nth_line};
use crate::strings::{boundary, ends_are_boundaries, utf8};
use crate::wrap::{
    filled_rows, row_fits, rows_are_filled, rows_tile, wrapped, wrapping_tiles_the_line, ChunkView,
};

verus! {

/// Trimming takes all of the blanks at the end away, and nothing else.
pub proof fn trimming_takes_trailing_blanks(text: Seq<char>)
    ensures
        trimmed(text).len() <= text.len(),
        trimmed(text) == text.take(trimmed(text).len() as int),
        trimmed(text).len() > 0 ==> !whitespace(trimmed(text).last()),
        all_whitespace(text.skip(trimmed(text).len() as int)),
    decreases text.len(),
{
    if text.len() > 0 && whitespace(text.last()) {
        let front = text.drop_last();
        trimming_takes_trailing_blanks(front);
        let count = trimmed(text).len() as int;
        assert(text.take(count) =~= front.take(count));
        let rest = text.skip(count);
        assert forall|i: int| 0 <= i < rest.len() implies #[trigger] whitespace(rest[i]) by {
            if i < rest.len() - 1 {
                assert(rest[i] == front.skip(count)[i]);
            }
        }
    } else {
        assert(text.take(text.len() as int) =~= text);
    }
}

/// The rows of a line that holds more than blanks are filled as far as they go:
/// the first glyph each shows and the glyphs it owns are those of a wrapping of
/// the line's glyphs that ends rows only where it must.
pub proof fn lines_wrap_well(
    bytes: Seq<u8>,
    glyphs: Seq<Glyph>,
    line: int,
    from: int,
    to: int,
    limit: int,
) -> (rows: Seq<ChunkView>)
    requires
        tiles(glyphs, bytes, from, to),
        from < to <= usize::MAX,
        1 <= limit <= 65535,
    ensures
        ({
            let segments = line_segments(bytes, glyphs, line, from, to, limit);
            let cells = classified(bytes, glyphs);
            &&& cells.len() == glyphs.len()
            &&& forall|k: int|
                0 <= k < cells.len() ==> (#[trigger] cells[k]).width == glyphs[k].width
                    && cells[k].whitespace == all_whitespace(
                    part(bytes, glyphs[k].start as int, glyphs[k].end as int),
                )
            &&& rows.len() == segments.len()
            &&& rows_tile(rows, glyphs.len() as int)
            &&& (exists|k: int| 0 <= k < cells.len() && !(#[trigger] cells[k]).whitespace)
                ==> filled_rows(cells, rows, limit)
            &&& forall|i: int|
                0 <= i < rows.len() ==> {
                    let segment = #[trigger] segments[i];
                    &&& row_fits(cells, rows[i], limit)
                    &&& segment.start == glyph_offset(glyphs, rows[i].start, to)
                    &&& segment.source_start == glyph_offset(glyphs, rows[i].source_start, to)
                    &&& segment.source_end == glyph_offset(glyphs, rows[i].source_end, to)
                    &&& segment.last == (i == rows.len() - 1)
                }
        }),
{
    let cells = classified(bytes, glyphs);
    let rows = wrapped(cells, limit);
    assert(glyphs.len() > 0);
    wrapping_tiles_the_line(cells, limit);
    rows_are_filled(cells, limit);
    let segments = line_segments(bytes, glyphs, line, from, to, limit);
    assert forall|i: int| 0 <= i < rows.len() implies {
        let segment = #[trigger] segments[i];
        &&& row_fits(cells, rows[i], limit)
        &&& segment.start == glyph_offset(glyphs, rows[i].start, to)
        &&& segment.source_start == glyph_offset(glyphs, rows[i].source_start, to)
        &&& segment.source_end == glyph_offset(glyphs, rows[i].source_end, to)
        &&& segment.last == (i == rows.len() - 1)
    } by {
        assert forall|at: int| 0 <= at <= glyphs.len() implies 0 <= #[trigger] glyph_offset(
            glyphs,
            at,
            to,
        ) <= usize::MAX by {
            if at < glyphs.len() {
                tiles_order(glyphs, bytes, from, to, at, at);
            }
        }
        let row = rows[i];
        assert(0 <= row.source_start <= row.start <= row.end <= row.source_end <= glyphs.len());
    }
    rows
}

/// Whether glyphs stand in order.
pub open spec fn in_order(glyphs: Seq<Glyph>) -> bool {
    forall|i: int, j: int|
        0 <= i < j < glyphs.len() ==> (#[trigger] glyphs[i]).start < (#[trigger] glyphs[j]).start
}

proof fn same_cells(glyphs: Seq<Glyph>, from: int, near: int, far: int)
    requires
        near <= far,
        forall|i: int| 0 <= i < glyphs.len() ==> (#[trigger] glyphs[i]).start < near,
    ensures
        cells_within(glyphs, from, near) == cells_within(glyphs, from, far),
    decreases glyphs.len(),
{
    if glyphs.len() > 0 {
        same_cells(glyphs.drop_last(), from, near, far);
        assert(glyphs[glyphs.len() - 1].start < near);
    }
}

proof fn cells_up_to(glyphs: Seq<Glyph>, from: int, to: int, j: int)
    requires
        in_order(glyphs),
        0 <= j < glyphs.len(),
        glyphs[j].start <= to,
    ensures
        cells_within(glyphs, from, glyphs[j].start as int) == cells_within(
            glyphs.take(j),
            from,
            to,
        ),
    decreases glyphs.len(),
{
    let front = glyphs.drop_last();
    let at = glyphs[j].start as int;
    assert(in_order(front));
    if j < glyphs.len() - 1 {
        assert(glyphs[j].start < glyphs[glyphs.len() - 1].start);
        cells_up_to(front, from, to, j);
        assert(front.take(j) =~= glyphs.take(j));
    } else {
        assert(front =~= glyphs.take(j));
        assert forall|i: int| 0 <= i < front.len() implies (#[trigger] front[i]).start < at by {
            assert(glyphs[i].start < glyphs[j].start);
        }
        same_cells(front, from, at, to);
    }
}

proof fn column_search(
    glyphs: Seq<Glyph>,
    at: int,
    from: int,
    to: int,
    column: int,
    room: int,
)
    requires
        in_order(glyphs),
        0 <= at <= glyphs.len(),
        room == column - cells_within(glyphs.take(at), from, to),
        0 <= room,
    ensures
        ({
            let found = offset_at_column(glyphs, at, from, to, room);
            ||| found == to && cells_within(glyphs, from, to) <= column
            ||| exists|k: int|
                0 <= k < glyphs.len() && (#[trigger] glyphs[k]).start == found && from <= found < to
                    && cells_within(glyphs, from, found) <= column < cells_within(
                    glyphs,
                    from,
                    found,
                ) + glyphs[k].width
        }),
    decreases glyphs.len() - at,
{
    if at >= glyphs.len() {
        assert(glyphs.take(at) =~= glyphs);
    } else {
        let more = glyphs.take(at + 1);
        assert(more.drop_last() =~= glyphs.take(at));
        assert(more.last() == glyphs[at]);
        if !between(glyphs[at], from, to) {
            column_search(glyphs, at + 1, from, to, column, room);
        } else if glyphs[at].width > room {
            cells_up_to(glyphs, from, to, at);
            assert(glyphs[at].start == offset_at_column(glyphs, at, from, to, room));
        } else {
            column_search(glyphs, at + 1, from, to, column, room - glyphs[at].width);
        }
    }
}

/// The offset that a column stands for is the last one no further right: what
/// comes before it fits into the column, and what comes up to behind the glyph
/// there does not. Where all of the row fits, it is the row's end.
pub proof fn columns_stand_for_offsets(glyphs: Seq<Glyph>, from: int, to: int, column: int)
    requires
        in_order(glyphs),
        0 <= column,
    ensures
        ({
            let found = offset_at_column(glyphs, 0, from, to, column);
            ||| found == to && cells_within(glyphs, from, to) <= column
            ||| exists|k: int|
                0 <= k < glyphs.len() && (#[trigger] glyphs[k]).start == found && from <= found < to
                    && cells_within(glyphs, from, found) <= column < cells_within(
                    glyphs,
                    from,
                    found,
                ) + glyphs[k].width
        }),
{
    assert(glyphs.take(0) =~= Seq::<Glyph>::empty());
    column_search(glyphs, 0, from, to, column, column);
}

/// A vertical motion goes by its number of visual rows, as far as there are
/// rows, and aims for the column it came from: it lands on the last offset of
/// the row that is no further right than that column and the row's own. The
/// column is remembered until it is reached. Where there is no row to go to, it
/// goes to the edge of the row it is on.
pub proof fn vertical_motions_keep_the_column(
    buffer: BufferView,
    forward: bool,
    rows: int,
    before: Seq<Glyph>,
    lines: Seq<Seq<Glyph>>,
)
    requires
        buffer.atoms.len() == 0,
        0 <= rows,
        segments_of(buffer.bytes, lines, buffer.layout_width as int).len() > 0,
    ensures
        ({
            let all = segments_of(buffer.bytes, lines, buffer.layout_width as int);
            let after = buffer.moved_visual(forward, rows, before, lines).0;
            let current = cursor_row(all, buffer.cursor);
            let end = all.len() - 1;
            let goal = if forward {
                if current + rows <= end {
                    current + rows
                } else {
                    end
                }
            } else if current >= rows {
                current - rows
            } else {
                0
            };
            let row = all[goal];
            let glyphs = lines[row.line as int];
            let aim = match buffer.desired {
                Some(column) => column,
                None => buffer.column_on(all[current], before),
            };
            let most = max_column(glyphs, row);
            let column = if aim <= most {
                aim
            } else {
                most
            };
            &&& after.bytes == buffer.bytes
            &&& goal == current && forward ==> after.cursor == all[current].source_end
            &&& goal == current && !forward ==> after.cursor == all[current].source_start
            &&& goal != current ==> {
                &&& after.cursor == offset_at_column(
                    glyphs,
                    0,
                    row.start as int,
                    row.end as int,
                    column as int,
                )
                &&& after.desired matches Some(kept) ==> kept == aim
                &&& after.desired is None ==> columns(glyphs, row.start as int, after.cursor) == aim
            }
        }),
{
    let all = segments_of(buffer.bytes, lines, buffer.layout_width as int);
    rows_are_within(all, buffer.cursor, 0);
}

proof fn rows_are_within(segments: Seq<Segment>, cursor: int, at: int)
    requires
        segments.len() > 0,
        0 <= at <= segments.len(),
    ensures
        0 <= crate::layout::cursor_row_from(segments, cursor, at) < segments.len(),
    decreases segments.len() - at,
{
    if at < segments.len() {
        rows_are_within(segments, cursor, at + 1);
    }
}

proof fn next_char(text: Seq<char>, wanted: char, at: int)
    requires
        0 <= at,
    ensures
        match char_at_or_behind(text, wanted, at) {
            Some(found) => at <= found < text.len() && text[found] == wanted && forall|k: int|
                at <= k < found ==> #[trigger] text[k] != wanted,
            None => forall|k: int| at <= k < text.len() ==> #[trigger] text[k] != wanted,
        },
    decreases text.len() - at,
{
    if at < text.len() && text[at] != wanted {
        next_char(text, wanted, at + 1);
    }
}

proof fn last_char(text: Seq<char>, wanted: char, at: int)
    requires
        0 <= at <= text.len(),
    ensures
        match char_before(text, wanted, at) {
            Some(found) => 0 <= found < at && text[found] == wanted && forall|k: int|
                found < k < at ==> #[trigger] text[k] != wanted,
            None => forall|k: int| 0 <= k < at ==> #[trigger] text[k] != wanted,
        },
    decreases at,
{
    if at > 0 && text[at - 1] != wanted {
        last_char(text, wanted, at - 1);
    }
}

/// A jump goes to the nearest occurrence of the character on its side: to the
/// right behind the character at the cursor, to the left before it. Where there
/// is none, the cursor stays.
pub proof fn jumps_find_the_nearest(buffer: BufferView, wanted: char)
    requires
        buffer.atoms.len() == 0,
    ensures
        ({
            let behind = part(buffer.bytes, buffer.cursor, buffer.bytes.len() as int);
            let landed = buffer.jumped(wanted, Jump::Forward).0.cursor;
            ||| landed == buffer.cursor && forall|k: int|
                1 <= k < behind.len() ==> #[trigger] behind[k] != wanted
            ||| exists|found: int|
                1 <= found < behind.len() && #[trigger] behind[found] == wanted && landed
                    == buffer.cursor + utf8(behind.take(found)).len() && forall|k: int|
                    1 <= k < found ==> #[trigger] behind[k] != wanted
        }),
        ({
            let ahead = part(buffer.bytes, 0, buffer.cursor);
            let landed = buffer.jumped(wanted, Jump::Backward).0.cursor;
            ||| landed == buffer.cursor && forall|k: int|
                0 <= k < ahead.len() ==> #[trigger] ahead[k] != wanted
            ||| exists|found: int|
                0 <= found < ahead.len() && #[trigger] ahead[found] == wanted && landed == utf8(
                    ahead.take(found),
                ).len() && forall|k: int|
                    found < k < ahead.len() ==> #[trigger] ahead[k] != wanted
        }),
{
    let behind = part(buffer.bytes, buffer.cursor, buffer.bytes.len() as int);
    let ahead = part(buffer.bytes, 0, buffer.cursor);
    next_char(behind, wanted, 1);
    last_char(ahead, wanted, ahead.len() as int);
    if let Some(found) = char_at_or_behind(behind, wanted, 1) {
        assert(behind[found] == wanted);
    }
    if let Some(found) = char_before(ahead, wanted, ahead.len() as int) {
        assert(ahead[found] == wanted);
    }
}

/// Lines put together again, a line feed between each two.
pub open spec fn with_line_feeds(lines: Seq<Seq<u8>>) -> Seq<u8>
    decreases lines.len(),
{
    if lines.len() == 0 {
        Seq::empty()
    } else if lines.len() == 1 {
        lines[0]
    } else {
        lines[0] + seq![10u8] + with_line_feeds(lines.skip(1))
    }
}

/// The logical lines of a text hold no line feed, and put together again they
/// are the text.
pub proof fn lines_make_up_the_text(bytes: Seq<u8>, from: int)
    requires
        0 <= from <= bytes.len(),
    ensures
        lines_from(bytes, from).len() > 0,
        with_line_feeds(lines_from(bytes, from)) == bytes.subrange(from, bytes.len() as int),
        forall|i: int, k: int|
            0 <= i < lines_from(bytes, from).len() && 0 <= k < lines_from(bytes, from)[i].len()
                ==> #[trigger] lines_from(bytes, from)[i][k] != 10,
    decreases bytes.len() - from,
{
    line_end_facts(bytes, from);
    let end = line_end(bytes, from);
    let all = lines_from(bytes, from);
    let first = bytes.subrange(from, end);
    if end < bytes.len() {
        lines_make_up_the_text(bytes, end + 1);
        let rest = lines_from(bytes, end + 1);
        assert(all.skip(1) =~= rest);
        assert(all[0] == first);
        assert(first + seq![10u8] + bytes.subrange(end + 1, bytes.len() as int) =~= bytes.subrange(
            from,
            bytes.len() as int,
        ));
        assert forall|i: int, k: int|
            0 <= i < all.len() && 0 <= k < all[i].len() implies #[trigger] all[i][k] != 10 by {
            if i > 0 {
                assert(all[i] == rest[i - 1]);
                assert(rest[i - 1][k] != 10);
            } else {
                assert(all[i][k] == bytes[from + k]);
            }
        }
    } else {
        assert(all[0] == first);
        assert forall|i: int, k: int|
            0 <= i < all.len() && 0 <= k < all[i].len() implies #[trigger] all[i][k] != 10 by {
            assert(all[i][k] == bytes[from + k]);
        }
    }
}

proof fn feeds_of_concat(a: Seq<u8>, b: Seq<u8>)
    ensures
        line_feeds(a + b) == line_feeds(a) + line_feeds(b),
    decreases b.len(),
{
    if b.len() == 0 {
        assert(a + b =~= a);
    } else {
        feeds_of_concat(a, b.drop_last());
        assert((a + b).drop_last() =~= a + b.drop_last());
    }
}

proof fn no_feeds(bytes: Seq<u8>)
    requires
        forall|i: int| 0 <= i < bytes.len() ==> #[trigger] bytes[i] != 10,
    ensures
        line_feeds(bytes) == 0,
    decreases bytes.len(),
{
    if bytes.len() > 0 {
        assert(bytes[bytes.len() - 1] != 10);
        no_feeds(bytes.drop_last());
    }
}

/// The start of a numbered line lies behind that many line feeds, or where there
/// are fewer, behind all of them; it is the start of a line.
pub proof fn numbered_lines_start_behind_line_feeds(bytes: Seq<u8>, count: int, from: int)
    requires
        0 <= from <= bytes.len(),
        0 <= count,
    ensures
        ({
            let (lines, start) = nth_line(bytes, count, from);
            &&& from <= start <= bytes.len()
            &&& 0 <= lines <= count
            &&& line_feeds(bytes.subrange(from, start)) == lines
            &&& lines < count ==> line_feeds(bytes.subrange(start, bytes.len() as int)) == 0
            &&& start > from ==> bytes[start - 1] == 10
        }),
    decreases count,
{
    line_end_facts(bytes, from);
    let end = line_end(bytes, from);
    assert(bytes.subrange(from, from) =~= Seq::<u8>::empty());
    if count > 0 && end < bytes.len() {
        numbered_lines_start_behind_line_feeds(bytes, count - 1, end + 1);
        let (lines, start) = nth_line(bytes, count - 1, end + 1);
        let line = bytes.subrange(from, end);
        no_feeds(line);
        let first = line.push(10u8);
        assert(first.drop_last() =~= line);
        assert(bytes.subrange(from, start) =~= first + bytes.subrange(end + 1, start));
        feeds_of_concat(first, bytes.subrange(end + 1, start));
    } else if end == bytes.len() {
        no_feeds(bytes.subrange(from, end));
    }
}

/// The window over the rows goes no further down than it must to show the
/// cursor's row; centered, that row is in its middle wherever both ends let it.
pub proof fn windows_go_no_further_than_needed(
    buffer: BufferView,
    total: int,
    row: int,
    max_rows: int,
)
    requires
        !buffer.manual_scroll,
        0 <= row < total,
        0 < max_rows,
    ensures
        ({
            let first = buffer.first_row(total, row, max_rows);
            &&& first <= row < first + max_rows
            &&& first == 0 || row == first + max_rows - 1
        }),
        ({
            let first = buffer.centered_row(total, row, max_rows);
            &&& first <= row < first + max_rows
            &&& row - first == max_rows / 2 || first == 0 || first + max_rows == total
        }),
{
    assert(0 <= max_rows / 2 < max_rows);
}

/// What is put in stands at the cursor, in place of the selection where there is
/// one, and the cursor stands behind it; the rest of the text stays.
pub proof fn insertions_go_to_the_cursor(buffer: BufferView, insert: Seq<u8>)
    requires
        buffer.wf(),
        insert.len() > 0,
    ensures
        ({
            let (start, end) = buffer.target();
            let after = buffer.with_inserted(insert).0;
            &&& buffer.selection() is None ==> start == buffer.cursor && end == buffer.cursor
            &&& after.bytes == buffer.bytes.subrange(0, start) + insert + buffer.bytes.subrange(
                end,
                buffer.bytes.len() as int,
            )
            &&& after.cursor == start + insert.len()
            &&& after.selection() is None
        }),
{
}

/// A typed character stands before the cursor, which moved behind it; the rest
/// of the text stays.
pub proof fn typed_characters_stand_before_the_cursor(buffer: BufferView, c: char)
    requires
        buffer.wf(),
        buffer.selection() is None,
        !buffer.xml || c != '/',
    ensures
        ({
            let after = buffer.char_typed(c).0;
            let at = buffer.cursor;
            &&& after.bytes == buffer.bytes.subrange(0, at) + utf8(seq![c])
                + buffer.bytes.subrange(at, buffer.bytes.len() as int)
            &&& after.cursor == at + utf8(seq![c]).len()
        }),
{
}

/// A word typed in one go is undone in one go: characters that are no blanks,
/// typed one after the other, go with one undo, to what was before the first.
/// A blank is an undo of its own.
pub proof fn words_are_undone_whole(buffer: BufferView, first: char, second: char)
    requires
        buffer.wf(),
        buffer.selection() is None,
        buffer.last_action != Action::TypeWord,
        !whitespace(first),
        !buffer.xml,
        utf8(seq![first]).len() > 0,
    ensures
        ({
            let once = buffer.char_typed(first).0;
            let undone = once.char_typed(second).0.undone().0;
            &&& !whitespace(second) ==> undone.bytes == buffer.bytes && undone.cursor
                == buffer.cursor
            &&& whitespace(second) ==> undone.bytes == once.bytes && undone.cursor == once.cursor
        }),
{
    let once = buffer.char_typed(first).0;
    assert(once.undo == buffer.saved().undo);
    assert(once.last_action == Action::TypeWord);
    assert(once.selection() is None);
}

/// Backspace takes the grapheme before the cursor, Delete the one behind it, and
/// nothing else.
pub proof fn deletions_take_one_grapheme(
    buffer: BufferView,
    before: Seq<Glyph>,
    after: Seq<Glyph>,
)
    requires
        buffer.wf(),
        buffer.selection() is None,
        buffer.atoms.len() == 0,
        tiles(before, buffer.bytes, 0, buffer.cursor),
        tiles(after, buffer.bytes, buffer.cursor, buffer.bytes.len() as int),
    ensures
        ({
            let all = buffer.bytes;
            let end = all.len() as int;
            let at = buffer.cursor;
            let left = buffer.backspaced(before).0;
            let right = buffer.deleted(after).0;
            &&& before.len() == 0 ==> left.bytes == all && left.cursor == at
            &&& before.len() > 0 ==> left.bytes == all.subrange(0, before.last().start as int)
                + all.subrange(at, end) && left.cursor == before.last().start
            &&& after.len() == 0 ==> right.bytes == all && right.cursor == at
            &&& after.len() > 0 ==> right.bytes == all.subrange(0, at) + all.subrange(
                after[0].end as int,
                end,
            ) && right.cursor == at
            &&& left.ring == buffer.ring && right.ring == buffer.ring
        }),
{
    let none = Seq::<u8>::empty();
    let all = buffer.bytes;
    let end = all.len() as int;
    let at = buffer.cursor;
    if before.len() > 0 {
        let from = before.last().start as int;
        tiles_order(before, all, 0, at, before.len() - 1, before.len() - 1);
        assert(buffer.step_left(before) == from);
        assert(buffer.widened(from, at) == (from, at));
        assert(spliced_bytes(all, from, at, none) =~= all.subrange(0, from) + all.subrange(
            at,
            end,
        ));
    }
    if after.len() > 0 {
        let to = after[0].end as int;
        tiles_order(after, all, at, end, 0, 0);
        assert(buffer.step_right(after) == to);
        assert(buffer.widened(at, to) == (at, to));
        assert(spliced_bytes(all, at, to, none) =~= all.subrange(0, at) + all.subrange(to, end));
    }
}

/// A step to the left crosses the grapheme before the cursor, and the step to
/// the right over that grapheme leads back.
pub proof fn steps_lead_back(
    buffer: BufferView,
    before: Seq<Glyph>,
    after: Seq<Glyph>,
    lines: Seq<Seq<Glyph>>,
)
    requires
        buffer.wf(),
        buffer.atoms.len() == 0,
        tiles(before, buffer.bytes, 0, buffer.cursor),
        before.len() > 0,
        after.len() > 0,
        after[0] == before.last(),
    ensures
        ({
            let left = buffer.moved_left(before).0;
            &&& left.cursor == before.last().start
            &&& left.moved_right(before.drop_last(), after, lines).0.cursor == buffer.cursor
        }),
{
}

/// Copying keeps the text and captures what is selected; cutting captures the
/// same and takes it out of the text, into the kill ring.
pub proof fn copies_hold_the_selection(buffer: BufferView)
    requires
        buffer.wf(),
        buffer.selection() is Some,
    ensures
        ({
            let (start, end) = buffer.selection()->0;
            let selected = buffer.bytes.subrange(start, end);
            let copy = buffer.selection_copied().0;
            let cut = buffer.selection_cut().0;
            &&& start < end
            &&& copy.copied == Some(selected)
            &&& copy.bytes == buffer.bytes
            &&& cut.copied == Some(selected)
            &&& cut.selection() is None
            &&& buffer.atoms.len() == 0 ==> cut.bytes == buffer.bytes.subrange(0, start)
                + buffer.bytes.subrange(end, buffer.bytes.len() as int) && cut.cursor == start
                && cut.ring.len() > 0
        }),
{
    let anchor = buffer.anchor->0;
    let (low, high) = if anchor < buffer.cursor {
        (anchor, buffer.cursor)
    } else {
        (buffer.cursor, anchor)
    };
    crate::atoms::widened_facts(buffer.bytes, buffer.atoms, 0, low, high);
    let (start, end) = buffer.selection()->0;
    let cut = buffer.selection_cut().0;
    if buffer.atoms.len() == 0 {
        assert(spliced_bytes(buffer.bytes, start, end, Seq::empty()) =~= buffer.bytes.subrange(
            0,
            start,
        ) + buffer.bytes.subrange(end, buffer.bytes.len() as int));
        assert(buffer.widened(start, end) == (start, end));
    }
}

/// A selection spans from where it was anchored to the cursor, whichever comes
/// first.
pub proof fn selections_span_from_anchor_to_cursor(buffer: BufferView, at: int)
    requires
        buffer.atoms.len() == 0,
    ensures
        ({
            let held = match buffer.anchor {
                Some(anchor) => anchor,
                None => buffer.cursor,
            };
            let after = buffer.extended_to(at);
            &&& after.cursor == at
            &&& at == held ==> after.selection() is None
            &&& at < held ==> after.selection() == Some((at, held))
            &&& at > held ==> after.selection() == Some((held, at))
        }),
{
}

/// Saving a state keeps the hundred last ones: the one saved comes last, and
/// the others stay in their order.
pub proof fn a_hundred_states_are_kept(buffer: BufferView, i: int)
    requires
        buffer.undo.len() <= 100,
        0 <= i < buffer.undo.len(),
    ensures
        ({
            let undo = buffer.saved().undo;
            let known = buffer.undo.last().bytes == buffer.bytes && buffer.undo.last().cursor
                == buffer.cursor;
            &&& undo.last().bytes == buffer.bytes && undo.last().cursor == buffer.cursor
            &&& known ==> undo == buffer.undo
            &&& !known && buffer.undo.len() < 100 ==> undo.len() == buffer.undo.len() + 1 && undo[i]
                == buffer.undo[i]
            &&& !known && buffer.undo.len() == 100 ==> undo.len() == 100 && (i > 0 ==> undo[i - 1]
                == buffer.undo[i])
        }),
{
}

/// Two insertions are taken back by two undos, the later one first.
pub proof fn insertions_are_undone_in_turn(buffer: BufferView, first: Seq<u8>, second: Seq<u8>)
    requires
        buffer.wf(),
        buffer.selection() is None,
        buffer.undo.len() < 99,
        first.len() > 0,
        second.len() > 0,
        buffer.undo.len() > 0 ==> buffer.undo.last().bytes != buffer.bytes
            || buffer.undo.last().cursor != buffer.cursor,
    ensures
        ({
            let once = buffer.with_inserted(first).0;
            let twice = once.with_inserted(second).0;
            let back = twice.undone().0;
            &&& back.bytes == once.bytes && back.cursor == once.cursor
            &&& back.undone().0.bytes == buffer.bytes && back.undone().0.cursor == buffer.cursor
            &&& back.undone().0.undo == buffer.undo
        }),
{
    let once = buffer.with_inserted(first).0;
    assert(once.undo.last().bytes == buffer.bytes && once.undo.last().cursor == buffer.cursor);
    assert(once.undo.drop_last() =~= buffer.undo);
    let twice = once.with_inserted(second).0;
    assert(once.cursor != buffer.cursor);
    assert(twice.undo.drop_last() =~= once.undo);
}

/// A place on a visible row and column is on that row, or on the last where
/// there are fewer: the last offset there that is no further right.
pub proof fn places_are_on_their_row(
    buffer: BufferView,
    row: int,
    column: u16,
    limit: u16,
    lines: Seq<Seq<Glyph>>,
    at: int,
)
    requires
        0 < limit,
        0 <= row,
        0 <= buffer.view_offset,
        ({
            let rows = segments_of(buffer.bytes, lines, limit as int);
            &&& 0 <= at < rows.len()
            &&& at == buffer.view_offset + row || at == rows.len() - 1 && at < buffer.view_offset
                + row
            &&& in_order(lines[rows[at].line as int])
        }),
    ensures
        ({
            let segment = segments_of(buffer.bytes, lines, limit as int)[at];
            let glyphs = lines[segment.line as int];
            let (from, to) = (segment.start as int, segment.end as int);
            let found = buffer.visual_position(row, column, limit, lines);
            ||| found == to && cells_within(glyphs, from, to) <= column
            ||| exists|k: int|
                0 <= k < glyphs.len() && (#[trigger] glyphs[k]).start == found && from <= found < to
                    && cells_within(glyphs, from, found) <= column < cells_within(
                    glyphs,
                    from,
                    found,
                ) + glyphs[k].width
        }),
{
    let segment = segments_of(buffer.bytes, lines, limit as int)[at];
    columns_stand_for_offsets(
        lines[segment.line as int],
        segment.start as int,
        segment.end as int,
        column as int,
    );
}

/// The last rows of lines end where their lines end.
proof fn last_rows_end_lines(
    text: Seq<char>,
    lines: Seq<Seq<Glyph>>,
    line: int,
    from: int,
    limit: int,
)
    requires
        lines_measured(lines, utf8(text), line, from),
        boundary(utf8(text), from),
        utf8(text).len() <= usize::MAX,
        1 <= limit <= 65535,
    ensures
        ({
            let bytes = utf8(text);
            let rows = segments_from(bytes, lines, line, from, limit);
            forall|i: int|
                #![trigger rows[i]]
                0 <= i < rows.len() && rows[i].last ==> rows[i].source_end == bytes.len()
                    || rows[i].source_end < bytes.len() && bytes[rows[i].source_end as int] == 10
        }),
    decreases utf8(text).len() - from,
{
    let bytes = utf8(text);
    let end = line_end(bytes, from);
    let rows = segments_from(bytes, lines, line, from, limit);
    line_end_facts(bytes, from);
    line_end_is_boundary(text, from);
    line_segments_facts(text, lines[line], line, from, end, limit);
    let here = line_segments(bytes, lines[line], line, from, end, limit);
    assert forall|i: int| #![trigger here[i]] 0 <= i < here.len() && here[i].last implies
        here[i].source_end == end by {
        assert(i == here.len() - 1);
    }
    if end < bytes.len() {
        last_rows_end_lines(text, lines, line + 1, end + 1, limit);
        let rest = segments_from(bytes, lines, line + 1, end + 1, limit);
        assert(rows == here + rest);
        assert forall|i: int|
            #![trigger rows[i]]
            0 <= i < rows.len() && rows[i].last implies rows[i].source_end == bytes.len()
            || rows[i].source_end < bytes.len() && bytes[rows[i].source_end as int] == 10 by {
            if i < here.len() {
                assert(rows[i] == here[i]);
            } else {
                assert(rows[i] == rest[i - here.len()]);
            }
        }
    }
}

/// The cursor stands on the row that owns the byte behind it; only at the end of
/// a line it stands behind what its row owns.
pub proof fn cursors_stand_on_the_row_that_owns_them(
    text: Seq<char>,
    lines: Seq<Seq<Glyph>>,
    limit: int,
    cursor: int,
)
    requires
        lines_measured(lines, utf8(text), 0, 0),
        utf8(text).len() <= usize::MAX,
        1 <= limit <= 65535,
        0 <= cursor <= utf8(text).len(),
    ensures
        ({
            let bytes = utf8(text);
            let rows = segments_of(bytes, lines, limit);
            let at = cursor_row(rows, cursor);
            &&& 0 <= at < rows.len()
            &&& rows[at].source_start <= cursor <= rows[at].source_end
            &&& cursor == rows[at].source_end ==> cursor == bytes.len() || bytes[cursor] == 10
        }),
{
    let rows = segments_of(utf8(text), lines, limit);
    ends_are_boundaries(text);
    last_rows_end_lines(text, lines, 0, 0, limit);
    let row = every_position_has_a_row(text, lines, 0, 0, limit, cursor);
    cursor_row_holds(rows, cursor, 0, row);
    let at = cursor_row(rows, cursor);
    assert(rows[at].last ==> rows[at].source_end == utf8(text).len() || utf8(
        text,
    )[rows[at].source_end as int] == 10);
}

/// Glyphs behind a row count for nothing.
proof fn glyphs_behind_do_not_count(glyphs: Seq<Glyph>, from: int, to: int, k: int)
    requires
        0 <= k < glyphs.len(),
        between(glyphs[k], from, to),
        forall|j: int| k < j < glyphs.len() ==> !between(#[trigger] glyphs[j], from, to),
    ensures
        last_between(glyphs, from, to) == Some(glyphs[k]),
        cells_within(glyphs, from, to) == cells_within(glyphs.take(k), from, to) + glyphs[k].width,
    decreases glyphs.len(),
{
    if k == glyphs.len() - 1 {
        assert(glyphs.drop_last() =~= glyphs.take(k));
    } else {
        let front = glyphs.drop_last();
        assert(!between(glyphs[glyphs.len() - 1], from, to));
        assert forall|j: int| k < j < front.len() implies !between(#[trigger] front[j], from, to) by {
            assert(front[j] == glyphs[j]);
        }
        glyphs_behind_do_not_count(front, from, to, k);
        assert(front.take(k) =~= glyphs.take(k));
    }
}

/// More glyphs take no fewer cells.
proof fn more_glyphs_take_more(glyphs: Seq<Glyph>, from: int, to: int, few: int, many: int)
    requires
        0 <= few <= many <= glyphs.len(),
    ensures
        cells_within(glyphs.take(few), from, to) <= cells_within(glyphs.take(many), from, to),
    decreases many - few,
{
    if few < many {
        more_glyphs_take_more(glyphs, from, to, few, many - 1);
        assert(glyphs.take(many).drop_last() =~= glyphs.take(many - 1));
    }
}

/// A column that a row may take stays on the row: where the line goes on below,
/// at most on the row's last glyph, and on its last row up to behind it.
pub proof fn rows_hold_their_columns(glyphs: Seq<Glyph>, segment: Segment, column: u16, k: int)
    requires
        in_order(glyphs),
        forall|i: int| 0 <= i < glyphs.len() ==> (#[trigger] glyphs[i]).width > 0,
        0 <= k < glyphs.len(),
        segment.start <= glyphs[k].start < segment.end,
        forall|j: int| k < j < glyphs.len() ==> (#[trigger] glyphs[j]).start >= segment.end,
        cells_within(glyphs, segment.start as int, segment.end as int) <= 65535,
        column <= max_column(glyphs, segment),
    ensures
        ({
            let most = max_column(glyphs, segment);
            let found = offset_at_column(
                glyphs,
                0,
                segment.start as int,
                segment.end as int,
                column as int,
            );
            &&& segment.start <= found <= segment.end
            &&& !segment.last ==> found <= glyphs[k].start
            &&& !segment.last && column == most ==> found == glyphs[k].start
            &&& segment.last && column == most ==> found == segment.end
        }),
{
    let (from, to) = (segment.start as int, segment.end as int);
    let found = offset_at_column(glyphs, 0, from, to, column as int);
    assert forall|j: int| k < j < glyphs.len() implies !between(#[trigger] glyphs[j], from, to) by {}
    glyphs_behind_do_not_count(glyphs, from, to, k);
    columns_stand_for_offsets(glyphs, from, to, column as int);
    let all = cells_within(glyphs, from, to);
    if !(found == to && all <= column) {
        let m = choose|m: int|
            0 <= m < glyphs.len() && (#[trigger] glyphs[m]).start == found && from <= found < to
                && cells_within(glyphs, from, found) <= column < cells_within(glyphs, from, found)
                + glyphs[m].width;
        if m > k {
            assert(glyphs[m].start >= to);
        }
        if m < k {
            assert(glyphs[m].start < glyphs[k].start);
        }
        cells_up_to(glyphs, from, to, m);
        let more = glyphs.take(m + 1);
        assert(more.drop_last() =~= glyphs.take(m));
        assert(more.last() == glyphs[m]);
        if m < k {
            more_glyphs_take_more(glyphs, from, to, m + 1, k);
        }
    }
}

} // verus!
