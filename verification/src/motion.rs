//! Cursor motions over characters, words and visual rows.

use vstd::prelude::*;
use vstd::utf8::*;

use crate::atoms::{find_holding, holding_facts};
use crate::buffer::{Action, BufferOutcome, BufferView, EditBuffer, Jump};
use crate::layout::{
    byte_at_column, columns, count_columns, cursor_row, cursor_row_holds, cut_part,
    every_position_has_a_row, find_line_end, find_line_start, line_end, line_end_is_boundary,
    line_start, line_views, lines_measured, max_column, offset_at_column, offset_at_column_facts,
    part, rows_fit_and_ascend, segment_at_cursor, segment_max_column, segment_ok, segments,
    segments_facts, segments_of, shows_within, stays_on_line, tiles, Glyph, Measured, Segment,
};
use crate::strings::{
    boundary, byte_len, char_bytes, char_len, chars_of, concat_boundaries, ends_are_boundaries,
    utf8, utf8_of_concat,
};

verus! {

/// One visual row of an edited text.
pub struct VisualRow {
    /// First byte shown.
    pub start: usize,
    /// Byte behind the last one shown.
    pub end: usize,
    /// The text shown.
    pub text: String,
    /// The cursor's column, where the row holds the cursor.
    pub cursor_column: Option<u16>,
}

/// One visual row of an edited text.
pub struct RowView {
    /// First byte shown.
    pub start: int,
    /// Byte behind the last one shown.
    pub end: int,
    /// The bytes shown.
    pub bytes: Seq<u8>,
    /// The cursor's column, where the row holds the cursor.
    pub cursor_column: Option<u16>,
}

impl View for VisualRow {
    type V = RowView;

    open spec fn view(&self) -> RowView {
        RowView {
            start: self.start as int,
            end: self.end as int,
            bytes: utf8(self.text@),
            cursor_column: self.cursor_column,
        }
    }
}

/// The position of the first `wanted` character at or behind position `at`.
pub open spec fn char_at_or_behind(text: Seq<char>, wanted: char, at: int) -> Option<int>
    decreases text.len() - at,
{
    if at >= text.len() {
        None
    } else if text[at] == wanted {
        Some(at)
    } else {
        char_at_or_behind(text, wanted, at + 1)
    }
}

/// The position of the last `wanted` character before position `at`.
pub open spec fn char_before(text: Seq<char>, wanted: char, at: int) -> Option<int>
    decreases at,
{
    if at <= 0 {
        None
    } else if text[at - 1] == wanted {
        Some(at - 1)
    } else {
        char_before(text, wanted, at - 1)
    }
}

/// Bytes of the first `count` characters.
pub open spec fn bytes_before(text: Seq<char>, count: int) -> int {
    utf8(text.take(count)).len() as int
}

/// The offset held between two others.
pub open spec fn clamped(at: int, from: int, to: int) -> int {
    if at < from {
        from
    } else if at > to {
        to
    } else {
        at
    }
}

/// Number of line feeds among the bytes.
pub open spec fn line_feeds(bytes: Seq<u8>) -> nat
    decreases bytes.len(),
{
    if bytes.len() == 0 {
        0
    } else {
        line_feeds(bytes.drop_last()) + (if bytes.last() == 10 {
            1nat
        } else {
            0
        })
    }
}

/// Where the logical line `count` lines behind the one at `from` starts, or
/// the last line.
pub open spec fn nth_line(bytes: Seq<u8>, count: int, from: int) -> (int, int)
    decreases count,
{
    let end = line_end(bytes, from);
    if count <= 0 || end >= bytes.len() {
        (0, from)
    } else {
        let (lines, start) = nth_line(bytes, count - 1, end + 1);
        (lines + 1, start)
    }
}

/// The logical lines from `from` on.
pub open spec fn lines_from(bytes: Seq<u8>, from: int) -> Seq<Seq<u8>>
    decreases bytes.len() - from,
{
    let end = line_end(bytes, from);
    if from < 0 || from > bytes.len() || end < from || end > bytes.len() {
        Seq::empty()
    } else if end == bytes.len() {
        seq![bytes.subrange(from, end)]
    } else {
        seq![bytes.subrange(from, end)] + lines_from(bytes, end + 1)
    }
}

impl BufferView {
    /// The column of the cursor on a row; `before` measures the text up to the
    /// cursor.
    pub open spec fn column_on(self, segment: Segment, before: Seq<Glyph>) -> u16 {
        columns(
            before,
            segment.start as int,
            clamped(self.cursor, segment.start as int, segment.end as int),
        )
    }

    /// The buffer after a step to the left.
    pub open spec fn moved_left(self, before: Seq<Glyph>) -> (Self, BufferOutcome) {
        if before.len() == 0 {
            (self.broken(), BufferOutcome::Ignored)
        } else {
            self.moved_to(self.step_left(before))
        }
    }

    /// The buffer after a step to the right; at the end of the text it only
    /// remembers the column.
    pub open spec fn moved_right(
        self,
        before: Seq<Glyph>,
        after: Seq<Glyph>,
        lines: Seq<Seq<Glyph>>,
    ) -> (Self, BufferOutcome) {
        if after.len() == 0 {
            let rows = segments_of(self.bytes, lines, self.layout_width as int);
            (
                BufferView {
                    desired: Some(self.column_on(rows[cursor_row(rows, self.cursor)], before)),
                    ..self.broken()
                },
                BufferOutcome::Ignored,
            )
        } else {
            self.moved_to(self.step_right(after))
        }
    }

    /// The buffer after a vertical motion by `rows` visual rows.
    pub open spec fn moved_visual(
        self,
        forward: bool,
        rows: int,
        before: Seq<Glyph>,
        lines: Seq<Seq<Glyph>>,
    ) -> (Self, BufferOutcome) {
        let all = segments_of(self.bytes, lines, self.layout_width as int);
        let current = cursor_row(all, self.cursor);
        let target = clamped(
            if forward {
                current + rows
            } else {
                current - rows
            },
            0,
            all.len() - 1,
        );
        if target == current {
            let edge = self.snapped(
                if forward {
                    all[current].source_end as int
                } else {
                    all[current].source_start as int
                },
                forward,
            );
            (
                BufferView { cursor: edge, ..self.broken() },
                if edge == self.cursor {
                    BufferOutcome::Ignored
                } else {
                    BufferOutcome::Changed
                },
            )
        } else {
            let row = all[target];
            let glyphs = lines[row.line as int];
            let preferred = match self.desired {
                Some(column) => column,
                None => self.column_on(all[current], before),
            };
            let limit = max_column(glyphs, row);
            let column = if preferred <= limit {
                preferred
            } else {
                limit
            };
            let at = offset_at_column(glyphs, 0, row.start as int, row.end as int, column as int);
            let cursor = self.snapped(at, forward);
            let kept = column == preferred && cursor == at && row.start <= cursor && columns(
                glyphs,
                row.start as int,
                cursor,
            ) == preferred;
            (
                BufferView {
                    cursor,
                    desired: if kept {
                        None
                    } else {
                        Some(preferred)
                    },
                    ..self.broken()
                },
                BufferOutcome::Changed,
            )
        }
    }

    /// The buffer with the cursor at one end of the whole text and nothing
    /// selected.
    pub open spec fn at_message_edge(self, end: bool) -> (Self, BufferOutcome) {
        (BufferView { anchor: None, desired: None, manual_scroll: false, ..self }).moved_to(
            if end {
                self.bytes.len() as int
            } else {
                0
            },
        )
    }

    /// Where a jump to `wanted` lands.
    pub open spec fn jump_target(self, wanted: char, jump: Jump) -> Option<int> {
        match jump {
            Jump::Forward => {
                let behind = part(self.bytes, self.cursor, self.bytes.len() as int);
                match char_at_or_behind(behind, wanted, 1) {
                    Some(at) => Some(self.cursor + bytes_before(behind, at)),
                    None => None,
                }
            },
            Jump::Backward => {
                let ahead = part(self.bytes, 0, self.cursor);
                match char_before(ahead, wanted, ahead.len() as int) {
                    Some(at) => Some(bytes_before(ahead, at)),
                    None => None,
                }
            },
        }
    }

    /// The buffer after a jump to `wanted`.
    pub open spec fn jumped(self, wanted: char, jump: Jump) -> (Self, BufferOutcome) {
        match self.jump_target(wanted, jump) {
            None => (self.broken(), BufferOutcome::Ignored),
            Some(at) => (
                BufferView {
                    cursor: self.snapped(at, jump == Jump::Forward),
                    ..self.broken()
                },
                BufferOutcome::Changed,
            ),
        }
    }

    /// The position on a visible row and column.
    pub open spec fn visual_position(
        self,
        row: int,
        column: u16,
        limit: u16,
        lines: Seq<Seq<Glyph>>,
    ) -> int {
        let all = segments_of(self.bytes, lines, at_least_one(limit) as int);
        let segment = all[clamped(self.view_offset + row, 0, all.len() - 1)];
        offset_at_column(
            lines[segment.line as int],
            0,
            segment.start as int,
            segment.end as int,
            column as int,
        )
    }

    /// The buffer with the cursor placed at `at` and nothing selected.
    pub open spec fn placed(self, at: int) -> Self {
        BufferView {
            cursor: self.snapped(at, at >= self.cursor),
            anchor: None,
            desired: None,
            manual_scroll: false,
            ..self.broken()
        }
    }

    /// The buffer with the selection extended to `at`.
    pub open spec fn extended_to(self, at: int) -> Self {
        let anchor = match self.anchor {
            Some(anchor) => anchor,
            None => self.cursor,
        };
        BufferView {
            cursor: self.snapped(at, at >= anchor),
            anchor: Some(anchor),
            desired: None,
            manual_scroll: false,
            ..self.broken()
        }
    }

    /// The first row of a window of `max_rows` over `total` rows that scrolls
    /// no further than the cursor's row needs.
    pub open spec fn first_row(self, total: int, row: int, max_rows: int) -> int {
        self.top_row(false, total, row, max_rows)
    }

    /// The first row of a window of `max_rows` over `total` rows with the
    /// cursor's row in its middle, as far as both ends let it.
    pub open spec fn centered_row(self, total: int, row: int, max_rows: int) -> int {
        self.top_row(true, total, row, max_rows)
    }

    /// The first row of a window that follows the cursor's row, unless it was
    /// scrolled by hand.
    pub open spec fn top_row(self, centered: bool, total: int, row: int, max_rows: int) -> int {
        let visible = if total < max_rows {
            total
        } else {
            max_rows
        };
        let wanted = if self.manual_scroll {
            self.view_offset
        } else if centered {
            row - max_rows / 2
        } else if max_rows > 0 {
            row - (max_rows - 1)
        } else {
            row
        };
        clamped(wanted, 0, total - visible)
    }

    /// The selected columns of a row; `glyphs` measures its logical line.
    pub open spec fn selected_columns(self, from: int, to: int, glyphs: Seq<Glyph>) -> Option<
        (u16, u16),
    > {
        match self.selection() {
            None => None,
            Some((first, last)) => {
                let start = if first > from {
                    first
                } else {
                    from
                };
                let end = if last < to {
                    last
                } else {
                    to
                };
                if start >= end {
                    None
                } else {
                    Some((columns(glyphs, from, start), columns(glyphs, from, end)))
                }
            },
        }
    }

    /// What a row shows; `before` measures the text up to the cursor.
    pub open spec fn row_view(self, segment: Segment, before: Seq<Glyph>) -> RowView {
        RowView {
            start: segment.start as int,
            end: segment.end as int,
            bytes: self.bytes.subrange(segment.start as int, segment.end as int),
            cursor_column: if crate::layout::holds_cursor(segment, self.cursor) {
                Some(self.column_on(segment, before))
            } else {
                None
            },
        }
    }
}

/// A width of at least one column.
pub open spec fn at_least_one(width: u16) -> u16 {
    if width == 0 {
        1
    } else {
        width
    }
}

/// `width`, but at least one column.
pub fn positive_width(width: u16) -> (positive: u16)
    ensures
        positive == at_least_one(width),
        positive >= 1,
{
    if width == 0 {
        1
    } else {
        width
    }
}

/// Every measured line is cut at boundaries.
pub proof fn measured_lines_cut(
    lines: Seq<Seq<Glyph>>,
    bytes: Seq<u8>,
    line: int,
    from: int,
    k: int,
)
    requires
        lines_measured(lines, bytes, line, from),
        line <= k < lines.len(),
    ensures
        forall|i: int|
            0 <= i < lines[k].len() ==> (#[trigger] lines[k][i]).start < lines[k][i].end
                && boundary(bytes, lines[k][i].start as int),
    decreases bytes.len() - from,
{
    let end = line_end(bytes, from);
    if k != line {
        measured_lines_cut(lines, bytes, line + 1, end + 1, k);
    }
}

/// The characters before a position end on a boundary.
pub proof fn bytes_before_cut(text: Seq<char>, count: int)
    requires
        0 <= count <= text.len(),
    ensures
        boundary(utf8(text), bytes_before(text, count)),
{
    let head = text.take(count);
    let tail = text.skip(count);
    assert(head + tail =~= text);
    ends_are_boundaries(head);
    concat_boundaries(head, tail, utf8(head).len() as int);
}

/// One character more adds its bytes.
pub proof fn bytes_before_grows(text: Seq<char>, count: int)
    requires
        0 <= count < text.len(),
    ensures
        bytes_before(text, count + 1) == bytes_before(text, count) + char_bytes(text[count]),
        bytes_before(text, count + 1) <= utf8(text).len(),
{
    let head = text.take(count + 1);
    assert(head.drop_last() =~= text.take(count));
    assert(head =~= text.take(count) + seq![text[count]]);
    utf8_of_concat(text.take(count), seq![text[count]]);
    crate::layout::utf8_of_last(head);
    assert(head + text.skip(count + 1) =~= text);
    utf8_of_concat(head, text.skip(count + 1));
}

impl EditBuffer {
    /// Where a position inside an atom moves to.
    pub fn snap_position(&self, at: usize, forward: bool) -> (snapped: usize)
        requires
            self.wf(),
            boundary(self@.bytes, at as int),
        ensures
            snapped == self@.snapped(at as int, forward),
            boundary(self@.bytes, snapped as int),
    {
        proof {
            holding_facts(self@.atoms, 0, at as int);
        }
        match find_holding(&self.atoms, at) {
            Some((start, end)) => {
                if forward {
                    end
                } else {
                    start
                }
            },
            None => at,
        }
    }

    /// Moves the cursor, past or to the edge of an atom.
    pub fn move_to(&mut self, at: usize) -> (outcome: BufferOutcome)
        requires
            old(self).wf(),
            boundary(old(self)@.bytes, at as int),
        ensures
            final(self).wf(),
            (final(self)@, outcome) == old(self)@.moved_to(at as int),
    {
        let ghost before = self@;
        self.break_sequence();
        self.desired = None;
        let forward: bool = at >= self.cursor;
        let cursor: usize = self.snap_position(at, forward);
        if cursor == self.cursor {
            assert(self@ =~= before.moved_to(at as int).0);
            BufferOutcome::Ignored
        } else {
            self.cursor = cursor;
            assert(self@ =~= before.moved_to(at as int).0);
            BufferOutcome::Changed
        }
    }

    /// Moves the cursor to the start (`end == false`) or end of the whole
    /// message, collapsing any selection.
    pub fn move_to_message_edge(&mut self, end: bool) -> (outcome: BufferOutcome)
        requires
            old(self).wf(),
        ensures
            final(self).wf(),
            (final(self)@, outcome) == old(self)@.at_message_edge(end),
    {
        let at: usize = if end {
            byte_len(self.text.as_str())
        } else {
            0
        };
        proof {
            ends_are_boundaries(self.text@);
        }
        self.anchor = None;
        self.desired = None;
        self.manual_scroll = false;
        self.move_to(at)
    }

    /// Moves one grapheme or atom to the left.
    pub fn move_left(&mut self, before: &Vec<Glyph>) -> (outcome: BufferOutcome)
        requires
            old(self).wf(),
            tiles(before@, old(self)@.bytes, 0, old(self)@.cursor),
        ensures
            final(self).wf(),
            (final(self)@, outcome) == old(self)@.moved_left(before@),
    {
        if before.len() == 0 {
            self.break_sequence();
            return BufferOutcome::Ignored;
        }
        let at: usize = self.step_left(before);
        self.move_to(at)
    }

    /// The visual rows of the text.
    pub fn segments(&self, lines: &Vec<Vec<Glyph>>, limit: u16) -> (rows: Vec<Segment>)
        requires
            lines_measured(line_views(lines@), self@.bytes, 0, 0),
            1 <= limit,
        ensures
            rows@ == segments_of(self@.bytes, line_views(lines@), limit as int),
            rows.len() > 0,
            forall|i: int|
                0 <= i < rows.len() ==> segment_ok(self@.bytes, #[trigger] rows@[i])
                    && rows@[i].line < lines.len(),
    {
        let length: usize = byte_len(self.text.as_str());
        proof {
            ends_are_boundaries(self.text@);
            assert(lines.len() == line_views(lines@).len());
            segments_facts(self.text@, line_views(lines@), 0, 0, limit as int);
        }
        segments(self.text.as_str(), lines, limit)
    }

    /// The column of the cursor on a row.
    pub fn column_on(&self, segment: Segment, before: &Vec<Glyph>) -> (column: u16)
        requires
            segment.start <= segment.end,
        ensures
            column == self@.column_on(segment, before@),
    {
        let cursor: usize = if self.cursor < segment.start {
            segment.start
        } else if self.cursor > segment.end {
            segment.end
        } else {
            self.cursor
        };
        count_columns(before, segment.start, cursor)
    }

    /// Moves one grapheme or atom to the right; at the end of the text it
    /// only remembers the column.
    pub fn move_right(&mut self, measured: &Measured) -> (outcome: BufferOutcome)
        requires
            old(self).wf(),
            measured.measures(old(self)@.bytes, old(self)@.cursor),
        ensures
            final(self).wf(),
            (final(self)@, outcome) == old(self)@.moved_right(
                measured.before@,
                measured.after@,
                line_views(measured.lines@),
            ),
    {
        let ghost before = self@;
        if measured.after.len() == 0 {
            self.break_sequence();
            let rows: Vec<Segment> = self.segments(&measured.lines, self.layout_width);
            let row: usize = segment_at_cursor(&rows, self.cursor);
            assert(segment_ok(self@.bytes, rows@[row as int]));
            let column: u16 = self.column_on(rows[row], &measured.before);
            self.desired = Some(column);
            assert(self@ =~= before.moved_right(
                measured.before@,
                measured.after@,
                line_views(measured.lines@),
            ).0);
            return BufferOutcome::Ignored;
        }
        let at: usize = self.step_right(&measured.after);
        self.move_to(at)
    }

    /// Moves by visual rows, keeping the column.
    pub fn move_visual(&mut self, forward: bool, rows: usize, measured: &Measured) -> (outcome:
        BufferOutcome)
        requires
            old(self).wf(),
            measured.measures(old(self)@.bytes, old(self)@.cursor),
        ensures
            final(self).wf(),
            (final(self)@, outcome) == old(self)@.moved_visual(
                forward,
                rows as int,
                measured.before@,
                line_views(measured.lines@),
            ),
    {
        let ghost before = self@;
        let ghost views = line_views(measured.lines@);
        let ghost goal = before.moved_visual(forward, rows as int, measured.before@, views);
        self.break_sequence();
        let all: Vec<Segment> = self.segments(&measured.lines, self.layout_width);
        let current: usize = segment_at_cursor(&all, self.cursor);
        let target: usize = if forward {
            if rows > all.len() - 1 - current {
                all.len() - 1
            } else {
                current + rows
            }
        } else if rows > current {
            0
        } else {
            current - rows
        };
        let source: Segment = all[current];
        assert(segment_ok(before.bytes, all@[current as int]));
        assert(segment_ok(before.bytes, all@[target as int]));
        if target == current {
            let edge: usize = self.snap_position(
                if forward {
                    source.source_end
                } else {
                    source.source_start
                },
                forward,
            );
            if edge == self.cursor {
                assert(self@ =~= goal.0);
                return BufferOutcome::Ignored;
            }
            self.cursor = edge;
            assert(self@ =~= goal.0);
            return BufferOutcome::Changed;
        }
        let row: Segment = all[target];
        let column: u16 = self.column_on(source, &measured.before);
        let glyphs: &Vec<Glyph> = &measured.lines[row.line];
        assert(views[row.line as int] == glyphs@);
        let limit: u16 = segment_max_column(glyphs, row);
        let preferred: u16 = match self.desired {
            Some(desired) => desired,
            None => column,
        };
        let target_column: u16 = if preferred <= limit {
            preferred
        } else {
            limit
        };
        let at: usize = byte_at_column(glyphs, row.start, row.end, target_column);
        proof {
            measured_lines_cut(views, before.bytes, 0, 0, row.line as int);
            offset_at_column_facts(
                glyphs@,
                before.bytes,
                0,
                row.start as int,
                row.end as int,
                target_column as int,
            );
        }
        let cursor: usize = self.snap_position(at, forward);
        let kept: bool = target_column == preferred && cursor == at && row.start <= cursor
            && count_columns(glyphs, row.start, cursor) == preferred;
        self.desired = if kept {
            None
        } else {
            Some(preferred)
        };
        self.cursor = cursor;
        assert(self@ =~= goal.0);
        BufferOutcome::Changed
    }

    /// Jumps to the next or previous `wanted` character.
    pub fn jump_to(&mut self, wanted: char, jump: Jump) -> (outcome: BufferOutcome)
        requires
            old(self).wf(),
        ensures
            final(self).wf(),
            (final(self)@, outcome) == old(self)@.jumped(wanted, jump),
    {
        let ghost before = self@;
        self.break_sequence();
        proof {
            ends_are_boundaries(self.text@);
        }
        let found: Option<usize> = match jump {
            Jump::Forward => self.find_behind(wanted),
            Jump::Backward => self.find_before(wanted),
        };
        match found {
            None => {
                assert(self@ =~= before.jumped(wanted, jump).0);
                BufferOutcome::Ignored
            },
            Some(at) => {
                self.cursor = self.snap_position(at, matches!(jump, Jump::Forward));
                assert(self@ =~= before.jumped(wanted, jump).0);
                BufferOutcome::Changed
            },
        }
    }

    /// The position of the next `wanted` character behind the one at the
    /// cursor.
    fn find_behind(&self, wanted: char) -> (found: Option<usize>)
        requires
            self.wf(),
        ensures
            crate::buffer::offset_view(found) == self@.jump_target(wanted, Jump::Forward),
            found matches Some(at) ==> boundary(self@.bytes, at as int),
    {
        proof {
            ends_are_boundaries(self.text@);
        }
        let length: usize = byte_len(self.text.as_str());
        let piece: &str = cut_part(self.text.as_str(), self.cursor, length);
        let chars: Vec<char> = chars_of(piece);
        let ghost goal = char_at_or_behind(chars@, wanted, 1);
        if chars.len() == 0 {
            return None;
        }
        let mut at: usize = 1;
        let mut offset: usize = char_len(chars[0]);
        proof {
            assert(chars@.take(0) =~= Seq::empty());
            bytes_before_grows(chars@, 0);
        }
        while at < chars.len()
            invariant
                self.wf(),
                length == self@.bytes.len(),
                1 <= at <= chars.len(),
                chars@ == part(self@.bytes, self@.cursor, length as int),
                utf8(chars@) == self@.bytes.subrange(self@.cursor, length as int),
                goal == char_at_or_behind(chars@, wanted, 1),
                goal == char_at_or_behind(chars@, wanted, at as int),
                offset == bytes_before(chars@, at as int),
                offset <= length - self.cursor,
            decreases chars.len() - at,
        {
            if chars[at] == wanted {
                proof {
                    bytes_before_cut(chars@, at as int);
                }
                return Some(self.cursor + offset);
            }
            proof {
                bytes_before_grows(chars@, at as int);
            }
            offset += char_len(chars[at]);
            at += 1;
        }
        None
    }

    /// The position of the last `wanted` character before the cursor.
    fn find_before(&self, wanted: char) -> (found: Option<usize>)
        requires
            self.wf(),
        ensures
            crate::buffer::offset_view(found) == self@.jump_target(wanted, Jump::Backward),
            found matches Some(at) ==> boundary(self@.bytes, at as int),
    {
        proof {
            ends_are_boundaries(self.text@);
        }
        let piece: &str = cut_part(self.text.as_str(), 0, self.cursor);
        let chars: Vec<char> = chars_of(piece);
        let mut at: usize = chars.len();
        let mut offset: usize = self.cursor;
        assert(chars@.take(chars.len() as int) =~= chars@);
        while at > 0
            invariant
                self.wf(),
                at <= chars.len(),
                chars@ == part(self@.bytes, 0, self@.cursor),
                utf8(chars@) == self@.bytes.subrange(0, self@.cursor),
                char_before(chars@, wanted, chars.len() as int) == char_before(
                    chars@,
                    wanted,
                    at as int,
                ),
                offset == bytes_before(chars@, at as int),
                offset <= self.cursor,
            decreases at,
        {
            proof {
                bytes_before_grows(chars@, at - 1);
            }
            at -= 1;
            offset -= char_len(chars[at]);
            if chars[at] == wanted {
                proof {
                    bytes_before_cut(chars@, at as int);
                }
                return Some(offset);
            }
        }
        None
    }

    /// The position on a visible visual row and cell column.
    pub fn visual_position(&self, row: usize, column: u16, limit: u16, lines: &Vec<Vec<Glyph>>) -> (at:
        usize)
        requires
            self.wf(),
            lines_measured(line_views(lines@), self@.bytes, 0, 0),
        ensures
            at == self@.visual_position(row as int, column, limit, line_views(lines@)),
            boundary(self@.bytes, at as int),
    {
        let rows: Vec<Segment> = self.segments(lines, positive_width(limit));
        let wanted: usize = self.view_offset.saturating_add(row);
        let index: usize = if wanted > rows.len() - 1 {
            rows.len() - 1
        } else {
            wanted
        };
        let segment: Segment = rows[index];
        assert(segment_ok(self@.bytes, rows@[index as int]));
        let glyphs: &Vec<Glyph> = &lines[segment.line];
        assert(line_views(lines@)[segment.line as int] == glyphs@);
        proof {
            measured_lines_cut(line_views(lines@), self@.bytes, 0, 0, segment.line as int);
            offset_at_column_facts(
                glyphs@,
                self@.bytes,
                0,
                segment.start as int,
                segment.end as int,
                column as int,
            );
        }
        byte_at_column(glyphs, segment.start, segment.end, column)
    }

    /// Places the cursor at `at`, past or to the edge of an atom.
    fn place(&mut self, at: usize)
        requires
            old(self).wf(),
            boundary(old(self)@.bytes, at as int),
        ensures
            final(self).wf(),
            final(self)@ == old(self)@.placed(at as int),
    {
        let ghost before = self@;
        let forward: bool = at >= self.cursor;
        self.cursor = self.snap_position(at, forward);
        self.anchor = None;
        self.desired = None;
        self.manual_scroll = false;
        self.last_action = Action::Other;
        self.last_yank = None;
        assert(self@ =~= before.placed(at as int));
    }

    /// Places the cursor on a visible visual row and cell column.
    pub fn set_cursor_visual_row(
        &mut self,
        row: usize,
        column: u16,
        width_limit: u16,
        lines: &Vec<Vec<Glyph>>,
    )
        requires
            old(self).wf(),
            lines_measured(line_views(lines@), old(self)@.bytes, 0, 0),
        ensures
            final(self).wf(),
            final(self)@ == (BufferView {
                layout_width: at_least_one(width_limit),
                ..old(self)@
            }).placed(
                old(self)@.visual_position(row as int, column, width_limit, line_views(lines@)),
            ),
    {
        self.layout_width = positive_width(width_limit);
        let at: usize = self.visual_position(row, column, width_limit, lines);
        self.place(at);
    }

    /// Extends the selection to a visible visual row and cell column.
    pub fn extend_selection_visual_row(
        &mut self,
        row: usize,
        column: u16,
        width_limit: u16,
        lines: &Vec<Vec<Glyph>>,
    )
        requires
            old(self).wf(),
            lines_measured(line_views(lines@), old(self)@.bytes, 0, 0),
        ensures
            final(self).wf(),
            final(self)@ == (BufferView {
                layout_width: at_least_one(width_limit),
                ..old(self)@
            }).extended_to(
                old(self)@.visual_position(row as int, column, width_limit, line_views(lines@)),
            ),
    {
        let ghost before = self@;
        self.layout_width = positive_width(width_limit);
        let anchor: usize = match self.anchor {
            Some(anchor) => anchor,
            None => self.cursor,
        };
        let at: usize = self.visual_position(row, column, width_limit, lines);
        self.cursor = self.snap_position(at, at >= anchor);
        self.anchor = Some(anchor);
        self.desired = None;
        self.manual_scroll = false;
        self.last_action = Action::Other;
        self.last_yank = None;
        assert(self@ =~= (BufferView {
            layout_width: at_least_one(width_limit),
            ..before
        }).extended_to(at as int));
    }

    /// Places the cursor on a logical line and cell column.
    pub fn set_cursor_line_column(&mut self, line: usize, column: u16, lines: &Vec<Vec<Glyph>>)
        requires
            old(self).wf(),
            lines_measured(line_views(lines@), old(self)@.bytes, 0, 0),
        ensures
            final(self).wf(),
            final(self)@ == old(self)@.placed(
                ({
                    let (index, start) = nth_line(old(self)@.bytes, line as int, 0);
                    offset_at_column(
                        line_views(lines@)[index],
                        0,
                        start,
                        line_end(old(self)@.bytes, start),
                        column as int,
                    )
                }),
            ),
    {
        let ghost bytes = self@.bytes;
        let ghost views = line_views(lines@);
        let length: usize = byte_len(self.text.as_str());
        let mut index: usize = 0;
        let mut start: usize = 0;
        let mut end: usize = find_line_end(self.text.as_str(), 0);
        proof {
            ends_are_boundaries(self.text@);
        }
        while index < line && end < length
            invariant
                index <= line,
                length == bytes.len(),
                bytes == utf8(self.text@),
                bytes == self@.bytes,
                self.wf(),
                *self == *old(self),
                start <= end <= length,
                end == line_end(bytes, start as int),
                lines_measured(views, bytes, index as int, start as int),
                views == line_views(lines@),
                nth_line(bytes, line as int, 0) == (
                    index + nth_line(bytes, line - index, start as int).0,
                    nth_line(bytes, line - index, start as int).1,
                ),
            decreases line - index,
        {
            start = end + 1;
            index += 1;
            end = find_line_end(self.text.as_str(), start);
        }
        assert(nth_line(bytes, line as int, 0) == (index as int, start as int));
        let glyphs: &Vec<Glyph> = &lines[index];
        assert(views[index as int] == glyphs@);
        let at: usize = byte_at_column(glyphs, start, end, column);
        proof {
            line_end_is_boundary(self.text@, start as int);
            measured_lines_cut(views, bytes, index as int, start as int, index as int);
            offset_at_column_facts(glyphs@, bytes, 0, start as int, end as int, column as int);
        }
        self.place(at);
    }

    /// Returns the number of logical newline-delimited lines.
    pub fn line_count(&self) -> (count: usize)
        requires
            self@.bytes.len() < usize::MAX,
        ensures
            count == line_feeds(self@.bytes) + 1,
    {
        let length: usize = byte_len(self.text.as_str());
        assert(self@.bytes.take(length as int) =~= self@.bytes);
        self.count_line_feeds(length) + 1
    }

    /// Number of line feeds before byte `end`.
    fn count_line_feeds(&self, end: usize) -> (count: usize)
        requires
            end <= self@.bytes.len(),
        ensures
            count == line_feeds(self@.bytes.take(end as int)),
            count <= end,
    {
        let bytes: &[u8] = self.text.as_str().as_bytes();
        let mut count: usize = 0;
        let mut at: usize = 0;
        while at < end
            invariant
                at <= end <= bytes.len(),
                bytes@ == self@.bytes,
                count <= at,
                count == line_feeds(bytes@.take(at as int)),
            decreases end - at,
        {
            assert(bytes@.take(at + 1).drop_last() =~= bytes@.take(at as int));
            if bytes[at] == 10 {
                count += 1;
            }
            at += 1;
        }
        count
    }

    /// Returns the zero-based logical cursor line.
    pub fn cursor_line(&self) -> (line: usize)
        requires
            self.wf(),
        ensures
            line == line_feeds(self@.bytes.take(self@.cursor)),
    {
        self.count_line_feeds(self.cursor)
    }

    /// Returns the cursor's cell column within its logical line; `before`
    /// measures the text up to the cursor.
    pub fn cursor_column(&self, before: &Vec<Glyph>) -> (column: u16)
        requires
            self.wf(),
        ensures
            column == columns(before@, line_start(self@.bytes, self@.cursor), self@.cursor),
    {
        let start: usize = find_line_start(self.text.as_str(), self.cursor);
        count_columns(before, start, self.cursor)
    }

    /// The logical lines.
    pub fn logical_lines(&self) -> (lines: Vec<String>)
        ensures
            lines@.map_values(|line: String| utf8(line@)) == lines_from(self@.bytes, 0),
    {
        let ghost bytes = self@.bytes;
        let length: usize = byte_len(self.text.as_str());
        let mut lines: Vec<String> = Vec::new();
        let ghost shown = |line: String| utf8(line@);
        let mut from: usize = 0;
        proof {
            ends_are_boundaries(self.text@);
            assert(lines@.map_values(shown) + lines_from(bytes, 0) =~= lines_from(bytes, 0));
        }
        loop
            invariant
                length == bytes.len(),
                bytes == self@.bytes,
                bytes == utf8(self.text@),
                from <= length,
                boundary(bytes, from as int),
                shown == |line: String| utf8(line@),
                lines@.map_values(shown) + lines_from(bytes, from as int) == lines_from(bytes, 0),
            decreases length - from,
        {
            let end: usize = find_line_end(self.text.as_str(), from);
            proof {
                line_end_is_boundary(self.text@, from as int);
            }
            let line: String = crate::strings::slice_text(
                self.text.as_str(),
                from,
                end,
            ).to_owned();
            let ghost earlier = lines@.map_values(shown);
            let ghost added = utf8(line@);
            lines.push(line);
            assert(lines@.map_values(shown) =~= earlier.push(added));
            if end == length {
                assert(lines@.map_values(shown) =~= earlier + lines_from(bytes, from as int));
                return lines;
            }
            assert(lines@.map_values(shown) + lines_from(bytes, end + 1) =~= earlier + lines_from(
                bytes,
                from as int,
            ));
            from = end + 1;
        }
    }

    /// Returns the visible visual rows.
    ///
    /// Keyboard editing keeps the cursor in view. A manual viewport scroll
    /// remains detached until the next editing command.
    pub fn rows(&mut self, width_limit: u16, max_rows: usize, measured: &Measured) -> (rows: Vec<
        VisualRow,
    >)
        requires
            old(self).wf(),
            measured.measures(old(self)@.bytes, old(self)@.cursor),
        ensures
            final(self).wf(),
            ({
                let all = segments_of(
                    old(self)@.bytes,
                    line_views(measured.lines@),
                    at_least_one(width_limit) as int,
                );
                let first = old(self)@.first_row(
                    all.len() as int,
                    cursor_row(all, old(self)@.cursor),
                    max_rows as int,
                );
                &&& rows.len() == (if all.len() < max_rows {
                    all.len() as int
                } else {
                    max_rows as int
                })
                &&& forall|i: int|
                    0 <= i < rows.len() ==> (#[trigger] rows@[i])@ == old(self)@.row_view(
                        all[first + i],
                        measured.before@,
                    )
                &&& final(self)@ == (BufferView {
                    layout_width: at_least_one(width_limit),
                    view_offset: first,
                    ..old(self)@
                })
            }),
    {
        self.rows_with_metrics(width_limit, max_rows, measured).0
    }

    /// Returns visible rows and `(first, visible, total)` viewport metrics
    /// from one wrapping pass.
    ///
    /// Keyboard editing keeps the cursor in view. A manual viewport scroll
    /// remains detached until the next editing command.
    pub fn rows_with_metrics(&mut self, width_limit: u16, max_rows: usize, measured: &Measured) -> (shown:
        (Vec<VisualRow>, (usize, usize, usize)))
        requires
            old(self).wf(),
            measured.measures(old(self)@.bytes, old(self)@.cursor),
        ensures
            final(self).wf(),
            ({
                let all = segments_of(
                    old(self)@.bytes,
                    line_views(measured.lines@),
                    at_least_one(width_limit) as int,
                );
                let (first, visible, total) = shown.1;
                &&& total == all.len()
                &&& visible == (if all.len() < max_rows {
                    all.len() as int
                } else {
                    max_rows as int
                })
                &&& first == old(self)@.first_row(
                    all.len() as int,
                    cursor_row(all, old(self)@.cursor),
                    max_rows as int,
                )
                &&& shown.0.len() == visible
                &&& forall|i: int|
                    0 <= i < visible ==> (#[trigger] shown.0@[i])@ == old(self)@.row_view(
                        all[first + i],
                        measured.before@,
                    )
                &&& final(self)@ == (BufferView {
                    layout_width: at_least_one(width_limit),
                    view_offset: first as int,
                    ..old(self)@
                })
            }),
    {
        self.rows_followed(width_limit, max_rows, measured, false)
    }

    /// The visible rows and the viewport's metrics, with the cursor's row
    /// centered or merely in view.
    pub(crate) fn rows_followed(
        &mut self,
        width_limit: u16,
        max_rows: usize,
        measured: &Measured,
        centered: bool,
    ) -> (shown: (Vec<VisualRow>, (usize, usize, usize)))
        requires
            old(self).wf(),
            measured.measures(old(self)@.bytes, old(self)@.cursor),
        ensures
            final(self).wf(),
            ({
                let all = segments_of(
                    old(self)@.bytes,
                    line_views(measured.lines@),
                    at_least_one(width_limit) as int,
                );
                let (first, visible, total) = shown.1;
                &&& total == all.len()
                &&& visible == (if all.len() < max_rows {
                    all.len() as int
                } else {
                    max_rows as int
                })
                &&& first == old(self)@.top_row(
                    centered,
                    all.len() as int,
                    cursor_row(all, old(self)@.cursor),
                    max_rows as int,
                )
                &&& shown.0.len() == visible
                &&& forall|i: int|
                    0 <= i < visible ==> (#[trigger] shown.0@[i])@ == old(self)@.row_view(
                        all[first + i],
                        measured.before@,
                    )
                &&& final(self)@ == (BufferView {
                    layout_width: at_least_one(width_limit),
                    view_offset: first as int,
                    ..old(self)@
                })
            }),
    {
        let ghost before = self@;
        let limit: u16 = positive_width(width_limit);
        let all: Vec<Segment> = self.segments(&measured.lines, limit);
        let row: usize = segment_at_cursor(&all, self.cursor);
        let (first, visible): (usize, usize) = self.window(all.len(), row, max_rows, centered);
        let mut rows: Vec<VisualRow> = Vec::new();
        let mut at: usize = 0;
        while at < visible
            invariant
                at <= visible,
                first + visible <= all.len(),
                *self == *old(self),
                before == self@,
                rows.len() == at,
                forall|i: int|
                    0 <= i < all.len() ==> segment_ok(before.bytes, #[trigger] all@[i]),
                forall|i: int|
                    0 <= i < at ==> (#[trigger] rows@[i])@ == before.row_view(
                        all@[first + i],
                        measured.before@,
                    ),
            decreases visible - at,
        {
            let segment: Segment = all[first + at];
            assert(segment_ok(before.bytes, all@[first + at]));
            let holds: bool = self.cursor >= segment.source_start && self.cursor
                <= segment.source_end && (segment.last || self.cursor < segment.source_end);
            let cursor_column: Option<u16> = if holds {
                Some(self.column_on(segment, &measured.before))
            } else {
                None
            };
            let text: String = crate::strings::slice_text(
                self.text.as_str(),
                segment.start,
                segment.end,
            ).to_owned();
            rows.push(VisualRow { start: segment.start, end: segment.end, text, cursor_column });
            at += 1;
        }
        self.layout_width = limit;
        self.view_offset = first;
        assert(self@ =~= (BufferView { layout_width: limit, view_offset: first as int, ..before }));
        (rows, (first, visible, all.len()))
    }

    /// The first and the number of visible rows.
    fn window(&self, total: usize, row: usize, max_rows: usize, centered: bool) -> (window: (
        usize,
        usize,
    ))
        requires
            row < total,
        ensures
            window.0 == self@.top_row(centered, total as int, row as int, max_rows as int),
            window.1 == (if total < max_rows {
                total
            } else {
                max_rows
            }),
            window.0 + window.1 <= total,
    {
        let visible: usize = if total < max_rows {
            total
        } else {
            max_rows
        };
        let wanted: usize = if self.manual_scroll {
            self.view_offset
        } else if centered {
            if row >= max_rows / 2 {
                row - max_rows / 2
            } else {
                0
            }
        } else if max_rows > 0 {
            if row >= max_rows - 1 {
                row - (max_rows - 1)
            } else {
                0
            }
        } else {
            row
        };
        let first: usize = if wanted > total - visible {
            total - visible
        } else {
            wanted
        };
        (first, visible)
    }

    /// Returns the selected display-column span intersecting a row; `glyphs`
    /// measures the row's logical line.
    pub fn selection_span(&self, row: &VisualRow, glyphs: &Vec<Glyph>) -> (span: Option<(u16, u16)>)
        requires
            self.wf(),
        ensures
            span == self@.selected_columns(row.start as int, row.end as int, glyphs@),
    {
        match self.selection() {
            None => None,
            Some((from, to)) => {
                let start: usize = if from > row.start {
                    from
                } else {
                    row.start
                };
                let end: usize = if to < row.end {
                    to
                } else {
                    row.end
                };
                if start >= end {
                    return None;
                }
                Some(
                    (
                        count_columns(glyphs, row.start, start),
                        count_columns(glyphs, row.start, end),
                    ),
                )
            },
        }
    }

    /// Moves the visible row window without moving the cursor.
    ///
    /// Returns whether the clamped viewport offset changed.
    pub fn scroll_rows(&mut self, delta: i32, width_limit: u16, max_rows: usize, lines: &Vec<Vec<Glyph>>) -> (changed:
        bool)
        requires
            old(self).wf(),
            lines_measured(line_views(lines@), old(self)@.bytes, 0, 0),
        ensures
            final(self).wf(),
            ({
                let all = segments_of(
                    old(self)@.bytes,
                    line_views(lines@),
                    at_least_one(width_limit) as int,
                );
                let room = if all.len() < max_rows {
                    0
                } else {
                    all.len() - max_rows
                };
                let current = old(self)@.first_row(
                    all.len() as int,
                    cursor_row(all, old(self)@.cursor),
                    max_rows as int,
                );
                let next = clamped(current + delta, 0, room);
                &&& changed == (next != current)
                &&& final(self)@ == (BufferView {
                    layout_width: at_least_one(width_limit),
                    view_offset: next,
                    manual_scroll: true,
                    ..old(self)@
                })
            }),
    {
        self.scroll_followed(delta, width_limit, max_rows, lines, false)
    }

    /// Moves the visible row window, which shows the cursor's row centered or
    /// merely in view before its first manual scroll.
    pub(crate) fn scroll_followed(
        &mut self,
        delta: i32,
        width_limit: u16,
        max_rows: usize,
        lines: &Vec<Vec<Glyph>>,
        centered: bool,
    ) -> (changed: bool)
        requires
            old(self).wf(),
            lines_measured(line_views(lines@), old(self)@.bytes, 0, 0),
        ensures
            final(self).wf(),
            ({
                let all = segments_of(
                    old(self)@.bytes,
                    line_views(lines@),
                    at_least_one(width_limit) as int,
                );
                let room = if all.len() < max_rows {
                    0
                } else {
                    all.len() - max_rows
                };
                let current = old(self)@.top_row(
                    centered,
                    all.len() as int,
                    cursor_row(all, old(self)@.cursor),
                    max_rows as int,
                );
                let next = clamped(current + delta, 0, room);
                &&& changed == (next != current)
                &&& final(self)@ == (BufferView {
                    layout_width: at_least_one(width_limit),
                    view_offset: next,
                    manual_scroll: true,
                    ..old(self)@
                })
            }),
    {
        let ghost before = self@;
        let limit: u16 = positive_width(width_limit);
        let all: Vec<Segment> = self.segments(lines, limit);
        let row: usize = segment_at_cursor(&all, self.cursor);
        let (current, visible): (usize, usize) = self.window(all.len(), row, max_rows, centered);
        let room: usize = all.len() - visible;
        let next: usize = if delta >= 0 {
            let down: usize = delta as usize;
            if down > room - current {
                room
            } else {
                current + down
            }
        } else {
            let up: usize = (-(delta as i64)) as usize;
            if up > current {
                0
            } else {
                current - up
            }
        };
        self.layout_width = limit;
        self.view_offset = next;
        self.manual_scroll = true;
        assert(self@ =~= (BufferView {
            layout_width: limit,
            view_offset: next as int,
            manual_scroll: true,
            ..before
        }));
        next != current
    }

    /// Returns the clipped visual row count.
    pub fn visual_height(&mut self, width: u16, max_rows: usize, lines: &Vec<Vec<Glyph>>) -> (height:
        usize)
        requires
            old(self).wf(),
            lines_measured(line_views(lines@), old(self)@.bytes, 0, 0),
        ensures
            final(self).wf(),
            final(self)@ == (BufferView { layout_width: at_least_one(width), ..old(self)@ }),
            height == ({
                let total = segments_of(
                    old(self)@.bytes,
                    line_views(lines@),
                    at_least_one(width) as int,
                ).len();
                if total < max_rows {
                    total as int
                } else {
                    max_rows as int
                }
            }),
    {
        let ghost before = self@;
        let limit: u16 = positive_width(width);
        self.layout_width = limit;
        assert(self@ =~= (BufferView { layout_width: limit, ..before }));
        let total: usize = self.segments(lines, limit).len();
        if total < max_rows {
            total
        } else {
            max_rows
        }
    }

    /// Reports whether the cursor is at the document's visual start.
    pub fn at_visual_start(&self, lines: &Vec<Vec<Glyph>>) -> (yes: bool)
        requires
            self.wf(),
            lines_measured(line_views(lines@), self@.bytes, 0, 0),
        ensures
            yes == (self@.cursor == 0 && cursor_row(
                segments_of(self@.bytes, line_views(lines@), self@.layout_width as int),
                self@.cursor,
            ) == 0),
    {
        self.on_first_row(lines) && self.cursor == 0
    }

    /// Whether the cursor is on the first visual row.
    pub fn on_first_row(&self, lines: &Vec<Vec<Glyph>>) -> (yes: bool)
        requires
            self.wf(),
            lines_measured(line_views(lines@), self@.bytes, 0, 0),
        ensures
            yes == (cursor_row(
                segments_of(self@.bytes, line_views(lines@), self@.layout_width as int),
                self@.cursor,
            ) == 0),
    {
        let rows: Vec<Segment> = self.segments(lines, self.layout_width);
        segment_at_cursor(&rows, self.cursor) == 0
    }

    /// Whether the cursor is on the last visual row.
    pub fn on_last_row(&self, lines: &Vec<Vec<Glyph>>) -> (yes: bool)
        requires
            self.wf(),
            lines_measured(line_views(lines@), self@.bytes, 0, 0),
        ensures
            yes == (cursor_row(
                segments_of(self@.bytes, line_views(lines@), self@.layout_width as int),
                self@.cursor,
            ) + 1 == segments_of(
                self@.bytes,
                line_views(lines@),
                self@.layout_width as int,
            ).len()),
    {
        let rows: Vec<Segment> = self.segments(lines, self.layout_width);
        segment_at_cursor(&rows, self.cursor) + 1 == rows.len()
    }

    /// Reports whether the cursor is at the document's visual end.
    pub fn at_visual_end(&self, lines: &Vec<Vec<Glyph>>) -> (yes: bool)
        requires
            self.wf(),
            lines_measured(line_views(lines@), self@.bytes, 0, 0),
        ensures
            yes == (self@.cursor == self@.bytes.len() && cursor_row(
                segments_of(self@.bytes, line_views(lines@), self@.layout_width as int),
                self@.cursor,
            ) + 1 == segments_of(
                self@.bytes,
                line_views(lines@),
                self@.layout_width as int,
            ).len()),
    {
        self.on_last_row(lines) && self.cursor == byte_len(self.text.as_str())
    }
}

/// Whether a visible row shows its part of the text, stays on one line, and
/// takes at most `limit` columns unless it shows a single cluster.
pub open spec fn row_keeps(buffer: BufferView, row: RowView, glyphs: Seq<Glyph>, limit: int) -> bool {
    &&& 0 <= row.start <= row.end <= buffer.bytes.len()
    &&& row.bytes == buffer.bytes.subrange(row.start, row.end)
    &&& forall|k: int| 0 <= k < row.bytes.len() ==> #[trigger] row.bytes[k] != 10
    &&& columns(glyphs, row.start, row.end) <= limit || exists|k: int|
        0 <= k < glyphs.len() && (#[trigger] glyphs[k]).start == row.start && row.end
            <= glyphs[k].end
}

/// The visible rows are as many as there are and as the window takes. Each
/// shows its part of one line and fits the width, unless it shows a single
/// cluster. They ascend without overlap, and one of them holds the cursor
/// unless the window was scrolled by hand.
pub proof fn visible_rows_fit_and_ascend(
    buffer: BufferView,
    lines: Seq<Seq<Glyph>>,
    before: Seq<Glyph>,
    width_limit: u16,
    max_rows: int,
    centered: bool,
)
    requires
        buffer.wf(),
        valid_utf8(buffer.bytes),
        lines_measured(lines, buffer.bytes, 0, 0),
        buffer.bytes.len() <= usize::MAX,
        lines.len() <= usize::MAX,
        0 <= max_rows,
    ensures
        ({
            let limit = at_least_one(width_limit) as int;
            let all = segments_of(buffer.bytes, lines, limit);
            let total = all.len() as int;
            let first = buffer.top_row(centered, total, cursor_row(all, buffer.cursor), max_rows);
            let visible = if total < max_rows {
                total
            } else {
                max_rows
            };
            &&& 0 <= first && first + visible <= total
            &&& forall|i: int|
                first <= i < first + visible ==> row_keeps(
                    buffer,
                    buffer.row_view(#[trigger] all[i], before),
                    lines[all[i].line as int],
                    limit,
                )
            &&& forall|i: int, j: int|
                first <= i < j < first + visible ==> buffer.row_view(#[trigger] all[i], before).end
                    <= buffer.row_view(#[trigger] all[j], before).start
            &&& max_rows > 0 && !buffer.manual_scroll ==> exists|i: int|
                first <= i < first + visible && buffer.row_view(
                    #[trigger] all[i],
                    before,
                ).cursor_column is Some
        }),
{
    let text = decode_utf8(buffer.bytes);
    decode_utf8_encode_utf8(buffer.bytes);
    ends_are_boundaries(text);
    let limit = at_least_one(width_limit) as int;
    let all = segments_of(buffer.bytes, lines, limit);
    let total = all.len() as int;
    segments_facts(text, lines, 0, 0, limit);
    rows_fit_and_ascend(text, lines, 0, 0, limit);
    let row = every_position_has_a_row(text, lines, 0, 0, limit, buffer.cursor);
    cursor_row_holds(all, buffer.cursor, 0, row);
    let held = cursor_row(all, buffer.cursor);
    let first = buffer.top_row(centered, total, held, max_rows);
    let visible = if total < max_rows {
        total
    } else {
        max_rows
    };
    assert forall|i: int| first <= i < first + visible implies row_keeps(
        buffer,
        buffer.row_view(#[trigger] all[i], before),
        lines[all[i].line as int],
        limit,
    ) by {
        let segment = all[i];
        assert(segment_ok(buffer.bytes, segment));
        assert(stays_on_line(buffer.bytes, segment));
        assert(shows_within(lines[segment.line as int], segment, limit));
        let bytes = buffer.row_view(segment, before).bytes;
        assert forall|k: int| 0 <= k < bytes.len() implies #[trigger] bytes[k] != 10 by {
            assert(bytes[k] == buffer.bytes[segment.start + k]);
        }
    }
    if max_rows > 0 && !buffer.manual_scroll {
        assert(first <= held < first + visible);
        assert(buffer.row_view(all[held], before).cursor_column is Some);
    }
}

} // verus!
