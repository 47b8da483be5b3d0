//! Visual rows of an edited text.
//!
//! The host segments the text into grapheme clusters and measures them; the
//! library breaks the lines and maps between bytes and columns.

use vstd::prelude::*;
use vstd::utf8::*;

use crate::chars::{all_whitespace, is_whitespace, whitespace};
use crate::strings::{
    boundary, boundary_is_char_boundary, byte_len, char_bytes, char_len, chars_of,
    ends_are_boundaries, slice_text, utf8, utf8_of_concat,
};
use crate::wrap::{
    cells_between, chunk_views, held, rows_tile, wrap_glyphs, wrapped, wrapping_tiles_the_line,
    Chunk, ChunkView, GraphemeCell,
};

verus! {

/// One measured grapheme cluster of a text.
#[derive(Clone, Copy, Debug, PartialEq, Eq, Structural)]
pub struct Glyph {
    /// Byte offset of the cluster.
    pub start: usize,
    /// Byte offset behind the cluster.
    pub end: usize,
    /// Cells it takes.
    pub width: u16,
}

/// What the host measured of a text around a cursor.
pub struct Measured {
    /// The clusters of the text before the cursor.
    pub before: Vec<Glyph>,
    /// The clusters of the text behind the cursor.
    pub after: Vec<Glyph>,
    /// The clusters of each logical line.
    pub lines: Vec<Vec<Glyph>>,
}

/// Whether the glyphs cover the bytes from `from` up to `to`, one after the
/// other, each cut at character boundaries.
pub open spec fn tiles(glyphs: Seq<Glyph>, bytes: Seq<u8>, from: int, to: int) -> bool {
    &&& 0 <= from <= to <= bytes.len()
    &&& glyphs.len() == 0 ==> from == to
    &&& glyphs.len() > 0 ==> glyphs[0].start == from && glyphs.last().end == to
    &&& forall|i: int|
        0 <= i < glyphs.len() ==> {
            let glyph = #[trigger] glyphs[i];
            &&& glyph.start < glyph.end
            &&& boundary(bytes, glyph.start as int)
            &&& boundary(bytes, glyph.end as int)
        }
    &&& forall|i: int, j: int|
        0 <= i && j == i + 1 && j < glyphs.len() ==> (#[trigger] glyphs[i]).end == (
        #[trigger] glyphs[j]).start
}

/// The first line feed at or behind `at`, or the end of the bytes.
pub open spec fn line_end(bytes: Seq<u8>, at: int) -> int
    decreases bytes.len() - at,
{
    if at >= bytes.len() {
        bytes.len() as int
    } else if bytes[at] == 10 {
        at
    } else {
        line_end(bytes, at + 1)
    }
}

/// Start of the line that holds `at`.
pub open spec fn line_start(bytes: Seq<u8>, at: int) -> int
    decreases at,
{
    if at <= 0 {
        0
    } else if bytes[at - 1] == 10 {
        at
    } else {
        line_start(bytes, at - 1)
    }
}

/// The views of measured lines.
pub open spec fn line_views(lines: Seq<Vec<Glyph>>) -> Seq<Seq<Glyph>> {
    lines.map_values(|line: Vec<Glyph>| line@)
}

/// Whether `lines` from `line` on measure the logical lines from byte `from` on.
pub open spec fn lines_measured(
    lines: Seq<Seq<Glyph>>,
    bytes: Seq<u8>,
    line: int,
    from: int,
) -> bool
    decreases bytes.len() - from,
{
    let end = line_end(bytes, from);
    if from < 0 || from > bytes.len() || end < from || end > bytes.len() {
        false
    } else {
        &&& 0 <= line < lines.len()
        &&& tiles(lines[line], bytes, from, end)
        &&& if end == bytes.len() {
            line + 1 == lines.len()
        } else {
            lines_measured(lines, bytes, line + 1, end + 1)
        }
    }
}

impl Measured {
    /// Whether this was measured of the given text and cursor.
    pub open spec fn measures(self, bytes: Seq<u8>, cursor: int) -> bool {
        &&& tiles(self.before@, bytes, 0, cursor)
        &&& tiles(self.after@, bytes, cursor, bytes.len() as int)
        &&& lines_measured(line_views(self.lines@), bytes, 0, 0)
    }
}

/// The characters between two boundaries.
pub open spec fn part(bytes: Seq<u8>, from: int, to: int) -> Seq<char> {
    decode_utf8(bytes.subrange(from, to))
}

/// The text without trailing whitespace.
pub open spec fn trimmed(text: Seq<char>) -> Seq<char>
    decreases text.len(),
{
    if text.len() > 0 && whitespace(text.last()) {
        trimmed(text.drop_last())
    } else {
        text
    }
}

/// Where the text from `from` up to `to` ends without its trailing whitespace.
pub open spec fn trimmed_end(bytes: Seq<u8>, from: int, to: int) -> int {
    from + utf8(trimmed(part(bytes, from, to))).len()
}

/// The glyphs of a line, classified.
pub open spec fn classified(bytes: Seq<u8>, glyphs: Seq<Glyph>) -> Seq<GraphemeCell> {
    Seq::new(
        glyphs.len(),
        |i: int|
            GraphemeCell {
                start: glyphs[i].start,
                end: glyphs[i].end,
                width: glyphs[i].width,
                whitespace: all_whitespace(
                    part(bytes, glyphs[i].start as int, glyphs[i].end as int),
                ),
            },
    )
}

/// One visual row: the bytes it owns, including whitespace hidden at a wrap,
/// and the bytes it shows.
#[derive(Clone, Copy, Debug, PartialEq, Eq, Structural)]
pub struct Segment {
    /// The logical line it belongs to.
    pub line: usize,
    /// First byte owned.
    pub source_start: usize,
    /// Byte behind the last one owned.
    pub source_end: usize,
    /// First byte shown.
    pub start: usize,
    /// Byte behind the last one shown.
    pub end: usize,
    /// Whether it is the last row of its line.
    pub last: bool,
}

/// Byte offset of glyph `at` of a line that ends at `to`.
pub open spec fn glyph_offset(glyphs: Seq<Glyph>, at: int, to: int) -> int {
    if at < glyphs.len() {
        glyphs[at].start as int
    } else {
        to
    }
}

/// The visual row that shows `row` of a line.
pub open spec fn row_segment(
    bytes: Seq<u8>,
    glyphs: Seq<Glyph>,
    line: int,
    to: int,
    row: ChunkView,
    last: bool,
) -> Segment {
    let start = glyph_offset(glyphs, row.start, to);
    Segment {
        line: line as usize,
        source_start: glyph_offset(glyphs, row.source_start, to) as usize,
        source_end: glyph_offset(glyphs, row.source_end, to) as usize,
        start: start as usize,
        end: trimmed_end(bytes, start, glyph_offset(glyphs, row.end, to)) as usize,
        last,
    }
}

/// The visual rows of one logical line.
pub open spec fn line_segments(
    bytes: Seq<u8>,
    glyphs: Seq<Glyph>,
    line: int,
    from: int,
    to: int,
    limit: int,
) -> Seq<Segment> {
    if from == to {
        seq![
            Segment {
                line: line as usize,
                source_start: from as usize,
                source_end: to as usize,
                start: from as usize,
                end: to as usize,
                last: true,
            },
        ]
    } else {
        let rows = wrapped(classified(bytes, glyphs), limit);
        Seq::new(
            rows.len(),
            |i: int| row_segment(bytes, glyphs, line, to, rows[i], i + 1 == rows.len()),
        )
    }
}

/// The visual rows from logical line `line`, which starts at byte `from`, on.
pub open spec fn segments_from(
    bytes: Seq<u8>,
    lines: Seq<Seq<Glyph>>,
    line: int,
    from: int,
    limit: int,
) -> Seq<Segment>
    decreases bytes.len() - from,
{
    let end = line_end(bytes, from);
    if from < 0 || from > bytes.len() || end < from || end > bytes.len() {
        Seq::empty()
    } else {
        let here = line_segments(bytes, lines[line], line, from, end, limit);
        if end == bytes.len() {
            here
        } else {
            here + segments_from(bytes, lines, line + 1, end + 1, limit)
        }
    }
}

/// The visual rows of a text.
pub open spec fn segments_of(bytes: Seq<u8>, lines: Seq<Seq<Glyph>>, limit: int) -> Seq<Segment> {
    segments_from(bytes, lines, 0, 0, limit)
}

/// Whether a row holds the cursor: a row holds the position behind its last
/// byte only at the end of its line.
pub open spec fn holds_cursor(segment: Segment, cursor: int) -> bool {
    segment.source_start <= cursor && (cursor < segment.source_end || segment.last && cursor
        == segment.source_end)
}

/// The first row at or behind `at` that holds the cursor, else the last row.
pub open spec fn cursor_row_from(segments: Seq<Segment>, cursor: int, at: int) -> int
    decreases segments.len() - at,
{
    if at >= segments.len() {
        segments.len() - 1
    } else if holds_cursor(segments[at], cursor) {
        at
    } else {
        cursor_row_from(segments, cursor, at + 1)
    }
}

/// The row that holds the cursor.
pub open spec fn cursor_row(segments: Seq<Segment>, cursor: int) -> int {
    cursor_row_from(segments, cursor, 0)
}

/// Whether a glyph starts between two offsets.
pub open spec fn between(glyph: Glyph, from: int, to: int) -> bool {
    from <= glyph.start < to
}

/// Cells of the glyphs between two offsets.
pub open spec fn cells_within(glyphs: Seq<Glyph>, from: int, to: int) -> nat
    decreases glyphs.len(),
{
    if glyphs.len() == 0 {
        0
    } else {
        cells_within(glyphs.drop_last(), from, to) + (if between(glyphs.last(), from, to) {
            glyphs.last().width as nat
        } else {
            0
        })
    }
}

/// Columns between two offsets of a line.
pub open spec fn columns(glyphs: Seq<Glyph>, from: int, to: int) -> u16 {
    held(cells_within(glyphs, from, to) as int) as u16
}

/// The offset at which the glyphs from position `at` on, between two offsets,
/// exceed `room` cells.
pub open spec fn offset_at_column(
    glyphs: Seq<Glyph>,
    at: int,
    from: int,
    to: int,
    room: int,
) -> int
    decreases glyphs.len() - at,
{
    if at >= glyphs.len() {
        to
    } else if !between(glyphs[at], from, to) {
        offset_at_column(glyphs, at + 1, from, to, room)
    } else if glyphs[at].width > room {
        glyphs[at].start as int
    } else {
        offset_at_column(glyphs, at + 1, from, to, room - glyphs[at].width)
    }
}

/// The last glyph between two offsets.
pub open spec fn last_between(glyphs: Seq<Glyph>, from: int, to: int) -> Option<Glyph>
    decreases glyphs.len(),
{
    if glyphs.len() == 0 {
        None
    } else if between(glyphs.last(), from, to) {
        Some(glyphs.last())
    } else {
        last_between(glyphs.drop_last(), from, to)
    }
}

/// The largest column that a cursor on a row may take: on the last row of a
/// line behind its last glyph, else on it.
pub open spec fn max_column(glyphs: Seq<Glyph>, segment: Segment) -> u16 {
    let width = columns(glyphs, segment.start as int, segment.end as int);
    if segment.last {
        width
    } else {
        match last_between(glyphs, segment.start as int, segment.end as int) {
            Some(glyph) => crate::geometry::sat_sub(width, glyph.width),
            None => 0,
        }
    }
}

/// Where a line ends.
pub proof fn line_end_facts(bytes: Seq<u8>, at: int)
    requires
        0 <= at <= bytes.len(),
    ensures
        at <= line_end(bytes, at) <= bytes.len(),
        line_end(bytes, at) < bytes.len() ==> bytes[line_end(bytes, at)] == 10,
        forall|i: int| at <= i < line_end(bytes, at) ==> bytes[i] != 10,
    decreases bytes.len() - at,
{
    if at < bytes.len() && bytes[at] != 10 {
        line_end_facts(bytes, at + 1);
    }
}

/// Where a line starts.
pub proof fn line_start_facts(bytes: Seq<u8>, at: int)
    requires
        0 <= at <= bytes.len(),
    ensures
        0 <= line_start(bytes, at) <= at,
        line_start(bytes, at) > 0 ==> bytes[line_start(bytes, at) - 1] == 10,
        forall|i: int| line_start(bytes, at) <= i < at ==> bytes[i] != 10,
    decreases at,
{
    if at > 0 && bytes[at - 1] != 10 {
        line_start_facts(bytes, at - 1);
    }
}

/// Glyphs that tile a range stand inside it, in order.
pub proof fn tiles_order(glyphs: Seq<Glyph>, bytes: Seq<u8>, from: int, to: int, i: int, j: int)
    requires
        tiles(glyphs, bytes, from, to),
        0 <= i <= j < glyphs.len(),
    ensures
        from <= glyphs[i].start <= glyphs[j].start,
        glyphs[i].end <= glyphs[j].end <= to,
        i < j ==> glyphs[i].end <= glyphs[j].start,
    decreases j - i, j, glyphs.len() - j,
{
    if i < j {
        tiles_order(glyphs, bytes, from, to, i, j - 1);
        assert(glyphs[j - 1].end == glyphs[j].start);
    } else {
        tiles_low(glyphs, bytes, from, to, i);
        tiles_high(glyphs, bytes, from, to, i);
    }
    tiles_high(glyphs, bytes, from, to, j);
}

proof fn tiles_low(glyphs: Seq<Glyph>, bytes: Seq<u8>, from: int, to: int, i: int)
    requires
        tiles(glyphs, bytes, from, to),
        0 <= i < glyphs.len(),
    ensures
        from <= glyphs[i].start,
    decreases i,
{
    if i > 0 {
        tiles_low(glyphs, bytes, from, to, i - 1);
        assert(glyphs[i - 1].end == glyphs[i].start);
    }
}

proof fn tiles_high(glyphs: Seq<Glyph>, bytes: Seq<u8>, from: int, to: int, i: int)
    requires
        tiles(glyphs, bytes, from, to),
        0 <= i < glyphs.len(),
    ensures
        glyphs[i].end <= to,
    decreases glyphs.len() - i,
{
    if i + 1 < glyphs.len() {
        tiles_high(glyphs, bytes, from, to, i + 1);
        assert(glyphs[i].end == glyphs[i + 1].start);
    }
}

/// The offset of a glyph position is a boundary inside the line.
pub proof fn glyph_offset_facts(glyphs: Seq<Glyph>, bytes: Seq<u8>, from: int, to: int, at: int)
    requires
        tiles(glyphs, bytes, from, to),
        boundary(bytes, to),
        0 <= at <= glyphs.len(),
    ensures
        from <= glyph_offset(glyphs, at, to) <= to,
        boundary(bytes, glyph_offset(glyphs, at, to)),
{
    if at < glyphs.len() {
        tiles_order(glyphs, bytes, from, to, at, at);
    }
}

/// Trimming shortens, and keeps a boundary.
pub proof fn trimmed_facts(text: Seq<char>)
    ensures
        exists|tail: Seq<char>| #[trigger] (trimmed(text) + tail) == text,
        utf8(trimmed(text)).len() <= utf8(text).len(),
    decreases text.len(),
{
    if text.len() > 0 && whitespace(text.last()) {
        trimmed_facts(text.drop_last());
        let tail = choose|tail: Seq<char>| #[trigger] (trimmed(text.drop_last()) + tail)
            == text.drop_last();
        let all = tail.push(text.last());
        assert(trimmed(text) == trimmed(text.drop_last()));
        assert(trimmed(text) + all =~= (trimmed(text.drop_last()) + tail).push(text.last()));
        assert(text.drop_last().push(text.last()) =~= text);
        assert(trimmed(text) + all == text);
        utf8_of_concat(trimmed(text), all);
    } else {
        assert(trimmed(text) == text);
        assert(trimmed(text) + Seq::<char>::empty() =~= text);
    }
}

/// A part of a text is a text, with the bytes it was cut from.
pub proof fn part_bytes(text: Seq<char>, from: int, to: int)
    requires
        0 <= from <= to <= utf8(text).len(),
        boundary(utf8(text), from),
        boundary(utf8(text), to),
    ensures
        utf8(part(utf8(text), from, to)) == utf8(text).subrange(from, to),
{
    let bytes = utf8(text);
    encode_utf8_valid_utf8(text);
    boundary_is_char_boundary(text, from);
    boundary_is_char_boundary(text, to);
    valid_utf8_split(bytes, to);
    let head = bytes.subrange(0, to);
    assert(valid_utf8(head));
    assert(is_char_boundary(head, from)) by {
        is_char_boundary_start_end_of_seq(head);
        if from < to {
            is_char_boundary_iff_not_is_continuation_byte(head, from);
        }
    }
    valid_utf8_split(head, from);
    assert(head.subrange(from, head.len() as int) =~= bytes.subrange(from, to));
    decode_utf8_encode_utf8(bytes.subrange(from, to));
}

/// A trimmed end is a boundary between the ends of the part.
pub proof fn trimmed_end_facts(text: Seq<char>, from: int, to: int)
    requires
        0 <= from <= to <= utf8(text).len(),
        boundary(utf8(text), from),
        boundary(utf8(text), to),
    ensures
        from <= trimmed_end(utf8(text), from, to) <= to,
        boundary(utf8(text), trimmed_end(utf8(text), from, to)),
{
    let bytes = utf8(text);
    let piece = part(bytes, from, to);
    part_bytes(text, from, to);
    trimmed_facts(piece);
    let tail = choose|tail: Seq<char>| #[trigger] (trimmed(piece) + tail) == piece;
    utf8_of_concat(trimmed(piece), tail);
    let end = trimmed_end(bytes, from, to);
    ends_are_boundaries(tail);
    if end < to {
        assert(bytes.subrange(from, to)[end - from] == bytes[end]);
        assert(utf8(tail).len() > 0);
        assert(utf8(piece)[end - from] == utf8(tail)[0]);
    }
}

/// Whether every character of `text` is whitespace.
pub fn is_all_whitespace(text: &str) -> (yes: bool)
    ensures
        yes == all_whitespace(text@),
{
    for c in iter: text.chars()
        invariant
            iter.seq() == text@,
            forall|i: int| 0 <= i < iter.index() ==> #[trigger] whitespace(text@[i]),
    {
        if !is_whitespace(c) {
            assert(!whitespace(text@[iter.index() as int]));
            return false;
        }
    }
    true
}

/// The part of a text between two boundaries, as characters.
pub fn cut_part(text: &str, from: usize, to: usize) -> (piece: &str)
    requires
        from <= to,
        boundary(utf8(text@), from as int),
        boundary(utf8(text@), to as int),
    ensures
        piece@ == part(utf8(text@), from as int, to as int),
        utf8(piece@) == utf8(text@).subrange(from as int, to as int),
{
    let piece: &str = slice_text(text, from, to);
    proof {
        encode_utf8_decode_utf8(piece@);
    }
    piece
}

/// Where the text from `from` up to `to` ends without its trailing whitespace.
pub fn find_trimmed_end(text: &str, from: usize, to: usize) -> (end: usize)
    requires
        from <= to,
        boundary(utf8(text@), from as int),
        boundary(utf8(text@), to as int),
    ensures
        end == trimmed_end(utf8(text@), from as int, to as int),
        from <= end <= to,
        boundary(utf8(text@), end as int),
{
    let piece: &str = cut_part(text, from, to);
    let chars: Vec<char> = chars_of(piece);
    proof {
        trimmed_end_facts(text@, from as int, to as int);
    }
    let mut count: usize = chars.len();
    let mut end: usize = to;
    assert(chars@.take(count as int) =~= chars@);
    while count > 0 && is_whitespace(chars[count - 1])
        invariant
            count <= chars.len(),
            trimmed(chars@) == trimmed(chars@.take(count as int)),
            end == from + utf8(chars@.take(count as int)).len(),
        decreases count,
    {
        proof {
            let now = chars@.take(count as int);
            assert(now.last() == chars@[count - 1]);
            assert(now.drop_last() =~= chars@.take(count - 1));
            utf8_of_last(now);
        }
        end -= char_len(chars[count - 1]);
        count -= 1;
    }
    proof {
        let now = chars@.take(count as int);
        if count > 0 {
            assert(now.last() == chars@[count - 1]);
        }
        assert(trimmed(now) == now);
    }
    end
}

/// The last character ends the bytes of a text.
pub proof fn utf8_of_last(text: Seq<char>)
    requires
        text.len() > 0,
    ensures
        utf8(text).len() == utf8(text.drop_last()).len() + char_bytes(text.last()),
{
    let last = seq![text.last()];
    assert(text =~= text.drop_last() + last);
    utf8_of_concat(text.drop_last(), last);
    assert(last.drop_first() =~= Seq::<char>::empty());
    assert(utf8(last.drop_first()) =~= Seq::<u8>::empty());
    assert(utf8(last) =~= encode_scalar(text.last() as u32));
}

/// What holds of every visual row: it shows a part of what it owns, cut at
/// boundaries.
pub open spec fn segment_ok(bytes: Seq<u8>, segment: Segment) -> bool {
    &&& segment.source_start <= segment.start <= segment.end <= segment.source_end <= bytes.len()
    &&& boundary(bytes, segment.source_start as int)
    &&& boundary(bytes, segment.source_end as int)
    &&& boundary(bytes, segment.start as int)
    &&& boundary(bytes, segment.end as int)
}

/// Whether rows own the bytes from `from` up to `to` one after the other, the
/// last one being the last of its line.
pub open spec fn segments_tile(segments: Seq<Segment>, from: int, to: int) -> bool {
    &&& segments.len() > 0
    &&& segments[0].source_start == from
    &&& segments.last().source_end == to
    &&& segments.last().last
    &&& forall|i: int|
        0 <= i < segments.len() ==> (#[trigger] segments[i]).source_start
            <= segments[i].source_end
    &&& forall|i: int, j: int|
        0 <= i && j == i + 1 && j < segments.len() ==> (#[trigger] segments[i]).source_end == (
        #[trigger] segments[j]).source_start
}

/// The rows of a line own all of its bytes.
pub proof fn line_segments_facts(
    text: Seq<char>,
    glyphs: Seq<Glyph>,
    line: int,
    from: int,
    to: int,
    limit: int,
)
    requires
        tiles(glyphs, utf8(text), from, to),
        boundary(utf8(text), from),
        boundary(utf8(text), to),
        utf8(text).len() <= usize::MAX,
        1 <= limit <= 65535,
    ensures
        segments_tile(line_segments(utf8(text), glyphs, line, from, to, limit), from, to),
        forall|i: int|
            0 <= i < line_segments(utf8(text), glyphs, line, from, to, limit).len() ==> segment_ok(
                utf8(text),
                #[trigger] line_segments(utf8(text), glyphs, line, from, to, limit)[i],
            ),
{
    let bytes = utf8(text);
    let segments = line_segments(bytes, glyphs, line, from, to, limit);
    if from < to {
        let cells = classified(bytes, glyphs);
        let rows = wrapped(cells, limit);
        wrapping_tiles_the_line(cells, limit);
        assert forall|i: int| 0 <= i < segments.len() implies {
            &&& segment_ok(bytes, #[trigger] segments[i])
            &&& segments[i].source_start == glyph_offset(glyphs, rows[i].source_start, to)
            &&& segments[i].source_end == glyph_offset(glyphs, rows[i].source_end, to)
        } by {
            let row = rows[i];
            assert(segments[i] == row_segment(
                bytes,
                glyphs,
                line,
                to,
                row,
                i + 1 == rows.len(),
            ));
            glyph_offset_facts(glyphs, bytes, from, to, row.source_start);
            glyph_offset_facts(glyphs, bytes, from, to, row.source_end);
            glyph_offset_facts(glyphs, bytes, from, to, row.start);
            glyph_offset_facts(glyphs, bytes, from, to, row.end);
            offsets_rise(glyphs, bytes, from, to, row.source_start, row.start);
            offsets_rise(glyphs, bytes, from, to, row.start, row.end);
            offsets_rise(glyphs, bytes, from, to, row.end, row.source_end);
            trimmed_end_facts(
                text,
                glyph_offset(glyphs, row.start, to),
                glyph_offset(glyphs, row.end, to),
            );
        }
        assert(segments[0].source_start == from);
        assert(segments[segments.len() - 1].source_end == to);
        assert forall|i: int, j: int|
            0 <= i && j == i + 1 && j < segments.len() implies (#[trigger] segments[i]).source_end
            == (#[trigger] segments[j]).source_start by {
            assert(rows[i].source_end == rows[j].source_start);
        }
    }
}

proof fn offsets_rise(glyphs: Seq<Glyph>, bytes: Seq<u8>, from: int, to: int, a: int, b: int)
    requires
        tiles(glyphs, bytes, from, to),
        0 <= a <= b <= glyphs.len(),
    ensures
        glyph_offset(glyphs, a, to) <= glyph_offset(glyphs, b, to),
{
    if b < glyphs.len() {
        tiles_order(glyphs, bytes, from, to, a, b);
    } else if a < glyphs.len() {
        tiles_order(glyphs, bytes, from, to, a, a);
    }
}

/// Breaks one logical line into visual rows.
pub fn wrap_logical_line(
    text: &str,
    glyphs: &Vec<Glyph>,
    line: usize,
    from: usize,
    to: usize,
    limit: u16,
) -> (segments: Vec<Segment>)
    requires
        tiles(glyphs@, utf8(text@), from as int, to as int),
        boundary(utf8(text@), from as int),
        boundary(utf8(text@), to as int),
        1 <= limit,
    ensures
        segments@ == line_segments(
            utf8(text@),
            glyphs@,
            line as int,
            from as int,
            to as int,
            limit as int,
        ),
{
    let ghost bytes = utf8(text@);
    let length: usize = byte_len(text);
    let mut segments: Vec<Segment> = Vec::new();
    if from == to {
        segments.push(
            Segment { line, source_start: from, source_end: to, start: from, end: to, last: true },
        );
        return segments;
    }
    let mut cells: Vec<GraphemeCell> = Vec::new();
    let mut at: usize = 0;
    while at < glyphs.len()
        invariant
            at <= glyphs.len(),
            bytes == utf8(text@),
            tiles(glyphs@, bytes, from as int, to as int),
            cells.len() == at,
            forall|i: int| 0 <= i < at ==> cells@[i] == classified(bytes, glyphs@)[i],
        decreases glyphs.len() - at,
    {
        let glyph: Glyph = glyphs[at];
        let piece: &str = cut_part(text, glyph.start, glyph.end);
        let whitespace: bool = is_all_whitespace(piece);
        cells.push(
            GraphemeCell { start: glyph.start, end: glyph.end, width: glyph.width, whitespace },
        );
        at += 1;
    }
    assert(cells@ =~= classified(bytes, glyphs@));
    let rows: Vec<Chunk> = wrap_glyphs(&cells, limit);
    let ghost goal = line_segments(
        bytes,
        glyphs@,
        line as int,
        from as int,
        to as int,
        limit as int,
    );
    let mut row: usize = 0;
    while row < rows.len()
        invariant
            row <= rows.len(),
            bytes == utf8(text@),
            length == bytes.len(),
            tiles(glyphs@, bytes, from as int, to as int),
            boundary(bytes, from as int),
            boundary(bytes, to as int),
            from < to,
            1 <= limit,
            chunk_views(rows@) == wrapped(classified(bytes, glyphs@), limit as int),
            rows_tile(chunk_views(rows@), glyphs.len() as int),
            goal == line_segments(
                bytes,
                glyphs@,
                line as int,
                from as int,
                to as int,
                limit as int,
            ),
            segments.len() == row,
            forall|i: int| 0 <= i < row ==> segments@[i] == goal[i],
        decreases rows.len() - row,
    {
        let chunk: Chunk = rows[row];
        proof {
            assert(chunk_views(rows@)[row as int] == chunk@);
            glyph_offset_facts(glyphs@, bytes, from as int, to as int, chunk.source_start as int);
            glyph_offset_facts(glyphs@, bytes, from as int, to as int, chunk.source_end as int);
            glyph_offset_facts(glyphs@, bytes, from as int, to as int, chunk.start as int);
            glyph_offset_facts(glyphs@, bytes, from as int, to as int, chunk.end as int);
            offsets_rise(
                glyphs@,
                bytes,
                from as int,
                to as int,
                chunk.start as int,
                chunk.end as int,
            );
        }
        let start: usize = find_offset(glyphs, chunk.start, to);
        let end: usize = find_trimmed_end(text, start, find_offset(glyphs, chunk.end, to));
        segments.push(
            Segment {
                line,
                source_start: find_offset(glyphs, chunk.source_start, to),
                source_end: find_offset(glyphs, chunk.source_end, to),
                start,
                end,
                last: row + 1 == rows.len(),
            },
        );
        row += 1;
    }
    assert(segments@ =~= goal);
    segments
}

/// Byte offset of glyph `at` of a line that ends at `to`.
fn find_offset(glyphs: &Vec<Glyph>, at: usize, to: usize) -> (offset: usize)
    ensures
        offset == glyph_offset(glyphs@, at as int, to as int),
{
    if at < glyphs.len() {
        glyphs[at].start
    } else {
        to
    }
}

/// Byte offset of the first line feed at or behind `at`, or the end.
pub fn find_line_end(text: &str, at: usize) -> (end: usize)
    requires
        at <= utf8(text@).len(),
    ensures
        end == line_end(utf8(text@), at as int),
        at <= end <= utf8(text@).len(),
{
    let bytes: &[u8] = text.as_bytes();
    proof {
        line_end_facts(utf8(text@), at as int);
    }
    let mut end: usize = at;
    while end < bytes.len() && bytes[end] != 10
        invariant
            at <= end <= bytes.len(),
            bytes@ == utf8(text@),
            line_end(utf8(text@), at as int) == line_end(utf8(text@), end as int),
        decreases bytes.len() - end,
    {
        end += 1;
    }
    end
}

/// Byte offset of the start of the line that holds `at`.
pub fn find_line_start(text: &str, at: usize) -> (start: usize)
    requires
        at <= utf8(text@).len(),
    ensures
        start == line_start(utf8(text@), at as int),
        start <= at,
{
    let bytes: &[u8] = text.as_bytes();
    proof {
        line_start_facts(utf8(text@), at as int);
    }
    let mut start: usize = at;
    while start > 0 && bytes[start - 1] != 10
        invariant
            start <= at <= bytes.len(),
            bytes@ == utf8(text@),
            line_start(utf8(text@), at as int) == line_start(utf8(text@), start as int),
        decreases start,
    {
        start -= 1;
    }
    start
}

/// Line feeds and the positions behind them are boundaries.
pub proof fn line_feed_boundaries(text: Seq<char>, at: int)
    requires
        0 <= at < utf8(text).len(),
        utf8(text)[at] == 10,
    ensures
        boundary(utf8(text), at),
        boundary(utf8(text), at + 1),
{
    let bytes = utf8(text);
    encode_utf8_valid_utf8(text);
    assert(!is_continuation_byte(bytes[at]));
    ascii_then_boundary(bytes, at);
}

/// A character starts right behind an ASCII byte.
pub proof fn ascii_then_boundary(bytes: Seq<u8>, at: int)
    requires
        valid_utf8(bytes),
        0 <= at < bytes.len(),
        bytes[at] <= 0x7f,
    ensures
        boundary(bytes, at + 1),
    decreases bytes.len(),
{
    let first = length_of_first_scalar(bytes);
    if at < first {
        if at > 0 {
            assert(is_continuation_byte(bytes[at]));
        }
        assert(at == 0 && first == 1);
        let rest = pop_first_scalar(bytes);
        if rest.len() > 0 {
            is_char_boundary_start_end_of_seq(rest);
            is_char_boundary_iff_not_is_continuation_byte(rest, 0);
            assert(rest[0] == bytes[1]);
        }
    } else {
        let rest = pop_first_scalar(bytes);
        assert(rest[at - first] == bytes[at]);
        ascii_then_boundary(rest, at - first);
        if at + 1 < bytes.len() {
            assert(rest[at + 1 - first] == bytes[at + 1]);
        }
    }
}

/// Line ends are boundaries.
pub proof fn line_end_is_boundary(text: Seq<char>, at: int)
    requires
        0 <= at <= utf8(text).len(),
    ensures
        boundary(utf8(text), line_end(utf8(text), at)),
        line_end(utf8(text), at) < utf8(text).len() ==> boundary(
            utf8(text),
            line_end(utf8(text), at) + 1,
        ),
{
    line_end_facts(utf8(text), at);
    ends_are_boundaries(text);
    if line_end(utf8(text), at) < utf8(text).len() {
        line_feed_boundaries(text, line_end(utf8(text), at));
    }
}

/// Line starts are boundaries.
pub proof fn line_start_is_boundary(text: Seq<char>, at: int)
    requires
        0 <= at <= utf8(text).len(),
    ensures
        boundary(utf8(text), line_start(utf8(text), at)),
{
    line_start_facts(utf8(text), at);
    ends_are_boundaries(text);
    if line_start(utf8(text), at) > 0 {
        line_feed_boundaries(text, line_start(utf8(text), at) - 1);
    }
}

/// The visual rows of a text.
pub fn segments(text: &str, lines: &Vec<Vec<Glyph>>, limit: u16) -> (rows: Vec<Segment>)
    requires
        lines_measured(line_views(lines@), utf8(text@), 0, 0),
        1 <= limit,
    ensures
        rows@ == segments_of(utf8(text@), line_views(lines@), limit as int),
{
    let ghost bytes = utf8(text@);
    let ghost views = line_views(lines@);
    let length: usize = byte_len(text);
    let mut rows: Vec<Segment> = Vec::new();
    let mut line: usize = 0;
    let mut from: usize = 0;
    proof {
        ends_are_boundaries(text@);
        assert(rows@ + segments_from(bytes, views, 0, 0, limit as int) =~= segments_from(
            bytes,
            views,
            0,
            0,
            limit as int,
        ));
    }
    loop
        invariant_except_break
            bytes == utf8(text@),
            views == line_views(lines@),
            length == bytes.len(),
            line <= length,
            line <= from <= length,
            boundary(bytes, from as int),
            1 <= limit,
            lines_measured(views, bytes, line as int, from as int),
            segments_of(bytes, views, limit as int) == rows@ + segments_from(
                bytes,
                views,
                line as int,
                from as int,
                limit as int,
            ),
        ensures
            rows@ == segments_of(bytes, views, limit as int),
        decreases length - from,
    {
        let end: usize = find_line_end(text, from);
        proof {
            line_end_is_boundary(text@, from as int);
            assert(views[line as int] == lines@[line as int]@);
        }
        let ghost before = rows@;
        let mut here: Vec<Segment> = wrap_logical_line(text, &lines[line], line, from, end, limit);
        rows.append(&mut here);
        if end == length {
            break;
        }
        proof {
            let tail = segments_from(bytes, views, line + 1, end + 1, limit as int);
            assert(before + (line_segments(
                bytes,
                views[line as int],
                line as int,
                from as int,
                end as int,
                limit as int,
            ) + tail) =~= rows@ + tail);
        }
        line += 1;
        from = end + 1;
    }
    rows
}

/// Every visual row of a text is well cut, there is at least one, and each
/// belongs to a measured line that tiles what the row owns.
pub proof fn segments_facts(
    text: Seq<char>,
    lines: Seq<Seq<Glyph>>,
    line: int,
    from: int,
    limit: int,
)
    requires
        lines_measured(lines, utf8(text), line, from),
        boundary(utf8(text), from),
        utf8(text).len() <= usize::MAX,
        lines.len() <= usize::MAX,
        1 <= limit <= 65535,
        0 <= line,
    ensures
        segments_from(utf8(text), lines, line, from, limit).len() > 0,
        forall|i: int|
            0 <= i < segments_from(utf8(text), lines, line, from, limit).len() ==> {
                let segment = #[trigger] segments_from(utf8(text), lines, line, from, limit)[i];
                &&& segment_ok(utf8(text), segment)
                &&& line <= segment.line < lines.len()
                &&& from <= segment.source_start
            },
    decreases utf8(text).len() - from,
{
    let bytes = utf8(text);
    let end = line_end(bytes, from);
    let all = segments_from(bytes, lines, line, from, limit);
    line_end_is_boundary(text, from);
    line_segments_facts(text, lines[line], line, from, end, limit);
    let here = line_segments(bytes, lines[line], line, from, end, limit);
    assert forall|i: int| 0 <= i < here.len() implies from <= (#[trigger] here[i]).source_start by {
        segments_tile_low(here, from, end, i);
    }
    if end < bytes.len() {
        segments_facts(text, lines, line + 1, end + 1, limit);
        let rest = segments_from(bytes, lines, line + 1, end + 1, limit);
        assert(all == here + rest);
        assert forall|i: int| 0 <= i < all.len() implies {
            let segment = #[trigger] all[i];
            &&& segment_ok(bytes, segment)
            &&& line <= segment.line < lines.len()
            &&& from <= segment.source_start
        } by {
            if i < here.len() {
                assert(all[i] == here[i]);
            } else {
                assert(all[i] == rest[i - here.len()]);
            }
        }
    }
}

proof fn segments_tile_low(segments: Seq<Segment>, from: int, to: int, i: int)
    requires
        segments_tile(segments, from, to),
        0 <= i < segments.len(),
    ensures
        from <= segments[i].source_start,
    decreases i,
{
    if i > 0 {
        segments_tile_low(segments, from, to, i - 1);
        assert(segments[i - 1].source_end == segments[i].source_start);
    }
}

/// Every position of a tiled range is held by one of its rows.
proof fn tiled_rows_hold(segments: Seq<Segment>, from: int, to: int, cursor: int) -> (row: int)
    requires
        segments_tile(segments, from, to),
        from <= cursor <= to,
    ensures
        0 <= row < segments.len(),
        holds_cursor(segments[row], cursor),
    decreases segments.len(),
{
    let last = segments.len() - 1;
    if cursor >= segments[last].source_start {
        last
    } else {
        assert(last > 0);
        find_holding(segments, from, to, cursor, last - 1)
    }
}

proof fn find_holding(segments: Seq<Segment>, from: int, to: int, cursor: int, at: int) -> (row: int)
    requires
        segments_tile(segments, from, to),
        from <= cursor,
        0 <= at < segments.len(),
        cursor < segments[at].source_end,
    ensures
        0 <= row < segments.len(),
        holds_cursor(segments[row], cursor),
    decreases at,
{
    if cursor >= segments[at].source_start {
        at
    } else {
        assert(at > 0);
        assert(segments[at - 1].source_end == segments[at].source_start);
        find_holding(segments, from, to, cursor, at - 1)
    }
}

/// Every cursor position of a text lies on one of its visual rows.
pub proof fn every_position_has_a_row(
    text: Seq<char>,
    lines: Seq<Seq<Glyph>>,
    line: int,
    from: int,
    limit: int,
    cursor: int,
) -> (row: int)
    requires
        lines_measured(lines, utf8(text), line, from),
        boundary(utf8(text), from),
        utf8(text).len() <= usize::MAX,
        1 <= limit <= 65535,
        from <= cursor <= utf8(text).len(),
    ensures
        0 <= row < segments_from(utf8(text), lines, line, from, limit).len(),
        holds_cursor(segments_from(utf8(text), lines, line, from, limit)[row], cursor),
    decreases utf8(text).len() - from,
{
    let bytes = utf8(text);
    let end = line_end(bytes, from);
    let all = segments_from(bytes, lines, line, from, limit);
    line_end_is_boundary(text, from);
    line_segments_facts(text, lines[line], line, from, end, limit);
    let here = line_segments(bytes, lines[line], line, from, end, limit);
    if cursor <= end {
        let row = tiled_rows_hold(here, from, end, cursor);
        assert(all[row] == here[row]);
        row
    } else {
        let rest = segments_from(bytes, lines, line + 1, end + 1, limit);
        let row = every_position_has_a_row(text, lines, line + 1, end + 1, limit, cursor);
        assert(all[here.len() + row] == rest[row]);
        here.len() + row
    }
}

/// The row that holds the cursor does hold it.
pub proof fn cursor_row_holds(segments: Seq<Segment>, cursor: int, at: int, row: int)
    requires
        0 <= at <= row < segments.len(),
        holds_cursor(segments[row], cursor),
    ensures
        at <= cursor_row_from(segments, cursor, at) <= row,
        holds_cursor(segments[cursor_row_from(segments, cursor, at)], cursor),
    decreases segments.len() - at,
{
    if !holds_cursor(segments[at], cursor) {
        cursor_row_holds(segments, cursor, at + 1, row);
    }
}

/// Whether what a row shows takes at most `limit` columns, or lies within a
/// single cluster.
pub open spec fn shows_within(glyphs: Seq<Glyph>, segment: Segment, limit: int) -> bool {
    columns(glyphs, segment.start as int, segment.end as int) <= limit || exists|k: int|
        0 <= k < glyphs.len() && (#[trigger] glyphs[k]).start == segment.start && segment.end
            <= glyphs[k].end
}

/// Whether a row shows no line feed.
pub open spec fn stays_on_line(bytes: Seq<u8>, segment: Segment) -> bool {
    forall|k: int| segment.start <= k < segment.end ==> #[trigger] bytes[k] != 10
}

/// Clusters before a range take none of its columns.
proof fn cells_within_prefix(glyphs: Seq<Glyph>, bytes: Seq<u8>, from: int, to: int, a: int, n: int)
    requires
        tiles(glyphs, bytes, from, to),
        0 <= n <= a <= glyphs.len(),
    ensures
        forall|end: int|
            #[trigger] cells_within(glyphs.take(n), glyph_offset(glyphs, a, to), end) == 0,
    decreases n,
{
    if n > 0 {
        cells_within_prefix(glyphs, bytes, from, to, a, n - 1);
        assert(glyphs.take(n).drop_last() =~= glyphs.take(n - 1));
        if a < glyphs.len() {
            tiles_order(glyphs, bytes, from, to, n - 1, a);
        } else {
            tiles_order(glyphs, bytes, from, to, n - 1, n - 1);
        }
        assert forall|end: int|
            #[trigger] cells_within(glyphs.take(n), glyph_offset(glyphs, a, to), end) == 0 by {
            assert(cells_within(glyphs.take(n - 1), glyph_offset(glyphs, a, to), end) == 0);
        }
    }
}

/// The columns between two clusters are those of the clusters between them.
proof fn cells_within_are_between(
    glyphs: Seq<Glyph>,
    bytes: Seq<u8>,
    from: int,
    to: int,
    a: int,
    b: int,
    n: int,
)
    requires
        tiles(glyphs, bytes, from, to),
        0 <= a <= b <= glyphs.len(),
        a <= n <= glyphs.len(),
    ensures
        cells_within(
            glyphs.take(n),
            glyph_offset(glyphs, a, to),
            glyph_offset(glyphs, b, to),
        ) == cells_between(
            classified(bytes, glyphs),
            a,
            if n < b {
                n
            } else {
                b
            },
        ),
    decreases n,
{
    if n == a {
        cells_within_prefix(glyphs, bytes, from, to, a, n);
        assert(cells_within(
            glyphs.take(n),
            glyph_offset(glyphs, a, to),
            glyph_offset(glyphs, b, to),
        ) == 0);
    } else {
        cells_within_are_between(glyphs, bytes, from, to, a, b, n - 1);
        assert(glyphs.take(n).drop_last() =~= glyphs.take(n - 1));
        assert(glyphs.take(n).last() == glyphs[n - 1]);
        tiles_order(glyphs, bytes, from, to, a, n - 1);
        if b < glyphs.len() {
            if n - 1 < b {
                tiles_order(glyphs, bytes, from, to, n - 1, b);
            } else {
                tiles_order(glyphs, bytes, from, to, b, n - 1);
            }
        } else {
            tiles_order(glyphs, bytes, from, to, n - 1, n - 1);
        }
        assert(classified(bytes, glyphs)[n - 1].width == glyphs[n - 1].width);
    }
}

/// A shorter range takes no more columns.
proof fn cells_within_grow(glyphs: Seq<Glyph>, from: int, near: int, far: int)
    requires
        near <= far,
    ensures
        cells_within(glyphs, from, near) <= cells_within(glyphs, from, far),
    decreases glyphs.len(),
{
    if glyphs.len() > 0 {
        cells_within_grow(glyphs.drop_last(), from, near, far);
    }
}

/// An empty range takes no columns.
proof fn cells_within_nothing(glyphs: Seq<Glyph>, at: int)
    ensures
        cells_within(glyphs, at, at) == 0,
    decreases glyphs.len(),
{
    if glyphs.len() > 0 {
        cells_within_nothing(glyphs.drop_last(), at);
    }
}

/// The rows of a line fit.
proof fn line_rows_fit(
    text: Seq<char>,
    glyphs: Seq<Glyph>,
    line: int,
    from: int,
    to: int,
    limit: int,
    i: int,
)
    requires
        tiles(glyphs, utf8(text), from, to),
        boundary(utf8(text), from),
        boundary(utf8(text), to),
        utf8(text).len() <= usize::MAX,
        1 <= limit <= 65535,
        0 <= i < line_segments(utf8(text), glyphs, line, from, to, limit).len(),
    ensures
        shows_within(glyphs, line_segments(utf8(text), glyphs, line, from, to, limit)[i], limit),
{
    let bytes = utf8(text);
    let segment = line_segments(bytes, glyphs, line, from, to, limit)[i];
    if from == to {
        cells_within_nothing(glyphs, from);
    } else {
        let cells = classified(bytes, glyphs);
        wrapping_tiles_the_line(cells, limit);
        let row = wrapped(cells, limit)[i];
        assert(crate::wrap::row_fits(cells, row, limit));
        let start = glyph_offset(glyphs, row.start, to);
        let end = glyph_offset(glyphs, row.end, to);
        glyph_offset_facts(glyphs, bytes, from, to, row.start);
        glyph_offset_facts(glyphs, bytes, from, to, row.end);
        offsets_rise(glyphs, bytes, from, to, row.start, row.end);
        trimmed_end_facts(text, start, end);
        cells_within_are_between(
            glyphs,
            bytes,
            from,
            to,
            row.start,
            row.end,
            glyphs.len() as int,
        );
        assert(glyphs.take(glyphs.len() as int) =~= glyphs);
        cells_within_grow(glyphs, start, segment.end as int, end);
        if cells_between(cells, row.start, row.end) > limit && limit < 65535 {
            let k = row.start;
            assert(glyphs[k].start == segment.start);
            if k + 1 < glyphs.len() {
                assert(glyphs[k].end == glyphs[k + 1].start);
            }
            assert(segment.end <= glyphs[k].end);
        }
    }
}

/// Later rows of a line start no earlier than earlier ones end.
proof fn tiled_rows_ascend(segments: Seq<Segment>, from: int, to: int, i: int, j: int)
    requires
        segments_tile(segments, from, to),
        0 <= i < j < segments.len(),
    ensures
        segments[i].source_end <= segments[j].source_start,
    decreases j - i,
{
    assert(segments[j - 1].source_end == segments[j].source_start);
    if i < j - 1 {
        tiled_rows_ascend(segments, from, to, i, j - 1);
    }
}

/// The rows of a line end inside it.
proof fn tiled_rows_end(segments: Seq<Segment>, from: int, to: int, i: int)
    requires
        segments_tile(segments, from, to),
        0 <= i < segments.len(),
    ensures
        segments[i].source_end <= to,
{
    if i < segments.len() - 1 {
        tiled_rows_ascend(segments, from, to, i, segments.len() - 1);
    }
}

/// Every visual row of a text stays on its line and fits `limit` columns,
/// unless it shows a single cluster; the rows ascend without overlap.
pub proof fn rows_fit_and_ascend(
    text: Seq<char>,
    lines: Seq<Seq<Glyph>>,
    line: int,
    from: int,
    limit: int,
)
    requires
        lines_measured(lines, utf8(text), line, from),
        boundary(utf8(text), from),
        utf8(text).len() <= usize::MAX,
        lines.len() <= usize::MAX,
        1 <= limit <= 65535,
        0 <= line,
    ensures
        forall|i: int|
            0 <= i < segments_from(utf8(text), lines, line, from, limit).len() ==> {
                let segment = #[trigger] segments_from(utf8(text), lines, line, from, limit)[i];
                &&& stays_on_line(utf8(text), segment)
                &&& shows_within(lines[segment.line as int], segment, limit)
            },
        forall|i: int, j: int|
            0 <= i < j < segments_from(utf8(text), lines, line, from, limit).len() ==> (
            #[trigger] segments_from(utf8(text), lines, line, from, limit)[i]).end <= (
            #[trigger] segments_from(utf8(text), lines, line, from, limit)[j]).start,
    decreases utf8(text).len() - from,
{
    let bytes = utf8(text);
    let end = line_end(bytes, from);
    let all = segments_from(bytes, lines, line, from, limit);
    let here = line_segments(bytes, lines[line], line, from, end, limit);
    line_end_is_boundary(text, from);
    line_end_facts(bytes, from);
    line_segments_facts(text, lines[line], line, from, end, limit);
    assert forall|i: int| 0 <= i < here.len() implies {
        let segment = #[trigger] here[i];
        &&& stays_on_line(bytes, segment)
        &&& shows_within(lines[segment.line as int], segment, limit)
        &&& segment.source_end <= end
    } by {
        segments_tile_low(here, from, end, i);
        tiled_rows_end(here, from, end, i);
        line_rows_fit(text, lines[line], line, from, end, limit, i);
        assert(here[i].line == line);
    }
    assert forall|i: int, j: int| 0 <= i < j < here.len() implies (#[trigger] here[i]).end <= (
    #[trigger] here[j]).start by {
        tiled_rows_ascend(here, from, end, i, j);
    }
    if end < bytes.len() {
        let rest = segments_from(bytes, lines, line + 1, end + 1, limit);
        segments_facts(text, lines, line + 1, end + 1, limit);
        rows_fit_and_ascend(text, lines, line + 1, end + 1, limit);
        assert(all == here + rest);
        assert forall|i: int| 0 <= i < all.len() implies {
            let segment = #[trigger] all[i];
            &&& stays_on_line(bytes, segment)
            &&& shows_within(lines[segment.line as int], segment, limit)
        } by {
            if i < here.len() {
                assert(all[i] == here[i]);
            } else {
                assert(all[i] == rest[i - here.len()]);
            }
        }
        assert forall|i: int, j: int| 0 <= i < j < all.len() implies (#[trigger] all[i]).end <= (
        #[trigger] all[j]).start by {
            if j < here.len() {
                assert(all[i] == here[i] && all[j] == here[j]);
            } else if i < here.len() {
                assert(all[i] == here[i] && all[j] == rest[j - here.len()]);
            } else {
                assert(all[i] == rest[i - here.len()] && all[j] == rest[j - here.len()]);
            }
        }
    }
}

/// The row that holds the cursor, else the last row.
pub fn segment_at_cursor(segments: &Vec<Segment>, cursor: usize) -> (row: usize)
    requires
        segments.len() > 0,
    ensures
        row == cursor_row(segments@, cursor as int),
        row < segments.len(),
{
    let mut row: usize = 0;
    while row < segments.len()
        invariant
            row <= segments.len(),
            segments.len() > 0,
            cursor_row(segments@, cursor as int) == cursor_row_from(
                segments@,
                cursor as int,
                row as int,
            ),
        decreases segments.len() - row,
    {
        let segment: Segment = segments[row];
        if cursor >= segment.source_start && (cursor < segment.source_end || (segment.last
            && cursor == segment.source_end)) {
            return row;
        }
        row += 1;
    }
    segments.len() - 1
}

/// Columns between two offsets of a line.
pub fn count_columns(glyphs: &Vec<Glyph>, from: usize, to: usize) -> (count: u16)
    ensures
        count == columns(glyphs@, from as int, to as int),
{
    let mut count: u16 = 0;
    let mut at: usize = 0;
    while at < glyphs.len()
        invariant
            at <= glyphs.len(),
            count == columns(glyphs@.take(at as int), from as int, to as int),
        decreases glyphs.len() - at,
    {
        assert(glyphs@.take(at + 1).drop_last() =~= glyphs@.take(at as int));
        let glyph: Glyph = glyphs[at];
        if from <= glyph.start && glyph.start < to {
            count = count.saturating_add(glyph.width);
        }
        at += 1;
    }
    assert(glyphs@.take(at as int) =~= glyphs@);
    count
}

/// The offset between two offsets of a line that a column stands for.
pub fn byte_at_column(glyphs: &Vec<Glyph>, from: usize, to: usize, column: u16) -> (offset: usize)
    ensures
        offset == offset_at_column(glyphs@, 0, from as int, to as int, column as int),
{
    let mut room: u16 = column;
    let mut at: usize = 0;
    while at < glyphs.len()
        invariant
            at <= glyphs.len(),
            offset_at_column(glyphs@, 0, from as int, to as int, column as int)
                == offset_at_column(
                glyphs@,
                at as int,
                from as int,
                to as int,
                room as int,
            ),
        decreases glyphs.len() - at,
    {
        let glyph: Glyph = glyphs[at];
        if from <= glyph.start && glyph.start < to {
            if glyph.width > room {
                return glyph.start;
            }
            room -= glyph.width;
        }
        at += 1;
    }
    to
}

/// An offset found by column stays between the two offsets, on a boundary.
pub proof fn offset_at_column_facts(
    glyphs: Seq<Glyph>,
    bytes: Seq<u8>,
    at: int,
    from: int,
    to: int,
    room: int,
)
    requires
        0 <= at <= glyphs.len(),
        from <= to,
        boundary(bytes, to),
        forall|i: int|
            0 <= i < glyphs.len() ==> (#[trigger] glyphs[i]).start < glyphs[i].end && boundary(
                bytes,
                glyphs[i].start as int,
            ),
    ensures
        from <= offset_at_column(glyphs, at, from, to, room) <= to,
        boundary(bytes, offset_at_column(glyphs, at, from, to, room)),
    decreases glyphs.len() - at,
{
    if at < glyphs.len() {
        if !between(glyphs[at], from, to) {
            offset_at_column_facts(glyphs, bytes, at + 1, from, to, room);
        } else if glyphs[at].width <= room {
            offset_at_column_facts(glyphs, bytes, at + 1, from, to, room - glyphs[at].width);
        }
    }
}

/// The largest column that a cursor on a row may take.
pub fn segment_max_column(glyphs: &Vec<Glyph>, segment: Segment) -> (column: u16)
    ensures
        column == max_column(glyphs@, segment),
{
    let width: u16 = count_columns(glyphs, segment.start, segment.end);
    if segment.last {
        return width;
    }
    let mut at: usize = glyphs.len();
    assert(glyphs@.take(at as int) =~= glyphs@);
    while at > 0
        invariant
            at <= glyphs.len(),
            width == columns(glyphs@, segment.start as int, segment.end as int),
            !segment.last,
            last_between(glyphs@, segment.start as int, segment.end as int) == last_between(
                glyphs@.take(at as int),
                segment.start as int,
                segment.end as int,
            ),
        decreases at,
    {
        let glyph: Glyph = glyphs[at - 1];
        assert(glyphs@.take(at as int).last() == glyph);
        assert(glyphs@.take(at as int).drop_last() =~= glyphs@.take(at - 1));
        if segment.start <= glyph.start && glyph.start < segment.end {
            return width.saturating_sub(glyph.width);
        }
        at -= 1;
    }
    0
}

} // verus!
