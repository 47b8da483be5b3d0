//! Word wrapping of one logical line.
//!
//! A line is a run of glyphs. Runs of equal whitespaceness are tokens, and
//! rows are filled token by token: a token that does not fit starts a new
//! row, one wider than a row is cut, and whitespace at a break stays with the
//! row above.

use vstd::prelude::*;

verus! {

/// One glyph of a line, with its byte range, cells and whether all of it is
/// whitespace.
#[derive(Clone, Copy, Debug, PartialEq, Eq, Structural)]
pub struct GraphemeCell {
    /// Byte offset of the glyph.
    pub start: usize,
    /// Byte offset behind the glyph.
    pub end: usize,
    /// Cells it takes.
    pub width: u16,
    /// Whether it is whitespace throughout.
    pub whitespace: bool,
}

/// One row of a wrapped line, in glyph positions: the glyphs it owns and, of
/// these, the ones it may show.
#[derive(Clone, Copy, Debug, PartialEq, Eq, Structural)]
pub struct Chunk {
    /// First glyph owned.
    pub source_start: usize,
    /// Glyph behind the last one owned.
    pub source_end: usize,
    /// First glyph shown.
    pub start: usize,
    /// Glyph behind the last one shown.
    pub end: usize,
}

/// A row of a wrapped line.
pub struct ChunkView {
    /// First glyph owned.
    pub source_start: int,
    /// Glyph behind the last one owned.
    pub source_end: int,
    /// First glyph shown.
    pub start: int,
    /// Glyph behind the last one shown.
    pub end: int,
}

impl View for Chunk {
    type V = ChunkView;

    open spec fn view(&self) -> ChunkView {
        ChunkView {
            source_start: self.source_start as int,
            source_end: self.source_end as int,
            start: self.start as int,
            end: self.end as int,
        }
    }
}

/// The rows finished so far and the row being filled.
pub struct Wrapping {
    /// Finished rows.
    pub rows: Seq<ChunkView>,
    /// First glyph that the open row owns.
    pub source: int,
    /// First glyph that the open row shows.
    pub start: int,
    /// Glyph behind the last one that the open row shows.
    pub end: int,
    /// Cells of the open row.
    pub width: int,
}

/// A number of cells, held at the largest coordinate.
pub open spec fn held(count: int) -> int {
    if count <= 65535 {
        count
    } else {
        65535
    }
}

/// End of the token that starts at glyph `at`.
pub open spec fn token_end(glyphs: Seq<GraphemeCell>, at: int) -> int
    decreases glyphs.len() - at,
{
    if at + 1 < glyphs.len() && glyphs[at + 1].whitespace == glyphs[at].whitespace {
        token_end(glyphs, at + 1)
    } else {
        at + 1
    }
}

/// Cells of the glyphs from `from` up to `to`.
pub open spec fn cells_between(glyphs: Seq<GraphemeCell>, from: int, to: int) -> int
    decreases to - from,
{
    if from >= to {
        0
    } else {
        cells_between(glyphs, from, to - 1) + glyphs[to - 1].width
    }
}

/// Whether a glyph from `from` up to `to` takes more than one cell.
pub open spec fn any_wide(glyphs: Seq<GraphemeCell>, from: int, to: int) -> bool {
    exists|k: int| from <= k < to && (#[trigger] glyphs[k]).width > 1
}

/// The first glyph from `from` up to `to` that no longer fits into `room` cells.
pub open spec fn fitting(glyphs: Seq<GraphemeCell>, from: int, to: int, room: int) -> int
    decreases to - from,
{
    if from < to && glyphs[from].width <= room {
        fitting(glyphs, from + 1, to, room - glyphs[from].width)
    } else {
        from
    }
}

/// End of the piece that starts at glyph `from` of a token too wide for a row:
/// as many glyphs as fit into `limit` cells, and at least one.
pub open spec fn piece_end(
    glyphs: Seq<GraphemeCell>,
    from: int,
    to: int,
    limit: int,
    width: int,
    taken: bool,
) -> int
    decreases to - from,
{
    if from >= to {
        from
    } else {
        let next = held(width + glyphs[from].width);
        if next > limit && taken {
            from
        } else if next >= limit {
            from + 1
        } else {
            piece_end(glyphs, from + 1, to, limit, next, true)
        }
    }
}

impl Wrapping {
    /// The state before the first token.
    pub open spec fn begin() -> Self {
        Wrapping { rows: Seq::empty(), source: 0, start: 0, end: 0, width: 0 }
    }

    /// Finishes the open row, which then owns the glyphs up to `source_end`.
    pub open spec fn finish_row(self, source_end: int) -> Self {
        Wrapping {
            rows: self.rows.push(
                ChunkView {
                    source_start: self.source,
                    source_end,
                    start: self.start,
                    end: self.end,
                },
            ),
            source: source_end,
            ..self
        }
    }

    /// Lets the last finished row own the glyphs up to `source_end`.
    pub open spec fn extend_last(self, source_end: int) -> Self {
        let last = self.rows.last();
        Wrapping {
            rows: self.rows.drop_last().push(ChunkView { source_end, ..last }),
            ..self
        }
    }

    /// Cuts the glyphs from `from` up to `to` of one token into rows; the last
    /// piece is left open.
    pub open spec fn cut(self, glyphs: Seq<GraphemeCell>, from: int, to: int, limit: int) -> Self
        decreases to - from,
    {
        let end = piece_end(glyphs, from, to, limit, 0, false);
        if from >= to || end <= from {
            self
        } else if end < to {
            (Wrapping {
                rows: self.rows.push(
                    ChunkView { source_start: self.source, source_end: end, start: from, end },
                ),
                source: end,
                ..self
            }).cut(glyphs, end, to, limit)
        } else {
            Wrapping {
                start: from,
                end: to,
                width: held(cells_between(glyphs, from, to)),
                ..self
            }
        }
    }

    /// Takes a token wider than a row: the open row is filled up and finished,
    /// the rest of the token is cut.
    pub open spec fn take_wide(
        self,
        glyphs: Seq<GraphemeCell>,
        from: int,
        to: int,
        limit: int,
    ) -> Self {
        let open = self.end > self.start;
        let reach = if open && self.width < limit {
            fitting(glyphs, from, to, limit - self.width)
        } else {
            from
        };
        let filled = if reach > from {
            Wrapping { end: reach, width: self.width + cells_between(glyphs, from, reach), ..self }
        } else {
            self
        };
        let finished = if open {
            filled.finish_row(reach)
        } else {
            filled
        };
        finished.cut(glyphs, reach, to, limit)
    }

    /// Takes a token that does not fit on the open row any more.
    pub open spec fn break_before(
        self,
        glyphs: Seq<GraphemeCell>,
        from: int,
        to: int,
        limit: int,
    ) -> Self {
        let blank = glyphs[from].whitespace;
        let reach = if !blank && any_wide(glyphs, from, to) && self.end > self.start {
            fitting(glyphs, from, to, limit - self.width)
        } else {
            from
        };
        let filled = if reach > from {
            Wrapping { end: reach, ..self }
        } else {
            self
        };
        let finished = filled.finish_row(reach);
        if reach == to {
            Wrapping { start: reach, end: reach, width: 0, ..finished }
        } else if blank {
            Wrapping { source: to, start: to, end: to, width: 0, ..finished.extend_last(to) }
        } else {
            Wrapping {
                start: reach,
                end: to,
                width: held(cells_between(glyphs, reach, to)),
                ..finished
            }
        }
    }

    /// Takes the token from `from` up to `to`.
    pub open spec fn take(
        self,
        glyphs: Seq<GraphemeCell>,
        from: int,
        to: int,
        limit: int,
    ) -> Self {
        let width = held(cells_between(glyphs, from, to));
        if self.end == self.start && glyphs[from].whitespace {
            if self.rows.len() > 0 {
                self.extend_last(to)
            } else {
                Wrapping { start: to, end: to, ..self }
            }
        } else if width > limit {
            self.take_wide(glyphs, from, to, limit)
        } else if held(self.width + width) > limit {
            self.break_before(glyphs, from, to, limit)
        } else {
            Wrapping {
                start: if self.end == self.start {
                    from
                } else {
                    self.start
                },
                end: to,
                width: held(self.width + width),
                ..self
            }
        }
    }

    /// Takes every token from glyph `at` on.
    pub open spec fn take_all(self, glyphs: Seq<GraphemeCell>, at: int, limit: int) -> Self
        decreases glyphs.len() - at,
    {
        let end = token_end(glyphs, at);
        if at >= glyphs.len() || end <= at || end > glyphs.len() {
            self
        } else {
            self.take(glyphs, at, end, limit).take_all(glyphs, end, limit)
        }
    }

    /// The rows of the whole line.
    pub open spec fn close(self, count: int) -> Seq<ChunkView> {
        if self.end > self.start || self.rows.len() == 0 {
            self.finish_row(count).rows
        } else {
            self.extend_last(count).rows
        }
    }

    /// What holds between tokens: the finished rows and the open row own the
    /// glyphs before `at` without gap or overlap.
    pub open spec fn wf(self, glyphs: Seq<GraphemeCell>, at: int, limit: int) -> bool {
        &&& 0 <= at <= glyphs.len()
        &&& rows_tile(self.rows, self.source)
        &&& 0 <= self.source <= self.start <= self.end <= at
        &&& self.width == held(cells_between(glyphs, self.start, self.end))
        &&& self.end > self.start ==> self.end == at
        &&& self.end == self.start ==> self.width == 0 && self.end == at
        &&& self.rows.len() > 0 && self.end == self.start ==> at == glyphs.len()
            || !glyphs[at].whitespace
        &&& self.rows.len() > 0 ==> self.source == self.start
        &&& self.end > self.start ==> fits(glyphs, self.start, self.end, limit)
        &&& forall|i: int|
            0 <= i < self.rows.len() ==> row_fits(glyphs, #[trigger] self.rows[i], limit)
    }
}

/// Whether the rows own the glyphs up to `end` one after the other.
pub open spec fn rows_tile(rows: Seq<ChunkView>, end: int) -> bool {
    &&& rows.len() == 0 ==> end == 0
    &&& rows.len() > 0 ==> rows[0].source_start == 0 && rows.last().source_end == end
    &&& forall|i: int|
        0 <= i < rows.len() ==> {
            let row = #[trigger] rows[i];
            &&& 0 <= row.source_start <= row.start <= row.end <= row.source_end <= end
            &&& row.source_start < row.source_end
        }
    &&& forall|i: int, j: int|
        0 <= i && j == i + 1 && j < rows.len() ==> (#[trigger] rows[i]).source_end == (
        #[trigger] rows[j]).source_start
}

/// Whether the glyphs fit on one row: within the limit, or a single glyph that
/// takes cells.
pub open spec fn fits(glyphs: Seq<GraphemeCell>, from: int, to: int, limit: int) -> bool {
    cells_between(glyphs, from, to) <= limit || limit == 65535 || to == from + 1
}

/// Whether what a row shows fits on it.
pub open spec fn row_fits(glyphs: Seq<GraphemeCell>, row: ChunkView, limit: int) -> bool {
    fits(glyphs, row.start, row.end, limit)
}

/// The rows of a wrapped line.
pub open spec fn wrapped(glyphs: Seq<GraphemeCell>, limit: int) -> Seq<ChunkView> {
    Wrapping::begin().take_all(glyphs, 0, limit).close(glyphs.len() as int)
}

/// A token is not empty, ends inside the line and is whitespace throughout or
/// not at all; the glyph behind it differs.
pub proof fn token_facts(glyphs: Seq<GraphemeCell>, at: int)
    requires
        0 <= at < glyphs.len(),
    ensures
        at < token_end(glyphs, at) <= glyphs.len(),
        forall|k: int|
            at <= k < token_end(glyphs, at) ==> (#[trigger] glyphs[k]).whitespace
                == glyphs[at].whitespace,
        token_end(glyphs, at) < glyphs.len() ==> glyphs[token_end(glyphs, at)].whitespace
            != glyphs[at].whitespace,
    decreases glyphs.len() - at,
{
    if at + 1 < glyphs.len() && glyphs[at + 1].whitespace == glyphs[at].whitespace {
        token_facts(glyphs, at + 1);
    }
}

/// Cells are counted piecewise.
pub proof fn cells_split(glyphs: Seq<GraphemeCell>, from: int, middle: int, to: int)
    requires
        from <= middle <= to,
    ensures
        cells_between(glyphs, from, to) == cells_between(glyphs, from, middle) + cells_between(
            glyphs,
            middle,
            to,
        ),
        cells_between(glyphs, from, middle) >= 0,
        cells_between(glyphs, middle, to) >= 0,
    decreases to - from,
{
    if middle < to {
        cells_split(glyphs, from, middle, to - 1);
    } else if from < middle {
        cells_split(glyphs, from, middle - 1, middle - 1);
    }
}

/// What fits, fits.
pub proof fn fitting_facts(glyphs: Seq<GraphemeCell>, from: int, to: int, room: int)
    requires
        0 <= from <= to <= glyphs.len(),
    ensures
        from <= fitting(glyphs, from, to, room) <= to,
        0 <= room ==> cells_between(glyphs, from, fitting(glyphs, from, to, room)) <= room,
        room < 0 ==> fitting(glyphs, from, to, room) == from,
    decreases to - from,
{
    if from < to && glyphs[from].width <= room {
        let rest = room - glyphs[from].width;
        fitting_facts(glyphs, from + 1, to, rest);
        cells_split(glyphs, from, from + 1, fitting(glyphs, from + 1, to, rest));
        assert(cells_between(glyphs, from, from + 1) == cells_between(glyphs, from, from)
            + glyphs[from].width);
    }
}

/// A piece is not empty and fits, or is a single glyph.
pub proof fn piece_facts(
    glyphs: Seq<GraphemeCell>,
    first: int,
    from: int,
    to: int,
    limit: int,
    width: int,
    taken: bool,
)
    requires
        0 <= first <= from <= to <= glyphs.len(),
        1 <= limit <= 65535,
        taken == (first < from),
        width == held(cells_between(glyphs, first, from)),
        taken ==> width < limit,
    ensures
        from <= piece_end(glyphs, from, to, limit, width, taken) <= to,
        from < to && !taken ==> from < piece_end(glyphs, from, to, limit, width, taken),
        first < piece_end(glyphs, from, to, limit, width, taken) ==> fits(
            glyphs,
            first,
            piece_end(glyphs, from, to, limit, width, taken),
            limit,
        ),
    decreases to - from,
{
    if from < to {
        cells_split(glyphs, first, from, from + 1);
        assert(cells_between(glyphs, from, from + 1) == cells_between(glyphs, from, from)
            + glyphs[from].width);
        let next = held(width + glyphs[from].width);
        assert(next == held(cells_between(glyphs, first, from + 1)));
        if !(next > limit && taken) && next < limit {
            piece_facts(glyphs, first, from + 1, to, limit, next, true);
        }
    }
}

/// Cutting a token keeps the rows tiled and fitting.
pub proof fn cut_keeps_wf(
    state: Wrapping,
    glyphs: Seq<GraphemeCell>,
    from: int,
    to: int,
    limit: int,
)
    requires
        0 <= from < to <= glyphs.len(),
        1 <= limit <= 65535,
        rows_tile(state.rows, state.source),
        0 <= state.source <= from,
        state.rows.len() > 0 ==> state.source == from,
        forall|i: int|
            0 <= i < state.rows.len() ==> row_fits(glyphs, #[trigger] state.rows[i], limit),
    ensures
        state.cut(glyphs, from, to, limit).wf(glyphs, to, limit),
        state.cut(glyphs, from, to, limit).end > state.cut(glyphs, from, to, limit).start,
    decreases to - from,
{
    let end = piece_end(glyphs, from, to, limit, 0, false);
    cells_split(glyphs, from, from, from);
    piece_facts(glyphs, from, from, to, limit, 0, false);
    if end < to {
        let row = ChunkView { source_start: state.source, source_end: end, start: from, end };
        let next = Wrapping { rows: state.rows.push(row), source: end, ..state };
        assert(rows_tile(next.rows, next.source)) by {
            assert(next.rows.last() == row);
            assert forall|i: int| 0 <= i < next.rows.len() implies {
                let r = #[trigger] next.rows[i];
                &&& 0 <= r.source_start <= r.start <= r.end <= r.source_end <= end
                &&& r.source_start < r.source_end
            } by {
                if i < state.rows.len() {
                    assert(next.rows[i] == state.rows[i]);
                }
            }
        }
        assert forall|i: int| 0 <= i < next.rows.len() implies row_fits(
            glyphs,
            #[trigger] next.rows[i],
            limit,
        ) by {
            if i < state.rows.len() {
                assert(next.rows[i] == state.rows[i]);
            }
        }
        cut_keeps_wf(next, glyphs, end, to, limit);
    } else {
        cells_split(glyphs, from, from, to);
    }
}

/// Finishing a row keeps the rows tiled and fitting.
proof fn finishing_keeps_tiles(
    state: Wrapping,
    glyphs: Seq<GraphemeCell>,
    source_end: int,
    limit: int,
)
    requires
        rows_tile(state.rows, state.source),
        0 <= state.source <= state.start <= state.end <= source_end,
        state.source < source_end,
        fits(glyphs, state.start, state.end, limit),
        forall|i: int|
            0 <= i < state.rows.len() ==> row_fits(glyphs, #[trigger] state.rows[i], limit),
    ensures
        rows_tile(state.finish_row(source_end).rows, source_end),
        forall|i: int|
            0 <= i < state.finish_row(source_end).rows.len() ==> row_fits(
                glyphs,
                #[trigger] state.finish_row(source_end).rows[i],
                limit,
            ),
{
    let next = state.finish_row(source_end);
    assert forall|i: int| 0 <= i < next.rows.len() implies {
        let r = #[trigger] next.rows[i];
        &&& 0 <= r.source_start <= r.start <= r.end <= r.source_end <= source_end
        &&& r.source_start < r.source_end
        &&& row_fits(glyphs, r, limit)
    } by {
        if i < state.rows.len() {
            assert(next.rows[i] == state.rows[i]);
        }
    }
}

/// Taking a token keeps the state well formed.
pub proof fn take_keeps_wf(state: Wrapping, glyphs: Seq<GraphemeCell>, at: int, limit: int)
    requires
        state.wf(glyphs, at, limit),
        at < glyphs.len(),
        1 <= limit <= 65535,
    ensures
        state.take(glyphs, at, token_end(glyphs, at), limit).wf(
            glyphs,
            token_end(glyphs, at),
            limit,
        ),
{
    let to = token_end(glyphs, at);
    token_facts(glyphs, at);
    cells_split(glyphs, state.start, at, to);
    cells_split(glyphs, at, at, to);
    let width = held(cells_between(glyphs, at, to));
    let after = state.take(glyphs, at, to, limit);
    let open = state.end > state.start;
    if !open && glyphs[at].whitespace {
        assert(state.rows.len() == 0);
        cells_split(glyphs, to, to, to);
    } else if width > limit {
        let reach = if open && state.width < limit {
            fitting(glyphs, at, to, limit - state.width)
        } else {
            at
        };
        fitting_facts(glyphs, at, to, limit - state.width);
        cells_split(glyphs, at, reach, to);
        cells_split(glyphs, state.start, at, reach);
        assert(reach < to);
        let filled = if reach > at {
            Wrapping {
                end: reach,
                width: state.width + cells_between(glyphs, at, reach),
                ..state
            }
        } else {
            state
        };
        if open {
            finishing_keeps_tiles(filled, glyphs, reach, limit);
            cut_keeps_wf(filled.finish_row(reach), glyphs, reach, to, limit);
        } else {
            cut_keeps_wf(filled, glyphs, reach, to, limit);
        }
    } else if held(state.width + width) > limit {
        let blank = glyphs[at].whitespace;
        let reach = if !blank && any_wide(glyphs, at, to) && open {
            fitting(glyphs, at, to, limit - state.width)
        } else {
            at
        };
        assert(open);
        fitting_facts(glyphs, at, to, limit - state.width);
        cells_split(glyphs, at, reach, to);
        cells_split(glyphs, state.start, at, reach);
        assert(reach < to);
        let filled = if reach > at {
            Wrapping { end: reach, ..state }
        } else {
            state
        };
        assert(fits(glyphs, filled.start, filled.end, limit));
        finishing_keeps_tiles(filled, glyphs, reach, limit);
        let finished = filled.finish_row(reach);
        if blank {
            let extended = finished.extend_last(to);
            assert forall|i: int| 0 <= i < extended.rows.len() implies {
                let r = #[trigger] extended.rows[i];
                &&& 0 <= r.source_start <= r.start <= r.end <= r.source_end <= to
                &&& r.source_start < r.source_end
                &&& row_fits(glyphs, r, limit)
            } by {
                if i < extended.rows.len() - 1 {
                    assert(extended.rows[i] == finished.rows[i]);
                }
            }
            cells_split(glyphs, to, to, to);
        } else {
            cells_split(glyphs, reach, reach, to);
        }
    } else {
        if !open {
            cells_split(glyphs, at, at, to);
        }
    }
}

/// Taking every token keeps the state well formed.
proof fn take_all_keeps_wf(state: Wrapping, glyphs: Seq<GraphemeCell>, at: int, limit: int)
    requires
        state.wf(glyphs, at, limit),
        1 <= limit <= 65535,
    ensures
        state.take_all(glyphs, at, limit).wf(glyphs, glyphs.len() as int, limit),
    decreases glyphs.len() - at,
{
    if at < glyphs.len() {
        token_facts(glyphs, at);
        take_keeps_wf(state, glyphs, at, limit);
        take_all_keeps_wf(
            state.take(glyphs, at, token_end(glyphs, at), limit),
            glyphs,
            token_end(glyphs, at),
            limit,
        );
    }
}

/// The rows of a wrapped line own all of its glyphs, in order and without gap
/// or overlap; every row shows only glyphs it owns, and no more cells than the
/// limit unless it shows a single glyph.
pub proof fn wrapping_tiles_the_line(glyphs: Seq<GraphemeCell>, limit: int)
    requires
        1 <= limit <= 65535,
        glyphs.len() > 0,
    ensures
        rows_tile(wrapped(glyphs, limit), glyphs.len() as int),
        wrapped(glyphs, limit).len() > 0,
        forall|i: int|
            0 <= i < wrapped(glyphs, limit).len() ==> row_fits(
                glyphs,
                #[trigger] wrapped(glyphs, limit)[i],
                limit,
            ),
{
    let state = Wrapping::begin().take_all(glyphs, 0, limit);
    take_all_keeps_wf(Wrapping::begin(), glyphs, 0, limit);
    let count = glyphs.len() as int;
    if state.end > state.start || state.rows.len() == 0 {
        finishing_keeps_tiles(state, glyphs, count, limit);
    } else {
        let extended = state.extend_last(count);
        assert(extended.rows =~= state.rows);
    }
}

/// Cells are the glyphs' widths added up.
pub proof fn cells_add_up(glyphs: Seq<GraphemeCell>, from: int, to: int, k: int)
    requires
        0 <= from <= k < to <= glyphs.len(),
    ensures
        cells_between(glyphs, k, k) == 0,
        cells_between(glyphs, k, k + 1) == glyphs[k].width,
        cells_between(glyphs, from, to) == cells_between(glyphs, from, k) + glyphs[k].width
            + cells_between(glyphs, k + 1, to),
{
    cells_split(glyphs, from, k, to);
    cells_split(glyphs, k, k + 1, to);
    assert(cells_between(glyphs, k, k + 1) == cells_between(glyphs, k, k) + glyphs[k].width);
}

/// Whether the glyphs from `from` up to `to` are a run that cannot be longer:
/// all blank, or all not.
pub open spec fn run_at(glyphs: Seq<GraphemeCell>, from: int, to: int, blank: bool) -> bool {
    &&& 0 <= from < to <= glyphs.len()
    &&& forall|k: int| from <= k < to ==> (#[trigger] glyphs[k]).whitespace == blank
    &&& from > 0 ==> glyphs[from - 1].whitespace != blank
    &&& to < glyphs.len() ==> glyphs[to].whitespace != blank
}

/// Whether the glyphs from `from` up to `to` are a whole word without wide
/// glyphs that fits on a row of its own.
pub open spec fn narrow_word(glyphs: Seq<GraphemeCell>, from: int, to: int, limit: int) -> bool {
    &&& run_at(glyphs, from, to, false)
    &&& forall|k: int| from <= k < to ==> (#[trigger] glyphs[k]).width <= 1
    &&& cells_between(glyphs, from, to) <= limit
}

/// Whether a row that shows glyphs from `start` on rightly ends before glyph
/// `next`. Where a narrow word starts there, it no longer fit on the row; else
/// the row is full. A word is broken only where it is wider than a row or holds
/// a wide glyph, and a row starts blank only in blanks wider than a row.
pub open spec fn breaks_well(
    glyphs: Seq<GraphemeCell>,
    start: int,
    next: int,
    limit: int,
) -> bool {
    &&& forall|to: int| #[trigger]
        narrow_word(glyphs, next, to, limit) ==> cells_between(glyphs, start, to) > limit
    &&& (exists|to: int| #[trigger] narrow_word(glyphs, next, to, limit)) || cells_between(
        glyphs,
        start,
        next,
    ) >= limit || cells_between(glyphs, start, next + 1) > limit
    &&& forall|from: int, to: int| #[trigger]
        run_at(glyphs, from, to, false) && from < next < to ==> cells_between(glyphs, from, to)
            > limit || exists|k: int| from <= k < to && (#[trigger] glyphs[k]).width > 1
    &&& forall|from: int, to: int| #[trigger]
        run_at(glyphs, from, to, true) && from <= next < to ==> cells_between(glyphs, from, to)
            > limit
}

/// Whether a row rightly hides what it owns and does not show at its end: one
/// run of blanks behind a word, which no longer fit.
pub open spec fn hides_well(glyphs: Seq<GraphemeCell>, row: ChunkView, limit: int) -> bool {
    row.end < row.source_end ==> {
        &&& run_at(glyphs, row.end, row.source_end, true)
        &&& row.start < row.end
        &&& cells_between(glyphs, row.start, row.source_end) > limit
    }
}

/// Whether `at` is the first glyph that is not blank.
pub open spec fn leading(glyphs: Seq<GraphemeCell>, at: int) -> bool {
    &&& 0 <= at < glyphs.len()
    &&& !glyphs[at].whitespace
    &&& forall|k: int| 0 <= k < at ==> (#[trigger] glyphs[k]).whitespace
}

/// Whether rows are filled as far as they go: each ends where it must, shows
/// something and hides only blanks that do not fit; the first starts with the
/// first glyph that is not blank, the others with the first one they own.
pub open spec fn filled_rows(
    glyphs: Seq<GraphemeCell>,
    rows: Seq<ChunkView>,
    limit: int,
) -> bool {
    &&& forall|i: int, j: int|
        0 <= i && j == i + 1 && j < rows.len() ==> breaks_well(
            glyphs,
            (#[trigger] rows[i]).start,
            (#[trigger] rows[j]).start,
            limit,
        )
    &&& forall|i: int|
        0 <= i < rows.len() ==> {
            let row = #[trigger] rows[i];
            &&& hides_well(glyphs, row, limit)
            &&& row.start < row.end
            &&& i > 0 ==> row.start == row.source_start
        }
    &&& rows.len() > 0 ==> leading(glyphs, rows[0].start)
}

proof fn runs_are_unique(
    glyphs: Seq<GraphemeCell>,
    from: int,
    to: int,
    blank: bool,
    a: int,
    b: int,
    other: bool,
    k: int,
)
    requires
        run_at(glyphs, from, to, blank),
        run_at(glyphs, a, b, other),
        from <= k < to,
        a <= k < b,
    ensures
        a == from,
        b == to,
        other == blank,
{
    assert(glyphs[k].whitespace == blank);
    assert(glyphs[k].whitespace == other);
    if a < from {
        assert(glyphs[from - 1].whitespace == other);
    }
    if from < a {
        assert(glyphs[a - 1].whitespace == blank);
    }
    if b < to {
        assert(glyphs[b].whitespace == blank);
    }
    if to < b {
        assert(glyphs[to].whitespace == other);
    }
}

/// A full row may end inside a run that has to be broken.
proof fn full_rows_break_well(
    glyphs: Seq<GraphemeCell>,
    from: int,
    to: int,
    blank: bool,
    start: int,
    next: int,
    limit: int,
)
    requires
        run_at(glyphs, from, to, blank),
        from <= next < to,
        cells_between(glyphs, start, next) >= limit || cells_between(glyphs, start, next + 1)
            > limit,
        cells_between(glyphs, from, to) > limit || !blank && any_wide(glyphs, from, to),
    ensures
        breaks_well(glyphs, start, next, limit),
{
    assert forall|b: int| #[trigger] narrow_word(glyphs, next, b, limit) implies cells_between(
        glyphs,
        start,
        b,
    ) > limit by {
        runs_are_unique(glyphs, from, to, blank, next, b, false, next);
    }
    assert forall|a: int, b: int| #[trigger]
        run_at(glyphs, a, b, false) && a < next < b implies cells_between(glyphs, a, b) > limit
        || exists|k: int| a <= k < b && (#[trigger] glyphs[k]).width > 1 by {
        runs_are_unique(glyphs, from, to, blank, a, b, false, next);
    }
    assert forall|a: int, b: int| #[trigger]
        run_at(glyphs, a, b, true) && a <= next < b implies cells_between(glyphs, a, b)
        > limit by {
        runs_are_unique(glyphs, from, to, blank, a, b, true, next);
    }
}

/// A row may end before a word that does not fit on it any more.
proof fn rows_break_before_words(
    glyphs: Seq<GraphemeCell>,
    from: int,
    to: int,
    start: int,
    limit: int,
)
    requires
        narrow_word(glyphs, from, to, limit),
        cells_between(glyphs, start, to) > limit,
    ensures
        breaks_well(glyphs, start, from, limit),
{
    assert forall|b: int| #[trigger] narrow_word(glyphs, from, b, limit) implies cells_between(
        glyphs,
        start,
        b,
    ) > limit by {
        runs_are_unique(glyphs, from, to, false, from, b, false, from);
    }
    assert forall|a: int, b: int| #[trigger]
        run_at(glyphs, a, b, false) && a < from < b implies cells_between(glyphs, a, b) > limit
        || exists|k: int| a <= k < b && (#[trigger] glyphs[k]).width > 1 by {
        runs_are_unique(glyphs, from, to, false, a, b, false, from);
    }
    assert forall|a: int, b: int| #[trigger]
        run_at(glyphs, a, b, true) && a <= from < b implies cells_between(glyphs, a, b) > limit by {
        runs_are_unique(glyphs, from, to, false, a, b, true, from);
    }
}

/// A row may end behind blanks that do not fit on it.
proof fn rows_break_behind_blanks(
    glyphs: Seq<GraphemeCell>,
    from: int,
    to: int,
    start: int,
    limit: int,
)
    requires
        run_at(glyphs, from, to, true),
        0 <= start <= from,
        cells_between(glyphs, start, to) > limit,
    ensures
        breaks_well(glyphs, start, to, limit),
{
    assert forall|b: int| #[trigger] narrow_word(glyphs, to, b, limit) implies cells_between(
        glyphs,
        start,
        b,
    ) > limit by {
        cells_split(glyphs, start, to, b);
    }
    assert forall|a: int, b: int| #[trigger]
        run_at(glyphs, a, b, false) && a < to < b implies cells_between(glyphs, a, b) > limit
        || exists|k: int| a <= k < b && (#[trigger] glyphs[k]).width > 1 by {
        assert(glyphs[to - 1].whitespace);
    }
    assert forall|a: int, b: int| #[trigger]
        run_at(glyphs, a, b, true) && a <= to < b implies cells_between(glyphs, a, b) > limit by {
        assert(glyphs[to].whitespace);
    }
}

proof fn one_more_filled_row(
    glyphs: Seq<GraphemeCell>,
    rows: Seq<ChunkView>,
    row: ChunkView,
    limit: int,
)
    requires
        filled_rows(glyphs, rows, limit),
        hides_well(glyphs, row, limit),
        row.start < row.end,
        rows.len() > 0 ==> breaks_well(glyphs, rows.last().start, row.start, limit) && row.start
            == row.source_start,
        rows.len() == 0 ==> leading(glyphs, row.start),
    ensures
        filled_rows(glyphs, rows.push(row), limit),
{
    let more = rows.push(row);
    assert forall|i: int, j: int|
        0 <= i && j == i + 1 && j < more.len() implies breaks_well(
        glyphs,
        (#[trigger] more[i]).start,
        (#[trigger] more[j]).start,
        limit,
    ) by {
        assert(more[i] == rows[i]);
        if j < rows.len() {
            assert(more[j] == rows[j]);
        }
    }
    assert forall|i: int| 0 <= i < more.len() implies {
        let row = #[trigger] more[i];
        &&& hides_well(glyphs, row, limit)
        &&& row.start < row.end
        &&& i > 0 ==> row.start == row.source_start
    } by {
        if i < rows.len() {
            assert(more[i] == rows[i]);
        }
    }
    if rows.len() > 0 {
        assert(more[0] == rows[0]);
    }
}

/// What fits ends where the next glyph does not.
proof fn fitting_is_maximal(glyphs: Seq<GraphemeCell>, from: int, to: int, room: int)
    requires
        0 <= from <= to <= glyphs.len(),
    ensures
        fitting(glyphs, from, to, room) < to ==> cells_between(
            glyphs,
            from,
            fitting(glyphs, from, to, room) + 1,
        ) > room,
    decreases to - from,
{
    if from < to {
        cells_add_up(glyphs, from, to, from);
        if glyphs[from].width <= room {
            let rest = room - glyphs[from].width;
            fitting_facts(glyphs, from + 1, to, rest);
            fitting_is_maximal(glyphs, from + 1, to, rest);
            let reach = fitting(glyphs, from + 1, to, rest);
            if reach < to {
                cells_split(glyphs, from, from + 1, reach + 1);
            }
        }
    }
}

/// A piece ends where the row is full.
proof fn pieces_are_full(
    glyphs: Seq<GraphemeCell>,
    first: int,
    from: int,
    to: int,
    limit: int,
    width: int,
    taken: bool,
)
    requires
        0 <= first <= from <= to <= glyphs.len(),
        1 <= limit <= 65535,
        taken == (first < from),
        width == held(cells_between(glyphs, first, from)),
    ensures
        ({
            let end = piece_end(glyphs, from, to, limit, width, taken);
            end < to ==> cells_between(glyphs, first, end) >= limit || cells_between(
                glyphs,
                first,
                end + 1,
            ) > limit
        }),
    decreases to - from,
{
    if from < to {
        cells_split(glyphs, first, from, from + 1);
        cells_add_up(glyphs, from, to, from);
        let next = held(width + glyphs[from].width);
        assert(next == held(cells_between(glyphs, first, from + 1)));
        if !(next > limit && taken) && next < limit {
            pieces_are_full(glyphs, first, from + 1, to, limit, next, true);
        }
    }
}

proof fn cutting_fills_rows(
    state: Wrapping,
    glyphs: Seq<GraphemeCell>,
    first: int,
    from: int,
    to: int,
    blank: bool,
    limit: int,
)
    requires
        1 <= limit <= 65535,
        run_at(glyphs, first, to, blank),
        cells_between(glyphs, first, to) > limit,
        first <= from < to,
        filled_rows(glyphs, state.rows, limit),
        state.rows.len() > 0 ==> breaks_well(glyphs, state.rows.last().start, from, limit)
            && state.source == from,
        state.rows.len() == 0 ==> leading(glyphs, from),
    ensures
        ({
            let after = state.cut(glyphs, from, to, limit);
            &&& filled_rows(glyphs, after.rows, limit)
            &&& after.rows.len() > 0 ==> breaks_well(
                glyphs,
                after.rows.last().start,
                after.start,
                limit,
            )
            &&& after.rows.len() == 0 ==> leading(glyphs, after.start)
            &&& after.end > after.start
        }),
    decreases to - from,
{
    let end = piece_end(glyphs, from, to, limit, 0, false);
    cells_split(glyphs, from, from, from);
    piece_facts(glyphs, from, from, to, limit, 0, false);
    pieces_are_full(glyphs, from, from, to, limit, 0, false);
    if end < to {
        let row = ChunkView { source_start: state.source, source_end: end, start: from, end };
        let next = Wrapping { rows: state.rows.push(row), source: end, ..state };
        one_more_filled_row(glyphs, state.rows, row, limit);
        full_rows_break_well(glyphs, first, to, blank, from, end, limit);
        assert(next.rows.last() == row);
        cutting_fills_rows(next, glyphs, first, end, to, blank, limit);
    }
}

impl Wrapping {
    /// What holds between tokens: the finished rows are filled, and the open row
    /// starts where the last of them rightly ends.
    pub open spec fn filled(self, glyphs: Seq<GraphemeCell>, at: int, limit: int) -> bool {
        &&& 0 < at < glyphs.len() ==> glyphs[at - 1].whitespace != glyphs[at].whitespace
        &&& filled_rows(glyphs, self.rows, limit)
        &&& self.rows.len() > 0 ==> breaks_well(
            glyphs,
            self.rows.last().start,
            self.start,
            limit,
        )
        &&& self.rows.len() == 0 && self.end > self.start ==> leading(glyphs, self.start)
        &&& self.rows.len() == 0 && self.end == self.start ==> forall|k: int|
            0 <= k < at ==> (#[trigger] glyphs[k]).whitespace
    }
}

proof fn taking_fills_rows(state: Wrapping, glyphs: Seq<GraphemeCell>, at: int, limit: int)
    requires
        state.wf(glyphs, at, limit),
        state.filled(glyphs, at, limit),
        at < glyphs.len(),
        1 <= limit <= 65535,
    ensures
        state.take(glyphs, at, token_end(glyphs, at), limit).filled(
            glyphs,
            token_end(glyphs, at),
            limit,
        ),
{
    let to = token_end(glyphs, at);
    let blank = glyphs[at].whitespace;
    token_facts(glyphs, at);
    assert(run_at(glyphs, at, to, blank));
    assert(glyphs[to - 1].whitespace == blank);
    cells_split(glyphs, state.start, at, to);
    cells_split(glyphs, at, at, to);
    let width = held(cells_between(glyphs, at, to));
    let open = state.end > state.start;
    let after = state.take(glyphs, at, to, limit);
    if !open && blank {
        assert(state.rows.len() == 0);
    } else if width > limit {
        let reach = if open && state.width < limit {
            fitting(glyphs, at, to, limit - state.width)
        } else {
            at
        };
        fitting_facts(glyphs, at, to, limit - state.width);
        fitting_is_maximal(glyphs, at, to, limit - state.width);
        cells_split(glyphs, at, reach, to);
        assert(reach < to);
        cells_split(glyphs, state.start, at, reach + 1);
        let filled = if reach > at {
            Wrapping {
                end: reach,
                width: state.width + cells_between(glyphs, at, reach),
                ..state
            }
        } else {
            state
        };
        if open {
            let finished = filled.finish_row(reach);
            let row = finished.rows.last();
            assert(finished.rows == state.rows.push(row));
            one_more_filled_row(glyphs, state.rows, row, limit);
            full_rows_break_well(glyphs, at, to, blank, state.start, reach, limit);
            cutting_fills_rows(finished, glyphs, at, reach, to, blank, limit);
        } else {
            cutting_fills_rows(filled, glyphs, at, reach, to, blank, limit);
        }
    } else if held(state.width + width) > limit {
        let reach = if !blank && any_wide(glyphs, at, to) && open {
            fitting(glyphs, at, to, limit - state.width)
        } else {
            at
        };
        assert(open);
        fitting_facts(glyphs, at, to, limit - state.width);
        fitting_is_maximal(glyphs, at, to, limit - state.width);
        cells_split(glyphs, at, reach, to);
        assert(reach < to);
        cells_split(glyphs, state.start, at, reach + 1);
        let filled = if reach > at {
            Wrapping { end: reach, ..state }
        } else {
            state
        };
        let finished = filled.finish_row(reach);
        if blank {
            let row = ChunkView {
                source_start: state.source,
                source_end: to,
                start: state.start,
                end: at,
            };
            assert(finished.extend_last(to).rows =~= state.rows.push(row));
            one_more_filled_row(glyphs, state.rows, row, limit);
            rows_break_behind_blanks(glyphs, at, to, state.start, limit);
        } else {
            let row = finished.rows.last();
            assert(finished.rows == state.rows.push(row));
            one_more_filled_row(glyphs, state.rows, row, limit);
            if any_wide(glyphs, at, to) {
                full_rows_break_well(glyphs, at, to, false, state.start, reach, limit);
            } else {
                assert(narrow_word(glyphs, at, to, limit));
                rows_break_before_words(glyphs, at, to, state.start, limit);
            }
        }
    } else if !open && state.rows.len() == 0 {
        assert(leading(glyphs, at));
    }
}

proof fn taking_all_fills_rows(state: Wrapping, glyphs: Seq<GraphemeCell>, at: int, limit: int)
    requires
        state.wf(glyphs, at, limit),
        state.filled(glyphs, at, limit),
        1 <= limit <= 65535,
    ensures
        state.take_all(glyphs, at, limit).wf(glyphs, glyphs.len() as int, limit),
        state.take_all(glyphs, at, limit).filled(glyphs, glyphs.len() as int, limit),
    decreases glyphs.len() - at,
{
    if at < glyphs.len() {
        token_facts(glyphs, at);
        take_keeps_wf(state, glyphs, at, limit);
        taking_fills_rows(state, glyphs, at, limit);
        taking_all_fills_rows(
            state.take(glyphs, at, token_end(glyphs, at), limit),
            glyphs,
            token_end(glyphs, at),
            limit,
        );
    }
}

/// Rows are filled as far as they go. A row ends before a word only where that
/// word no longer fits on it; a word is broken only where it is wider than a row
/// or holds a wide glyph, and then the row before is full; blanks are hidden
/// only where they do not fit; and the first row starts with the first glyph
/// that is not blank. A blank line is one row that shows nothing.
pub proof fn rows_are_filled(glyphs: Seq<GraphemeCell>, limit: int)
    requires
        1 <= limit <= 65535,
        glyphs.len() > 0,
    ensures
        (exists|k: int| 0 <= k < glyphs.len() && !(#[trigger] glyphs[k]).whitespace)
            ==> filled_rows(glyphs, wrapped(glyphs, limit), limit),
        (forall|k: int| 0 <= k < glyphs.len() ==> (#[trigger] glyphs[k]).whitespace) ==> wrapped(
            glyphs,
            limit,
        ).len() == 1 && wrapped(glyphs, limit)[0].start == wrapped(glyphs, limit)[0].end,
{
    let count = glyphs.len() as int;
    let begin = Wrapping::begin();
    cells_split(glyphs, 0, 0, 0);
    taking_all_fills_rows(begin, glyphs, 0, limit);
    let state = begin.take_all(glyphs, 0, limit);
    let rows = wrapped(glyphs, limit);
    if state.end > state.start {
        let row = state.finish_row(count).rows.last();
        assert(rows == state.rows.push(row));
        one_more_filled_row(glyphs, state.rows, row, limit);
        if forall|k: int| 0 <= k < glyphs.len() ==> (#[trigger] glyphs[k]).whitespace {
            assert(leading(glyphs, rows[0].start));
            assert(false);
        }
    } else if state.rows.len() > 0 {
        assert(state.extend_last(count).rows =~= state.rows);
        if forall|k: int| 0 <= k < glyphs.len() ==> (#[trigger] glyphs[k]).whitespace {
            assert(leading(glyphs, rows[0].start));
            assert(false);
        }
    }
}

proof fn fitting_lines_stay_open(state: Wrapping, glyphs: Seq<GraphemeCell>, at: int, limit: int)
    requires
        state.wf(glyphs, at, limit),
        1 <= limit <= 65535,
        cells_between(glyphs, 0, glyphs.len() as int) <= limit || limit == 65535,
        state.rows.len() == 0,
    ensures
        state.take_all(glyphs, at, limit).rows.len() == 0,
    decreases glyphs.len() - at,
{
    if at < glyphs.len() {
        let to = token_end(glyphs, at);
        token_facts(glyphs, at);
        take_keeps_wf(state, glyphs, at, limit);
        cells_split(glyphs, state.start, at, to);
        cells_split(glyphs, 0, state.start, to);
        cells_split(glyphs, 0, to, glyphs.len() as int);
        fitting_lines_stay_open(state.take(glyphs, at, to, limit), glyphs, to, limit);
    }
}

/// A line whose cells fit on a row is one row.
pub proof fn fitting_lines_are_one_row(glyphs: Seq<GraphemeCell>, limit: int)
    requires
        1 <= limit <= 65535,
        glyphs.len() > 0,
        cells_between(glyphs, 0, glyphs.len() as int) <= limit || limit == 65535,
    ensures
        wrapped(glyphs, limit).len() == 1,
{
    cells_split(glyphs, 0, 0, 0);
    fitting_lines_stay_open(Wrapping::begin(), glyphs, 0, limit);
}

/// End of the token that starts at glyph `at`.
fn find_token_end(glyphs: &Vec<GraphemeCell>, at: usize) -> (end: usize)
    requires
        at < glyphs.len(),
    ensures
        end == token_end(glyphs@, at as int),
        at < end <= glyphs.len(),
{
    proof {
        token_facts(glyphs@, at as int);
    }
    let mut end: usize = at + 1;
    while end < glyphs.len() && glyphs[end].whitespace == glyphs[at].whitespace
        invariant
            at < end <= glyphs.len(),
            glyphs@[end - 1].whitespace == glyphs@[at as int].whitespace,
            token_end(glyphs@, at as int) == token_end(glyphs@, end - 1),
        decreases glyphs.len() - end,
    {
        end += 1;
    }
    end
}

/// Cells of the glyphs from `from` up to `to`, held at the largest coordinate.
fn width_between(glyphs: &Vec<GraphemeCell>, from: usize, to: usize) -> (width: u16)
    requires
        from <= to <= glyphs.len(),
    ensures
        width == held(cells_between(glyphs@, from as int, to as int)),
{
    let mut width: u16 = 0;
    let mut at: usize = from;
    while at < to
        invariant
            from <= at <= to <= glyphs.len(),
            width == held(cells_between(glyphs@, from as int, at as int)),
        decreases to - at,
    {
        proof {
            cells_split(glyphs@, from as int, at as int, at as int);
        }
        width = width.saturating_add(glyphs[at].width);
        at += 1;
    }
    width
}

/// Whether a glyph from `from` up to `to` takes more than one cell.
fn has_wide(glyphs: &Vec<GraphemeCell>, from: usize, to: usize) -> (wide: bool)
    requires
        from <= to <= glyphs.len(),
    ensures
        wide == any_wide(glyphs@, from as int, to as int),
{
    let mut at: usize = from;
    while at < to
        invariant
            from <= at <= to <= glyphs.len(),
            forall|k: int| from <= k < at ==> (#[trigger] glyphs@[k]).width <= 1,
        decreases to - at,
    {
        if glyphs[at].width > 1 {
            assert(glyphs@[at as int].width > 1);
            return true;
        }
        at += 1;
    }
    false
}

/// The first glyph from `from` up to `to` that no longer fits into `room` cells.
fn find_fitting(glyphs: &Vec<GraphemeCell>, from: usize, to: usize, room: u16) -> (reach: usize)
    requires
        from <= to <= glyphs.len(),
    ensures
        reach == fitting(glyphs@, from as int, to as int, room as int),
        from <= reach <= to,
{
    let mut reach: usize = from;
    let mut left: u16 = room;
    while reach < to && glyphs[reach].width <= left
        invariant
            from <= reach <= to <= glyphs.len(),
            fitting(glyphs@, from as int, to as int, room as int) == fitting(
                glyphs@,
                reach as int,
                to as int,
                left as int,
            ),
        decreases to - reach,
    {
        left -= glyphs[reach].width;
        reach += 1;
    }
    reach
}

/// End of the piece that starts at glyph `from` of a token too wide for a row.
fn find_piece_end(glyphs: &Vec<GraphemeCell>, from: usize, to: usize, limit: u16) -> (end: usize)
    requires
        from < to <= glyphs.len(),
        1 <= limit,
    ensures
        end == piece_end(glyphs@, from as int, to as int, limit as int, 0, false),
        from < end <= to,
{
    proof {
        cells_split(glyphs@, from as int, from as int, from as int);
        piece_facts(glyphs@, from as int, from as int, to as int, limit as int, 0, false);
    }
    let mut end: usize = from;
    let mut width: u16 = 0;
    loop
        invariant_except_break
            from <= end < to <= glyphs.len(),
            piece_end(glyphs@, from as int, to as int, limit as int, 0, false) == piece_end(
                glyphs@,
                end as int,
                to as int,
                limit as int,
                width as int,
                end > from,
            ),
        ensures
            end == piece_end(glyphs@, from as int, to as int, limit as int, 0, false),
        decreases to - end,
    {
        proof {
            reveal_with_fuel(piece_end, 2);
        }
        let next: u16 = width.saturating_add(glyphs[end].width);
        if next > limit && end > from {
            break;
        }
        end += 1;
        if next >= limit || end == to {
            break;
        }
        width = next;
    }
    end
}

/// The rows finished so far and the row being filled.
struct Filling {
    rows: Vec<Chunk>,
    source: usize,
    start: usize,
    end: usize,
    width: u16,
}

/// The views of finished rows.
pub open spec fn chunk_views(rows: Seq<Chunk>) -> Seq<ChunkView> {
    rows.map_values(|row: Chunk| row@)
}

impl View for Filling {
    type V = Wrapping;

    closed spec fn view(&self) -> Wrapping {
        Wrapping {
            rows: chunk_views(self.rows@),
            source: self.source as int,
            start: self.start as int,
            end: self.end as int,
            width: self.width as int,
        }
    }
}

impl Filling {
    fn finish_row(&mut self, source_end: usize)
        ensures
            final(self)@ == old(self)@.finish_row(source_end as int),
    {
        let row = Chunk { source_start: self.source, source_end, start: self.start, end: self.end };
        self.rows.push(row);
        self.source = source_end;
        assert(chunk_views(self.rows@) =~= chunk_views(old(self).rows@).push(row@));
    }

    fn extend_last(&mut self, source_end: usize)
        requires
            old(self)@.rows.len() > 0,
        ensures
            final(self)@ == old(self)@.extend_last(source_end as int),
    {
        let last: usize = self.rows.len() - 1;
        let row: Chunk = self.rows[last];
        let extended = Chunk {
            source_start: row.source_start,
            source_end,
            start: row.start,
            end: row.end,
        };
        self.rows.set(last, extended);
        assert(old(self)@.rows.last() == row@);
        assert(chunk_views(self.rows@) =~= old(self)@.rows.drop_last().push(extended@));
    }

    fn cut(&mut self, glyphs: &Vec<GraphemeCell>, from: usize, to: usize, limit: u16)
        requires
            from < to <= glyphs.len(),
            1 <= limit,
        ensures
            final(self)@ == old(self)@.cut(glyphs@, from as int, to as int, limit as int),
    {
        let mut at: usize = from;
        while at < to
            invariant
                from <= at <= to <= glyphs.len(),
                1 <= limit,
                at < to ==> old(self)@.cut(glyphs@, from as int, to as int, limit as int)
                    == self@.cut(glyphs@, at as int, to as int, limit as int),
                at == to ==> self@ == old(self)@.cut(
                    glyphs@,
                    from as int,
                    to as int,
                    limit as int,
                ),
            decreases to - at,
        {
            let ghost before = *self;
            let end: usize = find_piece_end(glyphs, at, to, limit);
            if end < to {
                let row = Chunk {
                    source_start: self.source,
                    source_end: end,
                    start: at,
                    end,
                };
                self.rows.push(row);
                self.source = end;
                assert(chunk_views(self.rows@) =~= chunk_views(before.rows@).push(row@));
                at = end;
            } else {
                self.start = at;
                self.end = to;
                self.width = width_between(glyphs, at, to);
                at = to;
            }
        }
    }

    fn take_wide(&mut self, glyphs: &Vec<GraphemeCell>, from: usize, to: usize, limit: u16)
        requires
            from < to <= glyphs.len(),
            1 <= limit,
            old(self)@.wf(glyphs@, from as int, limit as int),
            held(cells_between(glyphs@, from as int, to as int)) > limit,
        ensures
            final(self)@ == old(self)@.take_wide(glyphs@, from as int, to as int, limit as int),
    {
        let open: bool = self.end > self.start;
        let mut reach: usize = from;
        if open && self.width < limit {
            reach = find_fitting(glyphs, from, to, limit - self.width);
            proof {
                fitting_facts(glyphs@, from as int, to as int, limit - self.width);
                cells_split(glyphs@, from as int, reach as int, to as int);
            }
            if reach > from {
                self.end = reach;
                self.width = self.width + width_between(glyphs, from, reach);
            }
        }
        assert(reach < to);
        if open {
            self.finish_row(reach);
        }
        self.cut(glyphs, reach, to, limit);
    }

    fn break_before(&mut self, glyphs: &Vec<GraphemeCell>, from: usize, to: usize, limit: u16)
        requires
            from < to <= glyphs.len(),
            1 <= limit,
            old(self)@.wf(glyphs@, from as int, limit as int),
        ensures
            final(self)@ == old(self)@.break_before(
                glyphs@,
                from as int,
                to as int,
                limit as int,
            ),
    {
        let blank: bool = glyphs[from].whitespace;
        let mut reach: usize = from;
        if !blank && self.end > self.start && self.width <= limit && has_wide(glyphs, from, to) {
            reach = find_fitting(glyphs, from, to, limit - self.width);
            if reach > from {
                self.end = reach;
            }
        }
        proof {
            fitting_facts(glyphs@, from as int, to as int, limit - old(self)@.width);
        }
        self.finish_row(reach);
        if reach == to {
            self.start = reach;
            self.end = reach;
            self.width = 0;
        } else if blank {
            self.extend_last(to);
            self.source = to;
            self.start = to;
            self.end = to;
            self.width = 0;
        } else {
            self.start = reach;
            self.end = to;
            self.width = width_between(glyphs, reach, to);
        }
    }

    fn take(&mut self, glyphs: &Vec<GraphemeCell>, from: usize, to: usize, limit: u16)
        requires
            from < to <= glyphs.len(),
            1 <= limit,
            old(self)@.wf(glyphs@, from as int, limit as int),
        ensures
            final(self)@ == old(self)@.take(glyphs@, from as int, to as int, limit as int),
    {
        let width: u16 = width_between(glyphs, from, to);
        if self.end == self.start && glyphs[from].whitespace {
            assert(self@.rows.len() == self.rows@.len());
            if self.rows.len() > 0 {
                self.extend_last(to);
            } else {
                self.start = to;
                self.end = to;
            }
        } else if width > limit {
            self.take_wide(glyphs, from, to, limit);
        } else if self.width.saturating_add(width) > limit {
            self.break_before(glyphs, from, to, limit);
        } else {
            if self.end == self.start {
                self.start = from;
            }
            self.end = to;
            self.width = self.width.saturating_add(width);
        }
    }
}

/// Wraps a line of glyphs onto rows of `limit` cells.
pub fn wrap_glyphs(glyphs: &Vec<GraphemeCell>, limit: u16) -> (rows: Vec<Chunk>)
    requires
        1 <= limit,
        glyphs.len() > 0,
    ensures
        chunk_views(rows@) == wrapped(glyphs@, limit as int),
        rows_tile(chunk_views(rows@), glyphs.len() as int),
        rows.len() > 0,
{
    let mut state = Filling { rows: Vec::new(), source: 0, start: 0, end: 0, width: 0 };
    proof {
        assert(chunk_views(state.rows@) =~= Seq::<ChunkView>::empty());
        cells_split(glyphs@, 0, 0, 0);
        wrapping_tiles_the_line(glyphs@, limit as int);
    }
    let mut at: usize = 0;
    while at < glyphs.len()
        invariant
            at <= glyphs.len(),
            1 <= limit,
            state@.wf(glyphs@, at as int, limit as int),
            Wrapping::begin().take_all(glyphs@, 0, limit as int) == state@.take_all(
                glyphs@,
                at as int,
                limit as int,
            ),
        decreases glyphs.len() - at,
    {
        let end: usize = find_token_end(glyphs, at);
        proof {
            take_keeps_wf(state@, glyphs@, at as int, limit as int);
        }
        state.take(glyphs, at, end, limit);
        at = end;
    }
    assert(state@.rows.len() == state.rows@.len());
    if state.end > state.start || state.rows.len() == 0 {
        state.finish_row(glyphs.len());
    } else {
        state.extend_last(glyphs.len());
    }
    assert(chunk_views(state.rows@).len() == state.rows@.len());
    state.rows
}

} // verus!
