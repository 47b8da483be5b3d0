//! One row of cells, and what it means to write over part of it.
//!
//! A glyph wider than one cell owns the continuation cells to its right. A
//! write replaces the cells it covers and blanks the rest of every glyph it
//! cuts, so no continuation is ever left without its head.

use vstd::prelude::*;

use crate::cell::{blank_cell, glyph_cells, image_cell, Cell, CellContent, CellView, Shown};
use crate::color::Color;
use crate::strings::same_text;
use crate::style::{plain, Style};
use crate::text::{
    all_ascii, cells, contains_control, drawing_fits, drawn, is_line_stop, ClusterView, Text,
};

verus! {

/// A row of cells.
pub struct Row {
    cells: Vec<Cell>,
}

impl View for Row {
    type V = Seq<CellView>;

    closed spec fn view(&self) -> Seq<CellView> {
        self.cells@.map_values(|cell: Cell| cell@)
    }
}

/// Cells that a cell's content spans, counted from the cell itself.
pub open spec fn span(cell: CellView) -> int {
    match cell.content {
        Shown::Grapheme { width, .. } => width as int,
        _ => 1,
    }
}

/// The cell that carries the glyph shown at `at`.
pub open spec fn head(row: Seq<CellView>, at: int) -> int
    decreases at,
{
    if at > 0 && row[at].content is Continuation {
        head(row, at - 1)
    } else {
        at
    }
}

/// Whether the cell at `at` agrees with its neighbours: a glyph fits in the
/// row and owns continuations only, and a continuation belongs to a glyph.
pub open spec fn cell_ok(row: Seq<CellView>, at: int) -> bool {
    match row[at].content {
        Shown::Grapheme { text, width } => {
            &&& 1 <= width
            &&& at + width <= row.len()
            &&& !(width == 1 && text == seq![' '])
            &&& forall|k: int| at < k < at + width ==> (#[trigger] row[k]).content is Continuation
        },
        Shown::Continuation => {
            let owner = head(row, at);
            row[owner].content is Grapheme && owner + span(row[owner]) > at
        },
        _ => true,
    }
}

/// Whether every cell of the row agrees with its neighbours.
pub open spec fn row_ok(row: Seq<CellView>) -> bool {
    forall|at: int| 0 <= at < row.len() ==> #[trigger] cell_ok(row, at)
}

/// Whether the glyph shown at `at` has a cell among the `count` cells from
/// `from` on.
pub open spec fn cut(row: Seq<CellView>, at: int, from: int, count: int) -> bool {
    let owner = head(row, at);
    count > 0 && owner < from + count && from < owner + span(row[owner])
}

/// The row after the cells from `from` on are replaced by `cells`: what is
/// left of a glyph that loses a cell turns blank in its own style.
pub open spec fn overwrite(row: Seq<CellView>, from: int, cells: Seq<CellView>) -> Seq<CellView> {
    Seq::new(
        row.len(),
        |at: int|
            if from <= at < from + cells.len() {
                cells[at - from]
            } else if cut(row, at, from, cells.len() as int) {
                blank_cell(row[at].style)
            } else {
                row[at]
            },
    )
}

/// The row after the glyph shown at `at` turns blank.
pub open spec fn erased(row: Seq<CellView>, at: int) -> Seq<CellView> {
    Seq::new(
        row.len(),
        |i: int|
            if head(row, i) == head(row, at) {
                blank_cell(row[i].style)
            } else {
                row[i]
            },
    )
}

/// The first `width` cells of a row, ready to be placed elsewhere: a glyph
/// that does not fit turns blank, a continuation takes the style of its head
/// and an image none.
pub open spec fn clipped(row: Seq<CellView>, width: int) -> Seq<CellView> {
    Seq::new(
        width as nat,
        |at: int|
            if row[at].content is Image {
                CellView { content: row[at].content, style: plain() }
            } else if head(row, at) + span(row[head(row, at)]) > width {
                blank_cell(row[at].style)
            } else if row[at].content is Continuation {
                CellView { content: Shown::Continuation, style: row[head(row, at)].style }
            } else {
                row[at]
            },
    )
}

/// The cells that show `glyphs` one after the other.
pub open spec fn glyph_run(glyphs: Seq<ClusterView>, style: Style) -> Seq<CellView>
    decreases glyphs.len(),
{
    if glyphs.len() == 0 {
        Seq::empty()
    } else {
        glyph_run(glyphs.drop_last(), style) + glyph_cells(
            glyphs.last().text,
            glyphs.last().width,
            style,
        )
    }
}

/// `count` blanks in one style.
pub open spec fn blanks(count: nat, style: Style) -> Seq<CellView> {
    Seq::new(count, |i: int| blank_cell(style))
}

/// The cell that carries a glyph stands at or before it and is no
/// continuation, and everything in between is one.
pub proof fn head_facts(row: Seq<CellView>, at: int)
    requires
        row_ok(row),
        0 <= at < row.len(),
    ensures
        0 <= head(row, at) <= at,
        !(row[head(row, at)].content is Continuation),
        head(row, at) + span(row[head(row, at)]) > at,
        head(row, at) + span(row[head(row, at)]) <= row.len(),
        span(row[head(row, at)]) >= 1,
        forall|k: int|
            head(row, at) < k <= at ==> (#[trigger] row[k]).content is Continuation,
{
    head_walks_back(row, at);
    assert(cell_ok(row, at));
    assert(cell_ok(row, head(row, at)));
}

proof fn head_walks_back(row: Seq<CellView>, at: int)
    requires
        0 <= at < row.len(),
    ensures
        0 <= head(row, at) <= at,
        head(row, at) > 0 ==> !(row[head(row, at)].content is Continuation),
        forall|k: int|
            head(row, at) < k <= at ==> (#[trigger] row[k]).content is Continuation,
    decreases at,
{
    if at > 0 && row[at].content is Continuation {
        head_walks_back(row, at - 1);
    }
}

/// A cell with nothing but continuations between it and `at` is the head of `at`.
pub proof fn head_is(row: Seq<CellView>, at: int, owner: int)
    requires
        0 <= owner <= at < row.len(),
        !(row[owner].content is Continuation),
        forall|k: int| owner < k <= at ==> (#[trigger] row[k]).content is Continuation,
    ensures
        head(row, at) == owner,
    decreases at,
{
    if owner < at {
        head_is(row, at - 1, owner);
    }
}

/// Every cell of a glyph has the glyph's first cell as its head.
pub proof fn glyph_heads(row: Seq<CellView>, owner: int, at: int)
    requires
        row_ok(row),
        0 <= owner < row.len(),
        !(row[owner].content is Continuation),
        owner <= at < owner + span(row[owner]),
    ensures
        at < row.len(),
        head(row, at) == owner,
{
    assert(cell_ok(row, owner));
    head_is(row, at, owner);
}

/// Rows whose cells agree up to and including `at` agree on its head.
pub proof fn head_is_local(a: Seq<CellView>, b: Seq<CellView>, from: int, at: int)
    requires
        0 <= from <= at < a.len(),
        at < b.len(),
        !(a[from].content is Continuation),
        forall|k: int|
            from <= k <= at ==> (a[k].content is Continuation) == ((#[trigger] b[k]).content is
                Continuation),
    ensures
        head(a, at) == head(b, at),
        head(a, at) >= from,
    decreases at,
{
    if at > from && a[at].content is Continuation {
        assert(b[at].content is Continuation);
        head_is_local(a, b, from, at - 1);
    } else {
        assert(!(b[at].content is Continuation));
    }
}

/// Erasing a glyph keeps the row in agreement.
proof fn erasing_keeps_agreement(row: Seq<CellView>, at: int)
    requires
        row_ok(row),
        0 <= at < row.len(),
    ensures
        row_ok(erased(row, at)),
        forall|i: int|
            0 <= i < row.len() ==> #[trigger] head(erased(row, at), i) == (if head(row, i) == head(
                row,
                at,
            ) {
                i
            } else {
                head(row, i)
            }),
{
    let after = erased(row, at);
    let owner = head(row, at);
    assert forall|i: int| 0 <= i < row.len() implies #[trigger] head(after, i) == (if head(row, i)
        == owner {
        i
    } else {
        head(row, i)
    }) by {
        head_facts(row, i);
        if head(row, i) != owner {
            let own = head(row, i);
            assert forall|k: int| own < k <= i implies (#[trigger] after[k]).content is
                Continuation by {
                glyph_heads(row, own, k);
            }
            glyph_heads(row, own, own);
            assert(after[own] == row[own]);
            head_is(after, i, own);
        } else {
            assert(after[i].content is Blank);
        }
    }
    assert forall|i: int| 0 <= i < after.len() implies #[trigger] cell_ok(after, i) by {
        head_facts(row, i);
        assert(cell_ok(row, i));
        if head(row, i) != owner {
            let own = head(row, i);
            glyph_heads(row, own, own);
            assert(after[own] == row[own]);
            match row[i].content {
                Shown::Grapheme { width, .. } => {
                    head_is(row, i, i);
                    assert forall|k: int| i < k < i + width implies (#[trigger] after[k]).content is
                        Continuation by {
                        glyph_heads(row, i, k);
                    }
                },
                _ => {},
            }
        }
    }
}

/// Writing well-formed cells over a well-formed row leaves it well formed.
pub proof fn overwriting_keeps_agreement(row: Seq<CellView>, from: int, new: Seq<CellView>)
    requires
        row_ok(row),
        row_ok(new),
        0 <= from,
        from + new.len() <= row.len(),
    ensures
        row_ok(overwrite(row, from, new)),
        forall|i: int|
            0 <= i < row.len() ==> #[trigger] head(overwrite(row, from, new), i) == (if from <= i
                < from + new.len() {
                from + head(new, i - from)
            } else if cut(row, i, from, new.len() as int) {
                i
            } else {
                head(row, i)
            }),
{
    let after = overwrite(row, from, new);
    let n = new.len() as int;
    assert forall|i: int| 0 <= i < row.len() implies #[trigger] head(after, i) == (if from <= i
        < from + n {
        from + head(new, i - from)
    } else if cut(row, i, from, n) {
        i
    } else {
        head(row, i)
    }) by {
        head_facts(row, i);
        if from <= i < from + n {
            let own = head(new, i - from);
            head_facts(new, i - from);
            assert forall|k: int| from + own < k <= i implies (#[trigger] after[k]).content is
                Continuation by {
                assert(new[k - from].content is Continuation);
            }
            head_is(after, i, from + own);
        } else if cut(row, i, from, n) {
            assert(after[i].content is Blank);
        } else {
            let own = head(row, i);
            glyph_heads(row, own, own);
            assert(after[own] == row[own]);
            assert forall|k: int| own < k <= i implies (#[trigger] after[k]).content is
                Continuation by {
                glyph_heads(row, own, k);
                assert(row[k].content is Continuation);
            }
            head_is(after, i, own);
        }
    }
    assert forall|i: int| 0 <= i < after.len() implies #[trigger] cell_ok(after, i) by {
        head_facts(row, i);
        assert(cell_ok(row, i));
        if from <= i < from + n {
            assert(cell_ok(new, i - from));
            head_facts(new, i - from);
            match new[i - from].content {
                Shown::Grapheme { width, .. } => {
                    assert forall|k: int| i < k < i + width implies (#[trigger] after[k]).content is
                        Continuation by {
                        assert(new[k - from].content is Continuation);
                    }
                },
                _ => {},
            }
        } else if !cut(row, i, from, n) {
            let own = head(row, i);
            glyph_heads(row, own, own);
            assert(after[own] == row[own]);
            match row[i].content {
                Shown::Grapheme { width, .. } => {
                    head_is(row, i, i);
                    assert forall|k: int| i < k < i + width implies (#[trigger] after[k]).content is
                        Continuation by {
                        glyph_heads(row, i, k);
                        assert(row[k].content is Continuation);
                    }
                },
                _ => {},
            }
        }
    }
}

/// Writing one run after another is writing their concatenation.
pub proof fn overwriting_composes(
    row: Seq<CellView>,
    from: int,
    first: Seq<CellView>,
    second: Seq<CellView>,
)
    requires
        row_ok(row),
        row_ok(first),
        row_ok(second),
        0 <= from,
        from + first.len() + second.len() <= row.len(),
    ensures
        overwrite(overwrite(row, from, first), from + first.len(), second) == overwrite(
            row,
            from,
            first + second,
        ),
{
    let middle = overwrite(row, from, first);
    let seam = from + first.len();
    overwriting_keeps_agreement(row, from, first);
    let left = overwrite(middle, seam, second);
    let right = overwrite(row, from, first + second);
    assert forall|i: int| 0 <= i < row.len() implies left[i] == right[i] by {
        head_facts(row, i);
        head_facts(middle, i);
        assert(head(middle, i) == head(middle, i));
        if from <= i < seam {
            head_facts(first, i - from);
        }
    }
    assert(left =~= right);
}

/// Writing no cell changes nothing.
pub proof fn overwriting_nothing(row: Seq<CellView>, from: int)
    ensures
        overwrite(row, from, Seq::empty()) == row,
{
    assert(overwrite(row, from, Seq::empty()) =~= row);
}

/// What was written is what is there.
pub proof fn overwritten_cells_show(row: Seq<CellView>, from: int, new: Seq<CellView>)
    requires
        0 <= from,
        from + new.len() <= row.len(),
    ensures
        overwrite(row, from, new).subrange(from, from + new.len()) == new,
{
    assert(overwrite(row, from, new).subrange(from, from + new.len()) =~= new);
}

/// The cells of one glyph are in agreement.
pub proof fn glyph_cells_agree(text: Seq<char>, width: u16, style: Style)
    requires
        width >= 1,
    ensures
        row_ok(glyph_cells(text, width, style)),
{
    let row = glyph_cells(text, width, style);
    assert forall|at: int| 0 <= at < row.len() implies #[trigger] cell_ok(row, at) by {
        if at > 0 {
            head_is(row, at, 0);
        }
    }
}

/// Two runs of cells in agreement stay so side by side.
pub proof fn concat_agrees(a: Seq<CellView>, b: Seq<CellView>)
    requires
        row_ok(a),
        row_ok(b),
    ensures
        row_ok(a + b),
{
    let row = a + b;
    assert forall|at: int| 0 <= at < row.len() implies #[trigger] cell_ok(row, at) by {
        if at < a.len() {
            assert(cell_ok(a, at));
            head_facts(a, at);
            let owner = head(a, at);
            assert forall|k: int| owner < k <= at implies (#[trigger] row[k]).content is
                Continuation by {
                assert(a[k].content is Continuation);
            }
            head_is(row, at, owner);
            match a[at].content {
                Shown::Grapheme { width, .. } => {
                    assert forall|k: int| at < k < at + width implies (#[trigger] row[k]).content is
                        Continuation by {
                        assert(a[k].content is Continuation);
                    }
                },
                _ => {},
            }
        } else {
            let off = a.len() as int;
            assert(cell_ok(b, at - off));
            head_facts(b, at - off);
            let owner = head(b, at - off);
            assert forall|k: int| owner + off < k <= at implies (#[trigger] row[k]).content is
                Continuation by {
                assert(b[k - off].content is Continuation);
            }
            head_is(row, at, owner + off);
            match b[at - off].content {
                Shown::Grapheme { width, .. } => {
                    assert forall|k: int| at < k < at + width implies (#[trigger] row[k]).content is
                        Continuation by {
                        assert(b[k - off].content is Continuation);
                    }
                },
                _ => {},
            }
        }
    }
}

/// A run of glyphs is in agreement and as wide as its clusters.
pub proof fn glyph_run_agrees(glyphs: Seq<ClusterView>, style: Style)
    requires
        forall|i: int| 0 <= i < glyphs.len() ==> (#[trigger] glyphs[i]).width >= 1,
    ensures
        row_ok(glyph_run(glyphs, style)),
        glyph_run(glyphs, style).len() == cells(glyphs),
    decreases glyphs.len(),
{
    if glyphs.len() > 0 {
        assert forall|i: int| 0 <= i < glyphs.drop_last().len() implies (#[trigger] glyphs.drop_last()[i]).width
            >= 1 by {
            assert(glyphs.drop_last()[i] == glyphs[i]);
        }
        glyph_run_agrees(glyphs.drop_last(), style);
        glyph_cells_agree(glyphs.last().text, glyphs.last().width, style);
        concat_agrees(
            glyph_run(glyphs.drop_last(), style),
            glyph_cells(glyphs.last().text, glyphs.last().width, style),
        );
    }
}

/// The clipped cells of a row in agreement are in agreement.
pub proof fn clipping_keeps_agreement(row: Seq<CellView>, width: int)
    requires
        row_ok(row),
        0 <= width <= row.len(),
    ensures
        row_ok(clipped(row, width)),
{
    let after = clipped(row, width);
    assert forall|at: int| 0 <= at < width implies #[trigger] cell_ok(after, at) by {
        head_facts(row, at);
        assert(cell_ok(row, at));
        let owner = head(row, at);
        glyph_heads(row, owner, owner);
        if row[at].content is Continuation && owner + span(row[owner]) <= width {
            assert forall|k: int| owner < k <= at implies (#[trigger] after[k]).content is
                Continuation by {
                glyph_heads(row, owner, k);
                assert(row[k].content is Continuation);
            }
            assert(after[owner] == row[owner]);
            head_is(after, at, owner);
        }
        match after[at].content {
            Shown::Grapheme { width: w, .. } => {
                head_is(row, at, at);
                assert forall|k: int| at < k < at + w implies (#[trigger] after[k]).content is
                    Continuation by {
                    glyph_heads(row, at, k);
                    assert(row[k].content is Continuation);
                }
            },
            _ => {},
        }
    }
}

impl Row {
    /// Number of cells.
    pub fn len(&self) -> (count: usize)
        ensures
            count == self@.len(),
    {
        self.cells.len()
    }

    /// A row of blanks.
    pub fn blank(width: u16, style: Style) -> (row: Self)
        ensures
            row@ == blanks(width as nat, style),
            row_ok(row@),
    {
        let mut cells: Vec<Cell> = Vec::new();
        let mut at: u16 = 0;
        while at < width
            invariant
                at <= width,
                cells.len() == at,
                forall|i: int| 0 <= i < at ==> (#[trigger] cells@[i])@ == blank_cell(style),
            decreases width - at,
        {
            cells.push(Cell::blank(style));
            at += 1;
        }
        let row = Row { cells };
        assert(row@ =~= blanks(width as nat, style));
        row
    }

    /// The cell at `x`.
    pub fn cell(&self, x: u16) -> (cell: &Cell)
        requires
            x < self@.len(),
        ensures
            cell@ == self@[x as int],
    {
        &self.cells[x as usize]
    }

    /// A row that shows the same.
    pub fn copy(&self) -> (row: Self)
        ensures
            row@ == self@,
    {
        let mut cells: Vec<Cell> = Vec::new();
        let mut at: usize = 0;
        while at < self.cells.len()
            invariant
                at <= self.cells.len(),
                cells.len() == at,
                forall|i: int| 0 <= i < at ==> (#[trigger] cells@[i])@ == self@[i],
            decreases self.cells.len() - at,
        {
            cells.push(self.cells[at].copy());
            at += 1;
        }
        let row = Row { cells };
        assert(row@ =~= self@);
        row
    }

    /// Whether two rows show the same.
    pub fn same(&self, other: &Self) -> (same: bool)
        ensures
            same == (self@ == other@),
    {
        assert(self@.len() == self.cells@.len() && other@.len() == other.cells@.len());
        if self.cells.len() != other.cells.len() {
            return false;
        }
        let mut at: usize = 0;
        while at < self.cells.len()
            invariant
                at <= self.cells.len(),
                self.cells.len() == other.cells.len(),
                forall|i: int| 0 <= i < at ==> self@[i] == other@[i],
            decreases self.cells.len() - at,
        {
            if !self.cells[at].same(&other.cells[at]) {
                assert(self@[at as int] != other@[at as int]);
                return false;
            }
            at += 1;
        }
        assert(self@ =~= other@);
        true
    }

    /// Blanks the glyph shown at `x`, every cell in its own style.
    fn clear_glyph_at(&mut self, x: usize)
        requires
            row_ok(old(self)@),
            x < old(self)@.len(),
        ensures
            final(self)@ == erased(old(self)@, x as int),
            row_ok(final(self)@),
    {
        let ghost row = self@;
        assert(row.len() == self.cells.len());
        proof {
            head_facts(row, x as int);
        }
        let mut start: usize = x;
        while start > 0 && matches!(self.cells[start].content, CellContent::Continuation)
            invariant
                *self == *old(self),
                row == self@,
                row.len() == self.cells@.len(),
                row_ok(row),
                x < row.len(),
                head(row, x as int) <= start <= x,
                head(row, start as int) == head(row, x as int),
            decreases start,
        {
            proof {
                assert(row[start as int] == self.cells@[start as int]@);
                head_walks_back(row, start - 1);
            }
            start -= 1;
        }
        proof {
            head_facts(row, start as int);
            assert(head(row, start as int) == start);
            assert(cell_ok(row, start as int));
            assert(row[start as int] == self.cells@[start as int]@);
        }
        let width: usize = match &self.cells[start].content {
            CellContent::Grapheme { width, .. } => *width as usize,
            _ => 1,
        };
        let end: usize = start + width;
        let mut column: usize = start;
        while column < end
            invariant
                start <= column <= end <= row.len(),
                self.cells.len() == row.len(),
                row_ok(row),
                end == start + span(row[start as int]),
                !(row[start as int].content is Continuation),
                forall|i: int|
                    0 <= i < row.len() ==> (#[trigger] self.cells@[i])@ == (if start <= i < column {
                        blank_cell(row[i].style)
                    } else {
                        row[i]
                    }),
            decreases end - column,
        {
            let style: Style = self.cells[column].style;
            self.cells.set(column, Cell::blank(style));
            column += 1;
        }
        proof {
            assert forall|i: int| 0 <= i < row.len() implies (head(row, i) == start <==> start <= i
                < end) by {
                head_facts(row, i);
                if start <= i < end {
                    glyph_heads(row, start as int, i);
                }
            }
            assert(self@ =~= erased(row, x as int));
            erasing_keeps_agreement(row, x as int);
        }
    }

    /// Writes `new` over the cells from `from` on.
    pub fn overwrite(&mut self, from: usize, new: Vec<Cell>)
        requires
            row_ok(old(self)@),
            row_ok(new@.map_values(|cell: Cell| cell@)),
            from + new.len() <= old(self)@.len(),
        ensures
            final(self)@ == overwrite(
                old(self)@,
                from as int,
                new@.map_values(|cell: Cell| cell@),
            ),
            row_ok(final(self)@),
    {
        let ghost row = self@;
        let ghost written = new@.map_values(|cell: Cell| cell@);
        let count: usize = new.len();
        assert(row.len() == self.cells.len());
        proof {
            overwriting_keeps_agreement(row, from as int, written);
        }
        if count == 0 {
            assert(overwrite(row, from as int, written) =~= row);
            return;
        }
        self.clear_glyph_at(from);
        let ghost first = self@;
        self.clear_glyph_at(from + count - 1);
        let ghost second = self@;
        assert(second.len() == self.cells@.len());
        let mut pending: Vec<Cell> = new;
        while pending.len() > 0
            invariant
                pending.len() <= count,
                from + count <= row.len(),
                self.cells.len() == row.len(),
                second.len() == row.len(),
                written.len() == count,
                forall|i: int| 0 <= i < pending.len() ==> (#[trigger] pending@[i])@ == written[i],
                forall|i: int|
                    0 <= i < row.len() ==> (#[trigger] self.cells@[i])@ == (if from
                        + pending.len() <= i < from + count {
                        written[i - from]
                    } else {
                        second[i]
                    }),
            decreases pending.len(),
        {
            let ghost before = pending@;
            let last = pending.pop();
            match last {
                Some(cell) => {
                    assert(cell@ == before[before.len() - 1]@);
                    self.cells.set(from + pending.len(), cell);
                },
                None => {},
            }
        }
        proof {
            let end = from + count - 1;
            assert forall|i: int| 0 <= i < row.len() implies self@[i] == overwrite(
                row,
                from as int,
                written,
            )[i] by {
                assert(self@[i] == self.cells@[i]@);
                if !(from <= i < from + count) {
                    head_facts(row, i);
                    head_facts(row, from as int);
                    head_facts(row, end);
                    erasing_keeps_agreement(row, from as int);
                    head_facts(first, i);
                    head_facts(first, end);
                    assert(head(first, i) == head(first, i));
                    assert(head(first, end) == head(first, end));
                    let owner = head(row, i);
                    if cut(row, i, from as int, count as int) {
                        if i < from {
                            glyph_heads(row, owner, from as int);
                        } else {
                            glyph_heads(row, owner, end);
                        }
                    }
                }
            }
            assert(self@ =~= overwrite(row, from as int, written));
        }
    }

    /// Blanks the cells from `left` up to `right`.
    pub fn fill(&mut self, left: u16, right: u16, style: Style)
        requires
            row_ok(old(self)@),
            left <= right <= old(self)@.len(),
        ensures
            final(self)@ == overwrite(
                old(self)@,
                left as int,
                blanks((right - left) as nat, style),
            ),
            row_ok(final(self)@),
    {
        let new = Row::blank(right - left, style);
        assert(new@.len() == new.cells@.len());
        self.overwrite(left as usize, new.cells);
    }

    /// Places an image cell at `x`.
    pub fn put_image(&mut self, x: u16, id: u32, row: u16, col: u16, rows: u16, cols: u16)
        requires
            row_ok(old(self)@),
            x < old(self)@.len(),
        ensures
            final(self)@ == overwrite(
                old(self)@,
                x as int,
                seq![image_cell(id, row, col, rows, cols)],
            ),
            row_ok(final(self)@),
    {
        let mut new: Vec<Cell> = Vec::new();
        new.push(
            Cell {
                content: CellContent::Image { id, row, col, rows, cols },
                style: Style::new(),
            },
        );
        proof {
            let written = new@.map_values(|cell: Cell| cell@);
            assert(written =~= seq![image_cell(id, row, col, rows, cols)]);
            assert(row_ok(written));
        }
        self.overwrite(x as usize, new);
    }

    /// Draws `text` from `x` on, within `room` cells; returns the column after
    /// the last drawn cell.
    pub fn put(&mut self, x: u16, room: u16, text: &Text, style: Style) -> (end: u16)
        requires
            row_ok(old(self)@),
            x + room <= old(self)@.len(),
            x + room <= 65535,
        ensures
            final(self)@ == overwrite(
                old(self)@,
                x as int,
                glyph_run(drawn(text@, room as int, all_ascii(text@)), style),
            ),
            end == x + cells(drawn(text@, room as int, all_ascii(text@))),
            end <= x + room,
            row_ok(final(self)@),
    {
        let pure: bool = text.is_ascii();
        let ghost shown = drawn(text@, room as int, pure);
        proof {
            drawing_fits(text@, room as int, pure);
            glyph_run_agrees(shown, style);
        }
        let mut new: Vec<Cell> = Vec::new();
        let mut left: u16 = room;
        let mut at: usize = 0;
        let ghost mut done: Seq<ClusterView> = Seq::empty();
        assert(glyph_run(done, style) =~= Seq::<CellView>::empty());
        assert(text@.skip(0) =~= text@);
        assert(done + shown =~= shown);
        let mut stopped: bool = false;
        while at < text.clusters.len() && !stopped
            invariant
                at <= text.clusters.len(),
                left <= room,
                x + room <= 65535,
                shown == drawn(text@, room as int, pure),
                cells(shown) <= room,
                forall|i: int| 0 <= i < shown.len() ==> (#[trigger] shown[i]).width >= 1,
                stopped ==> shown == done,
                !stopped ==> shown == done + drawn(text@.skip(at as int), left as int, pure),
                new@.map_values(|cell: Cell| cell@) =~= glyph_run(done, style),
                new.len() == cells(done),
                left + cells(done) == room,
            decreases text.clusters.len() - at, (if stopped { 0int } else { 1int }),
        {
            let ghost rest = text@.skip(at as int);
            let cluster = &text.clusters[at];
            assert(rest[0] == text@[at as int]);
            assert(rest[0] == cluster@);
            assert(rest.drop_first() =~= text@.skip(at + 1));
            if is_line_stop(cluster.text.as_str(), pure) {
                stopped = true;
                assert(done + Seq::<ClusterView>::empty() =~= done);
            } else if contains_control(cluster.text.as_str()) || cluster.width == 0 {
                at += 1;
            } else if cluster.width > left {
                stopped = true;
                assert(done + Seq::<ClusterView>::empty() =~= done);
            } else {
                let ghost before = new@.map_values(|cell: Cell| cell@);
                new.push(Cell::glyph(cluster.text.as_str(), cluster.width, style));
                let mut extra: u16 = 1;
                while extra < cluster.width
                    invariant
                        1 <= extra <= cluster.width,
                        new@.map_values(|cell: Cell| cell@) =~= before + glyph_cells(
                            cluster.text@,
                            cluster.width,
                            style,
                        ).take(extra as int),
                    decreases cluster.width - extra,
                {
                    let ghost so_far = new@.map_values(|cell: Cell| cell@);
                    new.push(Cell { content: CellContent::Continuation, style });
                    assert(new@.map_values(|cell: Cell| cell@) =~= so_far.push(
                        CellView { content: Shown::Continuation, style },
                    ));
                    extra += 1;
                }
                proof {
                    let glyph = glyph_cells(cluster.text@, cluster.width, style);
                    assert(glyph.take(cluster.width as int) =~= glyph);
                    let next = done.push(cluster@);
                    assert(next.drop_last() =~= done);
                    assert(done + (seq![cluster@] + drawn(
                        rest.drop_first(),
                        left - cluster.width,
                        pure,
                    )) =~= next + drawn(rest.drop_first(), left - cluster.width, pure));
                    done = next;
                }
                left -= cluster.width;
                at += 1;
            }
        }
        proof {
            if !stopped {
                assert(text@.skip(at as int) =~= Seq::<ClusterView>::empty());
                assert(done + Seq::<ClusterView>::empty() =~= done);
            }
            assert(new@.map_values(|cell: Cell| cell@) =~= glyph_run(shown, style));
        }
        let end: u16 = x + (room - left);
        self.overwrite(x as usize, new);
        end
    }

    /// Copies the first `width` cells of `src` over the cells from `from` on;
    /// tells whether an image was among them.
    pub fn blit(&mut self, from: u16, src: &Row, width: u16) -> (images: bool)
        requires
            row_ok(old(self)@),
            row_ok(src@),
            width <= src@.len(),
            from + width <= old(self)@.len(),
        ensures
            final(self)@ == overwrite(old(self)@, from as int, clipped(src@, width as int)),
            images == exists|i: int| 0 <= i < width && (#[trigger] src@[i]).content is Image,
            row_ok(final(self)@),
    {
        let mut new: Vec<Cell> = Vec::new();
        let mut images: bool = false;
        let mut owner: usize = 0;
        let mut at: usize = 0;
        while at < width as usize
            invariant
                at <= width <= src@.len(),
                row_ok(src@),
                src.cells.len() == src@.len(),
                new.len() == at,
                at > 0 ==> owner == head(src@, at - 1),
                forall|i: int| 0 <= i < at ==> (#[trigger] new@[i])@ == clipped(src@, width as int)[i],
                images == exists|i: int| 0 <= i < at && (#[trigger] src@[i]).content is Image,
            decreases width - at,
        {
            proof {
                head_facts(src@, at as int);
                assert(cell_ok(src@, at as int));
                assert(src@[at as int] == src.cells@[at as int]@);
            }
            if !matches!(src.cells[at].content, CellContent::Continuation) {
                owner = at;
            }
            assert(owner == head(src@, at as int));
            assert(src@[owner as int] == src.cells@[owner as int]@);
            let reach: usize = match &src.cells[owner].content {
                CellContent::Grapheme { width, .. } => *width as usize,
                _ => 1,
            };
            let style: Style = src.cells[at].style;
            let cell: Cell = match &src.cells[at].content {
                CellContent::Image { id, row, col, rows, cols } => {
                    images = true;
                    Cell {
                        content: CellContent::Image {
                            id: *id,
                            row: *row,
                            col: *col,
                            rows: *rows,
                            cols: *cols,
                        },
                        style: Style::new(),
                    }
                },
                CellContent::Continuation => {
                    if owner + reach > width as usize {
                        Cell::blank(style)
                    } else {
                        Cell {
                            content: CellContent::Continuation,
                            style: src.cells[owner].style,
                        }
                    }
                },
                _ => {
                    if owner + reach > width as usize {
                        Cell::blank(style)
                    } else {
                        src.cells[at].copy()
                    }
                },
            };
            assert(cell@ == clipped(src@, width as int)[at as int]);
            new.push(cell);
            at += 1;
        }
        proof {
            clipping_keeps_agreement(src@, width as int);
            assert(new@.map_values(|cell: Cell| cell@) =~= clipped(src@, width as int));
        }
        self.overwrite(from as usize, new);
        images
    }

    /// Gives every cell from `left` up to `right` that has no background the
    /// background `color`.
    pub fn underlay(&mut self, left: u16, right: u16, color: Color)
        requires
            row_ok(old(self)@),
            right <= old(self)@.len(),
        ensures
            final(self)@ == underlaid(old(self)@, left as int, right as int, color),
            row_ok(final(self)@),
    {
        let ghost row = self@;
        let mut at: usize = left as usize;
        while at < right as usize
            invariant
                left <= at,
                at <= right || at == left,
                right <= row.len(),
                self.cells.len() == row.len(),
                forall|i: int|
                    0 <= i < row.len() ==> (#[trigger] self.cells@[i])@ == (if left <= i < at {
                        underlaid(row, left as int, right as int, color)[i]
                    } else {
                        row[i]
                    }),
            decreases right - at,
        {
            if self.cells[at].style.background == Color::Default {
                let cell: Cell = self.cells[at].copy();
                let style: Style = cell.style.bg(color);
                self.cells.set(at, Cell { content: cell.content, style });
            }
            at += 1;
        }
        proof {
            assert(self@ =~= underlaid(row, left as int, right as int, color));
            restyling_keeps_agreement(row, self@);
        }
    }

    /// Gives the cell at `x` the foreground `color`.
    pub fn recolor_fg(&mut self, x: u16, color: Color)
        requires
            row_ok(old(self)@),
            x < old(self)@.len(),
        ensures
            final(self)@ == old(self)@.update(
                x as int,
                CellView {
                    content: old(self)@[x as int].content,
                    style: Style { foreground: color, ..old(self)@[x as int].style },
                },
            ),
            row_ok(final(self)@),
    {
        let ghost row = self@;
        let cell: Cell = self.cells[x as usize].copy();
        let style: Style = cell.style.fg(color);
        self.cells.set(x as usize, Cell { content: cell.content, style });
        proof {
            assert(self@ =~= row.update(
                x as int,
                CellView {
                    content: row[x as int].content,
                    style: Style { foreground: color, ..row[x as int].style },
                },
            ));
            restyling_keeps_agreement(row, self@);
        }
    }
}

/// The row after every glyph that starts at `left` or later and has no
/// background adopts, up to `right`, the color picked for its first cell.
pub open spec fn ramp_underlaid(
    row: Seq<CellView>,
    left: int,
    right: int,
    colors: Seq<Color>,
) -> Seq<CellView> {
    Seq::new(
        row.len(),
        |at: int|
            {
                let owner = head(row, at);
                if left <= owner && at < right && row[owner].style.background == Color::Default
                    && row[at].style.background == Color::Default {
                    CellView {
                        content: row[at].content,
                        style: Style { background: colors[owner - left], ..row[at].style },
                    }
                } else {
                    row[at]
                }
            },
    )
}

/// The row after every visible glyph that starts at `left` or later and has
/// no foreground adopts, up to `right`, the color picked for its first cell.
pub open spec fn ramp_inked(
    row: Seq<CellView>,
    left: int,
    right: int,
    colors: Seq<Color>,
) -> Seq<CellView> {
    Seq::new(
        row.len(),
        |at: int|
            {
                let owner = head(row, at);
                if left <= owner && at < right && visible(row[owner])
                    && row[owner].style.foreground == Color::Default
                    && row[at].style.foreground == Color::Default {
                    CellView {
                        content: row[at].content,
                        style: Style { foreground: colors[owner - left], ..row[at].style },
                    }
                } else {
                    row[at]
                }
            },
    )
}

/// Whether a cell carries ink: a glyph other than a space, or an image.
pub open spec fn visible(cell: CellView) -> bool {
    match cell.content {
        Shown::Grapheme { text, .. } => text != seq![' '],
        Shown::Image { .. } => true,
        _ => false,
    }
}

impl Row {
    /// Paints a ramp behind the glyphs from `left` up to `right` that named no
    /// background; `colors` holds one color for each of those columns.
    pub fn underlay_ramp(&mut self, left: u16, right: u16, colors: &Vec<Color>)
        requires
            row_ok(old(self)@),
            right <= old(self)@.len(),
            left + colors.len() >= right,
        ensures
            final(self)@ == ramp_underlaid(old(self)@, left as int, right as int, colors@),
            row_ok(final(self)@),
    {
        let ghost row = self@;
        let ghost goal = ramp_underlaid(row, left as int, right as int, colors@);
        let mut picked: Option<Color> = None;
        let mut at: usize = left as usize;
        while at < right as usize
            invariant
                left <= at,
                at <= right || at == left,
                right <= row.len(),
                row_ok(row),
                left + colors.len() >= right,
                goal == ramp_underlaid(row, left as int, right as int, colors@),
                self.cells.len() == row.len(),
                at == left ==> picked is None,
                at > left ==> picked == ({
                    let owner = head(row, at - 1);
                    if left <= owner && row[owner].style.background == Color::Default {
                        Some(colors@[owner - left])
                    } else {
                        None
                    }
                }),
                forall|i: int|
                    0 <= i < row.len() ==> (#[trigger] self.cells@[i])@ == (if left <= i < at {
                        goal[i]
                    } else {
                        row[i]
                    }),
            decreases right - at,
        {
            proof {
                head_facts(row, at as int);
                assert(cell_ok(row, at as int));
                assert(row[at as int] == self.cells@[at as int]@);
                if at > left {
                    head_facts(row, at - 1);
                }
            }
            let bare: bool = self.cells[at].style.background == Color::Default;
            if !matches!(self.cells[at].content, CellContent::Continuation) {
                picked = if bare {
                    Some(colors[at - left as usize])
                } else {
                    None
                };
            }
            if bare {
                match picked {
                    Some(color) => {
                        let cell: Cell = self.cells[at].copy();
                        let style: Style = cell.style.bg(color);
                        self.cells.set(at, Cell { content: cell.content, style });
                    },
                    None => {},
                }
            }
            assert(self.cells@[at as int]@ == goal[at as int]);
            at += 1;
        }
        proof {
            assert forall|i: int| 0 <= i < row.len() implies self@[i] == goal[i] by {
                assert(self@[i] == self.cells@[i]@);
                head_facts(row, i);
            }
            assert(self@ =~= goal);
            restyling_keeps_agreement(row, self@);
        }
    }

    /// Tints the visible glyphs from `left` up to `right` that named no
    /// foreground; `colors` holds one color for each of those columns.
    pub fn ink_ramp(&mut self, left: u16, right: u16, colors: &Vec<Color>)
        requires
            row_ok(old(self)@),
            right <= old(self)@.len(),
            left + colors.len() >= right,
        ensures
            final(self)@ == ramp_inked(old(self)@, left as int, right as int, colors@),
            row_ok(final(self)@),
    {
        proof {
            reveal_strlit(" ");
            assert(" "@ =~= seq![' ']);
        }
        let ghost row = self@;
        let ghost goal = ramp_inked(row, left as int, right as int, colors@);
        let mut picked: Option<Color> = None;
        let mut at: usize = left as usize;
        while at < right as usize
            invariant
                left <= at,
                at <= right || at == left,
                right <= row.len(),
                row_ok(row),
                " "@ == seq![' '],
                left + colors.len() >= right,
                goal == ramp_inked(row, left as int, right as int, colors@),
                self.cells.len() == row.len(),
                at == left ==> picked is None,
                at > left ==> picked == ({
                    let owner = head(row, at - 1);
                    if left <= owner && visible(row[owner]) && row[owner].style.foreground
                        == Color::Default {
                        Some(colors@[owner - left])
                    } else {
                        None
                    }
                }),
                forall|i: int|
                    0 <= i < row.len() ==> (#[trigger] self.cells@[i])@ == (if left <= i < at {
                        goal[i]
                    } else {
                        row[i]
                    }),
            decreases right - at,
        {
            proof {
                head_facts(row, at as int);
                assert(cell_ok(row, at as int));
                assert(row[at as int] == self.cells@[at as int]@);
                if at > left {
                    head_facts(row, at - 1);
                }
            }
            let bare: bool = self.cells[at].style.foreground == Color::Default;
            let shows: bool = match &self.cells[at].content {
                CellContent::Grapheme { text, .. } => !same_text(text.as_str(), " "),
                CellContent::Image { .. } => true,
                _ => false,
            };
            if !matches!(self.cells[at].content, CellContent::Continuation) {
                picked = if bare && shows {
                    Some(colors[at - left as usize])
                } else {
                    None
                };
            }
            if bare {
                match picked {
                    Some(color) => {
                        let cell: Cell = self.cells[at].copy();
                        let style: Style = cell.style.fg(color);
                        self.cells.set(at, Cell { content: cell.content, style });
                    },
                    None => {},
                }
            }
            assert(self.cells@[at as int]@ == goal[at as int]);
            at += 1;
        }
        proof {
            assert forall|i: int| 0 <= i < row.len() implies self@[i] == goal[i] by {
                assert(self@[i] == self.cells@[i]@);
                head_facts(row, i);
            }
            assert(self@ =~= goal);
            restyling_keeps_agreement(row, self@);
        }
    }
}

/// The row after every cell from `left` up to `right` on the terminal's
/// default background adopts `color`.
pub open spec fn underlaid(row: Seq<CellView>, left: int, right: int, color: Color) -> Seq<CellView> {
    Seq::new(
        row.len(),
        |at: int|
            if left <= at < right && row[at].style.background == Color::Default {
                CellView {
                    content: row[at].content,
                    style: Style { background: color, ..row[at].style },
                }
            } else {
                row[at]
            },
    )
}

/// Rows with the same contents agree on heads, and are in agreement together.
pub proof fn restyling_keeps_agreement(row: Seq<CellView>, after: Seq<CellView>)
    requires
        row_ok(row),
        after.len() == row.len(),
        forall|at: int| 0 <= at < row.len() ==> (#[trigger] after[at]).content == row[at].content,
    ensures
        row_ok(after),
{
    assert forall|at: int| 0 <= at < after.len() implies #[trigger] cell_ok(after, at) by {
        assert(cell_ok(row, at));
        head_facts(row, at);
        let owner = head(row, at);
        assert forall|k: int| owner < k <= at implies (#[trigger] after[k]).content is
            Continuation by {
            assert(row[k].content is Continuation);
        }
        head_is(after, at, owner);
        match row[at].content {
            Shown::Grapheme { width, .. } => {
                assert forall|k: int| at < k < at + width implies (#[trigger] after[k]).content is
                    Continuation by {
                    assert(row[k].content is Continuation);
                }
            },
            _ => {},
        }
    }
}

} // verus!
