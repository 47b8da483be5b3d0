//! Where the options of a select stand.

use vstd::prelude::*;

use crate::charset::Charset;
use crate::geometry::{larger, max16, min16, sat_add, sat_sub, smaller, Rect};
use crate::lines::{desc_lines, desc_rows, label_lines, label_rows};
use crate::select::{
    ranked, ranks_ahead, score_of, unplaced, with_rank, OptionLayout, OptionView, Preview, Select,
    SelectView,
};
use crate::status::cell_count;
use crate::text::text_width;

verus! {

/// Cells ahead of a label: the cursor, the mark and a space.
pub open spec fn label_indent(charset: Charset) -> u16 {
    if charset == Charset::Ascii {
        6
    } else {
        4
    }
}

/// Cells of a label's lines.
pub open spec fn label_width(charset: Charset, width: u16) -> u16 {
    max16(sat_sub(width, label_indent(charset)), 1)
}

/// Cells ahead of a label: the cursor, the mark and a space.
pub fn option_label_indent(charset: Charset) -> (indent: u16)
    ensures
        indent == label_indent(charset),
{
    if charset == Charset::Ascii {
        6
    } else {
        4
    }
}

/// Cells of a label's lines.
pub fn option_label_width(charset: Charset, width: u16) -> (cells: u16)
    ensures
        cells == label_width(charset, width),
{
    larger(width.saturating_sub(option_label_indent(charset)), 1)
}

/// A count as cells, held at the largest coordinate.
pub fn to_cells(count: usize) -> (cells: u16)
    ensures
        cells == cell_count(count as int),
{
    if count <= 65535 {
        count as u16
    } else {
        65535
    }
}

/// A number of label lines as a coordinate, which wraps around.
pub open spec fn line_cells(count: int) -> u16 {
    (count % 65536) as u16
}

/// A number of label lines as a coordinate.
pub fn to_line_cells(count: usize) -> (cells: u16)
    ensures
        cells == line_cells(count as int),
{
    (count % 65536) as u16
}

/// Rows of the first `count` previews, held at the largest coordinate.
pub open spec fn previews_height(previews: Seq<Preview>, count: int) -> u16
    decreases count,
{
    if count <= 0 {
        0
    } else {
        sat_add(previews_height(previews, count - 1), previews[count - 1].height)
    }
}

/// Rows of the first `count` previews.
pub fn sum_previews(previews: &Vec<Preview>, count: usize) -> (rows: u16)
    requires
        count <= previews@.len(),
    ensures
        rows == previews_height(previews@, count as int),
{
    let mut rows: u16 = 0;
    let mut at: usize = 0;
    while at < count
        invariant
            at <= count <= previews@.len(),
            rows == previews_height(previews@, at as int),
        decreases count - at,
    {
        rows = rows.saturating_add(previews[at].height);
        at += 1;
    }
    rows
}

impl OptionView {
    /// Rows of the label or of the grid cells.
    pub open spec fn row_height(self, charset: Charset, width: u16) -> u16 {
        match self.rows {
            Some(rows) => rows,
            None => line_cells(label_rows(self.label, label_width(charset, width)).len() as int),
        }
    }

    /// Rows of the description.
    pub open spec fn desc_height(self, width: u16) -> u16 {
        match self.desc {
            Some(desc) => cell_count(desc_rows(desc, sat_sub(width, 6)).len() as int),
            None => 0,
        }
    }

    /// Rows of the whole option: its label or cells, description lines and
    /// previews.
    pub open spec fn height(self, charset: Charset, width: u16) -> u16 {
        sat_add(
            sat_add(self.row_height(charset, width), self.desc_height(width)),
            previews_height(self.previews, self.previews.len() as int),
        )
    }
}

impl SelectView {
    /// Rows of title and query line.
    pub open spec fn header_height(self) -> u16 {
        if self.label is Some && self.filter {
            2
        } else if self.label is Some || self.filter {
            1
        } else {
            0
        }
    }

    /// The cursor, held at the last visible row.
    pub open spec fn held_cursor(self) -> u16 {
        if self.visible.len() == 0 {
            0
        } else if self.cursor < self.visible.len() {
            self.cursor
        } else {
            (self.visible.len() - 1) as u16
        }
    }

    /// The option shown on a row.
    pub open spec fn shown(self, row: int) -> OptionView {
        self.options[self.visible[row] as int]
    }

    /// Rows of the first `count` visible options.
    pub open spec fn rows_height(self, charset: Charset, width: u16, count: int) -> u16
        decreases count,
    {
        if count <= 0 {
            0
        } else {
            sat_add(
                self.rows_height(charset, width, count - 1),
                self.shown(count - 1).height(charset, width),
            )
        }
    }

    /// The select measured at a width.
    pub open spec fn measured(self) -> Self {
        SelectView { header_rows: self.header_height(), cursor: self.held_cursor(), ..self }
    }

    /// First row of a window of `cap` screen rows that ends at row `at`, where
    /// the rows behind it take `span` screen rows already. The window moves in
    /// one pass, however far the cursor jumped.
    pub open spec fn pulled(
        self,
        charset: Charset,
        width: u16,
        cap: u16,
        first: int,
        at: int,
        span: u16,
    ) -> int
        decreases at - first + 1,
    {
        if at < first || at < 0 {
            first
        } else {
            let taken = sat_add(span, self.shown(at).height(charset, width));
            if taken > cap {
                if at + 1 <= self.cursor {
                    at + 1
                } else {
                    self.cursor as int
                }
            } else {
                self.pulled(charset, width, cap, first, at - 1, taken)
            }
        }
    }

    /// First row of the window: where it was, moved as far as the cursor asks.
    pub open spec fn window(self, charset: Charset, width: u16, cap: u16) -> int {
        let last = if self.visible.len() == 0 {
            0
        } else {
            self.visible.len() - 1
        };
        let kept = if self.scroll <= last {
            self.scroll as int
        } else {
            last
        };
        let first = if self.cursor < kept {
            self.cursor as int
        } else {
            kept
        };
        if self.visible.len() == 0 {
            first
        } else {
            self.pulled(charset, width, cap, first, self.cursor as int, 0)
        }
    }

    /// Layouts with the rows from `row` on placed from screen row `y` down,
    /// while fewer than `cap` screen rows are used; and how many were placed.
    pub open spec fn laid(
        self,
        charset: Charset,
        width: u16,
        cap: u16,
        layouts: Seq<OptionLayout>,
        row: int,
        y: u16,
        used: u16,
    ) -> (Seq<OptionLayout>, int)
        decreases self.visible.len() - row,
    {
        if row < 0 || row >= self.visible.len() || used >= cap {
            (layouts, 0)
        } else {
            let block = self.shown(row).height(charset, width);
            let (placed, shown) = self.laid(
                charset,
                width,
                cap,
                layouts.update(
                    self.visible[row] as int,
                    OptionLayout { top: y, height: block },
                ),
                row + 1,
                sat_add(y, block),
                sat_add(used, block),
            );
            (placed, shown + 1)
        }
    }

    /// The select placed into `area`.
    pub open spec fn placed(self, charset: Charset, area: Rect) -> Self {
        let ready = self.measured();
        let cap = max16(sat_sub(area.height, ready.header_rows), 1);
        let scroll = ready.window(charset, area.width, cap);
        let (layouts, shown) = ready.laid(
            charset,
            area.width,
            cap,
            Seq::new(self.options.len(), |i: int| unplaced()),
            scroll,
            sat_add(area.y, ready.header_rows),
            0,
        );
        SelectView {
            layouts,
            scroll: scroll as u16,
            page: max16(cell_count(shown), 1),
            ..ready
        }
    }

    /// Natural width of the first `count` options' labels, descriptions and
    /// previews.
    pub open spec fn options_width(self, count: int) -> u16
        decreases count,
    {
        if count <= 0 {
            0
        } else {
            let option = self.options[count - 1];
            let label = if option.rows is None {
                sat_add(text_width(option.label), 18)
            } else {
                0
            };
            let desc = match option.desc {
                Some(text) => sat_add(min16(text_width(text), 52), 6),
                None => 0,
            };
            max16(
                max16(max16(self.options_width(count - 1), label), desc),
                previews_width(option.previews, option.previews.len() as int),
            )
        }
    }
}

/// Natural width of the first `count` previews, indented.
pub open spec fn previews_width(previews: Seq<Preview>, count: int) -> u16
    decreases count,
{
    if count <= 0 {
        0
    } else {
        max16(
            previews_width(previews, count - 1),
            sat_add(previews[count - 1].natural, 8),
        )
    }
}

impl Select {
    /// Rows one option occupies at `width`.
    pub fn option_height(&self, charset: Charset, width: u16, index: usize) -> (rows: u16)
        requires
            index < self@.options.len(),
        ensures
            rows == self@.options[index as int].height(charset, width),
    {
        let row: u16 = self.row_height(charset, width, index);
        let desc: u16 = match &self.options[index].desc {
            Some(text) => to_cells(desc_lines(text, width.saturating_sub(6)).len()),
            None => 0,
        };
        proof {
            if self.options@[index as int].desc is Some {
                let text = self.options@[index as int].desc->0@;
                assert(desc == cell_count(desc_rows(text, sat_sub(width, 6)).len() as int));
            }
        }
        let previews: u16 = sum_previews(
            &self.options[index].previews,
            self.options[index].previews.len(),
        );
        row.saturating_add(desc).saturating_add(previews)
    }

    /// Rows of the label or of the grid cells.
    pub fn row_height(&self, charset: Charset, width: u16, index: usize) -> (rows: u16)
        requires
            index < self@.options.len(),
        ensures
            rows == self@.options[index as int].row_height(charset, width),
    {
        match self.options[index].rows {
            Some(rows) => rows,
            None => {
                let lines: Vec<(usize, usize)> = label_lines(
                    &self.options[index].label,
                    option_label_width(charset, width),
                );
                to_line_cells(lines.len())
            },
        }
    }

    /// Rows of title and query line.
    fn header_rows(&self) -> (rows: u16)
        ensures
            rows == self@.header_height(),
    {
        if self.label.is_some() && self.filter {
            2
        } else if self.label.is_some() || self.filter {
            1
        } else {
            0
        }
    }

    /// Holds the cursor at the last visible row and counts the header.
    fn settle(&mut self)
        requires
            old(self).wf(),
        ensures
            final(self).wf(),
            final(self)@ == old(self)@.measured(),
    {
        self.header_rows = self.header_rows();
        if self.visible.len() == 0 {
            self.cursor = 0;
        } else if self.cursor as usize >= self.visible.len() {
            self.cursor = (self.visible.len() - 1) as u16;
        }
    }

    /// Least and natural width; `grid` is the natural width of the grid cells,
    /// for selects that have any.
    pub fn measure(&self, grid: Option<u16>) -> (widths: (u16, u16))
        ensures
            widths.0 == 24,
            widths.1 == max16(
                max16(
                    max16(
                        match self@.label {
                            Some(label) => text_width(label),
                            None => 0,
                        },
                        self@.options_width(self@.options.len() as int),
                    ),
                    match grid {
                        Some(cells) => sat_add(cells, 2),
                        None => 0,
                    },
                ),
                30,
            ),
    {
        let title: u16 = match &self.label {
            Some(label) => label.width(),
            None => 0,
        };
        let mut natural: u16 = 0;
        let mut at: usize = 0;
        while at < self.options.len()
            invariant
                at <= self.options@.len(),
                natural == self@.options_width(at as int),
            decreases self.options.len() - at,
        {
            let option = &self.options[at];
            let ghost view = option@;
            assert(self@.options[at as int] == view);
            if option.rows.is_none() {
                natural = larger(natural, option.label.width().saturating_add(18));
            }
            if let Some(desc) = &option.desc {
                natural = larger(natural, smaller(desc.width(), 52).saturating_add(6));
            }
            let mut i: usize = 0;
            let mut previews: u16 = 0;
            while i < option.previews.len()
                invariant
                    i <= option.previews@.len(),
                    previews == previews_width(option.previews@, i as int),
                decreases option.previews.len() - i,
            {
                previews = larger(previews, option.previews[i].natural.saturating_add(8));
                i += 1;
            }
            natural = larger(natural, previews);
            at += 1;
        }
        let cells: u16 = match grid {
            Some(cells) => cells.saturating_add(2),
            None => 0,
        };
        (24, larger(larger(larger(title, natural), cells), 30))
    }

    /// Rows of the whole select at `width`.
    pub fn height(&mut self, charset: Charset, width: u16) -> (rows: u16)
        requires
            old(self).wf(),
        ensures
            final(self).wf(),
            final(self)@ == old(self)@.measured(),
            rows == sat_add(
                final(self)@.header_rows,
                final(self)@.rows_height(charset, width, final(self)@.visible.len() as int),
            ),
    {
        self.settle();
        let mut used: u16 = 0;
        let mut at: usize = 0;
        while at < self.visible.len()
            invariant
                at <= self.visible@.len(),
                self.wf(),
                used == self@.rows_height(charset, width, at as int),
            decreases self.visible.len() - at,
        {
            let index: usize = self.visible[at] as usize;
            used = used.saturating_add(self.option_height(charset, width, index));
            at += 1;
        }
        self.header_rows.saturating_add(used)
    }

    /// First row of the window.
    fn find_window(&self, charset: Charset, width: u16, cap: u16) -> (first: usize)
        requires
            self.wf(),
            self@.cursor == self@.held_cursor(),
        ensures
            first == self@.window(charset, width, cap),
            first < 65536,
    {
        let count: usize = self.visible.len();
        let last: usize = if count == 0 {
            0
        } else {
            count - 1
        };
        let cursor: usize = self.cursor as usize;
        let scroll: usize = self.scroll as usize;
        let kept: usize = if scroll <= last {
            scroll
        } else {
            last
        };
        let first: usize = if cursor < kept {
            cursor
        } else {
            kept
        };
        if count == 0 {
            return first;
        }
        let mut at: usize = cursor;
        let mut span: u16 = 0;
        loop
            invariant
                self.wf(),
                cursor == self@.cursor,
                first <= at <= cursor < self@.visible.len(),
                self@.window(charset, width, cap) == self@.pulled(
                    charset,
                    width,
                    cap,
                    first as int,
                    at as int,
                    span,
                ),
            decreases at,
        {
            let index: usize = self.visible[at] as usize;
            span = span.saturating_add(self.option_height(charset, width, index));
            if span > cap {
                if at + 1 <= cursor {
                    return at + 1;
                }
                return cursor;
            }
            if at == first {
                assert(self@.pulled(charset, width, cap, first as int, first - 1, span) == first);
                return first;
            }
            at -= 1;
        }
    }

    /// Places the options into `area`: as many as fit below the header, in a
    /// window that holds the cursor.
    pub fn place(&mut self, charset: Charset, area: Rect)
        requires
            old(self).wf(),
        ensures
            final(self).wf(),
            final(self)@ == old(self)@.placed(charset, area),
    {
        let ghost before = self@;
        self.settle();
        let ghost ready = self@;
        let cap: u16 = larger(area.height.saturating_sub(self.header_rows), 1);
        let first: usize = self.find_window(charset, area.width, cap);
        let mut layouts: Vec<OptionLayout> = Vec::new();
        let mut i: usize = 0;
        while i < self.options.len()
            invariant
                i <= self.options@.len(),
                layouts@ == Seq::new(i as nat, |j: int| unplaced()),
            decreases self.options.len() - i,
        {
            layouts.push(OptionLayout { top: 0, height: 0 });
            i += 1;
            assert(layouts@ =~= Seq::new(i as nat, |j: int| unplaced()));
        }
        let mut y: u16 = area.y.saturating_add(self.header_rows);
        let mut used: u16 = 0;
        let mut shown: usize = 0;
        let mut at: usize = first;
        let ghost start = (layouts@, y);
        let ghost goal = ready.laid(charset, area.width, cap, start.0, first as int, start.1, 0);
        while at < self.visible.len() && used < cap
            invariant
                self.wf(),
                self@ == ready,
                first <= at,
                shown == at - first,
                at < 131072,
                first < 65536,
                self.visible@.len() < 65536,
                at <= self.visible@.len() || at == first,
                layouts@.len() == self@.options.len(),
                goal == ({
                    let rest = ready.laid(
                        charset,
                        area.width,
                        cap,
                        layouts@,
                        at as int,
                        y,
                        used,
                    );
                    (rest.0, rest.1 + shown)
                }),
            decreases self.visible.len() - at,
        {
            let index: usize = self.visible[at] as usize;
            let block: u16 = self.option_height(charset, area.width, index);
            layouts.set(index, OptionLayout { top: y, height: block });
            y = y.saturating_add(block);
            used = used.saturating_add(block);
            shown += 1;
            at += 1;
        }
        assert(goal == (layouts@, shown as int));
        self.layouts = layouts;
        self.scroll = first as u16;
        self.page = larger(to_cells(shown), 1);
        assert(self@ =~= before.placed(charset, area));
    }

    /// The area of a preview of a placed option.
    pub fn preview_rect(&self, charset: Charset, area: Rect, index: usize, preview: usize) -> (rect:
        Rect)
        requires
            self.wf(),
            index < self@.options.len(),
            preview < self@.options[index as int].previews.len(),
        ensures
            ({
                let option = self@.options[index as int];
                &&& rect.x == sat_add(area.x, 8)
                &&& rect.y == sat_add(
                    self@.layouts[index as int].top,
                    sat_add(
                        sat_add(
                            option.row_height(charset, area.width),
                            option.desc_height(area.width),
                        ),
                        previews_height(option.previews, preview as int),
                    ),
                )
                &&& rect.width == sat_sub(area.width, 8)
                &&& rect.height == option.previews[preview as int].height
            }),
    {
        let row: u16 = self.row_height(charset, area.width, index);
        let desc: u16 = match &self.options[index].desc {
            Some(text) => to_cells(desc_lines(text, area.width.saturating_sub(6)).len()),
            None => 0,
        };
        proof {
            if self.options@[index as int].desc is Some {
                let text = self.options@[index as int].desc->0@;
                assert(desc == cell_count(desc_rows(text, sat_sub(area.width, 6)).len() as int));
            }
        }
        let above: u16 = sum_previews(&self.options[index].previews, preview);
        Rect::new(
            area.x.saturating_add(8),
            self.layouts[index].top.saturating_add(
                row.saturating_add(desc).saturating_add(above),
            ),
            area.width.saturating_sub(8),
            self.options[index].previews[preview].height,
        )
    }
}

/// Whether an order is best first.
pub open spec fn best_first(
    options: Seq<OptionView>,
    scores: Seq<Option<i32>>,
    order: Seq<u16>,
) -> bool {
    forall|i: int, j: int|
        0 <= i < j < order.len() ==> ranks_ahead(
            options,
            scores,
            #[trigger] order[i] as int,
            #[trigger] order[j] as int,
        )
}

/// An option at its rank keeps the order, and every other option.
proof fn rank_keeps_order(
    options: Seq<OptionView>,
    scores: Seq<Option<i32>>,
    order: Seq<u16>,
    index: u16,
)
    requires
        best_first(options, scores, order),
        forall|i: int| 0 <= i < order.len() ==> (#[trigger] order[i]) < index,
    ensures
        best_first(options, scores, with_rank(options, scores, order, index)),
        forall|other: u16| #[trigger]
            with_rank(options, scores, order, index).contains(other) <==> other == index
                || order.contains(other),
        with_rank(options, scores, order, index).len() == order.len() + 1,
    decreases order.len(),
{
    let all = with_rank(options, scores, order, index);
    if order.len() > 0 && ranks_ahead(options, scores, index as int, order.last() as int) {
        let front = order.drop_last();
        let rest = with_rank(options, scores, front, index);
        rank_keeps_order(options, scores, front, index);
        assert forall|i: int, j: int| 0 <= i < j < all.len() implies ranks_ahead(
            options,
            scores,
            #[trigger] all[i] as int,
            #[trigger] all[j] as int,
        ) by {
            if j == all.len() - 1 {
                assert(rest.contains(rest[i]));
                if rest[i] != index {
                    let k = choose|k: int| 0 <= k < front.len() && front[k] == rest[i];
                    assert(order[k] == rest[i]);
                    assert(order[order.len() - 1] == order.last());
                }
            } else {
                assert(all[i] == rest[i] && all[j] == rest[j]);
            }
        }
        assert forall|other: u16| #[trigger] all.contains(other) <==> other == index
            || order.contains(other) by {
            if all.contains(other) {
                let k = choose|k: int| 0 <= k < all.len() && all[k] == other;
                if k < rest.len() {
                    assert(rest[k] == other);
                    assert(rest.contains(other));
                    if other != index {
                        let m = choose|m: int| 0 <= m < front.len() && front[m] == other;
                        assert(order[m] == other);
                    }
                } else {
                    assert(order[order.len() - 1] == other);
                }
            }
            if other == index || front.contains(other) {
                assert(rest.contains(other));
                let k = choose|k: int| 0 <= k < rest.len() && rest[k] == other;
                assert(all[k] == other);
            } else if order.contains(other) {
                let m = choose|m: int| 0 <= m < order.len() && order[m] == other;
                if m < front.len() {
                    assert(front[m] == other);
                }
                assert(all[all.len() - 1] == other);
            }
        }
    } else {
        assert forall|i: int, j: int| 0 <= i < j < all.len() implies ranks_ahead(
            options,
            scores,
            #[trigger] all[i] as int,
            #[trigger] all[j] as int,
        ) by {
            if j == order.len() {
                assert(order[order.len() - 1] == order.last());
                if i < order.len() - 1 {
                    assert(ranks_ahead(
                        options,
                        scores,
                        order[i] as int,
                        order[order.len() - 1] as int,
                    ));
                }
            }
        }
        assert forall|other: u16| #[trigger] all.contains(other) <==> other == index
            || order.contains(other) by {
            if all.contains(other) {
                let k = choose|k: int| 0 <= k < all.len() && all[k] == other;
                if k < order.len() {
                    assert(order[k] == other);
                }
            }
            if other == index {
                assert(all[order.len() as int] == other);
            } else if order.contains(other) {
                let k = choose|k: int| 0 <= k < order.len() && order[k] == other;
                assert(all[k] == other);
            }
        }
    }
}

/// Filtering shows exactly the options that match, each once, best first.
pub proof fn filtering_ranks_the_matches(
    options: Seq<OptionView>,
    scores: Seq<Option<i32>>,
    count: int,
)
    requires
        0 <= count <= options.len(),
        options.len() < 65536,
    ensures
        best_first(options, scores, ranked(options, scores, count)),
        forall|index: u16| #[trigger]
            ranked(options, scores, count).contains(index) <==> index < count && score_of(
                scores,
                index as int,
            ) is Some,
        ranked(options, scores, count).len() <= count,
    decreases count,
{
    if count > 0 {
        filtering_ranks_the_matches(options, scores, count - 1);
        let earlier = ranked(options, scores, count - 1);
        assert forall|i: int| 0 <= i < earlier.len() implies (#[trigger] earlier[i]) < (count
            - 1) as u16 by {
            assert(earlier.contains(earlier[i]));
        }
        if score_of(scores, count - 1) is Some {
            rank_keeps_order(options, scores, earlier, (count - 1) as u16);
        }
    }
}

/// The window of a placed select holds the cursor's row, and starts no later
/// than it.
pub proof fn the_window_holds_the_cursor(
    select: SelectView,
    charset: Charset,
    width: u16,
    cap: u16,
)
    requires
        select.visible.len() > 0,
        select.cursor < select.visible.len(),
    ensures
        0 <= select.window(charset, width, cap) <= select.cursor,
{
    let kept = if select.scroll <= select.visible.len() - 1 {
        select.scroll as int
    } else {
        select.visible.len() - 1
    };
    let first = if select.cursor < kept {
        select.cursor as int
    } else {
        kept
    };
    pulling_stays_at_the_cursor(
        select,
        charset,
        width,
        cap,
        first,
        select.cursor as int,
        0,
    );
}

/// Pulling the window never moves it past the cursor.
proof fn pulling_stays_at_the_cursor(
    select: SelectView,
    charset: Charset,
    width: u16,
    cap: u16,
    first: int,
    at: int,
    span: u16,
)
    requires
        0 <= first <= select.cursor,
        first - 1 <= at <= select.cursor,
    ensures
        first <= select.pulled(charset, width, cap, first, at, span) <= select.cursor,
    decreases at - first + 1,
{
    if at >= first && at >= 0 {
        let taken = sat_add(span, select.shown(at).height(charset, width));
        if taken <= cap {
            pulling_stays_at_the_cursor(select, charset, width, cap, first, at - 1, taken);
        }
    }
}

} // verus!
