//! Columnar layout: rows of cells, and what a cell does with its children.

use vstd::prelude::*;
use vstd::string::*;

use crate::clipping::{
    clip_end, clip_start, clipped_rows_fit, row_clipped_end, row_clipped_start, run_cells,
};
use crate::color::Color;
use crate::frame::{Frame, FrameView};
use crate::geometry::{larger, max16, min16, sat_add, sat_sub, smaller, Rect};
use crate::lines::{breaks_line, is_line_break, line_text};
use crate::markup::{Align, Truncate};
use crate::runs::{
    mark, no_runs, push_mark, push_run, run, run_views, write_runs, written, Run, RunView,
};
use crate::strings::same_text;
use crate::style::{plain, Style};
use crate::text::{ClusterView, Text};

verus! {

/// A child of a cell, as it was measured.
pub struct CellChild {
    /// Least width.
    pub min: u16,
    /// Natural width.
    pub natural: u16,
    /// Whether it is seen.
    pub visible: bool,
    /// Its text, where it can join a single line.
    pub text: Option<Text>,
    /// Style of its text.
    pub style: Style,
    /// Whether it lays its own content out downwards.
    pub vertical: bool,
}

/// A child of a cell.
pub struct ChildView {
    /// Least width.
    pub min: u16,
    /// Natural width.
    pub natural: u16,
    /// Whether it is seen.
    pub visible: bool,
    /// Its text, where it can join a single line.
    pub text: Option<Seq<ClusterView>>,
    /// Style of its text.
    pub style: Style,
    /// Whether it lays its own content out downwards.
    pub vertical: bool,
}

impl View for CellChild {
    type V = ChildView;

    open spec fn view(&self) -> ChildView {
        ChildView {
            min: self.min,
            natural: self.natural,
            visible: self.visible,
            text: match self.text {
                Some(text) => Some(text@),
                None => None,
            },
            style: self.style,
            vertical: self.vertical,
        }
    }
}

/// The views of children.
pub open spec fn child_views(children: Seq<CellChild>) -> Seq<ChildView> {
    children.map_values(|child: CellChild| child@)
}

/// Sum of the least widths of the visible among the first `count` children.
pub open spec fn least_width(children: Seq<ChildView>, count: int) -> u16
    decreases count,
{
    if count <= 0 {
        0
    } else if children[count - 1].visible {
        sat_add(least_width(children, count - 1), children[count - 1].min)
    } else {
        least_width(children, count - 1)
    }
}

/// Sum of the natural widths of the visible among the first `count` children.
pub open spec fn natural_width(children: Seq<ChildView>, count: int) -> u16
    decreases count,
{
    if count <= 0 {
        0
    } else if children[count - 1].visible {
        sat_add(natural_width(children, count - 1), children[count - 1].natural)
    } else {
        natural_width(children, count - 1)
    }
}

/// The width a child of `natural` width gets of the room left: never none.
pub open spec fn share(natural: u16, room: u16) -> u16 {
    max16(min16(natural, room), 1)
}

/// The widths the visible children from `at` on get, in order, until the room
/// runs out.
pub open spec fn shares_from(children: Seq<ChildView>, at: int, room: u16) -> Seq<u16>
    decreases children.len() - at,
{
    if at < 0 || at >= children.len() {
        Seq::empty()
    } else if !children[at].visible {
        shares_from(children, at + 1, room)
    } else if room == 0 {
        Seq::empty()
    } else {
        seq![share(children[at].natural, room)] + shares_from(
            children,
            at + 1,
            sat_sub(room, share(children[at].natural, room)),
        )
    }
}

/// The room left behind the children from `at` on.
pub open spec fn slack_from(children: Seq<ChildView>, at: int, room: u16) -> u16
    decreases children.len() - at,
{
    if at < 0 || at >= children.len() || room == 0 {
        room
    } else if !children[at].visible {
        slack_from(children, at + 1, room)
    } else {
        slack_from(children, at + 1, sat_sub(room, share(children[at].natural, room)))
    }
}

/// The largest of the first `count` heights, one at least.
pub open spec fn tallest(heights: Seq<u16>, from: int, to: int) -> u16
    decreases to - from,
{
    if to <= from {
        1
    } else {
        max16(tallest(heights, from, to - 1), heights[to - 1])
    }
}

/// How far content moves into its room.
pub open spec fn align_offset(align: Align, slack: u16) -> u16 {
    match align {
        Align::Start => 0,
        Align::Center => slack / 2,
        Align::End => slack,
    }
}

/// The areas of children `widths` wide from column `x` on.
pub open spec fn areas(
    widths: Seq<u16>,
    heights: Seq<u16>,
    x: u16,
    content: Rect,
    count: int,
) -> (Seq<Rect>, u16)
    decreases count,
{
    if count <= 0 {
        (Seq::empty(), x)
    } else {
        let (earlier, column) = areas(widths, heights, x, content, count - 1);
        (
            earlier.push(
                Rect {
                    x: column,
                    y: content.y,
                    width: widths[count - 1],
                    height: min16(heights[count - 1], max16(content.height, 1)),
                },
            ),
            sat_add(column, widths[count - 1]),
        )
    }
}

/// Where the line that `at` lies in ends.
pub open spec fn next_break(text: Seq<ClusterView>, at: int) -> int
    decreases text.len() - at,
{
    if at < 0 || at >= text.len() || breaks_line(text[at]) {
        at
    } else {
        next_break(text, at + 1)
    }
}

/// The lines of a text from `at` on as runs of one line: any hard break renders
/// as a space.
pub open spec fn joined_from(text: Seq<ClusterView>, at: int, style: Style) -> Seq<RunView>
    decreases text.len() - at,
{
    let end = next_break(text, at);
    if at < 0 || at >= text.len() || end >= text.len() || end < at {
        seq![run(text.skip(at), style)]
    } else {
        seq![run(text.subrange(at, end), style), mark(" "@, style)] + joined_from(
            text,
            end + 1,
            style,
        )
    }
}

/// The runs of the visible among the first `count` children, where all of them
/// can join a line.
pub open spec fn flat_runs(children: Seq<ChildView>, count: int) -> Option<Seq<RunView>>
    decreases count,
{
    if count <= 0 {
        Some(Seq::empty())
    } else {
        let child = children[count - 1];
        match flat_runs(children, count - 1) {
            None => None,
            Some(earlier) => if !child.visible {
                Some(earlier)
            } else {
                match child.text {
                    None => None,
                    Some(text) => Some(earlier + joined_from(text, 0, child.style)),
                }
            },
        }
    }
}

/// An inline-flow grid cell.
///
/// Children lay out side by side. A truncating cell flattens its text children,
/// each in its own style, into a single line and clips it with one ellipsis at
/// the cell edge, so multi-toned labels collapse as a unit instead of
/// per-fragment.
pub struct TableCell {
    /// The children.
    pub children: Vec<CellChild>,
    /// Which end of its line gives way.
    pub truncate: Option<Truncate>,
    /// Where shorter content stands.
    pub align: Align,
    /// Visible children that received room when the cell was last placed.
    pub shown: usize,
}

/// A grid cell.
#[verifier::ext_equal]
pub struct CellView {
    /// The children.
    pub children: Seq<ChildView>,
    /// Which end of its line gives way.
    pub truncate: Option<Truncate>,
    /// Where shorter content stands.
    pub align: Align,
    /// Visible children that received room when the cell was last placed.
    pub shown: usize,
}

impl View for TableCell {
    type V = CellView;

    open spec fn view(&self) -> CellView {
        CellView {
            children: child_views(self.children@),
            truncate: self.truncate,
            align: self.align,
            shown: self.shown,
        }
    }
}

impl CellView {
    /// The widths the children get in `width` cells.
    pub open spec fn shares(self, width: u16) -> Seq<u16> {
        shares_from(self.children, 0, width)
    }

    /// The areas of the children in `content`, given their heights.
    pub open spec fn placed(self, content: Rect, heights: Seq<u16>) -> Seq<Rect> {
        let widths = self.shares(content.width);
        let slack = slack_from(self.children, 0, content.width);
        areas(
            widths,
            heights,
            sat_add(content.x, align_offset(self.align, slack)),
            content,
            widths.len() as int,
        ).0
    }

    /// The clipped line of a truncating cell, where its children can join one.
    pub open spec fn flat(self, width: u16) -> Option<Seq<RunView>> {
        match (self.truncate, flat_runs(self.children, self.children.len() as int)) {
            (Some(Truncate::End), Some(runs)) => Some(row_clipped_end(runs, max16(width, 1))),
            (Some(Truncate::Start), Some(runs)) => Some(row_clipped_start(runs, width)),
            _ => None,
        }
    }

    /// The cell with an attribute set from text; unchanged for attributes it
    /// does not have.
    pub open spec fn set(self, name: Seq<char>, value: Seq<char>) -> Self {
        if name == "truncate"@ {
            CellView {
                truncate: Some(
                    if value == "start"@ {
                        Truncate::Start
                    } else {
                        Truncate::End
                    },
                ),
                ..self
            }
        } else if name == "align"@ {
            CellView {
                align: if value == "center"@ {
                    Align::Center
                } else if value == "end"@ {
                    Align::End
                } else {
                    Align::Start
                },
                ..self
            }
        } else {
            self
        }
    }
}

/// The visible among the first `count` children.
pub open spec fn visible_children(children: Seq<ChildView>, count: int) -> Seq<int>
    decreases count,
{
    if count <= 0 {
        Seq::empty()
    } else if children[count - 1].visible {
        visible_children(children, count - 1).push(count - 1)
    } else {
        visible_children(children, count - 1)
    }
}

/// How far content moves into its room.
pub fn offset_of(align: Align, slack: u16) -> (offset: u16)
    ensures
        offset == align_offset(align, slack),
{
    match align {
        Align::Start => 0,
        Align::Center => slack / 2,
        Align::End => slack,
    }
}

/// Appends the lines of a text as runs of one line.
fn push_joined(runs: &mut Vec<Run>, text: &Text, style: Style)
    ensures
        run_views(final(runs)@) == run_views(old(runs)@) + joined_from(text@, 0, style),
{
    let ghost all = text@;
    let ghost goal = run_views(runs@) + joined_from(all, 0, style);
    let length: usize = text.clusters.len();
    let mut start: usize = 0;
    let mut at: usize = 0;
    while at < length
        invariant
            start <= at <= length,
            length == all.len(),
            all == text@,
            goal == run_views(runs@) + joined_from(all, start as int, style),
            next_break(all, start as int) == next_break(all, at as int),
        decreases length - at,
    {
        if is_line_break(text, at) {
            let ghost before = run_views(runs@);
            let line: Text = line_text(text, start, at);
            push_run(runs, line, style);
            push_mark(runs, " ", style);
            assert(run_views(runs@) + joined_from(all, at + 1, style) =~= before + (seq![
                run(all.subrange(start as int, at as int), style),
                mark(" "@, style),
            ] + joined_from(all, at + 1, style)));
            start = at + 1;
        }
        at += 1;
    }
    let ghost before = run_views(runs@);
    let rest: Text = line_text(text, start, length);
    assert(rest@ =~= all.skip(start as int));
    push_run(runs, rest, style);
    assert(run_views(runs@) =~= before + seq![run(all.skip(start as int), style)]);
}

impl TableCell {
    /// Creates an empty cell.
    pub fn new() -> (cell: Self)
        ensures
            cell@ == (CellView {
                children: Seq::empty(),
                truncate: None,
                align: Align::Start,
                shown: 0,
            }),
    {
        let cell = TableCell {
            children: Vec::new(),
            truncate: None,
            align: Align::Start,
            shown: 0,
        };
        assert(cell@.children =~= Seq::empty());
        cell
    }

    /// Sets which end of its line gives way, and where shorter content stands.
    pub fn with(self, truncate: Option<Truncate>, align: Align) -> (cell: Self)
        ensures
            cell@ == (CellView { truncate, align, ..self@ }),
    {
        let mut cell: TableCell = self;
        cell.truncate = truncate;
        cell.align = align;
        cell
    }

    /// Sets one attribute of the cell from text.
    pub fn with_str(self, name: &str, value: &str) -> (cell: Self)
        ensures
            cell@ == self@.set(name@, value@),
    {
        let mut cell: TableCell = self;
        if same_text(name, "truncate") {
            cell.truncate = Some(
                if same_text(value, "start") {
                    Truncate::Start
                } else {
                    Truncate::End
                },
            );
        } else if same_text(name, "align") {
            cell.align = if same_text(value, "center") {
                Align::Center
            } else if same_text(value, "end") {
                Align::End
            } else {
                Align::Start
            };
        }
        cell
    }

    /// Appends a child, which lays its own content out downwards.
    pub fn child(self, child: CellChild) -> (cell: Self)
        ensures
            cell@ == (CellView {
                children: self@.children.push(ChildView { vertical: true, ..child@ }),
                ..self@
            }),
    {
        let mut cell: TableCell = self;
        let ghost before = cell@.children;
        let mut added: CellChild = child;
        added.vertical = true;
        let ghost view = added@;
        cell.children.push(added);
        assert(cell@.children =~= before.push(view));
        cell
    }

    /// Least and natural width. A truncating cell can always collapse to a lone
    /// ellipsis.
    pub fn measure(&self) -> (widths: (u16, u16))
        ensures
            widths.1 == natural_width(self@.children, self@.children.len() as int),
            widths.0 == (if self@.truncate is Some {
                min16(widths.1, 1)
            } else {
                least_width(self@.children, self@.children.len() as int)
            }),
    {
        let mut min: u16 = 0;
        let mut natural: u16 = 0;
        let mut at: usize = 0;
        while at < self.children.len()
            invariant
                at <= self.children.len(),
                min == least_width(self@.children, at as int),
                natural == natural_width(self@.children, at as int),
            decreases self.children.len() - at,
        {
            let child: &CellChild = &self.children[at];
            assert(self@.children[at as int] == child@);
            if child.visible {
                min = min.saturating_add(child.min);
                natural = natural.saturating_add(child.natural);
            }
            at += 1;
        }
        if self.truncate.is_some() {
            (smaller(natural, 1), natural)
        } else {
            (min, natural)
        }
    }

    /// The widths the children get in `width` cells, in order, until the room
    /// runs out, and the room left. Later children are not placed at all, so a
    /// squeezed cell never bleeds into the gap or the next column.
    pub fn shares(&self, width: u16) -> (shared: (Vec<u16>, u16))
        ensures
            shared.0@ == self@.shares(width),
            shared.1 == slack_from(self@.children, 0, width),
    {
        let ghost children = self@.children;
        let mut widths: Vec<u16> = Vec::new();
        let mut room: u16 = width;
        let mut at: usize = 0;
        assert(self@.shares(width) =~= widths@ + self@.shares(width));
        while at < self.children.len()
            invariant
                at <= self.children.len(),
                children == self@.children,
                self@.shares(width) == widths@ + shares_from(children, at as int, room),
                slack_from(children, 0, width) == slack_from(children, at as int, room),
            decreases self.children.len() - at,
        {
            let child: &CellChild = &self.children[at];
            assert(children[at as int] == child@);
            if child.visible {
                if room == 0 {
                    assert(widths@ + Seq::<u16>::empty() =~= widths@);
                    return (widths, room);
                }
                let part: u16 = larger(smaller(child.natural, room), 1);
                let ghost before = widths@;
                let ghost left = sat_sub(room, part);
                widths.push(part);
                room = room.saturating_sub(part);
                assert(widths@ + shares_from(children, at + 1, left) =~= before + (seq![part]
                    + shares_from(children, at + 1, left)));
            }
            at += 1;
        }
        assert(widths@ + Seq::<u16>::empty() =~= widths@);
        (widths, room)
    }

    /// Height of the cell, given those of the children at their widths.
    pub fn height(&self, heights: &Vec<u16>) -> (rows: u16)
        ensures
            rows == (if self@.truncate is Some {
                1
            } else {
                tallest(heights@, 0, heights@.len() as int)
            }),
    {
        if self.truncate.is_some() {
            return 1;
        }
        tallest_of(heights, 0, heights.len())
    }

    /// Places the children in `content`, given their heights at their widths.
    /// Shorter content aligns inside the shared column width.
    pub fn place(&mut self, content: Rect, heights: &Vec<u16>) -> (rects: Vec<Rect>)
        requires
            heights@.len() == old(self)@.shares(content.width).len(),
        ensures
            final(self)@ == (CellView { shown: heights@.len() as usize, ..old(self)@ }),
            rects@ == old(self)@.placed(content, heights@),
    {
        let (widths, slack) = self.shares(content.width);
        let start: u16 = content.x.saturating_add(offset_of(self.align, slack));
        let mut column: u16 = start;
        let mut rects: Vec<Rect> = Vec::new();
        let mut at: usize = 0;
        while at < widths.len()
            invariant
                at <= widths.len(),
                widths@.len() == heights@.len(),
                areas(widths@, heights@, start, content, at as int) == (rects@, column),
            decreases widths.len() - at,
        {
            let rows: u16 = smaller(heights[at], larger(content.height, 1));
            rects.push(Rect::new(column, content.y, widths[at], rows));
            column = column.saturating_add(widths[at]);
            at += 1;
        }
        self.shown = widths.len();
        rects
    }

    /// The children to paint where the cell was placed: those that received
    /// room.
    pub fn painted(&self) -> (indices: Vec<usize>)
        ensures
            ({
                let seen = visible_children(self@.children, self@.children.len() as int);
                indices@.map_values(|index: usize| index as int) == seen.take(
                    if seen.len() < self@.shown {
                        seen.len() as int
                    } else {
                        self@.shown as int
                    },
                )
            }),
    {
        let ghost children = self@.children;
        let mut indices: Vec<usize> = Vec::new();
        let mut at: usize = 0;
        while at < self.children.len() && indices.len() < self.shown
            invariant
                at <= self.children.len(),
                children == self@.children,
                indices.len() <= self.shown,
                indices@.map_values(|index: usize| index as int) == visible_children(
                    children,
                    at as int,
                ),
            decreases self.children.len() - at,
        {
            assert(children[at as int] == self.children@[at as int]@);
            if self.children[at].visible {
                let ghost before = indices@;
                indices.push(at);
                assert(indices@.map_values(|index: usize| index as int) =~= before.map_values(
                    |index: usize| index as int,
                ).push(at as int));
            }
            at += 1;
        }
        proof {
            visible_grows(children, at as int, children.len() as int);
            let seen = visible_children(children, children.len() as int);
            let kept = if seen.len() < self@.shown {
                seen.len() as int
            } else {
                self@.shown as int
            };
            assert(indices@.map_values(|index: usize| index as int) =~= seen.take(kept));
        }
        indices
    }

    /// The clipped line of a truncating cell; `None` where the cell does not
    /// truncate or a child cannot join a line, so that the cell falls back to
    /// its placed children.
    pub fn flatten(&self, width: u16) -> (line: Option<Vec<Run>>)
        ensures
            match line {
                Some(runs) => self@.flat(width) == Some(run_views(runs@)),
                None => self@.flat(width) is None,
            },
    {
        let mode: Truncate = match self.truncate {
            Some(mode) => mode,
            None => {
                return None;
            },
        };
        let ghost children = self@.children;
        let mut runs: Vec<Run> = no_runs();
        let mut at: usize = 0;
        while at < self.children.len()
            invariant
                at <= self.children.len(),
                children == self@.children,
                flat_runs(children, at as int) == Some(run_views(runs@)),
                self@.truncate is Some,
            decreases self.children.len() - at,
        {
            assert(children[at as int] == self.children@[at as int]@);
            if self.children[at].visible {
                match &self.children[at].text {
                    None => {
                        proof {
                            never_flat(children, at + 1, children.len() as int);
                        }
                        return None;
                    },
                    Some(text) => {
                        push_joined(&mut runs, text, self.children[at].style);
                    },
                }
            }
            at += 1;
        }
        match mode {
            Truncate::End => Some(clip_end(&runs, larger(width, 1))),
            Truncate::Start => Some(clip_start(&runs, width)),
        }
    }

    /// Paints the clipped line of a truncating cell into `rect`; whether there
    /// was one to paint.
    pub fn paint(&self, frame: &mut Frame, rect: Rect, clip: u16) -> (flat: bool)
        requires
            old(frame).wf(),
        ensures
            final(frame).wf(),
            final(frame).source() == old(frame).source(),
            flat == (self@.flat(rect.width) is Some),
            final(frame)@ == (match self@.flat(rect.width) {
                Some(runs) if rect.y < clip && rect.width > 0 && rect.height > 0 => written(
                    old(frame)@,
                    sat_add(
                        rect.x,
                        align_offset(self@.align, sat_sub(rect.width, run_cells(runs) as u16)),
                    ),
                    rect.y,
                    runs,
                ).0,
                _ => old(frame)@,
            }),
    {
        match self.flatten(rect.width) {
            None => false,
            Some(runs) => {
                if rect.y < clip && rect.width > 0 && rect.height > 0 {
                    proof {
                        let all = flat_runs(self@.children, self@.children.len() as int)->0;
                        clipped_rows_fit(all, rect.width);
                    }
                    let width: u16 = row_width(&runs);
                    let slack: u16 = rect.width.saturating_sub(width);
                    let column: u16 = rect.x.saturating_add(offset_of(self.align, slack));
                    write_runs(frame, column, rect.y, &runs);
                }
                true
            },
        }
    }
}

impl Default for TableCell {
    fn default() -> (cell: Self)
        ensures
            cell@ == (CellView {
                children: Seq::empty(),
                truncate: None,
                align: Align::Start,
                shown: 0,
            }),
    {
        TableCell::new()
    }
}

/// Cells of a row of runs.
fn row_width(runs: &Vec<Run>) -> (width: u16)
    requires
        run_cells(run_views(runs@)) <= u16::MAX,
    ensures
        width == run_cells(run_views(runs@)),
{
    let ghost all = run_views(runs@);
    let mut width: u16 = 0;
    let mut at: usize = 0;
    assert(all.take(0) =~= Seq::empty());
    while at < runs.len()
        invariant
            at <= runs.len(),
            all == run_views(runs@),
            run_cells(all) <= u16::MAX,
            width == run_cells(all.take(at as int)),
        decreases runs.len() - at,
    {
        assert(all.take(at + 1).drop_last() =~= all.take(at as int));
        assert(all.take(at + 1).last() == runs@[at as int]@);
        proof {
            crate::clipping::rows_grow(all, at + 1);
        }
        width = width + runs[at].text.width();
        at += 1;
    }
    assert(all.take(at as int) =~= all);
    width
}

/// The largest of the heights from `from` up to `to`, one at least.
fn tallest_of(heights: &Vec<u16>, from: usize, to: usize) -> (rows: u16)
    requires
        from <= to <= heights@.len(),
    ensures
        rows == tallest(heights@, from as int, to as int),
{
    let mut rows: u16 = 1;
    let mut at: usize = from;
    while at < to
        invariant
            from <= at <= to <= heights@.len(),
            rows == tallest(heights@, from as int, at as int),
        decreases to - at,
    {
        rows = larger(rows, heights[at]);
        at += 1;
    }
    rows
}

/// Once a child cannot join a line, the children never do.
proof fn never_flat(children: Seq<ChildView>, count: int, all: int)
    requires
        0 <= count <= all,
        flat_runs(children, count) is None,
    ensures
        flat_runs(children, all) is None,
    decreases all - count,
{
    if count < all {
        never_flat(children, count + 1, all);
    }
}

/// Later children leave the visible ones before them in place.
proof fn visible_grows(children: Seq<ChildView>, count: int, all: int)
    requires
        0 <= count <= all,
    ensures
        visible_children(children, count).len() <= visible_children(children, all).len(),
        visible_children(children, all).take(visible_children(children, count).len() as int)
            == visible_children(children, count),
    decreases all,
{
    if count < all {
        visible_grows(children, count, all - 1);
        let earlier = visible_children(children, all - 1);
        let seen = visible_children(children, count);
        if children[all - 1].visible {
            assert(earlier.push(all - 1).take(seen.len() as int) =~= earlier.take(
                seen.len() as int,
            ));
        }
    } else {
        let seen = visible_children(children, count);
        assert(seen.take(seen.len() as int) =~= seen);
    }
}

/// One row under construction: its background and its cells in column order.
pub struct TableRow {
    /// Background of the row; `Color::Default` for none.
    pub background: Color,
    /// The cells.
    pub cells: Vec<TableCell>,
}

impl TableRow {
    /// Creates an empty row.
    pub fn new() -> (row: Self)
        ensures
            row.background == Color::Default,
            row.cells@ == Seq::<TableCell>::empty(),
    {
        TableRow { background: Color::Default, cells: Vec::new() }
    }

    /// Sets the background of the row.
    pub fn with(self, background: Color) -> (row: Self)
        ensures
            row.background == background,
            row.cells@ == self.cells@,
    {
        TableRow { background, cells: self.cells }
    }

    /// Appends one cell.
    pub fn cell(self, cell: TableCell) -> (row: Self)
        ensures
            row.background == self.background,
            row.cells@ == self.cells@.push(cell),
    {
        let mut row: TableRow = self;
        row.cells.push(cell);
        row
    }
}

impl Default for TableRow {
    fn default() -> (row: Self)
        ensures
            row.background == Color::Default,
            row.cells@ == Seq::<TableCell>::empty(),
    {
        TableRow::new()
    }
}

/// One row of a table.
#[derive(Clone, Copy)]
pub struct RowMeta {
    /// First cell.
    pub start: usize,
    /// Behind the last cell.
    pub end: usize,
    /// Background of the row.
    pub background: Color,
}

/// A columnar layout.
///
/// Cells align vertically: every column is solved once across all rows. Layout
/// only: rows never capture input.
pub struct Table {
    /// Spacing between columns, where it is set.
    pub gap: Option<u16>,
    /// Most rows shown, where they are limited.
    pub max_rows: Option<u16>,
    /// The cells, row by row.
    pub children: Vec<TableCell>,
    /// The rows.
    pub rows: Vec<RowMeta>,
    /// Where the rows stand, top and height, for their backgrounds.
    pub bands: Vec<(u16, u16)>,
    /// Rows the content takes.
    pub natural_rows: u16,
}

/// Height of the first `count` rows, given those of the cells.
pub open spec fn rows_height(rows: Seq<RowMeta>, heights: Seq<u16>, count: int) -> u16
    decreases count,
{
    if count <= 0 {
        0
    } else {
        sat_add(
            rows_height(rows, heights, count - 1),
            tallest(heights, rows[count - 1].start as int, rows[count - 1].end as int),
        )
    }
}

/// Where rows of the given heights stand from row `y` on.
pub open spec fn bands_of(heights: Seq<u16>, y: u16, count: int) -> (Seq<(u16, u16)>, u16)
    decreases count,
{
    if count <= 0 {
        (Seq::empty(), y)
    } else {
        let (earlier, top) = bands_of(heights, y, count - 1);
        (earlier.push((top, heights[count - 1])), sat_add(top, heights[count - 1]))
    }
}

/// The frame with the backgrounds of the first `count` rows.
pub open spec fn bands_painted(
    frame: FrameView,
    rows: Seq<RowMeta>,
    bands: Seq<(u16, u16)>,
    rect: Rect,
    clip: u16,
    count: int,
) -> FrameView
    decreases count,
{
    if count <= 0 {
        frame
    } else {
        let earlier = bands_painted(frame, rows, bands, rect, clip, count - 1);
        let (top, height) = bands[count - 1];
        if rows[count - 1].background != Color::Default && top < clip {
            earlier.filled(
                Rect {
                    x: rect.x,
                    y: top,
                    width: rect.width,
                    height: min16(height, sat_sub(clip, top)),
                },
                Style { background: rows[count - 1].background, ..plain() },
            )
        } else {
            earlier
        }
    }
}

/// The first row that may not be painted, where the content is cut to
/// `content_rows`.
pub open spec fn content_clip(rect: Rect, clip: u16, content_rows: Option<u16>) -> u16 {
    match content_rows {
        Some(rows) => min16(clip, sat_add(rect.y, rows)),
        None => clip,
    }
}

impl Table {
    /// The rows take the cells in turn, each cell once.
    pub open spec fn wf(self) -> bool {
        &&& forall|i: int|
            #![trigger self.rows@[i]]
            0 <= i < self.rows@.len() ==> self.rows@[i].start <= self.rows@[i].end
                <= self.children@.len()
        &&& forall|i: int, j: int|
            #![trigger self.rows@[i], self.rows@[j]]
            0 <= i < j < self.rows@.len() ==> self.rows@[i].end <= self.rows@[j].start
    }

    /// Creates an empty table.
    pub fn new() -> (table: Self)
        ensures
            table.wf(),
            table.gap is None,
            table.max_rows is None,
            table.children@ == Seq::<TableCell>::empty(),
            table.rows@ == Seq::<RowMeta>::empty(),
            table.bands@ == Seq::<(u16, u16)>::empty(),
            table.natural_rows == 0,
    {
        Table {
            gap: None,
            max_rows: None,
            children: Vec::new(),
            rows: Vec::new(),
            bands: Vec::new(),
            natural_rows: 0,
        }
    }

    /// Sets the spacing between columns and the most rows shown.
    pub fn with(self, gap: Option<u16>, max_rows: Option<u16>) -> (table: Self)
        requires
            self.wf(),
        ensures
            table.wf(),
            table == (Table { gap, max_rows, ..self }),
    {
        Table {
            gap,
            max_rows,
            children: self.children,
            rows: self.rows,
            bands: self.bands,
            natural_rows: self.natural_rows,
        }
    }

    /// Appends one row of cells.
    pub fn row(self, row: TableRow) -> (table: Self)
        requires
            self.wf(),
        ensures
            table.wf(),
            table.children@ == self.children@ + row.cells@,
            table.rows@ == self.rows@.push(
                RowMeta {
                    start: self.children@.len() as usize,
                    end: (self.children@.len() + row.cells@.len()) as usize,
                    background: row.background,
                },
            ),
            table.gap == self.gap,
            table.max_rows == self.max_rows,
            table.bands@ == self.bands@,
            table.natural_rows == self.natural_rows,
    {
        let mut table: Table = self;
        let mut cells: Vec<TableCell> = row.cells;
        let start: usize = table.children.len();
        table.children.append(&mut cells);
        let end: usize = table.children.len();
        table.rows.push(RowMeta { start, end, background: row.background });
        table
    }

    /// Spacing between columns, two cells by default so adjacent columns never
    /// touch.
    pub fn column_gap(&self) -> (gap: u16)
        ensures
            gap == (match self.gap {
                Some(set) => set,
                None => 2,
            }),
    {
        match self.gap {
            Some(set) => set,
            None => 2,
        }
    }

    /// Rows of the table, given the heights of the cells at their column widths.
    pub fn height(&mut self, heights: &Vec<u16>) -> (rows: u16)
        requires
            old(self).wf(),
            heights@.len() == old(self).children@.len(),
        ensures
            final(self).wf(),
            ({
                let natural = rows_height(
                    old(self).rows@,
                    heights@,
                    old(self).rows@.len() as int,
                );
                &&& *final(self) == (Table { natural_rows: natural, ..*old(self) })
                &&& rows == (match old(self).max_rows {
                    Some(cap) => min16(natural, cap),
                    None => natural,
                })
            }),
    {
        let mut natural: u16 = 0;
        let mut at: usize = 0;
        while at < self.rows.len()
            invariant
                at <= self.rows.len(),
                *self == *old(self),
                self.wf(),
                heights@.len() == self.children@.len(),
                natural == rows_height(self.rows@, heights@, at as int),
            decreases self.rows.len() - at,
        {
            let row: RowMeta = self.rows[at];
            natural = natural.saturating_add(tallest_of(heights, row.start, row.end));
            at += 1;
        }
        self.natural_rows = natural;
        match self.max_rows {
            Some(cap) => smaller(natural, cap),
            None => natural,
        }
    }

    /// Places the rows in `content`, given their heights.
    pub fn place(&mut self, content: Rect, heights: &Vec<u16>)
        requires
            old(self).wf(),
            heights@.len() == old(self).rows@.len(),
        ensures
            final(self).wf(),
            ({
                let (bands, bottom) = bands_of(heights@, content.y, heights@.len() as int);
                &&& final(self).bands@ == bands
                &&& final(self).natural_rows == sat_sub(bottom, content.y)
            }),
            final(self).rows@ == old(self).rows@,
            final(self).children@ == old(self).children@,
            final(self).gap == old(self).gap,
            final(self).max_rows == old(self).max_rows,
    {
        let mut bands: Vec<(u16, u16)> = Vec::new();
        let mut y: u16 = content.y;
        let mut at: usize = 0;
        while at < heights.len()
            invariant
                at <= heights.len(),
                bands_of(heights@, content.y, at as int) == (bands@, y),
            decreases heights.len() - at,
        {
            bands.push((y, heights[at]));
            y = y.saturating_add(heights[at]);
            at += 1;
        }
        self.bands = bands;
        self.natural_rows = y.saturating_sub(content.y);
    }

    /// Paints the backgrounds of the rows that were placed. Where the content is cut to make
    /// room for a footer, `content_rows` says to how many rows. The result is
    /// the first row that the cells may not paint on; cells from there on are
    /// not painted.
    pub fn paint(&self, frame: &mut Frame, rect: Rect, clip: u16, content_rows: Option<u16>) -> (cut:
        u16)
        requires
            self.wf(),
            old(frame).wf(),
        ensures
            final(frame).wf(),
            final(frame).source() == old(frame).source(),
            cut == content_clip(rect, clip, content_rows),
            final(frame)@ == bands_painted(
                old(frame)@,
                self.rows@,
                self.bands@,
                rect,
                cut,
                if self.rows@.len() < self.bands@.len() {
                    self.rows@.len() as int
                } else {
                    self.bands@.len() as int
                },
            ),
    {
        let cut: u16 = match content_rows {
            Some(rows) => smaller(clip, rect.y.saturating_add(rows)),
            None => clip,
        };
        let ghost before = frame@;
        let mut at: usize = 0;
        while at < self.rows.len() && at < self.bands.len()
            invariant
                at <= self.rows.len(),
                at <= self.bands.len(),
                frame.wf(),
                frame.source() == old(frame).source(),
                frame@ == bands_painted(before, self.rows@, self.bands@, rect, cut, at as int),
            decreases self.rows.len() - at,
        {
            let background: Color = self.rows[at].background;
            let (top, height) = self.bands[at];
            if background != Color::Default && top < cut {
                let rows: u16 = smaller(height, cut.saturating_sub(top));
                frame.fill(
                    Rect::new(rect.x, top, rect.width, rows),
                    Style::new().bg(background),
                );
            }
            at += 1;
        }
        cut
    }
}

impl Default for Table {
    fn default() -> (table: Self)
        ensures
            table.wf(),
            table.gap is None,
            table.max_rows is None,
            table.children@ == Seq::<TableCell>::empty(),
            table.rows@ == Seq::<RowMeta>::empty(),
            table.bands@ == Seq::<(u16, u16)>::empty(),
            table.natural_rows == 0,
    {
        Table::new()
    }
}

/// Sum of widths.
pub open spec fn total(widths: Seq<u16>) -> int
    decreases widths.len(),
{
    if widths.len() == 0 {
        0
    } else {
        widths[0] + total(widths.drop_first())
    }
}

/// The children of a squeezed cell stay inside it: their widths and the room
/// left make up its width.
pub proof fn shares_fill_the_room(children: Seq<ChildView>, at: int, room: u16)
    requires
        0 <= at,
    ensures
        total(shares_from(children, at, room)) + slack_from(children, at, room) == room,
    decreases children.len() - at,
{
    if at < children.len() {
        if !children[at].visible {
            shares_fill_the_room(children, at + 1, room);
            if room == 0 {
                nothing_is_shared(children, at + 1);
            }
        } else if room > 0 {
            let part = share(children[at].natural, room);
            let rest = shares_from(children, at + 1, sat_sub(room, part));
            shares_fill_the_room(children, at + 1, sat_sub(room, part));
            assert((seq![part] + rest).drop_first() =~= rest);
        }
    }
}

/// The widths of the first `count + 1` children: those of `count` and one more.
proof fn total_grows(widths: Seq<u16>, count: int)
    requires
        0 <= count < widths.len(),
    ensures
        total(widths.take(count + 1)) == total(widths.take(count)) + widths[count],
    decreases count,
{
    reveal_with_fuel(total, 2);
    let more = widths.take(count + 1);
    if count == 0 {
        assert(more.drop_first() =~= Seq::empty());
    } else {
        total_grows(widths.drop_first(), count - 1);
        assert(more.drop_first() =~= widths.drop_first().take(count));
        assert(widths.take(count).drop_first() =~= widths.drop_first().take(count - 1));
    }
}

/// A part of the widths is no more than all of them.
proof fn total_bounds(widths: Seq<u16>, count: int)
    requires
        0 <= count <= widths.len(),
    ensures
        0 <= total(widths.take(count)) <= total(widths),
    decreases widths.len() - count,
{
    if count < widths.len() {
        total_grows(widths, count);
        total_bounds(widths, count + 1);
        total_positive(widths.take(count));
    } else {
        assert(widths.take(count) =~= widths);
        total_positive(widths);
    }
}

/// Widths make up nothing negative.
proof fn total_positive(widths: Seq<u16>)
    ensures
        total(widths) >= 0,
    decreases widths.len(),
{
    if widths.len() > 0 {
        total_positive(widths.drop_first());
    }
}

/// Children stand side by side from column `x` on.
proof fn areas_line_up(
    widths: Seq<u16>,
    heights: Seq<u16>,
    x: u16,
    content: Rect,
    count: int,
)
    requires
        0 <= count <= widths.len(),
        x + total(widths) <= u16::MAX,
    ensures
        ({
            let (rects, column) = areas(widths, heights, x, content, count);
            &&& rects.len() == count
            &&& column == x + total(widths.take(count))
            &&& forall|i: int|
                0 <= i < count ==> (#[trigger] rects[i]).x == x + total(widths.take(i))
                    && rects[i].width == widths[i]
        }),
    decreases count,
{
    if count > 0 {
        areas_line_up(widths, heights, x, content, count - 1);
        total_grows(widths, count - 1);
        total_bounds(widths, count);
        total_bounds(widths, count - 1);
    } else {
        assert(widths.take(0) =~= Seq::empty());
    }
}

/// A squeezed cell never overpaints its neighbor: each child that got room lies
/// within the cell's columns, and behind the children before it.
pub proof fn children_stay_in_their_cell(cell: CellView, content: Rect, heights: Seq<u16>, i: int)
    requires
        content.x + content.width <= u16::MAX,
        0 <= i < cell.placed(content, heights).len(),
    ensures
        ({
            let area = cell.placed(content, heights)[i];
            &&& content.x <= area.x
            &&& area.x + area.width <= content.x + content.width
            &&& i > 0 ==> {
                let before = cell.placed(content, heights)[i - 1];
                before.x + before.width == area.x
            }
        }),
{
    let widths = cell.shares(content.width);
    let slack = slack_from(cell.children, 0, content.width);
    shares_fill_the_room(cell.children, 0, content.width);
    total_positive(widths);
    let x = sat_add(content.x, align_offset(cell.align, slack));
    areas_line_up(widths, heights, x, content, widths.len() as int);
    total_grows(widths, i);
    total_bounds(widths, i);
    total_bounds(widths, i + 1);
    let rects = cell.placed(content, heights);
    assert(rects[i].x == x + total(widths.take(i)));
    if i > 0 {
        total_grows(widths, i - 1);
        assert(rects[i - 1].x == x + total(widths.take(i - 1)));
    }
}

/// No room makes no shares.
proof fn nothing_is_shared(children: Seq<ChildView>, at: int)
    requires
        0 <= at,
    ensures
        shares_from(children, at, 0) == Seq::<u16>::empty(),
    decreases children.len() - at,
{
    if at < children.len() && !children[at].visible {
        nothing_is_shared(children, at + 1);
    }
}

} // verus!
