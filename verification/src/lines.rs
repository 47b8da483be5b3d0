//! Breaking labels and descriptions into lines of whole words.

use vstd::prelude::*;

use crate::chars::{is_whitespace, whitespace};
use crate::geometry::{max16, sat_add};
use crate::strings::chars_of;
use crate::text::{ClusterView, Text};

verus! {

/// Whether a cluster separates words.
pub open spec fn blank_cluster(cluster: ClusterView) -> bool {
    cluster.text.len() > 0 && whitespace(cluster.text[0])
}

/// Whether a cluster breaks a line.
pub open spec fn breaks_line(cluster: ClusterView) -> bool {
    cluster.text.contains('\n')
}

/// Whether a cluster separates words.
fn is_blank_cluster(text: &Text, at: usize) -> (yes: bool)
    requires
        at < text.clusters.len(),
    ensures
        yes == blank_cluster(text@[at as int]),
{
    let chars: Vec<char> = chars_of(text.clusters[at].text.as_str());
    chars.len() > 0 && is_whitespace(chars[0])
}

/// Whether a cluster breaks a line.
pub fn is_line_break(text: &Text, at: usize) -> (yes: bool)
    requires
        at < text.clusters.len(),
    ensures
        yes == breaks_line(text@[at as int]),
{
    let chars: Vec<char> = chars_of(text.clusters[at].text.as_str());
    let mut i: usize = 0;
    while i < chars.len()
        invariant
            i <= chars.len(),
            chars@ == text@[at as int].text,
            forall|j: int| 0 <= j < i ==> chars@[j] != '\n',
        decreases chars.len() - i,
    {
        if chars[i] == '\n' {
            return true;
        }
        i += 1;
    }
    false
}

/// Where the word or gap that `at` lies in ends.
pub open spec fn stretch_end(text: Seq<ClusterView>, at: int, blank: bool) -> int
    decreases text.len() - at,
{
    if at < 0 || at >= text.len() || blank_cluster(text[at]) != blank {
        at
    } else {
        stretch_end(text, at + 1, blank)
    }
}

/// Cells of the clusters from `from` up to `to`, held at the largest coordinate.
pub open spec fn span_width(text: Seq<ClusterView>, from: int, to: int) -> u16
    decreases to - from,
{
    if from >= to {
        0
    } else {
        sat_add(span_width(text, from, to - 1), text[to - 1].width)
    }
}

/// Whether a line break lies from `from` up to `to`.
pub open spec fn span_breaks(text: Seq<ClusterView>, from: int, to: int) -> bool {
    exists|i: int| from <= i < to && #[trigger] breaks_line(text[i])
}

/// Finds where the word or gap that `at` lies in ends.
fn find_stretch_end(text: &Text, at: usize, blank: bool) -> (end: usize)
    requires
        at <= text.clusters.len(),
    ensures
        at <= end <= text.clusters.len(),
        end == stretch_end(text@, at as int, blank),
{
    let mut end: usize = at;
    while end < text.clusters.len() && is_blank_cluster(text, end) == blank
        invariant
            at <= end <= text.clusters.len(),
            stretch_end(text@, at as int, blank) == stretch_end(text@, end as int, blank),
        decreases text.clusters.len() - end,
    {
        end += 1;
    }
    end
}

/// Measures the clusters from `from` up to `to`.
fn measure_span(text: &Text, from: usize, to: usize) -> (width: u16)
    requires
        from <= to <= text.clusters.len(),
    ensures
        width == span_width(text@, from as int, to as int),
{
    let mut width: u16 = 0;
    let mut at: usize = from;
    while at < to
        invariant
            from <= at <= to <= text.clusters.len(),
            width == span_width(text@, from as int, at as int),
        decreases to - at,
    {
        width = width.saturating_add(text.clusters[at].width);
        at += 1;
    }
    width
}

/// Whether a line break lies from `from` up to `to`.
fn has_line_break(text: &Text, from: usize, to: usize) -> (yes: bool)
    requires
        from <= to <= text.clusters.len(),
    ensures
        yes == span_breaks(text@, from as int, to as int),
{
    let mut at: usize = from;
    while at < to
        invariant
            from <= at <= to <= text.clusters.len(),
            forall|i: int| from <= i < at ==> !#[trigger] breaks_line(text@[i]),
        decreases to - at,
    {
        if is_line_break(text, at) {
            return true;
        }
        at += 1;
    }
    false
}

/// A line under construction: the clusters from `start` up to `end`, `width`
/// cells wide.
#[derive(Clone, Copy, Debug, PartialEq, Eq, Structural)]
pub struct Line {
    /// First cluster.
    pub start: usize,
    /// Cluster behind the last.
    pub end: usize,
    /// Cells it takes.
    pub width: u16,
}

/// A line under construction.
pub struct LineView {
    /// First cluster.
    pub start: int,
    /// Cluster behind the last.
    pub end: int,
    /// Cells it takes.
    pub width: u16,
}

impl View for Line {
    type V = LineView;

    open spec fn view(&self) -> LineView {
        LineView { start: self.start as int, end: self.end as int, width: self.width }
    }
}

/// A line, where one is open.
pub open spec fn open_line(line: Option<Line>) -> Option<LineView> {
    match line {
        Some(shown) => Some(shown@),
        None => None,
    }
}

/// The pieces a word too wide for a line falls into, from cluster `at` on: the
/// complete ones, and the one still open.
pub open spec fn word_pieces(
    text: Seq<ClusterView>,
    open: LineView,
    end: int,
    width: u16,
) -> (Seq<(int, int)>, LineView)
    decreases end - open.end,
{
    if open.end >= end {
        (Seq::empty(), open)
    } else {
        let cells = text[open.end].width;
        if open.width > 0 && sat_add(open.width, cells) > width {
            let (rest, last) = word_pieces(
                text,
                LineView {
                    start: open.end,
                    end: open.end + 1,
                    width: sat_add(0, cells),
                },
                end,
                width,
            );
            (seq![(open.start, open.end)] + rest, last)
        } else {
            word_pieces(
                text,
                LineView {
                    start: open.start,
                    end: open.end + 1,
                    width: sat_add(open.width, cells),
                },
                end,
                width,
            )
        }
    }
}

/// Whether the word from `from` up to `to` joins the open line: no line break
/// lies between, and both fit.
pub open spec fn word_joins(text: Seq<ClusterView>, open: LineView, from: int, to: int, width: u16) -> bool {
    &&& !span_breaks(text, open.end, from)
    &&& sat_add(
        sat_add(open.width, span_width(text, open.end, from)),
        span_width(text, from, to),
    ) <= width
}

/// The lines of the words from cluster `at` on, behind an open line.
pub open spec fn lines_from(
    text: Seq<ClusterView>,
    at: int,
    open: Option<LineView>,
    width: u16,
) -> Seq<(int, int)>
    decreases text.len() - at,
{
    let from = stretch_end(text, at, true);
    let to = stretch_end(text, from, false);
    if at < 0 || to <= at || to > text.len() || from >= to {
        match open {
            Some(line) => seq![(line.start, line.end)],
            None => Seq::empty(),
        }
    } else {
        match open {
            Some(line) if word_joins(text, line, from, to, width) => lines_from(
                text,
                to,
                Some(
                    LineView {
                        start: line.start,
                        end: to,
                        width: sat_add(
                            sat_add(line.width, span_width(text, line.end, from)),
                            span_width(text, from, to),
                        ),
                    },
                ),
                width,
            ),
            _ => {
                let finished = match open {
                    Some(line) => seq![(line.start, line.end)],
                    None => Seq::empty(),
                };
                if span_width(text, from, to) <= width {
                    finished + lines_from(
                        text,
                        to,
                        Some(
                            LineView {
                                start: from,
                                end: to,
                                width: span_width(text, from, to),
                            },
                        ),
                        width,
                    )
                } else {
                    let (pieces, last) = word_pieces(
                        text,
                        LineView { start: from, end: from, width: 0 },
                        to,
                        width,
                    );
                    finished + pieces + lines_from(text, to, Some(last), width)
                }
            },
        }
    }
}

/// The lines a label breaks into at `width` cells, as runs of its clusters. A
/// label without words has one empty line.
pub open spec fn label_rows(text: Seq<ClusterView>, width: u16) -> Seq<(int, int)> {
    let rows = lines_from(text, 0, None, max16(width, 1));
    if rows.len() == 0 {
        seq![(0, 0)]
    } else {
        rows
    }
}

/// Runs of clusters.
pub open spec fn span_views(spans: Seq<(usize, usize)>) -> Seq<(int, int)> {
    spans.map_values(|span: (usize, usize)| (span.0 as int, span.1 as int))
}

/// Appends a run of clusters.
fn push_span(spans: &mut Vec<(usize, usize)>, start: usize, end: usize)
    ensures
        final(spans)@ == old(spans)@.push((start, end)),
        span_views(final(spans)@) == span_views(old(spans)@).push((start as int, end as int)),
{
    let ghost before = span_views(spans@);
    spans.push((start, end));
    assert(span_views(spans@) =~= before.push((start as int, end as int)));
}

/// A stretch ends within the text.
pub proof fn stretch_bounds(text: Seq<ClusterView>, at: int, blank: bool)
    requires
        0 <= at <= text.len(),
    ensures
        at <= stretch_end(text, at, blank) <= text.len(),
        stretch_end(text, at, blank) < text.len() ==> blank_cluster(
            text[stretch_end(text, at, blank)],
        ) != blank,
        forall|i: int|
            at <= i < stretch_end(text, at, blank) ==> blank_cluster(#[trigger] text[i]) == blank,
    decreases text.len() - at,
{
    if at < text.len() && blank_cluster(text[at]) == blank {
        stretch_bounds(text, at + 1, blank);
    }
}

/// Breaks a word that is wider than a line; the piece still open is returned.
fn break_word(
    text: &Text,
    from: usize,
    to: usize,
    width: u16,
    spans: &mut Vec<(usize, usize)>,
) -> (open: Line)
    requires
        from <= to <= text.clusters.len(),
    ensures
        ({
            let (pieces, last) = word_pieces(
                text@,
                LineView { start: from as int, end: from as int, width: 0 },
                to as int,
                width,
            );
            span_views(final(spans)@) == span_views(old(spans)@) + pieces && open@ == last
        }),
        open.end == to,
        from <= open.start <= to,
        forall|i: int|
            0 <= i < final(spans)@.len() ==> i < old(spans)@.len() && (#[trigger] final(spans)@[i])
                == old(spans)@[i] || final(spans)@[i].0 <= final(spans)@[i].1 <= to,
{
    let ghost before = span_views(spans@);
    let ghost goal = word_pieces(
        text@,
        LineView { start: from as int, end: from as int, width: 0 },
        to as int,
        width,
    );
    let mut open = Line { start: from, end: from, width: 0 };
    assert(span_views(spans@) + goal.0 =~= before + goal.0);
    while open.end < to
        invariant
            from <= open.start <= open.end <= to <= text.clusters.len(),
            span_views(spans@) + word_pieces(text@, open@, to as int, width).0 == before + goal.0,
            word_pieces(text@, open@, to as int, width).1 == goal.1,
            forall|i: int|
                0 <= i < spans@.len() ==> i < old(spans)@.len() && (#[trigger] spans@[i]) == old(
                    spans,
                )@[i] || spans@[i].0 <= spans@[i].1 <= to,
        decreases to - open.end,
    {
        let cells: u16 = text.clusters[open.end].width;
        let ghost earlier = span_views(spans@);
        let ghost left = word_pieces(text@, open@, to as int, width).0;
        if open.width > 0 && open.width.saturating_add(cells) > width {
            push_span(spans, open.start, open.end);
            open = Line { start: open.end, end: open.end + 1, width: cells };
        } else {
            open = Line {
                start: open.start,
                end: open.end + 1,
                width: open.width.saturating_add(cells),
            };
        }
        assert(span_views(spans@) + word_pieces(text@, open@, to as int, width).0 =~= earlier + left);
    }
    assert(span_views(spans@) =~= before + goal.0);
    open
}

/// Breaks a label into lines of at most `width` cells; a wide word is broken
/// where it must.
pub fn label_lines(text: &Text, width: u16) -> (lines: Vec<(usize, usize)>)
    ensures
        span_views(lines@) == label_rows(text@, width),
        forall|i: int|
            0 <= i < lines@.len() ==> (#[trigger] lines@[i]).0 <= lines@[i].1 <= text@.len(),
{
    let limit: u16 = if width > 1 {
        width
    } else {
        1
    };
    let ghost goal = lines_from(text@, 0, None, limit);
    let mut lines: Vec<(usize, usize)> = Vec::new();
    let mut open: Option<Line> = None;
    let mut at: usize = 0;
    assert(span_views(lines@) + goal =~= goal);
    loop
        invariant
            at <= text.clusters.len(),
            goal == lines_from(text@, 0, None, limit),
            span_views(lines@) + lines_from(text@, at as int, open_line(open), limit) == goal,
            open matches Some(line) ==> line.start <= line.end <= at,
            forall|i: int|
                0 <= i < lines@.len() ==> (#[trigger] lines@[i]).0 <= lines@[i].1 <= text@.len(),
        ensures
            span_views(lines@) + (match open {
                Some(line) => seq![(line.start as int, line.end as int)],
                None => Seq::empty(),
            }) == goal,
            open matches Some(line) ==> line.start <= line.end <= text@.len(),
            forall|i: int|
                0 <= i < lines@.len() ==> (#[trigger] lines@[i]).0 <= lines@[i].1 <= text@.len(),
        decreases text.clusters.len() - at,
    {
        let from: usize = find_stretch_end(text, at, true);
        let to: usize = find_stretch_end(text, from, false);
        if from >= to {
            break;
        }
        let ghost earlier = span_views(lines@);
        let ghost left = lines_from(text@, at as int, open_line(open), limit);
        let word: u16 = measure_span(text, from, to);
        let mut joined: bool = false;
        if let Some(line) = open {
            proof {
                stretch_bounds(text@, at as int, true);
            }
            let gap: u16 = measure_span(text, line.end, from);
            if !has_line_break(text, line.end, from) && line.width.saturating_add(
                gap,
            ).saturating_add(word) <= limit {
                open =
                Some(
                    Line {
                        start: line.start,
                        end: to,
                        width: line.width.saturating_add(gap).saturating_add(word),
                    },
                );
                joined = true;
            }
        }
        if !joined {
            if let Some(line) = open {
                push_span(&mut lines, line.start, line.end);
            }
            if word <= limit {
                open = Some(Line { start: from, end: to, width: word });
            } else {
                let last: Line = break_word(text, from, to, limit, &mut lines);
                open = Some(last);
            }
        }
        at = to;
        assert(span_views(lines@) + lines_from(text@, at as int, open_line(open), limit) =~= earlier + left);
    }
    if let Some(line) = open {
        push_span(&mut lines, line.start, line.end);
    }
    assert(span_views(lines@) =~= goal);
    if lines.len() == 0 {
        push_span(&mut lines, 0, 0);
        assert(span_views(lines@) =~= label_rows(text@, width));
    }
    lines
}

/// The lines of the words from cluster `at` on, each gap counted as one cell.
pub open spec fn prose_from(
    text: Seq<ClusterView>,
    at: int,
    open: Option<LineView>,
    width: u16,
) -> Seq<(int, int)>
    decreases text.len() - at,
{
    let from = stretch_end(text, at, true);
    let to = stretch_end(text, from, false);
    let word = span_width(text, from, to);
    if at < 0 || to <= at || to > text.len() || from >= to {
        match open {
            Some(line) => seq![(line.start, line.end)],
            None => Seq::empty(),
        }
    } else {
        match open {
            Some(line) if sat_add(sat_add(line.width, 1), word) > width => seq![
                (line.start, line.end),
            ] + prose_from(
                text,
                to,
                Some(LineView { start: from, end: to, width: word }),
                width,
            ),
            Some(line) => prose_from(
                text,
                to,
                Some(
                    LineView {
                        start: line.start,
                        end: to,
                        width: sat_add(sat_add(line.width, 1), word),
                    },
                ),
                width,
            ),
            None => prose_from(
                text,
                to,
                Some(LineView { start: from, end: to, width: word }),
                width,
            ),
        }
    }
}

/// The lines of a description: whole words at `width` cells, eight at least,
/// and no more than two lines.
pub open spec fn desc_rows(text: Seq<ClusterView>, width: u16) -> Seq<(int, int)> {
    let rows = prose_from(text, 0, None, max16(width, 8));
    if rows.len() <= 2 {
        rows
    } else {
        rows.take(2)
    }
}

/// Breaks a description into at most two lines.
pub fn desc_lines(text: &Text, width: u16) -> (lines: Vec<(usize, usize)>)
    ensures
        span_views(lines@) == desc_rows(text@, width),
        lines@.len() <= 2,
        forall|i: int|
            0 <= i < lines@.len() ==> (#[trigger] lines@[i]).0 <= lines@[i].1 <= text@.len(),
{
    let limit: u16 = if width > 8 {
        width
    } else {
        8
    };
    let ghost goal = prose_from(text@, 0, None, limit);
    let mut lines: Vec<(usize, usize)> = Vec::new();
    let mut open: Option<Line> = None;
    let mut at: usize = 0;
    assert(span_views(lines@) + goal =~= goal);
    loop
        invariant
            at <= text.clusters.len(),
            goal == prose_from(text@, 0, None, limit),
            span_views(lines@) + prose_from(text@, at as int, open_line(open), limit) == goal,
            open matches Some(line) ==> line.start <= line.end <= at,
            forall|i: int|
                0 <= i < lines@.len() ==> (#[trigger] lines@[i]).0 <= lines@[i].1 <= text@.len(),
        ensures
            span_views(lines@) + (match open {
                Some(line) => seq![(line.start as int, line.end as int)],
                None => Seq::empty(),
            }) == goal,
            open matches Some(line) ==> line.start <= line.end <= text@.len(),
            forall|i: int|
                0 <= i < lines@.len() ==> (#[trigger] lines@[i]).0 <= lines@[i].1 <= text@.len(),
        decreases text.clusters.len() - at,
    {
        let from: usize = find_stretch_end(text, at, true);
        let to: usize = find_stretch_end(text, from, false);
        if from >= to {
            break;
        }
        let ghost earlier = span_views(lines@);
        let ghost left = prose_from(text@, at as int, open_line(open), limit);
        let word: u16 = measure_span(text, from, to);
        match open {
            Some(line) if line.width.saturating_add(1).saturating_add(word) > limit => {
                push_span(&mut lines, line.start, line.end);
                open = Some(Line { start: from, end: to, width: word });
            },
            Some(line) => {
                open =
                Some(
                    Line {
                        start: line.start,
                        end: to,
                        width: line.width.saturating_add(1).saturating_add(word),
                    },
                );
            },
            None => {
                open = Some(Line { start: from, end: to, width: word });
            },
        }
        at = to;
        assert(span_views(lines@) + prose_from(text@, at as int, open_line(open), limit) =~= earlier
            + left);
    }
    if let Some(line) = open {
        push_span(&mut lines, line.start, line.end);
    }
    assert(span_views(lines@) =~= goal);
    if lines.len() > 2 {
        lines.truncate(2);
        assert(span_views(lines@) =~= goal.take(2));
    }
    lines
}

/// The text of the clusters from `start` up to `end`.
pub fn line_text(text: &Text, start: usize, end: usize) -> (line: Text)
    requires
        start <= end <= text@.len(),
    ensures
        line@ == text@.subrange(start as int, end as int),
{
    let mut line = Text::empty();
    let mut at: usize = start;
    assert(text@.subrange(start as int, start as int) =~= Seq::empty());
    while at < end
        invariant
            start <= at <= end <= text@.len(),
            line@ == text@.subrange(start as int, at as int),
        decreases end - at,
    {
        let ghost before = line@;
        line.clusters.push(text.clusters[at].copy());
        assert(line@ =~= before.push(text@[at as int]));
        assert(text@.subrange(start as int, at + 1) =~= text@.subrange(start as int, at as int).push(
            text@[at as int],
        ));
        at += 1;
    }
    line
}

/// Whether cluster `at` stands in one of the lines.
pub open spec fn lies_in(rows: Seq<(int, int)>, at: int) -> bool {
    exists|i: int| 0 <= i < rows.len() && (#[trigger] rows[i]).0 <= at < rows[i].1
}

/// Cells of the clusters from `from` up to `to`.
pub open spec fn span_cells(text: Seq<ClusterView>, from: int, to: int) -> int
    decreases to - from,
{
    if from >= to {
        0
    } else {
        span_cells(text, from, to - 1) + text[to - 1].width
    }
}

/// A span's width is its cells, held at the largest coordinate.
proof fn width_counts_cells(text: Seq<ClusterView>, from: int, to: int)
    ensures
        span_cells(text, from, to) >= 0,
        span_width(text, from, to) == (if span_cells(text, from, to) <= 65535 {
            span_cells(text, from, to)
        } else {
            65535
        }),
    decreases to - from,
{
    if from < to {
        width_counts_cells(text, from, to - 1);
    }
}

/// Adjacent spans add up.
proof fn spans_add_up(text: Seq<ClusterView>, from: int, mid: int, to: int)
    requires
        from <= mid <= to,
    ensures
        span_cells(text, from, to) == span_cells(text, from, mid) + span_cells(text, mid, to),
    decreases to - mid,
{
    if mid < to {
        spans_add_up(text, from, mid, to - 1);
    }
}

/// Whether a line under construction is measured right and fits.
spec fn fits(text: Seq<ClusterView>, line: LineView, width: u16) -> bool {
    0 <= line.start <= line.end <= text.len() && line.width == span_cells(
        text,
        line.start,
        line.end,
    ) && line.width <= width
}

/// Whether every line fits.
spec fn all_fit(text: Seq<ClusterView>, rows: Seq<(int, int)>, width: u16) -> bool {
    forall|i: int| 0 <= i < rows.len() ==> #[trigger] row_fits(text, rows[i], width)
}

/// Whether a line takes no more than `width` cells.
pub open spec fn row_fits(text: Seq<ClusterView>, row: (int, int), width: u16) -> bool {
    0 <= row.0 <= row.1 <= text.len() && span_cells(text, row.0, row.1) <= width
}

/// The pieces of a wide word fit, and so does the open one.
proof fn pieces_fit(text: Seq<ClusterView>, open: LineView, end: int, width: u16)
    requires
        width < 65535,
        fits(text, open, width),
        open.end <= end <= text.len(),
        forall|i: int| 0 <= i < text.len() ==> (#[trigger] text[i]).width <= width,
    ensures
        all_fit(text, word_pieces(text, open, end, width).0, width),
        fits(text, word_pieces(text, open, end, width).1, width),
        word_pieces(text, open, end, width).1.end == end,
        forall|j: int|
            open.start <= j < end ==> #[trigger] lies_in(
                word_pieces(text, open, end, width).0,
                j,
            ) || word_pieces(text, open, end, width).1.start <= j,
    decreases end - open.end,
{
    if open.end < end {
        let cells = text[open.end].width;
        if open.width > 0 && sat_add(open.width, cells) > width {
            let next = LineView { start: open.end, end: open.end + 1, width: sat_add(0, cells) };
            assert(span_cells(text, open.end, open.end) == 0);
            assert(span_cells(text, open.end, open.end + 1) == cells);
            pieces_fit(text, next, end, width);
            let (rest, last) = word_pieces(text, next, end, width);
            let all = seq![(open.start, open.end)] + rest;
            assert forall|i: int| 0 <= i < all.len() implies #[trigger] row_fits(
                text,
                all[i],
                width,
            ) by {
                if i > 0 {
                    assert(row_fits(text, rest[i - 1], width));
                }
            }
            assert forall|j: int| open.start <= j < end implies #[trigger] lies_in(all, j)
                || last.start <= j by {
                if j < open.end {
                    assert(all[0].0 <= j < all[0].1);
                } else if lies_in(rest, j) {
                    let i = choose|i: int|
                        0 <= i < rest.len() && (#[trigger] rest[i]).0 <= j < rest[i].1;
                    assert(all[i + 1] == rest[i]);
                }
            }
        } else {
            let next = LineView {
                start: open.start,
                end: open.end + 1,
                width: sat_add(open.width, cells),
            };
            pieces_fit(text, next, end, width);
        }
    }
}

/// Lines behind an open line fit and hold every word.
proof fn rows_hold_words(text: Seq<ClusterView>, at: int, open: Option<LineView>, width: u16)
    requires
        0 < width < 65535,
        0 <= at <= text.len(),
        open matches Some(line) ==> fits(text, line, width) && line.end <= at,
        forall|i: int| 0 <= i < text.len() ==> (#[trigger] text[i]).width <= width,
    ensures
        all_fit(text, lines_from(text, at, open, width), width),
        forall|j: int|
            #![trigger lies_in(lines_from(text, at, open, width), j)]
            at <= j < text.len() && !blank_cluster(text[j]) ==> lies_in(
                lines_from(text, at, open, width),
                j,
            ),
        forall|j: int|
            #![trigger lies_in(lines_from(text, at, open, width), j)]
            open matches Some(line) && line.start <= j < line.end ==> lies_in(
                lines_from(text, at, open, width),
                j,
            ),
    decreases text.len() - at,
{
    let from = stretch_end(text, at, true);
    let to = stretch_end(text, from, false);
    let all = lines_from(text, at, open, width);
    stretch_bounds(text, at, true);
    stretch_bounds(text, from, false);
    if from >= to {
        if open is Some {
            let line = open->0;
            assert(all[0] == (line.start, line.end));
            assert forall|i: int| 0 <= i < all.len() implies #[trigger] row_fits(
                text,
                all[i],
                width,
            ) by {}
            assert forall|j: int| line.start <= j < line.end implies #[trigger] lies_in(all, j) by {
                assert(all[0].0 <= j < all[0].1);
            }
        }
        assert forall|j: int|
            #![trigger lies_in(all, j)]
            at <= j < text.len() && !blank_cluster(text[j]) implies lies_in(all, j) by {
            assert(from == text.len());
            assert(blank_cluster(text[j]));
        }
    } else {
        width_counts_cells(text, from, to);
        let (finished, rest_open, pieces) = match open {
            Some(line) if word_joins(text, line, from, to, width) => {
                spans_add_up(text, line.start, line.end, from);
                spans_add_up(text, line.start, from, to);
                width_counts_cells(text, line.end, from);
                (
                    Seq::<(int, int)>::empty(),
                    LineView {
                        start: line.start,
                        end: to,
                        width: sat_add(
                            sat_add(line.width, span_width(text, line.end, from)),
                            span_width(text, from, to),
                        ),
                    },
                    Seq::<(int, int)>::empty(),
                )
            },
            _ => {
                let finished = match open {
                    Some(line) => seq![(line.start, line.end)],
                    None => Seq::empty(),
                };
                if span_width(text, from, to) <= width {
                    (
                        finished,
                        LineView { start: from, end: to, width: span_width(text, from, to) },
                        Seq::empty(),
                    )
                } else {
                    let first = LineView { start: from, end: from, width: 0 };
                    pieces_fit(text, first, to, width);
                    let (pieces, last) = word_pieces(text, first, to, width);
                    (finished, last, pieces)
                }
            },
        };
        let tail = lines_from(text, to, Some(rest_open), width);
        rows_hold_words(text, to, Some(rest_open), width);
        assert(all =~= finished + pieces + tail);
        assert forall|i: int| 0 <= i < all.len() implies #[trigger] row_fits(text, all[i], width) by {
            if i < finished.len() {
            } else if i < finished.len() + pieces.len() {
                assert(row_fits(text, pieces[i - finished.len()], width));
            } else {
                assert(row_fits(text, tail[i - finished.len() - pieces.len()], width));
            }
        }
        assert forall|j: int| #![trigger lies_in(tail, j)] lies_in(tail, j) implies lies_in(all, j) by {
            let i = choose|i: int| 0 <= i < tail.len() && (#[trigger] tail[i]).0 <= j < tail[i].1;
            assert(all[i + finished.len() + pieces.len()] == tail[i]);
        }
        assert forall|j: int| #![trigger lies_in(pieces, j)] lies_in(pieces, j) implies lies_in(
            all,
            j,
        ) by {
            let i = choose|i: int|
                0 <= i < pieces.len() && (#[trigger] pieces[i]).0 <= j < pieces[i].1;
            assert(all[i + finished.len()] == pieces[i]);
        }
        assert forall|j: int|
            #![trigger lies_in(all, j)]
            at <= j < text.len() && !blank_cluster(text[j]) implies lies_in(all, j) by {
            if j < from {
                assert(blank_cluster(text[j]));
            } else if j >= to {
                assert(lies_in(tail, j));
            } else if !lies_in(pieces, j) {
                assert(rest_open.start <= j < rest_open.end);
                assert(lies_in(tail, j));
            }
        }
        assert forall|j: int|
            #![trigger lies_in(all, j)]
            open matches Some(line) && line.start <= j < line.end implies lies_in(all, j) by {
            if finished.len() > 0 {
                assert(all[0] == finished[0]);
            } else {
                assert(lies_in(tail, j));
            }
        }
    }
}

/// A label's lines fit their width, and every cluster that is part of a word
/// stands in one of them.
pub proof fn labels_wrap_whole(text: Seq<ClusterView>, width: u16, at: int)
    requires
        0 < width < 65535,
        forall|i: int| 0 <= i < text.len() ==> (#[trigger] text[i]).width <= width,
        0 <= at < text.len(),
        !blank_cluster(text[at]),
    ensures
        lies_in(label_rows(text, width), at),
        forall|i: int|
            0 <= i < label_rows(text, width).len() ==> row_fits(
                text,
                #[trigger] label_rows(text, width)[i],
                width,
            ),
{
    rows_hold_words(text, 0, None, width);
    let rows = lines_from(text, 0, None, width);
    assert(lies_in(rows, at));
    assert(label_rows(text, width) == rows);
    assert forall|i: int| 0 <= i < rows.len() implies row_fits(
        text,
        #[trigger] label_rows(text, width)[i],
        width,
    ) by {
        assert(row_fits(text, rows[i], width));
    }
}

/// Whether the clusters from `from` up to `to` are a whole word.
pub open spec fn word_at(text: Seq<ClusterView>, from: int, to: int) -> bool {
    &&& 0 <= from < to <= text.len()
    &&& forall|k: int| from <= k < to ==> !blank_cluster(#[trigger] text[k])
    &&& from > 0 ==> blank_cluster(text[from - 1])
    &&& to < text.len() ==> blank_cluster(text[to])
}

/// Whether a line rightly ends where the next one starts with cluster `next`.
/// Only blanks lie between. Where a word starts there, a line break lies between
/// or the word no longer fits on the line; where the line ends inside a word,
/// that word is wider than a line and the line is full.
pub open spec fn ends_well(
    text: Seq<ClusterView>,
    line: (int, int),
    next: int,
    width: u16,
) -> bool {
    &&& line.0 < line.1 <= next < text.len()
    &&& !blank_cluster(text[next])
    &&& forall|k: int| line.1 <= k < next ==> blank_cluster(#[trigger] text[k])
    &&& forall|to: int| #[trigger]
        word_at(text, next, to) ==> span_breaks(text, line.1, next) || span_cells(
            text,
            line.0,
            to,
        ) > width
    &&& next > 0 && !blank_cluster(text[next - 1]) ==> line.1 == next && span_cells(
        text,
        line.0,
        next + 1,
    ) > width
    &&& forall|from: int, to: int| #[trigger]
        word_at(text, from, to) && from < next < to ==> span_cells(text, from, to) > width
}

/// Whether every line but the last ends well.
pub open spec fn lines_end_well(
    text: Seq<ClusterView>,
    rows: Seq<(int, int)>,
    width: u16,
) -> bool {
    forall|i: int, j: int|
        0 <= i && j == i + 1 && j < rows.len() ==> ends_well(
            text,
            #[trigger] rows[i],
            (#[trigger] rows[j]).0,
            width,
        )
}

proof fn words_are_unique(
    text: Seq<ClusterView>,
    from: int,
    to: int,
    a: int,
    b: int,
    k: int,
)
    requires
        word_at(text, from, to),
        word_at(text, a, b),
        from <= k < to,
        a <= k < b,
    ensures
        a == from,
        b == to,
{
    if a < from {
        assert(!blank_cluster(text[from - 1]));
    }
    if from < a {
        assert(!blank_cluster(text[a - 1]));
    }
    if b < to {
        assert(!blank_cluster(text[b]));
    }
    if to < b {
        assert(!blank_cluster(text[to]));
    }
}

/// The pieces of a wide word end where they are full.
proof fn pieces_end_well(
    text: Seq<ClusterView>,
    from: int,
    open: LineView,
    end: int,
    width: u16,
)
    requires
        width < 65535,
        word_at(text, from, end),
        span_cells(text, from, end) > width,
        from <= open.start <= open.end <= end,
        open.start < open.end || open.end < end,
        fits(text, open, width),
        forall|i: int| 0 <= i < text.len() ==> (#[trigger] text[i]).width <= width,
    ensures
        ({
            let (pieces, last) = word_pieces(text, open, end, width);
            let rows = pieces.push((last.start, last.end));
            &&& rows[0].0 == open.start
            &&& lines_end_well(text, rows, width)
            &&& last.end == end
            &&& last.start < last.end
            &&& fits(text, last, width)
        }),
    decreases end - open.end,
{
    if open.end < end {
        let cells = text[open.end].width;
        if open.width > 0 && sat_add(open.width, cells) > width {
            let next = LineView { start: open.end, end: open.end + 1, width: sat_add(0, cells) };
            assert(span_cells(text, open.end, open.end) == 0);
            assert(span_cells(text, open.end, open.end + 1) == cells);
            assert(open.start < open.end) by {
                if open.start == open.end {
                    assert(span_cells(text, open.start, open.end) == 0);
                }
            }
            pieces_end_well(text, from, next, end, width);
            let (rest, last) = word_pieces(text, next, end, width);
            let tail = rest.push((last.start, last.end));
            let first = (open.start, open.end);
            let all = (seq![first] + rest).push((last.start, last.end));
            assert(span_cells(text, open.start, open.end + 1) == span_cells(
                text,
                open.start,
                open.end,
            ) + cells);
            assert(ends_well(text, first, open.end, width)) by {
                assert(!blank_cluster(text[open.end]));
                assert(!blank_cluster(text[open.end - 1]));
                assert forall|a: int, b: int| #[trigger]
                    word_at(text, a, b) && a < open.end < b implies span_cells(text, a, b)
                    > width by {
                    words_are_unique(text, from, end, a, b, open.end);
                }
                assert forall|b: int| #[trigger] word_at(text, open.end, b) implies false by {
                    words_are_unique(text, from, end, open.end, b, open.end);
                }
            }
            assert forall|i: int, j: int| 0 <= i && j == i + 1 && j < all.len() implies ends_well(
                text,
                #[trigger] all[i],
                (#[trigger] all[j]).0,
                width,
            ) by {
                assert(all[j] == tail[j - 1]);
                if i > 0 {
                    assert(all[i] == tail[i - 1]);
                }
            }
        } else {
            let next = LineView {
                start: open.start,
                end: open.end + 1,
                width: sat_add(open.width, cells),
            };
            pieces_end_well(text, from, next, end, width);
        }
    }
}

proof fn joined_lines_end_well(
    text: Seq<ClusterView>,
    front: Seq<(int, int)>,
    back: Seq<(int, int)>,
    width: u16,
)
    requires
        lines_end_well(text, front, width),
        lines_end_well(text, back, width),
        front.len() > 0 && back.len() > 0 ==> ends_well(text, front.last(), back[0].0, width),
    ensures
        lines_end_well(text, front + back, width),
{
    let all = front + back;
    assert forall|i: int, j: int| 0 <= i && j == i + 1 && j < all.len() implies ends_well(
        text,
        #[trigger] all[i],
        (#[trigger] all[j]).0,
        width,
    ) by {
        if j < front.len() {
            assert(all[i] == front[i] && all[j] == front[j]);
        } else if i >= front.len() {
            assert(all[i] == back[i - front.len()] && all[j] == back[j - front.len()]);
        }
    }
}

proof fn filled_lines_from(text: Seq<ClusterView>, at: int, open: Option<LineView>, width: u16)
    requires
        0 < width < 65535,
        0 <= at <= text.len(),
        0 < at < text.len() ==> blank_cluster(text[at]),
        open matches Some(line) ==> fits(text, line, width) && line.start < line.end == at
            && !blank_cluster(text[line.start]) && !blank_cluster(text[at - 1]),
        open is None ==> at == 0,
        forall|i: int| 0 <= i < text.len() ==> (#[trigger] text[i]).width <= width,
    ensures
        ({
            let rows = lines_from(text, at, open, width);
            &&& lines_end_well(text, rows, width)
            &&& open matches Some(line) ==> rows.len() > 0 && rows[0].0 == line.start
            &&& open is None && rows.len() > 0 ==> rows[0].0 == stretch_end(text, 0, true)
        }),
    decreases text.len() - at,
{
    let from = stretch_end(text, at, true);
    let to = stretch_end(text, from, false);
    let rows = lines_from(text, at, open, width);
    stretch_bounds(text, at, true);
    stretch_bounds(text, from, false);
    if from < to {
        assert(word_at(text, from, to)) by {
            if from > 0 {
                if from > at {
                    assert(blank_cluster(text[from - 1]));
                } else {
                    assert(blank_cluster(text[at]));
                }
            }
        }
        assert(!blank_cluster(text[to - 1]));
        width_counts_cells(text, from, to);
        let joins = open matches Some(line) && word_joins(text, line, from, to, width);
        if joins {
            let line = open->0;
            spans_add_up(text, line.start, line.end, from);
            spans_add_up(text, line.start, from, to);
            width_counts_cells(text, line.end, from);
            let more = LineView {
                start: line.start,
                end: to,
                width: sat_add(
                    sat_add(line.width, span_width(text, line.end, from)),
                    span_width(text, from, to),
                ),
            };
            filled_lines_from(text, to, Some(more), width);
        } else {
            let finished = match open {
                Some(line) => seq![(line.start, line.end)],
                None => Seq::empty(),
            };
            if open is Some {
                let line = open->0;
                spans_add_up(text, line.start, line.end, from);
                spans_add_up(text, line.start, from, to);
                width_counts_cells(text, line.end, from);
                assert(ends_well(text, (line.start, line.end), from, width)) by {
                    assert forall|b: int| #[trigger] word_at(text, from, b) implies span_breaks(
                        text,
                        line.end,
                        from,
                    ) || span_cells(text, line.start, b) > width by {
                        words_are_unique(text, from, to, from, b, from);
                    }
                    assert forall|a: int, b: int| #[trigger]
                        word_at(text, a, b) && a < from < b implies span_cells(text, a, b)
                        > width by {
                        words_are_unique(text, from, to, a, b, from);
                    }
                }
            }
            if span_width(text, from, to) <= width {
                let next = LineView { start: from, end: to, width: span_width(text, from, to) };
                filled_lines_from(text, to, Some(next), width);
                let tail = lines_from(text, to, Some(next), width);
                joined_lines_end_well(text, finished, tail, width);
                assert(rows == finished + tail);
            } else {
                let first = LineView { start: from, end: from, width: 0 };
                assert(span_cells(text, from, from) == 0);
                pieces_end_well(text, from, first, to, width);
                let (pieces, last) = word_pieces(text, first, to, width);
                assert(!blank_cluster(text[last.start])) by {
                    pieces_stay_inside(text, first, to, width);
                }
                filled_lines_from(text, to, Some(last), width);
                let tail = lines_from(text, to, Some(last), width);
                let shown = pieces.push((last.start, last.end));
                assert(lines_end_well(text, pieces, width)) by {
                    assert forall|i: int, j: int|
                        0 <= i && j == i + 1 && j < pieces.len() implies ends_well(
                        text,
                        #[trigger] pieces[i],
                        (#[trigger] pieces[j]).0,
                        width,
                    ) by {
                        assert(shown[i] == pieces[i] && shown[j] == pieces[j]);
                    }
                }
                if pieces.len() > 0 {
                    assert(shown[pieces.len() - 1] == pieces.last());
                    assert(shown[pieces.len() as int] == (last.start, last.end));
                    assert(ends_well(text, pieces.last(), last.start, width));
                }
                joined_lines_end_well(text, pieces, tail, width);
                assert((pieces + tail)[0].0 == from) by {
                    if pieces.len() > 0 {
                        assert(shown[0] == pieces[0]);
                        assert((pieces + tail)[0] == pieces[0]);
                    }
                }
                joined_lines_end_well(text, finished, pieces + tail, width);
                assert(rows =~= finished + (pieces + tail));
            }
        }
    }
}

proof fn pieces_stay_inside(text: Seq<ClusterView>, open: LineView, end: int, width: u16)
    requires
        open.start <= open.end <= end,
        open.start < end,
    ensures
        open.start <= word_pieces(text, open, end, width).1.start < end,
    decreases end - open.end,
{
    if open.end < end {
        let cells = text[open.end].width;
        if open.width > 0 && sat_add(open.width, cells) > width {
            pieces_stay_inside(
                text,
                LineView { start: open.end, end: open.end + 1, width: sat_add(0, cells) },
                end,
                width,
            );
        } else {
            pieces_stay_inside(
                text,
                LineView {
                    start: open.start,
                    end: open.end + 1,
                    width: sat_add(open.width, cells),
                },
                end,
                width,
            );
        }
    }
}

/// A label's lines are filled as far as they go: a line ends before a word only
/// at a line break or where that word no longer fits on it, and inside a word
/// only where that word is wider than a line and the line is full. The first
/// line starts with the first cluster that is not blank.
pub proof fn label_lines_are_filled(text: Seq<ClusterView>, width: u16)
    requires
        0 < width < 65535,
        forall|i: int| 0 <= i < text.len() ==> (#[trigger] text[i]).width <= width,
        exists|k: int| 0 <= k < text.len() && !blank_cluster(#[trigger] text[k]),
    ensures
        ({
            let rows = label_rows(text, width);
            &&& rows.len() > 0
            &&& lines_end_well(text, rows, width)
            &&& 0 <= rows[0].0 < text.len()
            &&& !blank_cluster(text[rows[0].0])
            &&& forall|k: int| 0 <= k < rows[0].0 ==> blank_cluster(#[trigger] text[k])
        }),
{
    filled_lines_from(text, 0, None, width);
    stretch_bounds(text, 0, true);
    let k = choose|k: int| 0 <= k < text.len() && !blank_cluster(#[trigger] text[k]);
    labels_wrap_whole(text, width, k);
    let from = stretch_end(text, 0, true);
    if from > k {
        assert(blank_cluster(text[k]));
    }
    rows_hold_words(text, 0, None, width);
    assert(lies_in(lines_from(text, 0, None, width), k));
}

/// Cells of the clusters from `from` up to `to`, each gap between words counted
/// as one cell.
pub open spec fn prose_cells(text: Seq<ClusterView>, from: int, to: int) -> int
    decreases to - from,
{
    if from >= to {
        0
    } else if !blank_cluster(text[to - 1]) {
        prose_cells(text, from, to - 1) + text[to - 1].width
    } else if to - 1 > from && !blank_cluster(text[to - 2]) {
        prose_cells(text, from, to - 1) + 1
    } else {
        prose_cells(text, from, to - 1)
    }
}

proof fn words_count_their_cells(text: Seq<ClusterView>, start: int, from: int, to: int)
    requires
        start <= from <= to,
        forall|k: int| from <= k < to ==> !blank_cluster(#[trigger] text[k]),
    ensures
        prose_cells(text, start, to) == prose_cells(text, start, from) + span_cells(text, from, to),
        span_cells(text, from, to) >= 0,
    decreases to - from,
{
    if from < to {
        assert(!blank_cluster(text[to - 1]));
        words_count_their_cells(text, start, from, to - 1);
    }
}

proof fn gaps_count_once(text: Seq<ClusterView>, start: int, from: int, to: int)
    requires
        0 <= start < from < to <= text.len(),
        !blank_cluster(text[from - 1]),
        forall|k: int| from <= k < to ==> blank_cluster(#[trigger] text[k]),
    ensures
        prose_cells(text, start, to) == prose_cells(text, start, from) + 1,
    decreases to - from,
{
    assert(blank_cluster(text[to - 1]));
    if to - 1 > from {
        assert(blank_cluster(text[to - 2]));
        gaps_count_once(text, start, from, to - 1);
    }
}

/// Whether a line of a description rightly ends before cluster `next`, where a
/// word starts that no longer fits on the line.
pub open spec fn prose_ends_well(
    text: Seq<ClusterView>,
    line: (int, int),
    next: int,
    width: u16,
) -> bool {
    &&& line.0 < line.1 < next < text.len()
    &&& !blank_cluster(text[next])
    &&& forall|k: int| line.1 <= k < next ==> blank_cluster(#[trigger] text[k])
    &&& forall|to: int| #[trigger]
        word_at(text, next, to) ==> prose_cells(text, line.0, to) > width
}

/// Whether a line of a description fits, or is one word.
pub open spec fn prose_fits(text: Seq<ClusterView>, line: (int, int), width: u16) -> bool {
    word_at(text, line.0, line.1) || prose_cells(text, line.0, line.1) <= width
}

proof fn filled_prose_from(text: Seq<ClusterView>, at: int, open: Option<LineView>, width: u16)
    requires
        0 < width < 65535,
        0 <= at <= text.len(),
        0 < at < text.len() ==> blank_cluster(text[at]),
        open matches Some(line) ==> {
            &&& 0 <= line.start < line.end == at
            &&& !blank_cluster(text[line.start])
            &&& !blank_cluster(text[at - 1])
            &&& line.width == (if prose_cells(text, line.start, line.end) <= 65535 {
                prose_cells(text, line.start, line.end)
            } else {
                65535
            })
            &&& prose_fits(text, (line.start, line.end), width)
        },
        open is None ==> at == 0,
    ensures
        ({
            let rows = prose_from(text, at, open, width);
            &&& forall|i: int, j: int|
                0 <= i && j == i + 1 && j < rows.len() ==> prose_ends_well(
                    text,
                    #[trigger] rows[i],
                    (#[trigger] rows[j]).0,
                    width,
                )
            &&& forall|i: int|
                0 <= i < rows.len() ==> prose_fits(text, #[trigger] rows[i], width)
            &&& open matches Some(line) ==> rows.len() > 0 && rows[0].0 == line.start
            &&& open is None && rows.len() > 0 ==> rows[0].0 == stretch_end(text, 0, true)
        }),
    decreases text.len() - at,
{
    let from = stretch_end(text, at, true);
    let to = stretch_end(text, from, false);
    let rows = prose_from(text, at, open, width);
    stretch_bounds(text, at, true);
    stretch_bounds(text, from, false);
    if from < to {
        assert(word_at(text, from, to)) by {
            if from > 0 {
                if from > at {
                    assert(blank_cluster(text[from - 1]));
                } else {
                    assert(blank_cluster(text[at]));
                }
            }
        }
        assert(!blank_cluster(text[to - 1]));
        width_counts_cells(text, from, to);
        words_count_their_cells(text, from, from, to);
        let word = span_width(text, from, to);
        let alone = LineView { start: from, end: to, width: word };
        match open {
            Some(line) => {
                assert(at < from) by {
                    if at == from {
                        assert(blank_cluster(text[at]));
                    }
                }
                gaps_count_once(text, line.start, at, from);
                words_count_their_cells(text, line.start, from, to);
                if sat_add(sat_add(line.width, 1), word) > width {
                    filled_prose_from(text, to, Some(alone), width);
                    let tail = prose_from(text, to, Some(alone), width);
                    let first = (line.start, line.end);
                    assert(rows == seq![first] + tail);
                    assert(prose_ends_well(text, first, from, width)) by {
                        assert forall|b: int| #[trigger] word_at(text, from, b) implies prose_cells(
                            text,
                            line.start,
                            b,
                        ) > width by {
                            words_are_unique(text, from, to, from, b, from);
                        }
                    }
                    assert forall|i: int, j: int|
                        0 <= i && j == i + 1 && j < rows.len() implies prose_ends_well(
                        text,
                        #[trigger] rows[i],
                        (#[trigger] rows[j]).0,
                        width,
                    ) by {
                        assert(rows[j] == tail[j - 1]);
                        if i > 0 {
                            assert(rows[i] == tail[i - 1]);
                        }
                    }
                    assert forall|i: int| 0 <= i < rows.len() implies prose_fits(
                        text,
                        #[trigger] rows[i],
                        width,
                    ) by {
                        if i > 0 {
                            assert(rows[i] == tail[i - 1]);
                        }
                    }
                } else {
                    let more = LineView {
                        start: line.start,
                        end: to,
                        width: sat_add(sat_add(line.width, 1), word),
                    };
                    filled_prose_from(text, to, Some(more), width);
                }
            },
            None => {
                filled_prose_from(text, to, Some(alone), width);
            },
        }
    }
}

/// A description's lines are filled as far as they go, each gap counted as one
/// cell: a line ends before a word only where that word no longer fits on it. A
/// line fits unless it is a single word. There are at most two, and the first
/// starts with the first cluster that is not blank.
pub proof fn description_lines_are_filled(text: Seq<ClusterView>, width: u16)
    requires
        8 <= width < 65535,
    ensures
        ({
            let rows = desc_rows(text, width);
            &&& rows.len() <= 2
            &&& rows.len() == 2 ==> prose_ends_well(text, rows[0], rows[1].0, width)
            &&& forall|i: int|
                0 <= i < rows.len() ==> prose_fits(text, #[trigger] rows[i], width)
            &&& rows.len() > 0 ==> forall|k: int|
                0 <= k < rows[0].0 ==> blank_cluster(#[trigger] text[k])
        }),
{
    filled_prose_from(text, 0, None, width);
    stretch_bounds(text, 0, true);
    let all = prose_from(text, 0, None, width);
    let rows = desc_rows(text, width);
    if rows.len() == 2 {
        assert(rows[0] == all[0] && rows[1] == all[1]);
    }
    assert forall|i: int| 0 <= i < rows.len() implies prose_fits(
        text,
        #[trigger] rows[i],
        width,
    ) by {
        assert(rows[i] == all[i]);
    }
}

} // verus!
