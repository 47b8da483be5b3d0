//! Styled runs of text: how widgets write their rows.

use vstd::prelude::*;
use vstd::string::*;

use crate::frame::{Frame, FrameView};
use crate::lines::line_text;
use crate::style::Style;
use crate::text::{ascii_clusters, cells, text_width, ClusterView, Text};

verus! {

/// Text in one style.
pub struct Run {
    /// The text.
    pub text: Text,
    /// Its style.
    pub style: Style,
}

/// Text in one style.
pub struct RunView {
    /// The text.
    pub text: Seq<ClusterView>,
    /// Its style.
    pub style: Style,
}

impl View for Run {
    type V = RunView;

    open spec fn view(&self) -> RunView {
        RunView { text: self.text@, style: self.style }
    }
}

/// The views of runs.
pub open spec fn run_views(runs: Seq<Run>) -> Seq<RunView> {
    runs.map_values(|run: Run| run@)
}

/// A run of glyphs that take a cell each.
pub open spec fn mark(glyphs: Seq<char>, style: Style) -> RunView {
    RunView { text: ascii_clusters(glyphs), style }
}

/// A run of text.
pub open spec fn run(text: Seq<ClusterView>, style: Style) -> RunView {
    RunView { text, style }
}

/// Appends a run.
pub fn push_run(runs: &mut Vec<Run>, text: Text, style: Style)
    ensures
        run_views(final(runs)@) == run_views(old(runs)@).push(run(text@, style)),
{
    let ghost before = run_views(runs@);
    runs.push(Run { text, style });
    assert(run_views(runs@) =~= before.push(run(text@, style)));
}

/// Appends a run of glyphs that take a cell each.
pub fn push_mark(runs: &mut Vec<Run>, glyphs: &str, style: Style)
    ensures
        run_views(final(runs)@) == run_views(old(runs)@).push(mark(glyphs@, style)),
{
    push_run(runs, Text::cells_of(glyphs), style);
}

/// No runs.
pub fn no_runs() -> (runs: Vec<Run>)
    ensures
        run_views(runs@) == Seq::<RunView>::empty(),
{
    let runs: Vec<Run> = Vec::new();
    assert(run_views(runs@) =~= Seq::<RunView>::empty());
    runs
}

/// The frame with runs written one behind the other from `(x, y)`, and the
/// column behind the last.
pub open spec fn written(frame: FrameView, x: u16, y: u16, runs: Seq<RunView>) -> (FrameView, u16)
    decreases runs.len(),
{
    if runs.len() == 0 {
        (frame, x)
    } else {
        let (earlier, column) = written(frame, x, y, runs.drop_last());
        (
            earlier.put(column, y, runs.last().text, runs.last().style),
            earlier.end(column, y, runs.last().text),
        )
    }
}

/// Writes runs one behind the other.
pub fn write_runs(frame: &mut Frame, x: u16, y: u16, runs: &Vec<Run>) -> (end: u16)
    requires
        old(frame).wf(),
    ensures
        final(frame).wf(),
        final(frame).source() == old(frame).source(),
        (final(frame)@, end) == written(old(frame)@, x, y, run_views(runs@)),
{
    let ghost all = run_views(runs@);
    let ghost before = frame@;
    let mut column: u16 = x;
    let mut at: usize = 0;
    assert(all.take(0) =~= Seq::empty());
    while at < runs.len()
        invariant
            at <= runs.len(),
            all == run_views(runs@),
            frame.wf(),
            frame.source() == old(frame).source(),
            (frame@, column) == written(before, x, y, all.take(at as int)),
        decreases runs.len() - at,
    {
        assert(all.take(at + 1).drop_last() =~= all.take(at as int));
        assert(all.take(at + 1).last() == runs@[at as int]@);
        column = frame.put(column, y, &runs[at].text, runs[at].style);
        at += 1;
    }
    assert(all.take(at as int) =~= all);
    column
}

/// How many clusters from the start fit in `budget` cells.
pub open spec fn fitting(text: Seq<ClusterView>, budget: int) -> int
    decreases text.len(),
{
    if text.len() == 0 || text[0].width > budget {
        0
    } else {
        1 + fitting(text.drop_first(), budget - text[0].width)
    }
}

/// How many clusters up to the end fit in `budget` cells.
pub open spec fn fitting_back(text: Seq<ClusterView>, budget: int) -> int
    decreases text.len(),
{
    if text.len() == 0 || text.last().width > budget {
        0
    } else {
        1 + fitting_back(text.drop_last(), budget - text.last().width)
    }
}

/// A text cut to a width.
pub struct Cut {
    /// What is left of the text.
    pub text: Text,
    /// Whether an ellipsis stands for the rest.
    pub ellipsis: bool,
    /// Cells of the text and its ellipsis.
    pub width: u16,
}

/// The text without the clusters at its end that do not fit in `width` cells.
/// Where some do not, a cell is kept for an ellipsis.
pub open spec fn cut_text(text: Seq<ClusterView>, width: u16) -> Seq<ClusterView> {
    if text_width(text) <= width {
        text
    } else {
        text.take(fitting(text, width - 1))
    }
}

/// The text without the clusters at its start that do not fit in `width` cells.
pub open spec fn cut_head(text: Seq<ClusterView>, width: u16) -> Seq<ClusterView> {
    if text_width(text) <= width {
        text
    } else {
        text.skip(text.len() - fitting_back(text, width - 1))
    }
}

/// Whether a text cut to `width` cells shows an ellipsis.
pub open spec fn cut_marked(text: Seq<ClusterView>, width: u16) -> bool {
    text_width(text) > width && width > 0
}

/// The cut text with its ellipsis behind it, as runs.
pub open spec fn cut_runs(text: Seq<ClusterView>, width: u16, style: Style) -> Seq<RunView> {
    if cut_marked(text, width) {
        seq![run(cut_text(text, width), style), mark("…"@, style)]
    } else {
        seq![run(cut_text(text, width), style)]
    }
}

/// The cells of the clusters that fit are within the budget.
pub proof fn fitting_fits(text: Seq<ClusterView>, budget: int)
    ensures
        0 <= fitting(text, budget) <= text.len(),
        budget >= 0 ==> cells(text.take(fitting(text, budget))) <= budget,
        fitting(text, budget) < text.len() ==> cells(text.take(fitting(text, budget))) + text[fitting(
            text,
            budget,
        )].width > budget,
    decreases text.len(),
{
    if text.len() > 0 && text[0].width <= budget {
        let rest = text.drop_first();
        fitting_fits(rest, budget - text[0].width);
        let count = fitting(rest, budget - text[0].width);
        cells_from_front(text.take(count + 1));
        assert(text.take(count + 1).drop_first() =~= rest.take(count));
    } else {
        assert(text.take(0) =~= Seq::empty());
    }
}

/// A text's cells are those of its first cluster and of the rest.
proof fn cells_from_front(text: Seq<ClusterView>)
    requires
        text.len() > 0,
    ensures
        cells(text) == text[0].width + cells(text.drop_first()),
    decreases text.len(),
{
    if text.len() > 1 {
        cells_from_front(text.drop_last());
        assert(text.drop_last().drop_first() =~= text.drop_first().drop_last());
    } else {
        assert(text.drop_last() =~= Seq::empty());
        assert(text.drop_first() =~= Seq::empty());
    }
}

/// The cells of the clusters kept at the end are within the budget.
pub proof fn fitting_back_fits(text: Seq<ClusterView>, budget: int)
    ensures
        0 <= fitting_back(text, budget) <= text.len(),
        budget >= 0 ==> cells(text.skip(text.len() - fitting_back(text, budget))) <= budget,
    decreases text.len(),
{
    if text.len() > 0 && text.last().width <= budget {
        let rest = text.drop_last();
        fitting_back_fits(rest, budget - text.last().width);
        let count = fitting_back(rest, budget - text.last().width);
        assert(text.skip(text.len() - count - 1).drop_last() =~= rest.skip(rest.len() - count));
    } else {
        assert(text.skip(text.len() as int) =~= Seq::empty());
    }
}

/// Cuts a text to `width` cells at its end.
pub fn truncate_to_width(text: &Text, width: u16) -> (cut: Cut)
    ensures
        cut.text@ == cut_text(text@, width),
        cut.ellipsis == cut_marked(text@, width),
        cut.width == (if text_width(text@) <= width {
            text_width(text@) as int
        } else if width > 0 {
            1int + cells(cut_text(text@, width))
        } else {
            0
        }),
        cut.width <= width,
{
    let natural: u16 = text.width();
    if natural <= width {
        return Cut { text: text.copy(), ellipsis: false, width: natural };
    }
    proof {
        fitting_fits(text@, width - 1);
    }
    if width == 0 {
        assert(text@.len() > 0);
        let empty = Text::empty();
        proof {
            assert(fitting(text@, -1) == 0);
            assert(text@.take(0) =~= Seq::empty());
        }
        return Cut { text: empty, ellipsis: false, width: 0 };
    }
    let budget: u16 = width - 1;
    let mut kept: u16 = 0;
    let mut at: usize = 0;
    assert(text@.skip(0) =~= text@);
    assert(text@.take(0) =~= Seq::empty());
    while at < text.clusters.len() && text.clusters[at].width <= budget - kept
        invariant
            at <= text.clusters.len(),
            kept <= budget,
            budget == width - 1,
            kept == cells(text@.take(at as int)),
            fitting(text@, width - 1) == at + fitting(text@.skip(at as int), budget - kept),
        decreases text.clusters.len() - at,
    {
        assert(text@.take(at + 1).drop_last() =~= text@.take(at as int));
        assert(text@.skip(at as int).drop_first() =~= text@.skip(at + 1));
        kept += text.clusters[at].width;
        at += 1;
    }
    assert(fitting(text@, width - 1) == at);
    let head: Text = line_text(text, 0, at);
    assert(head@ =~= text@.take(at as int));
    Cut { text: head, ellipsis: true, width: kept + 1 }
}

/// Cuts a text to `width` cells at its start; the second part says whether an
/// ellipsis stands for what was cut.
pub fn truncate_start(text: &Text, width: u16) -> (cut: (Text, bool))
    ensures
        cut.0@ == cut_head(text@, width),
        cut.1 == cut_marked(text@, width),
{
    let natural: u16 = text.width();
    if natural <= width {
        return (text.copy(), false);
    }
    let ghost all = text@;
    if width == 0 {
        let empty = Text::empty();
        proof {
            assert(fitting_back(all, -1) == 0);
            assert(all.skip(all.len() as int) =~= Seq::empty());
        }
        return (empty, false);
    }
    let budget: u16 = width - 1;
    let mut left: u16 = budget;
    let mut start: usize = text.clusters.len();
    assert(all.take(all.len() as int) =~= all);
    while start > 0 && text.clusters[start - 1].width <= left
        invariant
            start <= text.clusters.len(),
            all == text@,
            fitting_back(all, width - 1) == all.len() - start + fitting_back(
                all.take(start as int),
                left as int,
            ),
        decreases start,
    {
        assert(all.take(start as int).drop_last() =~= all.take(start - 1));
        assert(all.take(start as int).last() == all[start - 1]);
        left -= text.clusters[start - 1].width;
        start -= 1;
    }
    assert(fitting_back(all, width - 1) == all.len() - start);
    let tail: Text = line_text(text, start, text.clusters.len());
    assert(tail@ =~= all.skip(start as int));
    (tail, true)
}

/// Appends a text cut to `width` cells, with its ellipsis.
pub fn push_cut(runs: &mut Vec<Run>, text: &Text, width: u16, style: Style)
    ensures
        run_views(final(runs)@) == run_views(old(runs)@) + cut_runs(text@, width, style),
{
    let ghost before = run_views(runs@);
    let cut: Cut = truncate_to_width(text, width);
    push_run(runs, cut.text, style);
    if cut.ellipsis {
        push_mark(runs, "…", style);
    }
    assert(run_views(runs@) =~= before + cut_runs(text@, width, style));
}

/// A cut text with its ellipsis never takes more than its width, and a text
/// that fits is kept whole.
pub proof fn cuts_fit(text: Seq<ClusterView>, width: u16)
    requires
        text_width(text) < 65535,
    ensures
        cells(cut_text(text, width)) + (if cut_marked(text, width) {
            1int
        } else {
            0
        }) <= width,
        cells(cut_head(text, width)) + (if cut_marked(text, width) {
            1int
        } else {
            0
        }) <= width,
        text_width(text) <= width ==> cut_text(text, width) == text && cut_head(text, width) == text,
{
    fitting_fits(text, width - 1);
    fitting_back_fits(text, width - 1);
    if text_width(text) > width && width == 0 {
        assert(text.take(0) =~= Seq::empty());
        assert(text.skip(text.len() as int) =~= Seq::empty());
    }
}

/// The cluster before those kept at the end would not fit with them.
proof fn fitting_back_is_maximal(text: Seq<ClusterView>, budget: int)
    ensures
        ({
            let kept = fitting_back(text, budget);
            kept < text.len() ==> cells(text.skip(text.len() - kept)) + text[text.len() - kept
                - 1].width > budget
        }),
    decreases text.len(),
{
    fitting_back_fits(text, budget);
    if text.len() > 0 && text.last().width <= budget {
        let rest = text.drop_last();
        fitting_back_is_maximal(rest, budget - text.last().width);
        fitting_back_fits(rest, budget - text.last().width);
        let count = fitting_back(rest, budget - text.last().width);
        assert(text.skip(text.len() - count - 1).drop_last() =~= rest.skip(rest.len() - count));
    } else {
        assert(text.skip(text.len() as int) =~= Seq::empty());
    }
}

/// A cut text is the start of the text, a cut head its end, as long as fits
/// beside the ellipsis: with one cluster more it would not.
pub proof fn cuts_keep_as_much_as_fits(text: Seq<ClusterView>, width: u16)
    requires
        text_width(text) < 65535,
        width > 0,
    ensures
        ({
            let kept = cut_text(text, width);
            let count = kept.len() as int;
            &&& count <= text.len()
            &&& kept == text.take(count)
            &&& count < text.len() ==> cells(kept) + text[count].width + 1 > width
            &&& count == text.len() <==> cells(text) <= width
        }),
        ({
            let kept = cut_head(text, width);
            let first = text.len() - kept.len();
            &&& 0 <= first
            &&& kept == text.skip(first)
            &&& first > 0 ==> cells(kept) + text[first - 1].width + 1 > width
            &&& first == 0 <==> cells(text) <= width
        }),
{
    fitting_fits(text, width - 1);
    fitting_back_fits(text, width - 1);
    fitting_back_is_maximal(text, width - 1);
    assert(text.take(text.len() as int) =~= text);
    assert(text.skip(0) =~= text);
}

} // verus!
