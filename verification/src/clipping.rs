//! Rows of styled runs clipped to a width behind one ellipsis.

use vstd::prelude::*;

use crate::lines::line_text;
use crate::runs::{
    fitting, fitting_back, fitting_back_fits, fitting_fits, mark, no_runs, push_mark, push_run, run,
    run_views, Run, RunView,
};
use crate::style::Style;
use crate::text::{ascii_clusters, cells, cells_of_concat, ClusterView, Text};

verus! {

/// Cells of a row of runs.
pub open spec fn run_cells(runs: Seq<RunView>) -> nat
    decreases runs.len(),
{
    if runs.len() == 0 {
        0
    } else {
        run_cells(runs.drop_last()) + cells(runs.last().text)
    }
}

/// The runs from `at` on up to where they exceed `budget` cells, with an
/// ellipsis in the style of the run that was cut.
pub open spec fn clipped_end(runs: Seq<RunView>, at: int, budget: int) -> Seq<RunView>
    decreases runs.len() - at,
{
    if at < 0 || at >= runs.len() {
        Seq::empty()
    } else {
        let count = fitting(runs[at].text, budget);
        if count == runs[at].text.len() {
            seq![runs[at]] + clipped_end(runs, at + 1, budget - cells(runs[at].text))
        } else {
            seq![run(runs[at].text.take(count), runs[at].style), mark("…"@, runs[at].style)]
        }
    }
}

/// The last of the first `count` runs from where they exceed `budget` cells on,
/// behind an ellipsis in the style of the run that was cut.
pub open spec fn clipped_start(runs: Seq<RunView>, count: int, budget: int) -> Seq<RunView>
    decreases count,
{
    if count <= 0 || count > runs.len() {
        Seq::empty()
    } else {
        let last = runs[count - 1];
        let kept = fitting_back(last.text, budget);
        if kept == last.text.len() {
            clipped_start(runs, count - 1, budget - cells(last.text)).push(last)
        } else {
            seq![mark("…"@, last.style), run(last.text.skip(last.text.len() - kept), last.style)]
        }
    }
}

/// A row clipped at its end.
pub open spec fn row_clipped_end(runs: Seq<RunView>, width: u16) -> Seq<RunView> {
    if run_cells(runs) <= width {
        runs
    } else if width == 0 {
        Seq::empty()
    } else {
        clipped_end(runs, 0, width - 1)
    }
}

/// A row clipped at its start.
pub open spec fn row_clipped_start(runs: Seq<RunView>, width: u16) -> Seq<RunView> {
    if run_cells(runs) <= width {
        runs
    } else if width == 0 {
        Seq::empty()
    } else {
        clipped_start(runs, runs.len() as int, width - 1)
    }
}

/// Cells of one cluster.
proof fn one_cluster(cluster: ClusterView)
    ensures
        cells(seq![cluster]) == cluster.width,
{
    reveal_with_fuel(cells, 2);
    assert(seq![cluster].drop_last() =~= Seq::empty());
}

/// Cells of one run.
proof fn one_run(only: RunView)
    ensures
        run_cells(seq![only]) == cells(only.text),
{
    reveal_with_fuel(run_cells, 2);
    assert(seq![only].drop_last() =~= Seq::empty());
}

/// How many clusters from the start fit in `budget` cells, and their cells.
fn count_fitting(text: &Text, budget: u16) -> (fit: (usize, u16))
    ensures
        fit.0 == fitting(text@, budget as int),
        fit.0 <= text@.len(),
        fit.1 == cells(text@.take(fit.0 as int)),
        fit.1 <= budget,
{
    let mut kept: u16 = 0;
    let mut at: usize = 0;
    assert(text@.skip(0) =~= text@);
    assert(text@.take(0) =~= Seq::empty());
    while at < text.clusters.len() && text.clusters[at].width <= budget - kept
        invariant
            at <= text.clusters.len(),
            kept <= budget,
            kept == cells(text@.take(at as int)),
            fitting(text@, budget as int) == at + fitting(text@.skip(at as int), budget - kept),
        decreases text.clusters.len() - at,
    {
        assert(text@.take(at + 1).drop_last() =~= text@.take(at as int));
        assert(text@.skip(at as int).drop_first() =~= text@.skip(at + 1));
        kept += text.clusters[at].width;
        at += 1;
    }
    (at, kept)
}

/// How many clusters up to the end fit in `budget` cells, and their cells.
fn count_fitting_back(text: &Text, budget: u16) -> (fit: (usize, u16))
    ensures
        fit.0 == fitting_back(text@, budget as int),
        fit.0 <= text@.len(),
        fit.1 == cells(text@.skip(text@.len() - fit.0)),
        fit.1 <= budget,
{
    let ghost all = text@;
    let mut kept: u16 = 0;
    let mut start: usize = text.clusters.len();
    assert(all.take(all.len() as int) =~= all);
    assert(all.skip(all.len() as int) =~= Seq::empty());
    while start > 0 && text.clusters[start - 1].width <= budget - kept
        invariant
            start <= text.clusters.len(),
            all == text@,
            kept <= budget,
            kept == cells(all.skip(start as int)),
            fitting_back(all, budget as int) == all.len() - start + fitting_back(
                all.take(start as int),
                budget - kept,
            ),
        decreases start,
    {
        assert(all.take(start as int).drop_last() =~= all.take(start - 1));
        assert(all.take(start as int).last() == all[start - 1]);
        proof {
            cells_of_concat(seq![all[start - 1]], all.skip(start as int));
            assert(seq![all[start - 1]] + all.skip(start as int) =~= all.skip(start - 1));
            one_cluster(all[start - 1]);
        }
        kept += text.clusters[start - 1].width;
        start -= 1;
    }
    (text.clusters.len() - start, kept)
}

/// Whether a row takes more than `width` cells.
fn exceeds(runs: &Vec<Run>, width: u16) -> (yes: bool)
    ensures
        yes == (run_cells(run_views(runs@)) > width),
{
    let ghost all = run_views(runs@);
    let mut room: u16 = width;
    let mut at: usize = 0;
    assert(all.take(0) =~= Seq::empty());
    while at < runs.len()
        invariant
            at <= runs.len(),
            all == run_views(runs@),
            room <= width,
            width - room == run_cells(all.take(at as int)),
        decreases runs.len() - at,
    {
        let (count, taken) = count_fitting(&runs[at].text, room);
        assert(all.take(at + 1).drop_last() =~= all.take(at as int));
        assert(all.take(at + 1).last() == runs@[at as int]@);
        let ghost text = runs@[at as int].text@;
        if count < runs[at].text.clusters.len() {
            proof {
                fitting_fits(text, room as int);
                cells_of_concat(text.take(count as int), text.skip(count as int));
                assert(text.take(count as int) + text.skip(count as int) =~= text);
                cells_of_concat(
                    seq![text[count as int]],
                    text.skip(count as int).drop_first(),
                );
                assert(seq![text[count as int]] + text.skip(count as int).drop_first()
                    =~= text.skip(count as int));
                one_cluster(text[count as int]);
                rows_grow(all, at + 1);
            }
            return true;
        }
        assert(text.take(count as int) =~= text);
        room -= taken;
        at += 1;
    }
    assert(all.take(at as int) =~= all);
    false
}

/// A row takes no fewer cells than the runs it starts with.
pub proof fn rows_grow(runs: Seq<RunView>, count: int)
    requires
        0 <= count <= runs.len(),
    ensures
        run_cells(runs.take(count)) <= run_cells(runs),
    decreases runs.len() - count,
{
    if count < runs.len() {
        assert(runs.take(count + 1).drop_last() =~= runs.take(count));
        rows_grow(runs, count + 1);
    } else {
        assert(runs.take(count) =~= runs);
    }
}

/// The runs of a row, copied.
fn copy_runs(runs: &Vec<Run>) -> (copy: Vec<Run>)
    ensures
        run_views(copy@) == run_views(runs@),
{
    let mut copy: Vec<Run> = no_runs();
    let ghost all = run_views(runs@);
    let mut at: usize = 0;
    assert(all.take(0) =~= Seq::empty());
    while at < runs.len()
        invariant
            at <= runs.len(),
            all == run_views(runs@),
            run_views(copy@) == all.take(at as int),
        decreases runs.len() - at,
    {
        push_run(&mut copy, runs[at].text.copy(), runs[at].style);
        assert(all.take(at + 1) =~= all.take(at as int).push(all[at as int]));
        at += 1;
    }
    assert(all.take(at as int) =~= all);
    copy
}

/// Clips a row to `width` cells, with an ellipsis at its end.
pub fn clip_end(runs: &Vec<Run>, width: u16) -> (clipped: Vec<Run>)
    ensures
        run_views(clipped@) == row_clipped_end(run_views(runs@), width),
{
    if !exceeds(runs, width) {
        return copy_runs(runs);
    }
    if width == 0 {
        return no_runs();
    }
    let ghost all = run_views(runs@);
    let mut clipped: Vec<Run> = no_runs();
    let mut budget: u16 = width - 1;
    let mut at: usize = 0;
    let ghost goal = clipped_end(all, 0, width - 1);
    assert(goal =~= run_views(clipped@) + goal);
    while at < runs.len()
        invariant
            at <= runs.len(),
            all == run_views(runs@),
            goal == row_clipped_end(all, width),
            goal == run_views(clipped@) + clipped_end(all, at as int, budget as int),
        decreases runs.len() - at,
    {
        let (count, taken) = count_fitting(&runs[at].text, budget);
        let ghost before = run_views(clipped@);
        let ghost text = all[at as int].text;
        assert(all[at as int] == runs@[at as int]@);
        if count < runs[at].text.clusters.len() {
            let head: Text = line_text(&runs[at].text, 0, count);
            assert(head@ =~= text.take(count as int));
            push_run(&mut clipped, head, runs[at].style);
            push_mark(&mut clipped, "…", runs[at].style);
            assert(run_views(clipped@) =~= goal);
            return clipped;
        }
        assert(text.take(count as int) =~= text);
        push_run(&mut clipped, runs[at].text.copy(), runs[at].style);
        budget -= taken;
        at += 1;
        assert(run_views(clipped@) + clipped_end(all, at as int, budget as int) =~= before + (
        seq![all[at - 1]] + clipped_end(all, at as int, budget as int)));
    }
    assert(run_views(clipped@) =~= goal);
    clipped
}

/// The last of the first `count` runs, behind an ellipsis.
fn clip_head(runs: &Vec<Run>, count: usize, budget: u16) -> (clipped: Vec<Run>)
    requires
        count <= runs.len(),
    ensures
        run_views(clipped@) == clipped_start(run_views(runs@), count as int, budget as int),
    decreases count,
{
    if count == 0 {
        return no_runs();
    }
    let last: &Run = &runs[count - 1];
    assert(run_views(runs@)[count - 1] == last@);
    let (kept, taken) = count_fitting_back(&last.text, budget);
    let length: usize = last.text.clusters.len();
    if kept == length {
        assert(last.text@.skip(0) =~= last.text@);
        let mut clipped: Vec<Run> = clip_head(runs, count - 1, budget - taken);
        push_run(&mut clipped, last.text.copy(), last.style);
        return clipped;
    }
    let mut clipped: Vec<Run> = no_runs();
    push_mark(&mut clipped, "…", last.style);
    let tail: Text = line_text(&last.text, length - kept, length);
    assert(tail@ =~= last.text@.skip(length - kept));
    push_run(&mut clipped, tail, last.style);
    assert(run_views(clipped@) =~= clipped_start(run_views(runs@), count as int, budget as int));
    clipped
}

/// Clips a row to `width` cells, with an ellipsis at its start.
pub fn clip_start(runs: &Vec<Run>, width: u16) -> (clipped: Vec<Run>)
    ensures
        run_views(clipped@) == row_clipped_start(run_views(runs@), width),
{
    if !exceeds(runs, width) {
        return copy_runs(runs);
    }
    if width == 0 {
        return no_runs();
    }
    clip_head(runs, runs.len(), width - 1)
}

/// Cells of the first run and of the rest.
proof fn run_cells_from_front(first: RunView, rest: Seq<RunView>)
    ensures
        run_cells(seq![first] + rest) == cells(first.text) + run_cells(rest),
    decreases rest.len(),
{
    let all = seq![first] + rest;
    if rest.len() > 0 {
        run_cells_from_front(first, rest.drop_last());
        assert(all.drop_last() =~= seq![first] + rest.drop_last());
    } else {
        one_run(first);
        assert(all =~= seq![first]);
        assert(run_cells(rest) == 0);
    }
}

/// An ellipsis takes one cell.
proof fn ellipsis_cells(style: Style)
    ensures
        cells(mark("…"@, style).text) == 1,
{
    reveal_strlit("…");
    let dots = ascii_clusters("…"@);
    one_cluster(dots[0]);
    assert(dots =~= seq![dots[0]]);
}

/// The runs kept in front of an ellipsis leave it its cell.
proof fn end_fits(runs: Seq<RunView>, at: int, budget: int)
    requires
        0 <= budget,
        0 <= at,
    ensures
        run_cells(clipped_end(runs, at, budget)) <= budget + 1,
    decreases runs.len() - at,
{
    if at < runs.len() {
        let text = runs[at].text;
        let count = fitting(text, budget);
        fitting_fits(text, budget);
        if count == text.len() {
            assert(text.take(count) =~= text);
            end_fits(runs, at + 1, budget - cells(text));
            run_cells_from_front(
                runs[at],
                clipped_end(runs, at + 1, budget - cells(text)),
            );
        } else {
            let style = runs[at].style;
            let head = run(text.take(count), style);
            ellipsis_cells(style);
            run_cells_from_front(head, seq![mark("…"@, style)]);
            assert(seq![head] + seq![mark("…"@, style)] =~= clipped_end(runs, at, budget));
            one_run(mark("…"@, style));
        }
    }
}

/// The runs kept behind an ellipsis leave it its cell.
proof fn start_fits(runs: Seq<RunView>, count: int, budget: int)
    requires
        0 <= budget,
        0 <= count <= runs.len(),
    ensures
        run_cells(clipped_start(runs, count, budget)) <= budget + 1,
    decreases count,
{
    if count > 0 {
        let last = runs[count - 1];
        let kept = fitting_back(last.text, budget);
        fitting_back_fits(last.text, budget);
        if kept == last.text.len() {
            assert(last.text.skip(0) =~= last.text);
            start_fits(runs, count - 1, budget - cells(last.text));
            let rest = clipped_start(runs, count - 1, budget - cells(last.text));
            assert(rest.push(last).drop_last() =~= rest);
        } else {
            ellipsis_cells(last.style);
            let tail = run(last.text.skip(last.text.len() - kept), last.style);
            let dots = mark("…"@, last.style);
            run_cells_from_front(dots, seq![tail]);
            assert(seq![dots] + seq![tail] =~= clipped_start(runs, count, budget));
            one_run(tail);
        }
    }
}

/// A clipped row never takes more than its width, and a row that fits is kept
/// whole.
pub proof fn clipped_rows_fit(runs: Seq<RunView>, width: u16)
    ensures
        run_cells(row_clipped_end(runs, width)) <= width,
        run_cells(row_clipped_start(runs, width)) <= width,
        run_cells(runs) <= width ==> row_clipped_end(runs, width) == runs && row_clipped_start(
            runs,
            width,
        ) == runs,
{
    if run_cells(runs) > width && width > 0 {
        end_fits(runs, 0, width - 1);
        start_fits(runs, runs.len() as int, width - 1);
    }
}

/// Cells of the runs from `from` up to `to`.
pub open spec fn cells_of_runs(runs: Seq<RunView>, from: int, to: int) -> int
    decreases to - from,
{
    if from >= to {
        0
    } else {
        cells_of_runs(runs, from, to - 1) + cells(runs[to - 1].text)
    }
}

proof fn run_cells_start(runs: Seq<RunView>, from: int, to: int)
    requires
        from < to,
    ensures
        cells_of_runs(runs, from, to) == cells(runs[from].text) + cells_of_runs(runs, from + 1, to),
    decreases to - from,
{
    if from + 1 < to {
        run_cells_start(runs, from, to - 1);
    } else {
        assert(cells_of_runs(runs, from, from) == 0);
    }
}

proof fn clipped_at(runs: Seq<RunView>, at: int, budget: int) -> (cut: int)
    requires
        0 <= at <= runs.len(),
        0 <= budget,
        cells_of_runs(runs, at, runs.len() as int) > budget,
    ensures
        ({
            let clipped = clipped_end(runs, at, budget);
            &&& at <= cut < runs.len()
            &&& clipped.len() == cut - at + 2
            &&& forall|i: int| at <= i < cut ==> clipped[i - at] == #[trigger] runs[i]
            &&& ({
                let kept = clipped[cut - at].text;
                let count = kept.len() as int;
                let before = cells_of_runs(runs, at, cut);
                &&& count < runs[cut].text.len()
                &&& kept == runs[cut].text.take(count)
                &&& clipped[cut - at].style == runs[cut].style
                &&& before + cells(kept) <= budget
                &&& before + cells(kept) + runs[cut].text[count].width > budget
            })
            &&& clipped.last() == mark("…"@, runs[cut].style)
        }),
    decreases runs.len() - at,
{
    if at >= runs.len() {
        assert(cells_of_runs(runs, at, runs.len() as int) == 0);
        at
    } else {
        let text = runs[at].text;
        let count = fitting(text, budget);
        fitting_fits(text, budget);
        run_cells_start(runs, at, runs.len() as int);
        assert(cells_of_runs(runs, at, at) == 0);
        if count == text.len() {
            assert(text.take(count) =~= text);
            let cut = clipped_at(runs, at + 1, budget - cells(text));
            let rest = clipped_end(runs, at + 1, budget - cells(text));
            let clipped = clipped_end(runs, at, budget);
            assert(clipped == seq![runs[at]] + rest);
            assert forall|i: int| at <= i < cut implies clipped[i - at] == #[trigger] runs[i] by {
                if i > at {
                    assert(clipped[i - at] == rest[i - at - 1]);
                }
            }
            assert(clipped[cut - at] == rest[cut - at - 1]);
            run_cells_start(runs, at, cut);
            cut
        } else {
            at
        }
    }
}

proof fn whole_rows_count(runs: Seq<RunView>, count: int)
    requires
        0 <= count <= runs.len(),
    ensures
        cells_of_runs(runs, 0, count) == run_cells(runs.take(count)),
    decreases count,
{
    if count > 0 {
        whole_rows_count(runs, count - 1);
        assert(runs.take(count).drop_last() =~= runs.take(count - 1));
    }
}

/// A row that does not fit shows its first runs whole, the next one as far as it
/// fits beside the ellipsis, and then the ellipsis in that run's style; with one
/// cluster more it would not fit.
pub proof fn clipped_rows_show_as_much_as_fits(runs: Seq<RunView>, width: u16) -> (cut: int)
    requires
        run_cells(runs) > width,
        width > 0,
    ensures
        ({
            let clipped = row_clipped_end(runs, width);
            &&& 0 <= cut < runs.len()
            &&& clipped.len() == cut + 2
            &&& forall|i: int| 0 <= i < cut ==> clipped[i] == #[trigger] runs[i]
            &&& ({
                let kept = clipped[cut].text;
                let count = kept.len() as int;
                let before = cells_of_runs(runs, 0, cut);
                &&& count < runs[cut].text.len()
                &&& kept == runs[cut].text.take(count)
                &&& clipped[cut].style == runs[cut].style
                &&& before + cells(kept) + 1 <= width
                &&& before + cells(kept) + runs[cut].text[count].width + 1 > width
            })
            &&& clipped.last() == mark("…"@, runs[cut].style)
        }),
{
    whole_rows_count(runs, runs.len() as int);
    assert(runs.take(runs.len() as int) =~= runs);
    clipped_at(runs, 0, width - 1)
}

} // verus!
