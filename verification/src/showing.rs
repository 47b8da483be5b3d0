//! What holds of what a window shows: the tails of long rows, the rows of
//! dropdowns and trees, and the glyphs of animations.

use vstd::prelude::*;

use crate::anim::{change_after, glyph_at};
use crate::atoms::filter_keeps;
use crate::clipping::{cells_of_runs, clipped_start, row_clipped_start, run_cells};
use crate::completion::{PickerRowView, PickerView};
use crate::events::{EventView, FlowView, HitTag, Slot};
use crate::input::Mouse;
use crate::runs::{fitting_back, fitting_back_fits, mark, RunView};
use crate::text::{cells, ClusterView};
use crate::tree::{other_slot, TreeView};

verus! {

/// With one cluster more at its front a kept tail would not fit.
proof fn tails_are_longest(text: Seq<ClusterView>, budget: int)
    requires
        0 <= budget,
    ensures
        ({
            let kept = fitting_back(text, budget);
            &&& 0 <= kept <= text.len()
            &&& cells(text.skip(text.len() - kept)) <= budget
            &&& kept < text.len() ==> cells(text.skip(text.len() - kept)) + text[text.len() - kept
                - 1].width > budget
        }),
    decreases text.len(),
{
    fitting_back_fits(text, budget);
    if text.len() > 0 && text.last().width <= budget {
        let rest = text.drop_last();
        let less = budget - text.last().width;
        tails_are_longest(rest, less);
        let count = fitting_back(rest, less);
        assert(text.skip(text.len() - count - 1).drop_last() =~= rest.skip(rest.len() - count));
        assert(text.skip(text.len() - count - 1).last() == text.last());
        if count < rest.len() {
            assert(text[text.len() - count - 2] == rest[rest.len() - count - 1]);
        }
    } else if text.len() > 0 {
        assert(text.skip(text.len() as int) =~= Seq::empty());
    }
}

/// Cells of the first runs.
proof fn first_runs_count(runs: Seq<RunView>, count: int)
    requires
        0 <= count <= runs.len(),
    ensures
        cells_of_runs(runs, 0, count) == run_cells(runs.take(count)),
    decreases count,
{
    if count > 0 {
        first_runs_count(runs, count - 1);
        assert(runs.take(count).drop_last() =~= runs.take(count - 1));
    }
}

/// Where a row is cut at its start.
proof fn cut_at_the_start(runs: Seq<RunView>, count: int, budget: int) -> (cut: int)
    requires
        0 <= count <= runs.len(),
        0 <= budget,
        cells_of_runs(runs, 0, count) > budget,
    ensures
        ({
            let clipped = clipped_start(runs, count, budget);
            &&& 0 <= cut < count
            &&& clipped.len() == count - cut + 1
            &&& clipped[0] == mark("…"@, runs[cut].style)
            &&& forall|i: int| cut < i < count ==> clipped[i - cut + 1] == #[trigger] runs[i]
            &&& ({
                let kept = clipped[1].text;
                let gone = runs[cut].text.len() - kept.len();
                let behind = cells_of_runs(runs, cut + 1, count);
                &&& gone > 0
                &&& kept == runs[cut].text.skip(gone)
                &&& clipped[1].style == runs[cut].style
                &&& behind + cells(kept) <= budget
                &&& behind + cells(kept) + runs[cut].text[gone - 1].width > budget
            })
        }),
    decreases count,
{
    if count <= 0 {
        0
    } else {
        let last = runs[count - 1];
        let kept = fitting_back(last.text, budget);
        tails_are_longest(last.text, budget);
        assert(cells_of_runs(runs, count, count) == 0);
        if kept == last.text.len() {
            assert(last.text.skip(0) =~= last.text);
            let less = budget - cells(last.text);
            let cut = cut_at_the_start(runs, count - 1, less);
            let front = clipped_start(runs, count - 1, less);
            let clipped = clipped_start(runs, count, budget);
            assert(clipped == front.push(last));
            assert forall|i: int| cut < i < count implies clipped[i - cut + 1] == #[trigger] runs[i] by {
                if i < count - 1 {
                    assert(clipped[i - cut + 1] == front[i - cut + 1]);
                }
            }
            assert(clipped[0] == front[0] && clipped[1] == front[1]);
            cut
        } else {
            count - 1
        }
    }
}

/// A row cut at its start shows an ellipsis, as much of the end of a run as
/// fits beside it, and all runs behind that one; with one cluster more it would
/// not fit.
pub proof fn cut_rows_show_as_much_of_their_end_as_fits(runs: Seq<RunView>, width: u16) -> (cut:
    int)
    requires
        run_cells(runs) > width,
        width > 0,
    ensures
        ({
            let clipped = row_clipped_start(runs, width);
            &&& 0 <= cut < runs.len()
            &&& clipped.len() == runs.len() - cut + 1
            &&& clipped[0] == mark("…"@, runs[cut].style)
            &&& forall|i: int| cut < i < runs.len() ==> clipped[i - cut + 1] == #[trigger] runs[i]
            &&& ({
                let kept = clipped[1].text;
                let gone = runs[cut].text.len() - kept.len();
                let behind = cells_of_runs(runs, cut + 1, runs.len() as int);
                &&& gone > 0
                &&& kept == runs[cut].text.skip(gone)
                &&& clipped[1].style == runs[cut].style
                &&& behind + cells(kept) + 1 <= width
                &&& behind + cells(kept) + runs[cut].text[gone - 1].width + 1 > width
            })
        }),
{
    first_runs_count(runs, runs.len() as int);
    assert(runs.take(runs.len() as int) =~= runs);
    cut_at_the_start(runs, runs.len() as int, width - 1)
}

/// Whether a header stands before a dropdown's row: its category differs from
/// that of the row before, and not all rows share one.
pub open spec fn headed(picker: PickerView, index: int, before: Option<Seq<char>>) -> bool {
    &&& picker.suggestions[index].category is Some
    &&& picker.suggestions[index].category != before
    &&& exists|i: int, j: int|
        #![trigger picker.suggestions[i], picker.suggestions[j]]
        0 <= i < picker.suggestions.len() && 0 <= j < picker.suggestions.len()
            && picker.suggestions[i].category != picker.suggestions[j].category
}

/// Rows share one category where none differs from another.
proof fn uniform_rows_need_no_header(picker: PickerView, index: int, before: Option<Seq<char>>)
    requires
        picker.suggestions.len() > 0,
    ensures
        headed(picker, index, before) <==> !picker.uniform() && picker.suggestions[index].category
            != before && picker.suggestions[index].category is Some,
{
    if !picker.uniform() {
        let i = choose|i: int|
            0 <= i < picker.suggestions.len() && (#[trigger] picker.suggestions[i]).category
                != picker.suggestions[0].category;
        let first = picker.suggestions[0];
        let other = picker.suggestions[i];
    }
}

/// Whether a header stands before a row, where `mixed` tells that not all rows
/// share one category.
spec fn heads(mixed: bool, category: Option<Seq<char>>, before: Option<Seq<char>>) -> bool {
    mixed && category != before && category is Some
}

/// Whether rows stand as a window from `at` on shows them, behind a row of the
/// category `before`.
spec fn rows_placed(
    picker: PickerView,
    at: int,
    before: Option<Seq<char>>,
    mixed: bool,
    rows: Seq<PickerRowView>,
    places: Seq<int>,
) -> bool {
    let first = picker.window_start() + at;
    &&& places.len() == picker.visible() - at
    &&& forall|k: int|
        #![trigger places[k]]
        0 <= k < places.len() ==> 0 <= places[k] < rows.len() && rows[places[k]]
            == PickerRowView::Suggestion(first + k)
    &&& places.len() > 0 ==> rows.len() == places[places.len() - 1] + 1
    &&& places.len() == 0 ==> rows.len() == 0
    &&& places.len() > 0 ==> {
        let own = picker.suggestions[first].category;
        &&& heads(mixed, own, before) ==> places[0] == 1 && rows[0] == PickerRowView::Header(own->0)
        &&& !heads(mixed, own, before) ==> places[0] == 0
    }
    &&& forall|k: int, next: int|
        #![trigger places[k], places[next]]
        0 <= k && next == k + 1 && next < places.len() ==> {
            let own = picker.suggestions[first + next].category;
            let above = picker.suggestions[first + k].category;
            &&& heads(mixed, own, above) ==> places[next] == places[k] + 2 && rows[places[k] + 1]
                == PickerRowView::Header(own->0)
            &&& !heads(mixed, own, above) ==> places[next] == places[k] + 1
        }
}

/// One row more stands in front.
proof fn rows_placed_grow(
    picker: PickerView,
    at: int,
    before: Option<Seq<char>>,
    mixed: bool,
    rest: Seq<PickerRowView>,
    later: Seq<int>,
) -> (places: Seq<int>)
    requires
        0 <= at < picker.visible(),
        rows_placed(
            picker,
            at + 1,
            picker.suggestions[picker.window_start() + at].category,
            mixed,
            rest,
            later,
        ),
    ensures
        ({
            let first = picker.window_start() + at;
            let own = picker.suggestions[first].category;
            let row = seq![PickerRowView::Suggestion(first)];
            &&& heads(mixed, own, before) ==> rows_placed(
                picker,
                at,
                before,
                mixed,
                seq![PickerRowView::Header(own->0)] + row + rest,
                places,
            )
            &&& !heads(mixed, own, before) ==> rows_placed(
                picker,
                at,
                before,
                mixed,
                row + rest,
                places,
            )
        }),
{
    let first = picker.window_start() + at;
    let own = picker.suggestions[first].category;
    let row = seq![PickerRowView::Suggestion(first)];
    let headed = heads(mixed, own, before);
    let lead: int = if headed {
        1
    } else {
        0
    };
    let rows = if headed {
        seq![PickerRowView::Header(own->0)] + row + rest
    } else {
        row + rest
    };
    let places = seq![lead] + later.map_values(|place: int| place + lead + 1);
    assert(rows.len() == lead + 1 + rest.len());
    assert(rows[lead] == PickerRowView::Suggestion(first));
    assert forall|i: int| 0 <= i < rest.len() implies rows[lead + 1 + i] == #[trigger] rest[i] by {}
    assert forall|k: int| 1 <= k < places.len() implies #[trigger] places[k] == later[k - 1] + lead
        + 1 by {}
    assert forall|k: int| #![trigger places[k]] 0 <= k < places.len() implies 0 <= places[k]
        < rows.len() && rows[places[k]] == PickerRowView::Suggestion(first + k) by {
        if k > 0 {
            assert(rows[places[k]] == rest[later[k - 1]]);
        }
    }
    assert forall|k: int, next: int|
        #![trigger places[k], places[next]]
        0 <= k && next == k + 1 && next < places.len() implies {
        let own = picker.suggestions[first + next].category;
        let above = picker.suggestions[first + k].category;
        &&& heads(mixed, own, above) ==> places[next] == places[k] + 2 && rows[places[k] + 1]
            == PickerRowView::Header(own->0)
        &&& !heads(mixed, own, above) ==> places[next] == places[k] + 1
    } by {
        let own = picker.suggestions[first + next].category;
        let above = picker.suggestions[first + k].category;
        assert(places[next] == later[k] + lead + 1);
        if k > 0 {
            assert(places[k] == later[k - 1] + lead + 1);
            assert((picker.window_start() + (at + 1)) + k == first + next);
            assert((picker.window_start() + (at + 1)) + (k - 1) == first + k);
            if heads(mixed, own, above) {
                assert(later[k] == later[k - 1] + 2);
                assert(rows[lead + 1 + (later[k - 1] + 1)] == rest[later[k - 1] + 1]);
            }
        } else if heads(mixed, own, above) {
            assert(rows[lead + 1 + 0] == rest[0]);
        }
    }
    if later.len() > 0 {
        assert(places[places.len() - 1] == later[later.len() - 1] + lead + 1);
    }
    places
}

/// Where the rows of a dropdown stand.
proof fn rows_stand(picker: PickerView, at: int, before: Option<Seq<char>>, mixed: bool) -> (places:
    Seq<int>)
    requires
        picker.wf(),
        0 <= at <= picker.visible(),
        mixed == !picker.uniform(),
    ensures
        rows_placed(picker, at, before, mixed, picker.rows_from(at, before), places),
    decreases picker.visible() - at,
{
    if at >= picker.visible() {
        Seq::empty()
    } else {
        let first = picker.window_start() + at;
        let own = picker.suggestions[first].category;
        let follows = if mixed {
            own
        } else {
            before
        };
        let later = rows_stand(picker, at + 1, follows, mixed);
        let rest = picker.rows_from(at + 1, follows);
        let places = rows_placed_grow(picker, at, before, mixed, rest, later);
        let row = seq![PickerRowView::Suggestion(first)];
        if heads(mixed, own, before) {
            assert(picker.rows_from(at, before) == seq![PickerRowView::Header(own->0)] + row + rest);
        } else {
            assert(picker.rows_from(at, before) == row + rest);
        }
        places
    }
}

/// The rows of a dropdown's window are its suggestions in order, one after the
/// other; only where the category changes a header with its name stands
/// between, and none where all share one.
pub proof fn headers_stand_where_categories_change(picker: PickerView) -> (places: Seq<int>)
    requires
        picker.wf(),
    ensures
        ({
            let rows = picker.rows_from(0, None);
            let first = picker.window_start();
            &&& places.len() == picker.visible()
            &&& forall|k: int|
                #![trigger places[k]]
                0 <= k < places.len() ==> 0 <= places[k] < rows.len() && rows[places[k]]
                    == PickerRowView::Suggestion(first + k)
            &&& rows.len() == places[places.len() - 1] + 1
            &&& if headed(picker, first, None) {
                places[0] == 1 && rows[0] == PickerRowView::Header(
                    picker.suggestions[first].category->0,
                )
            } else {
                places[0] == 0
            }
            &&& forall|k: int, next: int|
                #![trigger places[k], places[next]]
                0 <= k && next == k + 1 && next < places.len() ==> if headed(
                    picker,
                    first + next,
                    picker.suggestions[first + k].category,
                ) {
                    places[next] == places[k] + 2 && rows[places[k] + 1] == PickerRowView::Header(
                        picker.suggestions[first + next].category->0,
                    )
                } else {
                    places[next] == places[k] + 1
                }
        }),
{
    let mixed = !picker.uniform();
    let places = rows_stand(picker, 0, None, mixed);
    let rows = picker.rows_from(0, None);
    let first = picker.window_start();
    uniform_rows_need_no_header(picker, first, None);
    assert forall|k: int, next: int|
        #![trigger places[k], places[next]]
        0 <= k && next == k + 1 && next < places.len() implies if headed(
        picker,
        first + next,
        picker.suggestions[first + k].category,
    ) {
        places[next] == places[k] + 2 && rows[places[k] + 1] == PickerRowView::Header(
            picker.suggestions[first + next].category->0,
        )
    } else {
        places[next] == places[k] + 1
    } by {
        uniform_rows_need_no_header(
            picker,
            first + next,
            picker.suggestions[first + k].category,
        );
    }
    places
}

/// The window of a dropdown holds as many rows as it may, all of them where
/// they fit, and half of it lies before the selected row unless an end of the
/// list is nearer.
pub proof fn dropdown_windows_center_the_selected_row(picker: PickerView)
    requires
        picker.wf(),
    ensures
        ({
            let start = picker.window_start();
            let end = start + picker.visible();
            let count = picker.suggestions.len() as int;
            &&& 0 <= start && end <= count
            &&& count <= picker.rows ==> start == 0 && end == count
            &&& count > picker.rows ==> end - start == picker.rows
            &&& start > 0 && end < count ==> picker.selected - start == picker.rows / 2
            &&& start == 0 && end < count ==> picker.selected <= picker.rows / 2
            &&& start > 0 && end == count ==> picker.selected - start >= picker.rows / 2
        }),
{
}

/// A frame shows until the next change and no longer: then the next glyph of
/// the cycle takes its place, and the first follows the last.
pub proof fn frames_follow_one_another(
    glyphs: Seq<Seq<char>>,
    step: u64,
    now: u64,
    later: u64,
    index: int,
)
    requires
        step > 0,
        0 <= index < glyphs.len(),
        (now / step) as int % glyphs.len() as int == index,
    ensures
        now < change_after(step, now) <= now + step,
        now <= later < change_after(step, now) ==> glyph_at(glyphs, step, later) == glyphs[index],
        later == change_after(step, now) ==> glyph_at(glyphs, step, later) == glyphs[if index + 1
            < glyphs.len() {
            index + 1
        } else {
            0
        }],
{
    let turn = (now / step) as int;
    let length = glyphs.len() as int;
    assert(turn * step <= now < (turn + 1) * step && (turn + 1) * step <= now + step)
        by (nonlinear_arith)
        requires
            turn == now as int / step as int,
            step > 0,
    ;
    if now <= later < change_after(step, now) {
        assert(later as int / step as int == turn) by (nonlinear_arith)
            requires
                turn * step <= later < (turn + 1) * step,
                step > 0,
        ;
    }
    if later == change_after(step, now) {
        assert(later as int / step as int == turn + 1) by (nonlinear_arith)
            requires
                later == (turn + 1) * step,
                step > 0,
        ;
        vstd::arithmetic::div_mod::lemma_add_mod_noop(turn, 1, length);
        if length > 1 {
            vstd::arithmetic::div_mod::lemma_small_mod(1, length as nat);
            if index + 1 < length {
                vstd::arithmetic::div_mod::lemma_small_mod((index + 1) as nat, length as nat);
            } else {
                vstd::arithmetic::div_mod::lemma_mod_self_0(length);
            }
        }
    }
}

/// A switched branch is open where it was shut and shut where it was open; all
/// others stay as they are.
pub proof fn switching_changes_one_branch(tree: TreeView, slot: Slot, other: Slot)
    ensures
        tree.toggled(slot).open.contains(slot) == !tree.open.contains(slot),
        other != slot ==> tree.toggled(slot).open.contains(other) == tree.open.contains(other),
        tree.toggled(slot).nodes == tree.nodes,
{
    let keep = other_slot(slot);
    if tree.open.contains(slot) {
        let left = tree.open.filter(keep);
        filter_keeps(tree.open, keep, |s: Slot| tree.open.contains(s));
        if left.contains(slot) {
            let i = choose|i: int| 0 <= i < left.len() && left[i] == slot;
            assert(keep(left[i]));
        }
        if other != slot && tree.open.contains(other) {
            let i = choose|i: int| 0 <= i < tree.open.len() && tree.open[i] == other;
            tree.open.lemma_filter_contains(keep, i);
        }
        if left.contains(other) {
            let i = choose|i: int| 0 <= i < left.len() && left[i] == other;
            assert((|s: Slot| tree.open.contains(s))(left[i]));
        }
    } else {
        let grown = tree.open.push(slot);
        assert(grown[tree.open.len() as int] == slot);
        if tree.open.contains(other) {
            let i = choose|i: int| 0 <= i < tree.open.len() && tree.open[i] == other;
            assert(grown[i] == other);
        }
        if grown.contains(other) && other != slot {
            let i = choose|i: int| 0 <= i < grown.len() && grown[i] == other;
            assert(tree.open[i] == other);
        }
    }
}

/// A click on a leaf goes to it and activates it; a click on a branch goes to it
/// and switches it.
pub proof fn clicks_go_to_their_row(tree: TreeView, index: u32, height: u16)
    requires
        tree.wf(),
        !tree.dirty,
        index < tree.rows.len(),
        tree.rows.len() <= usize::MAX,
    ensures
        ({
            let row = tree.rows[index as int];
            let step = tree.pointed(Mouse::Click, HitTag::TreeRow(index), height);
            &&& !row.has_children ==> step.tree.cursor == index && step.tree.open == tree.open
                && step.tree.selected == Some(row.key) && step.flow == FlowView::Event(
                EventView::TreeActivated { id: tree.name(), key: row.key },
            )
            &&& row.has_children ==> step.tree.open.contains(row.face.slot) == !tree.open.contains(
                row.face.slot,
            ) && step.flow == FlowView::Event(
                EventView::TreeToggled {
                    id: tree.name(),
                    key: row.key,
                    expanded: Some(!tree.open.contains(row.face.slot)),
                },
            )
        }),
{
    let row = tree.rows[index as int];
    switching_changes_one_branch(
        (TreeView { cursor: index as usize, ..tree }).synced(),
        row.face.slot,
        row.face.slot,
    );
}

/// Moving the cursor moves a tree's window no further than its row needs: not
/// at all while it shows, and else until it is the first or the last row.
pub proof fn tree_windows_move_as_little_as_needed(tree: TreeView, row: int, view_rows: u16)
    requires
        0 <= row < tree.rows.len(),
        1 < view_rows <= tree.rows.len(),
        tree.rows.len() < usize::MAX,
        tree.scroll_top + view_rows <= tree.rows.len(),
    ensures
        ({
            let moved = tree.moved_to(row, view_rows);
            &&& moved.cursor == row
            &&& moved.selected == Some(tree.rows[row].key)
            &&& tree.scroll_top <= row < tree.scroll_top + view_rows ==> moved.scroll_top
                == tree.scroll_top
            &&& row < tree.scroll_top ==> moved.scroll_top == row
            &&& row >= tree.scroll_top + view_rows ==> moved.scroll_top + view_rows == row + 1
        }),
{
}

/// The wheel moves a tree's window by three rows, up to its ends, and leaves the
/// cursor alone.
pub proof fn wheels_move_by_three_rows(tree: TreeView, height: u16)
    requires
        tree.wf(),
        !tree.dirty,
        1 < height <= tree.rows.len(),
        tree.rows.len() < usize::MAX - 3,
        tree.scroll_top + height <= tree.rows.len(),
    ensures
        ({
            let tag = HitTag::Press;
            let up = tree.pointed(Mouse::WheelUp, tag, height).tree;
            let down = tree.pointed(Mouse::WheelDown, tag, height).tree;
            &&& up.cursor == tree.cursor && down.cursor == tree.cursor
            &&& tree.scroll_top >= 3 ==> up.scroll_top == tree.scroll_top - 3
            &&& tree.scroll_top < 3 ==> up.scroll_top == 0
            &&& tree.scroll_top + 3 + height <= tree.rows.len() ==> down.scroll_top
                == tree.scroll_top + 3
            &&& tree.scroll_top + 3 + height > tree.rows.len() ==> down.scroll_top + height
                == tree.rows.len()
        }),
{
}

} // verus!
