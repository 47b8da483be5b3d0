//! How bars, cells and scrolled content are placed, said in columns and rows.

use vstd::prelude::*;

use crate::charset::Charset;
use crate::events::Hit;
use crate::geometry::{sat_add, sat_sub, Rect};
use crate::input::Key;
use crate::lines::breaks_line;
use crate::markup::Align;
use crate::runs::{mark, run, RunView};
use crate::scroll::{chased, key_delta, moved_area, moved_hits, scrolled, thumb_height, thumb_top};
use crate::status::{band, cell_count, glyph_width, labels_width, sat_mul, StatusView};
use crate::table::{
    align_offset, areas, bands_of, joined_from, next_break, share, shares_from, slack_from, tallest,
    CellView, ChildView,
};
use crate::style::Style;
use crate::tabs::{cycled, TabsView};
use crate::text::{cells, content, ClusterView};

verus! {

/// Sum of the first `count` widths or heights.
pub open spec fn sum(sizes: Seq<u16>, count: int) -> int
    decreases count,
{
    if count <= 0 {
        0
    } else {
        sum(sizes, count - 1) + sizes[count - 1]
    }
}

/// A size in front of others counts first.
proof fn sum_of_more(first: u16, rest: Seq<u16>, count: int)
    requires
        0 <= count <= rest.len(),
    ensures
        sum(seq![first] + rest, count + 1) == first + sum(rest, count),
    decreases count,
{
    if count > 0 {
        sum_of_more(first, rest, count - 1);
        assert((seq![first] + rest)[count] == rest[count - 1]);
    } else {
        assert(sum(seq![first] + rest, 0) == 0);
        assert((seq![first] + rest)[0] == first);
    }
}

/// Sums do not shrink.
proof fn sum_grows(sizes: Seq<u16>, few: int, many: int)
    requires
        0 <= few <= many <= sizes.len(),
    ensures
        0 <= sum(sizes, few) <= sum(sizes, many),
    decreases many,
{
    if few < many {
        sum_grows(sizes, few, many - 1);
    } else if few > 0 {
        sum_grows(sizes, few - 1, few - 1);
    }
}

/// Of the room in a cell every visible child in turn takes the width it asks
/// for, one cell at least, as long as there is room; the last to get any takes
/// what is left. A child goes without only where the room is used up.
pub proof fn children_take_what_they_ask_for(
    children: Seq<ChildView>,
    at: int,
    room: u16,
) -> (sources: Seq<int>)
    requires
        0 <= at <= children.len(),
    ensures
        sources.len() == shares_from(children, at, room).len(),
        forall|i: int, j: int|
            #![trigger sources[i], sources[j]]
            0 <= i < j < sources.len() ==> sources[i] < sources[j],
        forall|i: int|
            #![trigger sources[i]]
            0 <= i < sources.len() ==> at <= sources[i] < children.len()
                && children[sources[i]].visible && {
                let asked = children[sources[i]].natural;
                let left = room - sum(shares_from(children, at, room), i);
                &&& left > 0
                &&& shares_from(children, at, room)[i] == if asked == 0 {
                    1
                } else if asked <= left {
                    asked as int
                } else {
                    left
                }
            },
        forall|k: int|
            #![trigger children[k]]
            at <= k < children.len() && children[k].visible ==> (exists|i: int|
                0 <= i < sources.len() && #[trigger] sources[i] == k) || sum(
                shares_from(children, at, room),
                shares_from(children, at, room).len() as int,
            ) == room && (forall|i: int|
                #![trigger sources[i]]
                0 <= i < sources.len() ==> sources[i] < k),
        slack_from(children, at, room) == room - sum(
            shares_from(children, at, room),
            shares_from(children, at, room).len() as int,
        ),
    decreases children.len() - at,
{
    let widths = shares_from(children, at, room);
    if at >= children.len() {
        Seq::empty()
    } else if !children[at].visible {
        children_take_what_they_ask_for(children, at + 1, room)
    } else if room == 0 {
        Seq::empty()
    } else {
        let first = share(children[at].natural, room);
        let left = sat_sub(room, first);
        let rest = shares_from(children, at + 1, left);
        let later = children_take_what_they_ask_for(children, at + 1, left);
        let sources = seq![at] + later;
        assert(widths == seq![first] + rest);
        sum_of_more(first, rest, rest.len() as int);
        assert forall|i: int| #![trigger sources[i]] 0 <= i < sources.len() implies at <= sources[i]
            < children.len() && children[sources[i]].visible && {
            let asked = children[sources[i]].natural;
            let left = room - sum(widths, i);
            &&& left > 0
            &&& widths[i] == if asked == 0 {
                1
            } else if asked <= left {
                asked as int
            } else {
                left
            }
        } by {
            if i > 0 {
                assert(sources[i] == later[i - 1]);
                assert(widths[i] == rest[i - 1]);
                sum_of_more(first, rest, i - 1);
            }
        }
        assert forall|k: int|
            #![trigger children[k]]
            at <= k < children.len() && children[k].visible implies (exists|i: int|
            0 <= i < sources.len() && #[trigger] sources[i] == k) || sum(
            widths,
            widths.len() as int,
        ) == room && (forall|i: int|
            #![trigger sources[i]]
            0 <= i < sources.len() ==> sources[i] < k) by {
            if k == at {
                assert(sources[0] == k);
            } else if exists|i: int| 0 <= i < later.len() && #[trigger] later[i] == k {
                let i = choose|i: int| 0 <= i < later.len() && #[trigger] later[i] == k;
                assert(sources[i + 1] == k);
            } else {
                assert forall|i: int| #![trigger sources[i]] 0 <= i < sources.len() implies sources[i]
                    < k by {
                    if i > 0 {
                        assert(sources[i] == later[i - 1]);
                    }
                }
            }
        }
        assert forall|i: int, j: int|
            #![trigger sources[i], sources[j]]
            0 <= i < j < sources.len() implies sources[i] < sources[j] by {
            assert(sources[j] == later[j - 1]);
            if i > 0 {
                assert(sources[i] == later[i - 1]);
            }
        }
        sources
    }
}

/// Areas follow one another from the first column on.
proof fn areas_follow(
    widths: Seq<u16>,
    heights: Seq<u16>,
    x: u16,
    content: Rect,
    count: int,
)
    requires
        0 <= count <= widths.len(),
        x + sum(widths, count) <= 65535,
    ensures
        areas(widths, heights, x, content, count).0.len() == count,
        areas(widths, heights, x, content, count).1 == x + sum(widths, count),
        forall|i: int|
            #![trigger areas(widths, heights, x, content, count).0[i]]
            0 <= i < count ==> {
                let area = areas(widths, heights, x, content, count).0[i];
                &&& area.x == x + sum(widths, i)
                &&& area.y == content.y
                &&& area.width == widths[i]
                &&& area.height <= heights[i]
                &&& heights[i] <= content.height ==> area.height == heights[i]
                &&& heights[i] > content.height > 0 ==> area.height == content.height
            },
    decreases count,
{
    if count > 0 {
        sum_grows(widths, count - 1, count);
        areas_follow(widths, heights, x, content, count - 1);
        let earlier = areas(widths, heights, x, content, count - 1).0;
        let all = areas(widths, heights, x, content, count).0;
        assert forall|i: int|
            #![trigger areas(widths, heights, x, content, count).0[i]]
            0 <= i < count - 1 implies all[i] == earlier[i] by {}
    }
}

/// The children of a cell stand side by side in its first row, each as wide as
/// its share and no taller than the cell: from the left edge, up to the right
/// edge, or with the same room on both sides but for an odd cell on the right.
pub proof fn children_stand_side_by_side(cell: CellView, content: Rect, heights: Seq<u16>) -> (lead:
    int)
    requires
        content.x + content.width <= 65535,
    ensures
        ({
            let widths = shares_from(cell.children, 0, content.width);
            let slack = content.width - sum(widths, widths.len() as int);
            let placed = cell.placed(content, heights);
            &&& slack >= 0
            &&& match cell.align {
                Align::Start => lead == 0,
                Align::Center => 2 * lead <= slack < 2 * lead + 2,
                Align::End => lead == slack,
            }
            &&& placed.len() == widths.len()
            &&& forall|i: int|
                #![trigger placed[i]]
                0 <= i < placed.len() ==> {
                    &&& placed[i].x == content.x + lead + sum(widths, i)
                    &&& placed[i].y == content.y
                    &&& placed[i].width == widths[i]
                    &&& placed[i].height <= heights[i]
                    &&& heights[i] <= content.height ==> placed[i].height == heights[i]
                    &&& heights[i] > content.height > 0 ==> placed[i].height == content.height
                }
        }),
{
    let widths = shares_from(cell.children, 0, content.width);
    let sources = children_take_what_they_ask_for(cell.children, 0, content.width);
    let slack = slack_from(cell.children, 0, content.width);
    let lead = align_offset(cell.align, slack);
    sum_grows(widths, 0, widths.len() as int);
    assert(lead <= slack <= content.width);
    areas_follow(
        widths,
        heights,
        sat_add(content.x, lead),
        content,
        widths.len() as int,
    );
    assert(cell.placed(content, heights) == areas(
        widths,
        heights,
        sat_add(content.x, lead),
        content,
        widths.len() as int,
    ).0);
    assert(sat_add(content.x, lead) == content.x + lead);
    lead as int
}

/// Rows are stacked without gaps, each as tall as its height.
pub proof fn rows_are_stacked(heights: Seq<u16>, y: u16, count: int)
    requires
        0 <= count <= heights.len(),
        y + sum(heights, count) <= 65535,
    ensures
        bands_of(heights, y, count).0.len() == count,
        bands_of(heights, y, count).1 == y + sum(heights, count),
        forall|i: int|
            #![trigger bands_of(heights, y, count).0[i]]
            0 <= i < count ==> bands_of(heights, y, count).0[i].0 == y + sum(heights, i)
                && bands_of(heights, y, count).0[i].1 == heights[i],
    decreases count,
{
    if count > 0 {
        sum_grows(heights, count - 1, count);
        rows_are_stacked(heights, y, count - 1);
        let earlier = bands_of(heights, y, count - 1).0;
        let all = bands_of(heights, y, count).0;
        assert forall|i: int|
            #![trigger bands_of(heights, y, count).0[i]]
            0 <= i < count - 1 implies all[i] == earlier[i] by {}
    }
}

/// A row is as tall as its tallest cell, and takes a line where it has none.
pub proof fn rows_hold_their_tallest_cell(heights: Seq<u16>, from: int, to: int)
    ensures
        tallest(heights, from, to) >= 1,
        forall|i: int|
            #![trigger heights[i]]
            from <= i < to ==> heights[i] <= tallest(heights, from, to),
        tallest(heights, from, to) == 1 || exists|i: int|
            from <= i < to && #[trigger] heights[i] == tallest(heights, from, to),
    decreases to - from,
{
    if to > from {
        rows_hold_their_tallest_cell(heights, from, to - 1);
        let last = heights[to - 1];
        if tallest(heights, from, to - 1) > last && tallest(heights, from, to - 1) != 1 {
            let i = choose|i: int|
                from <= i < to - 1 && #[trigger] heights[i] == tallest(heights, from, to - 1);
            assert(heights[i] == tallest(heights, from, to));
        }
    }
}

/// The clusters of runs, one after the other.
pub open spec fn clusters_of(runs: Seq<RunView>) -> Seq<ClusterView>
    decreases runs.len(),
{
    if runs.len() == 0 {
        Seq::empty()
    } else {
        clusters_of(runs.drop_last()) + runs.last().text
    }
}

/// Clusters of runs behind others.
proof fn clusters_of_more(front: Seq<RunView>, back: Seq<RunView>)
    ensures
        clusters_of(front + back) == clusters_of(front) + clusters_of(back),
    decreases back.len(),
{
    if back.len() == 0 {
        assert(front + back =~= front);
        assert(clusters_of(front) + clusters_of(back) =~= clusters_of(front));
    } else {
        clusters_of_more(front, back.drop_last());
        assert((front + back).drop_last() =~= front + back.drop_last());
        assert(clusters_of(front + back) =~= clusters_of(front) + clusters_of(back));
    }
}

/// The next break is the first.
proof fn breaks_are_found(text: Seq<ClusterView>, at: int)
    requires
        0 <= at <= text.len(),
    ensures
        at <= next_break(text, at) <= text.len(),
        forall|i: int| at <= i < next_break(text, at) ==> !breaks_line(#[trigger] text[i]),
        next_break(text, at) < text.len() ==> breaks_line(text[next_break(text, at)]),
    decreases text.len() - at,
{
    if at < text.len() && !breaks_line(text[at]) {
        breaks_are_found(text, at + 1);
    }
}

/// A text on one line is the text with a space for every line break, and
/// nothing else changed.
pub proof fn breaks_become_spaces(text: Seq<ClusterView>, at: int, style: Style)
    requires
        0 <= at <= text.len(),
    ensures
        clusters_of(joined_from(text, at, style)).len() == text.len() - at,
        forall|i: int|
            #![trigger clusters_of(joined_from(text, at, style))[i]]
            0 <= i < text.len() - at ==> clusters_of(joined_from(text, at, style))[i]
                == if breaks_line(text[at + i]) {
                ClusterView { text: seq![' '], width: 1 }
            } else {
                text[at + i]
            },
        forall|i: int|
            #![trigger joined_from(text, at, style)[i]]
            0 <= i < joined_from(text, at, style).len() ==> joined_from(text, at, style)[i].style
                == style,
    decreases text.len() - at,
{
    reveal_strlit(" ");
    reveal_with_fuel(clusters_of, 3);
    breaks_are_found(text, at);
    let end = next_break(text, at);
    let all = joined_from(text, at, style);
    if end >= text.len() {
        let only = seq![run(text.skip(at), style)];
        assert(all == only);
        assert(only.drop_last() =~= Seq::empty());
        assert(clusters_of(only) =~= text.skip(at));
    } else {
        let front = seq![run(text.subrange(at, end), style), mark(" "@, style)];
        let back = joined_from(text, end + 1, style);
        assert(all == front + back);
        breaks_become_spaces(text, end + 1, style);
        clusters_of_more(front, back);
        assert(front.drop_last() =~= seq![run(text.subrange(at, end), style)]);
        assert(front.drop_last().drop_last() =~= Seq::empty());
        let space = ClusterView { text: seq![' '], width: 1 };
        assert(mark(" "@, style).text =~= seq![space]);
        assert(clusters_of(front) =~= text.subrange(at, end).push(space));
        let joined = clusters_of(all);
        assert forall|i: int| #![trigger joined[i]] 0 <= i < text.len() - at implies joined[i]
            == if breaks_line(text[at + i]) {
            space
        } else {
            text[at + i]
        } by {
            if i < end - at {
                assert(joined[i] == text[at + i]);
            } else if i > end - at {
                assert(joined[i] == clusters_of(back)[i - (end - at) - 1]);
                assert(end + 1 + (i - (end - at) - 1) == at + i);
            }
        }
        assert forall|i: int| #![trigger all[i]] 0 <= i < all.len() implies all[i].style
            == style by {
            if i >= 2 {
                assert(all[i] == back[i - 2]);
            }
        }
    }
}

/// The pane that shows.
pub open spec fn current(tabs: TabsView) -> int {
    if tabs.idx < tabs.titles.len() {
        tabs.idx as int
    } else {
        tabs.titles.len() - 1
    }
}

/// Cells of a chip with its label: the icon with a cell behind it, where there
/// is one, the title, and a cap on either side.
pub open spec fn labelled(tabs: TabsView, index: int) -> int {
    (if content(tabs.icons[index]).len() > 0 {
        cells(tabs.icons[index]) + 1int
    } else {
        0
    }) + cells(tabs.titles[index]) + 2
}

/// Cells of a chip, with or without its label.
pub open spec fn chip_cells(tabs: TabsView, index: int, full: bool) -> int {
    if full || content(tabs.icons[index]).len() == 0 {
        labelled(tabs, index)
    } else {
        cells(tabs.icons[index]) + 2int
    }
}

/// Cells of one row with the first `count` chips two cells apart, behind two
/// cells, where the first `keep` and the current one have their labels.
pub open spec fn bar_cells(tabs: TabsView, keep: int, count: int) -> int
    decreases count,
{
    if count <= 0 {
        2
    } else {
        bar_cells(tabs, keep, count - 1) + chip_cells(
            tabs,
            count - 1,
            count - 1 < keep || count - 1 == current(tabs),
        ) + (if count > 1 {
            2int
        } else {
            0
        })
    }
}

/// Widths are cells, held at the largest coordinate.
proof fn chips_are_cells(tabs: TabsView, index: int, keep: int)
    ensures
        tabs.chip_width(index, keep) == if chip_cells(
            tabs,
            index,
            index < keep || index == current(tabs),
        ) <= 65535 {
            chip_cells(tabs, index, index < keep || index == current(tabs))
        } else {
            65535
        },
        chip_cells(tabs, index, true) >= 2,
        chip_cells(tabs, index, false) >= 2,
{
}

/// Bars are cells, held at the largest coordinate.
proof fn bars_are_cells(tabs: TabsView, keep: int, count: int)
    ensures
        tabs.bar_width(keep, count) == if bar_cells(tabs, keep, count) <= 65535 {
            bar_cells(tabs, keep, count)
        } else {
            65535
        },
        bar_cells(tabs, keep, count) >= 2,
    decreases count,
{
    if count > 0 {
        bars_are_cells(tabs, keep, count - 1);
        chips_are_cells(tabs, count - 1, keep);
    }
}

/// No larger number of labels fits than the one kept.
proof fn most_are_kept(tabs: TabsView, keep: int, width: u16)
    requires
        0 <= keep,
        width < 65535,
    ensures
        0 <= tabs.kept(keep, width) <= keep,
        tabs.kept(keep, width) > 0 ==> bar_cells(
            tabs,
            tabs.kept(keep, width),
            tabs.titles.len() as int,
        ) <= width,
        forall|more: int|
            #![trigger bar_cells(tabs, more, tabs.titles.len() as int)]
            tabs.kept(keep, width) < more <= keep ==> bar_cells(
                tabs,
                more,
                tabs.titles.len() as int,
            ) > width,
    decreases keep,
{
    bars_are_cells(tabs, keep, tabs.titles.len() as int);
    if keep > 0 && tabs.bar_width(keep, tabs.titles.len() as int) > width {
        most_are_kept(tabs, keep - 1, width);
    }
}

/// Where the chips from `index` on stand.
proof fn chips_stand(tabs: TabsView, keep: int, width: u16, index: int, row: u16, x: u16)
    requires
        tabs.wf(),
        width <= 65531,
        0 <= index <= tabs.titles.len(),
        2 <= x <= 65535,
        index == 0 ==> row == 0 && x == 2,
        index > 0 ==> row < index && x > 2,
        forall|i: int|
            #![trigger tabs.titles[i]]
            0 <= i < tabs.titles.len() ==> labelled(tabs, i) <= 65531 && chip_cells(tabs, i, false)
                <= 65531,
    ensures
        ({
            let (chips, rows) = tabs.chips_from(keep, width, index, row, x);
            &&& chips.len() == tabs.titles.len() - index
            &&& chips.len() == 0 ==> rows == row + 1
            &&& chips.len() > 0 ==> rows == chips[chips.len() - 1].row + 1
            &&& chips.len() > 0 ==> {
                ||| chips[0].row == row && chips[0].start == x && (x == 2 || chips[0].end <= width)
                ||| chips[0].row == row + 1 && chips[0].start == 2 && x > 2 && x + chips[0].end
                    - chips[0].start > width
            }
            &&& forall|i: int|
                #![trigger chips[i]]
                0 <= i < chips.len() ==> chips[i].index == index + i && chips[i].full == (index + i
                    < keep || index + i == current(tabs)) && chips[i].end == chips[i].start
                    + chip_cells(tabs, index + i, chips[i].full)
            &&& forall|i: int, j: int|
                #![trigger chips[i], chips[j]]
                0 <= i && j == i + 1 && j < chips.len() ==> {
                    ||| chips[j].row == chips[i].row && chips[j].start == chips[i].end + 2
                        && chips[j].end <= width
                    ||| chips[j].row == chips[i].row + 1 && chips[j].start == 2 && chips[i].end + 2
                        + chips[j].end - chips[j].start > width
                }
        }),
    decreases tabs.titles.len() - index,
{
    if index < tabs.titles.len() {
        let title = tabs.titles[index];
        chips_are_cells(tabs, index, keep);
        let wide = tabs.chip_width(index, keep);
        let wraps = x > 2 && sat_add(x, wide) > width;
        let here = if wraps {
            sat_add(row, 1)
        } else {
            row
        };
        let start = if wraps {
            2
        } else {
            x
        };
        let next = sat_add(sat_add(start, wide), 2);
        chips_stand(tabs, keep, width, index + 1, here, next);
        let (rest, rows) = tabs.chips_from(keep, width, index + 1, here, next);
        let (chips, all_rows) = tabs.chips_from(keep, width, index, row, x);
        assert(chips.len() == rest.len() + 1);
        assert forall|i: int| #![trigger chips[i]] 0 <= i < chips.len() implies chips[i].index
            == index + i && chips[i].full == (index + i < keep || index + i == current(tabs))
            && chips[i].end == chips[i].start + chip_cells(tabs, index + i, chips[i].full) by {
            if i > 0 {
                assert(chips[i] == rest[i - 1]);
            }
        }
        assert forall|i: int, j: int|
            #![trigger chips[i], chips[j]]
            0 <= i && j == i + 1 && j < chips.len() implies {
            ||| chips[j].row == chips[i].row && chips[j].start == chips[i].end + 2 && chips[j].end
                <= width
            ||| chips[j].row == chips[i].row + 1 && chips[j].start == 2 && chips[i].end + 2
                + chips[j].end - chips[j].start > width
        } by {
            assert(chips[j] == rest[i]);
            if i > 0 {
                assert(chips[i] == rest[i - 1]);
            }
        }
        if rest.len() > 0 {
            assert(chips[chips.len() - 1] == rest[rest.len() - 1]);
        }
    }
}

/// As many leading panes keep their labels as fit on one row, and the current
/// one always does: no larger number would fit.
pub proof fn labels_stay_while_they_fit(tabs: TabsView, width: u16) -> (keep: int)
    requires
        tabs.wf(),
        width <= 65531,
        forall|i: int|
            #![trigger tabs.titles[i]]
            0 <= i < tabs.titles.len() ==> labelled(tabs, i) <= 65531 && chip_cells(tabs, i, false)
                <= 65531,
    ensures
        0 <= keep <= tabs.titles.len(),
        tabs.layout(width).0.len() == tabs.titles.len(),
        forall|i: int|
            #![trigger tabs.layout(width).0[i]]
            0 <= i < tabs.titles.len() ==> tabs.layout(width).0[i].full == (i < keep || i
                == current(tabs)),
        keep > 0 ==> bar_cells(tabs, keep, tabs.titles.len() as int) <= width,
        forall|more: int|
            #![trigger bar_cells(tabs, more, tabs.titles.len() as int)]
            keep < more <= tabs.titles.len() ==> bar_cells(tabs, more, tabs.titles.len() as int)
                > width,
{
    let keep = tabs.kept(tabs.titles.len() as int, width);
    most_are_kept(tabs, tabs.titles.len() as int, width);
    chips_stand(tabs, keep, width, 0, 0, 2);
    keep
}

/// The chips of a bar stand in order, two cells apart, each as wide as what it
/// shows; the first stands two cells from the left edge. A chip starts a new
/// row only where it does not fit behind the one before.
pub proof fn chips_stand_two_apart(tabs: TabsView, width: u16)
    requires
        tabs.wf(),
        width <= 65531,
        forall|i: int|
            #![trigger tabs.titles[i]]
            0 <= i < tabs.titles.len() ==> labelled(tabs, i) <= 65531 && chip_cells(tabs, i, false)
                <= 65531,
    ensures
        ({
            let (chips, rows) = tabs.layout(width);
            &&& chips.len() == tabs.titles.len()
            &&& rows == if chips.len() == 0 {
                1
            } else {
                chips[chips.len() - 1].row + 1
            }
            &&& chips.len() > 0 ==> chips[0].row == 0 && chips[0].start == 2
            &&& forall|i: int|
                #![trigger chips[i]]
                0 <= i < chips.len() ==> chips[i].index == i && chips[i].end == chips[i].start
                    + chip_cells(tabs, i, chips[i].full)
            &&& forall|i: int, j: int|
                #![trigger chips[i], chips[j]]
                0 <= i && j == i + 1 && j < chips.len() ==> {
                    ||| chips[j].row == chips[i].row && chips[j].start == chips[i].end + 2
                        && chips[j].end <= width
                    ||| chips[j].row == chips[i].row + 1 && chips[j].start == 2 && chips[i].end + 2
                        + chips[j].end - chips[j].start > width
                }
        }),
{
    chips_stand(tabs, tabs.kept(tabs.titles.len() as int, width), width, 0, 0, 2);
}

/// A turn leads to the neighbour, and from an end to the other end.
pub proof fn turns_lead_to_the_neighbour(index: int, count: int)
    requires
        0 <= index < count,
    ensures
        index + 1 < count ==> cycled(index, count, true) == index + 1,
        index + 1 == count ==> cycled(index, count, true) == 0,
        index > 0 ==> cycled(index, count, false) == index - 1,
        index == 0 ==> cycled(index, count, false) == count - 1,
{
    if index + 1 == count {
        vstd::arithmetic::div_mod::lemma_mod_self_0(count);
    } else {
        vstd::arithmetic::div_mod::lemma_small_mod((index + 1) as nat, count as nat);
    }
    if index > 0 {
        vstd::arithmetic::div_mod::lemma_mod_add_multiples_vanish(index - 1, count);
        vstd::arithmetic::div_mod::lemma_small_mod((index - 1) as nat, count as nat);
    } else {
        vstd::arithmetic::div_mod::lemma_small_mod((count - 1) as nat, count as nat);
    }
}

/// Cells of the first `count` labels of a status group.
pub open spec fn label_cells(status: StatusView, count: int) -> int
    decreases count,
{
    if count <= 0 {
        0
    } else {
        label_cells(status, count - 1) + cells(status.segments[count - 1].label)
    }
}

/// Cells of a status group with its first `count` segments: the labels, between
/// any two of them a separator with a cell on either side, and around them the
/// caps with a cell inside each.
pub open spec fn group_cells(status: StatusView, charset: Charset, count: int) -> int {
    let (opening, separator, closing) = band(status.align, charset);
    label_cells(status, count) + (count - 1) * (glyph_width(separator) + 2) + glyph_width(opening)
        + glyph_width(closing) + 2
}

/// Labels are cells, held at the largest coordinate.
proof fn labels_are_cells(status: StatusView, count: int)
    ensures
        labels_width(status.segments, count) == if label_cells(status, count) <= 65535 {
            label_cells(status, count)
        } else {
            65535
        },
        label_cells(status, count) >= 0,
    decreases count,
{
    if count > 0 {
        labels_are_cells(status, count - 1);
    }
}

/// Groups are cells, held at the largest coordinate.
proof fn groups_are_cells(status: StatusView, charset: Charset, count: int)
    requires
        count >= 1,
    ensures
        status.group_width(count, charset) == if group_cells(status, charset, count) <= 65535 {
            group_cells(status, charset, count)
        } else {
            65535
        },
{
    labels_are_cells(status, count);
    let (opening, separator, closing) = band(status.align, charset);
    let gap = sat_add(glyph_width(separator), 2);
    let wide = glyph_width(separator) + 2;
    let gaps = count - 1;
    assert(gaps * wide >= 0) by (nonlinear_arith)
        requires
            gaps >= 0,
            wide >= 0,
    ;
    let held = cell_count(gaps);
    if gaps == 0 {
        assert(held * gap == 0 && gaps * wide == 0) by (nonlinear_arith)
            requires
                held == 0,
                gaps == 0,
        ;
    } else if gaps <= 65535 && wide <= 65535 {
        assert(held * gap == gaps * wide);
    } else {
        assert(gaps * wide >= 65535 && held * gap >= 65535) by (nonlinear_arith)
            requires
                gaps >= 1,
                wide >= 2,
                gaps > 65535 || wide > 65535,
                held == if gaps <= 65535 {
                    gaps
                } else {
                    65535
                },
                gap == if wide <= 65535 {
                    wide
                } else {
                    65535
                },
        ;
    }
    assert(sat_mul(held, gap) == if gaps * wide <= 65535 {
        gaps * wide
    } else {
        65535
    });
}

/// A status group shows as many leading segments as fit, the first in any case:
/// one more would not fit.
pub proof fn segments_show_while_they_fit(
    status: StatusView,
    charset: Charset,
    count: int,
    width: u16,
)
    requires
        count >= 1,
        width < 65535,
    ensures
        1 <= status.visible(count, charset, width) <= count,
        status.visible(count, charset, width) > 1 ==> group_cells(
            status,
            charset,
            status.visible(count, charset, width),
        ) <= width,
        forall|more: int|
            #![trigger group_cells(status, charset, more)]
            status.visible(count, charset, width) < more <= count ==> group_cells(
                status,
                charset,
                more,
            ) > width,
    decreases count,
{
    groups_are_cells(status, charset, count);
    if count > 1 && status.group_width(count, charset) > width {
        segments_show_while_they_fit(status, charset, count - 1, width);
    }
}

/// Scrolling goes as far as asked, or to the end of the content.
pub proof fn scrolling_goes_as_far_as_asked(off: u16, delta: int, content_h: u16, view_rows: u16)
    ensures
        ({
            let last = if content_h > view_rows {
                content_h - view_rows
            } else {
                0
            };
            let row = scrolled(off, delta, content_h, view_rows);
            &&& 0 <= off + delta <= last ==> row == off + delta
            &&& off + delta < 0 ==> row == 0
            &&& off + delta > last ==> row == last
        }),
{
}

/// Arrows scroll by a row, pages by the window, `ctrl-u` and `ctrl-d` by half of
/// it, and the first and last rows are a key away.
pub proof fn keys_scroll_their_distance(off: u16, content_h: u16, view_rows: u16)
    requires
        view_rows <= content_h,
        off <= content_h - view_rows,
    ensures
        ({
            let last = content_h - view_rows;
            let to = |key: Key|
                scrolled(off, key_delta(key, view_rows, content_h)->0, content_h, view_rows) as int;
            let half = |half: int|
                half >= 1 && (view_rows >= 2 ==> 2 * half <= view_rows < 2 * half + 2) && (view_rows
                    < 2 ==> half == 1);
            &&& key_delta(Key::Up, view_rows, content_h) is Some
            &&& key_delta(Key::Down, view_rows, content_h) is Some
            &&& key_delta(Key::PageUp, view_rows, content_h) is Some
            &&& key_delta(Key::PageDown, view_rows, content_h) is Some
            &&& key_delta(Key::Home, view_rows, content_h) is Some
            &&& key_delta(Key::End, view_rows, content_h) is Some
            &&& key_delta(Key::Ctrl('u'), view_rows, content_h) is Some
            &&& key_delta(Key::Ctrl('d'), view_rows, content_h) is Some
            &&& key_delta(Key::Left, view_rows, content_h) is None
            &&& key_delta(Key::Right, view_rows, content_h) is None
            &&& off > 0 ==> to(Key::Up) == off - 1
            &&& off == 0 ==> to(Key::Up) == 0
            &&& off < last ==> to(Key::Down) == off + 1
            &&& off == last ==> to(Key::Down) == last
            &&& off >= view_rows ==> to(Key::PageUp) == off - view_rows
            &&& off < view_rows ==> to(Key::PageUp) == 0
            &&& off + view_rows <= last ==> to(Key::PageDown) == off + view_rows
            &&& off + view_rows > last ==> to(Key::PageDown) == last
            &&& to(Key::Home) == 0
            &&& to(Key::End) == last
            &&& forall|rows: int| #[trigger]
                half(rows) && rows <= off ==> to(Key::Ctrl('u')) == off - rows
            &&& forall|rows: int| #[trigger]
                half(rows) && off + rows <= last ==> to(Key::Ctrl('d')) == off + rows
        }),
{
}

/// Of the offsets that show an area whole, chasing it picks the one nearest to
/// where the window was.
pub proof fn chasing_goes_no_further_than_needed(
    off: u16,
    area: Rect,
    content_h: u16,
    view_rows: u16,
    other: u16,
)
    requires
        area.height <= view_rows,
        area.y + area.height <= content_h,
        off <= sat_sub(content_h, view_rows),
        other <= area.y,
        area.y + area.height <= other + view_rows,
    ensures
        ({
            let to = chased(off, area, content_h, view_rows);
            &&& to <= area.y
            &&& area.y + area.height <= to + view_rows
            &&& other <= off ==> other <= to <= off
            &&& other >= off ==> off <= to <= other
        }),
{
}

/// The thumb takes the share of the track that the window takes of the content,
/// one row at least; it stands at the top where the content starts, at the
/// bottom where it ends, and moves down with it.
pub proof fn thumbs_show_the_window(track: u16, content_h: u16, off: u16, later: u16)
    requires
        0 < track < content_h,
        track * track <= 65535,
        track * (content_h - track) <= 65535,
        off <= later <= content_h - track,
    ensures
        ({
            let thumb = thumb_height(track, content_h);
            &&& 1 <= thumb <= track
            &&& thumb == 1 || thumb * content_h <= track * track
            &&& track * track < (thumb + 1) * content_h
            &&& thumb_top(track, content_h, 0) == 0
            &&& thumb_top(track, content_h, (content_h - track) as u16) == track - thumb
            &&& thumb_top(track, content_h, off) <= thumb_top(track, content_h, later)
            &&& thumb_top(track, content_h, later) + thumb <= track
        }),
{
    let square = track * track;
    let high = content_h as int;
    let part = square / high;
    assert(part * high <= square < (part + 1) * high && 0 <= part <= track) by (nonlinear_arith)
        requires
            part == square / high,
            square == track * track,
            0 < track < high,
    ;
    let thumb = thumb_height(track, content_h);
    assert(thumb == if part >= 1 {
        part
    } else {
        1
    });
    if part < 1 {
        assert(square < 2 * high);
    }
    let span = track - thumb;
    let range = content_h - track;
    assert(0 <= span * off <= span * later <= span * range <= track * range) by (nonlinear_arith)
        requires
            0 <= off <= later <= range,
            0 <= span <= track,
    ;
    assert(span * range / range == span) by (nonlinear_arith)
        requires
            range > 0,
    ;
    assert(span * off / range <= span * later / range <= span * range / range && span * off / range
        >= 0) by (nonlinear_arith)
        requires
            0 <= span * off <= span * later <= span * range,
            range > 0,
    ;
    assert(span * 0 == 0);
    assert(0int / range == 0) by (nonlinear_arith)
        requires
            range > 0,
    ;
}

/// A cell of the viewport lies in a moved area exactly where the content row
/// that it shows lies in the area; nothing of it lies outside the viewport.
pub proof fn moved_areas_are_what_shows(
    area: Rect,
    viewport: Rect,
    off: u16,
    rows: u16,
    x: int,
    y: int,
)
    requires
        viewport.x + viewport.width <= 65536,
        viewport.y + rows <= 65536,
    ensures
        (moved_area(area, viewport, off, rows) matches Some(rect) && rect.x <= x < rect.x
            + rect.width && rect.y <= y < rect.y + rect.height) <==> viewport.x <= x < viewport.x
            + viewport.width && viewport.y <= y < viewport.y + rows && area.x <= x - viewport.x
            < area.x + area.width && area.y <= y - viewport.y + off < area.y + area.height,
        moved_area(area, viewport, off, rows) matches Some(rect) ==> rect.width > 0 && rect.height
            > 0,
{
}

/// Every area of the content that shows stays a target, in order and for what
/// it was one; the others go.
pub proof fn shown_areas_stay_targets(
    hits: Seq<Hit>,
    viewport: Rect,
    off: u16,
    rows: u16,
    count: int,
) -> (sources: Seq<int>)
    requires
        0 <= count <= hits.len(),
    ensures
        ({
            let moved = moved_hits(hits, viewport, off, rows, count);
            &&& sources.len() == moved.len()
            &&& forall|i: int, j: int|
                #![trigger sources[i], sources[j]]
                0 <= i < j < sources.len() ==> sources[i] < sources[j]
            &&& forall|i: int|
                #![trigger sources[i]]
                0 <= i < sources.len() ==> 0 <= sources[i] < count && moved_area(
                    hits[sources[i]].rect,
                    viewport,
                    off,
                    rows,
                ) == Some(moved[i].rect) && moved[i] == (Hit {
                    rect: moved[i].rect,
                    ..hits[sources[i]]
                })
            &&& forall|k: int|
                #![trigger hits[k]]
                0 <= k < count && moved_area(hits[k].rect, viewport, off, rows) is Some ==> exists|
                    i: int,
                |
                    0 <= i < sources.len() && #[trigger] sources[i] == k
        }),
    decreases count,
{
    if count <= 0 {
        Seq::empty()
    } else {
        let earlier = shown_areas_stay_targets(hits, viewport, off, rows, count - 1);
        let moved = moved_hits(hits, viewport, off, rows, count);
        let before = moved_hits(hits, viewport, off, rows, count - 1);
        if moved_area(hits[count - 1].rect, viewport, off, rows) is Some {
            let sources = earlier.push(count - 1);
            assert forall|i: int| #![trigger sources[i]] 0 <= i < sources.len() implies 0
                <= sources[i] < count && moved_area(hits[sources[i]].rect, viewport, off, rows)
                == Some(moved[i].rect) && moved[i] == (Hit {
                rect: moved[i].rect,
                ..hits[sources[i]]
            }) by {
                if i < earlier.len() {
                    assert(sources[i] == earlier[i]);
                    assert(moved[i] == before[i]);
                }
            }
            assert forall|k: int|
                #![trigger hits[k]]
                0 <= k < count && moved_area(hits[k].rect, viewport, off, rows) is Some implies exists|
                i: int,
            |
                0 <= i < sources.len() && #[trigger] sources[i] == k by {
                if k == count - 1 {
                    assert(sources[earlier.len() as int] == k);
                } else {
                    let i = choose|i: int| 0 <= i < earlier.len() && #[trigger] earlier[i] == k;
                    assert(sources[i] == k);
                }
            }
            assert forall|i: int, j: int|
                #![trigger sources[i], sources[j]]
                0 <= i < j < sources.len() implies sources[i] < sources[j] by {
                if j < earlier.len() {
                    assert(earlier[i] < earlier[j]);
                } else {
                    assert(earlier[i] < count - 1);
                }
            }
            sources
        } else {
            earlier
        }
    }
}

} // verus!
