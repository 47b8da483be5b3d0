//! What holds of the areas that the pointer can aim at: each stands where its
//! target shows, and no target goes without.

use vstd::prelude::*;

use crate::charset::Charset;
use crate::choosing::rows_between;
use crate::events::HitTag;
use crate::frame::FrameView;
use crate::geometry::{sat_sub, Rect};
use crate::runs::{written, RunView};
use crate::segmented::{SegmentColors, SegmentedView};
use crate::select::{OptionLayout, SelectView};
use crate::select_paint::PaintView;
use crate::tabs::{Chip, TabsView};
use crate::text::{all_ascii, drawing_fits};
use crate::theme::Theme;

verus! {

/// Every row of a list that shows has an area of its own over the whole width,
/// where it shows, in order; the others have none.
pub proof fn shown_rows_have_areas(select: SelectView, p: PaintView, count: int) -> (sources: Seq<
    int,
>)
    requires
        0 <= count <= select.visible.len(),
    ensures
        ({
            let hits = select.row_hits(p, count);
            &&& sources.len() == hits.len()
            &&& forall|i: int, j: int|
                #![trigger sources[i], sources[j]]
                0 <= i < j < sources.len() ==> sources[i] < sources[j]
            &&& forall|i: int|
                #![trigger sources[i]]
                0 <= i < sources.len() ==> {
                    let index = select.visible[sources[i]];
                    let layout = select.layouts[index as int];
                    &&& 0 <= sources[i] < count
                    &&& layout.height > 0
                    &&& hits[i].tag == HitTag::Row(index)
                    &&& hits[i].slot == p.slot
                    &&& hits[i].rect.x == p.rect.x && hits[i].rect.width == p.rect.width
                    &&& hits[i].rect.y == layout.top && hits[i].rect.height == layout.height
                }
            &&& forall|k: int|
                #![trigger select.visible[k]]
                0 <= k < count && select.layouts[select.visible[k] as int].height > 0 ==> exists|
                    i: int,
                |
                    0 <= i < sources.len() && #[trigger] sources[i] == k
        }),
    decreases count,
{
    if count <= 0 {
        Seq::empty()
    } else {
        let earlier = shown_rows_have_areas(select, p, count - 1);
        let before = select.row_hits(p, count - 1);
        let hits = select.row_hits(p, count);
        let last = select.visible[count - 1];
        if select.layouts[last as int].height == 0 {
            earlier
        } else {
            let sources = earlier.push(count - 1);
            assert forall|i: int| #![trigger sources[i]] 0 <= i < sources.len() implies {
                let index = select.visible[sources[i]];
                let layout = select.layouts[index as int];
                &&& 0 <= sources[i] < count
                &&& layout.height > 0
                &&& hits[i].tag == HitTag::Row(index)
                &&& hits[i].slot == p.slot
                &&& hits[i].rect.x == p.rect.x && hits[i].rect.width == p.rect.width
                &&& hits[i].rect.y == layout.top && hits[i].rect.height == layout.height
            } by {
                if i < earlier.len() {
                    assert(sources[i] == earlier[i]);
                    assert(hits[i] == before[i]);
                }
            }
            assert forall|k: int|
                #![trigger select.visible[k]]
                0 <= k < count && select.layouts[select.visible[k] as int].height > 0 implies exists|
                i: int,
            |
                0 <= i < sources.len() && #[trigger] sources[i] == k by {
                if k == count - 1 {
                    assert(sources[earlier.len() as int] == k);
                } else {
                    let i = choose|i: int| 0 <= i < earlier.len() && #[trigger] earlier[i] == k;
                    assert(sources[i] == k);
                }
            }
            assert forall|i: int, j: int|
                #![trigger sources[i], sources[j]]
                0 <= i < j < sources.len() implies sources[i] < sources[j] by {
                if j < earlier.len() {
                    assert(earlier[i] < earlier[j]);
                } else {
                    assert(earlier[i] < count - 1);
                }
            }
            sources
        }
    }
}

/// Every chip of a bar that shows whole has the area that it takes, and leads
/// to its own pane.
pub proof fn chips_have_areas(
    tabs: TabsView,
    frame: FrameView,
    theme: Theme,
    charset: Charset,
    focused: bool,
    hovered: Option<u16>,
    rect: Rect,
    clip: u16,
    chips: Seq<Chip>,
    count: int,
)
    requires
        0 <= count <= chips.len(),
        forall|k: int|
            #![trigger chips[k]]
            0 <= k < chips.len() ==> rect.x + chips[k].start <= 65535 && rect.y + chips[k].row < clip
                && chips[k].start <= chips[k].end,
    ensures
        ({
            let hits = tabs.chips_painted(
                frame,
                theme,
                charset,
                focused,
                hovered,
                rect,
                clip,
                chips,
                count,
            ).1;
            &&& hits.len() == count
            &&& forall|k: int|
                #![trigger hits[k]]
                0 <= k < count ==> {
                    &&& hits[k].tag == HitTag::Chip(chips[k].index)
                    &&& hits[k].slot == tabs.slot
                    &&& hits[k].rect.x == rect.x + chips[k].start
                    &&& hits[k].rect.y == rect.y + chips[k].row
                    &&& hits[k].rect.width == chips[k].end - chips[k].start
                    &&& hits[k].rect.height == 1
                }
        }),
    decreases count,
{
    if count > 0 {
        chips_have_areas(
            tabs,
            frame,
            theme,
            charset,
            focused,
            hovered,
            rect,
            clip,
            chips,
            count - 1,
        );
        let last = chips[count - 1];
    }
}

/// Writing never goes back.
proof fn writing_goes_on(frame: FrameView, x: u16, y: u16, runs: Seq<RunView>)
    ensures
        written(frame, x, y, runs).1 >= x,
    decreases runs.len(),
{
    if runs.len() > 0 {
        let (before, column) = written(frame, x, y, runs.drop_last());
        writing_goes_on(frame, x, y, runs.drop_last());
        let text = runs.last().text;
        let room = before.room(column, sat_sub(before.width, column));
        drawing_fits(text, room, all_ascii(text));
    }
}

/// The options of a segmented control have areas side by side: the first starts
/// with the control, each next one where the one before ends, and each leads to
/// its own option.
pub proof fn options_have_areas_side_by_side(
    control: SegmentedView,
    frame: FrameView,
    colors: SegmentColors,
    focused: bool,
    hovered: Option<u16>,
    rect: Rect,
    count: int,
)
    requires
        0 <= count < 65536,
    ensures
        ({
            let (shown, end, hits) = control.painted(frame, colors, focused, hovered, rect, count);
            &&& end >= rect.x
            &&& hits.len() == count
            &&& count == 0 ==> end == rect.x
            &&& count > 0 ==> hits[0].rect.x == rect.x && hits[count - 1].rect.x + hits[count
                - 1].rect.width == end
            &&& forall|k: int|
                #![trigger hits[k]]
                0 <= k < count ==> hits[k].tag == HitTag::Chip(k as u16) && hits[k].slot
                    == control.slot && hits[k].rect.y == rect.y && hits[k].rect.height == 1
            &&& forall|k: int, next: int|
                #![trigger hits[k], hits[next]]
                0 <= k && next == k + 1 && next < count ==> hits[next].rect.x == hits[k].rect.x
                    + hits[k].rect.width
        }),
    decreases count,
{
    if count > 0 {
        options_have_areas_side_by_side(
            control,
            frame,
            colors,
            focused,
            hovered,
            rect,
            count - 1,
        );
        let (earlier, column, before) = control.painted(
            frame,
            colors,
            focused,
            hovered,
            rect,
            count - 1,
        );
        let (shown, end, hits) = control.painted(frame, colors, focused, hovered, rect, count);
        let style = control.option_style(colors, focused, hovered, count - 1);
        writing_goes_on(earlier, column, rect.y, control.option_runs(count - 1, style));
        assert forall|k: int| #![trigger hits[k]] 0 <= k < count - 1 implies hits[k]
            == before[k] by {}
        if count > 1 {
            assert(hits[0] == before[0]);
            assert(hits[count - 2] == before[count - 2]);
        }
    }
}

/// Rows from `from` up to `to` start with the first.
proof fn rows_between_split(
    select: SelectView,
    charset: Charset,
    width: u16,
    from: int,
    to: int,
)
    requires
        from <= to,
    ensures
        rows_between(select, charset, width, from, to) >= 0,
        from < to ==> rows_between(select, charset, width, from, to) == select.shown(from).height(
            charset,
            width,
        ) + rows_between(select, charset, width, from + 1, to),
    decreases to - from,
{
    if from < to {
        rows_between_split(select, charset, width, from + 1, to);
    }
}

/// The rows of a list stand one below the other without gaps, each as tall as
/// its option, for as long as the screen rows before it leave room; every
/// other option has the place it had.
pub proof fn list_rows_stand_below_one_another(
    select: SelectView,
    charset: Charset,
    width: u16,
    cap: u16,
    layouts: Seq<OptionLayout>,
    row: int,
    y: u16,
    used: u16,
)
    requires
        0 <= row <= select.visible.len(),
        forall|k: int|
            #![trigger select.visible[k]]
            0 <= k < select.visible.len() ==> select.visible[k] < layouts.len(),
        forall|j: int, k: int|
            #![trigger select.visible[j], select.visible[k]]
            0 <= j < k < select.visible.len() ==> select.visible[j] != select.visible[k],
        y + rows_between(select, charset, width, row, select.visible.len() as int) <= 65535,
        used + rows_between(select, charset, width, row, select.visible.len() as int) <= 65535,
    ensures
        ({
            let (placed, shown) = select.laid(charset, width, cap, layouts, row, y, used);
            &&& placed.len() == layouts.len()
            &&& 0 <= shown <= select.visible.len() - row
            &&& forall|k: int|
                #![trigger select.visible[k]]
                row <= k < row + shown ==> placed[select.visible[k] as int] == (OptionLayout {
                    top: (y + rows_between(select, charset, width, row, k)) as u16,
                    height: select.shown(k).height(charset, width),
                }) && used + rows_between(select, charset, width, row, k) < cap
            &&& row + shown < select.visible.len() ==> used + rows_between(
                select,
                charset,
                width,
                row,
                row + shown,
            ) >= cap
            &&& forall|i: int|
                #![trigger placed[i]]
                0 <= i < placed.len() && (forall|k: int|
                    #![trigger select.visible[k]]
                    row <= k < row + shown ==> select.visible[k] != i) ==> placed[i] == layouts[i]
        }),
    decreases select.visible.len() - row,
{
    let count = select.visible.len() as int;
    rows_between_split(select, charset, width, row, count);
    assert(rows_between(select, charset, width, row, row) == 0);
    if row < count && used < cap {
        let block = select.shown(row).height(charset, width);
        rows_between_split(select, charset, width, row + 1, count);
        let here = OptionLayout { top: y, height: block };
        let own = select.visible[row] as int;
        let next = layouts.update(own, here);
        list_rows_stand_below_one_another(
            select,
            charset,
            width,
            cap,
            next,
            row + 1,
            (y + block) as u16,
            (used + block) as u16,
        );
        let (placed, later) = select.laid(
            charset,
            width,
            cap,
            next,
            row + 1,
            (y + block) as u16,
            (used + block) as u16,
        );
        assert(placed[own] == here) by {
            assert forall|k: int|
                #![trigger select.visible[k]]
                row + 1 <= k < row + 1 + later implies select.visible[k] != own by {
                assert(select.visible[row] != select.visible[k]);
            }
        }
        assert forall|k: int| #![trigger select.visible[k]] row <= k < row + later + 1 implies
            placed[select.visible[k] as int] == (OptionLayout {
            top: (y + rows_between(select, charset, width, row, k)) as u16,
            height: select.shown(k).height(charset, width),
        }) && used + rows_between(select, charset, width, row, k) < cap by {
            if k > row {
                rows_between_split(select, charset, width, row, k);
            }
        }
        rows_between_split(select, charset, width, row, row + 1 + later);
        assert forall|i: int|
            #![trigger placed[i]]
            0 <= i < placed.len() && (forall|k: int|
                #![trigger select.visible[k]]
                row <= k < row + 1 + later ==> select.visible[k] != i) implies placed[i]
            == layouts[i] by {
            assert(select.visible[row] != i);
            assert(next[i] == layouts[i]);
        }
    }
}

} // verus!
