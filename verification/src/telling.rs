//! What holds of what widgets tell of work in progress: when they ask to be
//! painted again, where their labels stand, and where a wizard's keys lead.

use vstd::prelude::*;

use crate::anim::{change_after, glyph_at};
use crate::cell::CellView;
use crate::charset::{pulse_frames, spinner_frames, Charset};
use crate::events::{EventView, FlowView, HitTag};
use crate::gauge::{
    annotates, fitted, last_start, planned, ticked, wanted_start, GaugeView, RoomView,
};
use crate::input::{Key, Mouse};
use crate::screen::{pieces_from, PieceView};
use crate::spinner::idle_after;
use crate::strike::{struck_count, StrikeView};
use crate::text::ClusterView;
use crate::tool_card::{CardView, ToolState};
use crate::wizard::WizardView;

verus! {

/// An animation rests nine times as long as its frame took, so that painting
/// takes a tenth of the time; no rest is longer than that of a frame of a fifth
/// of a second.
pub proof fn animations_paint_a_tenth_of_the_time(frame_cost: u64)
    ensures
        frame_cost <= 200 ==> 10 * frame_cost == frame_cost + idle_after(frame_cost),
        frame_cost > 200 ==> idle_after(frame_cost) == idle_after(200),
{
}

/// A glyph shows until it changes.
proof fn glyphs_stay(glyphs: Seq<Seq<char>>, step: u64, now: u64, later: u64)
    requires
        step > 0,
        now <= later < change_after(step, now),
    ensures
        glyph_at(glyphs, step, later) == glyph_at(glyphs, step, now),
{
    let turn = now as int / step as int;
    assert(turn * step <= now) by (nonlinear_arith)
        requires
            turn == now as int / step as int,
            step > 0,
    ;
    assert(later as int / step as int == turn) by (nonlinear_arith)
        requires
            turn * step <= later < (turn + 1) * step,
            step > 0,
    ;
}

/// A card shows the same indicator until it asks to be painted again; one that
/// does not ask shows it for good.
pub proof fn cards_ask_before_they_change(
    card: CardView,
    charset: Charset,
    height: u16,
    failed: Seq<ClusterView>,
    now: u64,
    later: u64,
)
    requires
        now <= later,
        card.wake(charset, height, now) matches Some(due) ==> later < due,
        pulse_frames(charset).1 > 0,
        spinner_frames(charset).1 > 0,
    ensures
        card.indicator(charset, height, later, failed) == card.indicator(
            charset,
            height,
            now,
            failed,
        ),
{
    if height == 1 {
        if card.finalized_at is None {
            let (glyphs, step) = pulse_frames(charset);
            glyphs_stay(glyphs, step, now, later);
        }
    } else if card.state == ToolState::Streaming {
        let (glyphs, step) = spinner_frames(charset);
        glyphs_stay(glyphs, step, now, later);
    }
}

/// A swept line shows the same part struck until it asks to be painted again;
/// one that does not ask is struck whole, for good.
pub proof fn strikes_ask_before_they_change(strike: StrikeView, now: u64, later: u64)
    requires
        strike.anchor is Some,
        now <= later,
        strike.wake(now) matches Some(due) ==> later < due,
    ensures
        strike.struck(later) == strike.struck(now),
        strike.wake(now) is None ==> strike.struck(now) == strike.text.len(),
{
    if strike.reveal is Some && strike.reveal->0 / 14 > 0 {
        let interval = (strike.reveal->0 / 14) as int;
        let start = strike.start(now) as int;
        let frame = strike.frame_at(now);
        let soon = if now >= start {
            now - start
        } else {
            0
        };
        let elapsed = if later >= start {
            later - start
        } else {
            0
        };
        assert(0 <= frame && frame * interval <= soon) by (nonlinear_arith)
            requires
                frame == soon / interval,
                soon >= 0,
                interval > 0,
        ;
        assert(soon / interval <= elapsed / interval) by (nonlinear_arith)
            requires
                0 <= soon <= elapsed,
                interval > 0,
        ;
        if strike.sweeping(now) {
            let reach = (frame + 1) * interval;
            assert(reach == (strike.reveal->0 / 14) * (frame + 1) && reach > 0)
                by (nonlinear_arith)
                requires
                    reach == (frame + 1) * interval,
                    interval == (strike.reveal->0 / 14) as int,
                    frame >= 0,
                    interval > 0,
            ;
            assert(strike.wake(now) is Some);
            assert(elapsed < reach);
            assert(frame * interval <= elapsed);
            assert(elapsed / interval == frame) by (nonlinear_arith)
                requires
                    frame * interval <= elapsed < (frame + 1) * interval,
                    interval > 0,
            ;
        }
    }
}

/// The labels of a gauge stand on the line together or not at all: together
/// where both can annotate it and four cells are left. The window label ends a
/// cell before the right edge, or before the usage label where usage exceeds
/// the window; then the usage label ends at the edge. The fill ends where the
/// window label starts.
pub proof fn gauge_labels_stand_at_the_right(
    width: u16,
    overflow: bool,
    percent: Seq<char>,
    window: Seq<char>,
)
    ensures
        ({
            let room = fitted(width, overflow, percent, window, true);
            let fits = annotates(percent) && annotates(window) && percent.len() + window.len() + 4
                <= width;
            let end = room.window_start->0 + window.len();
            &&& fits ==> room.window_start is Some && room.percent == percent && room.window
                == window && room.scale == room.window_start->0
            &&& fits && !overflow ==> end + 1 == width && room.percent_start is None
            &&& fits && overflow ==> room.percent_start is Some && end + 1
                == room.percent_start->0 && room.percent_start->0 + percent.len() == width
            &&& !fits ==> room.window_start is None && room.percent_start is None
                && room.percent.len() == 0 && room.window.len() == 0 && room.scale == width
            &&& fitted(width, overflow, percent, window, false).scale == width
        }),
{
}

/// The fill of a gauge takes a cell at least and the scale at most; its ticks
/// stand on the scale, on lines of eight cells and more. A second tick shows
/// only beside the first and apart from it.
pub proof fn gauge_ticks_stand_on_the_scale(
    room: RoomView,
    used: u16,
    threshold: Option<u16>,
    speculation: Option<u16>,
)
    requires
        room.scale > 0,
    ensures
        ({
            let gauge = ticked(room, used, threshold, speculation);
            &&& 1 <= gauge.used <= room.scale
            &&& 1 <= used <= room.scale ==> gauge.used == used
            &&& gauge.threshold is Some <==> threshold is Some && room.width >= 8
            &&& gauge.threshold matches Some(cell) ==> cell < room.scale && (threshold->0
                < room.scale ==> cell == threshold->0) && (threshold->0 >= room.scale ==> cell + 1
                == room.scale)
            &&& gauge.speculation matches Some(cell) ==> gauge.threshold is Some
                && gauge.threshold != Some(cell) && cell < room.scale && (speculation->0
                < room.scale ==> cell == speculation->0)
            &&& gauge.threshold is Some && speculation is Some && speculation->0 < room.scale
                && Some(speculation->0) != gauge.threshold ==> gauge.speculation == speculation
        }),
{
}

/// Where no tick is in the way, the usage label starts where the fill ends, as
/// long as a cell of fill stands before it and one is left behind it.
pub proof fn usage_labels_start_where_the_fill_ends(
    gauge: GaugeView,
    width: u16,
    percent: Seq<char>,
    window: Seq<char>,
    used: u16,
)
    requires
        annotates(percent),
        annotates(window),
        percent.len() + window.len() + 4 <= width,
        planned(gauge, fitted(width, false, percent, window, true), used, None, None),
    ensures
        ({
            let last = width - window.len() - 1 - percent.len() - 1;
            let start = gauge.room.percent_start;
            &&& start is Some
            &&& 1 <= used <= last ==> start->0 == used
            &&& used > last ==> start->0 == last
            &&& used == 0 ==> start->0 == 1
        }),
{
    let room = fitted(width, false, percent, window, true);
    let base = ticked(room, used, None, None);
    let start = gauge.room.percent_start;
    assert(base.clear(wanted_start(base)));
    assert(1 <= wanted_start(base) <= last_start(room));
}

/// The struck share of a text is the share of the frames that went by since
/// the strike began to show, rounded up to whole clusters.
pub proof fn strikes_keep_step(total: int, frame: int)
    requires
        0 <= total,
        2 < frame <= 14,
    ensures
        total * (frame - 2) <= 12 * struck_count(total, frame) < total * (frame - 2) + 12,
{
}

/// In a wizard `Left` and `Enter` lead a step back, `Right` and `Enter` a step
/// on unless something is wrong; on the last step they submit where that is
/// asked for. The space bar does what `Enter` does.
pub proof fn wizard_keys_lead_back_and_on(wizard: WizardView, error: Option<Seq<char>>)
    requires
        wizard.idx < wizard.titles.len(),
        wizard.titles.len() <= 65535,
    ensures
        ({
            let back = wizard.keyed(Key::Left, error).wizard.keyed(Key::Enter, error);
            let on = wizard.keyed(Key::Right, error).wizard.keyed(Key::Enter, error);
            let last = wizard.idx + 1 == wizard.titles.len();
            &&& wizard.idx > 0 ==> back.wizard.idx == wizard.idx - 1
            &&& wizard.idx == 0 ==> back.wizard.idx == 0
            &&& back.wizard.error is None
            &&& back.flow == FlowView::Consumed
            &&& error is Some ==> on.wizard.idx == wizard.idx && on.wizard.error == error && on.flow
                == FlowView::Consumed
            &&& error is None && !last ==> on.wizard.idx == wizard.idx + 1
                && on.wizard.error is None && on.flow == FlowView::Consumed
            &&& error is None && last ==> on.wizard.idx == wizard.idx && on.flow == if wizard.submit {
                FlowView::Event(EventView::Submit)
            } else {
                FlowView::Consumed
            }
            &&& wizard.keyed(Key::Space, error) == wizard.keyed(Key::Enter, error)
            &&& wizard.keyed(Key::Left, error).wizard.idx == wizard.idx
            &&& wizard.keyed(Key::Right, error).wizard.idx == wizard.idx
        }),
{
}

/// A press on the right end of a wizard's buttons does what its keys on the
/// button that leads on do, one on the left end what they do on the other; a
/// press on the chip of a step that is done leads there.
pub proof fn wizard_presses_do_what_keys_do(
    wizard: WizardView,
    error: Option<Seq<char>>,
    target: u16,
)
    requires
        wizard.rect is Some,
        wizard.rect->0.width > 9,
        wizard.rect->0.x + wizard.rect->0.width <= 65535,
    ensures
        ({
            let rect = wizard.rect->0;
            let left = wizard.pointed(Mouse::Click, HitTag::Press, rect.x, error);
            let right = wizard.pointed(
                Mouse::Click,
                HitTag::Press,
                (rect.x + rect.width - 1) as u16,
                error,
            );
            let chip = wizard.pointed(Mouse::Click, HitTag::Chip(target), 0, error);
            &&& left == wizard.keyed(Key::Left, error).wizard.keyed(Key::Enter, error)
            &&& right == wizard.keyed(Key::Right, error).wizard.keyed(Key::Enter, error)
            &&& target < wizard.idx ==> chip.wizard.idx == target && chip.wizard.error is None
            &&& target >= wizard.idx ==> chip.wizard == wizard
        }),
{
}

/// Whether a cell of a row shows its content alone.
pub open spec fn single(cell: CellView) -> bool {
    !(cell.content is Continuation) && (cell.content is Grapheme ==> cell.content->width <= 1)
}

/// The pieces of a row of single cells are one for each cell, in order: its
/// text in its style, a space where it is blank, or its part of an image.
pub proof fn pieces_are_the_cells(cells: Seq<CellView>, x: int, end: int)
    requires
        0 <= x <= end <= cells.len(),
        forall|i: int| x <= i < end ==> #[trigger] single(cells[i]),
    ensures
        pieces_from(cells, x, end).len() == end - x,
        forall|i: int|
            #![trigger pieces_from(cells, x, end)[i]]
            0 <= i < end - x ==> {
                let piece = pieces_from(cells, x, end)[i];
                let cell = cells[x + i];
                &&& cell.content is Blank ==> piece == PieceView::Text(seq![' '], cell.style)
                &&& cell.content is Grapheme ==> piece == PieceView::Text(
                    cell.content->text,
                    cell.style,
                )
                &&& cell.content is Image ==> piece is Image
            },
    decreases end - x,
{
    if x < end {
        assert(single(cells[x]));
        pieces_are_the_cells(cells, x + 1, end);
        let rest = pieces_from(cells, x + 1, end);
        let all = pieces_from(cells, x, end);
        assert(all.len() == rest.len() + 1);
        assert forall|i: int|
            #![trigger pieces_from(cells, x, end)[i]]
            0 <= i < end - x implies {
            let piece = all[i];
            let cell = cells[x + i];
            &&& cell.content is Blank ==> piece == PieceView::Text(seq![' '], cell.style)
            &&& cell.content is Grapheme ==> piece == PieceView::Text(
                cell.content->text,
                cell.style,
            )
            &&& cell.content is Image ==> piece is Image
        } by {
            if i > 0 {
                assert(all[i] == rest[i - 1]);
                assert(x + i == (x + 1) + (i - 1));
            }
        }
    }
}

} // verus!
