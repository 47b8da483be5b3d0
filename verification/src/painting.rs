//! What holds of painting, said cell by cell: what text, fills, washes and
//! copies leave in a frame.

use vstd::prelude::*;

use crate::cell::Shown;
use crate::color::Color;
use crate::frame::FrameView;
use crate::geometry::Rect;
use crate::row::{glyph_run, head, head_facts, span};
use crate::style::Style;
use crate::text::{
    all_ascii, cells, has_control, plain_text_is_drawn_whole, stops_line, ClusterView,
};

verus! {

/// The cells of a run hold its glyphs.
proof fn runs_hold_their_glyphs(glyphs: Seq<ClusterView>, style: Style, k: int)
    requires
        0 <= k < glyphs.len(),
        forall|i: int| 0 <= i < glyphs.len() ==> (#[trigger] glyphs[i]).width > 0,
    ensures
        glyph_run(glyphs, style).len() == cells(glyphs),
        cells(glyphs.take(k)) + glyphs[k].width <= cells(glyphs),
        ({
            let at = cells(glyphs.take(k)) as int;
            let cell = glyph_run(glyphs, style)[at];
            &&& cell.style == style
            &&& cell.content == if glyphs[k].width == 1 && glyphs[k].text == seq![' '] {
                Shown::Blank
            } else {
                Shown::Grapheme { text: glyphs[k].text, width: glyphs[k].width }
            }
            &&& forall|i: int|
                #![trigger glyph_run(glyphs, style)[i]]
                at < i < at + glyphs[k].width ==> glyph_run(glyphs, style)[i].content
                    is Continuation && glyph_run(glyphs, style)[i].style == style
        }),
    decreases glyphs.len(),
{
    let front = glyphs.drop_last();
    let width = glyphs.last().width;
    assert forall|i: int| 0 <= i < front.len() implies (#[trigger] front[i]).width > 0 by {
        assert(front[i] == glyphs[i]);
    }
    if k < front.len() {
        runs_hold_their_glyphs(front, style, k);
        assert(glyphs.take(k) =~= front.take(k));
        let at = cells(glyphs.take(k)) as int;
        assert(front[k] == glyphs[k]);
        assert forall|i: int|
            #![trigger glyph_run(glyphs, style)[i]]
            0 <= i < glyph_run(front, style).len() implies glyph_run(glyphs, style)[i] == glyph_run(
            front,
            style,
        )[i] by {}
    } else {
        assert(glyphs.take(k) =~= front);
        if front.len() > 0 {
            runs_hold_their_glyphs(front, style, front.len() - 1);
        } else {
            assert(glyph_run(front, style).len() == 0);
        }
        assert(glyphs.last() == glyphs[k]);
    }
}

/// Plain text that fits shows from its column on, each cluster over as many
/// cells as it is wide, in the style given.
pub proof fn text_shows_where_it_is_put(
    frame: FrameView,
    x: u16,
    y: u16,
    text: Seq<ClusterView>,
    style: Style,
    k: int,
)
    requires
        frame.wf(),
        y < frame.height(),
        x + cells(text) <= frame.width,
        forall|i: int|
            0 <= i < text.len() ==> (#[trigger] text[i]).width > 0 && !has_control(text[i].text)
                && !stops_line(text[i].text, all_ascii(text)),
        0 <= k < text.len(),
    ensures
        ({
            let row = frame.put(x, y, text, style).rows[y as int];
            let at = x + cells(text.take(k));
            &&& at + text[k].width <= frame.width
            &&& row[at].style == style
            &&& row[at].content == if text[k].width == 1 && text[k].text == seq![' '] {
                Shown::Blank
            } else {
                Shown::Grapheme { text: text[k].text, width: text[k].width }
            }
            &&& forall|i: int|
                #![trigger row[i]]
                at < i < at + text[k].width ==> row[i].content is Continuation && row[i].style
                    == style
            &&& frame.end(x, y, text) == x + cells(text)
        }),
{
    let room = frame.width - x;
    plain_text_is_drawn_whole(text, room, all_ascii(text));
    runs_hold_their_glyphs(text, style, k);
    assert(frame.rows[y as int].len() == frame.width);
    let row = frame.put(x, y, text, style).rows[y as int];
    let run = glyph_run(text, style);
    assert forall|i: int| #![trigger row[i]] x <= i < x + run.len() implies row[i] == run[i - x] by {}
}

/// Text changes no cell outside its own, but for what is left of glyphs that
/// it cuts: that turns blank.
pub proof fn text_leaves_other_cells(
    frame: FrameView,
    x: u16,
    y: u16,
    text: Seq<ClusterView>,
    style: Style,
    i: int,
)
    requires
        frame.wf(),
        y < frame.height(),
        x + cells(text) <= frame.width,
        forall|i: int|
            0 <= i < text.len() ==> (#[trigger] text[i]).width > 0 && !has_control(text[i].text)
                && !stops_line(text[i].text, all_ascii(text)),
        0 <= i < frame.width,
        i < x || i >= x + cells(text),
    ensures
        ({
            let before = frame.rows[y as int];
            let row = frame.put(x, y, text, style).rows[y as int];
            let owner = head(before, i);
            &&& row[i].style == before[i].style
            &&& owner + span(before[owner]) <= x || owner >= x + cells(text) ==> row[i]
                == before[i]
            &&& row[i] == before[i] || row[i].content is Blank
        }),
{
    let room = frame.width - x;
    plain_text_is_drawn_whole(text, room, all_ascii(text));
    if text.len() > 0 {
        runs_hold_their_glyphs(text, style, 0);
    }
    assert(frame.rows[y as int].len() == frame.width);
}

/// A fill blanks every cell of its area, in its style, and no other: outside,
/// only what is left of glyphs it cuts turns blank. The rows it takes, and the
/// one above, wrap no more.
pub proof fn fills_blank_their_area(frame: FrameView, rect: Rect, style: Style, x: int, y: int)
    requires
        frame.wf(),
        0 <= x < frame.width,
        0 <= y < frame.height(),
    ensures
        ({
            let after = frame.filled(rect, style);
            let in_rows = rect.y <= y < rect.y + rect.height;
            let in_columns = rect.x <= x < rect.x + rect.width;
            let before = frame.rows[y][x];
            let owner = head(frame.rows[y], x);
            &&& in_rows && in_columns ==> after.rows[y][x].content is Blank
                && after.rows[y][x].style == style
            &&& !in_rows ==> after.rows[y] == frame.rows[y]
            &&& in_rows && !in_columns ==> after.rows[y][x].style == before.style && (
            after.rows[y][x] == before || after.rows[y][x].content is Blank)
            &&& !in_columns && (owner + span(frame.rows[y][owner]) <= rect.x || owner >= rect.x
                + rect.width) ==> after.rows[y][x] == before
            &&& in_rows && rect.width > 0 && rect.x < frame.width ==> !after.wraps(y)
            &&& in_rows && rect.width > 0 && rect.x < frame.width && y > 0 ==> !after.wraps(y - 1)
        }),
{
    assert(frame.rows[y].len() == frame.width);
    head_facts(frame.rows[y], x);
}

/// A wash gives its color to every cell of its area that has no background of
/// its own, and changes nothing else.
pub proof fn washes_color_what_has_no_background(
    frame: FrameView,
    rect: Rect,
    color: Color,
    x: int,
    y: int,
)
    requires
        frame.wf(),
        0 <= x < frame.width,
        0 <= y < frame.height(),
    ensures
        ({
            let after = frame.underlaid(rect, color).rows[y][x];
            let before = frame.rows[y][x];
            let taken = rect.y <= y < rect.y + rect.height && rect.x <= x < rect.x + rect.width
                && before.style.background == Color::Default;
            &&& after.content == before.content
            &&& taken ==> after.style == (Style { background: color, ..before.style })
            &&& !taken ==> after == before
        }),
{
    assert(frame.rows[y].len() == frame.width);
}

/// A copy shows what the source shows: every cell that lands in the frame
/// shows what its source cell does, but for glyphs cut off at the right edge;
/// rows beside the copy stay as they are.
pub proof fn copies_show_the_source(
    frame: FrameView,
    src: FrameView,
    src_top: u16,
    rows: u16,
    dst_x: u16,
    dst_y: u16,
    x: int,
    y: int,
)
    requires
        frame.wf(),
        src.wf(),
        0 <= x < src.width,
        0 <= y < rows,
        src_top + y < src.height(),
        dst_x + x < frame.width,
        dst_y + y < frame.height(),
    ensures
        ({
            let from = src.rows[src_top + y];
            let owner = head(from, x);
            let after = frame.blitted(src, src_top, rows, dst_x, dst_y).rows[dst_y + y][dst_x + x];
            &&& from[x].content is Image ==> after.content == from[x].content
            &&& dst_x + owner + span(from[owner]) <= frame.width ==> after.content
                == from[x].content && (!(from[x].content is Image) ==> after.style
                == from[owner].style)
            &&& dst_x + owner + span(from[owner]) > frame.width && !(from[x].content is Image)
                ==> after.content is Blank
        }),
{
    let from = src.rows[src_top + y];
    assert(from.len() == src.width);
    assert(frame.rows[dst_y + y].len() == frame.width);
    head_facts(from, x);
}

/// Copying leaves the rows beside it alone, and takes the cursor along where it
/// lands in the frame.
pub proof fn copies_leave_other_rows(
    frame: FrameView,
    src: FrameView,
    src_top: u16,
    rows: u16,
    dst_x: u16,
    dst_y: u16,
    y: int,
)
    requires
        frame.wf(),
        src.wf(),
        0 <= y < frame.height(),
    ensures
        ({
            let after = frame.blitted(src, src_top, rows, dst_x, dst_y);
            &&& after.rows.len() == frame.rows.len()
            &&& y < dst_y || y >= dst_y + rows || y - dst_y + src_top >= src.height() ==> after.rows[y]
                == frame.rows[y]
            &&& src.cursor matches Some((cx, cy)) ==> {
                let lands = cx < src.width && src_top <= cy && cy < src_top + rows && src_top
                    + rows <= 65535 && dst_x + cx < frame.width && dst_y + cy - src_top
                    < frame.height();
                lands ==> after.cursor == Some(
                    ((dst_x + cx) as u16, (dst_y + cy - src_top) as u16),
                )
            }
            &&& src.cursor is None ==> after.cursor == frame.cursor
        }),
{
}

} // verus!
