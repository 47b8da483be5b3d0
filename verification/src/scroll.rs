//! A window onto content taller than itself.

use vstd::prelude::*;

use crate::charset::Charset;
use crate::context::UiContext;
use crate::events::{Flow, FlowView, Hit, HitTag, Slot};
use crate::frame::{Frame, FrameView};
use crate::geometry::{larger, max16, min16, sat_add, sat_sub, smaller, Rect};
use crate::input::{Key, Mouse};
use crate::status::{sat_mul, times};
use crate::style::{plain, Style};
use crate::text::{ascii_clusters, Text};
use crate::theme::Theme;

verus! {

/// A vertically scrollable child stack.
pub struct Scroll {
    /// The region.
    pub slot: Slot,
    /// First content row shown.
    pub off: u16,
    /// Rows of the content.
    pub content_h: u16,
}

/// Rows of the thumb on a track: the share of the content that shows.
pub open spec fn thumb_height(track: u16, content_h: u16) -> u16 {
    max16((sat_mul(track, track) / content_h) as u16, 1)
}

/// First row of the thumb.
pub open spec fn thumb_top(track: u16, content_h: u16, off: u16) -> u16 {
    (sat_mul(sat_sub(track, thumb_height(track, content_h)), off) / sat_sub(content_h, track)) as u16
}

/// The offset that centers the thumb on a track row.
pub open spec fn grabbed(track: u16, content_h: u16, row: u16) -> int {
    let thumb = thumb_height(track, content_h);
    let span = sat_sub(track, thumb);
    let grab = min16(sat_sub(min16(row, sat_sub(track, 1)), thumb / 2), span);
    (grab * sat_sub(content_h, track) + span / 2) / (span as int)
}

/// Where an area ends up: moved into the viewport's coordinates, `off` rows up,
/// and cut to its visible rows. Nothing where nothing of it shows.
pub open spec fn moved_area(area: Rect, viewport: Rect, off: u16, rows: u16) -> Option<Rect> {
    let x = viewport.x + area.x;
    let y = viewport.y + area.y - off;
    let left = if x > viewport.x {
        x
    } else {
        viewport.x as int
    };
    let top = if y > viewport.y {
        y
    } else {
        viewport.y as int
    };
    let right = if x + area.width < viewport.x + viewport.width {
        x + area.width
    } else {
        viewport.x + viewport.width
    };
    let bottom = if y + area.height < viewport.y + rows {
        y + area.height
    } else {
        viewport.y + rows
    };
    if left >= right || top >= bottom {
        None
    } else {
        Some(
            Rect {
                x: left as u16,
                y: top as u16,
                width: (right - left) as u16,
                height: (bottom - top) as u16,
            },
        )
    }
}

/// Whether a viewport lies within the coordinates.
pub open spec fn on_screen(viewport: Rect, rows: u16) -> bool {
    viewport.x + viewport.width <= 65536 && viewport.y + rows <= 65536
}

/// The areas of the first `count` children that show, moved.
pub open spec fn moved_hits(
    hits: Seq<Hit>,
    viewport: Rect,
    off: u16,
    rows: u16,
    count: int,
) -> Seq<Hit>
    decreases count,
{
    if count <= 0 {
        Seq::empty()
    } else {
        let earlier = moved_hits(hits, viewport, off, rows, count - 1);
        match moved_area(hits[count - 1].rect, viewport, off, rows) {
            Some(rect) => earlier.push(Hit { rect, ..hits[count - 1] }),
            None => earlier,
        }
    }
}

/// Moves an area into the viewport.
pub fn translated_intersection(area: Rect, viewport: Rect, off: u16, rows: u16) -> (moved: Option<
    Rect,
>)
    requires
        on_screen(viewport, rows),
    ensures
        moved == moved_area(area, viewport, off, rows),
{
    let x: i32 = viewport.x as i32 + area.x as i32;
    let y: i32 = viewport.y as i32 + area.y as i32 - off as i32;
    let left: i32 = if x > viewport.x as i32 {
        x
    } else {
        viewport.x as i32
    };
    let top: i32 = if y > viewport.y as i32 {
        y
    } else {
        viewport.y as i32
    };
    let edge: i32 = viewport.x as i32 + viewport.width as i32;
    let floor: i32 = viewport.y as i32 + rows as i32;
    let right: i32 = if x + (area.width as i32) < edge {
        x + area.width as i32
    } else {
        edge
    };
    let bottom: i32 = if y + (area.height as i32) < floor {
        y + area.height as i32
    } else {
        floor
    };
    if left >= right || top >= bottom {
        return None;
    }
    Some(
        Rect::new(left as u16, top as u16, (right - left) as u16, (bottom - top) as u16),
    )
}

/// Appends the areas of children, moved into the viewport.
pub fn translate_hits(hits: &mut Vec<Hit>, child_hits: &Vec<Hit>, viewport: Rect, off: u16, rows: u16)
    requires
        on_screen(viewport, rows),
    ensures
        final(hits)@ == old(hits)@ + moved_hits(
            child_hits@,
            viewport,
            off,
            rows,
            child_hits@.len() as int,
        ),
{
    let ghost before = hits@;
    let mut at: usize = 0;
    assert(before + moved_hits(child_hits@, viewport, off, rows, 0) =~= before);
    while at < child_hits.len()
        invariant
            at <= child_hits@.len(),
            on_screen(viewport, rows),
            hits@ == before + moved_hits(child_hits@, viewport, off, rows, at as int),
        decreases child_hits.len() - at,
    {
        let hit: Hit = child_hits[at];
        if let Some(rect) = translated_intersection(hit.rect, viewport, off, rows) {
            hits.push(Hit { rect, slot: hit.slot, tag: hit.tag });
        }
        at += 1;
        assert(hits@ =~= before + moved_hits(child_hits@, viewport, off, rows, at as int));
    }
}

/// The row one `delta` further, within what can be scrolled.
pub open spec fn scrolled(off: u16, delta: int, content_h: u16, view_rows: u16) -> u16 {
    let last = sat_sub(content_h, view_rows);
    if off + delta < 0 {
        0
    } else if off + delta > last {
        last
    } else {
        (off + delta) as u16
    }
}

/// The offset that shows an area of the content, moved only as far as needed.
pub open spec fn chased(off: u16, area: Rect, content_h: u16, view_rows: u16) -> u16 {
    let bottom = sat_add(area.y, area.height);
    let target = if area.y < off {
        area.y
    } else if bottom > sat_add(off, view_rows) {
        sat_sub(bottom, view_rows)
    } else {
        off
    };
    min16(target, sat_sub(content_h, view_rows))
}

/// How far a key scrolls.
pub open spec fn key_delta(key: Key, view_rows: u16, content_h: u16) -> Option<int> {
    let half = if view_rows / 2 > 1 {
        (view_rows / 2) as int
    } else {
        1
    };
    match key {
        Key::Up => Some(-1),
        Key::Down => Some(1),
        Key::PageUp => Some(-view_rows),
        Key::PageDown => Some(view_rows as int),
        Key::Home => Some(-content_h),
        Key::End => Some(content_h as int),
        Key::Ctrl(c) => if c == 'u' {
            Some(-half)
        } else if c == 'd' {
            Some(half)
        } else {
            None
        },
        _ => None,
    }
}

/// Glyph and style of a scrollbar row.
pub open spec fn bar_cell(
    theme: Theme,
    charset: Charset,
    track: u16,
    content_h: u16,
    off: u16,
    row: int,
) -> (Seq<char>, Style) {
    let top = thumb_top(track, content_h, off);
    let thumb = thumb_height(track, content_h);
    let (trough, knob) = match charset {
        Charset::Ascii => ("|"@, "#"@),
        _ => ("│"@, "█"@),
    };
    if top <= row && row < sat_add(top, thumb) {
        (knob, Style { foreground: theme.accent, ..plain() })
    } else {
        (trough, Style { foreground: theme.muted, ..plain() })
    }
}

/// The frame with the first `count` rows of a scrollbar.
pub open spec fn bar_painted(
    frame: FrameView,
    theme: Theme,
    charset: Charset,
    rect: Rect,
    content_h: u16,
    off: u16,
    count: int,
) -> FrameView
    decreases count,
{
    if count <= 0 {
        frame
    } else {
        let (glyph, style) = bar_cell(theme, charset, rect.height, content_h, off, count - 1);
        bar_painted(frame, theme, charset, rect, content_h, off, count - 1).put(
            sat_add(rect.x, sat_sub(rect.width, 1)),
            sat_add(rect.y, (count - 1) as u16),
            ascii_clusters(glyph),
            style,
        )
    }
}

/// Rows of a stack of children.
pub open spec fn stacked(heights: Seq<u16>, count: int) -> u16
    decreases count,
{
    if count <= 0 {
        0
    } else {
        sat_add(stacked(heights, count - 1), heights[count - 1])
    }
}

impl Scroll {
    /// Creates an empty scrolling region.
    pub fn new(slot: Slot) -> (scroll: Self)
        ensures
            scroll == (Scroll { slot, off: 0, content_h: 0 }),
    {
        Scroll { slot, off: 0, content_h: 0 }
    }

    /// Moves the window to an area of the content, only as far as needed;
    /// whether it moved.
    pub fn chase(&mut self, area: Rect, view_rows: u16) -> (moved: bool)
        ensures
            *final(self) == (Scroll {
                off: chased(old(self).off, area, old(self).content_h, view_rows),
                ..*old(self)
            }),
            moved == (final(self).off != old(self).off),
    {
        let previous: u16 = self.off;
        let bottom: u16 = area.y.saturating_add(area.height);
        let target: u16 = if area.y < previous {
            area.y
        } else if bottom > previous.saturating_add(view_rows) {
            bottom.saturating_sub(view_rows)
        } else {
            previous
        };
        self.off = smaller(target, self.content_h.saturating_sub(view_rows));
        self.off != previous
    }

    /// Scrolls; whether the window moved.
    pub fn scroll_by(&mut self, delta: i32, view_rows: u16) -> (moved: bool)
        ensures
            *final(self) == (Scroll {
                off: scrolled(old(self).off, delta as int, old(self).content_h, view_rows),
                ..*old(self)
            }),
            moved == (final(self).off != old(self).off),
    {
        let last: i64 = self.content_h.saturating_sub(view_rows) as i64;
        let aim: i64 = self.off as i64 + delta as i64;
        let next: u16 = if aim < 0 {
            0
        } else if aim > last {
            last as u16
        } else {
            aim as u16
        };
        let moved: bool = next != self.off;
        self.off = next;
        moved
    }

    /// Least and natural width around children of the given widths: a column is
    /// kept for the bar.
    pub fn measure(&self, least: u16, natural: u16) -> (widths: (u16, u16))
        ensures
            widths == (sat_add(least, 1), sat_add(natural, 1)),
    {
        (least.saturating_add(1), natural.saturating_add(1))
    }

    /// Rows that the region asks for, whatever it holds.
    pub fn height(&self) -> (rows: u16)
        ensures
            rows == 8,
    {
        8
    }

    /// Stacks children of the given heights; their areas in content coordinates.
    pub fn place(&mut self, heights: &Vec<u16>, area: Rect) -> (children: Vec<Rect>)
        ensures
            children@.len() == heights@.len(),
            forall|i: int|
                0 <= i < heights@.len() ==> (#[trigger] children@[i]) == (Rect {
                    x: 0,
                    y: stacked(heights@, i),
                    width: max16(sat_sub(area.width, 1), 1),
                    height: heights@[i],
                }),
            final(self).slot == old(self).slot,
            final(self).content_h == stacked(heights@, heights@.len() as int),
            final(self).off == min16(
                old(self).off,
                sat_sub(final(self).content_h, area.height),
            ),
    {
        let inner: u16 = larger(area.width.saturating_sub(1), 1);
        let mut children: Vec<Rect> = Vec::new();
        let mut y: u16 = 0;
        let mut at: usize = 0;
        while at < heights.len()
            invariant
                at <= heights@.len(),
                inner == max16(sat_sub(area.width, 1), 1),
                y == stacked(heights@, at as int),
                children@.len() == at,
                forall|i: int|
                    0 <= i < at ==> (#[trigger] children@[i]) == (Rect {
                        x: 0,
                        y: stacked(heights@, i),
                        width: inner,
                        height: heights@[i],
                    }),
            decreases heights.len() - at,
        {
            children.push(Rect::new(0, y, inner, heights[at]));
            y = y.saturating_add(heights[at]);
            at += 1;
        }
        self.content_h = y;
        self.off = smaller(self.off, y.saturating_sub(area.height));
        children
    }

    /// Where the pointer is in the content; nowhere outside the window.
    pub fn nested_pointer(&self, pointer: Option<(u16, u16)>, rect: Rect, clip: u16) -> (nested:
        Option<(u16, u16)>)
        ensures
            nested == (match pointer {
                Some((x, y)) => if rect.x <= x && rect.y <= y && x - rect.x < max16(
                    sat_sub(rect.width, 1),
                    1,
                ) && y - rect.y < min16(rect.height, sat_sub(clip, rect.y)) {
                    Some(((x - rect.x) as u16, sat_add((y - rect.y) as u16, self.off)))
                } else {
                    None
                },
                None => None,
            }),
    {
        let inner: u16 = larger(rect.width.saturating_sub(1), 1);
        let rows: u16 = smaller(rect.height, clip.saturating_sub(rect.y));
        match pointer {
            Some((x, y)) => {
                if x < rect.x || y < rect.y {
                    return None;
                }
                let column: u16 = x - rect.x;
                let row: u16 = y - rect.y;
                if column < inner && row < rows {
                    Some((column, row.saturating_add(self.off)))
                } else {
                    None
                }
            },
            None => None,
        }
    }

    /// Paints the window onto `scratch`, the painted content, with the areas of
    /// the children in it, and the scrollbar of content that does not fit.
    pub fn paint(
        &self,
        frame: &mut Frame,
        hits: &mut Vec<Hit>,
        scratch: &Frame,
        child_hits: &Vec<Hit>,
        ctx: &UiContext,
        rect: Rect,
        clip: u16,
    )
        requires
            old(frame).wf(),
            scratch.wf(),
            on_screen(rect, rect.height),
        ensures
            final(frame).wf(),
            final(frame).source() == old(frame).source(),
            ({
                let rows = min16(rect.height, sat_sub(clip, rect.y));
                let shown = old(frame)@.blitted(scratch@, self.off, rows, rect.x, rect.y);
                let areas = old(hits)@.push(
                    Hit { rect, slot: self.slot, tag: HitTag::Wheel },
                ) + moved_hits(
                    child_hits@,
                    rect,
                    self.off,
                    rows,
                    child_hits@.len() as int,
                );
                if rect.width == 0 || self.content_h <= rect.height {
                    final(frame)@ == shown && final(hits)@ == areas
                } else {
                    final(frame)@ == bar_painted(
                        shown,
                        ctx.theme,
                        ctx.charset,
                        rect,
                        self.content_h,
                        self.off,
                        rows as int,
                    ) && final(hits)@ == areas.push(
                        Hit {
                            rect: Rect {
                                x: sat_add(rect.x, sat_sub(rect.width, 1)),
                                y: rect.y,
                                width: 1,
                                height: rows,
                            },
                            slot: self.slot,
                            tag: HitTag::Scrollbar,
                        },
                    )
                }
            }),
    {
        let rows: u16 = smaller(rect.height, clip.saturating_sub(rect.y));
        hits.push(Hit { rect, slot: self.slot, tag: HitTag::Wheel });
        frame.blit(scratch, self.off, rows, rect.x, rect.y);
        translate_hits(hits, child_hits, rect, self.off, rows);
        if rect.width == 0 || self.content_h <= rect.height {
            return;
        }
        let ghost shown = frame@;
        let bar_x: u16 = rect.x.saturating_add(rect.width - 1);
        let track: u16 = rect.height;
        let thumb: u16 = larger(times(track, track) / self.content_h, 1);
        let top: u16 = times(track.saturating_sub(thumb), self.off) / (self.content_h - track);
        let (trough, knob) = ctx.charset.scrollbar();
        let mut row: u16 = 0;
        while row < rows
            invariant
                row <= rows,
                track == rect.height,
                rect.width > 0,
                bar_x == sat_add(rect.x, sat_sub(rect.width, 1)),
                thumb == thumb_height(track, self.content_h),
                top == thumb_top(track, self.content_h, self.off),
                (trough@, knob@) == (match ctx.charset {
                    Charset::Ascii => ("|"@, "#"@),
                    _ => ("│"@, "█"@),
                }),
                frame.wf(),
                frame.source() == old(frame).source(),
                frame@ == bar_painted(
                    shown,
                    ctx.theme,
                    ctx.charset,
                    rect,
                    self.content_h,
                    self.off,
                    row as int,
                ),
            decreases rows - row,
        {
            let on_thumb: bool = row >= top && row < top.saturating_add(thumb);
            let glyph: &'static str = if on_thumb {
                knob
            } else {
                trough
            };
            let style: Style = if on_thumb {
                Style::new().fg(ctx.theme.accent)
            } else {
                Style::new().fg(ctx.theme.muted)
            };
            frame.put(bar_x, rect.y.saturating_add(row), &Text::cells_of(glyph), style);
            row += 1;
        }
        hits.push(
            Hit {
                rect: Rect::new(bar_x, rect.y, 1, rows),
                slot: self.slot,
                tag: HitTag::Scrollbar,
            },
        );
    }

    /// Handles one key in a window of `view_rows` rows. Steps past an edge
    /// bubble on; jumps do not.
    pub fn key(&mut self, key: Key, view_rows: u16) -> (flow: Flow)
        ensures
            match key_delta(key, view_rows, old(self).content_h) {
                Some(delta) => {
                    &&& *final(self) == (Scroll {
                        off: scrolled(old(self).off, delta, old(self).content_h, view_rows),
                        ..*old(self)
                    })
                    &&& flow@ == (if final(self).off == old(self).off && (key is Up || key is Down) {
                        FlowView::Skip
                    } else {
                        FlowView::Consumed
                    })
                },
                None => *final(self) == *old(self) && flow@ == FlowView::Skip,
            },
    {
        let half: i32 = if view_rows / 2 > 1 {
            (view_rows / 2) as i32
        } else {
            1
        };
        let delta: i32 = match key {
            Key::Up => -1,
            Key::Down => 1,
            Key::PageUp => -(view_rows as i32),
            Key::PageDown => view_rows as i32,
            Key::Home => -(self.content_h as i32),
            Key::End => self.content_h as i32,
            Key::Ctrl('u') => -half,
            Key::Ctrl('d') => half,
            _ => {
                return Flow::Skip;
            },
        };
        let moved: bool = self.scroll_by(delta, view_rows);
        let step: bool = match key {
            Key::Up | Key::Down => true,
            _ => false,
        };
        if !moved && step {
            Flow::Skip
        } else {
            Flow::Consumed
        }
    }

    /// Centers the thumb on the pointer row.
    fn grab(&mut self, row: u16, rect: Rect)
        ensures
            *final(self) == (if rect.height == 0 || old(self).content_h <= rect.height || thumb_height(
                rect.height,
                old(self).content_h,
            ) >= rect.height {
                *old(self)
            } else {
                Scroll {
                    off: grabbed(
                        rect.height,
                        old(self).content_h,
                        sat_sub(row, rect.y),
                    ) as u16,
                    ..*old(self)
                }
            }),
    {
        let track: u16 = rect.height;
        let content_h: u16 = self.content_h;
        if track == 0 || content_h <= track {
            return;
        }
        let thumb: u16 = larger(times(track, track) / content_h, 1);
        if thumb >= track {
            return;
        }
        let span: u16 = track - thumb;
        let at: u16 = smaller(row.saturating_sub(rect.y), track - 1);
        let grab: u16 = smaller(at.saturating_sub(thumb / 2), span);
        let range: u16 = content_h - track;
        proof {
            grabs_stay_in_range(grab as int, range as int, span as int);
            assert(grab * range <= 65535 * 65535) by (nonlinear_arith)
                requires
                    grab <= 65535,
                    range <= 65535,
            ;
        }
        let target: u32 = (grab as u32 * range as u32 + (span / 2) as u32) / span as u32;
        self.off = target as u16;
    }

    /// Handles a pointer action in a window of `view_rows` rows.
    pub fn mouse(&mut self, mouse: Mouse, tag: HitTag, row: u16, rect: Rect, view_rows: u16) -> (flow:
        Flow)
        ensures
            match (tag, mouse) {
                (HitTag::Scrollbar, Mouse::Click) | (HitTag::Scrollbar, Mouse::Drag) => {
                    &&& flow@ == FlowView::Consumed
                    &&& *final(self) == (if rect.height == 0 || old(self).content_h <= rect.height
                        || thumb_height(rect.height, old(self).content_h) >= rect.height {
                        *old(self)
                    } else {
                        Scroll {
                            off: grabbed(
                                rect.height,
                                old(self).content_h,
                                sat_sub(row, rect.y),
                            ) as u16,
                            ..*old(self)
                        }
                    })
                },
                (HitTag::Scrollbar, Mouse::RightClick)
                | (HitTag::Scrollbar, Mouse::MiddleClick)
                | (HitTag::Scrollbar, Mouse::Release)
                | (HitTag::Wheel, Mouse::WheelLeft)
                | (HitTag::Wheel, Mouse::WheelRight) => flow@ == FlowView::Consumed && *final(self)
                    == *old(self),
                (HitTag::Wheel, Mouse::WheelUp) | (HitTag::Wheel, Mouse::WheelDown) => {
                    &&& *final(self) == (Scroll {
                        off: scrolled(
                            old(self).off,
                            if mouse is WheelUp {
                                -1
                            } else {
                                1
                            },
                            old(self).content_h,
                            view_rows,
                        ),
                        ..*old(self)
                    })
                    &&& flow@ == (if final(self).off == old(self).off {
                        FlowView::Skip
                    } else {
                        FlowView::Consumed
                    })
                },
                _ => flow@ == FlowView::Skip && *final(self) == *old(self),
            },
    {
        match tag {
            HitTag::Scrollbar => match mouse {
                Mouse::Click | Mouse::Drag => {
                    self.grab(row, rect);
                    Flow::Consumed
                },
                Mouse::RightClick | Mouse::MiddleClick | Mouse::Release => Flow::Consumed,
                _ => Flow::Skip,
            },
            HitTag::Wheel => match mouse {
                Mouse::WheelUp => {
                    if self.scroll_by(-1, view_rows) {
                        Flow::Consumed
                    } else {
                        Flow::Skip
                    }
                },
                Mouse::WheelDown => {
                    if self.scroll_by(1, view_rows) {
                        Flow::Consumed
                    } else {
                        Flow::Skip
                    }
                },
                Mouse::WheelLeft | Mouse::WheelRight => Flow::Consumed,
                _ => Flow::Skip,
            },
            _ => Flow::Skip,
        }
    }
}

/// A grab within the span stays within the range.
proof fn grabs_stay_in_range(grab: int, range: int, span: int)
    requires
        0 <= grab <= span,
        0 <= range,
        0 < span,
    ensures
        0 <= (grab * range + span / 2) / span <= range,
        grab == span ==> (grab * range + span / 2) / span == range,
        grab == 0 ==> (grab * range + span / 2) / span == 0,
{
    let half = span / 2;
    assert(0 <= half < span);
    assert(0 <= grab * range <= span * range) by (nonlinear_arith)
        requires
            0 <= grab <= span,
            0 <= range,
    ;
    let sum = grab * range + half;
    assert(sum < span * (range + 1)) by (nonlinear_arith)
        requires
            grab * range <= span * range,
            half < span,
            sum == grab * range + half,
    ;
    assert(sum / span < range + 1) by (nonlinear_arith)
        requires
            0 <= sum < span * (range + 1),
            span > 0,
    ;
    assert(sum / span >= 0) by (nonlinear_arith)
        requires
            0 <= sum,
            span > 0,
    ;
    if grab == span {
        assert(sum / span >= range) by (nonlinear_arith)
            requires
                sum == span * range + half,
                0 <= half,
                span > 0,
        ;
    }
    if grab == 0 {
        assert(grab * range == 0);
        assert(half / span == 0) by (nonlinear_arith)
            requires
                0 <= half < span,
        ;
    }
}

/// Grabbing the ends of the track shows the ends of the content, and no grab
/// leaves it.
pub proof fn the_track_spans_the_content(track: u16, content_h: u16, row: u16)
    requires
        0 < track < content_h,
        thumb_height(track, content_h) < track,
    ensures
        0 <= grabbed(track, content_h, row) <= content_h - track,
        grabbed(track, content_h, 0) == 0,
        grabbed(track, content_h, (track - 1) as u16) == content_h - track,
{
    let thumb = thumb_height(track, content_h);
    let span = (track - thumb) as int;
    let range = content_h - track;
    let at = min16(row, sat_sub(track, 1));
    let grab = min16(sat_sub(at, thumb / 2), sat_sub(track, thumb));
    grabs_stay_in_range(grab as int, range, span);
    grabs_stay_in_range(0, range, span);
    grabs_stay_in_range(span, range, span);
}

/// Scrolling never leaves the content.
pub proof fn scrolling_stays_inside(off: u16, delta: int, content_h: u16, view_rows: u16)
    ensures
        scrolled(off, delta, content_h, view_rows) <= sat_sub(content_h, view_rows),
{
}

/// A chased area that fits the window and lies in the content is shown whole,
/// and one that was shown already does not move the window.
pub proof fn chasing_shows_the_area(off: u16, area: Rect, content_h: u16, view_rows: u16)
    requires
        area.height <= view_rows,
        area.y + area.height <= content_h,
        off <= sat_sub(content_h, view_rows),
    ensures
        chased(off, area, content_h, view_rows) <= area.y,
        area.y + area.height <= chased(off, area, content_h, view_rows) + view_rows,
        off <= area.y && area.y + area.height <= off + view_rows ==> chased(
            off,
            area,
            content_h,
            view_rows,
        ) == off,
{
}

} // verus!
