//! Struck-through text whose strike can sweep in progressively. Times are in
//! nanoseconds of the shared clock.

use vstd::prelude::*;

use crate::frame::{Frame, FrameView};
use crate::geometry::{sat_add, sat_sub, Rect};
use crate::lines::line_text;
use crate::select::text_content;
use crate::strings::same_text;
use crate::style::Style;
use crate::text::{content, text_width, ClusterView, Text};

verus! {

/// Frames the text holds unstruck before the sweep starts.
pub const STRIKE_HOLD_FRAMES: u32 = 2;

/// Frames the strike takes to cross the whole text.
pub const STRIKE_REVEAL_FRAMES: u32 = 12;

/// Frames from the first paint until the text is fully struck.
pub const STRIKE_TOTAL_FRAMES: u32 = 14;

/// Graphemes struck at `frame` of the sweep: the share that the frames since
/// the hold are of all reveal frames, rounded up.
pub open spec fn struck_count(total: int, frame: int) -> int {
    if frame <= 2 {
        0
    } else {
        let step = if frame - 2 < 12 {
            frame - 2
        } else {
            12
        };
        (total * step + 11) / 12
    }
}

/// One line of struck-through text.
///
/// Without `reveal` the whole line is struck. With it, the strike sweeps across
/// the text on the shared clock over that time, split into
/// [`STRIKE_TOTAL_FRAMES`] frames. The sweep anchors at the first paint and asks
/// for a repaint at every frame boundary until settled.
pub struct Strike {
    /// The text.
    pub text: Text,
    /// Its style.
    pub style: Style,
    /// Time of the sweep.
    pub reveal: Option<u64>,
    /// Instant of the first paint, when a sweep is armed.
    pub anchor: Option<u64>,
}

/// One line of struck-through text.
pub struct StrikeView {
    /// The text.
    pub text: Seq<ClusterView>,
    /// Its style.
    pub style: Style,
    /// Time of the sweep.
    pub reveal: Option<u64>,
    /// Instant of the first paint.
    pub anchor: Option<u64>,
}

impl View for Strike {
    type V = StrikeView;

    open spec fn view(&self) -> StrikeView {
        StrikeView {
            text: self.text@,
            style: self.style,
            reveal: self.reveal,
            anchor: self.anchor,
        }
    }
}

impl StrikeView {
    /// The instant the sweep started, once painted at `now`.
    pub open spec fn start(self, now: u64) -> u64 {
        match self.anchor {
            Some(anchor) => anchor,
            None => now,
        }
    }

    /// The line painted at `now`.
    pub open spec fn anchored(self, now: u64) -> Self {
        StrikeView {
            anchor: if self.reveal is Some {
                Some(self.start(now))
            } else {
                None
            },
            ..self
        }
    }

    /// Frame of the sweep at `now`.
    pub open spec fn frame_at(self, now: u64) -> int {
        let interval = (self.reveal->0 / 14) as int;
        let elapsed = if now >= self.start(now) {
            now - self.start(now)
        } else {
            0
        };
        elapsed / interval
    }

    /// Whether a sweep is under way at `now`.
    pub open spec fn sweeping(self, now: u64) -> bool {
        self.reveal is Some && self.reveal->0 / 14 > 0 && self.frame_at(now) < 14
    }

    /// Clusters struck at `now`.
    pub open spec fn struck(self, now: u64) -> int {
        if self.sweeping(now) {
            struck_count(self.text.len() as int, self.frame_at(now))
        } else {
            self.text.len() as int
        }
    }

    /// The next frame boundary, held at the largest time.
    pub open spec fn wake(self, now: u64) -> Option<u64> {
        if self.sweeping(now) {
            let at = self.start(now) + (self.reveal->0 / 14) * (self.frame_at(now) + 1);
            Some(
                if at <= u64::MAX {
                    at as u64
                } else {
                    u64::MAX
                },
            )
        } else {
            None
        }
    }

    /// The frame with the line in `rect`: the struck part, and the rest behind
    /// it where there is room.
    pub open spec fn painted(self, frame: FrameView, rect: Rect, clip: u16, now: u64) -> FrameView {
        let struck = self.text.take(self.struck(now));
        let rest = self.text.skip(self.struck(now));
        let limit = sat_add(rect.x, rect.width);
        if rect.y >= clip || rect.width == 0 || rect.height == 0 {
            frame
        } else {
            let swept = frame.put_clipped(
                rect.x,
                rect.y,
                rect.width,
                struck,
                Style { strikethrough: true, ..self.style },
            );
            let column = frame.end_clipped(rect.x, rect.y, rect.width, struck);
            if content(rest).len() > 0 && column < limit {
                swept.put_clipped(column, rect.y, sat_sub(limit, column), rest, self.style)
            } else {
                swept
            }
        }
    }
}

impl Strike {
    /// Creates an empty struck line.
    pub fn new(style: Style, reveal: Option<u64>) -> (strike: Self)
        ensures
            strike@ == (StrikeView { text: Seq::empty(), style, reveal, anchor: None }),
    {
        Strike { text: Text::empty(), style, reveal, anchor: None }
    }

    /// Appends text content. `joined` is the whole text, measured anew: a
    /// cluster may reach across the seam.
    pub fn text(self, text: &str, joined: Text) -> (strike: Self)
        requires
            content(joined@) == content(self@.text) + text@,
        ensures
            strike@ == (StrikeView { text: joined@, ..self@ }),
    {
        let mut strike: Strike = self;
        strike.text = joined;
        strike
    }

    /// Graphemes struck at `frame` of the sweep.
    pub fn struck_at(total: usize, frame: u32) -> (count: usize)
        ensures
            count == struck_count(total as int, frame as int),
            count <= total,
    {
        if frame <= STRIKE_HOLD_FRAMES {
            return 0;
        }
        let step: u32 = if frame - STRIKE_HOLD_FRAMES < STRIKE_REVEAL_FRAMES {
            frame - STRIKE_HOLD_FRAMES
        } else {
            STRIKE_REVEAL_FRAMES
        };
        proof {
            assert(total * step <= total * 12) by (nonlinear_arith)
                requires
                    step <= 12,
                    total >= 0,
            ;
        }
        let share: u128 = (total as u128 * step as u128 + 11) / 12;
        share as usize
    }

    /// Advances the sweep; clusters struck at `now`, and the next frame boundary
    /// while the sweep is still running.
    fn sweep(&mut self, now: u64) -> (swept: (usize, Option<u64>))
        ensures
            final(self)@ == old(self)@.anchored(now),
            swept.0 == old(self)@.struck(now),
            swept.1 == old(self)@.wake(now),
            swept.0 <= old(self)@.text.len(),
    {
        let total: usize = self.text.clusters.len();
        match self.reveal {
            None => {
                self.anchor = None;
                (total, None)
            },
            Some(duration) => {
                let anchor: u64 = match self.anchor {
                    Some(start) => start,
                    None => now,
                };
                self.anchor = Some(anchor);
                let interval: u64 = duration / 14;
                if interval == 0 {
                    return (total, None);
                }
                let elapsed: u64 = now.saturating_sub(anchor);
                let frame: u64 = elapsed / interval;
                if frame >= 14 {
                    return (total, None);
                }
                let struck: usize = Self::struck_at(total, frame as u32);
                proof {
                    assert(interval * (frame + 1) <= interval * 14) by (nonlinear_arith)
                        requires
                            frame + 1 <= 14,
                            interval >= 0,
                    ;
                }
                let next: u64 = anchor.saturating_add(interval * (frame + 1));
                (struck, Some(next))
            },
        }
    }

    /// Paints the line into `rect`; when it has to be painted again. Both
    /// instants are in nanoseconds, which split a sweep into its frames exactly.
    pub fn paint(&mut self, frame: &mut Frame, rect: Rect, clip: u16, now: u64) -> (wake: Option<u64>)
        requires
            old(frame).wf(),
        ensures
            final(frame).wf(),
            final(frame).source() == old(frame).source(),
            final(self)@ == old(self)@.anchored(now),
            final(frame)@ == old(self)@.painted(old(frame)@, rect, clip, now),
            wake == (if rect.y >= clip || rect.width == 0 || rect.height == 0 {
                None
            } else {
                old(self)@.wake(now)
            }),
    {
        let (struck, next) = self.sweep(now);
        if rect.y >= clip || rect.width == 0 || rect.height == 0 {
            return None;
        }
        let ghost all = self@.text;
        let first: Text = line_text(&self.text, 0, struck);
        let rest: Text = line_text(&self.text, struck, self.text.clusters.len());
        assert(first@ =~= all.take(struck as int));
        assert(rest@ =~= all.skip(struck as int));
        let limit: u16 = rect.x.saturating_add(rect.width);
        let column: u16 = frame.put_clipped(
            rect.x,
            rect.y,
            rect.width,
            &first,
            self.style.strikethrough(),
        );
        if !rest.is_empty() && column < limit {
            frame.put_clipped(column, rect.y, limit - column, &rest, self.style);
        }
        next
    }

    /// Replaces the text; whether that changed anything.
    pub fn set_text(&mut self, text: Text) -> (changed: bool)
        ensures
            changed == (content(old(self)@.text) != content(text@)),
            final(self)@ == (if changed {
                StrikeView { text: text@, ..old(self)@ }
            } else {
                old(self)@
            }),
    {
        let a: String = text_content(&self.text);
        let b: String = text_content(&text);
        if same_text(a.as_str(), b.as_str()) {
            return false;
        }
        self.text = text;
        true
    }

    /// Width of the line.
    pub fn measure(&self) -> (width: u16)
        ensures
            width == text_width(self@.text),
    {
        self.text.width()
    }
}

/// The strike only grows, holds plain through the first frames, and covers the
/// whole text from the last frame on.
pub proof fn strikes_only_grow(total: int, earlier: int, later: int)
    requires
        0 <= total,
        0 <= earlier <= later,
    ensures
        0 <= struck_count(total, earlier) <= struck_count(total, later) <= total,
        later >= 14 ==> struck_count(total, later) == total,
        later <= 2 ==> struck_count(total, later) == 0,
{
    let a = if earlier - 2 < 12 {
        earlier - 2
    } else {
        12
    };
    let b = if later - 2 < 12 {
        later - 2
    } else {
        12
    };
    if earlier > 2 {
        assert(0 <= total * a <= total * b <= total * 12) by (nonlinear_arith)
            requires
                0 <= a <= b <= 12,
                0 <= total,
        ;
    } else if later > 2 {
        assert(0 <= total * b <= total * 12) by (nonlinear_arith)
            requires
                0 <= b <= 12,
                0 <= total,
        ;
    }
}

} // verus!
