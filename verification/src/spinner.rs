//! Indeterminate activity indicator. Times are in milliseconds of the shared
//! clock.

use vstd::prelude::*;
use vstd::string::*;

use crate::anim::{change_after, glyph_at, Frames};
use crate::charset::{spinner_frames, status_spinner_frames, Charset};
use crate::frame::Frame;
use crate::geometry::{sat_add, Rect};
use crate::runs::{
    mark, no_runs, push_mark, push_run, run, run_views, write_runs, written, Run, RunView,
};
use crate::select::text_content;
use crate::strings::same_text;
use crate::style::{plain, Style};
use crate::text::{content, text_width, ClusterView, Text};
use crate::tool_card::held_time;

verus! {

/// How much longer than a frame an animation rests after it.
pub const RENDER_BACKPRESSURE_MULTIPLIER: u64 = 9;

/// The longest frame that is counted in full.
pub const MAX_BACKPRESSURE_FRAME_COST: u64 = 200;

/// How long an animation rests after a frame that took `frame_cost`.
pub open spec fn idle_after(frame_cost: u64) -> int {
    9 * (if frame_cost < 200 {
        frame_cost as int
    } else {
        200
    })
}

/// An animated one-cell spinner with an optional trailing label.
///
/// It paints the glyph for the instant and asks for its next repaint, so it
/// animates only while presented and stops costing anything the moment it
/// leaves the tree. The `status` kind selects the tool-card glyph cycle; the
/// default is the activity set. Both are pure phase arithmetic on the shared
/// clock, so every spinner of one kind shows the same glyph at the same instant
/// regardless of when it was created.
pub struct Spinner {
    /// Text behind the glyph.
    pub label: Text,
    /// Which glyph cycle it shows; `status` or the default.
    pub kind: String,
    /// Its style.
    pub style: Style,
}

/// An animated spinner.
pub struct SpinnerView {
    /// Text behind the glyph.
    pub label: Seq<ClusterView>,
    /// Which glyph cycle it shows.
    pub kind: Seq<char>,
    /// Its style.
    pub style: Style,
}

impl View for Spinner {
    type V = SpinnerView;

    open spec fn view(&self) -> SpinnerView {
        SpinnerView { label: self.label@, kind: self.kind@, style: self.style }
    }
}

impl SpinnerView {
    /// The glyph cycle, with the time each glyph is shown.
    pub open spec fn frames(self, charset: Charset) -> (Seq<Seq<char>>, u64) {
        if self.kind == "status"@ {
            status_spinner_frames(charset)
        } else {
            spinner_frames(charset)
        }
    }

    /// The runs shown at `now`.
    pub open spec fn runs(self, charset: Charset, now: u64) -> Seq<RunView> {
        let (glyphs, step) = self.frames(charset);
        let glyph = mark(glyph_at(glyphs, step, now), self.style);
        if content(self.label).len() > 0 {
            seq![glyph, mark(" "@, self.style), run(self.label, self.style)]
        } else {
            seq![glyph]
        }
    }
}

impl Spinner {
    /// Post-frame idle time that keeps pending-work animations at or below ten
    /// percent render duty, bounded after pathological frame stalls.
    pub fn animation_backpressure(frame_cost: u64) -> (idle: u64)
        ensures
            idle == idle_after(frame_cost),
    {
        let counted: u64 = if frame_cost < MAX_BACKPRESSURE_FRAME_COST {
            frame_cost
        } else {
            MAX_BACKPRESSURE_FRAME_COST
        };
        counted * RENDER_BACKPRESSURE_MULTIPLIER
    }

    /// Creates a bare spinner.
    pub fn new() -> (spinner: Self)
        ensures
            spinner@ == (SpinnerView { label: Seq::empty(), kind: Seq::empty(), style: plain() }),
    {
        proof {
            reveal_strlit("");
        }
        let spinner = Spinner { label: Text::empty(), kind: "".to_owned(), style: Style::new() };
        assert(spinner@.kind =~= Seq::empty());
        spinner
    }

    /// Sets the text following the spinner glyph.
    pub fn label(self, label: Text) -> (spinner: Self)
        ensures
            spinner@ == (SpinnerView { label: label@, ..self@ }),
    {
        let mut spinner: Spinner = self;
        spinner.label = label;
        spinner
    }

    /// Sets the style of the spinner.
    pub fn with(self, style: Style) -> (spinner: Self)
        ensures
            spinner@ == (SpinnerView { style, ..self@ }),
    {
        let mut spinner: Spinner = self;
        spinner.style = style;
        spinner
    }

    /// Sets the kind of the spinner.
    pub fn with_str(self, kind: &str) -> (spinner: Self)
        ensures
            spinner@ == (SpinnerView { kind: kind@, ..self@ }),
    {
        let mut spinner: Spinner = self;
        spinner.kind = kind.to_owned();
        spinner
    }

    /// Replaces the text following the spinner glyph.
    pub fn text(self, label: Text) -> (spinner: Self)
        ensures
            spinner@ == (SpinnerView { label: label@, ..self@ }),
    {
        self.label(label)
    }

    /// The glyph cycle.
    fn frames(&self, charset: Charset) -> (frames: Frames)
        ensures
            frames.wf(),
            (crate::anim::glyph_views(frames.glyphs@), frames.step) == self@.frames(charset),
    {
        if same_text(self.kind.as_str(), "status") {
            charset.status_spinner()
        } else {
            charset.spinner()
        }
    }

    /// Least and natural width.
    pub fn measure(&self) -> (widths: (u16, u16))
        ensures
            widths.0 == 1,
            widths.1 == (if content(self@.label).len() == 0 {
                1
            } else {
                sat_add(text_width(self@.label), 2)
            }),
    {
        let natural: u16 = if self.label.is_empty() {
            1
        } else {
            self.label.width().saturating_add(2)
        };
        (1, natural)
    }

    /// Paints the spinner into `rect`; when it has to be painted again.
    pub fn paint(&self, frame: &mut Frame, charset: Charset, rect: Rect, clip: u16, now: u64) -> (wake:
        Option<u64>)
        requires
            old(frame).wf(),
        ensures
            final(frame).wf(),
            final(frame).source() == old(frame).source(),
            final(frame)@ == (if rect.y >= clip || rect.width == 0 {
                old(frame)@
            } else {
                written(old(frame)@, rect.x, rect.y, self@.runs(charset, now)).0
            }),
            wake == (if rect.y >= clip || rect.width == 0 {
                None
            } else {
                Some(held_time(change_after(self@.frames(charset).1, now)))
            }),
    {
        if rect.y >= clip || rect.width == 0 {
            return None;
        }
        let frames: Frames = self.frames(charset);
        let mut runs: Vec<Run> = no_runs();
        push_mark(&mut runs, frames.at(now), self.style);
        if !self.label.is_empty() {
            push_mark(&mut runs, " ", self.style);
            push_run(&mut runs, self.label.copy(), self.style);
        }
        assert(run_views(runs@) =~= self@.runs(charset, now));
        write_runs(frame, rect.x, rect.y, &runs);
        Some(frames.next_change(now))
    }

    /// Replaces the label; whether that changed anything.
    pub fn set_text(&mut self, text: Text) -> (changed: bool)
        ensures
            changed == (content(old(self)@.label) != content(text@)),
            final(self)@ == (if changed {
                SpinnerView { label: text@, ..old(self)@ }
            } else {
                old(self)@
            }),
    {
        let shown: String = text_content(&self.label);
        let wanted: String = text_content(&text);
        if same_text(shown.as_str(), wanted.as_str()) {
            return false;
        }
        self.label = text;
        true
    }
}

impl Default for Spinner {
    fn default() -> (spinner: Self)
        ensures
            spinner@ == (SpinnerView { label: Seq::empty(), kind: Seq::empty(), style: plain() }),
    {
        Spinner::new()
    }
}

/// Two spinners of one kind show the same glyph at the same instant, and ask
/// for the same next repaint.
pub proof fn spinners_are_phase_locked(a: SpinnerView, b: SpinnerView, charset: Charset, now: u64)
    requires
        a.kind == b.kind,
    ensures
        a.frames(charset) == b.frames(charset),
        a.runs(charset, now)[0].text == b.runs(charset, now)[0].text,
{
}

/// Frames of up to 200 ms take at most a tenth of the time, and no frame, however
/// long, stops an animation for more than 1.8 seconds.
pub proof fn duty_stays_bounded(frame_cost: u64)
    ensures
        idle_after(frame_cost) <= 1800,
        frame_cost <= 200 ==> 10 * frame_cost <= frame_cost + idle_after(frame_cost),
{
}

} // verus!
