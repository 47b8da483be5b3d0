//! Compact lifecycle-state indicator. Times are in milliseconds of the shared
//! clock.

use vstd::prelude::*;
use vstd::string::*;

use crate::anim::{change_after, glyph_at, Frames};
use crate::charset::{spinner_frames, Charset};
use crate::chars::lowered;
use crate::color::Color;
use crate::events::text_option;
use crate::frame::Frame;
use crate::geometry::Rect;
use crate::prompting::{strip_text, stripped};
use crate::strings::same_ignoring_case;
use crate::style::{plain, Style};
use crate::text::{ascii_clusters, text_width, ClusterView, Text};
use crate::theme::Theme;
use crate::tool_card::held_time;

verus! {

/// What a status stands for.
#[derive(Clone, Copy, Debug, PartialEq, Eq, Structural)]
pub enum SemanticState {
    /// At work.
    Running,
    /// Switched on.
    Active,
    /// Waiting for work.
    Idle,
    /// Set aside.
    Parked,
    /// Done.
    Completed,
    /// Ended with an error.
    Failed,
    /// Ended on request.
    Stopped,
    /// Anything else.
    Unknown,
}

/// Whether a status reads as `name`, whatever its case and surrounding blanks.
pub open spec fn reads_as(status: Seq<char>, name: Seq<char>) -> bool {
    lowered(stripped(status)) == lowered(name)
}

/// What a status stands for.
pub open spec fn state_of(status: Option<Seq<char>>) -> SemanticState {
    match status {
        None => SemanticState::Unknown,
        Some(text) => if reads_as(text, "running"@) {
            SemanticState::Running
        } else if reads_as(text, "active"@) {
            SemanticState::Active
        } else if reads_as(text, "idle"@) {
            SemanticState::Idle
        } else if reads_as(text, "parked"@) {
            SemanticState::Parked
        } else if reads_as(text, "completed"@) {
            SemanticState::Completed
        } else if reads_as(text, "failed"@) {
            SemanticState::Failed
        } else if reads_as(text, "stopped"@) {
            SemanticState::Stopped
        } else {
            SemanticState::Unknown
        },
    }
}

/// The icon of a state, by its name in the catalog.
pub open spec fn state_icon(state: SemanticState) -> Seq<char> {
    match state {
        SemanticState::Running => "running"@,
        SemanticState::Active => "enabled"@,
        SemanticState::Idle => "idle"@,
        SemanticState::Parked => "parked"@,
        SemanticState::Completed => "completed"@,
        SemanticState::Failed => "failed"@,
        SemanticState::Stopped => "stopped"@,
        SemanticState::Unknown => "ask"@,
    }
}

/// The color of a state.
pub open spec fn state_color(state: SemanticState, theme: Theme) -> Color {
    match state {
        SemanticState::Running => theme.info,
        SemanticState::Active => theme.accent,
        SemanticState::Parked => theme.warn,
        SemanticState::Completed => theme.ok,
        SemanticState::Failed => theme.err,
        _ => theme.muted,
    }
}

/// A one-line, icon-only lifecycle state indicator.
///
/// Known states select a semantic theme color and a charset-aware catalog icon.
/// `running` reuses the shared spinner clock and only schedules frames while it
/// is actually painted.
pub struct State {
    /// The status as it was given.
    pub status: Option<String>,
    /// Its style; a default foreground gives way to the color of the state.
    pub style: Style,
}

/// A lifecycle state indicator.
pub struct StateView {
    /// The status as it was given.
    pub status: Option<Seq<char>>,
    /// Its style.
    pub style: Style,
}

impl View for State {
    type V = StateView;

    open spec fn view(&self) -> StateView {
        StateView { status: text_option(self.status), style: self.style }
    }
}

impl StateView {
    /// What the indicator shows.
    pub open spec fn state(self) -> SemanticState {
        state_of(self.status)
    }

    /// Style of the glyph.
    pub open spec fn glyph_style(self, theme: Theme) -> Style {
        if self.style.foreground == Color::Default {
            Style { foreground: state_color(self.state(), theme), ..self.style }
        } else {
            self.style
        }
    }

    /// The glyph shown at `now`, given that of the icon.
    pub open spec fn glyph(self, charset: Charset, icon: Seq<ClusterView>, now: u64) -> Seq<
        ClusterView,
    > {
        if self.state() == SemanticState::Running {
            let (glyphs, step) = spinner_frames(charset);
            ascii_clusters(glyph_at(glyphs, step, now))
        } else {
            icon
        }
    }

    /// Whether the indicator is seen in `rect`.
    pub open spec fn shown(
        self,
        charset: Charset,
        icon: Seq<ClusterView>,
        rect: Rect,
        clip: u16,
        now: u64,
    ) -> bool {
        rect.y < clip && rect.width > 0 && rect.height > 0 && text_width(
            self.glyph(charset, icon, now),
        ) <= rect.width
    }
}

impl State {
    /// Creates an indicator whose missing status safely resolves to `unknown`.
    pub fn new() -> (state: Self)
        ensures
            state@ == (StateView { status: None, style: plain() }),
    {
        State { status: None, style: Style::new() }
    }

    /// Creates an indicator with `status` normalized case-insensitively.
    pub fn status(status: &str) -> (state: Self)
        ensures
            state@ == (StateView { status: Some(status@), style: plain() }),
    {
        State { status: Some(status.to_owned()), style: Style::new() }
    }

    /// Sets the style of the indicator.
    pub fn with(self, style: Style) -> (state: Self)
        ensures
            state@ == (StateView { style, ..self@ }),
    {
        let mut state: State = self;
        state.style = style;
        state
    }

    /// What the indicator shows.
    pub fn semantic(&self) -> (state: SemanticState)
        ensures
            state == self@.state(),
    {
        match &self.status {
            None => SemanticState::Unknown,
            Some(status) => {
                let text: String = strip_text(status.as_str());
                let name: &str = text.as_str();
                if same_ignoring_case(name, "running") {
                    SemanticState::Running
                } else if same_ignoring_case(name, "active") {
                    SemanticState::Active
                } else if same_ignoring_case(name, "idle") {
                    SemanticState::Idle
                } else if same_ignoring_case(name, "parked") {
                    SemanticState::Parked
                } else if same_ignoring_case(name, "completed") {
                    SemanticState::Completed
                } else if same_ignoring_case(name, "failed") {
                    SemanticState::Failed
                } else if same_ignoring_case(name, "stopped") {
                    SemanticState::Stopped
                } else {
                    SemanticState::Unknown
                }
            },
        }
    }

    /// Name of the icon to show, in the catalog.
    pub fn icon(&self) -> (name: &'static str)
        ensures
            name@ == state_icon(self@.state()),
    {
        match self.semantic() {
            SemanticState::Running => "running",
            SemanticState::Active => "enabled",
            SemanticState::Idle => "idle",
            SemanticState::Parked => "parked",
            SemanticState::Completed => "completed",
            SemanticState::Failed => "failed",
            SemanticState::Stopped => "stopped",
            SemanticState::Unknown => "ask",
        }
    }

    /// Style of the glyph.
    fn glyph_style(&self, theme: &Theme) -> (style: Style)
        ensures
            style == self@.glyph_style(*theme),
    {
        if self.style.foreground_color() == Color::Default {
            self.style.fg(
                match self.semantic() {
                    SemanticState::Running => theme.info,
                    SemanticState::Active => theme.accent,
                    SemanticState::Parked => theme.warn,
                    SemanticState::Completed => theme.ok,
                    SemanticState::Failed => theme.err,
                    _ => theme.muted,
                },
            )
        } else {
            self.style
        }
    }

    /// The glyph shown at `now`, and when it changes.
    fn glyph(&self, charset: Charset, icon: &Text, now: u64) -> (glyph: (Text, Option<u64>))
        ensures
            glyph.0@ == self@.glyph(charset, icon@, now),
            glyph.1 == (if self@.state() == SemanticState::Running {
                Some(held_time(change_after(spinner_frames(charset).1, now)))
            } else {
                None
            }),
    {
        if self.semantic() == SemanticState::Running {
            let frames: Frames = charset.spinner();
            (Text::cells_of(frames.at(now)), Some(frames.next_change(now)))
        } else {
            (icon.copy(), None)
        }
    }

    /// Width of the indicator, given the glyph of its icon: it neither shrinks
    /// nor grows.
    pub fn measure(&self, charset: Charset, icon: &Text) -> (widths: (u16, u16))
        ensures
            widths.0 == text_width(self@.glyph(charset, icon@, 0)),
            widths.1 == widths.0,
    {
        let (glyph, _) = self.glyph(charset, icon, 0);
        let width: u16 = glyph.width();
        (width, width)
    }

    /// Paints the indicator into `rect`, given the glyph of its icon; when it
    /// has to be painted again.
    pub fn paint(
        &self,
        frame: &mut Frame,
        charset: Charset,
        theme: &Theme,
        icon: &Text,
        rect: Rect,
        clip: u16,
        now: u64,
    ) -> (wake: Option<u64>)
        requires
            old(frame).wf(),
        ensures
            final(frame).wf(),
            final(frame).source() == old(frame).source(),
            final(frame)@ == (if self@.shown(charset, icon@, rect, clip, now) {
                old(frame)@.put(
                    rect.x,
                    rect.y,
                    self@.glyph(charset, icon@, now),
                    self@.glyph_style(*theme),
                )
            } else {
                old(frame)@
            }),
            wake == (if self@.shown(charset, icon@, rect, clip, now) && self@.state()
                == SemanticState::Running {
                Some(held_time(change_after(spinner_frames(charset).1, now)))
            } else {
                None
            }),
    {
        if rect.y >= clip || rect.width == 0 || rect.height == 0 {
            return None;
        }
        let (glyph, wake) = self.glyph(charset, icon, now);
        if glyph.width() > rect.width {
            return None;
        }
        let style: Style = self.glyph_style(theme);
        frame.put(rect.x, rect.y, &glyph, style);
        wake
    }
}

impl Default for State {
    fn default() -> (state: Self)
        ensures
            state@ == (StateView { status: None, style: plain() }),
    {
        State::new()
    }
}

/// Whatever case a status is written in and whatever blanks surround it, it
/// reads the same.
pub proof fn statuses_are_normalized(a: Seq<char>, b: Seq<char>)
    requires
        lowered(stripped(a)) == lowered(stripped(b)),
    ensures
        state_of(Some(a)) == state_of(Some(b)),
{
}

} // verus!
