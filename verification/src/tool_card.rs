//! A card that shows one tool call across its lifecycle.

use vstd::prelude::*;
use vstd::string::*;

use crate::anim::{change_after, glyph_at, Frames};
use crate::charset::{guide_glyphs, pulse_frames, rule_glyph, spinner_frames, Charset};
use crate::color::Color;
use crate::context::UiContext;
use crate::frame::{Frame, FrameView};
use crate::geometry::{larger, max16, sat_add, sat_sub, Rect};
use crate::markup::Border;
use crate::runs::{
    mark, no_runs, push_mark, push_run, run, run_views, write_runs, written, Run, RunView,
};
use crate::select::text_content;
use crate::status::cell_count;
use crate::strings::same_text;
use crate::style::{plain, Style};
use crate::text::{ascii_clusters, content, push_char, text_width, ClusterView, Text};
use crate::theme::Theme;
use crate::tree_paint::expander_glyph;
use crate::wizard::check_glyph;

verus! {

/// Public state vocabulary for a tool call.
#[derive(Clone, Copy, Debug, PartialEq, Eq, Structural)]
pub enum ToolState {
    /// The tool is currently running/streaming output.
    Streaming,
    /// The tool completed successfully.
    Success,
    /// The tool failed.
    Failure,
}

impl Default for ToolState {
    fn default() -> (state: Self)
        ensures
            state == ToolState::Streaming,
    {
        ToolState::Streaming
    }
}

/// A themed card representing one tool call.
pub struct ToolCard {
    /// State of the call.
    pub state: ToolState,
    /// Tool name.
    pub name: Text,
    /// Intent or summary.
    pub intent: Text,
    /// One-line progress shown when collapsed.
    pub activity: Text,
    /// Right-aligned badge.
    pub badge: Text,
    /// Whether the body is hidden.
    pub folded: bool,
    /// Whether the body presents itself, without chrome.
    pub flush: bool,
    /// When the card was last painted.
    pub last_paint_at: u64,
    /// When the call ended, on the presentation clock.
    pub finalized_at: Option<u64>,
    /// For each body child, whether it is shown.
    pub children: Vec<bool>,
}

/// A card representing one tool call.
#[verifier::ext_equal]
pub struct CardView {
    /// State of the call.
    pub state: ToolState,
    /// Tool name.
    pub name: Seq<ClusterView>,
    /// Intent or summary.
    pub intent: Seq<ClusterView>,
    /// One-line progress.
    pub activity: Seq<ClusterView>,
    /// Right-aligned badge.
    pub badge: Seq<ClusterView>,
    /// Whether the body is hidden.
    pub folded: bool,
    /// Whether the body presents itself.
    pub flush: bool,
    /// When the card was last painted.
    pub last_paint_at: u64,
    /// When the call ended.
    pub finalized_at: Option<u64>,
    /// For each body child, whether it is shown.
    pub children: Seq<bool>,
}

impl View for ToolCard {
    type V = CardView;

    open spec fn view(&self) -> CardView {
        CardView {
            state: self.state,
            name: self.name@,
            intent: self.intent@,
            activity: self.activity@,
            badge: self.badge@,
            folded: self.folded,
            flush: self.flush,
            last_paint_at: self.last_paint_at,
            finalized_at: self.finalized_at,
            children: self.children@,
        }
    }
}

/// Whether two texts have the same characters.
fn same_content(a: &Text, b: &Text) -> (same: bool)
    ensures
        same == (content(a@) == content(b@)),
{
    let x: String = text_content(a);
    let y: String = text_content(b);
    same_text(x.as_str(), y.as_str())
}

/// When a wake is due; `None` for a card that holds still.
pub open spec fn held_time(time: int) -> u64 {
    if time <= u64::MAX {
        time as u64
    } else {
        u64::MAX
    }
}

impl CardView {
    /// Whether the body is shown.
    pub open spec fn body_shown(self) -> bool {
        !self.folded || self.flush
    }

    /// The card with its children shown as its folding says.
    pub open spec fn unfolded(self) -> Self {
        CardView {
            children: Seq::new(self.children.len(), |i: int| self.body_shown()),
            ..self
        }
    }

    /// The card in another state; the end of the call is timed by the last
    /// paint.
    pub open spec fn in_state(self, state: ToolState) -> Self {
        if self.state == state {
            self
        } else {
            CardView {
                state,
                finalized_at: if state == ToolState::Streaming {
                    None
                } else {
                    Some(self.last_paint_at)
                },
                ..self
            }
        }
    }

    /// Color of the chrome.
    pub open spec fn header_color(self, theme: Theme) -> Color {
        match self.state {
            ToolState::Streaming => theme.accent,
            ToolState::Success => theme.ok,
            ToolState::Failure => theme.err,
        }
    }

    /// The glyph of a collapsed card: a pulse while the call runs, fading in two
    /// steps once it ended.
    pub open spec fn pulse(self, charset: Charset, now: u64) -> Seq<char> {
        let (glyphs, step) = pulse_frames(charset);
        match self.finalized_at {
            None => glyph_at(glyphs, step, now),
            Some(start) => if now < start + 120 {
                glyph_at(glyphs, step, 240)
            } else if now < start + 240 {
                glyph_at(glyphs, step, 120)
            } else {
                glyph_at(glyphs, step, 0)
            },
        }
    }

    /// When that glyph changes.
    pub open spec fn pulse_wake(self, charset: Charset, now: u64) -> Option<u64> {
        match self.finalized_at {
            None => Some(held_time(change_after(pulse_frames(charset).1, now))),
            Some(start) => if now < start + 120 {
                Some(held_time(start + 120))
            } else if now < start + 240 {
                Some(held_time(start + 240))
            } else {
                None
            },
        }
    }

    /// The glyph that shows the state.
    pub open spec fn indicator(
        self,
        charset: Charset,
        height: u16,
        now: u64,
        failed: Seq<ClusterView>,
    ) -> Seq<ClusterView> {
        if height == 1 {
            ascii_clusters(self.pulse(charset, now))
        } else {
            match self.state {
                ToolState::Streaming => {
                    let (glyphs, step) = spinner_frames(charset);
                    ascii_clusters(glyph_at(glyphs, step, now))
                },
                ToolState::Success => ascii_clusters(check_glyph(charset)),
                ToolState::Failure => failed,
            }
        }
    }

    /// When a painted card has to be painted again.
    pub open spec fn wake(self, charset: Charset, height: u16, now: u64) -> Option<u64> {
        if height == 1 {
            self.pulse_wake(charset, now)
        } else if self.state == ToolState::Streaming {
            Some(held_time(change_after(spinner_frames(charset).1, now)))
        } else {
            None
        }
    }

    /// The runs of the header up to the summary.
    pub open spec fn header_runs(
        self,
        theme: Theme,
        charset: Charset,
        height: u16,
        now: u64,
        failed: Seq<ClusterView>,
    ) -> Seq<RunView> {
        let style = Style { foreground: self.header_color(theme), ..plain() };
        let normal = Style { foreground: theme.fg, ..plain() };
        let lead = seq![
            mark(
                if height >= 3 {
                    expander_glyph(charset, !self.folded && self.children.len() > 0)
                } else {
                    "  "@
                },
                style,
            ),
            run(self.indicator(charset, height, now, failed), style),
            mark(" "@, style),
        ];
        if content(self.name).len() > 0 {
            lead.push(run(self.name, Style { bold: true, ..style })).push(mark(" "@, normal))
        } else {
            lead
        }
    }

    /// What a card says of its call: the progress when collapsed, else the
    /// intent.
    pub open spec fn summary(self, height: u16) -> Seq<ClusterView> {
        if height == 1 && content(self.activity).len() > 0 {
            self.activity
        } else {
            self.intent
        }
    }

    /// The frame with the header row.
    pub open spec fn header_painted(
        self,
        frame: FrameView,
        theme: Theme,
        charset: Charset,
        rect: Rect,
        now: u64,
        failed: Seq<ClusterView>,
    ) -> FrameView {
        let right = sat_add(rect.x, rect.width);
        let normal = Style { foreground: theme.fg, ..plain() };
        let muted = Style { foreground: theme.muted, ..plain() };
        let badged = content(self.badge).len() > 0;
        let (named, x) = written(
            frame,
            rect.x,
            rect.y,
            self.header_runs(theme, charset, rect.height, now, failed),
        );
        let text = self.summary(rect.height);
        let room = sat_sub(
            sat_sub(right, x),
            if badged {
                sat_add(text_width(self.badge), 1)
            } else {
                0
            },
        );
        let (told, end) = if content(text).len() > 0 {
            (
                named.put_clipped(x, rect.y, room, text, normal),
                named.end_clipped(x, rect.y, room, text),
            )
        } else {
            (named, x)
        };
        if badged {
            told.put(
                max16(end, sat_sub(right, text_width(self.badge))),
                rect.y,
                self.badge,
                muted,
            )
        } else {
            told
        }
    }

    /// The frame with the rail beside the first `count` body rows.
    pub open spec fn rail_painted(
        self,
        frame: FrameView,
        rail: Seq<char>,
        style: Style,
        rect: Rect,
        clip: u16,
        count: int,
    ) -> FrameView
        decreases count,
    {
        if count <= 0 {
            frame
        } else {
            let earlier = self.rail_painted(frame, rail, style, rect, clip, count - 1);
            let y = sat_add(rect.y, cell_count(count));
            if y < clip {
                earlier.put(rect.x, y, ascii_clusters(rail), style)
            } else {
                earlier
            }
        }
    }

    /// The frame with the rail and the closing row of a card of `rect.height`
    /// rows.
    pub open spec fn chrome_painted(
        self,
        frame: FrameView,
        theme: Theme,
        charset: Charset,
        rect: Rect,
        clip: u16,
    ) -> FrameView {
        let style = Style { foreground: self.header_color(theme), ..plain() };
        let (branch, last, rail) = guide_glyphs(charset, Border::Round);
        let bottom = sat_add(rect.y, sat_sub(rect.height, 1));
        let railed = self.rail_painted(
            frame,
            rail,
            style,
            rect,
            clip,
            sat_sub(rect.height, 2) as int,
        );
        if bottom < clip {
            written(
                railed,
                rect.x,
                bottom,
                seq![
                    mark(last, style),
                    mark(
                        Seq::new(sat_sub(rect.width, 2) as nat, |i: int| rule_glyph(charset)),
                        style,
                    ),
                ],
            ).0
        } else {
            railed
        }
    }

    /// Whether the card paints anything of its own.
    pub open spec fn has_chrome(self) -> bool {
        !(self.flush && self.children.len() > 0)
    }

    /// The frame with the card's own chrome.
    pub open spec fn painted(
        self,
        frame: FrameView,
        theme: Theme,
        charset: Charset,
        rect: Rect,
        clip: u16,
        now: u64,
        failed: Seq<ClusterView>,
    ) -> FrameView {
        if !self.has_chrome() {
            frame
        } else {
            let headed = self.header_painted(frame, theme, charset, rect, now, failed);
            if rect.height == 1 {
                headed
            } else {
                self.chrome_painted(headed, theme, charset, rect, clip)
            }
        }
    }
}

/// The rule of a width.
pub fn rule_text(charset: Charset, width: u16) -> (rule: String)
    ensures
        rule@ == Seq::new(width as nat, |i: int| rule_glyph(charset)),
{
    let mut rule: String = "".to_owned();
    let fill: char = charset.rule();
    let mut at: u16 = 0;
    proof {
        reveal_strlit("");
        assert(rule@ =~= Seq::new(0, |i: int| rule_glyph(charset)));
    }
    while at < width
        invariant
            at <= width,
            fill == rule_glyph(charset),
            rule@ == Seq::new(at as nat, |i: int| rule_glyph(charset)),
        decreases width - at,
    {
        push_char(&mut rule, fill);
        at += 1;
        assert(rule@ =~= Seq::new(at as nat, |i: int| rule_glyph(charset)));
    }
    rule
}

impl ToolCard {
    /// Creates a new tool card in the streaming state, unfolded by default.
    pub fn new() -> (card: Self)
        ensures
            card@ == (CardView {
                state: ToolState::Streaming,
                name: Seq::empty(),
                intent: Seq::empty(),
                activity: Seq::empty(),
                badge: Seq::empty(),
                folded: false,
                flush: false,
                last_paint_at: 0,
                finalized_at: None,
                children: Seq::empty(),
            }),
    {
        ToolCard {
            state: ToolState::Streaming,
            name: Text::empty(),
            intent: Text::empty(),
            activity: Text::empty(),
            badge: Text::empty(),
            folded: false,
            flush: false,
            last_paint_at: 0,
            finalized_at: None,
            children: Vec::new(),
        }
    }

    /// In-place update: tool name.
    pub fn set_name(&mut self, name: Text) -> (changed: bool)
        ensures
            changed == (content(old(self)@.name) != content(name@)),
            final(self)@ == (if changed {
                CardView { name: name@, ..old(self)@ }
            } else {
                old(self)@
            }),
    {
        if same_content(&self.name, &name) {
            return false;
        }
        self.name = name;
        true
    }

    /// Sets the tool name (e.g. `read`).
    pub fn name(self, name: Text) -> (card: Self)
        ensures
            card@ == (if content(self@.name) != content(name@) {
                CardView { name: name@, ..self@ }
            } else {
                self@
            }),
    {
        let mut card: ToolCard = self;
        card.set_name(name);
        card
    }

    /// In-place update: tool state.
    pub fn set_state(&mut self, state: ToolState) -> (changed: bool)
        ensures
            changed == (old(self)@.state != state),
            final(self)@ == old(self)@.in_state(state),
    {
        if self.state == state {
            return false;
        }
        self.state = state;
        self.finalized_at = match state {
            ToolState::Streaming => None,
            ToolState::Success | ToolState::Failure => Some(self.last_paint_at),
        };
        true
    }

    /// Sets the tool state.
    pub fn state(self, state: ToolState) -> (card: Self)
        ensures
            card@ == self@.in_state(state),
    {
        let mut card: ToolCard = self;
        card.set_state(state);
        card
    }

    /// In-place update: intent/summary text.
    pub fn set_intent(&mut self, intent: Text) -> (changed: bool)
        ensures
            changed == (content(old(self)@.intent) != content(intent@)),
            final(self)@ == (if changed {
                CardView { intent: intent@, ..old(self)@ }
            } else {
                old(self)@
            }),
    {
        if same_content(&self.intent, &intent) {
            return false;
        }
        self.intent = intent;
        true
    }

    /// Sets the intent or summary text.
    pub fn intent(self, intent: Text) -> (card: Self)
        ensures
            card@ == (if content(self@.intent) != content(intent@) {
                CardView { intent: intent@, ..self@ }
            } else {
                self@
            }),
    {
        let mut card: ToolCard = self;
        card.set_intent(intent);
        card
    }

    /// In-place update: the one-line semantic progress shown when collapsed.
    ///
    /// An empty activity restores the stable intent as the collapsed fallback.
    pub fn set_activity(&mut self, activity: Text) -> (changed: bool)
        ensures
            changed == (content(old(self)@.activity) != content(activity@)),
            final(self)@ == (if changed {
                CardView { activity: activity@, ..old(self)@ }
            } else {
                old(self)@
            }),
    {
        if same_content(&self.activity, &activity) {
            return false;
        }
        self.activity = activity;
        true
    }

    /// Sets the one-line semantic progress shown when collapsed.
    pub fn activity(self, activity: Text) -> (card: Self)
        ensures
            card@ == (if content(self@.activity) != content(activity@) {
                CardView { activity: activity@, ..self@ }
            } else {
                self@
            }),
    {
        let mut card: ToolCard = self;
        card.set_activity(activity);
        card
    }

    /// In-place update: badge text.
    pub fn set_badge(&mut self, badge: Text) -> (changed: bool)
        ensures
            changed == (content(old(self)@.badge) != content(badge@)),
            final(self)@ == (if changed {
                CardView { badge: badge@, ..old(self)@ }
            } else {
                old(self)@
            }),
    {
        if same_content(&self.badge, &badge) {
            return false;
        }
        self.badge = badge;
        true
    }

    /// Sets the right-aligned badge text (e.g. elapsed time).
    pub fn badge(self, badge: Text) -> (card: Self)
        ensures
            card@ == (if content(self@.badge) != content(badge@) {
                CardView { badge: badge@, ..self@ }
            } else {
                self@
            }),
    {
        let mut card: ToolCard = self;
        card.set_badge(badge);
        card
    }

    /// Shows the children as the folding says.
    fn show_children(&mut self)
        ensures
            final(self)@ == old(self)@.unfolded(),
    {
        let ghost before = self@;
        let shown: bool = !self.folded || self.flush;
        let count: usize = self.children.len();
        let mut at: usize = 0;
        while at < count
            invariant
                at <= count,
                count == before.children.len(),
                self.children@.len() == count,
                shown == before.body_shown(),
                self@ == (CardView { children: self.children@, ..before }),
                forall|i: int| 0 <= i < at ==> self.children@[i] == shown,
            decreases count - at,
        {
            self.children.set(at, shown);
            at += 1;
        }
        assert(self@ =~= before.unfolded());
    }

    /// In-place update: fold state.
    pub fn set_folded(&mut self, folded: bool) -> (changed: bool)
        ensures
            changed == (old(self)@.folded != folded),
            final(self)@ == (if changed {
                (CardView { folded, ..old(self)@ }).unfolded()
            } else {
                old(self)@
            }),
    {
        if self.folded == folded {
            return false;
        }
        self.folded = folded;
        self.show_children();
        true
    }

    /// Sets whether the card is folded (hides children).
    pub fn folded(self, folded: bool) -> (card: Self)
        ensures
            card@ == (if self@.folded != folded {
                (CardView { folded, ..self@ }).unfolded()
            } else {
                self@
            }),
    {
        let mut card: ToolCard = self;
        card.set_folded(folded);
        card
    }

    /// In-place update: chrome suppression for self-presenting views.
    ///
    /// A flush card draws no header, rail, or footer: its children paint at the
    /// card's full rect and own the entire presentation. Fold state is ignored
    /// while flush.
    pub fn set_flush(&mut self, flush: bool) -> (changed: bool)
        ensures
            changed == (old(self)@.flush != flush),
            final(self)@ == (if changed {
                (CardView { flush, ..old(self)@ }).unfolded()
            } else {
                old(self)@
            }),
    {
        if self.flush == flush {
            return false;
        }
        self.flush = flush;
        self.show_children();
        true
    }

    /// Sets chrome suppression for self-presenting views.
    pub fn flush(self, flush: bool) -> (card: Self)
        ensures
            card@ == (if self@.flush != flush {
                (CardView { flush, ..self@ }).unfolded()
            } else {
                self@
            }),
    {
        let mut card: ToolCard = self;
        card.set_flush(flush);
        card
    }

    /// Replaces the body by `count` children.
    pub fn replace_body(&mut self, count: usize) -> (changed: bool)
        ensures
            changed,
            final(self)@ == (CardView {
                children: Seq::new(count as nat, |i: int| true),
                ..old(self)@
            }).unfolded(),
    {
        let ghost before = self@;
        let shown: bool = !self.folded || self.flush;
        let mut children: Vec<bool> = Vec::new();
        let mut at: usize = 0;
        while at < count
            invariant
                at <= count,
                children@.len() == at,
                forall|i: int| 0 <= i < at ==> children@[i] == shown,
            decreases count - at,
        {
            children.push(shown);
            at += 1;
        }
        self.children = children;
        let ghost goal = (CardView {
            children: Seq::new(count as nat, |i: int| true),
            ..before
        }).unfolded();
        assert(self@ =~= goal);
        true
    }

    /// Appends a child to the card's body.
    pub fn child(self) -> (card: Self)
        ensures
            card@ == (CardView { children: self@.children.push(true), ..self@ }).unfolded(),
    {
        let mut card: ToolCard = self;
        card.children.push(true);
        card.show_children();
        card
    }

    /// Least and natural width around a body of the given widths.
    pub fn measure(&self, body: (u16, u16)) -> (widths: (u16, u16))
        ensures
            ({
                let card = self@;
                let least = sat_add(
                    sat_add(
                        sat_add(5, text_width(card.name)),
                        max16(text_width(card.intent), text_width(card.activity)),
                    ),
                    text_width(card.badge),
                );
                let natural = sat_add(
                    least,
                    if text_width(card.badge) > 0 {
                        2
                    } else {
                        0
                    },
                );
                if card.flush && card.children.len() > 0 {
                    widths == body
                } else if card.folded || card.children.len() == 0 {
                    widths == (least, max16(natural, 30))
                } else {
                    widths == (
                        max16(least, sat_add(body.0, 2)),
                        max16(max16(natural, sat_add(body.1, 2)), 30),
                    )
                }
            }),
    {
        if self.flush && self.children.len() > 0 {
            return body;
        }
        let badge: u16 = self.badge.width();
        let least: u16 = 5u16.saturating_add(self.name.width()).saturating_add(
            larger(self.intent.width(), self.activity.width()),
        ).saturating_add(badge);
        let natural: u16 = least.saturating_add(
            if badge > 0 {
                2
            } else {
                0
            },
        );
        if self.folded || self.children.len() == 0 {
            (least, larger(natural, 30))
        } else {
            (
                larger(least, body.0.saturating_add(2)),
                larger(larger(natural, body.1.saturating_add(2)), 30),
            )
        }
    }

    /// Rows of the card around a body of `body` rows.
    pub fn height(&self, body: u16) -> (rows: u16)
        ensures
            rows == (if self@.flush && self@.children.len() > 0 {
                max16(body, 1)
            } else if self@.folded || self@.children.len() == 0 {
                1
            } else {
                sat_add(body, 2)
            }),
    {
        if self.flush && self.children.len() > 0 {
            larger(body, 1)
        } else if self.folded || self.children.len() == 0 {
            1
        } else {
            body.saturating_add(2)
        }
    }

    /// The area of the body, where it is shown.
    pub fn body_rect(&self, area: Rect) -> (body: Option<Rect>)
        ensures
            body == (if self@.flush && self@.children.len() > 0 {
                Some(area)
            } else if !self@.folded && self@.children.len() > 0 {
                Some(
                    Rect {
                        x: sat_add(area.x, 2),
                        y: sat_add(area.y, 1),
                        width: sat_sub(area.width, 2),
                        height: sat_sub(area.height, 2),
                    },
                )
            } else {
                None
            }),
    {
        if self.flush && self.children.len() > 0 {
            Some(area)
        } else if !self.folded && self.children.len() > 0 {
            Some(
                Rect::new(
                    area.x.saturating_add(2),
                    area.y.saturating_add(1),
                    area.width.saturating_sub(2),
                    area.height.saturating_sub(2),
                ),
            )
        } else {
            None
        }
    }

    /// Color of the chrome.
    fn header_color(&self, theme: &Theme) -> (color: Color)
        ensures
            color == self@.header_color(*theme),
    {
        match self.state {
            ToolState::Streaming => theme.accent,
            ToolState::Success => theme.ok,
            ToolState::Failure => theme.err,
        }
    }

    /// The glyph of a collapsed card, and when it changes.
    fn collapsed_indicator(&self, charset: Charset, now: u64) -> (shown: (&'static str, Option<u64>))
        ensures
            shown.0@ == self@.pulse(charset, now),
            shown.1 == self@.pulse_wake(charset, now),
    {
        let pulse: Frames = charset.pulse();
        match self.finalized_at {
            None => (pulse.at(now), Some(pulse.next_change(now))),
            Some(start) => {
                let elapsed: u64 = now.saturating_sub(start);
                if elapsed < 120 {
                    (pulse.at(240), Some(start.saturating_add(120)))
                } else if elapsed < 240 {
                    (pulse.at(120), Some(start.saturating_add(240)))
                } else {
                    (pulse.at(0), None)
                }
            },
        }
    }

    /// The glyph that shows the state, and when it changes.
    fn state_glyph(&self, charset: Charset, height: u16, now: u64, failed: &Text) -> (shown: (
        Text,
        Option<u64>,
    ))
        ensures
            shown.0@ == self@.indicator(charset, height, now, failed@),
            shown.1 == self@.wake(charset, height, now),
    {
        if height == 1 {
            let (glyph, wake) = self.collapsed_indicator(charset, now);
            return (Text::cells_of(glyph), wake);
        }
        match self.state {
            ToolState::Streaming => {
                let frames: Frames = charset.spinner();
                (Text::cells_of(frames.at(now)), Some(frames.next_change(now)))
            },
            ToolState::Success => (Text::cells_of(charset.check()), None),
            ToolState::Failure => (failed.copy(), None),
        }
    }

    /// Paints the header row; when it changes.
    fn paint_header(
        &self,
        frame: &mut Frame,
        ctx: &UiContext,
        rect: Rect,
        now: u64,
        failed: &Text,
    ) -> (wake: Option<u64>)
        requires
            old(frame).wf(),
        ensures
            final(frame).wf(),
            final(frame).source() == old(frame).source(),
            final(frame)@ == self@.header_painted(
                old(frame)@,
                ctx.theme,
                ctx.charset,
                rect,
                now,
                failed@,
            ),
            wake == self@.wake(ctx.charset, rect.height, now),
    {
        let theme: &Theme = &ctx.theme;
        let style: Style = Style::new().fg(self.header_color(theme));
        let normal: Style = Style::new().fg(theme.fg);
        let mut runs: Vec<Run> = no_runs();
        let leading: &'static str = if rect.height >= 3 {
            ctx.charset.expander(!self.folded && self.children.len() > 0)
        } else {
            "  "
        };
        push_mark(&mut runs, leading, style);
        let (glyph, wake) = self.state_glyph(ctx.charset, rect.height, now, failed);
        push_run(&mut runs, glyph, style);
        push_mark(&mut runs, " ", style);
        if !self.name.is_empty() {
            push_run(&mut runs, self.name.copy(), style.bold());
            push_mark(&mut runs, " ", normal);
        }
        assert(run_views(runs@) =~= self@.header_runs(
            *theme,
            ctx.charset,
            rect.height,
            now,
            failed@,
        ));
        let mut x: u16 = write_runs(frame, rect.x, rect.y, &runs);
        let right: u16 = rect.x.saturating_add(rect.width);
        let badged: bool = !self.badge.is_empty();
        let badge_cells: u16 = self.badge.width();
        let summary: &Text = if rect.height == 1 && !self.activity.is_empty() {
            &self.activity
        } else {
            &self.intent
        };
        if !summary.is_empty() {
            let taken: u16 = if badged {
                badge_cells.saturating_add(1)
            } else {
                0
            };
            let room: u16 = right.saturating_sub(x).saturating_sub(taken);
            x = frame.put_clipped(x, rect.y, room, summary, normal);
        }
        if badged {
            frame.put(
                larger(x, right.saturating_sub(badge_cells)),
                rect.y,
                &self.badge,
                Style::new().fg(theme.muted),
            );
        }
        wake
    }

    /// Paints the rail and the closing row.
    fn paint_chrome(&self, frame: &mut Frame, ctx: &UiContext, rect: Rect, clip: u16)
        requires
            old(frame).wf(),
        ensures
            final(frame).wf(),
            final(frame).source() == old(frame).source(),
            final(frame)@ == self@.chrome_painted(
                old(frame)@,
                ctx.theme,
                ctx.charset,
                rect,
                clip,
            ),
    {
        let ghost before = frame@;
        let style: Style = Style::new().fg(self.header_color(&ctx.theme));
        let (_, last, rail) = ctx.charset.guides(Border::Round);
        let rows: u16 = rect.height.saturating_sub(2);
        let mut row: u16 = 0;
        while row < rows
            invariant
                row <= rows,
                rows <= 65533,
                frame.wf(),
                frame.source() == old(frame).source(),
                frame@ == self@.rail_painted(before, rail@, style, rect, clip, row as int),
            decreases rows - row,
        {
            row += 1;
            let y: u16 = rect.y.saturating_add(row);
            if y < clip {
                frame.put(rect.x, y, &Text::cells_of(rail), style);
            }
        }
        let bottom: u16 = rect.y.saturating_add(rect.height.saturating_sub(1));
        if bottom < clip {
            let rule: String = rule_text(ctx.charset, rect.width.saturating_sub(2));
            let mut runs: Vec<Run> = no_runs();
            push_mark(&mut runs, last, style);
            push_mark(&mut runs, rule.as_str(), style);
            assert(run_views(runs@) =~= seq![
                mark(last@, style),
                mark(
                    Seq::new(sat_sub(rect.width, 2) as nat, |i: int| rule_glyph(ctx.charset)),
                    style,
                ),
            ]);
            write_runs(frame, rect.x, bottom, &runs);
        }
    }

    /// Paints the card's chrome; when it has to be painted again. The host
    /// paints the body, and `failed` is the error icon, measured.
    ///
    /// A card granted no room, or below the clip, is not painted.
    pub fn paint(
        &mut self,
        frame: &mut Frame,
        ctx: &UiContext,
        rect: Rect,
        clip: u16,
        now: u64,
        failed: &Text,
    ) -> (wake: Option<u64>)
        requires
            old(frame).wf(),
        ensures
            final(frame).wf(),
            final(frame).source() == old(frame).source(),
            ({
                let hidden = rect.y >= clip || rect.width == 0 || rect.height == 0;
                let card = old(self)@;
                if hidden {
                    final(self)@ == card && final(frame)@ == old(frame)@ && wake is None
                } else {
                    &&& final(self)@ == (CardView { last_paint_at: now, ..card })
                    &&& final(frame)@ == card.painted(
                        old(frame)@,
                        ctx.theme,
                        ctx.charset,
                        rect,
                        clip,
                        now,
                        failed@,
                    )
                    &&& wake == (if card.has_chrome() {
                        card.wake(ctx.charset, rect.height, now)
                    } else {
                        None
                    })
                }
            }),
    {
        if rect.y >= clip || rect.width == 0 || rect.height == 0 {
            return None;
        }
        let mut wake: Option<u64> = None;
        if !self.flush || self.children.len() == 0 {
            wake = self.paint_header(frame, ctx, rect, now, failed);
            if rect.height > 1 {
                self.paint_chrome(frame, ctx, rect, clip);
            }
        }
        self.last_paint_at = now;
        wake
    }
}

/// Once a call ended, the pulse of a collapsed card comes to rest and asks for
/// no more paints.
pub proof fn finished_pulses_come_to_rest(card: CardView, charset: Charset, start: u64, now: u64)
    requires
        card.finalized_at == Some(start),
        now >= start + 240,
    ensures
        card.pulse_wake(charset, now) is None,
        card.pulse(charset, now) == glyph_at(pulse_frames(charset).0, pulse_frames(charset).1, 0),
{
}

/// Folding and unfolding shows the same children again.
pub proof fn unfolding_restores_the_body(card: CardView)
    requires
        !card.folded,
        card == card.unfolded(),
    ensures
        ({
            let folded = (CardView { folded: true, ..card }).unfolded();
            (CardView { folded: false, ..folded }).unfolded() == card
        }),
{
    let folded = (CardView { folded: true, ..card }).unfolded();
    assert((CardView { folded: false, ..folded }).unfolded() =~= card.unfolded());
}

} // verus!
