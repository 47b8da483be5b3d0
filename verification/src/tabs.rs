//! Switchable panes under a bar of chips.

use vstd::prelude::*;
use vstd::string::*;

use crate::charset::{rule_glyph, Charset};
use crate::color::Color;
use crate::context::UiContext;
use crate::events::{Flow, FlowView, Hit, HitTag, Slot};
use crate::frame::{Frame, FrameView};
use crate::geometry::{larger, max16, min16, sat_add, sat_sub, smaller, Rect};
use crate::input::{Key, Mouse};
use crate::runs::{
    mark, no_runs, push_mark, push_run, run, run_views, write_runs, written, Run, RunView,
};
use crate::select_paint::cursor_glyph;
use crate::style::{plain, Style, Underline};
use crate::text::{ascii_clusters, content, text_width, ClusterView, Text};
use crate::theme::Theme;
use crate::tool_card::rule_text;
use crate::wizard::{pill_fill, pill_row, pill_runs, pill_style, fill_of, title_views};

verus! {

/// The index one further, around the end.
pub open spec fn cycled(index: int, count: int, forward: bool) -> int {
    if forward {
        (index + 1) % count
    } else {
        (index + count - 1) % count
    }
}

/// Moves an index one further, around the end.
pub fn cycle(index: u16, count: usize, forward: bool) -> (next: u16)
    requires
        0 < count < 65536,
    ensures
        next == cycled(index as int, count as int, forward),
        next < count,
{
    let total: u32 = count as u32;
    let at: u32 = index as u32;
    let next: u32 = if forward {
        (at + 1) % total
    } else {
        (at + total - 1) % total
    };
    proof {
        vstd::arithmetic::div_mod::lemma_mod_bound(at + 1, total as int);
        vstd::arithmetic::div_mod::lemma_mod_bound(at + total - 1, total as int);
    }
    next as u16
}

/// One chip's placement on the bar.
#[derive(Clone, Copy, Debug, PartialEq, Eq, Structural)]
pub struct Chip {
    /// The pane.
    pub index: u16,
    /// Row of the bar.
    pub row: u16,
    /// First column.
    pub start: u16,
    /// Column behind the last.
    pub end: u16,
    /// Whether the label shows; icon-only chips collapse to their glyph.
    pub full: bool,
}

/// A switchable pane set.
pub struct Tabs {
    /// The tab set.
    pub slot: Slot,
    /// Titles of the panes.
    pub titles: Vec<Text>,
    /// Icon glyphs of the panes; empty for none.
    pub icons: Vec<Text>,
    /// Which panes are de-emphasized.
    pub muted: Vec<bool>,
    /// Active pane.
    pub idx: u16,
}

/// A switchable pane set.
#[verifier::ext_equal]
pub struct TabsView {
    /// The tab set.
    pub slot: Slot,
    /// Titles of the panes.
    pub titles: Seq<Seq<ClusterView>>,
    /// Icon glyphs of the panes.
    pub icons: Seq<Seq<ClusterView>>,
    /// Which panes are de-emphasized.
    pub muted: Seq<bool>,
    /// Active pane.
    pub idx: u16,
}

impl View for Tabs {
    type V = TabsView;

    open spec fn view(&self) -> TabsView {
        TabsView {
            slot: self.slot,
            titles: title_views(self.titles@),
            icons: title_views(self.icons@),
            muted: self.muted@,
            idx: self.idx,
        }
    }
}

impl TabsView {
    /// Every pane has a title, an icon and an emphasis.
    pub open spec fn wf(self) -> bool {
        &&& self.titles.len() < 65536
        &&& self.icons.len() == self.titles.len()
        &&& self.muted.len() == self.titles.len()
    }

    /// The set with one more pane.
    pub open spec fn with_pane(
        self,
        icon: Seq<ClusterView>,
        title: Seq<ClusterView>,
        muted: bool,
    ) -> Self {
        TabsView {
            titles: self.titles.push(title),
            icons: self.icons.push(icon),
            muted: self.muted.push(muted),
            ..self
        }
    }

    /// The active pane, held at the last.
    pub open spec fn active(self) -> int {
        if self.idx < self.titles.len() {
            self.idx as int
        } else {
            self.titles.len() - 1
        }
    }

    /// Whether a pane has an icon.
    pub open spec fn has_icon(self, index: int) -> bool {
        content(self.icons[index]).len() > 0
    }

    /// Chip width with icon and label, including the one-cell caps.
    pub open spec fn full_width(self, index: int) -> u16 {
        sat_add(
            sat_add(
                if self.has_icon(index) {
                    sat_add(text_width(self.icons[index]), 1)
                } else {
                    0
                },
                text_width(self.titles[index]),
            ),
            2,
        )
    }

    /// Collapsed icon-only chip width; chips without an icon cannot shrink.
    pub open spec fn min_width(self, index: int) -> u16 {
        if self.has_icon(index) {
            sat_add(text_width(self.icons[index]), 2)
        } else {
            self.full_width(index)
        }
    }

    /// Whether a chip keeps its label when the first `keep` do; the active one
    /// always does.
    pub open spec fn is_full(self, index: int, keep: int) -> bool {
        index < keep || index == self.active()
    }

    /// Width of a chip when the first `keep` keep their labels.
    pub open spec fn chip_width(self, index: int, keep: int) -> u16 {
        if self.is_full(index, keep) {
            self.full_width(index)
        } else {
            self.min_width(index)
        }
    }

    /// Width of a one-row bar of the first `count` chips.
    pub open spec fn bar_width(self, keep: int, count: int) -> u16
        decreases count,
    {
        if count <= 0 {
            2
        } else {
            sat_add(
                sat_add(self.bar_width(keep, count - 1), self.chip_width(count - 1, keep)),
                if count > 1 {
                    2
                } else {
                    0
                },
            )
        }
    }

    /// The largest number of leading chips, `keep` at most, that can keep their
    /// labels on a one-row bar.
    pub open spec fn kept(self, keep: int, width: u16) -> int
        decreases keep,
    {
        if keep <= 0 || self.bar_width(keep, self.titles.len() as int) <= width {
            keep
        } else {
            self.kept(keep - 1, width)
        }
    }

    /// The chips from `index` on, from column `x` of bar row `row`: a chip that
    /// does not fit its row starts the next. The second part counts the rows.
    pub open spec fn chips_from(
        self,
        keep: int,
        width: u16,
        index: int,
        row: u16,
        x: u16,
    ) -> (Seq<Chip>, u16)
        decreases self.titles.len() - index,
    {
        if index < 0 || index >= self.titles.len() {
            (Seq::empty(), sat_add(row, 1))
        } else {
            let cells = self.chip_width(index, keep);
            let wraps = x > 2 && sat_add(x, cells) > width;
            let here = if wraps {
                sat_add(row, 1)
            } else {
                row
            };
            let start = if wraps {
                2
            } else {
                x
            };
            let chip = Chip {
                index: index as u16,
                row: here,
                start,
                end: sat_add(start, cells),
                full: self.is_full(index, keep),
            };
            let (rest, rows) = self.chips_from(
                keep,
                width,
                index + 1,
                here,
                sat_add(sat_add(start, cells), 2),
            );
            (seq![chip] + rest, rows)
        }
    }

    /// The chips of a bar, and how many rows it takes. Chips show icon and label
    /// while everything fits on one row; past that point trailing inactive chips
    /// collapse to their icons, and if even those overflow, the bar wraps.
    pub open spec fn layout(self, width: u16) -> (Seq<Chip>, u16) {
        let keep = self.kept(self.titles.len() as int, width);
        self.chips_from(keep, width, 0, 0, 2)
    }

    /// The runs of a chip: a pill for the active pane, plain text for the
    /// others.
    pub open spec fn chip_runs(
        self,
        theme: Theme,
        charset: Charset,
        focused: bool,
        hovered: Option<u16>,
        chip: Chip,
    ) -> Seq<RunView> {
        let index = chip.index as int;
        let here = hovered == Some(chip.index);
        let icon = self.icons[index];
        let title = self.titles[index];
        if index == self.active() && !self.muted[index] {
            let fill = pill_fill(theme.accent, focused || here);
            let body = pill_style(fill, theme.contrast);
            pill_runs(
                (if self.has_icon(index) {
                    seq![run(icon, body), mark(" "@, body)]
                } else {
                    Seq::empty()
                }).push(run(title, body)),
                fill,
                charset,
            )
        } else {
            let style = Style {
                foreground: if self.muted[index] {
                    theme.dim
                } else if here {
                    theme.fg
                } else {
                    theme.muted
                },
                underline: if here {
                    Underline::Straight
                } else {
                    Underline::Off
                },
                ..plain()
            };
            let pad = mark(" "@, Style { foreground: theme.fg, ..plain() });
            let led = seq![pad] + (if self.has_icon(index) && chip.full {
                seq![run(icon, style), mark(" "@, style)]
            } else if self.has_icon(index) {
                seq![run(icon, style)]
            } else {
                Seq::empty()
            });
            (if chip.full || !self.has_icon(index) {
                led.push(run(title, style))
            } else {
                led
            }).push(pad)
        }
    }

    /// The frame with the first `count` chips, and their areas.
    pub open spec fn chips_painted(
        self,
        frame: FrameView,
        theme: Theme,
        charset: Charset,
        focused: bool,
        hovered: Option<u16>,
        rect: Rect,
        clip: u16,
        chips: Seq<Chip>,
        count: int,
    ) -> (FrameView, Seq<Hit>)
        decreases count,
    {
        if count <= 0 {
            (frame, Seq::empty())
        } else {
            let (earlier, areas) = self.chips_painted(
                frame,
                theme,
                charset,
                focused,
                hovered,
                rect,
                clip,
                chips,
                count - 1,
            );
            let chip = chips[count - 1];
            let x = sat_add(rect.x, chip.start);
            let y = sat_add(rect.y, chip.row);
            if y >= clip {
                (earlier, areas)
            } else {
                (
                    written(
                        earlier,
                        x,
                        y,
                        self.chip_runs(theme, charset, focused, hovered, chip),
                    ).0,
                    areas.push(
                        Hit {
                            rect: Rect { x, y, width: sat_sub(chip.end, chip.start), height: 1 },
                            slot: self.slot,
                            tag: HitTag::Chip(chip.index),
                        },
                    ),
                )
            }
        }
    }

    /// The frame with the whole bar and the rule under it, and the areas of the
    /// chips.
    pub open spec fn bar_painted(
        self,
        frame: FrameView,
        theme: Theme,
        charset: Charset,
        focused: bool,
        hovered: Option<u16>,
        rect: Rect,
        clip: u16,
    ) -> (FrameView, Seq<Hit>) {
        let opened = if rect.y < clip {
            frame.put(
                rect.x,
                rect.y,
                ascii_clusters(
                    if focused {
                        cursor_glyph(charset)
                    } else {
                        "  "@
                    },
                ),
                Style { foreground: theme.accent, ..plain() },
            )
        } else {
            frame
        };
        let (chips, rows) = self.layout(rect.width);
        let (chipped, areas) = self.chips_painted(
            opened,
            theme,
            charset,
            focused,
            hovered,
            rect,
            clip,
            chips,
            chips.len() as int,
        );
        let y = sat_add(rect.y, rows);
        if y < clip {
            (
                chipped.put(
                    rect.x,
                    y,
                    ascii_clusters(Seq::new(rect.width as nat, |i: int| rule_glyph(charset))),
                    Style { foreground: theme.muted, ..plain() },
                ),
                areas,
            )
        } else {
            (chipped, areas)
        }
    }

    /// Natural width of the bar of the first `count` titles.
    pub open spec fn natural_bar(self, count: int) -> u16
        decreases count,
    {
        if count <= 0 {
            2
        } else {
            sat_add(
                self.natural_bar(count - 1),
                sat_add(text_width(self.titles[count - 1]), 4),
            )
        }
    }
}

/// What a tab set paints with.
pub struct TabsPaint<'a> {
    /// Presentation context.
    pub ctx: &'a UiContext,
    /// Area of the tab set.
    pub rect: Rect,
    /// First row that is not painted.
    pub clip: u16,
    /// Whether the tab set has the focus.
    pub focused: bool,
    /// Chip under the pointer.
    pub hovered: Option<u16>,
}

impl Tabs {
    /// Every pane has a title, an icon and an emphasis.
    pub open spec fn wf(self) -> bool {
        self@.wf()
    }

    /// Creates an empty tab set.
    pub fn new(slot: Slot) -> (tabs: Self)
        ensures
            tabs.wf(),
            tabs@ == (TabsView {
                slot,
                titles: Seq::empty(),
                icons: Seq::empty(),
                muted: Seq::empty(),
                idx: 0,
            }),
    {
        let tabs = Tabs {
            slot,
            titles: Vec::new(),
            icons: Vec::new(),
            muted: Vec::new(),
            idx: 0,
        };
        assert(tabs@.titles =~= Seq::empty());
        assert(tabs@.icons =~= Seq::empty());
        tabs
    }

    /// Appends an untitled pane.
    pub fn child(self) -> (tabs: Self)
        requires
            self.wf(),
            self@.titles.len() < 65535,
        ensures
            tabs.wf(),
            tabs@ == self@.with_pane(Seq::empty(), ascii_clusters("tab"@), false),
    {
        self.pane(Text::cells_of("tab"))
    }

    /// Appends a pane with the supplied title.
    pub fn pane(self, title: Text) -> (tabs: Self)
        requires
            self.wf(),
            self@.titles.len() < 65535,
        ensures
            tabs.wf(),
            tabs@ == self@.with_pane(Seq::empty(), title@, false),
    {
        self.pane_icon(Text::empty(), title)
    }

    /// Appends a pane with an icon and title. The icon leads the chip; when the
    /// bar overflows, trailing inactive chips collapse to their icon alone.
    pub fn pane_icon(self, icon: Text, title: Text) -> (tabs: Self)
        requires
            self.wf(),
            self@.titles.len() < 65535,
        ensures
            tabs.wf(),
            tabs@ == self@.with_pane(icon@, title@, false),
    {
        self.pane_icon_muted(icon, title, false)
    }

    /// Appends an icon pane whose inactive chip may be visually muted.
    ///
    /// Muted panes remain in the focus and pointer order; this is intended for
    /// filters that retain zero-match tabs while de-emphasizing them.
    pub fn pane_icon_muted(self, icon: Text, title: Text, muted: bool) -> (tabs: Self)
        requires
            self.wf(),
            self@.titles.len() < 65535,
        ensures
            tabs.wf(),
            tabs@ == self@.with_pane(icon@, title@, muted),
    {
        let mut tabs: Tabs = self;
        let ghost before = tabs@;
        let ghost pane = (icon@, title@);
        tabs.titles.push(title);
        tabs.icons.push(icon);
        tabs.muted.push(muted);
        assert(tabs@ =~= before.with_pane(pane.0, pane.1, muted));
        tabs
    }

    /// Selects the active pane; out-of-range indices clamp to the last pane,
    /// whichever that is once every pane is there.
    pub fn select(self, index: u16) -> (tabs: Self)
        ensures
            tabs@ == (TabsView { idx: index, ..self@ }),
    {
        let mut tabs: Tabs = self;
        tabs.idx = index;
        tabs
    }

    /// The active pane.
    pub fn active(&self) -> (index: Option<usize>)
        ensures
            match index {
                Some(pane) => self@.titles.len() > 0 && pane == self@.active(),
                None => self@.titles.len() == 0,
            },
    {
        if self.titles.len() == 0 {
            None
        } else if (self.idx as usize) < self.titles.len() {
            Some(self.idx as usize)
        } else {
            Some(self.titles.len() - 1)
        }
    }

    /// The value of the set: the title of its active pane.
    pub fn value(&self) -> (title: Option<&Text>)
        ensures
            match title {
                Some(text) => self@.titles.len() > 0 && text@ == self@.titles[self@.active()],
                None => self@.titles.len() == 0,
            },
    {
        match self.active() {
            Some(index) => Some(&self.titles[index]),
            None => None,
        }
    }

    /// Whether a pane is the active one.
    fn is_active(&self, index: usize) -> (yes: bool)
        requires
            index < self@.titles.len(),
        ensures
            yes == (index == self@.active()),
    {
        if (self.idx as usize) < self.titles.len() {
            index == self.idx as usize
        } else {
            index == self.titles.len() - 1
        }
    }

    /// Chip width with icon and label.
    fn full_width(&self, index: usize) -> (cells: u16)
        requires
            self.wf(),
            index < self@.titles.len(),
        ensures
            cells == self@.full_width(index as int),
    {
        let icon: u16 = if self.icons[index].is_empty() {
            0
        } else {
            self.icons[index].width().saturating_add(1)
        };
        icon.saturating_add(self.titles[index].width()).saturating_add(2)
    }

    /// Width of a chip when the first `keep` keep their labels.
    fn chip_width(&self, index: usize, keep: usize) -> (cells: u16)
        requires
            self.wf(),
            index < self@.titles.len(),
        ensures
            cells == self@.chip_width(index as int, keep as int),
    {
        if self.is_full(index, keep) || self.icons[index].is_empty() {
            self.full_width(index)
        } else {
            self.icons[index].width().saturating_add(2)
        }
    }

    /// Whether a chip keeps its label.
    fn is_full(&self, index: usize, keep: usize) -> (full: bool)
        requires
            self.wf(),
            index < self@.titles.len(),
        ensures
            full == self@.is_full(index as int, keep as int),
    {
        index < keep || self.is_active(index)
    }

    /// Places every chip on the bar; how many rows it takes.
    pub fn chip_layout(&self, width: u16) -> (layout: (Vec<Chip>, u16))
        requires
            self.wf(),
        ensures
            (layout.0@, layout.1) == self@.layout(width),
    {
        let count: usize = self.titles.len();
        let mut keep: usize = count;
        loop
            invariant
                self.wf(),
                count == self@.titles.len(),
                keep <= count,
                self@.kept(count as int, width) == self@.kept(keep as int, width),
            ensures
                keep == self@.kept(count as int, width),
                keep <= count,
            decreases keep,
        {
            if keep == 0 {
                break;
            }
            let mut total: u16 = 2;
            let mut index: usize = 0;
            while index < count
                invariant
                    self.wf(),
                    count == self@.titles.len(),
                    index <= count,
                    total == self@.bar_width(keep as int, index as int),
                decreases count - index,
            {
                let gap: u16 = if index > 0 {
                    2
                } else {
                    0
                };
                total = total.saturating_add(self.chip_width(index, keep)).saturating_add(gap);
                index += 1;
            }
            if total <= width {
                break;
            }
            keep -= 1;
        }
        let ghost goal = self@.chips_from(keep as int, width, 0, 0, 2);
        let mut chips: Vec<Chip> = Vec::new();
        let mut row: u16 = 0;
        let mut x: u16 = 2;
        let mut index: usize = 0;
        assert(chips@ + goal.0 =~= goal.0);
        while index < count
            invariant
                self.wf(),
                count == self@.titles.len(),
                index <= count,
                chips@ + self@.chips_from(keep as int, width, index as int, row, x).0 == goal.0,
                self@.chips_from(keep as int, width, index as int, row, x).1 == goal.1,
            decreases count - index,
        {
            let ghost earlier = chips@;
            let ghost rest = self@.chips_from(keep as int, width, index as int, row, x).0;
            let cells: u16 = self.chip_width(index, keep);
            if x > 2 && x.saturating_add(cells) > width {
                row = row.saturating_add(1);
                x = 2;
            }
            let chip = Chip {
                index: index as u16,
                row,
                start: x,
                end: x.saturating_add(cells),
                full: self.is_full(index, keep),
            };
            chips.push(chip);
            x = x.saturating_add(cells).saturating_add(2);
            index += 1;
            assert(chips@ + self@.chips_from(keep as int, width, index as int, row, x).0 =~= earlier
                + rest);
        }
        assert(chips@ =~= goal.0);
        (chips, row.saturating_add(1))
    }

    /// Least and natural width; `widest` is the natural width of the widest pane.
    pub fn measure(&self, widest: u16) -> (widths: (u16, u16))
        ensures
            ({
                let bar = self@.natural_bar(self@.titles.len() as int);
                widths == (min16(bar, 24), max16(bar, widest))
            }),
    {
        let mut bar: u16 = 2;
        let mut at: usize = 0;
        while at < self.titles.len()
            invariant
                at <= self.titles@.len(),
                bar == self@.natural_bar(at as int),
            decreases self.titles.len() - at,
        {
            assert(self@.titles[at as int] == self.titles@[at as int]@);
            bar = bar.saturating_add(self.titles[at].width().saturating_add(4));
            at += 1;
        }
        (smaller(bar, 24), larger(bar, widest))
    }

    /// Rows of the set around a pane of `pane` rows.
    pub fn height(&self, width: u16, pane: u16) -> (rows: u16)
        requires
            self.wf(),
        ensures
            rows == sat_add(pane, sat_add(self@.layout(width).1, 1)),
    {
        let (_, bar) = self.chip_layout(width);
        pane.saturating_add(bar.saturating_add(1))
    }

    /// The area of the active pane, `height` rows high.
    pub fn place(&self, area: Rect, height: u16) -> (pane: Rect)
        requires
            self.wf(),
        ensures
            pane == (Rect {
                x: area.x,
                y: sat_add(area.y, sat_add(self@.layout(area.width).1, 1)),
                width: area.width,
                height,
            }),
    {
        let (_, bar) = self.chip_layout(area.width);
        Rect::new(
            area.x,
            area.y.saturating_add(bar.saturating_add(1)),
            area.width,
            height,
        )
    }

    /// The runs of a chip.
    fn chip_row(&self, paint: &TabsPaint<'_>, chip: Chip) -> (runs: Vec<Run>)
        requires
            self.wf(),
            chip.index < self@.titles.len(),
        ensures
            run_views(runs@) == self@.chip_runs(
                paint.ctx.theme,
                paint.ctx.charset,
                paint.focused,
                paint.hovered,
                chip,
            ),
    {
        let theme: &Theme = &paint.ctx.theme;
        let index: usize = chip.index as usize;
        let here: bool = match paint.hovered {
            Some(at) => at == chip.index,
            None => false,
        };
        assert(self@.titles[index as int] == self.titles@[index as int]@);
        assert(self@.icons[index as int] == self.icons@[index as int]@);
        let icon: bool = !self.icons[index].is_empty();
        let mut runs: Vec<Run> = no_runs();
        if self.is_active(index) && !self.muted[index] {
            let fill: Color = fill_of(theme.accent, paint.focused || here);
            let body: Style = Style::new().fg(theme.contrast).bg(fill).bold();
            if icon {
                push_run(&mut runs, self.icons[index].copy(), body);
                push_mark(&mut runs, " ", body);
            }
            push_run(&mut runs, self.titles[index].copy(), body);
            assert(run_views(runs@) =~= (if self@.has_icon(index as int) {
                seq![run(self@.icons[index as int], body), mark(" "@, body)]
            } else {
                Seq::empty()
            }).push(run(self@.titles[index as int], body)));
            return pill_row(runs, fill, paint.ctx.charset);
        }
        let mut style: Style = Style::new().fg(
            if self.muted[index] {
                theme.dim
            } else if here {
                theme.fg
            } else {
                theme.muted
            },
        );
        if here {
            style = style.underline();
        }
        let pad: Style = Style::new().fg(theme.fg);
        push_mark(&mut runs, " ", pad);
        if icon {
            push_run(&mut runs, self.icons[index].copy(), style);
            if chip.full {
                push_mark(&mut runs, " ", style);
            }
        }
        if chip.full || !icon {
            push_run(&mut runs, self.titles[index].copy(), style);
        }
        push_mark(&mut runs, " ", pad);
        assert(run_views(runs@) =~= self@.chip_runs(
            paint.ctx.theme,
            paint.ctx.charset,
            paint.focused,
            paint.hovered,
            chip,
        ));
        runs
    }

    /// Paints the bar and the rule under it, and registers the chips. The host
    /// paints the active pane.
    pub fn paint(&self, frame: &mut Frame, hits: &mut Vec<Hit>, paint: &TabsPaint<'_>)
        requires
            self.wf(),
            old(frame).wf(),
        ensures
            final(frame).wf(),
            final(frame).source() == old(frame).source(),
            ({
                let (painted, areas) = self@.bar_painted(
                    old(frame)@,
                    paint.ctx.theme,
                    paint.ctx.charset,
                    paint.focused,
                    paint.hovered,
                    paint.rect,
                    paint.clip,
                );
                final(frame)@ == painted && final(hits)@ == old(hits)@ + areas
            }),
    {
        let theme: &Theme = &paint.ctx.theme;
        let charset: Charset = paint.ctx.charset;
        let rect: Rect = paint.rect;
        let ghost earlier = hits@;
        if rect.y < paint.clip {
            let glyph: &'static str = if paint.focused {
                charset.cursor()
            } else {
                "  "
            };
            frame.put(rect.x, rect.y, &Text::cells_of(glyph), Style::new().fg(theme.accent));
        }
        let ghost opened = frame@;
        let (chips, rows) = self.chip_layout(rect.width);
        proof {
            chips_name_panes(
                self@,
                self@.kept(self@.titles.len() as int, rect.width),
                rect.width,
                0,
                0,
                2,
            );
        }
        let mut at: usize = 0;
        assert(earlier + Seq::<Hit>::empty() =~= earlier);
        while at < chips.len()
            invariant
                at <= chips@.len(),
                self.wf(),
                rect == paint.rect,
                forall|i: int|
                    0 <= i < chips@.len() ==> (#[trigger] chips@[i]).index < self@.titles.len(),
                frame.wf(),
                frame.source() == old(frame).source(),
                ({
                    let done = self@.chips_painted(
                        opened,
                        paint.ctx.theme,
                        paint.ctx.charset,
                        paint.focused,
                        paint.hovered,
                        rect,
                        paint.clip,
                        chips@,
                        at as int,
                    );
                    frame@ == done.0 && hits@ == earlier + done.1
                }),
            decreases chips.len() - at,
        {
            let ghost done = self@.chips_painted(
                opened,
                paint.ctx.theme,
                paint.ctx.charset,
                paint.focused,
                paint.hovered,
                rect,
                paint.clip,
                chips@,
                at as int,
            );
            let chip: Chip = chips[at];
            let x: u16 = rect.x.saturating_add(chip.start);
            let y: u16 = rect.y.saturating_add(chip.row);
            if y < paint.clip {
                let runs: Vec<Run> = self.chip_row(paint, chip);
                write_runs(frame, x, y, &runs);
                let area = Hit {
                    rect: Rect::new(x, y, chip.end.saturating_sub(chip.start), 1),
                    slot: self.slot,
                    tag: HitTag::Chip(chip.index),
                };
                hits.push(area);
                assert(hits@ =~= earlier + done.1.push(area));
            }
            at += 1;
        }
        let y: u16 = rect.y.saturating_add(rows);
        if y < paint.clip {
            let rule: String = rule_text(charset, rect.width);
            frame.put(
                rect.x,
                y,
                &Text::cells_of(rule.as_str()),
                Style::new().fg(theme.muted),
            );
        }
    }

    /// Handles one key.
    pub fn key(&mut self, key: Key) -> (flow: Flow)
        requires
            old(self).wf(),
        ensures
            final(self).wf(),
            ({
                let count = old(self)@.titles.len() as int;
                let moves = (key is Left || key is Right) && count > 0;
                &&& flow@ == (if moves {
                    FlowView::Consumed
                } else {
                    FlowView::Skip
                })
                &&& final(self)@ == (if moves {
                    TabsView {
                        idx: cycled(old(self)@.active(), count, key is Right) as u16,
                        ..old(self)@
                    }
                } else {
                    old(self)@
                })
            }),
    {
        let active: u16 = match self.active() {
            Some(index) => index as u16,
            None => return Flow::Skip,
        };
        match key {
            Key::Left => {
                self.idx = cycle(active, self.titles.len(), false);
                Flow::Consumed
            },
            Key::Right => {
                self.idx = cycle(active, self.titles.len(), true);
                Flow::Consumed
            },
            _ => Flow::Skip,
        }
    }

    /// Handles a pointer action.
    pub fn mouse(&mut self, mouse: Mouse, tag: HitTag) -> (flow: Flow)
        requires
            old(self).wf(),
        ensures
            final(self).wf(),
            match (mouse, tag) {
                (Mouse::Click, HitTag::Chip(index)) if index < old(self)@.titles.len() => flow@
                    == FlowView::Consumed && final(self)@ == (TabsView { idx: index, ..old(self)@ }),
                _ => flow@ == FlowView::Skip && final(self)@ == old(self)@,
            },
    {
        match (mouse, tag) {
            (Mouse::Click, HitTag::Chip(index)) => {
                if (index as usize) < self.titles.len() {
                    self.idx = index;
                    Flow::Consumed
                } else {
                    Flow::Skip
                }
            },
            _ => Flow::Skip,
        }
    }
}

/// Every chip names a pane, each pane has one chip, in order.
pub proof fn chips_name_panes(
    tabs: TabsView,
    keep: int,
    width: u16,
    index: int,
    row: u16,
    x: u16,
)
    requires
        tabs.wf(),
        0 <= index <= tabs.titles.len(),
    ensures
        tabs.chips_from(keep, width, index, row, x).0.len() == tabs.titles.len() - index,
        forall|i: int|
            0 <= i < tabs.titles.len() - index ==> (#[trigger] tabs.chips_from(
                keep,
                width,
                index,
                row,
                x,
            ).0[i]).index == index + i,
    decreases tabs.titles.len() - index,
{
    if index < tabs.titles.len() {
        let cells = tabs.chip_width(index, keep);
        let wraps = x > 2 && sat_add(x, cells) > width;
        let here = if wraps {
            sat_add(row, 1)
        } else {
            row
        };
        let start = if wraps {
            2
        } else {
            x
        };
        let next = sat_add(sat_add(start, cells), 2);
        chips_name_panes(tabs, keep, width, index + 1, here, next);
        let all = tabs.chips_from(keep, width, index, row, x).0;
        let rest = tabs.chips_from(keep, width, index + 1, here, next).0;
        assert(all.len() == rest.len() + 1);
        assert forall|i: int| 0 <= i < tabs.titles.len() - index implies (#[trigger] tabs.chips_from(
            keep,
            width,
            index,
            row,
            x,
        ).0[i]).index == index + i by {
            if i > 0 {
                assert(all[i] == rest[i - 1]);
            }
        }
    }
}

/// The active chip always keeps its label.
pub proof fn the_active_chip_keeps_its_label(tabs: TabsView, width: u16)
    requires
        tabs.wf(),
        tabs.titles.len() > 0,
    ensures
        tabs.layout(width).0[tabs.active()].full,
{
    let keep = tabs.kept(tabs.titles.len() as int, width);
    full_chips(tabs, keep, width, 0, 0, 2);
}

/// Chips are full where the layout says so.
proof fn full_chips(tabs: TabsView, keep: int, width: u16, index: int, row: u16, x: u16)
    requires
        tabs.wf(),
        0 <= index <= tabs.titles.len(),
    ensures
        tabs.chips_from(keep, width, index, row, x).0.len() == tabs.titles.len() - index,
        forall|i: int|
            0 <= i < tabs.titles.len() - index ==> (#[trigger] tabs.chips_from(
                keep,
                width,
                index,
                row,
                x,
            ).0[i]).full == tabs.is_full(index + i, keep),
    decreases tabs.titles.len() - index,
{
    if index < tabs.titles.len() {
        let cells = tabs.chip_width(index, keep);
        let wraps = x > 2 && sat_add(x, cells) > width;
        let here = if wraps {
            sat_add(row, 1)
        } else {
            row
        };
        let start = if wraps {
            2
        } else {
            x
        };
        let next = sat_add(sat_add(start, cells), 2);
        full_chips(tabs, keep, width, index + 1, here, next);
        let all = tabs.chips_from(keep, width, index, row, x).0;
        let rest = tabs.chips_from(keep, width, index + 1, here, next).0;
        assert forall|i: int| 0 <= i < tabs.titles.len() - index implies (#[trigger] tabs.chips_from(
            keep,
            width,
            index,
            row,
            x,
        ).0[i]).full == tabs.is_full(index + i, keep) by {
            if i > 0 {
                assert(all[i] == rest[i - 1]);
            }
        }
    }
}

/// Going right and left again returns to the same pane.
pub proof fn turns_undo_one_another(index: int, count: int)
    requires
        0 <= index < count,
    ensures
        cycled(cycled(index, count, true), count, false) == index,
{
    if index + 1 == count {
        vstd::arithmetic::div_mod::lemma_mod_self_0(count);
        vstd::arithmetic::div_mod::lemma_small_mod((count - 1) as nat, count as nat);
    } else {
        vstd::arithmetic::div_mod::lemma_small_mod((index + 1) as nat, count as nat);
        vstd::arithmetic::div_mod::lemma_mod_add_multiples_vanish(index, count);
        vstd::arithmetic::div_mod::lemma_small_mod(index as nat, count as nat);
    }
}

} // verus!
