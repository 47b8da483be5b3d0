//! A compact single-choice control.

use vstd::prelude::*;
use vstd::string::*;

use crate::color::Color;
use crate::events::{text_option, Flow, FlowView, Hit, HitTag, Slot};
use crate::frame::{Frame, FrameView};
use crate::geometry::{sat_add, sat_sub, Rect};
use crate::input::{Key, Mouse};
use crate::runs::{
    mark, no_runs, push_mark, push_run, run, run_views, write_runs, written, Run, RunView,
};
use crate::select::text_content;
use crate::strings::same_text;
use crate::style::{plain, Style, Underline};
use crate::tabs::{cycle, cycled};
use crate::text::{content, text_width, ClusterView, Text};

verus! {

/// One option of a segmented control.
pub struct SegmentOption {
    /// Value.
    pub value: String,
    /// Icon glyph; empty for none.
    pub icon: Text,
    /// Label; empty for none.
    pub label: Text,
}

/// One option of a segmented control.
pub struct SegmentOptionView {
    /// Value.
    pub value: Seq<char>,
    /// Icon glyph.
    pub icon: Seq<ClusterView>,
    /// Label.
    pub label: Seq<ClusterView>,
}

impl View for SegmentOption {
    type V = SegmentOptionView;

    open spec fn view(&self) -> SegmentOptionView {
        SegmentOptionView { value: self.value@, icon: self.icon@, label: self.label@ }
    }
}

/// The views of options.
pub open spec fn segment_option_views(options: Seq<SegmentOption>) -> Seq<SegmentOptionView> {
    options.map_values(|option: SegmentOption| option@)
}

/// A compact single-choice control with icon-and-label options.
pub struct Segmented {
    /// The control.
    pub slot: Slot,
    /// The value it is bound to.
    pub value: Option<String>,
    /// The options.
    pub options: Vec<SegmentOption>,
    /// Chosen option.
    pub idx: u16,
}

/// A compact single-choice control.
pub struct SegmentedView {
    /// The control.
    pub slot: Slot,
    /// The value it is bound to.
    pub value: Option<Seq<char>>,
    /// The options.
    pub options: Seq<SegmentOptionView>,
    /// Chosen option.
    pub idx: u16,
}

impl View for Segmented {
    type V = SegmentedView;

    open spec fn view(&self) -> SegmentedView {
        SegmentedView {
            slot: self.slot,
            value: text_option(self.value),
            options: segment_option_views(self.options@),
            idx: self.idx,
        }
    }
}

/// The fills and inks a segment can have, as the host mixes them from the
/// theme: at rest, under the pointer, chosen, and chosen under the pointer.
pub struct SegmentColors {
    /// Fill and ink at rest.
    pub rest: (Color, Color),
    /// Fill and ink under the pointer.
    pub hover: (Color, Color),
    /// Fill and ink of the choice.
    pub chosen: (Color, Color),
    /// Fill and ink of the choice under the pointer.
    pub chosen_hover: (Color, Color),
}

/// Cells of an option.
pub open spec fn option_cells(option: SegmentOptionView) -> u16 {
    sat_add(
        sat_add(
            sat_add(2, text_width(option.icon)),
            if content(option.icon).len() > 0 && content(option.label).len() > 0 {
                1
            } else {
                0
            },
        ),
        text_width(option.label),
    )
}

/// Cells of the first `count` options.
pub open spec fn options_cells(options: Seq<SegmentOptionView>, count: int) -> u16
    decreases count,
{
    if count <= 0 {
        0
    } else {
        sat_add(options_cells(options, count - 1), option_cells(options[count - 1]))
    }
}

impl SegmentedView {
    /// The first option from `at` on with a value.
    pub open spec fn with_value(self, value: Seq<char>, at: int) -> Option<int>
        decreases self.options.len() - at,
    {
        if at < 0 || at >= self.options.len() {
            None
        } else if self.options[at].value == value {
            Some(at)
        } else {
            self.with_value(value, at + 1)
        }
    }

    /// The control with the option of its bound value chosen, where there is
    /// one.
    pub open spec fn synced(self) -> Self {
        match self.value {
            Some(value) => match self.with_value(value, 0) {
                Some(index) => SegmentedView { idx: index as u16, ..self },
                None => self,
            },
            None => self,
        }
    }

    /// The style of an option.
    pub open spec fn option_style(
        self,
        colors: SegmentColors,
        focused: bool,
        hovered: Option<u16>,
        index: int,
    ) -> Style {
        let chosen = index == self.idx;
        let here = hovered matches Some(at) && at == index;
        let (fill, ink) = if chosen && here {
            colors.chosen_hover
        } else if chosen {
            colors.chosen
        } else if here {
            colors.hover
        } else {
            colors.rest
        };
        Style {
            foreground: ink,
            background: fill,
            bold: chosen,
            underline: if chosen && focused {
                Underline::Straight
            } else {
                Underline::Off
            },
            ..plain()
        }
    }

    /// The runs of an option.
    pub open spec fn option_runs(self, index: int, style: Style) -> Seq<RunView> {
        let option = self.options[index];
        let icon = content(option.icon).len() > 0;
        let label = content(option.label).len() > 0;
        (seq![mark(" "@, style)] + (if icon && label {
            seq![run(option.icon, style), mark(" "@, style), run(option.label, style)]
        } else if icon {
            seq![run(option.icon, style)]
        } else if label {
            seq![run(option.label, style)]
        } else {
            Seq::empty()
        })).push(mark(" "@, style))
    }

    /// The frame with the first `count` options, the column behind them, and
    /// their areas.
    pub open spec fn painted(
        self,
        frame: FrameView,
        colors: SegmentColors,
        focused: bool,
        hovered: Option<u16>,
        rect: Rect,
        count: int,
    ) -> (FrameView, u16, Seq<Hit>)
        decreases count,
    {
        if count <= 0 {
            (frame, rect.x, Seq::empty())
        } else {
            let (earlier, column, areas) = self.painted(
                frame,
                colors,
                focused,
                hovered,
                rect,
                count - 1,
            );
            let style = self.option_style(colors, focused, hovered, count - 1);
            let (shown, end) = written(
                earlier,
                column,
                rect.y,
                self.option_runs(count - 1, style),
            );
            let from = sat_sub(column, rect.x);
            (
                shown,
                end,
                areas.push(
                    Hit {
                        rect: Rect {
                            x: sat_add(rect.x, from),
                            y: rect.y,
                            width: sat_sub(sat_sub(end, rect.x), from),
                            height: 1,
                        },
                        slot: self.slot,
                        tag: HitTag::Chip((count - 1) as u16),
                    },
                ),
            )
        }
    }
}

impl Segmented {
    /// The options can be numbered.
    pub open spec fn wf(self) -> bool {
        self@.options.len() < 65536
    }

    /// Creates an empty segmented control.
    pub fn new(slot: Slot) -> (control: Self)
        ensures
            control.wf(),
            control@ == (SegmentedView { slot, value: None, options: Seq::empty(), idx: 0 }),
    {
        let control = Segmented { slot, value: None, options: Vec::new(), idx: 0 };
        assert(control@.options =~= Seq::empty());
        control
    }

    /// Binds the control to a value.
    pub fn with(self, value: Option<String>) -> (control: Self)
        requires
            self.wf(),
        ensures
            control.wf(),
            control@ == (SegmentedView { value: text_option(value), ..self@ }).synced(),
    {
        let mut control: Segmented = self;
        control.value = value;
        control.sync_value();
        control
    }

    /// Binds the control to a value given as text.
    pub fn with_str(self, value: &str) -> (control: Self)
        requires
            self.wf(),
        ensures
            control.wf(),
            control@ == (SegmentedView { value: Some(value@), ..self@ }).synced(),
    {
        self.with(Some(value.to_owned()))
    }

    /// Appends an option. Without a value its label stands in, without a label
    /// the name of its icon.
    pub fn option(
        self,
        value: Option<String>,
        icon: Text,
        icon_name: String,
        label: Text,
    ) -> (control: Self)
        requires
            self.wf(),
            self@.options.len() < 65535,
        ensures
            control.wf(),
            control@ == (SegmentedView {
                options: self@.options.push(
                    SegmentOptionView {
                        value: match value {
                            Some(own) => own@,
                            None => if content(label@).len() > 0 {
                                content(label@)
                            } else {
                                icon_name@
                            },
                        },
                        icon: icon@,
                        label: label@,
                    },
                ),
                ..self@
            }).synced(),
    {
        let mut control: Segmented = self;
        let ghost before = control@.options;
        let chosen: String = match value {
            Some(own) => own,
            None => if label.is_empty() {
                icon_name
            } else {
                text_content(&label)
            },
        };
        let option = SegmentOption { value: chosen, icon, label };
        let ghost added = option@;
        control.options.push(option);
        assert(control@.options =~= before.push(added));
        control.sync_value();
        control
    }

    /// Chooses the option of the bound value.
    fn sync_value(&mut self)
        requires
            old(self).wf(),
        ensures
            final(self).wf(),
            final(self)@ == old(self)@.synced(),
    {
        let mut found: Option<usize> = None;
        if let Some(value) = &self.value {
            let mut at: usize = 0;
            while at < self.options.len() && found.is_none()
                invariant
                    at <= self.options@.len(),
                    match found {
                        Some(index) => self@.with_value(value@, 0) == Some(index as int) && index
                            < self@.options.len(),
                        None => self@.with_value(value@, 0) == self@.with_value(value@, at as int),
                    },
                decreases
                        self.options.len() - at + (if found is None {
                            1int
                        } else {
                            0
                        }),
            {
                assert(self@.options[at as int] == self.options@[at as int]@);
                if same_text(self.options[at].value.as_str(), value.as_str()) {
                    found = Some(at);
                } else {
                    at += 1;
                }
            }
        }
        if let Some(index) = found {
            self.idx = index as u16;
        }
    }

    /// Width of the control.
    pub fn measure(&self) -> (width: u16)
        ensures
            width == options_cells(self@.options, self@.options.len() as int),
    {
        let mut width: u16 = 0;
        let mut at: usize = 0;
        while at < self.options.len()
            invariant
                at <= self.options@.len(),
                width == options_cells(self@.options, at as int),
            decreases self.options.len() - at,
        {
            let option: &SegmentOption = &self.options[at];
            assert(self@.options[at as int] == option@);
            let gap: u16 = if !option.icon.is_empty() && !option.label.is_empty() {
                1
            } else {
                0
            };
            width = width.saturating_add(
                2u16.saturating_add(option.icon.width()).saturating_add(gap).saturating_add(
                    option.label.width(),
                ),
            );
            at += 1;
        }
        width
    }

    /// The style of an option.
    fn style_of(
        &self,
        colors: &SegmentColors,
        focused: bool,
        hovered: Option<u16>,
        index: usize,
    ) -> (style: Style)
        ensures
            style == self@.option_style(*colors, focused, hovered, index as int),
    {
        let chosen: bool = index == self.idx as usize;
        let here: bool = match hovered {
            Some(at) => at as usize == index,
            None => false,
        };
        let (fill, ink) = if chosen && here {
            colors.chosen_hover
        } else if chosen {
            colors.chosen
        } else if here {
            colors.hover
        } else {
            colors.rest
        };
        let mut style: Style = Style::new().fg(ink).bg(fill);
        if chosen {
            style = style.bold();
        }
        if chosen && focused {
            style = style.underline();
        }
        style
    }

    /// The runs of an option.
    fn option_row(&self, index: usize, style: Style) -> (runs: Vec<Run>)
        requires
            index < self@.options.len(),
        ensures
            run_views(runs@) == self@.option_runs(index as int, style),
    {
        let option: &SegmentOption = &self.options[index];
        assert(self@.options[index as int] == option@);
        let icon: bool = !option.icon.is_empty();
        let label: bool = !option.label.is_empty();
        let mut runs: Vec<Run> = no_runs();
        push_mark(&mut runs, " ", style);
        if icon {
            push_run(&mut runs, option.icon.copy(), style);
        }
        if icon && label {
            push_mark(&mut runs, " ", style);
        }
        if label {
            push_run(&mut runs, option.label.copy(), style);
        }
        push_mark(&mut runs, " ", style);
        assert(run_views(runs@) =~= self@.option_runs(index as int, style));
        runs
    }

    /// Paints the options and registers their areas.
    pub fn paint(
        &self,
        frame: &mut Frame,
        hits: &mut Vec<Hit>,
        colors: &SegmentColors,
        focused: bool,
        hovered: Option<u16>,
        rect: Rect,
        clip: u16,
    )
        requires
            self.wf(),
            old(frame).wf(),
        ensures
            final(frame).wf(),
            final(frame).source() == old(frame).source(),
            ({
                let done = self@.painted(
                    old(frame)@,
                    *colors,
                    focused,
                    hovered,
                    rect,
                    self@.options.len() as int,
                );
                if rect.y >= clip || rect.width == 0 || rect.height == 0 {
                    final(frame)@ == old(frame)@ && final(hits)@ == old(hits)@
                } else {
                    final(frame)@ == done.0 && final(hits)@ == old(hits)@ + done.2
                }
            }),
    {
        if rect.y >= clip || rect.width == 0 || rect.height == 0 {
            return;
        }
        let ghost before = frame@;
        let ghost earlier = hits@;
        let mut column: u16 = rect.x;
        let mut at: usize = 0;
        assert(earlier + Seq::<Hit>::empty() =~= earlier);
        while at < self.options.len()
            invariant
                at <= self.options@.len(),
                self.wf(),
                frame.wf(),
                frame.source() == old(frame).source(),
                ({
                    let done = self@.painted(before, *colors, focused, hovered, rect, at as int);
                    frame@ == done.0 && column == done.1 && hits@ == earlier + done.2
                }),
            decreases self.options.len() - at,
        {
            let ghost done = self@.painted(before, *colors, focused, hovered, rect, at as int);
            let style: Style = self.style_of(colors, focused, hovered, at);
            let runs: Vec<Run> = self.option_row(at, style);
            let end: u16 = write_runs(frame, column, rect.y, &runs);
            let from: u16 = column.saturating_sub(rect.x);
            let area = Hit {
                rect: Rect::new(
                    rect.x.saturating_add(from),
                    rect.y,
                    end.saturating_sub(rect.x).saturating_sub(from),
                    1,
                ),
                slot: self.slot,
                tag: HitTag::Chip(at as u16),
            };
            hits.push(area);
            assert(hits@ =~= earlier + done.2.push(area));
            column = end;
            at += 1;
        }
    }

    /// Handles one key.
    pub fn key(&mut self, key: Key) -> (flow: Flow)
        requires
            old(self).wf(),
        ensures
            final(self).wf(),
            ({
                let count = old(self)@.options.len() as int;
                let moves = (key is Left || key is Right) && count > 0;
                &&& flow@ == (if moves {
                    FlowView::Consumed
                } else {
                    FlowView::Skip
                })
                &&& final(self)@ == (if moves {
                    SegmentedView {
                        idx: cycled(old(self)@.idx as int, count, key is Right) as u16,
                        ..old(self)@
                    }
                } else {
                    old(self)@
                })
            }),
    {
        if self.options.len() == 0 {
            return Flow::Skip;
        }
        match key {
            Key::Left => {
                self.idx = cycle(self.idx, self.options.len(), false);
                Flow::Consumed
            },
            Key::Right => {
                self.idx = cycle(self.idx, self.options.len(), true);
                Flow::Consumed
            },
            _ => Flow::Skip,
        }
    }

    /// Handles a pointer action.
    pub fn mouse(&mut self, mouse: Mouse, tag: HitTag) -> (flow: Flow)
        requires
            old(self).wf(),
        ensures
            final(self).wf(),
            match (mouse, tag) {
                (Mouse::Click, HitTag::Chip(index)) if index < old(self)@.options.len() => flow@
                    == FlowView::Consumed && final(self)@ == (SegmentedView {
                    idx: index,
                    ..old(self)@
                }),
                _ => flow@ == FlowView::Skip && final(self)@ == old(self)@,
            },
    {
        match (mouse, tag) {
            (Mouse::Click, HitTag::Chip(index)) => {
                if (index as usize) < self.options.len() {
                    self.idx = index;
                    Flow::Consumed
                } else {
                    Flow::Skip
                }
            },
            _ => Flow::Skip,
        }
    }

    /// Value of the chosen option.
    pub fn chosen_value(&self) -> (value: Option<String>)
        ensures
            text_option(value) == (if self@.idx < self@.options.len() {
                Some(self@.options[self@.idx as int].value)
            } else {
                None
            }),
    {
        let index: usize = self.idx as usize;
        if index < self.options.len() {
            Some(self.options[index].value.clone())
        } else {
            None
        }
    }
}

} // verus!
