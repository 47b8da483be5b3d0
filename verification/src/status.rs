//! One-line powerline-style status groups, and the billing labels they show.

use vstd::prelude::*;
use vstd::string::*;

use crate::charset::Charset;
use crate::color::Color;
use crate::frame::{Frame, FrameView};
use crate::geometry::{sat_add, sat_sub, Rect};
use crate::markup::Align;
use crate::runs::{
    cut_runs, mark, no_runs, push_cut, push_mark, push_run, run, run_views, write_runs, written,
    Run, RunView,
};
use crate::style::{inherited, plain, Style};
use crate::text::{ascii_clusters, content, text_width, ClusterView, Text};

verus! {

/// Declarative segment data of a status group.
pub struct Segment {
    /// Label text.
    pub label: Text,
    /// The segment's own style.
    pub style: Style,
}

/// A segment's label and style.
pub struct SegmentView {
    /// Label text.
    pub label: Seq<ClusterView>,
    /// The segment's own style.
    pub style: Style,
}

impl View for Segment {
    type V = SegmentView;

    open spec fn view(&self) -> SegmentView {
        SegmentView { label: self.label@, style: self.style }
    }
}

/// The views of segments.
pub open spec fn segment_views(segments: Seq<Segment>) -> Seq<SegmentView> {
    segments.map_values(|segment: Segment| segment@)
}

impl Segment {
    /// Creates an empty status segment.
    pub fn new() -> (segment: Self)
        ensures
            segment@ == (SegmentView { label: Seq::empty(), style: plain() }),
    {
        Segment { label: Text::empty(), style: Style::new() }
    }

    /// Appends label text. `joined` is the whole label, measured anew: a
    /// cluster may reach across the seam.
    pub fn label(self, label: &str, joined: Text) -> (segment: Self)
        requires
            content(joined@) == content(self@.label) + label@,
        ensures
            segment@ == (SegmentView { label: joined@, ..self@ }),
    {
        let mut segment: Segment = self;
        segment.label = joined;
        segment
    }

    /// Sets the segment's own style.
    pub fn with(self, style: Style) -> (segment: Self)
        ensures
            segment@ == (SegmentView { style, ..self@ }),
    {
        Segment { label: self.label, style }
    }
}

/// A one-line powerline-style status group.
///
/// `Align::End` mirrors the caps for a band docked against the right edge: the
/// opening cap points into the background and the closing edge sits solid on
/// the margin.
pub struct Status {
    /// Dock side.
    pub align: Align,
    /// The band's style.
    pub style: Style,
    /// The segments.
    pub segments: Vec<Segment>,
    /// Cells of the labels up to and with each segment.
    pub text_widths: Vec<u16>,
}

/// A status group.
pub struct StatusView {
    /// Dock side.
    pub align: Align,
    /// The band's style.
    pub style: Style,
    /// The segments.
    pub segments: Seq<SegmentView>,
}

/// Cells of the first `count` labels, held at the largest coordinate.
pub open spec fn labels_width(segments: Seq<SegmentView>, count: int) -> u16
    decreases count,
{
    if count <= 0 {
        0
    } else {
        sat_add(labels_width(segments, count - 1), text_width(segments[count - 1].label))
    }
}

/// Cells of glyphs that take one each.
pub open spec fn glyph_width(glyphs: Seq<char>) -> u16 {
    text_width(ascii_clusters(glyphs))
}

/// Product of two cell counts, held at the largest.
pub open spec fn sat_mul(a: u16, b: u16) -> u16 {
    if a * b <= 65535 {
        (a * b) as u16
    } else {
        65535
    }
}

/// Product of two cell counts, held at the largest.
pub fn times(a: u16, b: u16) -> (product: u16)
    ensures
        product == sat_mul(a, b),
{
    proof {
        assert(a * b <= 65535 * 65535) by (nonlinear_arith)
            requires
                a <= 65535,
                b <= 65535,
        ;
    }
    let product: u32 = (a as u32) * (b as u32);
    if product <= 65535 {
        product as u16
    } else {
        65535
    }
}

/// Band chrome of a dock side: `(opening cap, separator, closing cap)`.
pub open spec fn band(align: Align, charset: Charset) -> (Seq<char>, Seq<char>, Seq<char>) {
    match align {
        Align::End => match charset {
            Charset::Ascii => ("<"@, "<"@, ""@),
            Charset::Unicode => ("◀"@, "<"@, ""@),
            Charset::NerdFont => ("\u{e0b2}"@, "\u{e0b3}"@, ""@),
        },
        _ => match charset {
            Charset::Ascii => (""@, ">"@, ">"@),
            Charset::Unicode => (""@, ">"@, "▶"@),
            Charset::NerdFont => ("\u{e0b6}"@, "\u{e0b1}"@, "\u{e0b0}"@),
        },
    }
}

/// A count as cells, held at the largest coordinate.
pub open spec fn cell_count(count: int) -> u16 {
    if count <= 0 {
        0
    } else if count <= 65535 {
        count as u16
    } else {
        65535
    }
}

impl StatusView {
    /// Cells of the group with its first `count` segments.
    pub open spec fn group_width(self, count: int, charset: Charset) -> u16 {
        let (left_cap, separator, cap) = band(self.align, charset);
        sat_add(
            sat_add(
                sat_add(
                    sat_add(
                        labels_width(self.segments, count),
                        sat_mul(cell_count(count - 1), sat_add(glyph_width(separator), 2)),
                    ),
                    glyph_width(left_cap),
                ),
                2,
            ),
            glyph_width(cap),
        )
    }

    /// How many of the first `count` segments show in `width` cells: trailing
    /// ones are dropped whole, the first never is.
    pub open spec fn visible(self, count: int, charset: Charset, width: u16) -> int
        decreases count,
    {
        if count > 1 && self.group_width(count, charset) > width {
            self.visible(count - 1, charset, width)
        } else {
            count
        }
    }

    /// The style a segment's label shows in.
    pub open spec fn segment_style(self, index: int) -> Style {
        let own = inherited(self.segments[index].style, self.style);
        if own.background == Color::Default {
            Style { background: self.style.background, ..own }
        } else {
            own
        }
    }

    /// The caps transition from the band onto the surrounding background.
    pub open spec fn edge_style(self) -> Style {
        Style { foreground: self.style.background, ..plain() }
    }

    /// The style of what stands between segments.
    pub open spec fn separator_style(self) -> Style {
        Style { dim: true, ..self.style }
    }

    /// The runs of the first `count` segments and what stands between them.
    pub open spec fn segment_runs(self, count: int, charset: Charset) -> Seq<RunView>
        decreases count,
    {
        if count <= 0 {
            Seq::empty()
        } else {
            let earlier = self.segment_runs(count - 1, charset);
            let label = run(self.segments[count - 1].label, self.segment_style(count - 1));
            if count > 1 {
                earlier.push(mark(" "@, self.separator_style())).push(
                    mark(band(self.align, charset).1, self.separator_style()),
                ).push(mark(" "@, self.separator_style())).push(label)
            } else {
                earlier.push(label)
            }
        }
    }

    /// The whole band with its first `count` segments.
    pub open spec fn band_runs(self, count: int, charset: Charset) -> Seq<RunView> {
        let (left_cap, separator, cap) = band(self.align, charset);
        (seq![mark(left_cap, self.edge_style()), mark(" "@, self.style)] + self.segment_runs(
            count,
            charset,
        )).push(mark(" "@, self.style)).push(mark(cap, self.edge_style()))
    }

    /// The band with its one segment cut to `interior` cells between the caps.
    /// Padding gives way before the label does.
    pub open spec fn cut_band(self, interior: u16, charset: Charset) -> Seq<RunView> {
        let (left_cap, separator, cap) = band(self.align, charset);
        let fit = (interior - (if interior >= 3 {
            2int
        } else if interior >= 2 {
            1
        } else {
            0
        })) as u16;
        let pad = seq![mark(" "@, self.style)];
        seq![mark(left_cap, self.edge_style())] + (if interior >= 2 {
            pad
        } else {
            Seq::empty()
        }) + cut_runs(self.segments[0].label, fit, self.segment_style(0)) + (if interior >= 3 {
            pad
        } else {
            Seq::empty()
        }) + seq![mark(cap, self.edge_style())]
    }

    /// The frame with the group painted into `rect`, down to row `clip`.
    pub open spec fn painted(
        self,
        frame: FrameView,
        charset: Charset,
        rect: Rect,
        clip: u16,
    ) -> FrameView {
        let (left_cap, separator, cap) = band(self.align, charset);
        let count = self.visible(self.segments.len() as int, charset, rect.width);
        let caps = sat_add(glyph_width(left_cap), glyph_width(cap));
        if rect.y >= clip || rect.width == 0 {
            frame
        } else if count == 1 && self.group_width(count, charset) > rect.width && caps <= rect.width {
            written(frame, rect.x, rect.y, self.cut_band(sat_sub(rect.width, caps), charset)).0
        } else if rect.width < sat_add(caps, 2) {
            let opened = if glyph_width(left_cap) <= rect.width {
                frame.put(rect.x, rect.y, ascii_clusters(left_cap), self.edge_style())
            } else {
                frame
            };
            if caps <= rect.width {
                opened.put(
                    sat_add(rect.x, sat_sub(rect.width, glyph_width(cap))),
                    rect.y,
                    ascii_clusters(cap),
                    self.edge_style(),
                )
            } else {
                opened
            }
        } else {
            written(frame, rect.x, rect.y, self.band_runs(count, charset)).0
        }
    }
}

impl View for Status {
    type V = StatusView;

    open spec fn view(&self) -> StatusView {
        StatusView {
            align: self.align,
            style: self.style,
            segments: segment_views(self.segments@),
        }
    }
}

impl Status {
    /// The widths kept are those of the segments.
    pub open spec fn wf(self) -> bool {
        &&& self.text_widths@.len() == self.segments@.len()
        &&& forall|i: int|
            0 <= i < self.text_widths@.len() ==> #[trigger] self.text_widths@[i] == labels_width(
                self@.segments,
                i + 1,
            )
    }

    /// Creates an empty status group.
    pub fn new() -> (status: Self)
        ensures
            status.wf(),
            status@ == (StatusView { align: Align::Start, style: plain(), segments: Seq::empty() }),
    {
        let status = Status {
            align: Align::Start,
            style: Style::new(),
            segments: Vec::new(),
            text_widths: Vec::new(),
        };
        assert(status@.segments =~= Seq::empty());
        status
    }

    /// Sets the dock side and the band's style.
    pub fn with(self, align: Align, style: Style) -> (status: Self)
        requires
            self.wf(),
        ensures
            status.wf(),
            status@ == (StatusView { align, style, ..self@ }),
    {
        Status { align, style, segments: self.segments, text_widths: self.text_widths }
    }

    /// Appends a segment to the group.
    pub fn segment(self, segment: Segment) -> (status: Self)
        requires
            self.wf(),
        ensures
            status.wf(),
            status@ == (StatusView { segments: self@.segments.push(segment@), ..self@ }),
    {
        let mut status: Status = self;
        status.push_segment(segment);
        status
    }

    /// Replaces the segments.
    pub fn set_segments(&mut self, segments: Vec<Segment>)
        ensures
            final(self).wf(),
            final(self)@ == (StatusView { segments: segment_views(segments@), ..old(self)@ }),
    {
        let mut widths: Vec<u16> = Vec::new();
        let ghost views = segment_views(segments@);
        let mut at: usize = 0;
        let mut width: u16 = 0;
        while at < segments.len()
            invariant
                at <= segments.len(),
                views == segment_views(segments@),
                width == labels_width(views, at as int),
                widths.len() == at,
                forall|i: int|
                    0 <= i < at ==> #[trigger] widths@[i] == labels_width(views, i + 1),
            decreases segments.len() - at,
        {
            width = width.saturating_add(segments[at].label.width());
            widths.push(width);
            at += 1;
        }
        self.segments = segments;
        self.text_widths = widths;
    }

    /// Appends a segment.
    fn push_segment(&mut self, segment: Segment)
        requires
            old(self).wf(),
        ensures
            final(self).wf(),
            final(self)@ == (StatusView {
                segments: old(self)@.segments.push(segment@),
                ..old(self)@
            }),
    {
        let ghost before = self@.segments;
        let count: usize = self.text_widths.len();
        let last: u16 = if count > 0 {
            self.text_widths[count - 1]
        } else {
            0
        };
        let width: u16 = last.saturating_add(segment.label.width());
        let ghost added = segment@;
        self.segments.push(segment);
        self.text_widths.push(width);
        assert(self@.segments =~= before.push(added));
        assert forall|i: int| 0 <= i < self.text_widths@.len() implies #[trigger] self.text_widths@[i]
            == labels_width(self@.segments, i + 1) by {
            labels_agree(before, self@.segments, i);
            if i < count {
                labels_agree(before, self@.segments, i + 1);
            }
        }
    }

    /// Band chrome for this group's dock side.
    fn chrome(&self, charset: Charset) -> (chrome: (&'static str, &'static str, &'static str))
        ensures
            (chrome.0@, chrome.1@, chrome.2@) == band(self@.align, charset),
    {
        match self.align {
            Align::End => charset.status_band_end(),
            Align::Start | Align::Center => charset.status_band(),
        }
    }

    /// Cells of the group with its first `count` segments.
    pub fn group_width(&self, count: usize, charset: Charset) -> (width: u16)
        requires
            self.wf(),
            count <= self@.segments.len(),
        ensures
            width == self@.group_width(count as int, charset),
    {
        let (left_cap, separator, cap) = self.chrome(charset);
        let text: u16 = if count > 0 {
            self.text_widths[count - 1]
        } else {
            0
        };
        let gaps: u16 = if count == 0 {
            0
        } else if count - 1 <= 65535 {
            (count - 1) as u16
        } else {
            65535
        };
        let separators: u16 = times(gaps, Text::cells_of(separator).width().saturating_add(2));
        text.saturating_add(separators).saturating_add(
            Text::cells_of(left_cap).width(),
        ).saturating_add(2).saturating_add(Text::cells_of(cap).width())
    }

    /// Least and natural width: one segment, or all of them.
    pub fn measure(&self, charset: Charset) -> (widths: (u16, u16))
        requires
            self.wf(),
        ensures
            widths.0 == self@.group_width(
                (if self@.segments.len() > 0 {
                    1int
                } else {
                    0
                }),
                charset,
            ),
            widths.1 == self@.group_width(self@.segments.len() as int, charset),
    {
        let count: usize = self.segments.len();
        let least: usize = if count > 0 {
            1
        } else {
            0
        };
        (self.group_width(least, charset), self.group_width(count, charset))
    }

    /// The style a segment's label shows in.
    fn segment_style(&self, index: usize) -> (style: Style)
        requires
            index < self@.segments.len(),
        ensures
            style == self@.segment_style(index as int),
    {
        let own: Style = self.segments[index].style.inherit(self.style);
        if own.background_color() == Color::Default {
            own.bg(self.style.background_color())
        } else {
            own
        }
    }

    /// The whole band with its first `count` segments.
    fn band_row(&self, count: usize, charset: Charset) -> (runs: Vec<Run>)
        requires
            count <= self@.segments.len(),
        ensures
            run_views(runs@) == self@.band_runs(count as int, charset),
    {
        let (left_cap, separator, cap) = self.chrome(charset);
        let edge: Style = Style::new().fg(self.style.background_color());
        let mut runs: Vec<Run> = no_runs();
        push_mark(&mut runs, left_cap, edge);
        push_mark(&mut runs, " ", self.style);
        let ghost opened = run_views(runs@);
        assert(opened =~= seq![mark(left_cap@, edge), mark(" "@, self.style)]);
        let mut at: usize = 0;
        assert(opened + self@.segment_runs(0, charset) =~= opened);
        while at < count
            invariant
                at <= count <= self@.segments.len(),
                separator@ == band(self@.align, charset).1,
                run_views(runs@) == opened + self@.segment_runs(at as int, charset),
            decreases count - at,
        {
            let ghost earlier = self@.segment_runs(at as int, charset);
            if at > 0 {
                push_mark(&mut runs, " ", self.style.dim());
                push_mark(&mut runs, separator, self.style.dim());
                push_mark(&mut runs, " ", self.style.dim());
            }
            push_run(&mut runs, self.segments[at].label.copy(), self.segment_style(at));
            at += 1;
            assert(run_views(runs@) =~= opened + self@.segment_runs(at as int, charset));
        }
        push_mark(&mut runs, " ", self.style);
        push_mark(&mut runs, cap, edge);
        assert(run_views(runs@) =~= self@.band_runs(count as int, charset));
        runs
    }

    /// The band with its one segment cut.
    fn cut_row(&self, interior: u16, charset: Charset) -> (runs: Vec<Run>)
        requires
            self@.segments.len() > 0,
        ensures
            run_views(runs@) == self@.cut_band(interior, charset),
    {
        let (left_cap, separator, cap) = self.chrome(charset);
        let edge: Style = Style::new().fg(self.style.background_color());
        let left_pad: bool = interior >= 2;
        let right_pad: bool = interior >= 3;
        let fit: u16 = if right_pad {
            interior - 2
        } else if left_pad {
            interior - 1
        } else {
            interior
        };
        let mut runs: Vec<Run> = no_runs();
        push_mark(&mut runs, left_cap, edge);
        if left_pad {
            push_mark(&mut runs, " ", self.style);
        }
        push_cut(&mut runs, &self.segments[0].label, fit, self.segment_style(0));
        if right_pad {
            push_mark(&mut runs, " ", self.style);
        }
        push_mark(&mut runs, cap, edge);
        assert(run_views(runs@) =~= self@.cut_band(interior, charset));
        runs
    }

    /// Paints the group into `rect`, down to row `clip`.
    pub fn paint(&self, frame: &mut Frame, charset: Charset, rect: Rect, clip: u16)
        requires
            self.wf(),
            old(frame).wf(),
        ensures
            final(frame).wf(),
            final(frame).source() == old(frame).source(),
            final(frame)@ == self@.painted(old(frame)@, charset, rect, clip),
    {
        if rect.y >= clip || rect.width == 0 {
            return;
        }
        let mut visible: usize = self.segments.len();
        while visible > 1 && self.group_width(visible, charset) > rect.width
            invariant
                self.wf(),
                visible <= self@.segments.len(),
                self@.visible(self@.segments.len() as int, charset, rect.width) == self@.visible(
                    visible as int,
                    charset,
                    rect.width,
                ),
            decreases visible,
        {
            visible -= 1;
        }
        let (left_cap, _, cap) = self.chrome(charset);
        let edge: Style = Style::new().fg(self.style.background_color());
        let opening: Text = Text::cells_of(left_cap);
        let closing: Text = Text::cells_of(cap);
        let left_width: u16 = opening.width();
        let cap_width: u16 = closing.width();
        let caps: u16 = left_width.saturating_add(cap_width);
        if visible == 1 && self.group_width(visible, charset) > rect.width && caps <= rect.width {
            let runs: Vec<Run> = self.cut_row(rect.width - caps, charset);
            write_runs(frame, rect.x, rect.y, &runs);
            return;
        }
        if rect.width < caps.saturating_add(2) {
            if left_width <= rect.width {
                frame.put(rect.x, rect.y, &opening, edge);
            }
            if caps <= rect.width {
                frame.put(
                    rect.x.saturating_add(rect.width - cap_width),
                    rect.y,
                    &closing,
                    edge,
                );
            }
            return;
        }
        let runs: Vec<Run> = self.band_row(visible, charset);
        write_runs(frame, rect.x, rect.y, &runs);
    }
}

/// The first labels take the same cells in two groups that share them.
proof fn labels_agree(a: Seq<SegmentView>, b: Seq<SegmentView>, count: int)
    requires
        0 <= count <= a.len(),
        a.len() <= b.len(),
        forall|i: int| 0 <= i < a.len() ==> a[i] == b[i],
    ensures
        labels_width(a, count) == labels_width(b, count),
    decreases count,
{
    if count > 0 {
        labels_agree(a, b, count - 1);
    }
}

/// A group never shows more segments than it has, shows all of them where they
/// fit, and hides the first only when there is none.
pub proof fn whole_trailing_segments_are_dropped(
    status: StatusView,
    count: int,
    charset: Charset,
    width: u16,
)
    requires
        0 <= count,
    ensures
        0 <= status.visible(count, charset, width) <= count,
        count >= 1 ==> status.visible(count, charset, width) >= 1,
        status.group_width(count, charset) <= width ==> status.visible(count, charset, width)
            == count,
        status.visible(count, charset, width) > 1 ==> status.group_width(
            status.visible(count, charset, width),
            charset,
        ) <= width,
    decreases count,
{
    if count > 1 && status.group_width(count, charset) > width {
        whole_trailing_segments_are_dropped(status, count - 1, charset, width);
    }
}

/// The label for primary-model spend. `amount` is the amount in dollars with
/// two decimals, `icon` the subscription mark of the charset.
pub open spec fn spend_text(
    amount_nanos: u64,
    amount: Seq<char>,
    subscription: bool,
    charset: Charset,
    icon: Seq<char>,
) -> Seq<char> {
    if amount_nanos == 0 {
        if subscription {
            icon
        } else {
            Seq::empty()
        }
    } else if !subscription {
        seq!['$'] + amount
    } else if charset == Charset::NerdFont {
        icon + seq![' '] + amount
    } else {
        seq!['S'] + amount
    }
}

/// Formats primary-model spend for metered or subscription billing.
///
/// Subscription-backed spend uses the dedicated Nerd Font icon where available
/// and an `S` prefix elsewhere. A zero-cost subscription still renders its
/// semantic subscription marker.
pub fn spend_label(
    amount_nanos: u64,
    amount: &str,
    subscription: bool,
    charset: Charset,
    icon: &str,
) -> (label: String)
    ensures
        label@ == spend_text(amount_nanos, amount@, subscription, charset, icon@),
{
    proof {
        reveal_strlit("");
        reveal_strlit("$");
        reveal_strlit(" ");
        reveal_strlit("S");
    }
    if amount_nanos == 0 {
        let mut label: String = "".to_owned();
        if subscription {
            label.append(icon);
        }
        assert(label@ =~= spend_text(amount_nanos, amount@, subscription, charset, icon@));
        return label;
    }
    let mut label: String = "".to_owned();
    if !subscription {
        label.append("$");
    } else if charset == Charset::NerdFont {
        label.append(icon);
        label.append(" ");
    } else {
        label.append("S");
    }
    label.append(amount);
    assert(label@ =~= spend_text(amount_nanos, amount@, subscription, charset, icon@));
    label
}

/// Formats advisor-model spend with the charset's advisor mark: behind the
/// spend in ASCII, before it elsewhere. No spend stays no label.
pub fn advisor_spend_label(
    amount_nanos: u64,
    amount: &str,
    subscription: bool,
    charset: Charset,
    icon: &str,
    advisor: &str,
) -> (label: String)
    ensures
        label@ == ({
            let spend = spend_text(amount_nanos, amount@, subscription, charset, icon@);
            if spend.len() == 0 {
                spend
            } else if charset == Charset::Ascii {
                spend + seq![' '] + advisor@
            } else {
                advisor@ + seq![' '] + spend
            }
        }),
{
    let spend: String = spend_label(amount_nanos, amount, subscription, charset, icon);
    if spend.as_str().is_empty() {
        return spend;
    }
    proof {
        reveal_strlit("");
        reveal_strlit(" ");
    }
    let mut label: String = "".to_owned();
    if charset == Charset::Ascii {
        label.append(spend.as_str());
        label.append(" ");
        label.append(advisor);
        assert(label@ =~= spend@ + seq![' '] + advisor@);
    } else {
        label.append(advisor);
        label.append(" ");
        label.append(spend.as_str());
        assert(label@ =~= advisor@ + seq![' '] + spend@);
    }
    label
}

} // verus!
