//! The context gauge of a status line: proportional fill, embedded labels and
//! the ticks of automatic compaction.
//!
//! The host reads usage as a share of the window and rounds shares to cells;
//! the library decides what each cell of the line shows.

use vstd::prelude::*;
use vstd::string::*;
use vstd::utf8::is_ascii_chars;

use crate::color::Color;
use crate::geometry::{larger, max16, min16, sat_add, sat_sub, smaller};
use crate::theme::Theme;

verus! {

/// Placement of a composer's primary status line.
#[derive(Clone, Copy, Debug, PartialEq, Eq, Structural)]
pub enum StatusPlacement {
    /// The status occupies composer chrome, such as a box's top border.
    Embedded,
    /// The status occupies its own row outside the editable surface.
    Standalone,
}

/// Presentation of context-window usage in a status line.
#[derive(Clone, Copy, Debug, PartialEq, Eq, Structural)]
pub enum ContextGaugeMode {
    /// Show context usage as a numeric segment.
    Numeric,
    /// Use the flexible boundary between status groups as a proportional bar.
    Bar,
}

/// Horizontal slots for two status groups separated by a flexible boundary.
#[derive(Clone, Copy, Debug, PartialEq, Eq, Structural)]
pub struct BoundaryLayout {
    /// First column of the left group.
    pub left_x: u16,
    /// First column of the flexible boundary.
    pub boundary_x: u16,
    /// Width of the flexible boundary.
    pub boundary_width: u16,
    /// First column of the right group.
    pub right_x: u16,
}

/// The slots of two groups around a boundary that takes what they leave.
///
/// Columns past the largest coordinate count as that coordinate.
pub open spec fn bounded(
    x: u16,
    width: u16,
    left_width: u16,
    right_width: u16,
    minimum_boundary: u16,
) -> Option<BoundaryLayout> {
    if left_width + right_width + minimum_boundary > width {
        None
    } else {
        let boundary_x = sat_add(x, left_width);
        let boundary_width = (width - left_width - right_width) as u16;
        Some(
            BoundaryLayout {
                left_x: x,
                boundary_x,
                boundary_width,
                right_x: sat_add(boundary_x, boundary_width),
            },
        )
    }
}

/// Fits left and right status groups around a flexible boundary.
///
/// Returns `None` when both groups plus `minimum_boundary` do not fit.
pub fn boundary_layout(
    x: u16,
    width: u16,
    left_width: u16,
    right_width: u16,
    minimum_boundary: u16,
) -> (layout: Option<BoundaryLayout>)
    ensures
        layout == bounded(x, width, left_width, right_width, minimum_boundary),
{
    if left_width as u32 + right_width as u32 + minimum_boundary as u32 > width as u32 {
        return None;
    }
    let boundary_width: u16 = width - left_width - right_width;
    let boundary_x: u16 = x.saturating_add(left_width);
    Some(
        BoundaryLayout {
            left_x: x,
            boundary_x,
            boundary_width,
            right_x: boundary_x.saturating_add(boundary_width),
        },
    )
}

/// The groups and the boundary tile the line: nothing overlaps, nothing is left
/// over, and the boundary has at least the room asked for.
pub proof fn slots_tile_the_line(
    x: u16,
    width: u16,
    left_width: u16,
    right_width: u16,
    minimum_boundary: u16,
)
    requires
        x + width <= 65535,
    ensures
        bounded(x, width, left_width, right_width, minimum_boundary) matches Some(slots) ==> {
            &&& slots.left_x == x
            &&& slots.boundary_x == slots.left_x + left_width
            &&& slots.right_x == slots.boundary_x + slots.boundary_width
            &&& slots.right_x + right_width == x + width
            &&& slots.boundary_width >= minimum_boundary
        },
        bounded(x, width, left_width, right_width, minimum_boundary) is None <==> left_width
            + right_width + minimum_boundary > width,
{
}

/// Paint class of one embedded context-gauge cell.
pub enum GaugeCell<'a> {
    /// Fill inside the used portion of the window.
    Used,
    /// Fill past the used portion.
    Unused,
    /// Auto-compaction threshold tick.
    Threshold,
    /// Background-speculation start tick.
    Speculation,
    /// One ASCII cell of the usage percent label.
    Percent(&'a str),
    /// One ASCII cell of the context-window label.
    Window(&'a str),
}

/// Paint class of one cell.
pub enum GaugeCellView {
    /// Fill inside the used portion of the window.
    Used,
    /// Fill past the used portion.
    Unused,
    /// Auto-compaction threshold tick.
    Threshold,
    /// Background-speculation start tick.
    Speculation,
    /// A character of the usage percent label.
    Percent(char),
    /// A character of the context-window label.
    Window(char),
}

/// Whether a cell shows what `view` says.
pub open spec fn shows_cell(cell: GaugeCell<'_>, view: GaugeCellView) -> bool {
    match (cell, view) {
        (GaugeCell::Used, GaugeCellView::Used) => true,
        (GaugeCell::Unused, GaugeCellView::Unused) => true,
        (GaugeCell::Threshold, GaugeCellView::Threshold) => true,
        (GaugeCell::Speculation, GaugeCellView::Speculation) => true,
        (GaugeCell::Percent(shown), GaugeCellView::Percent(c)) => shown@ == seq![c],
        (GaugeCell::Window(shown), GaugeCellView::Window(c)) => shown@ == seq![c],
        _ => false,
    }
}

/// Most characters a gauge annotation holds.
pub const LABEL_LIMIT: usize = 12;

/// Whether a text can annotate a gauge: short ASCII.
pub open spec fn annotates(text: Seq<char>) -> bool {
    0 < text.len() <= 12 && is_ascii_chars(text)
}

/// The room a gauge leaves for its fill, once its labels are placed.
pub struct GaugeRoom {
    /// Planned width in cells.
    pub width: u16,
    /// Whether usage exceeds the window.
    pub overflow: bool,
    /// The usage label; empty where it was dropped.
    pub percent: String,
    /// Where the usage label starts, once that is settled.
    pub percent_start: Option<u16>,
    /// The window label; empty where it was dropped.
    pub window: String,
    /// Where the window label starts.
    pub window_start: Option<u16>,
    /// Cells that stand for the whole window.
    pub scale: u16,
}

/// The room a gauge leaves for its fill.
pub struct RoomView {
    /// Planned width in cells.
    pub width: u16,
    /// Whether usage exceeds the window.
    pub overflow: bool,
    /// The usage label.
    pub percent: Seq<char>,
    /// Where it starts, once that is settled.
    pub percent_start: Option<u16>,
    /// The window label.
    pub window: Seq<char>,
    /// Where it starts.
    pub window_start: Option<u16>,
    /// Cells that stand for the whole window.
    pub scale: u16,
}

impl View for GaugeRoom {
    type V = RoomView;

    open spec fn view(&self) -> RoomView {
        RoomView {
            width: self.width,
            overflow: self.overflow,
            percent: self.percent@,
            percent_start: self.percent_start,
            window: self.window@,
            window_start: self.window_start,
            scale: self.scale,
        }
    }
}

/// Room with both labels on the line where they leave fill on their flanks, or
/// with neither. Usage past the window moves the usage label past the window
/// label.
pub open spec fn fitted(
    width: u16,
    overflow: bool,
    percent: Seq<char>,
    window: Seq<char>,
    labels: bool,
) -> RoomView {
    if labels && annotates(percent) && annotates(window) && width >= percent.len() + window.len()
        + 4 {
        let percent_start = width - percent.len();
        let window_start = if overflow {
            (percent_start - 1 - window.len()) as u16
        } else {
            (width - window.len() - 1) as u16
        };
        RoomView {
            width,
            overflow,
            percent,
            percent_start: if overflow {
                Some(percent_start as u16)
            } else {
                None
            },
            window,
            window_start: Some(window_start),
            scale: window_start,
        }
    } else {
        RoomView {
            width,
            overflow,
            percent: Seq::empty(),
            percent_start: None,
            window: Seq::empty(),
            window_start: None,
            scale: width,
        }
    }
}

/// Whether a text can annotate a gauge.
fn can_annotate(text: &str) -> (yes: bool)
    ensures
        yes == annotates(text@),
{
    if !text.is_ascii() {
        return false;
    }
    let length: usize = text.unicode_len();
    0 < length && length <= LABEL_LIMIT
}

impl GaugeRoom {
    /// Places the labels of a line of `width` cells.
    pub fn fit(width: u16, overflow: bool, percent: &str, window: &str, labels: bool) -> (room: Self)
        ensures
            room@ == fitted(width, overflow, percent@, window@, labels),
    {
        if labels && can_annotate(percent) && can_annotate(window) {
            let percent_cells: u16 = percent.unicode_len() as u16;
            let window_cells: u16 = window.unicode_len() as u16;
            if width >= percent_cells + window_cells + 4 {
                let percent_start: u16 = width - percent_cells;
                let window_start: u16 = if overflow {
                    percent_start - 1 - window_cells
                } else {
                    width - window_cells - 1
                };
                return GaugeRoom {
                    width,
                    overflow,
                    percent: percent.to_owned(),
                    percent_start: if overflow {
                        Some(percent_start)
                    } else {
                        None
                    },
                    window: window.to_owned(),
                    window_start: Some(window_start),
                    scale: window_start,
                };
            }
        }
        let room = GaugeRoom {
            width,
            overflow,
            percent: "".to_owned(),
            percent_start: None,
            window: "".to_owned(),
            window_start: None,
            scale: width,
        };
        proof {
            reveal_strlit("");
            assert(""@ =~= Seq::<char>::empty());
        }
        room
    }
}

/// Cell plan for the embedded context gauge bridging the status groups.
///
/// A proportional fill with the usage percent and context window absorbed as
/// in-line labels, plus ticks where background speculation starts and where
/// auto-compaction fires. An unknown window plans a solid used line (no context
/// feedback).
pub struct ContextGauge {
    /// Labels and scale of the line.
    pub room: GaugeRoom,
    /// Whether nothing is known of the window.
    pub solid: bool,
    /// Cells of the used portion.
    pub used: u16,
    /// Cell of the auto-compaction tick.
    pub threshold: Option<u16>,
    /// Cell of the speculation tick.
    pub speculation: Option<u16>,
}

/// What a gauge shows.
pub struct GaugeView {
    /// Labels and scale of the line.
    pub room: RoomView,
    /// Whether nothing is known of the window.
    pub solid: bool,
    /// Cells of the used portion.
    pub used: u16,
    /// Cell of the auto-compaction tick.
    pub threshold: Option<u16>,
    /// Cell of the speculation tick.
    pub speculation: Option<u16>,
}

impl View for ContextGauge {
    type V = GaugeView;

    open spec fn view(&self) -> GaugeView {
        GaugeView {
            room: self.room@,
            solid: self.solid,
            used: self.used,
            threshold: self.threshold,
            speculation: self.speculation,
        }
    }
}

/// Whether a tick stands under a label that starts at `start`.
pub open spec fn under(tick: Option<u16>, start: int, length: int) -> bool {
    tick matches Some(cell) && start <= cell < start + length
}

impl GaugeView {
    /// Whether the labels stand where they fit on the line.
    pub open spec fn wf(self) -> bool {
        &&& self.room.percent_start matches Some(start) ==> annotates(self.room.percent) && start
            + self.room.percent.len() <= self.room.width
        &&& self.room.window_start matches Some(start) ==> annotates(self.room.window) && start
            + self.room.window.len() <= self.room.width
    }

    /// What the cell at `index` shows.
    pub open spec fn cell(self, index: u16) -> GaugeCellView {
        if self.solid {
            GaugeCellView::Used
        } else if under(
            Some(index),
            start_or_end(self.room.percent_start),
            self.room.percent.len() as int,
        ) {
            GaugeCellView::Percent(self.room.percent[index - self.room.percent_start->0])
        } else if self.threshold == Some(index) {
            GaugeCellView::Threshold
        } else if self.speculation == Some(index) {
            GaugeCellView::Speculation
        } else if under(
            Some(index),
            start_or_end(self.room.window_start),
            self.room.window.len() as int,
        ) {
            GaugeCellView::Window(self.room.window[index - self.room.window_start->0])
        } else if index < self.used {
            GaugeCellView::Used
        } else {
            GaugeCellView::Unused
        }
    }

    /// Whether the usage label can start at `start` without covering a tick.
    pub open spec fn clear(self, start: int) -> bool {
        !under(self.threshold, start, self.room.percent.len() as int) && !under(
            self.speculation,
            start,
            self.room.percent.len() as int,
        )
    }
}

/// Where a label starts, or a cell behind every line.
pub open spec fn start_or_end(start: Option<u16>) -> int {
    match start {
        Some(cell) => cell as int,
        None => 65536,
    }
}

/// How far two cells are apart.
pub open spec fn apart(a: int, b: int) -> int {
    if a <= b {
        b - a
    } else {
        a - b
    }
}

/// The gauge before its usage label has a place.
pub open spec fn ticked(
    room: RoomView,
    used: u16,
    threshold: Option<u16>,
    speculation: Option<u16>,
) -> GaugeView {
    let last = sat_sub(room.scale, 1);
    let fires = match threshold {
        Some(cell) if room.width >= 8 => Some(min16(cell, last)),
        _ => None,
    };
    GaugeView {
        room,
        solid: false,
        used: min16(max16(used, 1), room.scale),
        threshold: fires,
        speculation: match speculation {
            Some(cell) if fires is Some && Some(min16(cell, last)) != fires => Some(
                min16(cell, last),
            ),
            _ => None,
        },
    }
}

/// Last cell the usage label can start at, leaving a cell of fill behind it.
pub open spec fn last_start(room: RoomView) -> int {
    if room.scale >= room.percent.len() + 1 {
        room.scale - room.percent.len() - 1
    } else {
        0
    }
}

/// Cell the usage label starts at where no tick is in the way.
pub open spec fn wanted_start(gauge: GaugeView) -> int {
    if gauge.used >= last_start(gauge.room) {
        last_start(gauge.room)
    } else if gauge.used >= 1 {
        gauge.used as int
    } else {
        1
    }
}

/// Whether `start` is the place of the usage label: of the places that cover no
/// tick the one nearest to the end of the fill, and the left of two as near.
pub open spec fn anchors(gauge: GaugeView, start: Option<u16>) -> bool {
    match start {
        Some(cell) => {
            &&& 1 <= cell <= last_start(gauge.room)
            &&& gauge.clear(cell as int)
            &&& forall|other: int|
                1 <= other <= last_start(gauge.room) && #[trigger] gauge.clear(other) ==> apart(
                    cell as int,
                    wanted_start(gauge),
                ) < apart(other, wanted_start(gauge)) || apart(cell as int, wanted_start(gauge))
                    == apart(other, wanted_start(gauge)) && cell <= other
        },
        None => forall|other: int|
            1 <= other <= last_start(gauge.room) ==> !#[trigger] gauge.clear(other),
    }
}

/// Whether `gauge` is the plan for a line.
pub open spec fn planned(
    gauge: GaugeView,
    room: RoomView,
    used: u16,
    threshold: Option<u16>,
    speculation: Option<u16>,
) -> bool {
    let base = ticked(room, used, threshold, speculation);
    if room.percent.len() > 0 && room.percent_start is None {
        gauge == (GaugeView {
            room: RoomView { percent_start: gauge.room.percent_start, ..room },
            ..base
        }) && anchors(base, gauge.room.percent_start)
    } else {
        gauge == base
    }
}

impl ContextGauge {
    /// A solid used line, for a window that is unknown or a line of no cells.
    pub fn solid(width: u16) -> (gauge: Self)
        ensures
            gauge@.solid,
            gauge@.room == fitted(width, false, Seq::empty(), Seq::empty(), false),
            gauge@.used == 0,
            gauge@.threshold is None,
            gauge@.speculation is None,
    {
        proof {
            reveal_strlit("");
            assert(""@ =~= Seq::<char>::empty());
        }
        ContextGauge {
            room: GaugeRoom::fit(width, false, "", "", false),
            solid: true,
            used: 0,
            threshold: None,
            speculation: None,
        }
    }

    /// The window a line is planned for. A window that is unknown or empty, or a
    /// line of no cells, gets a solid used line instead.
    pub fn window_or_solid(width: u16, window: Option<u64>) -> (tokens: Result<u64, Self>)
        ensures
            match tokens {
                Ok(size) => width > 0 && size > 0 && window == Some(size),
                Err(gauge) => {
                    &&& width == 0 || window is None || window == Some(0u64)
                    &&& gauge@.solid
                    &&& gauge@.room == fitted(width, false, Seq::empty(), Seq::empty(), false)
                    &&& gauge@.used == 0
                    &&& gauge@.threshold is None
                    &&& gauge@.speculation is None
                },
            },
    {
        match window {
            Some(size) if size > 0 && width > 0 => Ok(size),
            _ => Err(ContextGauge::solid(width)),
        }
    }

    /// Plans the line: `used`, `threshold` and `speculation` are shares of the
    /// window, rounded to cells of the room's scale.
    ///
    /// At least one cell is used: a fresh session still shows the used line
    /// starting at the left. Boundary ticks show only where the line is long
    /// enough for them to read as positions, and the threshold wins a shared
    /// cell. The usage label stands at the end of the fill, nudged off the
    /// ticks.
    pub fn plan(
        room: GaugeRoom,
        used: u16,
        threshold: Option<u16>,
        speculation: Option<u16>,
    ) -> (gauge: Self)
        requires
            room@.percent.len() <= 12,
        ensures
            planned(gauge@, room@, used, threshold, speculation),
    {
        let scale: u16 = room.scale;
        let last: u16 = scale.saturating_sub(1);
        let fires: Option<u16> = match threshold {
            Some(cell) if room.width >= 8 => Some(smaller(cell, last)),
            _ => None,
        };
        let starts: Option<u16> = match (speculation, fires) {
            (Some(cell), Some(tick)) if smaller(cell, last) != tick => Some(smaller(cell, last)),
            _ => None,
        };
        let mut gauge = ContextGauge {
            room,
            solid: false,
            used: smaller(larger(used, 1), scale),
            threshold: fires,
            speculation: starts,
        };
        assert(gauge@ == ticked(room@, used, threshold, speculation));
        let length: usize = gauge.room.percent.as_str().unicode_len();
        if length > 0 && gauge.room.percent_start.is_none() {
            let start: Option<u16> = gauge.anchor(length as u16);
            gauge.room.percent_start = start;
        }
        gauge
    }

    /// Whether a tick stands under a label that starts at `start`.
    fn covers(tick: Option<u16>, start: u16, length: u16) -> (yes: bool)
        requires
            start + length <= 65535,
        ensures
            yes == under(tick, start as int, length as int),
    {
        match tick {
            Some(cell) => cell >= start && cell < start + length,
            None => false,
        }
    }

    /// Finds the place of the usage label.
    fn anchor(&self, length: u16) -> (start: Option<u16>)
        requires
            length == self@.room.percent.len(),
            length <= 12,
        ensures
            anchors(self@, start),
    {
        let max_start: u16 = self.room.scale.saturating_sub(length + 1);
        let preferred: u16 = smaller(larger(self.used, 1), max_start);
        let mut distance: u16 = 0;
        loop
            invariant
                distance <= max_start,
                max_start == last_start(self@.room),
                preferred == wanted_start(self@) || max_start == 0,
                preferred <= max_start,
                max_start > 0 ==> preferred >= 1,
                length == self@.room.percent.len(),
                length <= 12,
                max_start + length <= 65535,
                forall|other: int|
                    1 <= other <= max_start && apart(other, preferred as int) < distance
                        ==> !#[trigger] self@.clear(other),
            decreases max_start - distance,
        {
            if preferred > distance {
                let left: u16 = preferred - distance;
                if !Self::covers(self.threshold, left, length) && !Self::covers(
                    self.speculation,
                    left,
                    length,
                ) {
                    assert(self@.clear(left as int));
                    return Some(left);
                }
            }
            if distance > 0 && distance <= max_start - preferred {
                let right: u16 = preferred + distance;
                if !Self::covers(self.threshold, right, length) && !Self::covers(
                    self.speculation,
                    right,
                    length,
                ) {
                    assert(self@.clear(right as int));
                    return Some(right);
                }
            }
            if distance == max_start {
                return None;
            }
            distance += 1;
        }
    }

    /// Planned width in cells.
    pub fn width(&self) -> (width: u16)
        ensures
            width == self@.room.width,
    {
        self.room.width
    }

    /// Whether usage exceeds the window; the percent label paints as an error.
    pub fn overflowed(&self) -> (overflow: bool)
        ensures
            overflow == self@.room.overflow,
    {
        self.room.overflow
    }

    /// The cell of a label at `index`.
    fn label_cell(label: &String, start: Option<u16>, index: u16) -> (cell: Option<&str>)
        requires
            start matches Some(from) ==> annotates(label@) && from + label@.len() <= 65535,
        ensures
            match cell {
                Some(shown) => under(Some(index), start_or_end(start), label@.len() as int)
                    && shown@ == seq![label@[index - start->0]],
                None => !under(Some(index), start_or_end(start), label@.len() as int),
            },
    {
        match start {
            Some(from) => {
                let length: u16 = label.as_str().unicode_len() as u16;
                if index >= from && index < from + length {
                    let at: usize = (index - from) as usize;
                    let shown: &str = label.as_str().substring_ascii(at, at + 1);
                    assert(shown@ =~= seq![label@[at as int]]);
                    Some(shown)
                } else {
                    None
                }
            },
            None => None,
        }
    }

    /// Paint class of the cell at `index`.
    pub fn cell(&self, index: u16) -> (cell: GaugeCell<'_>)
        requires
            self@.wf(),
        ensures
            shows_cell(cell, self@.cell(index)),
    {
        if self.solid {
            return GaugeCell::Used;
        }
        if let Some(cell) = Self::label_cell(&self.room.percent, self.room.percent_start, index) {
            return GaugeCell::Percent(cell);
        }
        if self.threshold == Some(index) {
            return GaugeCell::Threshold;
        }
        if self.speculation == Some(index) {
            return GaugeCell::Speculation;
        }
        if let Some(cell) = Self::label_cell(&self.room.window, self.room.window_start, index) {
            return GaugeCell::Window(cell);
        }
        if index < self.used {
            GaugeCell::Used
        } else {
            GaugeCell::Unused
        }
    }
}

/// Nothing hides anything on a planned line: both ticks show, and every
/// character of both labels shows.
pub proof fn nothing_is_hidden(
    gauge: GaugeView,
    width: u16,
    overflow: bool,
    percent: Seq<char>,
    window: Seq<char>,
    labels: bool,
    used: u16,
    threshold: Option<u16>,
    speculation: Option<u16>,
)
    requires
        planned(
            gauge,
            fitted(width, overflow, percent, window, labels),
            used,
            threshold,
            speculation,
        ),
    ensures
        gauge.wf(),
        gauge.threshold matches Some(cell) ==> gauge.cell(cell) == GaugeCellView::Threshold,
        gauge.speculation matches Some(cell) ==> gauge.cell(cell) == GaugeCellView::Speculation,
        forall|i: int|
            #![trigger gauge.room.percent[i]]
            0 <= i < gauge.room.percent.len() && gauge.room.percent_start is Some ==> gauge.cell(
                (gauge.room.percent_start->0 + i) as u16,
            ) == GaugeCellView::Percent(gauge.room.percent[i]),
        forall|i: int|
            #![trigger gauge.room.window[i]]
            0 <= i < gauge.room.window.len() && gauge.room.window_start is Some ==> gauge.cell(
                (gauge.room.window_start->0 + i) as u16,
            ) == GaugeCellView::Window(gauge.room.window[i]),
{
    let room = fitted(width, overflow, percent, window, labels);
    let base = ticked(room, used, threshold, speculation);
    if room.percent.len() > 0 && room.percent_start is None && gauge.room.percent_start is Some {
        assert(base.clear(gauge.room.percent_start->0 as int));
    }
}

/// A line of any cells at all shows some of its used portion first, unless a
/// tick stands there.
pub proof fn fresh_lines_show_their_start(
    gauge: GaugeView,
    width: u16,
    overflow: bool,
    percent: Seq<char>,
    window: Seq<char>,
    labels: bool,
    used: u16,
    threshold: Option<u16>,
    speculation: Option<u16>,
)
    requires
        width > 0,
        planned(
            gauge,
            fitted(width, overflow, percent, window, labels),
            used,
            threshold,
            speculation,
        ),
        gauge.threshold != Some(0u16),
        gauge.speculation != Some(0u16),
    ensures
        gauge.cell(0) == GaugeCellView::Used,
{
}

/// Returns the themed accent shared by the compaction threshold marker and
/// context-window usage labels.
pub fn compaction_threshold_color(theme: &Theme) -> (color: Color)
    ensures
        color == theme.status_rule,
{
    theme.status_rule
}

} // verus!
