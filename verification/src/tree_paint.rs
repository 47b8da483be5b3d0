//! What a tree looks like.

use vstd::prelude::*;
use vstd::string::*;

use crate::bits::bits_get;
use crate::charset::{guide_glyphs, Charset};
use crate::color::Color;
use crate::events::{Hit, HitTag, Slot};
use crate::frame::{Frame, FrameView};
use crate::geometry::{larger, max16, min16, sat_add, sat_sub, smaller, Rect};
use crate::markup::Border;
use crate::runs::{
    cut_head, cut_marked, cut_text, mark, no_runs, push_mark, push_run, run, run_views,
    truncate_start, truncate_to_width, write_runs, written, Cut, Run, RunView,
};
use crate::status::cell_count;
use crate::style::{plain, tinted, Style};
use crate::text::{ascii_clusters, cells, content, text_width, Text};
use crate::theme::Theme;
use crate::tree::{
    annotation_views, AnnotationView, FaceView, RowView, Tree, TreeAnnotation, TreeRow, TreeView,
};

verus! {

/// What a tree paints with.
pub struct TreePaint<'a> {
    /// Theme.
    pub theme: &'a Theme,
    /// Charset.
    pub charset: Charset,
    /// Area of the tree.
    pub rect: Rect,
    /// Rows of the area that show nodes; a footer takes the rest.
    pub content_rows: u16,
    /// First row that is not painted.
    pub clip: u16,
    /// Row under the pointer.
    pub hovered: Option<u32>,
    /// The tree.
    pub slot: Slot,
    /// Fill of the selected row.
    pub selection: Color,
}

/// Cells of an action chip.
pub open spec fn action_width(face: FaceView) -> u16 {
    if content(face.action).len() == 0 {
        0
    } else {
        sat_add(text_width(face.action), 2)
    }
}

/// Cells of the first `count` annotations, without the gaps.
pub open spec fn annotation_cells(annotations: Seq<AnnotationView>, count: int) -> u16
    decreases count,
{
    if count <= 0 {
        0
    } else {
        sat_add(
            annotation_cells(annotations, count - 1),
            text_width(annotations[count - 1].text),
        )
    }
}

/// Cells of annotations with a gap between each two.
pub open spec fn annotations_width(annotations: Seq<AnnotationView>) -> u16 {
    sat_add(
        annotation_cells(annotations, annotations.len() as int),
        cell_count(annotations.len() - 1),
    )
}

/// Natural width of a row.
pub open spec fn row_width(row: RowView) -> u16 {
    let face = row.face;
    sat_add(
        sat_add(
            sat_add(
                sat_add(
                    sat_add(
                        sat_add(sat_add(sat_add(2, row.depth), 2), text_width(face.lead)),
                        if content(face.lead).len() > 0 {
                            1
                        } else {
                            0
                        },
                    ),
                    text_width(face.prefix),
                ),
                text_width(face.label),
            ),
            annotations_width(face.annotations),
        ),
        action_width(face),
    )
}

/// The widest of the first `count` rows.
pub open spec fn widest(rows: Seq<RowView>, count: int) -> u16
    decreases count,
{
    if count <= 0 {
        0
    } else {
        max16(widest(rows, count - 1), row_width(rows[count - 1]))
    }
}

/// The guides of a row: one for each level above that goes on below, and the
/// connector to the node.
pub open spec fn guide_runs(
    row: RowView,
    charset: Charset,
    family: Border,
    style: Style,
) -> Seq<RunView> {
    let (branch, last, goes_on) = guide_glyphs(charset, family);
    gutter_runs(row.gutters, goes_on, style, row.gutters.len() as int) + (if row.depth > 0 {
        seq![
            mark(
                if row.last {
                    last
                } else {
                    branch
                },
                style,
            ),
            mark(" "@, style),
        ]
    } else {
        Seq::empty()
    })
}

/// The guides of the first `count` levels.
pub open spec fn gutter_runs(
    gutters: Seq<bool>,
    goes_on: Seq<char>,
    style: Style,
    count: int,
) -> Seq<RunView>
    decreases count,
{
    if count <= 0 {
        Seq::empty()
    } else {
        gutter_runs(gutters, goes_on, style, count - 1).push(
            mark(
                if gutters[count - 1] {
                    goes_on
                } else {
                    "  "@
                },
                style,
            ),
        )
    }
}

/// The rail of a selected row.
pub open spec fn rail_glyph(charset: Charset) -> Seq<char> {
    match charset {
        Charset::Ascii => "| "@,
        _ => "▎ "@,
    }
}

/// The expander of a branch.
pub open spec fn expander_glyph(charset: Charset, open: bool) -> Seq<char> {
    match charset {
        Charset::Ascii => if open {
            "v "@
        } else {
            "> "@
        },
        _ => if open {
            "▾ "@
        } else {
            "▸ "@
        },
    }
}

/// A color, or another where it is unset.
pub open spec fn or_color(color: Option<Color>, other: Color) -> Color {
    match color {
        Some(own) => own,
        None => other,
    }
}

/// A color, or another where it is unset.
fn color_or(color: Option<Color>, other: Color) -> (chosen: Color)
    ensures
        chosen == or_color(color, other),
{
    match color {
        Some(own) => own,
        None => other,
    }
}

/// What a tree paints with.
pub struct TreePaintView {
    /// Theme.
    pub theme: Theme,
    /// Charset.
    pub charset: Charset,
    /// Area of the tree.
    pub rect: Rect,
    /// Rows of the area that show nodes.
    pub content_rows: u16,
    /// First row that is not painted.
    pub clip: u16,
    /// Row under the pointer.
    pub hovered: Option<u32>,
    /// The tree.
    pub slot: Slot,
    /// Fill of the selected row.
    pub selection: Color,
}

impl<'a> View for TreePaint<'a> {
    type V = TreePaintView;

    open spec fn view(&self) -> TreePaintView {
        TreePaintView {
            theme: *self.theme,
            charset: self.charset,
            rect: self.rect,
            content_rows: self.content_rows,
            clip: self.clip,
            hovered: self.hovered,
            slot: self.slot,
            selection: self.selection,
        }
    }
}

impl TreePaintView {
    /// Rows that are painted.
    pub open spec fn visible(self) -> u16 {
        sat_sub(min16(sat_add(self.rect.y, self.content_rows), self.clip), self.rect.y)
    }

    /// Whether the pointer is on a row.
    pub open spec fn points_at(self, index: int) -> bool {
        self.hovered matches Some(row) && row == index
    }
}

/// The style of a label.
pub open spec fn face_style(face: FaceView, theme: Theme) -> Style {
    Style { foreground: theme.fg, bold: face.bold, dim: face.dim, ..plain() }
}

/// Column the label starts at, with the frame up to there: the prefix takes
/// what the label leaves, cut at its start.
pub open spec fn prefix_painted(
    frame: FrameView,
    face: FaceView,
    theme: Theme,
    tint: Option<Color>,
    x: u16,
    y: u16,
    available: u16,
) -> (FrameView, u16) {
    let dimmed = tinted(Style { dim: true, ..face_style(face, theme) }, tint);
    if text_width(face.prefix) > 0 && text_width(face.label) < available {
        let room = sat_sub(available, text_width(face.label));
        written(
            frame,
            x,
            y,
            (if cut_marked(face.prefix, room) {
                seq![mark("…"@, dimmed)]
            } else {
                Seq::empty()
            }).push(run(cut_head(face.prefix, room), dimmed)),
        )
    } else {
        (frame, x)
    }
}

/// The frame with a label in `available` cells: prefix, and the label cut to
/// what is left.
pub open spec fn label_painted(
    frame: FrameView,
    face: FaceView,
    theme: Theme,
    tint: Option<Color>,
    x: u16,
    y: u16,
    available: u16,
) -> FrameView {
    if available == 0 {
        frame
    } else {
        let (prefixed, column) = prefix_painted(frame, face, theme, tint, x, y, available);
        let style = tinted(face_style(face, theme), tint);
        let room = sat_sub(available, sat_sub(column, x));
        let labelled = prefixed.put(column, y, cut_text(face.label, room), style);
        if cut_marked(face.label, room) {
            labelled.put(
                sat_add(column, cells(cut_text(face.label, room)) as u16),
                y,
                ascii_clusters("…"@),
                style,
            )
        } else {
            labelled
        }
    }
}

/// The frame with the first `count` annotations, and the column behind them.
pub open spec fn annotated(
    frame: FrameView,
    annotations: Seq<AnnotationView>,
    theme: Theme,
    tint: Option<Color>,
    x: u16,
    y: u16,
    count: int,
) -> (FrameView, u16)
    decreases count,
{
    if count <= 0 {
        (frame, x)
    } else {
        let (earlier, column) = annotated(frame, annotations, theme, tint, x, y, count - 1);
        let start = if count > 1 {
            sat_add(column, 1)
        } else {
            column
        };
        let note = annotations[count - 1];
        (
            earlier.put(
                start,
                y,
                note.text,
                tinted(
                    Style { foreground: or_color(note.color, theme.muted), ..plain() },
                    tint,
                ),
            ),
            earlier.end(start, y, note.text),
        )
    }
}

impl TreeView {
    /// Fill of a row: the selection, or the pointer's.
    pub open spec fn row_fill(self, p: TreePaintView, index: int) -> Option<Color> {
        if index == self.cursor {
            Some(p.selection)
        } else if p.points_at(index) {
            Some(p.theme.hover)
        } else {
            None
        }
    }

    /// The runs at the start of a row: the rail, and the guides.
    pub open spec fn head_runs(self, p: TreePaintView, index: int) -> Seq<RunView> {
        let row = self.rows[index];
        let tint = self.row_fill(p, index);
        let rail = mark(
            if index == self.cursor {
                rail_glyph(p.charset)
            } else {
                "  "@
            },
            tinted(Style { foreground: p.theme.accent, ..plain() }, tint),
        );
        match self.guides {
            Some(family) => seq![rail] + guide_runs(
                row,
                p.charset,
                family,
                tinted(Style { foreground: p.theme.muted, ..plain() }, tint),
            ),
            None => seq![rail],
        }
    }

    /// The runs ahead of a label: the expander, and the leading glyph.
    pub open spec fn lead_runs(self, p: TreePaintView, index: int) -> Seq<RunView> {
        let row = self.rows[index];
        let tint = self.row_fill(p, index);
        let expander = mark(
            if row.has_children {
                expander_glyph(p.charset, self.open.contains(row.face.slot))
            } else if self.guides is Some {
                ""@
            } else {
                "  "@
            },
            tinted(Style { foreground: p.theme.muted, ..plain() }, tint),
        );
        if content(row.face.lead).len() > 0 {
            seq![
                expander,
                run(
                    row.face.lead,
                    tinted(
                        Style {
                            foreground: or_color(row.face.lead_color, p.theme.accent),
                            ..plain()
                        },
                        tint,
                    ),
                ),
                mark(" "@, tinted(Style { foreground: p.theme.fg, ..plain() }, tint)),
            ]
        } else {
            seq![expander]
        }
    }

    /// The style of an action chip.
    pub open spec fn chip_style(self, p: TreePaintView, index: int) -> Style {
        let face = self.rows[index].face;
        tinted(
            Style {
                foreground: or_color(face.action_color, p.theme.accent),
                background: if p.points_at(index) {
                    face.chip_hover
                } else {
                    face.chip
                },
                ..plain()
            },
            self.row_fill(p, index),
        )
    }

    /// The frame with everything of a row ahead of its label, and the column
    /// behind that.
    pub open spec fn row_opened(
        self,
        frame: FrameView,
        p: TreePaintView,
        index: int,
        y: u16,
    ) -> (FrameView, u16) {
        let filled = match self.row_fill(p, index) {
            Some(color) => frame.filled(
                Rect { x: p.rect.x, y, width: p.rect.width, height: 1 },
                Style { background: color, ..plain() },
            ),
            None => frame,
        };
        let (headed, column) = written(filled, p.rect.x, y, self.head_runs(p, index));
        let start = if self.guides is Some {
            column
        } else {
            sat_add(column, self.rows[index].depth)
        };
        written(headed, start, y, self.lead_runs(p, index))
    }

    /// Column of what stands at the right of a row.
    pub open spec fn trailing_x(self, p: TreePaintView, index: int) -> u16 {
        let face = self.rows[index].face;
        sat_sub(
            sat_add(p.rect.x, p.rect.width),
            sat_add(action_width(face), annotations_width(face.annotations)),
        )
    }

    /// The frame with a row's label and annotations, and the column behind the
    /// annotations.
    #[verifier::opaque]
    pub open spec fn row_labelled(
        self,
        frame: FrameView,
        p: TreePaintView,
        index: int,
        y: u16,
    ) -> (FrameView, u16) {
        let face = self.rows[index].face;
        let tint = self.row_fill(p, index);
        let (opened, x) = self.row_opened(frame, p, index, y);
        let labelled = label_painted(
            opened,
            face,
            p.theme,
            tint,
            x,
            y,
            sat_sub(self.trailing_x(p, index), x),
        );
        if annotations_width(face.annotations) > 0 {
            annotated(
                labelled,
                face.annotations,
                p.theme,
                tint,
                self.trailing_x(p, index),
                y,
                face.annotations.len() as int,
            )
        } else {
            (labelled, self.trailing_x(p, index))
        }
    }

    /// The frame with a whole row.
    #[verifier::opaque]
    pub open spec fn row_painted(
        self,
        frame: FrameView,
        p: TreePaintView,
        index: int,
        y: u16,
    ) -> FrameView {
        let face = self.rows[index].face;
        let (labelled, x) = self.row_labelled(frame, p, index, y);
        let chip = self.chip_style(p, index);
        if action_width(face) > 0 {
            written(
                labelled,
                x,
                y,
                seq![
                    mark(" "@, chip),
                    run(face.action, Style { bold: true, ..chip }),
                    mark(" "@, chip),
                ],
            ).0
        } else {
            labelled
        }
    }

    /// The areas of a row, for the pointer: the row, and its action chip.
    #[verifier::opaque]
    pub open spec fn row_areas(
        self,
        frame: FrameView,
        p: TreePaintView,
        index: int,
        y: u16,
    ) -> Seq<Hit> {
        let face = self.rows[index].face;
        let (labelled, x) = self.row_labelled(frame, p, index, y);
        let right = sat_add(p.rect.x, p.rect.width);
        let row = Hit {
            rect: Rect { x: p.rect.x, y, width: p.rect.width, height: 1 },
            slot: p.slot,
            tag: HitTag::TreeRow(index as u32),
        };
        if action_width(face) > 0 {
            seq![
                row,
                Hit {
                    rect: Rect {
                        x,
                        y,
                        width: min16(action_width(face), sat_sub(right, x)),
                        height: 1,
                    },
                    slot: p.slot,
                    tag: HitTag::TreeAction(index as u32),
                },
            ]
        } else {
            seq![row]
        }
    }

    /// Rows that fit the window from its first one on.
    pub open spec fn shown_rows(self, p: TreePaintView) -> int {
        let left = self.rows.len() - self.scroll_top;
        if left <= 0 {
            0
        } else if left < p.visible() {
            left
        } else {
            p.visible() as int
        }
    }

    /// The frame with the first `count` rows of the window, and the areas of
    /// those rows.
    pub open spec fn window_painted(
        self,
        frame: FrameView,
        p: TreePaintView,
        count: int,
    ) -> (FrameView, Seq<Hit>)
        decreases count,
    {
        if count <= 0 {
            (frame, Seq::empty())
        } else {
            let (earlier, areas) = self.window_painted(frame, p, count - 1);
            let index = self.scroll_top + count - 1;
            let y = sat_add(p.rect.y, cell_count(count - 1));
            (
                self.row_painted(earlier, p, index, y),
                areas + self.row_areas(earlier, p, index, y),
            )
        }
    }
}

/// Measures an action chip.
fn measure_action(row: &TreeRow) -> (width: u16)
    ensures
        width == action_width(row@.face),
{
    if row.face.action.is_empty() {
        0
    } else {
        row.face.action.width().saturating_add(2)
    }
}

/// Measures annotations.
fn measure_annotations(annotations: &Vec<TreeAnnotation>) -> (width: u16)
    ensures
        width == annotations_width(annotation_views(annotations@)),
{
    let mut width: u16 = 0;
    let mut at: usize = 0;
    while at < annotations.len()
        invariant
            at <= annotations@.len(),
            width == annotation_cells(annotation_views(annotations@), at as int),
        decreases annotations.len() - at,
    {
        assert(annotation_views(annotations@)[at as int] == annotations@[at as int]@);
        width = width.saturating_add(annotations[at].text.width());
        at += 1;
    }
    let gaps: u16 = if annotations.len() == 0 {
        0
    } else if annotations.len() - 1 <= 65535 {
        (annotations.len() - 1) as u16
    } else {
        65535
    };
    width.saturating_add(gaps)
}

/// Measures a row.
fn measure_row(row: &TreeRow) -> (width: u16)
    ensures
        width == row_width(row@),
{
    let lead_gap: u16 = if row.face.lead.is_empty() {
        0
    } else {
        1
    };
    2u16.saturating_add(row.depth).saturating_add(2).saturating_add(
        row.face.lead.width(),
    ).saturating_add(lead_gap).saturating_add(row.face.prefix.width()).saturating_add(
        row.face.label.width(),
    ).saturating_add(measure_annotations(&row.face.annotations)).saturating_add(
        measure_action(row),
    )
}

/// The style of a label.
fn face_style_of(row: &TreeRow, theme: &Theme) -> (style: Style)
    ensures
        style == face_style(row@.face, *theme),
{
    let mut style: Style = Style::new().fg(theme.fg);
    if row.face.bold {
        style = style.bold();
    }
    if row.face.dim {
        style = style.dim();
    }
    style
}

/// Paints a label in `available` cells.
fn paint_label(
    frame: &mut Frame,
    row: &TreeRow,
    theme: &Theme,
    tint: Option<Color>,
    x: u16,
    y: u16,
    available: u16,
)
    requires
        old(frame).wf(),
    ensures
        final(frame).wf(),
        final(frame).source() == old(frame).source(),
        final(frame)@ == label_painted(old(frame)@, row@.face, *theme, tint, x, y, available),
{
    if available == 0 {
        return;
    }
    let base: Style = face_style_of(row, theme);
    let style: Style = base.tint(tint);
    let dimmed: Style = base.dim().tint(tint);
    let label_cells: u16 = row.face.label.width();
    let mut column: u16 = x;
    if row.face.prefix.width() > 0 && label_cells < available {
        let room: u16 = available.saturating_sub(label_cells);
        let (prefix, ellipsis) = truncate_start(&row.face.prefix, room);
        let mut runs: Vec<Run> = no_runs();
        if ellipsis {
            push_mark(&mut runs, "…", dimmed);
        }
        push_run(&mut runs, prefix, dimmed);
        assert(run_views(runs@) =~= (if cut_marked(row@.face.prefix, room) {
            seq![mark("…"@, dimmed)]
        } else {
            Seq::empty()
        }).push(run(cut_head(row@.face.prefix, room), dimmed)));
        column = write_runs(frame, x, y, &runs);
    }
    assert((frame@, column) == prefix_painted(old(frame)@, row@.face, *theme, tint, x, y, available));
    let room: u16 = available.saturating_sub(column.saturating_sub(x));
    let cut: Cut = truncate_to_width(&row.face.label, room);
    frame.put(column, y, &cut.text, style);
    if cut.ellipsis {
        let at: u16 = column.saturating_add(cut.width.saturating_sub(1));
        frame.put(at, y, &Text::cells_of("…"), style);
    }
}

/// Paints annotations; the column behind them.
fn paint_annotations(
    frame: &mut Frame,
    annotations: &Vec<TreeAnnotation>,
    theme: &Theme,
    tint: Option<Color>,
    x: u16,
    y: u16,
) -> (end: u16)
    requires
        old(frame).wf(),
    ensures
        final(frame).wf(),
        final(frame).source() == old(frame).source(),
        (final(frame)@, end) == annotated(
            old(frame)@,
            annotation_views(annotations@),
            *theme,
            tint,
            x,
            y,
            annotations@.len() as int,
        ),
{
    let ghost before = frame@;
    let ghost notes = annotation_views(annotations@);
    let mut column: u16 = x;
    let mut at: usize = 0;
    while at < annotations.len()
        invariant
            at <= annotations@.len(),
            notes == annotation_views(annotations@),
            frame.wf(),
            frame.source() == old(frame).source(),
            (frame@, column) == annotated(before, notes, *theme, tint, x, y, at as int),
        decreases annotations.len() - at,
    {
        assert(notes[at as int] == annotations@[at as int]@);
        if at > 0 {
            column = column.saturating_add(1);
        }
        let style: Style = Style::new().fg(color_or(annotations[at].color, theme.muted)).tint(tint);
        column = frame.put(column, y, &annotations[at].text, style);
        at += 1;
    }
    column
}

/// A window with one more row.
proof fn window_grows(tree: TreeView, frame: FrameView, p: TreePaintView, count: int)
    requires
        0 <= count < 65535,
    ensures
        ({
            let (earlier, areas) = tree.window_painted(frame, p, count);
            let y = sat_add(p.rect.y, count as u16);
            tree.window_painted(frame, p, count + 1) == (
                tree.row_painted(earlier, p, tree.scroll_top + count, y),
                areas + tree.row_areas(earlier, p, tree.scroll_top + count, y),
            )
        }),
{
}

impl Tree {
    /// Least and natural width.
    pub fn measure(&mut self) -> (widths: (u16, u16))
        requires
            old(self).wf(),
        ensures
            final(self).wf(),
            final(self)@ == old(self)@.rebuilt(),
            widths.1 == (if final(self)@.rows.len() == 0 {
                16
            } else {
                widest(final(self)@.rows, final(self)@.rows.len() as int)
            }),
            widths.0 == min16(8, widths.1),
    {
        self.rebuild_rows();
        let mut natural: u16 = 0;
        let mut at: usize = 0;
        while at < self.rows.len()
            invariant
                at <= self.rows@.len(),
                natural == widest(self@.rows, at as int),
            decreases self.rows.len() - at,
        {
            assert(self@.rows[at as int] == self.rows@[at as int]@);
            natural = larger(natural, measure_row(&self.rows[at]));
            at += 1;
        }
        if self.rows.len() == 0 {
            natural = 16;
        }
        (smaller(8, natural), natural)
    }

    /// Fill of a row.
    fn fill_of(&self, paint: &TreePaint<'_>, index: usize) -> (fill: Option<Color>)
        ensures
            fill == self@.row_fill(paint@, index as int),
    {
        if index == self.cursor {
            Some(paint.selection)
        } else if Self::points_at(paint, index) {
            Some(paint.theme.hover)
        } else {
            None
        }
    }

    /// Whether the pointer is on a row.
    fn points_at(paint: &TreePaint<'_>, index: usize) -> (yes: bool)
        ensures
            yes == paint@.points_at(index as int),
    {
        match paint.hovered {
            Some(row) => row as usize == index,
            None => false,
        }
    }

    /// Whether a branch is open.
    fn opens(&self, slot: Slot) -> (open: bool)
        ensures
            open == self@.open.contains(slot),
    {
        let mut at: usize = 0;
        while at < self.open.len()
            invariant
                at <= self.open@.len(),
                forall|i: int| 0 <= i < at ==> self.open@[i] != slot,
            decreases self.open.len() - at,
        {
            if self.open[at] == slot {
                assert(self.open@[at as int] == slot);
                return true;
            }
            at += 1;
        }
        false
    }

    /// The runs at the start of a row.
    fn head_row(&self, paint: &TreePaint<'_>, index: usize) -> (runs: Vec<Run>)
        requires
            index < self@.rows.len(),
        ensures
            run_views(runs@) == self@.head_runs(paint@, index as int),
    {
        let theme: &Theme = paint.theme;
        let charset: Charset = paint.charset;
        let tint: Option<Color> = self.fill_of(paint, index);
        let mut runs: Vec<Run> = no_runs();
        let rail: &'static str = if index == self.cursor {
            charset.rail()
        } else {
            "  "
        };
        push_mark(&mut runs, rail, Style::new().fg(theme.accent).tint(tint));
        let ghost railed = run_views(runs@);
        let ghost row = self@.rows[index as int];
        assert(row == self.rows@[index as int]@);
        if let Some(family) = self.guides {
            let (branch, last, goes_on) = charset.guides(family);
            let style: Style = Style::new().fg(theme.muted).tint(tint);
            let mut level: usize = 0;
            assert(railed + gutter_runs(row.gutters, goes_on@, style, 0) =~= railed);
            while level < self.rows[index].gutter_depth
                invariant
                    index < self.rows@.len(),
                    row == self.rows@[index as int]@,
                    level <= row.gutters.len(),
                    run_views(runs@) == railed + gutter_runs(
                        row.gutters,
                        goes_on@,
                        style,
                        level as int,
                    ),
                decreases self.rows[index as int].gutter_depth - level,
            {
                let glyph: &'static str = if bits_get(&self.rows[index].gutters, level) {
                    goes_on
                } else {
                    "  "
                };
                push_mark(&mut runs, glyph, style);
                level += 1;
                assert(run_views(runs@) =~= railed + gutter_runs(
                    row.gutters,
                    goes_on@,
                    style,
                    level as int,
                ));
            }
            if self.rows[index].depth > 0 {
                let connector: &'static str = if self.rows[index].last {
                    last
                } else {
                    branch
                };
                push_mark(&mut runs, connector, style);
                push_mark(&mut runs, " ", style);
            }
            assert(run_views(runs@) =~= railed + guide_runs(row, charset, family, style));
        }
        assert(run_views(runs@) =~= self@.head_runs(paint@, index as int));
        runs
    }

    /// The runs ahead of a label.
    fn lead_row(&self, paint: &TreePaint<'_>, index: usize) -> (runs: Vec<Run>)
        requires
            index < self@.rows.len(),
        ensures
            run_views(runs@) == self@.lead_runs(paint@, index as int),
    {
        let theme: &Theme = paint.theme;
        let charset: Charset = paint.charset;
        let tint: Option<Color> = self.fill_of(paint, index);
        let row: &TreeRow = &self.rows[index];
        assert(self@.rows[index as int] == row@);
        let expander: &'static str = if row.has_children {
            charset.expander(self.opens(row.face.slot))
        } else if self.guides.is_some() {
            ""
        } else {
            "  "
        };
        let mut runs: Vec<Run> = no_runs();
        push_mark(&mut runs, expander, Style::new().fg(theme.muted).tint(tint));
        if !row.face.lead.is_empty() {
            let color: Color = color_or(row.face.lead_color, theme.accent);
            push_run(&mut runs, row.face.lead.copy(), Style::new().fg(color).tint(tint));
            push_mark(&mut runs, " ", Style::new().fg(theme.fg).tint(tint));
        }
        assert(run_views(runs@) =~= self@.lead_runs(paint@, index as int));
        runs
    }

    /// Paints everything of a row ahead of its label; the column behind that.
    fn open_row(&self, frame: &mut Frame, paint: &TreePaint<'_>, index: usize, y: u16) -> (x: u16)
        requires
            old(frame).wf(),
            index < self@.rows.len(),
        ensures
            final(frame).wf(),
            final(frame).source() == old(frame).source(),
            (final(frame)@, x) == self@.row_opened(old(frame)@, paint@, index as int, y),
    {
        if let Some(color) = self.fill_of(paint, index) {
            frame.fill(
                Rect::new(paint.rect.x, y, paint.rect.width, 1),
                Style::new().bg(color),
            );
        }
        let head: Vec<Run> = self.head_row(paint, index);
        let mut x: u16 = write_runs(frame, paint.rect.x, y, &head);
        if self.guides.is_none() {
            x = x.saturating_add(self.rows[index].depth);
        }
        let lead: Vec<Run> = self.lead_row(paint, index);
        write_runs(frame, x, y, &lead)
    }

    /// Paints a row's label and annotations; the column behind the annotations.
    fn label_row(&self, frame: &mut Frame, paint: &TreePaint<'_>, index: usize, y: u16) -> (tail: u16)
        requires
            old(frame).wf(),
            index < self@.rows.len(),
        ensures
            final(frame).wf(),
            final(frame).source() == old(frame).source(),
            (final(frame)@, tail) == self@.row_labelled(old(frame)@, paint@, index as int, y),
    {
        proof {
            reveal(TreeView::row_labelled);
        }
        let theme: &Theme = paint.theme;
        let tint: Option<Color> = self.fill_of(paint, index);
        let x: u16 = self.open_row(frame, paint, index, y);
        let row: &TreeRow = &self.rows[index];
        assert(self@.rows[index as int] == row@);
        let right: u16 = paint.rect.x.saturating_add(paint.rect.width);
        let note_cells: u16 = measure_annotations(&row.face.annotations);
        let trailing: u16 = right.saturating_sub(
            measure_action(row).saturating_add(note_cells),
        );
        assert(trailing == self@.trailing_x(paint@, index as int));
        paint_label(frame, row, theme, tint, x, y, trailing.saturating_sub(x));
        if note_cells > 0 {
            paint_annotations(frame, &row.face.annotations, theme, tint, trailing, y)
        } else {
            trailing
        }
    }

    /// Paints one row and registers its areas.
    fn paint_row(
        &self,
        frame: &mut Frame,
        hits: &mut Vec<Hit>,
        paint: &TreePaint<'_>,
        index: usize,
        y: u16,
    )
        requires
            old(frame).wf(),
            index < self@.rows.len(),
        ensures
            final(frame).wf(),
            final(frame).source() == old(frame).source(),
            final(frame)@ == self@.row_painted(old(frame)@, paint@, index as int, y),
            final(hits)@ == old(hits)@ + self@.row_areas(old(frame)@, paint@, index as int, y),
    {
        proof {
            reveal(TreeView::row_painted);
            reveal(TreeView::row_areas);
        }
        let ghost before = frame@;
        let ghost earlier = hits@;
        let theme: &Theme = paint.theme;
        let tint: Option<Color> = self.fill_of(paint, index);
        let right: u16 = paint.rect.x.saturating_add(paint.rect.width);
        let tail: u16 = self.label_row(frame, paint, index, y);
        let row: &TreeRow = &self.rows[index];
        assert(self@.rows[index as int] == row@);
        let chip_cells: u16 = measure_action(row);
        hits.push(
            Hit {
                rect: Rect::new(paint.rect.x, y, paint.rect.width, 1),
                slot: paint.slot,
                tag: HitTag::TreeRow(index as u32),
            },
        );
        if chip_cells > 0 {
            let fill: Color = if Self::points_at(paint, index) {
                row.face.chip_hover
            } else {
                row.face.chip
            };
            let chip: Style = Style::new().fg(color_or(row.face.action_color, theme.accent)).bg(
                fill,
            ).tint(tint);
            assert(chip == self@.chip_style(paint@, index as int));
            let mut runs: Vec<Run> = no_runs();
            push_mark(&mut runs, " ", chip);
            push_run(&mut runs, row.face.action.copy(), chip.bold());
            push_mark(&mut runs, " ", chip);
            assert(run_views(runs@) =~= seq![
                mark(" "@, chip),
                run(row@.face.action, Style { bold: true, ..chip }),
                mark(" "@, chip),
            ]);
            write_runs(frame, tail, y, &runs);
            hits.push(
                Hit {
                    rect: Rect::new(tail, y, smaller(chip_cells, right.saturating_sub(tail)), 1),
                    slot: paint.slot,
                    tag: HitTag::TreeAction(index as u32),
                },
            );
        }
        assert(hits@ =~= earlier + self@.row_areas(before, paint@, index as int, y));
    }

    /// Paints the rows of the window; how many there are.
    fn paint_window(&self, frame: &mut Frame, hits: &mut Vec<Hit>, paint: &TreePaint<'_>) -> (count:
        u16)
        requires
            old(frame).wf(),
        ensures
            final(frame).wf(),
            final(frame).source() == old(frame).source(),
            count == self@.shown_rows(paint@),
            final(frame)@ == self@.window_painted(old(frame)@, paint@, count as int).0,
            final(hits)@ == old(hits)@ + self@.window_painted(old(frame)@, paint@, count as int).1,
    {
        let ghost tree = self@;
        let ghost p = paint@;
        let ghost before = frame@;
        let ghost earlier = hits@;
        let bottom: u16 = smaller(
            paint.rect.y.saturating_add(paint.content_rows),
            paint.clip,
        );
        let visible: u16 = bottom.saturating_sub(paint.rect.y);
        let left: usize = if self.rows.len() > self.scroll_top {
            self.rows.len() - self.scroll_top
        } else {
            0
        };
        let total: u16 = if left < visible as usize {
            left as u16
        } else {
            visible
        };
        let mut count: u16 = 0;
        assert(earlier + tree.window_painted(before, p, 0).1 =~= earlier);
        while count < total
            invariant
                count <= total <= left,
                left == 0 || self.scroll_top + left == self.rows@.len(),
                self.rows@.len() <= usize::MAX,
                tree == self@,
                p == paint@,
                frame.wf(),
                frame.source() == old(frame).source(),
                frame@ == tree.window_painted(before, p, count as int).0,
                hits@ == earlier + tree.window_painted(before, p, count as int).1,
            decreases total - count,
        {
            let ghost now = frame@;
            let ghost areas = tree.window_painted(before, p, count as int).1;
            let index: usize = self.scroll_top + count as usize;
            let y: u16 = paint.rect.y.saturating_add(count);
            self.paint_row(frame, hits, paint, index, y);
            proof {
                window_grows(tree, before, p, count as int);
                assert(hits@ =~= earlier + (areas + tree.row_areas(now, p, index as int, y)));
            }
            count += 1;
        }
        total
    }

    /// Paints the rows of the window and registers their areas; how many rows
    /// were left out.
    pub fn paint(&mut self, frame: &mut Frame, hits: &mut Vec<Hit>, paint: &TreePaint<'_>) -> (omitted:
        u16)
        requires
            old(self).wf(),
            old(frame).wf(),
        ensures
            final(self).wf(),
            final(frame).wf(),
            final(frame).source() == old(frame).source(),
            final(self)@ == old(self)@.rebuilt().clamped(paint@.content_rows as int),
            ({
                let tree = final(self)@;
                let count = tree.shown_rows(paint@);
                let (painted, areas) = tree.window_painted(old(frame)@, paint@, count);
                &&& final(frame)@ == painted
                &&& final(hits)@ == old(hits)@ + areas
                &&& omitted == sat_sub(cell_count(tree.rows.len() as int), cell_count(count))
            }),
    {
        self.rebuild_rows();
        self.clamp_scroll(paint.content_rows as usize);
        let count: u16 = self.paint_window(frame, hits, paint);
        let natural: u16 = if self.rows.len() <= 65535 {
            self.rows.len() as u16
        } else {
            65535
        };
        natural.saturating_sub(count)
    }
}

} // verus!
