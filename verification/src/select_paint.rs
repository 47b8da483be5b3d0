//! What a select looks like.

use vstd::prelude::*;
use vstd::string::*;

use crate::charset::Charset;
use crate::color::Color;
use crate::events::{EventView, FlowView, Hit, HitTag, Slot};
use crate::frame::{Frame, FrameView};
use crate::geometry::{max16, sat_add, sat_sub, Rect};
use crate::input::Key;
use crate::lines::{desc_lines, desc_rows, label_lines, label_rows, line_text, span_views};
use crate::numbers::{decimal, to_decimal};
use crate::runs::{
    mark, no_runs, push_mark, push_run, run, run_views, write_runs, written, Run, RunView,
};
use crate::select::{OptionLayout, Select, SelectView};
use crate::select_layout::{
    label_indent, label_width, line_cells, option_label_indent, option_label_width,
    previews_height, sum_previews, to_cells, to_line_cells,
};
use crate::status::cell_count;
use crate::style::{plain, tinted, Style};
use crate::text::{ascii_clusters, content, text_width, ClusterView, Text};
use crate::theme::Theme;

verus! {

/// Text in the theme's default color.
pub open spec fn base_style(theme: Theme) -> Style {
    Style { foreground: theme.fg, ..plain() }
}

/// Text in the theme's muted color.
pub open spec fn muted_style(theme: Theme) -> Style {
    Style { foreground: theme.muted, ..plain() }
}

/// Text in the theme's accent color.
pub open spec fn accent_style(theme: Theme) -> Style {
    Style { foreground: theme.accent, ..plain() }
}

/// What a select paints with: theme, charset, and what the host measured.
pub struct SelectPaint<'a> {
    /// Theme.
    pub theme: &'a Theme,
    /// Charset.
    pub charset: Charset,
    /// Area of the select.
    pub rect: Rect,
    /// First row that is not painted.
    pub clip: u16,
    /// Whether the select has the focus.
    pub focused: bool,
    /// Option row under the pointer.
    pub hovered: Option<u16>,
    /// The select.
    pub slot: Slot,
    /// The query, measured.
    pub query: &'a Text,
    /// The typed custom value, measured.
    pub custom: &'a Text,
    /// The search icon, measured.
    pub search: &'a Text,
    /// The preview rail, measured.
    pub rail: &'a Text,
}

/// What a select paints with.
pub struct PaintView {
    /// Theme.
    pub theme: Theme,
    /// Charset.
    pub charset: Charset,
    /// Area of the select.
    pub rect: Rect,
    /// First row that is not painted.
    pub clip: u16,
    /// Whether the select has the focus.
    pub focused: bool,
    /// Option row under the pointer.
    pub hovered: Option<u16>,
    /// The select.
    pub slot: Slot,
    /// The query.
    pub query: Seq<ClusterView>,
    /// The typed custom value.
    pub custom: Seq<ClusterView>,
    /// The search icon.
    pub search: Seq<ClusterView>,
    /// The preview rail.
    pub rail: Seq<ClusterView>,
}

impl<'a> View for SelectPaint<'a> {
    type V = PaintView;

    open spec fn view(&self) -> PaintView {
        PaintView {
            theme: *self.theme,
            charset: self.charset,
            rect: self.rect,
            clip: self.clip,
            focused: self.focused,
            hovered: self.hovered,
            slot: self.slot,
            query: self.query@,
            custom: self.custom@,
            search: self.search@,
            rail: self.rail@,
        }
    }
}

/// The glyph of a beam.
pub open spec fn beam_glyph(charset: Charset) -> Seq<char> {
    match charset {
        Charset::Ascii => "_"@,
        _ => "▏"@,
    }
}

/// The glyph of the focus cursor.
pub open spec fn cursor_glyph(charset: Charset) -> Seq<char> {
    match charset {
        Charset::Unicode => "❯ "@,
        Charset::NerdFont => "\u{f054} "@,
        Charset::Ascii => "> "@,
    }
}

/// The glyph of a checkbox.
pub open spec fn checkbox_glyph(charset: Charset, checked: bool) -> Seq<char> {
    match charset {
        Charset::Ascii => if checked {
            "[x]"@
        } else {
            "[ ]"@
        },
        Charset::NerdFont => if checked {
            "\u{f14a}"@
        } else {
            "\u{f096}"@
        },
        Charset::Unicode => if checked {
            "☑"@
        } else {
            "☐"@
        },
    }
}

/// The glyph of a radio button.
pub open spec fn radio_glyph(charset: Charset, selected: bool) -> Seq<char> {
    match charset {
        Charset::Ascii => if selected {
            "(o)"@
        } else {
            "( )"@
        },
        Charset::NerdFont => if selected {
            "\u{f192}"@
        } else {
            "\u{f10c}"@
        },
        Charset::Unicode => if selected {
            "◉"@
        } else {
            "○"@
        },
    }
}

impl SelectView {
    /// Matches of all options, as the query line counts them.
    pub open spec fn count_text(self) -> Seq<char> {
        decimal(self.visible.len()) + seq!['/'] + decimal(self.options.len())
    }

    /// The frame with the count at the right edge, where there is room behind
    /// column `x`.
    pub open spec fn counted(self, frame: FrameView, p: PaintView, y: u16, x: u16) -> FrameView {
        let text = ascii_clusters(self.count_text());
        let column = sat_add(p.rect.x, sat_sub(p.rect.width, text_width(text)));
        if column > x {
            frame.put(column, y, text, muted_style(p.theme))
        } else {
            frame
        }
    }

    /// The frame with the query line of a select that always filters: search
    /// glyph, live query, and the terminal cursor at the insertion point.
    pub open spec fn live_query(self, frame: FrameView, p: PaintView, y: u16) -> FrameView {
        let (typed, x) = written(
            frame,
            p.rect.x,
            y,
            seq![
                run(p.search, accent_style(p.theme)),
                mark(" "@, base_style(p.theme)),
                run(p.query, base_style(p.theme)),
            ],
        );
        let placed = if p.focused {
            FrameView { cursor: Some((x, y)), ..typed.touched() }
        } else {
            typed
        };
        self.counted(placed, p, y, x)
    }

    /// The frame with the query line of a search that was asked for.
    pub open spec fn armed_query(self, frame: FrameView, p: PaintView, y: u16) -> FrameView {
        let (typed, x) = written(
            frame,
            p.rect.x,
            y,
            seq![
                mark("/ "@, Style { bold: true, ..accent_style(p.theme) }),
                run(p.query, base_style(p.theme)),
            ],
        );
        let placed = if self.searching && p.focused {
            FrameView { cursor: Some((x, y)), ..typed.touched() }
        } else {
            typed
        };
        if self.searching {
            let beam = ascii_clusters(beam_glyph(p.charset));
            self.counted(
                placed.put(x, y, beam, accent_style(p.theme)),
                p,
                y,
                placed.end(x, y, beam),
            )
        } else {
            self.counted(placed, p, y, x)
        }
    }

    /// The frame with title and query line.
    pub open spec fn header_painted(self, frame: FrameView, p: PaintView) -> FrameView {
        let titled = match self.label {
            Some(label) if p.rect.y < p.clip => frame.put(
                p.rect.x,
                p.rect.y,
                label,
                Style { bold: true, ..base_style(p.theme) },
            ),
            _ => frame,
        };
        let y = match self.label {
            Some(label) => sat_add(p.rect.y, 1),
            None => p.rect.y,
        };
        if !self.filter || y >= p.clip {
            titled
        } else if self.types_to_filter() {
            self.live_query(titled, p, y)
        } else if self.searching || self.filter_q.len() > 0 {
            self.armed_query(titled, p, y)
        } else if p.focused {
            titled.put(p.rect.x, y, ascii_clusters("/ to search"@), muted_style(p.theme))
        } else {
            titled
        }
    }

    /// Background of a hovered option.
    pub open spec fn row_tint(self, p: PaintView, row: int) -> Option<Color> {
        if p.hovered == Some(self.visible[row]) {
            Some(p.theme.hover)
        } else {
            None
        }
    }

    /// The cursor column of a row.
    pub open spec fn gutter(self, p: PaintView, row: int) -> Seq<char> {
        if row == self.cursor && p.focused {
            cursor_glyph(p.charset)
        } else {
            "  "@
        }
    }

    /// The style of a row's label.
    pub open spec fn label_style(self, p: PaintView, row: int) -> Style {
        tinted(
            if row == self.cursor {
                Style { bold: true, ..accent_style(p.theme) }
            } else {
                base_style(p.theme)
            },
            self.row_tint(p, row),
        )
    }

    /// The runs of a row: cursor, mark, the label's first line, and what
    /// follows it.
    pub open spec fn row_runs(self, p: PaintView, row: int) -> Seq<RunView> {
        let index = self.visible[row];
        let option = self.shown(row);
        let tint = self.row_tint(p, row);
        let checked = self.chosen.contains(index as usize);
        let first = label_rows(option.label, label_width(p.charset, p.rect.width))[0];
        let head = seq![
            mark(self.gutter(p, row), tinted(accent_style(p.theme), tint)),
            mark(
                if self.multi {
                    checkbox_glyph(p.charset, checked)
                } else {
                    radio_glyph(p.charset, checked)
                },
                tinted(
                    Style {
                        foreground: if checked {
                            p.theme.ok
                        } else {
                            p.theme.muted
                        },
                        ..plain()
                    },
                    tint,
                ),
            ),
            mark(" "@, tinted(base_style(p.theme), tint)),
            run(option.label.subrange(first.0, first.1), self.label_style(p, row)),
        ];
        let noted = if option.recommended {
            head.push(mark(" (Recommended)"@, tinted(muted_style(p.theme), tint)))
        } else {
            head
        };
        if option.custom && (self.editing || self.custom_text.len() > 0) {
            let typed = noted.push(mark(": "@, tinted(muted_style(p.theme), tint))).push(
                run(p.custom, tinted(Style { foreground: p.theme.info, ..plain() }, tint)),
            );
            if self.editing {
                typed.push(mark(beam_glyph(p.charset), tinted(accent_style(p.theme), tint)))
            } else {
                typed
            }
        } else {
            noted
        }
    }

    /// The frame with the further lines of a label, from line `line` on.
    pub open spec fn label_painted(
        self,
        frame: FrameView,
        p: PaintView,
        row: int,
        count: int,
    ) -> FrameView
        decreases count,
    {
        if count <= 1 {
            frame
        } else {
            let option = self.shown(row);
            let lines = label_rows(option.label, label_width(p.charset, p.rect.width));
            let top = self.layouts[self.visible[row] as int].top;
            self.label_painted(frame, p, row, count - 1).put(
                sat_add(p.rect.x, label_indent(p.charset)),
                sat_add(top, line_cells(count - 1)),
                option.label.subrange(lines[count - 1].0, lines[count - 1].1),
                self.label_style(p, row),
            )
        }
    }

    /// The frame with the row of an option: label options in full, options of
    /// cells up to the cells, which the host paints.
    pub open spec fn row_painted(self, frame: FrameView, p: PaintView, row: int) -> FrameView {
        let option = self.shown(row);
        let layout = self.layouts[self.visible[row] as int];
        let lines = label_rows(option.label, label_width(p.charset, p.rect.width));
        if layout.height == 0 || layout.top >= p.clip {
            frame
        } else if option.rows is Some {
            frame.put(
                p.rect.x,
                layout.top,
                ascii_clusters(self.gutter(p, row)),
                accent_style(p.theme),
            )
        } else {
            let filled = match self.row_tint(p, row) {
                Some(color) => frame.filled(
                    Rect {
                        x: p.rect.x,
                        y: layout.top,
                        width: p.rect.width,
                        height: line_cells(lines.len() as int),
                    },
                    Style { background: color, ..plain() },
                ),
                None => frame,
            };
            self.label_painted(
                written(filled, p.rect.x, layout.top, self.row_runs(p, row)).0,
                p,
                row,
                lines.len() as int,
            )
        }
    }

    /// First row of an option's description, from its top.
    pub open spec fn desc_offset(self, p: PaintView, row: int) -> u16 {
        let option = self.shown(row);
        let layout = self.layouts[self.visible[row] as int];
        max16(
            sat_sub(
                sat_sub(
                    layout.height,
                    previews_height(option.previews, option.previews.len() as int),
                ),
                option.desc_height(p.rect.width),
            ),
            1,
        )
    }

    /// The frame with the first `count` lines of a description.
    pub open spec fn desc_painted(
        self,
        frame: FrameView,
        p: PaintView,
        row: int,
        count: int,
    ) -> FrameView
        decreases count,
    {
        if count <= 0 {
            frame
        } else {
            let desc = self.shown(row).desc->0;
            let line = desc_rows(desc, sat_sub(p.rect.width, 6))[count - 1];
            let top = self.layouts[self.visible[row] as int].top;
            let y = sat_add(top, sat_add(self.desc_offset(p, row), cell_count(count - 1)));
            let earlier = self.desc_painted(frame, p, row, count - 1);
            if y < p.clip {
                earlier.put(
                    sat_add(p.rect.x, 6),
                    y,
                    desc.subrange(line.0, line.1),
                    muted_style(p.theme),
                )
            } else {
                earlier
            }
        }
    }

    /// The frame with the rail beside `count` rows of previews.
    pub open spec fn rail_painted(
        self,
        frame: FrameView,
        p: PaintView,
        first: u16,
        count: int,
    ) -> FrameView
        decreases count,
    {
        if count <= 0 {
            frame
        } else {
            let y = sat_add(first, cell_count(count - 1));
            let earlier = self.rail_painted(frame, p, first, count - 1);
            if y < p.clip {
                earlier.put(sat_add(p.rect.x, 6), y, p.rail, muted_style(p.theme))
            } else {
                earlier
            }
        }
    }

    /// The frame with what stands under an option's row: the hover tint of an
    /// option of cells, the description, and the rail beside the previews.
    pub open spec fn tail_painted(self, frame: FrameView, p: PaintView, row: int) -> FrameView {
        let option = self.shown(row);
        let layout = self.layouts[self.visible[row] as int];
        if layout.height == 0 || layout.top >= p.clip {
            frame
        } else {
            let tinted = match (option.rows, self.row_tint(p, row)) {
                (Some(rows), Some(color)) => frame.underlaid(
                    Rect { x: p.rect.x, y: layout.top, width: p.rect.width, height: 1 },
                    color,
                ),
                _ => frame,
            };
            let described = match option.desc {
                Some(desc) => self.desc_painted(
                    tinted,
                    p,
                    row,
                    desc_rows(desc, sat_sub(p.rect.width, 6)).len() as int,
                ),
                None => tinted,
            };
            let above = sat_add(
                option.row_height(p.charset, p.rect.width),
                option.desc_height(p.rect.width),
            );
            self.rail_painted(
                described,
                p,
                sat_add(layout.top, above),
                previews_height(option.previews, option.previews.len() as int) as int,
            )
        }
    }

    /// The frame with the first `count` rows and what stands under them.
    pub open spec fn rows_painted(self, frame: FrameView, p: PaintView, count: int) -> FrameView
        decreases count,
    {
        if count <= 0 {
            frame
        } else {
            self.tail_painted(
                self.row_painted(self.rows_painted(frame, p, count - 1), p, count - 1),
                p,
                count - 1,
            )
        }
    }

    /// The areas of the first `count` rows, for the pointer.
    pub open spec fn row_hits(self, p: PaintView, count: int) -> Seq<Hit>
        decreases count,
    {
        if count <= 0 {
            Seq::empty()
        } else {
            let index = self.visible[count - 1];
            let layout = self.layouts[index as int];
            let earlier = self.row_hits(p, count - 1);
            if layout.height == 0 {
                earlier
            } else {
                earlier.push(
                    Hit {
                        rect: Rect {
                            x: p.rect.x,
                            y: layout.top,
                            width: p.rect.width,
                            height: layout.height,
                        },
                        slot: p.slot,
                        tag: HitTag::Row(index),
                    },
                )
            }
        }
    }
}

impl Select {
    /// Puts the count at the right edge.
    fn paint_count(&self, frame: &mut Frame, paint: &SelectPaint<'_>, y: u16, x: u16)
        requires
            old(frame).wf(),
        ensures
            final(frame).wf(),
            final(frame).source() == old(frame).source(),
            final(frame)@ == self@.counted(old(frame)@, paint@, y, x),
    {
        let mut text: String = to_decimal(self.visible.len() as u64);
        text.append("/");
        let total: String = to_decimal(self.options.len() as u64);
        text.append(total.as_str());
        proof {
            reveal_strlit("/");
            assert(text@ =~= self@.count_text());
        }
        let shown: Text = Text::cells_of(text.as_str());
        let column: u16 = paint.rect.x.saturating_add(
            paint.rect.width.saturating_sub(shown.width()),
        );
        if column > x {
            frame.put(column, y, &shown, Style::new().fg(paint.theme.muted));
        }
    }

    /// Paints the query line of a select that always filters.
    fn paint_live_query(&self, frame: &mut Frame, paint: &SelectPaint<'_>, y: u16)
        requires
            old(frame).wf(),
        ensures
            final(frame).wf(),
            final(frame).source() == old(frame).source(),
            final(frame)@ == self@.live_query(old(frame)@, paint@, y),
    {
        let base: Style = Style::new().fg(paint.theme.fg);
        let mut runs: Vec<Run> = no_runs();
        push_run(&mut runs, paint.search.copy(), Style::new().fg(paint.theme.accent));
        push_mark(&mut runs, " ", base);
        push_run(&mut runs, paint.query.copy(), base);
        assert(run_views(runs@) =~= seq![
            run(paint@.search, accent_style(paint@.theme)),
            mark(" "@, base_style(paint@.theme)),
            run(paint@.query, base_style(paint@.theme)),
        ]);
        let x: u16 = write_runs(frame, paint.rect.x, y, &runs);
        if paint.focused {
            frame.set_cursor(x, y);
        }
        self.paint_count(frame, paint, y, x);
    }

    /// Paints the query line of a search that was asked for.
    fn paint_armed_query(&self, frame: &mut Frame, paint: &SelectPaint<'_>, y: u16)
        requires
            old(frame).wf(),
        ensures
            final(frame).wf(),
            final(frame).source() == old(frame).source(),
            final(frame)@ == self@.armed_query(old(frame)@, paint@, y),
    {
        let accent: Style = Style::new().fg(paint.theme.accent);
        let mut runs: Vec<Run> = no_runs();
        push_mark(&mut runs, "/ ", accent.bold());
        push_run(&mut runs, paint.query.copy(), Style::new().fg(paint.theme.fg));
        assert(run_views(runs@) =~= seq![
            mark("/ "@, Style { bold: true, ..accent_style(paint@.theme) }),
            run(paint@.query, base_style(paint@.theme)),
        ]);
        let mut x: u16 = write_runs(frame, paint.rect.x, y, &runs);
        if self.searching {
            if paint.focused {
                frame.set_cursor(x, y);
            }
            x = frame.put(x, y, &Text::cells_of(paint.charset.beam()), accent);
        }
        self.paint_count(frame, paint, y, x);
    }

    /// Paints title and query line.
    pub fn paint_header(&self, frame: &mut Frame, paint: &SelectPaint<'_>)
        requires
            old(frame).wf(),
            content(paint.query@) == self@.filter_q,
        ensures
            final(frame).wf(),
            final(frame).source() == old(frame).source(),
            final(frame)@ == self@.header_painted(old(frame)@, paint@),
    {
        let theme: &Theme = paint.theme;
        let base: Style = Style::new().fg(theme.fg);
        let mut y: u16 = paint.rect.y;
        if let Some(label) = &self.label {
            if y < paint.clip {
                frame.put(paint.rect.x, y, label, base.bold());
            }
            y = y.saturating_add(1);
        }
        if !self.filter || y >= paint.clip {
            return;
        }
        if !self.multi {
            self.paint_live_query(frame, paint, y);
        } else if self.searching || !self.filter_q.as_str().is_empty() {
            self.paint_armed_query(frame, paint, y);
        } else if paint.focused {
            frame.put(
                paint.rect.x,
                y,
                &Text::cells_of("/ to search"),
                Style::new().fg(theme.muted),
            );
        }
    }

    /// Background of a hovered option.
    fn tint_of(&self, paint: &SelectPaint<'_>, row: usize) -> (tint: Option<Color>)
        requires
            row < self@.visible.len(),
        ensures
            tint == self@.row_tint(paint@, row as int),
    {
        match paint.hovered {
            Some(index) if index == self.visible[row] => Some(paint.theme.hover),
            _ => None,
        }
    }

    /// The cursor column of a row.
    fn gutter_of(&self, paint: &SelectPaint<'_>, row: usize) -> (gutter: &'static str)
        requires
            row < self@.visible.len(),
        ensures
            gutter@ == self@.gutter(paint@, row as int),
    {
        if row == self.cursor as usize && paint.focused {
            paint.charset.cursor()
        } else {
            "  "
        }
    }

    /// The style of a row's label.
    fn label_style_of(&self, paint: &SelectPaint<'_>, row: usize) -> (style: Style)
        requires
            row < self@.visible.len(),
        ensures
            style == self@.label_style(paint@, row as int),
    {
        let tint: Option<Color> = self.tint_of(paint, row);
        if row == self.cursor as usize {
            Style::new().fg(paint.theme.accent).bold().tint(tint)
        } else {
            Style::new().fg(paint.theme.fg).tint(tint)
        }
    }

    /// The runs of a row.
    fn row_run_list(&self, paint: &SelectPaint<'_>, row: usize, start: usize, end: usize) -> (runs:
        Vec<Run>)
        requires
            self.wf(),
            row < self@.visible.len(),
            start <= end <= self@.shown(row as int).label.len(),
            label_rows(
                self@.shown(row as int).label,
                label_width(paint@.charset, paint@.rect.width),
            )[0] == (start as int, end as int),
        ensures
            run_views(runs@) == self@.row_runs(paint@, row as int),
    {
        let theme: &Theme = paint.theme;
        let charset: Charset = paint.charset;
        let index: usize = self.visible[row] as usize;
        let option = &self.options[index];
        let tint: Option<Color> = self.tint_of(paint, row);
        let accent: Style = Style::new().fg(theme.accent).tint(tint);
        let dim: Style = Style::new().fg(theme.muted).tint(tint);
        let checked: bool = crate::bits::bits_get(&self.chosen, index);
        let mut runs: Vec<Run> = no_runs();
        push_mark(&mut runs, self.gutter_of(paint, row), accent);
        push_mark(
            &mut runs,
            if self.multi {
                charset.checkbox(checked)
            } else {
                charset.radio(checked)
            },
            Style::new().fg(
                if checked {
                    theme.ok
                } else {
                    theme.muted
                },
            ).tint(tint),
        );
        push_mark(&mut runs, " ", Style::new().fg(theme.fg).tint(tint));
        push_run(
            &mut runs,
            line_text(&option.label, start, end),
            self.label_style_of(paint, row),
        );
        if option.recommended {
            push_mark(&mut runs, " (Recommended)", dim);
        }
        if option.custom && (self.editing || !self.custom_text.as_str().is_empty()) {
            push_mark(&mut runs, ": ", dim);
            push_run(&mut runs, paint.custom.copy(), Style::new().fg(theme.info).tint(tint));
            if self.editing {
                push_mark(&mut runs, charset.beam(), accent);
            }
        }
        assert(run_views(runs@) =~= self@.row_runs(paint@, row as int));
        runs
    }

    /// Paints the row of an option: label options in full, options of cells up
    /// to the cells, which the host paints.
    pub fn paint_row(&self, frame: &mut Frame, paint: &SelectPaint<'_>, row: usize)
        requires
            self.wf(),
            old(frame).wf(),
            row < self@.visible.len(),
            content(paint.custom@) == self@.custom_text,
        ensures
            final(frame).wf(),
            final(frame).source() == old(frame).source(),
            final(frame)@ == self@.row_painted(old(frame)@, paint@, row as int),
    {
        let index: usize = self.visible[row] as usize;
        let layout: OptionLayout = self.layouts[index];
        if layout.height == 0 || layout.top >= paint.clip {
            return;
        }
        if self.options[index].rows.is_some() {
            frame.put(
                paint.rect.x,
                layout.top,
                &Text::cells_of(self.gutter_of(paint, row)),
                Style::new().fg(paint.theme.accent),
            );
            return;
        }
        let charset: Charset = paint.charset;
        let lines: Vec<(usize, usize)> = label_lines(
            &self.options[index].label,
            option_label_width(charset, paint.rect.width),
        );
        let ghost spans = span_views(lines@);
        assert(spans.len() > 0);
        assert(spans[0] == (lines@[0].0 as int, lines@[0].1 as int));
        if let Some(color) = self.tint_of(paint, row) {
            frame.fill(
                Rect::new(paint.rect.x, layout.top, paint.rect.width, to_line_cells(lines.len())),
                Style::new().bg(color),
            );
        }
        let runs: Vec<Run> = self.row_run_list(paint, row, lines[0].0, lines[0].1);
        write_runs(frame, paint.rect.x, layout.top, &runs);
        let ghost painted = frame@;
        let style: Style = self.label_style_of(paint, row);
        let mut line: usize = 1;
        while line < lines.len()
            invariant
                1 <= line <= lines@.len(),
                self.wf(),
                row < self@.visible.len(),
                index == self@.visible[row as int],
                layout == self@.layouts[index as int],
                charset == paint@.charset,
                spans == span_views(lines@),
                spans == label_rows(
                    self@.shown(row as int).label,
                    label_width(charset, paint@.rect.width),
                ),
                forall|i: int|
                    0 <= i < lines@.len() ==> (#[trigger] lines@[i]).0 <= lines@[i].1 <= self@.shown(
                        row as int,
                    ).label.len(),
                style == self@.label_style(paint@, row as int),
                frame.wf(),
                frame.source() == old(frame).source(),
                frame@ == self@.label_painted(painted, paint@, row as int, line as int),
            decreases lines.len() - line,
        {
            assert(spans[line as int] == (lines@[line as int].0 as int, lines@[line as int].1 as int));
            let text: Text = line_text(&self.options[index].label, lines[line].0, lines[line].1);
            frame.put(
                paint.rect.x.saturating_add(option_label_indent(charset)),
                layout.top.saturating_add(to_line_cells(line)),
                &text,
                style,
            );
            line += 1;
        }
    }

    /// Paints what stands under an option's row; the host paints the previews
    /// themselves.
    pub fn paint_option_tail(&self, frame: &mut Frame, paint: &SelectPaint<'_>, row: usize)
        requires
            self.wf(),
            old(frame).wf(),
            row < self@.visible.len(),
        ensures
            final(frame).wf(),
            final(frame).source() == old(frame).source(),
            final(frame)@ == self@.tail_painted(old(frame)@, paint@, row as int),
    {
        let index: usize = self.visible[row] as usize;
        let layout: OptionLayout = self.layouts[index];
        if layout.height == 0 || layout.top >= paint.clip {
            return;
        }
        let charset: Charset = paint.charset;
        let dim: Style = Style::new().fg(paint.theme.muted);
        if self.options[index].rows.is_some() {
            if let Some(color) = self.tint_of(paint, row) {
                frame.underlay(Rect::new(paint.rect.x, layout.top, paint.rect.width, 1), color);
            }
        }
        let previews: u16 = sum_previews(
            &self.options[index].previews,
            self.options[index].previews.len(),
        );
        let mut desc_rows_count: u16 = 0;
        if let Some(desc) = &self.options[index].desc {
            let lines: Vec<(usize, usize)> = desc_lines(desc, paint.rect.width.saturating_sub(6));
            let ghost spans = span_views(lines@);
            assert(spans == desc_rows(desc@, sat_sub(paint@.rect.width, 6)));
            desc_rows_count = to_cells(lines.len());
            let rest: u16 = layout.height.saturating_sub(previews).saturating_sub(desc_rows_count);
            let offset: u16 = if rest > 1 {
                rest
            } else {
                1
            };
            assert(offset == self@.desc_offset(paint@, row as int));
            let ghost tinted = frame@;
            let mut line: usize = 0;
            while line < lines.len()
                invariant
                    line <= lines@.len(),
                    self.wf(),
                    row < self@.visible.len(),
                    index == self@.visible[row as int],
                    layout == self@.layouts[index as int],
                    self@.shown(row as int).desc == Some(desc@),
                    dim == muted_style(paint@.theme),
                    offset == self@.desc_offset(paint@, row as int),
                    spans == span_views(lines@),
                    spans == desc_rows(desc@, sat_sub(paint@.rect.width, 6)),
                    forall|i: int|
                        0 <= i < lines@.len() ==> (#[trigger] lines@[i]).0 <= lines@[i].1
                            <= desc@.len(),
                    frame.wf(),
                    frame.source() == old(frame).source(),
                    frame@ == self@.desc_painted(tinted, paint@, row as int, line as int),
                decreases lines.len() - line,
            {
                assert(spans[line as int] == (
                    lines@[line as int].0 as int,
                    lines@[line as int].1 as int,
                ));
                let y: u16 = layout.top.saturating_add(offset.saturating_add(to_cells(line)));
                if y < paint.clip {
                    let text: Text = line_text(desc, lines[line].0, lines[line].1);
                    frame.put(paint.rect.x.saturating_add(6), y, &text, dim);
                }
                line += 1;
            }
        }
        let above: u16 = self.row_height(charset, paint.rect.width, index).saturating_add(
            desc_rows_count,
        );
        let first: u16 = layout.top.saturating_add(above);
        let ghost described = frame@;
        let mut at: u16 = 0;
        while at < previews
            invariant
                at <= previews,
                dim == muted_style(paint@.theme),
                frame.wf(),
                frame.source() == old(frame).source(),
                frame@ == self@.rail_painted(described, paint@, first, at as int),
            decreases previews - at,
        {
            let y: u16 = first.saturating_add(at);
            if y < paint.clip {
                frame.put(paint.rect.x.saturating_add(6), y, paint.rail, dim);
            }
            at += 1;
        }
    }

    /// Registers the rows for the pointer.
    pub fn register_hits(&self, hits: &mut Vec<Hit>, paint: &SelectPaint<'_>)
        requires
            self.wf(),
        ensures
            final(hits)@ == old(hits)@ + self@.row_hits(paint@, self@.visible.len() as int),
    {
        let ghost before = hits@;
        let mut row: usize = 0;
        assert(before + self@.row_hits(paint@, 0) =~= before);
        while row < self.visible.len()
            invariant
                row <= self.visible@.len(),
                self.wf(),
                hits@ == before + self@.row_hits(paint@, row as int),
            decreases self.visible.len() - row,
        {
            let index: u16 = self.visible[row];
            let layout: OptionLayout = self.layouts[index as usize];
            if layout.height != 0 {
                hits.push(
                    Hit {
                        rect: Rect::new(
                            paint.rect.x,
                            layout.top,
                            paint.rect.width,
                            layout.height,
                        ),
                        slot: paint.slot,
                        tag: HitTag::Row(index),
                    },
                );
            }
            row += 1;
            assert(hits@ =~= before + self@.row_hits(paint@, row as int));
        }
    }

    /// Paints a select: header, rows and what stands under them, and registers
    /// the rows for the pointer.
    ///
    /// The host paints grid cells and previews; a host whose options hold cells
    /// calls the parts itself, with the cells between a row and its tail.
    pub fn paint(&self, frame: &mut Frame, hits: &mut Vec<Hit>, paint: &SelectPaint<'_>)
        requires
            self.wf(),
            old(frame).wf(),
            content(paint.query@) == self@.filter_q,
            content(paint.custom@) == self@.custom_text,
        ensures
            final(frame).wf(),
            final(frame).source() == old(frame).source(),
            final(frame)@ == self@.rows_painted(
                self@.header_painted(old(frame)@, paint@),
                paint@,
                self@.visible.len() as int,
            ),
            final(hits)@ == old(hits)@ + self@.row_hits(paint@, self@.visible.len() as int),
    {
        self.register_hits(hits, paint);
        self.paint_header(frame, paint);
        let ghost headed = frame@;
        let mut row: usize = 0;
        while row < self.visible.len()
            invariant
                row <= self.visible@.len(),
                self.wf(),
                frame.wf(),
                content(paint.custom@) == self@.custom_text,
                frame.source() == old(frame).source(),
                frame@ == self@.rows_painted(headed, paint@, row as int),
            decreases self.visible.len() - row,
        {
            self.paint_row(frame, paint, row);
            self.paint_option_tail(frame, paint, row);
            row += 1;
        }
    }
}

/// The cancel ladder: a first Esc clears the query, a second one bubbles out.
pub proof fn escape_clears_then_bubbles(select: SelectView, kept: usize)
    requires
        select.types_to_filter(),
        !select.editing,
        select.filter_q.len() > 0,
    ensures
        select.dispatched(Key::Esc, kept).flow is None,
        select.dispatched(Key::Esc, kept).state.filter_q.len() == 0,
        select.dispatched(Key::Esc, kept).state.dispatched(Key::Esc, kept).flow == Some(
            FlowView::Skip,
        ),
{
}

/// Toggling an option of a multi select twice leaves the choice as it was.
pub proof fn toggling_twice_changes_nothing(select: SelectView, index: usize)
    requires
        select.multi,
    ensures
        select.activated(index).activated(index).chosen == select.chosen,
{
    assert(select.activated(index).activated(index).chosen =~= select.chosen);
}

/// A single select has one choice after a commit, whatever was chosen before.
pub proof fn single_selects_hold_one_choice(select: SelectView, index: usize)
    requires
        !select.multi,
    ensures
        select.committed(index).state.chosen == Set::<usize>::empty().insert(index),
{
}

/// Enter on a multi select submits without changing any choice.
pub proof fn enter_submits_the_aggregate(select: SelectView, kept: usize)
    requires
        select.multi,
        !select.editing,
        !select.searching,
    ensures
        select.dispatched(Key::Enter, kept).state == select,
        select.dispatched(Key::Enter, kept).flow == Some(FlowView::Event(EventView::Submit)),
{
}

/// In a filterable list Down and Up undo one another, around the ends too.
pub proof fn steps_undo_one_another(select: SelectView)
    requires
        select.cursor < select.visible.len(),
        select.visible.len() < 65536,
    ensures
        ({
            let down = SelectView { cursor: select.target(1, true) as u16, ..select };
            down.target(-1, true) == select.cursor
        }),
{
    let count = select.visible.len() as int;
    if select.cursor + 1 == count {
        vstd::arithmetic::div_mod::lemma_mod_self_0(count);
        vstd::arithmetic::div_mod::lemma_mod_add_multiples_vanish(-1, count);
        vstd::arithmetic::div_mod::lemma_small_mod((count - 1) as nat, count as nat);
    } else {
        vstd::arithmetic::div_mod::lemma_small_mod((select.cursor + 1) as nat, count as nat);
        vstd::arithmetic::div_mod::lemma_small_mod(select.cursor as nat, count as nat);
    }
}

} // verus!
