use omp_tui::cell::{Cell, CellContent};
use omp_tui::color::{Color, CssColor, Gradient};
use omp_tui::frame::{Decor, DecorFill, DecorKind, Frame, RowMark};
use omp_tui::geometry::{Rect, Size};
use omp_tui::style::{intern_link, with_link_url, LinkRegistry, Style};
use omp_tui::text::{Cluster, Text};

/// One cluster for each character; CJK ideographs take two cells, controls none.
fn text(line: &str) -> Text {
    Text {
        clusters: line
            .chars()
            .map(|c| {
                let width = if c.is_control() {
                    0
                } else if ('\u{1100}'..'\u{ffff}').contains(&c) {
                    2
                } else {
                    1
                };
                Cluster::new(&c.to_string(), width)
            })
            .collect(),
    }
}

fn decor(rect: Rect) -> Decor {
    Decor { rect, kind: DecorKind::Fill { fill: DecorFill::Solid(Color::Default), rounded: false } }
}

fn shows(cell: &Cell, glyph: &str) -> bool {
    matches!(cell.content(), CellContent::Grapheme { text, width: 1 } if text == glyph)
}

fn is_default_blank(cell: &Cell) -> bool {
    matches!(cell.content(), CellContent::Blank) && cell.style() == Style::new()
}

fn luminance(red: u8, green: u8, blue: u8) -> f32 {
    (0.7152f32.mul_add(f32::from(green), 0.2126 * f32::from(red)) + 0.0722 * f32::from(blue)) / 255.0
}

fn blend(color: (u8, u8, u8), toward: u8, amount: f32) -> Color {
    let channel = |a: u8| f32::mul_add(f32::from(toward) - f32::from(a), amount, f32::from(a)).round() as u8;
    Color::Rgb(channel(color.0), channel(color.1), channel(color.2))
}

fn contrast_label(red: u8, green: u8, blue: u8) -> Color {
    let bright = luminance(red, green, blue) > 0.5;
    let blended = if bright {
        blend((red, green, blue), 0, 0.82)
    } else {
        blend((red, green, blue), 255, 0.92)
    };
    Color::Rgb(red, green, blue).contrast_label(bright, blended)
}

#[test]
fn luminance_and_contrast_label_follow_git_control_math() {
    assert!((luminance(255, 255, 255) - 1.0).abs() < f32::EPSILON);
    assert!((luminance(255, 0, 0) - 0.2126).abs() < 0.000_001);
    assert_eq!(
        contrast_label(200, 220, 240),
        Color::Rgb(36, 40, 43),
        "light fills blend 82% toward black"
    );
    assert_eq!(
        contrast_label(20, 40, 60),
        Color::Rgb(236, 238, 239),
        "dark fills blend 92% toward white"
    );
    let black = Color::Rgb(0, 0, 0);
    assert_eq!(Color::Default.contrast_label(false, black), Color::Default);
    assert_eq!(Color::Indexed(255).contrast_label(true, black), Color::Indexed(16));
    assert_eq!(Color::Indexed(233).contrast_label(false, black), Color::Indexed(231));
}

#[test]
fn style_sheet_colors_lower_to_cell_colors() {
    assert_eq!(
        Color::parse(Some(CssColor::Rgba(0x66, 0x33, 0x99, true))),
        Some(Color::Rgb(0x66, 0x33, 0x99))
    );
    assert_eq!(Color::parse(Some(CssColor::Rgba(255, 0, 0, false))), Some(Color::Default));
    assert_eq!(Color::parse(Some(CssColor::Current)), Some(Color::Default));
    assert_eq!(Color::parse(Some(CssColor::System)), None);
    assert_eq!(Color::parse(None), None);
}

#[test]
fn colors_quantize_to_the_nearest_palette_entry() {
    assert_eq!(Color::Rgb(255, 0, 0).quantized_256(), Color::Indexed(196));
    assert_eq!(Color::Rgb(0x5f, 0x87, 0xaf).quantized_256(), Color::Indexed(67));
    assert_eq!(Color::Rgb(0x12, 0x12, 0x12).quantized_256(), Color::Indexed(233));
    assert_eq!(Color::Default.quantized_256(), Color::Default);
    assert_eq!(Color::Indexed(9).quantized_256(), Color::Indexed(9));
    let ramp = Gradient::new(Color::Rgb(1, 2, 3), Color::Rgb(4, 5, 6), 90);
    assert_eq!((ramp.start(), ramp.end(), ramp.angle()), (Color::Rgb(1, 2, 3), Color::Rgb(4, 5, 6), 90));
}

#[test]
fn overwriting_wide_grapheme_clears_its_continuation() {
    let mut frame = Frame::new(Size::new(4, 1), 1);
    frame.put(0, 0, &text("界"), Style::new());
    frame.put(0, 0, &text("a"), Style::new());

    assert!(matches!(frame.cell(1, 0).content(), CellContent::Blank));
}

#[test]
fn frame_reserves_jamo_with_the_active_terminal_policy() {
    let measured = |jamo: u16| Text { clusters: vec![Cluster::new("\u{3131}", jamo), Cluster::new("x", 1)] };
    let mut wide = Frame::new(Size::new(4, 1), 1);
    let wide_end = wide.put(0, 0, &measured(2), Style::new());
    let mut narrow = Frame::new(Size::new(4, 1), 1);
    let narrow_end = narrow.put(0, 0, &measured(1), Style::new());

    assert_eq!(wide_end, 3);
    assert!(matches!(wide.cell(1, 0).content(), CellContent::Continuation));
    assert_eq!(narrow_end, 2);
    assert!(shows(narrow.cell(1, 0), "x"));
}

#[test]
fn clipped_wide_grapheme_is_not_drawn() {
    let mut frame = Frame::new(Size::new(2, 1), 1);
    let end = frame.put(1, 0, &text("界"), Style::new());

    assert_eq!(end, 1);
    assert!(is_default_blank(frame.cell(1, 0)));
}

#[test]
fn clipped_text_preserves_cells_beyond_its_bound() {
    let mut frame = Frame::new(Size::new(4, 1), 1);
    frame.put(0, 0, &text("xxxx"), Style::new());
    let end = frame.put_clipped(1, 0, 2, &text("ab界"), Style::new());

    assert_eq!(end, 3);
    assert!(shows(frame.cell(3, 0), "x"));
}

#[test]
fn ascii_text_skips_controls_and_clips_without_unicode_segmentation() {
    let mut frame = Frame::new(Size::new(4, 1), 1);
    let end = frame.put_clipped(0, 0, 3, &text("a\tbcd"), Style::new());

    assert_eq!(end, 3);
    assert!(shows(frame.cell(2, 0), "c"));
    assert!(is_default_blank(frame.cell(3, 0)));
}

#[test]
fn resizing_height_preserves_rows_and_initializes_growth() {
    let mut frame = Frame::new(Size::new(3, 1), 1);
    frame.put(0, 0, &text("a"), Style::new());
    let fill = Style::new().bold();

    frame.resize_height(3, fill);

    assert!(shows(frame.cell(0, 0), "a"));
    assert_eq!(frame.cell(0, 2).style(), fill);
    frame.set_cursor(0, 2);
    frame.resize_height(1, Style::new());
    assert_eq!(frame.cursor(), None);
}

#[test]
fn push_decor_bumps_revision() {
    let mut frame = Frame::new(Size::new(4, 4), 1);
    let (_, before) = frame.source_stamp();

    frame.push_decor(decor(Rect::new(1, 1, 2, 2)));

    let (_, after) = frame.source_stamp();
    assert_eq!(after, before.wrapping_add(1));
}

#[test]
fn soft_wrap_flags_are_layout_metadata() {
    let mut frame = Frame::new(Size::new(4, 3), 1);
    frame.set_soft_wrap(0);
    frame.set_soft_wrap(2);
    assert!(frame.soft_wrap(0));
    assert!(!frame.soft_wrap(2), "a flag without a following row is ignored");

    let mut other = frame.copy();
    assert!(frame.row_equals(0, &other, 0));
    other.clear(Style::new());
    assert!(!other.soft_wrap(0), "clear drops boundary flags");
    assert!(!frame.row_equals(0, &other, 0), "row equality includes the boundary bit");

    frame.resize_height(1, Style::new());
    assert!(!frame.soft_wrap(0), "shrinking drops stale flags");
    frame.resize_height(3, Style::new());
    assert!(!frame.soft_wrap(0), "regrowth does not resurrect them");
}

#[test]
fn fill_clears_wrap_boundaries_it_touches() {
    let mut frame = Frame::new(Size::new(4, 4), 1);
    frame.set_soft_wrap(0);
    frame.set_soft_wrap(2);
    // Filling row 3 also drops the boundary reaching it from row 2,
    // while the untouched pair above keeps its flag.
    frame.fill(Rect::new(0, 3, 4, 1), Style::new());
    assert!(frame.soft_wrap(0));
    assert!(!frame.soft_wrap(2));
}

#[test]
fn fill_drops_contained_decor_and_keeps_enclosing_decor() {
    let mut frame = Frame::new(Size::new(8, 8), 1);
    let contained = decor(Rect::new(3, 3, 2, 2));
    let enclosing = decor(Rect::new(1, 1, 6, 6));
    frame.push_decor(contained);
    frame.push_decor(enclosing);

    frame.fill(Rect::new(2, 2, 4, 4), Style::new());

    assert_eq!(frame.decors(), &[enclosing]);
}

#[test]
fn blit_carries_full_width_wrap_boundaries_and_hardens_partial_copies() {
    let mut source = Frame::new(Size::new(4, 3), 1);
    source.put(0, 0, &text("abcd"), Style::new());
    source.put(0, 1, &text("ef"), Style::new());
    source.set_soft_wrap(0);

    let mut full = Frame::new(Size::new(4, 4), 1);
    full.set_soft_wrap(2);
    full.blit(&source, 0, 3, 0, 1);
    assert!(full.soft_wrap(1), "a full-width blit carries interior boundaries");
    assert!(!full.soft_wrap(2), "boundaries under the copy are replaced, not kept");

    let mut partial = Frame::new(Size::new(6, 4), 1);
    partial.set_soft_wrap(1);
    partial.blit(&source, 0, 3, 1, 1);
    assert!(!partial.soft_wrap(1), "an offset copy hardens the rows it rewrites");
}

#[test]
fn prompt_zone_marks_first_and_last_rows() {
    let mut frame = Frame::new(Size::new(4, 5), 1);
    frame.mark_row(1, RowMark::PromptStart);
    frame.mark_row(3, RowMark::PromptEnd);
    frame.mark_row(9, RowMark::PromptEnd);
    assert!(frame.row_mark(1, RowMark::PromptStart));
    assert!(!frame.row_mark(1, RowMark::PromptEnd));
    assert!(frame.row_mark(3, RowMark::PromptEnd));
    assert!(!frame.row_mark(9, RowMark::PromptEnd), "marks outside the frame are ignored");

    // Single-row blits (history retirement) carry the marks with the row.
    let mut start = Frame::new(Size::new(4, 1), 1);
    start.blit(&frame, 1, 1, 0, 0);
    assert!(start.row_mark(0, RowMark::PromptStart));
    assert!(!start.row_mark(0, RowMark::PromptEnd));
    let mut end = Frame::new(Size::new(4, 1), 1);
    end.blit(&frame, 3, 1, 0, 0);
    assert!(end.row_mark(0, RowMark::PromptEnd));
    let mut middle = Frame::new(Size::new(4, 1), 1);
    middle.mark_row(0, RowMark::PromptStart);
    middle.blit(&frame, 2, 1, 0, 0);
    assert!(!middle.row_mark(0, RowMark::PromptStart), "a full-width copy replaces marks");

    // Row equality sees marks so damage diffing re-emits a marked row.
    let plain = Frame::new(Size::new(4, 5), 1);
    assert!(!frame.row_equals(1, &plain, 1));
    assert!(frame.row_equals(2, &plain, 2));

    // A full-width fill retires the marks; clear drops them all.
    frame.fill(Rect::new(0, 1, 4, 1), Style::new());
    assert!(!frame.row_mark(1, RowMark::PromptStart));
    frame.fill(Rect::new(1, 3, 2, 1), Style::new());
    assert!(frame.row_mark(3, RowMark::PromptEnd), "a partial fill keeps the row's mark");
    frame.resize_height(3, Style::new());
    assert!(!frame.row_mark(3, RowMark::PromptEnd), "shrinking drops stale marks");
    frame.mark_row(0, RowMark::PromptStart);
    frame.clear(Style::new());
    assert!(!frame.row_mark(0, RowMark::PromptStart));
}

#[test]
fn blit_translates_source_decor_and_drops_destination_decor() {
    let mut source = Frame::new(Size::new(8, 6), 1);
    source.push_decor(decor(Rect::new(1, 2, 2, 1)));
    let mut destination = Frame::new(Size::new(12, 8), 1);
    destination.push_decor(decor(Rect::new(5, 2, 1, 1)));

    destination.blit(&source, 2, 3, 4, 1);

    assert_eq!(destination.decors(), &[decor(Rect::new(5, 1, 2, 1))]);
}

#[test]
fn noselect_regions_follow_fill_and_blit_lifecycle() {
    let mut frame = Frame::new(Size::new(8, 8), 1);
    frame.push_noselect(Rect::new(3, 3, 2, 2));
    frame.push_noselect(Rect::new(1, 1, 6, 6));
    assert!(!frame.selectable(3, 3));
    assert!(frame.selectable(0, 0));

    frame.fill(Rect::new(2, 2, 4, 4), Style::new());
    assert_eq!(frame.noselect(), &[Rect::new(1, 1, 6, 6)], "contained mark drops");

    let mut source = Frame::new(Size::new(8, 6), 1);
    source.push_noselect(Rect::new(1, 2, 2, 1));
    let mut destination = Frame::new(Size::new(12, 8), 1);
    destination.push_noselect(Rect::new(5, 2, 1, 1));
    destination.blit(&source, 2, 3, 4, 1);
    assert_eq!(destination.noselect(), &[Rect::new(5, 1, 2, 1)], "marks translate like decors");
}

#[test]
fn blit_translates_cursor_from_copied_region() {
    let mut source = Frame::new(Size::new(8, 6), 1);
    source.set_cursor(3, 4);
    let mut destination = Frame::new(Size::new(12, 8), 1);

    destination.blit(&source, 2, 3, 5, 1);

    assert_eq!(destination.cursor(), Some((8, 3)));
}

#[test]
fn blit_keeps_cursor_when_source_cursor_cannot_be_copied() {
    let mut source = Frame::new(Size::new(8, 6), 1);
    let mut destination = Frame::new(Size::new(6, 4), 1);
    destination.set_cursor(1, 1);

    source.set_cursor(6, 3);
    destination.blit(&source, 2, 3, 2, 0);
    assert_eq!(destination.cursor(), Some((1, 1)), "cursor past copied width");

    source.set_cursor(2, 5);
    destination.blit(&source, 2, 3, 0, 0);
    assert_eq!(destination.cursor(), Some((1, 1)), "cursor past copied rows");

    source.set_cursor(2, 3);
    destination.blit(&source, 2, 2, 0, 3);
    assert_eq!(destination.cursor(), Some((1, 1)), "translated cursor past destination height");
}

#[test]
fn links_are_interned_once() {
    let mut links = LinkRegistry::new();
    let first = intern_link(&mut links, "https://example.com/a").expect("a link");
    let second = intern_link(&mut links, "https://example.com/b").expect("a link");
    assert_ne!(first, second);
    assert_eq!(intern_link(&mut links, "https://example.com/a"), Some(first));
    assert_eq!(links.get(second), Some("https://example.com/b"));
    assert_eq!(with_link_url(&links, first, |url| url.len()), Some(21));
    assert_eq!(intern_link(&mut links, ""), None);
}

#[test]
fn children_inherit_what_they_do_not_set() {
    let parent = Style::new().fg(Color::Indexed(1)).bold();
    let own = Style::new().bg(Color::Indexed(2));
    let mixed = own.inherit(parent);
    assert_eq!(mixed.foreground_color(), Color::Indexed(1));
    assert_eq!(mixed.background_color(), Color::Indexed(2));
    assert!(mixed.spec().bold);
    assert_eq!(own.inherit(Style::new()), own);
    assert_eq!(Style::new().inherit(parent), parent);
}

#[test]
fn row_metadata_is_mirrored_and_compared() {
    let mut source = Frame::new(Size::new(4, 3), 1);
    source.set_soft_wrap(1);
    source.mark_row(0, RowMark::PromptStart);
    let mut mirror = Frame::new(Size::new(4, 3), 1);
    assert!(!mirror.same_grid(&source));
    let before = mirror.source_stamp();
    mirror.sync_soft_wraps(&source);
    assert!(mirror.soft_wrap(1) && mirror.row_mark(0, RowMark::PromptStart));
    assert!(mirror.same_grid(&source));
    assert_ne!(mirror.source_stamp(), before);
    let settled = mirror.source_stamp();
    mirror.sync_soft_wraps(&source);
    assert_eq!(mirror.source_stamp(), settled, "mirroring the same flags changes nothing");
}

#[test]
fn copies_count_each_flag_and_image_they_carry() {
    let mut source = Frame::new(Size::new(4, 3), 1);
    source.set_soft_wrap(0);
    source.mark_row(2, RowMark::PromptEnd);
    source.put_image_cell(1, 1, 9, 0, 0, 1, 1);
    let mut whole = Frame::new(Size::new(4, 3), 1);
    let (_, before) = whole.source_stamp();
    whole.blit(&source, 0, 3, 0, 0);
    assert_eq!(whole.source_stamp().1, before + 4);
    let mut part = Frame::new(Size::new(9, 3), 1);
    part.blit(&source, 0, 3, 2, 0);
    assert_eq!(part.source_stamp().1, 3, "a partial copy carries no wrap flag");
}

#[test]
fn cursors_rows_and_cells_are_read_back() {
    let mut frame = Frame::new(Size::new(4, 2), 1);
    frame.set_cursor(2, 1);
    assert_eq!(frame.cursor(), Some((2, 1)));
    frame.clear_cursor();
    assert_eq!(frame.cursor(), None);

    let mut source = Frame::new(Size::new(4, 2), 1);
    source.put(0, 1, &text("ab"), Style::new().undercurl());
    frame.copy_row_from(&source, 1);
    let shows = |cell: &Cell, wanted: &str| {
        matches!(cell.content(), CellContent::Grapheme { text, .. } if text == wanted)
    };
    assert!(shows(frame.cell(1, 1), "b"));
    let narrow = Frame::new(Size::new(3, 2), 1);
    let stamp = frame.source_stamp();
    frame.copy_row_from(&narrow, 0);
    assert_eq!(frame.source_stamp(), stamp, "rows of another width are not copied");
    let blank = Cell::blank(Style::new());
    assert!(matches!(frame.cell_or(9, 0, &blank).content(), CellContent::Blank));
    assert!(shows(frame.cell_or(1, 0, &blank), "a"));
}

#[test]
fn rectangles_behind_the_last_column_lie_within_nothing() {
    let outer = Rect::new(0, 0, 65535, 1);
    assert!(!outer.contains_rect(Rect::new(65535, 0, 5, 1)));
    assert!(outer.contains_rect(Rect::new(65530, 0, 5, 1)));
    assert!(!outer.contains_rect(Rect::new(65530, 0, 6, 1)));
    assert!(!Rect::new(0, 0, 1, 65535).contains_rect(Rect::new(0, 65535, 1, 5)));
}

#[test]
fn quantization_gives_the_nearest_palette_entry() {
    let entry = |index: u8| -> (i32, i32, i32) {
        let levels = [0, 95, 135, 175, 215, 255];
        if index < 232 {
            let cube = usize::from(index - 16);
            (levels[cube / 36], levels[cube % 36 / 6], levels[cube % 6])
        } else {
            let gray = 8 + 10 * i32::from(index - 232);
            (gray, gray, gray)
        }
    };
    let gap = |color: (u8, u8, u8), index: u8| -> i32 {
        let (r, g, b) = entry(index);
        let (dr, dg, db) =
            (i32::from(color.0) - r, i32::from(color.1) - g, i32::from(color.2) - b);
        dr * dr + dg * dg + db * db
    };
    for color in [(0, 0, 0), (12, 13, 14), (1, 2, 250), (128, 127, 129), (250, 251, 252)] {
        let Color::Indexed(index) = Color::Rgb(color.0, color.1, color.2).quantized_256() else {
            panic!("an indexed color");
        };
        let least = (16..=255).map(|other| gap(color, other)).min().unwrap();
        assert_eq!(gap(color, index), least);
    }
}

#[test]
fn frames_are_told_apart_by_their_numbers() {
    let size = Size::new(2, 1);
    assert_ne!(Frame::new(size, 1).source_stamp(), Frame::new(size, 2).source_stamp());
    assert_eq!(Frame::new(size, 3).copy().source_stamp(), (3, 0));
}
