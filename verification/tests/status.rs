use omp_tui::charset::Charset;
use omp_tui::color::Color;
use omp_tui::frame::Frame;
use omp_tui::gauge::{boundary_layout, ContextGauge, GaugeCell, GaugeRoom};
use omp_tui::geometry::{Rect, Size};
use omp_tui::markup::Align;
use omp_tui::screen::frame_row_text;
use omp_tui::status::{advisor_spend_label, spend_label, Segment, Status};
use omp_tui::style::Style;
use omp_tui::text::Text;

const YELLOW: Color = Color::Rgb(255, 255, 0);

fn text(line: &str) -> Text {
    Text::cells_of(line)
}

fn segment(label: &str) -> Segment {
    Segment::new().label(label, text(label))
}

fn paint(status: &Status, width: u16) -> Frame {
    paint_with_charset(status, width, Charset::Unicode)
}

fn paint_with_charset(status: &Status, width: u16, charset: Charset) -> Frame {
    let mut frame = Frame::new(Size::new(width, 1), 1);
    status.paint(&mut frame, charset, Rect::new(0, 0, width, 1), 1);
    frame
}

#[test]
fn status_paints_segments_and_styles() {
    let status = Status::new()
        .with(Align::Start, Style::new().bg(YELLOW))
        .segment(segment("alpha").with(Style::new().fg(Color::Rgb(255, 0, 0))))
        .segment(
            segment("beta").with(
                Style::new().fg(Color::Rgb(0, 128, 0)).bg(Color::Rgb(0, 0, 255)),
            ),
        )
        .segment(segment("gamma").with(Style::new().fg(Color::Rgb(0, 0, 255))));
    let frame = paint(&status, 40);
    assert_eq!(frame_row_text(&frame, 0), " alpha > beta > gamma ▶");
    assert_eq!(frame.cell(1, 0).style.foreground_color(), Color::Rgb(255, 0, 0));
    assert_eq!(frame.cell(9, 0).style.foreground_color(), Color::Rgb(0, 128, 0));
    assert_eq!(frame.cell(16, 0).style.foreground_color(), Color::Rgb(0, 0, 255));
    assert_eq!(frame.cell(1, 0).style.background_color(), Color::Rgb(255, 255, 0));
    assert_eq!(frame.cell(9, 0).style.background_color(), Color::Rgb(0, 0, 255));
    assert_eq!(
        frame.cell(22, 0).style.foreground_color(),
        Color::Rgb(255, 255, 0),
        "the cap uses the band's background as its foreground",
    );
    assert_eq!(
        frame.cell(22, 0).style.background_color(),
        Color::Default,
        "the cap transitions onto the surrounding background",
    );
    assert_eq!(
        frame.cell(23, 0).style.background_color(),
        Color::Default,
        "the band stops after the rendered group",
    );
}

#[test]
fn nerd_font_edges_use_band_background_as_foreground() {
    let status = Status::new()
        .with(Align::Start, Style::new().bg(YELLOW))
        .segment(segment("chip"));
    let frame = paint_with_charset(&status, 20, Charset::NerdFont);

    assert_eq!(frame_row_text(&frame, 0), "\u{e0b6} chip \u{e0b0}");
    for column in [0, 7] {
        assert_eq!(frame.cell(column, 0).style.foreground_color(), Color::Rgb(255, 255, 0));
        assert_eq!(frame.cell(column, 0).style.background_color(), Color::Default);
    }
    assert_eq!(frame.cell(8, 0).style.background_color(), Color::Default);
}

#[test]
fn align_end_mirrors_the_caps_for_a_right_docked_band() {
    let status = Status::new()
        .with(Align::End, Style::new().bg(YELLOW))
        .segment(segment("chip"));
    let frame = paint_with_charset(&status, 20, Charset::NerdFont);
    assert_eq!(frame_row_text(&frame, 0), "\u{e0b2} chip");
    assert_eq!(
        frame.cell(6, 0).style.background_color(),
        Color::Rgb(255, 255, 0),
        "the flat closing edge keeps the band background through its pad cell",
    );
    let frame = paint(
        &Status::new()
            .with(Align::End, Style::new())
            .segment(segment("alpha"))
            .segment(segment("beta")),
        20,
    );
    assert_eq!(frame_row_text(&frame, 0), "◀ alpha < beta");
}

#[test]
fn status_narrow_width_drops_whole_trailing_segments() {
    let status = Status::new()
        .segment(segment("alpha"))
        .segment(segment("beta"))
        .segment(segment("gamma"));
    let frame = paint(&status, 10);
    let painted = frame_row_text(&frame, 0);
    assert_eq!(painted, " alpha ▶");
    assert!(!painted.contains("beta"));
}

#[test]
fn status_truncates_its_last_chip_at_boundary_widths() {
    for (width, expected) in [(7, " alp… ▶"), (4, " … ▶"), (3, " …▶"), (2, "…▶")] {
        let status = Status::new().segment(segment("alphabet"));
        let frame = paint(&status, width);
        assert_eq!(frame_row_text(&frame, 0), expected);
    }
}

#[test]
fn status_markup_paints_segment_labels() {
    let status = Status::new()
        .segment(segment("alpha").with(Style::new().fg(Color::Rgb(0, 128, 0))))
        .segment(segment("beta"));
    let painted = frame_row_text(&paint(&status, 40), 0);
    assert!(painted.contains("alpha > beta"));
}

#[test]
fn status_macro_paints_segment_label() {
    let status =
        Status::new().segment(segment("alpha").with(Style::new().fg(Color::Rgb(0, 128, 0))));
    assert!(frame_row_text(&paint(&status, 40), 0).contains("alpha"));
}

#[test]
fn boundary_layout_docks_groups_and_reserves_the_gap() {
    let layout = boundary_layout(3, 30, 8, 6, 2).expect("groups fit");
    assert_eq!(layout.left_x, 3);
    assert_eq!(layout.boundary_x, 11);
    assert_eq!(layout.boundary_width, 16);
    assert_eq!(layout.right_x, 27);
    assert_eq!(boundary_layout(0, 12, 6, 5, 2), None);
}

#[test]
fn boundary_layout_runs_to_the_edge_when_the_right_group_is_empty() {
    let layout = boundary_layout(1, 38, 10, 0, 2).expect("left group and gauge fit");
    assert_eq!(layout.boundary_x, 11);
    assert_eq!(layout.boundary_width, 28);
    assert_eq!(layout.right_x, 39);
}

fn gauge_row(gauge: &ContextGauge) -> String {
    (0..gauge.width())
        .map(|index| match gauge.cell(index) {
            GaugeCell::Used => '=',
            GaugeCell::Unused => '-',
            GaugeCell::Threshold => 'T',
            GaugeCell::Speculation => 'S',
            GaugeCell::Percent(cell) | GaugeCell::Window(cell) => cell.chars().next().unwrap_or('?'),
        })
        .collect()
}

/// The cells that `tokens` of a window take on `scale` cells, as the host
/// rounds them.
fn used_cells(tokens: f64, window: f64, scale: u16) -> u16 {
    ((tokens / window).clamp(0.0, 1.0) * f64::from(scale)).round() as u16
}

fn plan(width: u16, tokens: f64, percent: &str, ticks: (Option<f64>, Option<f64>)) -> ContextGauge {
    let window = 200_000.0;
    let room = GaugeRoom::fit(width, tokens > window, percent, "200K", true);
    let scale = room.scale;
    let cell = |at: f64| (at / 100.0 * f64::from(scale)).round() as u16;
    let used = used_cells(tokens, window, scale);
    ContextGauge::plan(room, used, ticks.0.map(cell), ticks.1.map(cell))
}

#[test]
fn context_gauge_embeds_percent_and_window_labels() {
    let gauge = plan(30, 50_000.0, "25%", (None, None));
    assert!(!gauge.overflowed());
    assert_eq!(gauge_row(&gauge), "======25%----------------200K-");
}

#[test]
fn context_gauge_marks_compaction_boundaries_and_dodges_them() {
    let gauge = plan(30, 160_000.0, "80%", (Some(80.0), Some(70.0)));
    assert_eq!(gauge_row(&gauge), "==================S=T80%-200K-");
}

#[test]
fn context_gauge_overflow_breaks_the_percent_past_the_window_label() {
    let gauge = plan(30, 400_000.0, "200%", (None, None));
    assert!(gauge.overflowed());
    assert_eq!(gauge_row(&gauge), "=====================200K-200%");
}

#[test]
fn context_gauge_without_a_window_plans_a_solid_line() {
    let gauge = ContextGauge::solid(6);
    assert_eq!(gauge_row(&gauge), "======");
}

#[test]
fn context_gauge_keeps_one_accent_cell_for_a_fresh_session() {
    let gauge = plan(30, 0.0, "0%", (None, None));
    assert_eq!(gauge_row(&gauge), "=0%----------------------200K-");
}

#[test]
fn narrow_gauges_drop_labels_but_keep_the_fill() {
    let gauge = plan(7, 100_000.0, "50%", (Some(80.0), None));
    assert_eq!(gauge_row(&gauge), "====---", "width below 8 hides ticks and labels");
}

#[test]
fn billing_labels_degrade_by_charset() {
    assert_eq!(spend_label(250_000_000, "0.25", false, Charset::Ascii, "(sub)"), "$0.25");
    assert_eq!(spend_label(250_000_000, "0.25", true, Charset::Ascii, "(sub)"), "S0.25");
    assert_eq!(spend_label(0, "0.00", true, Charset::Unicode, "(sub)"), "(sub)");
    assert_eq!(
        spend_label(250_000_000, "0.25", true, Charset::NerdFont, "\u{f067a}"),
        "\u{f067a} 0.25",
    );
}

#[test]
fn advisor_billing_uses_semantic_glyphs() {
    assert_eq!(
        advisor_spend_label(250_000_000, "0.25", false, Charset::Ascii, "(sub)", "(adv)"),
        "$0.25 (adv)",
    );
    assert_eq!(
        advisor_spend_label(250_000_000, "0.25", true, Charset::Unicode, "(sub)", "👁"),
        "👁 S0.25",
    );
    assert_eq!(
        advisor_spend_label(250_000_000, "0.25", true, Charset::NerdFont, "\u{f067a}", "\u{ea70}"),
        "\u{ea70} \u{f067a} 0.25",
    );
    assert_eq!(advisor_spend_label(0, "0.00", false, Charset::Ascii, "(sub)", "(adv)"), "");
}

#[test]
fn segments_are_replaced_as_a_whole() {
    let mut status = Status::new().segment(segment("alpha")).segment(segment("beta"));
    status.set_segments(vec![segment("gamma")]);
    let row = frame_row_text(&paint(&status, 20), 0);
    assert!(row.contains("gamma") && !row.contains("alpha"), "{row:?}");
}

#[test]
fn groups_past_the_largest_coordinate_do_not_fit() {
    assert!(boundary_layout(0, 65535, 65535, 1, 0).is_none());
    assert!(boundary_layout(0, 65535, 65534, 1, 0).is_some());
    assert!(boundary_layout(0, 65535, 65534, 1, 1).is_none());
}

#[test]
fn appended_labels_are_measured_as_a_whole() {
    let joined = segment("al").label("pha", text("alpha"));
    let status = Status::new().segment(joined);
    assert_eq!(frame_row_text(&paint(&status, 40), 0), " alpha ▶");
}

#[test]
fn unknown_windows_and_empty_lines_plan_a_solid_line() {
    assert!(matches!(ContextGauge::window_or_solid(10, Some(5)), Ok(5)));
    for (width, window) in [(10, None), (10, Some(0)), (0, Some(5))] {
        let Err(line) = ContextGauge::window_or_solid(width, window) else {
            panic!("a solid line");
        };
        assert!(line.solid && !line.overflowed());
        assert_eq!(line.width(), width);
    }
}
