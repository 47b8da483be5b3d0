use omp_tui::charset::{Charset, IconEntry};
use omp_tui::color::Color;
use omp_tui::frame::Frame;
use omp_tui::geometry::{Rect, Size};
use omp_tui::screen::frame_row_text;
use omp_tui::state::State;
use omp_tui::style::Style;
use omp_tui::text::Text;
use omp_tui::theme::{Appearance, Theme};

const STATUSES: [(&str, &str); 8] = [
    ("running", "running"),
    ("active", "enabled"),
    ("idle", "idle"),
    ("parked", "parked"),
    ("completed", "completed"),
    ("failed", "failed"),
    ("stopped", "stopped"),
    ("unknown", "ask"),
];

fn entry(name: &str, unicode: &str, nerd: &str, ascii: &str) -> IconEntry {
    IconEntry {
        names: vec![name.to_string()],
        unicode: unicode.to_string(),
        nerd: nerd.to_string(),
        ascii: ascii.to_string(),
    }
}

fn catalog() -> Vec<IconEntry> {
    vec![
        entry("running", "▸", "\u{f04b}", ">"),
        entry("enabled", "●", "\u{f111}", "*"),
        entry("idle", "○", "\u{f10c}", "o"),
        entry("parked", "‖", "\u{f04c}", "="),
        entry("completed", "✓", "\u{f00c}", "+"),
        entry("failed", "✗", "\u{f00d}", "x"),
        entry("stopped", "■", "\u{f04d}", "#"),
        entry("ask", "?", "\u{f128}", "?"),
    ]
}

fn theme() -> Theme {
    Theme::for_appearance(Appearance::Dark)
}

fn paint(state: &State, charset: Charset, width: u16) -> (Frame, Option<u64>) {
    let icons = catalog();
    let icon = Text::cells_of(charset.icon_named(&icons, state.icon()).unwrap());
    let mut frame = Frame::new(Size::new(8, 1), 1);
    let wake = state.paint(
        &mut frame,
        charset,
        &theme(),
        &icon,
        Rect::new(0, 0, width, 1),
        1,
        0,
    );
    (frame, wake)
}

#[test]
fn every_status_degrades_through_each_charset() {
    let icons = catalog();
    for charset in [Charset::Ascii, Charset::Unicode, Charset::NerdFont] {
        for (status, icon) in STATUSES {
            let expected = if status == "running" {
                charset.spinner().at(0).to_string()
            } else {
                charset.icon_named(&icons, icon).expect("state icon belongs to the catalog").to_string()
            };
            let (frame, _) = paint(&State::status(status), charset, 8);
            assert_eq!(frame_row_text(&frame, 0), expected, "{charset:?} {status}");
        }
    }
}

#[test]
fn statuses_use_deliberate_semantic_colors() {
    let theme = theme();
    let expected = [
        ("running", theme.info),
        ("active", theme.accent),
        ("idle", theme.muted),
        ("parked", theme.warn),
        ("completed", theme.ok),
        ("failed", theme.err),
        ("stopped", theme.muted),
        ("unknown", theme.muted),
    ];
    for (status, color) in expected {
        let (frame, _) = paint(&State::status(status), Charset::Unicode, 8);
        assert_eq!(frame.cell(0, 0).style().foreground_color(), color, "{status}");
    }
}

#[test]
fn normalization_and_unrecognized_values_are_safe() {
    let icons = catalog();
    let (normalized, _) = paint(&State::status("  CoMpLeTeD  "), Charset::Unicode, 8);
    let (unknown, _) = paint(&State::status("future-state"), Charset::Unicode, 8);
    assert_eq!(
        frame_row_text(&normalized, 0),
        Charset::Unicode.icon_named(&icons, "completed").unwrap()
    );
    assert_eq!(
        frame_row_text(&unknown, 0),
        Charset::Unicode.icon_named(&icons, "ask").unwrap()
    );
    assert_eq!(unknown.cell(0, 0).style().foreground_color(), theme().muted);
}

#[test]
fn running_wakes_only_when_visible_and_static_states_never_wake() {
    let (_, visible) = paint(&State::status("running"), Charset::Unicode, 1);
    assert_eq!(visible, Some(80));

    let (_, hidden) = paint(&State::status("running"), Charset::Unicode, 0);
    assert_eq!(hidden, None);

    let (_, parked) = paint(&State::status("parked"), Charset::Unicode, 8);
    assert_eq!(parked, None);
}

#[test]
fn missing_statuses_are_unknown_and_own_colors_win() {
    assert_eq!(State::new().icon(), "ask");
    let red = Color::Rgb(255, 0, 0);
    let (frame, _) = paint(&State::status("failed").with(Style::new().fg(red)), Charset::Unicode, 8);
    assert_eq!(frame.cell(0, 0).style().foreground_color(), red);
    assert_eq!(State::status("idle").measure(Charset::Ascii, &Text::cells_of("ooo")), (3, 3));
}
