use omp_tui::charset::Charset;
use omp_tui::frame::Frame;
use omp_tui::geometry::{Rect, Size};
use omp_tui::screen::frame_row_text;
use omp_tui::spinner::Spinner;
use omp_tui::text::Text;
use omp_tui::time::{relative_age, Time, YEAR_MS};

fn spin(spinner: &Spinner, charset: Charset, now: u64) -> (String, Option<u64>) {
    let mut frame = Frame::new(Size::new(24, 1), 1);
    let wake = spinner.paint(&mut frame, charset, Rect::new(0, 0, 24, 1), 1, now);
    (frame_row_text(&frame, 0), wake)
}

#[test]
fn ticking_advances_the_glyph_and_reschedules() {
    let busy = Spinner::new().label(Text::cells_of("busy"));
    assert_eq!(spin(&busy, Charset::Unicode, 0), ("⠋ busy".to_string(), Some(80)));
    assert_eq!(spin(&busy, Charset::Unicode, 79).0, "⠋ busy", "no deadline is due yet");
    assert_eq!(spin(&busy, Charset::Unicode, 80), ("⠙ busy".to_string(), Some(160)));
    assert_eq!(busy.measure(), (1, 6));
}

#[test]
fn animation_backpressure_uses_full_frame_cost_and_caps_pathological_stalls() {
    assert_eq!(Spinner::animation_backpressure(40), 360);
    assert_eq!(Spinner::animation_backpressure(5_000), 1_800);
}

#[test]
fn ascii_charset_uses_spoke_frames() {
    let spinner = Spinner::new();
    assert_eq!(spin(&spinner, Charset::Ascii, 0).0, "|");
    assert_eq!(spin(&spinner, Charset::Ascii, 120).0, "/");
}

#[test]
fn status_spinner_frames_advance_every_80ms_phase_locked_across_two_spinners() {
    let frames = Charset::NerdFont.status_spinner();
    let early = Spinner::new().with_str("status");
    assert_eq!(spin(&early, Charset::NerdFont, 0), ("\u{f1456}".to_string(), Some(80)));
    let late = Spinner::new().with_str("status");
    assert_eq!(spin(&early, Charset::NerdFont, 130), ("\u{f144b}".to_string(), Some(160)));
    assert_eq!(spin(&late, Charset::NerdFont, 130), spin(&early, Charset::NerdFont, 130));
    assert_eq!(spin(&early, Charset::NerdFont, 160).0, "\u{f144c}");
    assert_eq!(spin(&late, Charset::NerdFont, 160).0, "\u{f144c}");
    // Twelve nerd glyphs wrap after 960 ms; the glyph is floor(now/80) mod 12.
    assert_eq!(spin(&early, Charset::NerdFont, 960).0, frames.at(0));
}

#[test]
fn status_spinner_degrades_by_charset() {
    for (charset, expected) in [(Charset::Unicode, "⣽"), (Charset::Ascii, "/")] {
        let spinner = Spinner::new().with_str("status");
        assert_eq!(spin(&spinner, charset, 80).0, expected);
    }
}

#[test]
fn set_text_replaces_the_label() {
    let mut spinner = Spinner::new().label(Text::cells_of("indexing"));
    assert!(spinner.set_text(Text::cells_of("linking")));
    assert_eq!(spin(&spinner, Charset::Unicode, 0).0, "⠋ linking");
    assert!(!spinner.set_text(Text::cells_of("linking")), "unchanged text reports no update");
}

fn duration(ms: u64) -> Time {
    Time::new().with("duration", ms)
}

fn relative(ms: u64) -> Time {
    Time::new().with("relative", ms)
}

fn elapsed(since_ms: u64) -> Time {
    Time::new().with("elapsed", since_ms)
}

fn paint_at(time: &mut Time, now: u64) -> (String, Option<u64>) {
    let mut frame = Frame::new(Size::new(32, 1), 1);
    let wake = time.paint(&mut frame, Rect::new(0, 0, 32, 1), 1, now);
    (frame_row_text(&frame, 0), wake)
}

#[test]
fn duration_matches_compact_tui_boundaries() {
    for (ms, expected) in [
        (0, "0ms"),
        (999, "999ms"),
        (1_000, "1.0s"),
        (59_999, "59.9s"),
        (60_000, "1m00s"),
        (3_599_999, "59m59s"),
        (3_600_000, "1h00m"),
    ] {
        assert_eq!(paint_at(&mut duration(ms), 8_000).0, expected);
    }
}

#[test]
fn relative_boundaries_and_wakes_follow_visible_units() {
    let cases = [
        (0, "now", 1_000),
        (999, "now", 1),
        (1_000, "1s ago", 1_000),
        (59_999, "59s ago", 1),
        (60_000, "1m ago", 60_000),
        (3_599_999, "59m ago", 1),
        (3_600_000, "1h ago", 3_600_000),
        (86_399_999, "23h ago", 1),
        (86_400_000, "1d ago", 86_400_000),
        (2_591_999_999, "4w ago", 1),
        (2_592_000_000, "1mo ago", 2_592_000_000),
        (5_183_999_999, "1mo ago", 1),
        (31_536_000_000, "1y ago", 31_536_000_000),
        (63_071_999_999, "1y ago", 1),
    ];
    for (age, expected, delta) in cases {
        let mut time = relative(age);
        let (text, wake) = paint_at(&mut time, 500);
        assert_eq!(text, expected);
        assert_eq!(wake, Some(500 + delta));
    }
}

#[test]
fn elapsed_badge_counts_whole_seconds_and_wakes_on_the_boundary() {
    // Started at 2.4 s on the shared clock; painted 350 ms later.
    let mut time = elapsed(2_400);
    assert_eq!(paint_at(&mut time, 2_750), ("0s".to_string(), Some(3_400)));
    // Exactly on the boundary the count flips and the next wake is one
    // full second later — no drift, no sub-second repaints.
    assert_eq!(paint_at(&mut time, 3_400), ("1s".to_string(), Some(4_400)));
    assert_eq!(paint_at(&mut time, 61_399), ("58s".to_string(), Some(61_400)));
    let pointer = time.text.as_ptr();
    assert_eq!(paint_at(&mut time, 61_399).0, "58s");
    assert_eq!(time.text.as_ptr(), pointer, "an unchanged second re-slices the cached text");
    // A clock behind the start instant reads as zero, never negative.
    let mut future = elapsed(9_000);
    assert_eq!(paint_at(&mut future, 1_000).0, "0s");
    assert_eq!(paint_at(&mut future, 1_000).1, Some(10_000));
}

#[test]
fn relative_age_advances_from_first_paint_and_saturates() {
    let mut time = relative(999);
    assert_eq!(paint_at(&mut time, 500).0, "now");
    assert_eq!(paint_at(&mut time, 501), ("1s ago".to_string(), Some(1_501)));

    for age in [u64::MAX - 1, u64::MAX] {
        let mut saturated = relative(age);
        let (text, wake) = paint_at(&mut saturated, 10);
        assert_eq!(text, format!("{}y ago", age / YEAR_MS));
        assert!(wake.is_none());
        assert_eq!(paint_at(&mut saturated, u64::MAX).0, text);
    }
}

#[test]
fn relative_age_matches_painted_labels() {
    assert_eq!(relative_age(0), "now");
    assert_eq!(relative_age(59_000), "59s ago");
    assert_eq!(relative_age(2_592_000_000), "1mo ago");
    assert_eq!(relative_age(94_608_000_000), "3y ago");
}

#[test]
fn dimensions_and_cached_text_are_stable_between_boundaries() {
    let mut time = relative(1_234);
    assert_eq!(time.measure(10), (6, 6));
    let pointer = time.text.as_ptr();
    assert_eq!(paint_at(&mut time, 500).0, "1s ago");
    assert_eq!(paint_at(&mut time, 700).0, "1s ago");
    assert_eq!(time.text.as_ptr(), pointer);
}

#[test]
fn shown_text_changes_exactly_when_it_is_due() {
    let show = |time: &mut Time, now: u64| -> (String, Option<u64>) {
        let mut frame = Frame::new(Size::new(24, 1), 1);
        let wake = time.paint(&mut frame, Rect::new(0, 0, 24, 1), 1, now);
        (frame_row_text(&frame, 0), wake)
    };
    for ms in [0, 999, 59_999, 3_599_999, 28 * 86_400_000, YEAR_MS - 1] {
        let mut time = Time::new().with("relative", ms);
        let (shown, wake) = show(&mut time, 5_000);
        let due = wake.expect("an age goes on");
        assert_eq!(show(&mut time, due - 1).0, shown);
        assert_ne!(show(&mut time, due).0, shown);
    }
    let mut time = Time::new().with("elapsed", 7_250);
    let (shown, wake) = show(&mut time, 1_000);
    assert_eq!((shown.as_str(), wake), ("0s", Some(8_250)));
    assert_eq!(show(&mut time, 8_249).0, "0s");
    assert_eq!(show(&mut time, 8_250).0, "1s");
}
