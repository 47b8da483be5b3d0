use omp_tui::frame::Frame;
use omp_tui::geometry::{Rect, Size};
use omp_tui::screen::frame_row_text;
use omp_tui::strike::Strike;
use omp_tui::style::Style;
use omp_tui::text::Text;

const MS: u64 = 1_000_000;

fn struck_row(frame: &Frame) -> Vec<bool> {
    let shown = frame_row_text(frame, 0).chars().count() as u16;
    (0..shown).map(|x| frame.cell(x, 0).style().spec().strikethrough).collect()
}

fn paint_at(strike: &mut Strike, now_ms: u64) -> (Frame, Option<u64>) {
    let mut frame = Frame::new(Size::new(20, 1), 1);
    let wake = strike.paint(&mut frame, Rect::new(0, 0, 20, 1), 1, now_ms * MS);
    (frame, wake.map(|at| at / MS))
}

fn strike(text: &str, reveal_ms: Option<u64>) -> Strike {
    Strike::new(Style::new(), reveal_ms.map(|ms| ms * MS)).text(text, Text::cells_of(text))
}

#[test]
fn plain_strike_matches_a_struck_text_leaf() {
    let mut plain = strike("Wire workspace", None);
    let (frame, wake) = paint_at(&mut plain, 0);
    assert_eq!(frame_row_text(&frame, 0), "Wire workspace");
    assert!(struck_row(&frame).iter().all(|struck| *struck));
    assert_eq!(wake, None, "a plain strike never animates");
}

#[test]
fn todo_strike_reveals_progressively_then_settles() {
    // Fourteen 65ms frames: two held plain, twelve sweeping.
    let mut todo = strike("Scaffold crate", Some(910));
    let (frame, wake) = paint_at(&mut todo, 0);
    assert_eq!(frame_row_text(&frame, 0), "Scaffold crate");
    assert!(struck_row(&frame).iter().all(|struck| !struck), "frame 0 holds plain");
    assert_eq!(wake, Some(65));

    let (frame, wake) = paint_at(&mut todo, 130);
    assert!(struck_row(&frame).iter().all(|struck| !struck), "frame 2 still holds");
    assert_eq!(wake, Some(195));

    // Frame 3: ceil(14 × 1 / 12) = 2 graphemes struck.
    let (frame, wake) = paint_at(&mut todo, 195);
    let cells = struck_row(&frame);
    assert_eq!(cells.iter().filter(|struck| **struck).count(), 2);
    assert!(cells[..2].iter().all(|struck| *struck), "the strike grows from the start");
    assert_eq!(wake, Some(260));

    // Frame 8: ceil(14 × 6 / 12) = 7.
    let (frame, _) = paint_at(&mut todo, 520);
    assert_eq!(struck_row(&frame).iter().filter(|struck| **struck).count(), 7);

    // Frame 14: fully struck, and the sweep stops asking for frames.
    let (frame, wake) = paint_at(&mut todo, 910);
    assert!(struck_row(&frame).iter().all(|struck| *struck));
    assert_eq!(wake, None, "a settled sweep stops waking");
    let (frame, _) = paint_at(&mut todo, 5_000);
    assert!(struck_row(&frame).iter().all(|struck| *struck), "it stays struck");
}

#[test]
fn sweep_anchors_at_first_paint_not_at_construction() {
    let mut late = strike("abc", Some(910));
    let (frame, wake) = paint_at(&mut late, 3_000);
    assert!(struck_row(&frame).iter().all(|struck| !struck));
    assert_eq!(wake, Some(3_065));
    // 500 ms in: frame 7, step 5, ceil(3 × 5 / 12) = 2 graphemes struck.
    let (frame, wake) = paint_at(&mut late, 3_500);
    assert_eq!(struck_row(&frame), vec![true, true, false]);
    assert_eq!(wake, Some(3_520));
    let (frame, wake) = paint_at(&mut late, 3_910);
    assert!(struck_row(&frame).iter().all(|struck| *struck));
    assert!(wake.is_none());
}

#[test]
fn struck_counts_follow_pi_ceil_law() {
    assert_eq!(Strike::struck_at(14, 0), 0);
    assert_eq!(Strike::struck_at(14, 2), 0);
    assert_eq!(Strike::struck_at(14, 3), 2);
    assert_eq!(Strike::struck_at(14, 14), 14);
    assert_eq!(Strike::struck_at(14, 40), 14);
    assert_eq!(Strike::struck_at(0, 9), 0);
}

#[test]
fn struck_text_is_replaced_only_by_other_text() {
    let mut shown = strike("abc", None);
    assert!(!shown.set_text(Text::cells_of("abc")));
    assert!(shown.set_text(Text::cells_of("abcd")));
    assert_eq!(shown.measure(), 4);
}

#[test]
fn appended_text_is_measured_as_a_whole() {
    let one = strike("ab", None);
    let mut both = one.text("cd", Text::cells_of("abcd"));
    let (frame, _) = paint_at(&mut both, 0);
    assert_eq!(frame_row_text(&frame, 0), "abcd");
    assert_eq!(struck_row(&frame), vec![true; 4]);
}
