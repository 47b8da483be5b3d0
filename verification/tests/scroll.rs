use omp_tui::context::{JamoWidth, UiContext, WidthPolicy};
use omp_tui::events::{Flow, Hit, HitTag, Slot};
use omp_tui::frame::Frame;
use omp_tui::geometry::{Rect, Size};
use omp_tui::input::{Key, Mouse};
use omp_tui::screen::frame_row_text;
use omp_tui::scroll::{translate_hits, Scroll};
use omp_tui::style::Style;
use omp_tui::text::Text;

fn context() -> UiContext {
    UiContext::new(&WidthPolicy { jamo: JamoWidth::Platform, narrow_platform: false })
}

fn content(lines: &[&str], width: u16) -> Frame {
    let mut frame = Frame::new(Size::new(width, lines.len() as u16), 1);
    for (row, line) in lines.iter().enumerate() {
        frame.put(0, row as u16, &Text::cells_of(line), Style::new());
    }
    frame
}

fn placed(rows: u16, area: Rect) -> Scroll {
    let mut scroll = Scroll::new(Slot(1));
    scroll.place(&vec![rows], area);
    scroll
}

fn paint(scroll: &Scroll, scratch: &Frame, rect: Rect) -> (Frame, Vec<Hit>) {
    let mut frame = Frame::new(Size::new(rect.width, rect.height), 1);
    let mut hits = Vec::new();
    scroll.paint(&mut frame, &mut hits, scratch, &Vec::new(), &context(), rect, rect.height);
    (frame, hits)
}

#[test]
fn scroll_clamps_and_blits_from_scratch() {
    let area = Rect::new(0, 0, 8, 2);
    let mut scroll = placed(3, area);
    assert!(matches!(scroll.key(Key::Up, 2), Flow::Skip));
    assert!(matches!(scroll.key(Key::Down, 2), Flow::Consumed));
    assert_eq!(scroll.off, 1);
    assert!(matches!(scroll.key(Key::Down, 2), Flow::Skip));
    assert!(matches!(scroll.mouse(Mouse::WheelDown, HitTag::Wheel, 0, area, 2), Flow::Skip));
    assert_eq!(scroll.off, 1);
    assert!(matches!(scroll.mouse(Mouse::WheelLeft, HitTag::Wheel, 0, area, 2), Flow::Consumed));
    assert!(matches!(scroll.mouse(Mouse::WheelRight, HitTag::Wheel, 0, area, 2), Flow::Consumed));
    assert_eq!(scroll.off, 1);

    let (frame, _) = paint(&scroll, &content(&["one", "two", "three"], 7), area);
    assert!(frame_row_text(&frame, 0).starts_with("two"));
    assert!(frame_row_text(&frame, 1).starts_with("three"));
}

#[test]
fn focus_chase_moves_only_as_far_as_needed() {
    let mut scroll = placed(4, Rect::new(0, 0, 8, 2));
    assert!(scroll.chase(Rect::new(0, 3, 4, 1), 2));
    assert_eq!(scroll.off, 2);
    assert!(!scroll.chase(Rect::new(0, 2, 4, 1), 2));
    assert!(scroll.chase(Rect::new(0, 0, 4, 1), 2));
    assert_eq!(scroll.off, 0);
}

#[test]
fn child_hits_translate_and_clip_to_the_viewport() {
    let child_hits = vec![
        Hit { rect: Rect::new(0, 0, 3, 1), slot: Slot(7), tag: HitTag::Press },
        Hit { rect: Rect::new(1, 2, 4, 2), slot: Slot(8), tag: HitTag::Row(0) },
    ];
    let mut hits = Vec::new();
    translate_hits(&mut hits, &child_hits, Rect::new(10, 5, 6, 2), 1, 2);
    assert_eq!(hits.len(), 1);
    assert_eq!(hits[0].slot, Slot(8));
    assert_eq!(hits[0].rect, Rect::new(11, 6, 4, 1));
}

#[test]
fn scrollbar_clicks_jump_and_drags_track_the_pointer() {
    let mut scroll = placed(12, Rect::new(0, 0, 10, 4));
    let bar = Rect::new(9, 0, 1, 4);

    // content 12, track 4 → thumb 1, span 3, range 8.
    let flow = scroll.mouse(Mouse::Click, HitTag::Scrollbar, 3, bar, 4);
    assert!(matches!(flow, Flow::Consumed));
    assert_eq!(scroll.off, 8, "bottom of the track is the maximum offset");

    // A drag row maps proportionally, even when the pointer leaves the
    // bar column or the rectangle vertically.
    scroll.mouse(Mouse::Drag, HitTag::Scrollbar, 1, bar, 4);
    assert_eq!(scroll.off, 3);
    scroll.mouse(Mouse::Drag, HitTag::Scrollbar, 60, bar, 4);
    assert_eq!(scroll.off, 8);
    scroll.mouse(Mouse::Drag, HitTag::Scrollbar, 0, bar, 4);
    assert_eq!(scroll.off, 0);

    // Releases and stray clicks on the bar are swallowed, not forwarded.
    assert!(matches!(scroll.mouse(Mouse::Release, HitTag::Scrollbar, 0, bar, 4), Flow::Consumed));
}

#[test]
fn scrollbar_hit_zone_routes_through_ui_mouse_handling() {
    let lines = ["l1", "l2", "l3", "l4", "l5", "l6", "l7", "l8", "l9", "l10", "l11", "l12"];
    let area = Rect::new(0, 0, 10, 4);
    let scratch = content(&lines, 9);
    let mut scroll = placed(12, area);
    let (frame, hits) = paint(&scroll, &scratch, area);
    assert!(frame_row_text(&frame, 0).starts_with("l1"));
    let bar = hits.iter().rev().find(|hit| hit.tag == HitTag::Scrollbar).expect("a bar");
    assert_eq!(bar.rect, Rect::new(9, 0, 1, 4), "the bar takes the last column");

    // Click the bottom of the bar column: jump to the end.
    scroll.mouse(Mouse::Click, bar.tag, 3, bar.rect, 4);
    assert!(frame_row_text(&paint(&scroll, &scratch, area).0, 0).starts_with("l9"));

    // Drag capture keeps routing to the bar even off-column.
    scroll.mouse(Mouse::Drag, bar.tag, 1, bar.rect, 4);
    assert!(frame_row_text(&paint(&scroll, &scratch, area).0, 0).starts_with("l4"));
    scroll.mouse(Mouse::Drag, bar.tag, 0, bar.rect, 4);
    assert!(frame_row_text(&paint(&scroll, &scratch, area).0, 0).starts_with("l1"));
    scroll.mouse(Mouse::Release, bar.tag, 0, bar.rect, 4);
}

#[test]
fn pointers_are_moved_into_the_content() {
    let mut scroll = Scroll::new(Slot(1));
    scroll.off = 5;
    let rect = Rect::new(2, 1, 10, 4);
    assert_eq!(scroll.nested_pointer(Some((4, 3)), rect, 10), Some((2, 7)));
    assert_eq!(scroll.nested_pointer(Some((11, 3)), rect, 10), None, "the bar is no content");
    assert_eq!(scroll.nested_pointer(Some((4, 3)), rect, 3), None, "clipped rows are not there");
    assert_eq!(scroll.nested_pointer(None, rect, 10), None);
}

#[test]
fn any_delta_scrolls_to_the_nearest_end() {
    let mut scroll = placed(4, Rect::new(0, 0, 8, 2));
    assert!(scroll.scroll_by(i32::MAX, 2));
    assert_eq!(scroll.off, 2);
    assert!(!scroll.scroll_by(i32::MAX, 2));
    assert!(scroll.scroll_by(i32::MIN, 2));
    assert_eq!(scroll.off, 0);
}

#[test]
fn a_region_asks_for_eight_rows() {
    assert_eq!(placed(4, Rect::new(0, 0, 8, 2)).height(), 8);
}
