use omp_tui::charset::Charset;
use omp_tui::color::Color;
use omp_tui::context::{JamoWidth, UiContext, WidthPolicy};
use omp_tui::events::{Flow, Hit, HitTag, Slot, UiEvent};
use omp_tui::frame::Frame;
use omp_tui::geometry::{Rect, Size};
use omp_tui::input::{Key, Mouse};
use omp_tui::screen::frame_row_text;
use omp_tui::segmented::{SegmentColors, Segmented};
use omp_tui::style::Style;
use omp_tui::tabs::{Tabs, TabsPaint};
use omp_tui::text::Text;
use omp_tui::tool_card::{ToolCard, ToolState};
use omp_tui::wizard::{brighten, check_field, display_value, Checked, FieldValue, Wizard};

fn context() -> UiContext {
    UiContext::new(&WidthPolicy { jamo: JamoWidth::Platform, narrow_platform: false })
}

fn text(line: &str) -> Text {
    Text::cells_of(line)
}

fn string_of(text: &Text) -> String {
    text.clusters.iter().map(|cluster| cluster.text.clone()).collect()
}

#[test]
fn segmented_and_checkbox_export_keyboard_and_mouse_transitions() {
    let mut view = Segmented::new(Slot(1))
        .with(Some("tree".to_string()))
        .option(Some("path".to_string()), text("/"), "view-path".to_string(), text("Path"))
        .option(Some("tree".to_string()), text("+"), "view-tree".to_string(), text("Tree"));
    assert_eq!(view.chosen_value().as_deref(), Some("tree"));
    assert!(matches!(view.key(Key::Left), Flow::Consumed));
    assert_eq!(view.chosen_value().as_deref(), Some("path"));

    let plain = (Color::Default, Color::Default);
    let colors = SegmentColors { rest: plain, hover: plain, chosen: plain, chosen_hover: plain };
    let mut frame = Frame::new(Size::new(60, 1), 1);
    let mut hits: Vec<Hit> = Vec::new();
    view.paint(&mut frame, &mut hits, &colors, true, None, Rect::new(0, 0, 60, 1), 1);
    assert_eq!(frame_row_text(&frame, 0), " / Path  + Tree");
    assert!(frame.cell(1, 0).style().spec().bold, "the choice stands out");
    let tree = hits.iter().find(|hit| hit.tag == HitTag::Chip(1)).unwrap();
    assert_eq!(tree.rect, Rect::new(8, 0, 8, 1));
    view.mouse(Mouse::Click, tree.tag);
    assert_eq!(view.chosen_value().as_deref(), Some("tree"));
    assert_eq!(view.measure(), 16);
    assert!(matches!(view.mouse(Mouse::Click, HitTag::Chip(7)), Flow::Skip));
}

#[test]
fn segments_without_a_value_go_by_their_label_or_icon() {
    let view = Segmented::new(Slot(1))
        .option(None, text("*"), "star".to_string(), Text::empty())
        .option(None, text("*"), "star".to_string(), text("Star"));
    assert_eq!(view.options[0].value, "star");
    assert_eq!(view.options[1].value, "Star");
    assert_eq!(view.measure(), 3 + 8);
    assert!(matches!(Segmented::new(Slot(2)).key(Key::Right), Flow::Skip));
}

fn paint_tabs(tabs: &Tabs, ctx: &UiContext, width: u16, height: u16) -> (Frame, Vec<Hit>) {
    let mut frame = Frame::new(Size::new(width, height), 1);
    let mut hits = Vec::new();
    let rect = Rect::new(0, 0, width, height);
    let paint = TabsPaint { ctx, rect, clip: height, focused: true, hovered: None };
    tabs.paint(&mut frame, &mut hits, &paint);
    (frame, hits)
}

#[test]
fn switching_panes_changes_paint_value_and_ring() {
    let ctx = context();
    let panes = ["one", "two"];
    let mut tabs = Tabs::new(Slot(1)).pane(text("First")).pane(text("Second"));
    assert_eq!(tabs.active(), Some(0));
    let area = Rect::new(0, 0, 24, 3);
    let shown = |tabs: &Tabs| -> Frame {
        let (mut frame, _) = paint_tabs(tabs, &ctx, 24, 3);
        let pane = tabs.place(area, 1);
        frame.put(pane.x, pane.y, &text(panes[tabs.active().unwrap()]), Style::new());
        frame
    };
    assert_eq!(frame_row_text(&shown(&tabs), 2), "one");
    assert!(matches!(tabs.key(Key::Right), Flow::Consumed));
    assert_eq!(frame_row_text(&shown(&tabs), 2), "two");
    assert_eq!(tabs.active(), Some(1));
    assert_eq!(tabs.value().map(string_of).as_deref(), Some("Second"));
}

#[test]
fn muted_panes_retain_position_and_paint_with_the_dim_token() {
    let ctx = context();
    let tabs = Tabs::new(Slot(1))
        .pane_icon(text("F"), text("Files"))
        .pane_icon_muted(text("#"), text("Tools"), true);
    let titles: Vec<String> = tabs.titles.iter().map(string_of).collect();
    assert_eq!(titles, ["Files", "Tools"]);
    assert_eq!(tabs.muted, [false, true]);

    let (frame, _) = paint_tabs(&tabs, &ctx, 40, 2);
    let row = frame_row_text(&frame, 0);
    let tools = row.chars().position(|c| c == 'T').expect("muted Tools label") as u16;
    assert_eq!(frame.cell(tools, 0).style().foreground_color(), ctx.theme.dim);
}

#[test]
fn chips_switch_panes_and_wrap_around() {
    let ctx = context();
    let mut tabs = Tabs::new(Slot(9)).pane(text("A")).child().pane(text("C"));
    let (_, hits) = paint_tabs(&tabs, &ctx, 40, 2);
    let chips: Vec<&Hit> = hits.iter().filter(|hit| matches!(hit.tag, HitTag::Chip(_))).collect();
    assert_eq!(chips.len(), 3);
    assert!(matches!(tabs.mouse(Mouse::Click, HitTag::Chip(2)), Flow::Consumed));
    assert_eq!(tabs.active(), Some(2));
    tabs.key(Key::Right);
    assert_eq!(tabs.active(), Some(0), "the last pane leads to the first");
    tabs.key(Key::Left);
    assert_eq!(tabs.active(), Some(2));
    assert_eq!(tabs.select(1).active(), Some(1));
}

#[test]
fn selecting_past_the_last_pane_selects_the_last() {
    let ctx = context();
    let mut tabs = Tabs::new(Slot(1)).pane(text("A")).pane(text("B")).select(9);
    assert_eq!(tabs.active(), Some(1));
    assert_eq!(tabs.value().map(string_of).as_deref(), Some("B"));
    let (frame, _) = paint_tabs(&tabs, &ctx, 24, 2);
    let row = frame_row_text(&frame, 0);
    let last = row.chars().position(|c| c == 'B').expect("the last chip") as u16;
    assert_eq!(frame.cell(last, 0).style().foreground_color(), ctx.theme.contrast);
    tabs.key(Key::Left);
    assert_eq!(tabs.value().map(string_of).as_deref(), Some("A"));

    let early = Tabs::new(Slot(1)).select(9);
    assert!(early.value().is_none());
    assert_eq!(early.pane(text("A")).value().map(string_of).as_deref(), Some("A"));
}

#[test]
fn attributes_may_be_given_as_text() {
    assert!(Wizard::new(Slot(1)).with_str("submit", "").submit);
    assert!(!Wizard::new(Slot(1)).with_str("submit", "false").submit);
    assert!(!Wizard::new(Slot(1)).with_str("title", "x").submit);
    let wizard = Wizard::new(Slot(1)).step(text("Name")).step(text("Confirm"));
    assert_eq!(wizard.step_label(0), " 1 Name ");
    assert_eq!(wizard.step_label(1), "2 Confirm");
    let control = Segmented::new(Slot(2))
        .option(Some("a".to_string()), text(""), String::new(), text("A"))
        .option(Some("b".to_string()), text(""), String::new(), text("B"))
        .with_str("b");
    assert_eq!(control.idx, 1);
}

/// A card painted with its body, `height` rows granted where that is set.
fn paint_card(card: &mut ToolCard, body: &[&str], width: u16, height: Option<u16>, now: u64) -> Frame {
    let ctx = context();
    let natural = card.height(body.len() as u16);
    let rect = Rect::new(0, 0, width, height.unwrap_or(natural));
    let mut frame = Frame::new(Size::new(width, rect.height), 1);
    card.paint(&mut frame, &ctx, rect, rect.height, now, &text("✗"));
    if let Some(area) = card.body_rect(rect) {
        for (row, line) in body.iter().enumerate() {
            if (row as u16) < area.height {
                frame.put_clipped(area.x, area.y + row as u16, area.width, &text(line), Style::new());
            }
        }
    }
    frame
}

#[test]
fn formats_streaming_state_and_badge() {
    let mut card = ToolCard::new()
        .name(text("read"))
        .intent(text("src/lib.rs"))
        .badge(text("12ms"))
        .state(ToolState::Streaming);
    let frame = paint_card(&mut card, &[], 40, None, 0);
    assert!(frame_row_text(&frame, 0).contains("read src/lib.rs"));
    assert!(frame_row_text(&frame, 0).contains("12ms"));
}

#[test]
fn formats_success_and_failure_states() {
    let mut success =
        ToolCard::new().name(text("grep")).intent(text("foo")).state(ToolState::Success);
    assert!(frame_row_text(&paint_card(&mut success, &[], 20, None, 0), 0).contains("grep foo"));

    let mut fail =
        ToolCard::new().name(text("fail")).intent(text("bar")).state(ToolState::Failure);
    assert!(frame_row_text(&paint_card(&mut fail, &[], 20, None, 0), 0).contains("fail bar"));
}

#[test]
fn truncates_intent_narrow_width_without_panic() {
    let mut card = ToolCard::new()
        .name(text("long"))
        .intent(text("this is a very long intent with 🚀 emoji"))
        .badge(text("ok"));
    let row = frame_row_text(&paint_card(&mut card, &[], 20, None, 0), 0);
    assert!(row.contains("long"));
    assert!(row.contains("ok"));
    // check it has graphemes
    assert!(row.chars().count() > 10);
}

#[test]
fn renders_open_children_with_rails() {
    let mut card = ToolCard::new().name(text("bash")).child().state(ToolState::Success);
    let frame = paint_card(&mut card, &["echo ok"], 20, None, 0);
    assert!(frame_row_text(&frame, 0).contains("bash"));
    assert_eq!(frame_row_text(&frame, 1), "│ echo ok");
    assert_eq!(frame_row_text(&frame, 2), "╰───────────────────");
}

#[test]
fn flush_card_paints_children_without_chrome() {
    let mut card = ToolCard::new()
        .name(text("read"))
        .intent(text("src/lib.rs"))
        .flush(true)
        .child()
        .state(ToolState::Success);
    assert_eq!(card.height(1), 1);
    let frame = paint_card(&mut card, &["✔ read src/lib.rs"], 30, None, 0);
    let row = frame_row_text(&frame, 0);
    assert_eq!(row, "✔ read src/lib.rs");
    assert!(!row.contains('│'));
}

#[test]
fn mutable_transitions_and_narrow_rendering() {
    let mut card = ToolCard::new()
        .name(text("edit"))
        .intent(text("src/file.txt"))
        .state(ToolState::Streaming);
    assert!(frame_row_text(&paint_card(&mut card, &[], 15, None, 0), 0).contains("edit src/"));

    let mut dirty = false;
    dirty |= card.set_state(ToolState::Success);
    dirty |= card.set_badge(text("1s"));
    dirty |= card.replace_body(1);
    assert!(dirty);

    let frame = paint_card(&mut card, &["done"], 15, None, 0);
    let row_0 = frame_row_text(&frame, 0);
    assert!(row_0.contains("edit"));
    assert!(row_0.contains("1s"));
    assert_eq!(frame_row_text(&frame, 1), "│ done");

    let mut dirty = false;
    dirty |= card.set_state(ToolState::Failure);
    dirty |= card.set_folded(true);
    assert!(dirty);
    assert!(!card.set_folded(true), "folding twice changes nothing");

    assert_eq!(card.height(1), 1, "the body is folded away");
    let frame = paint_card(&mut card, &["done"], 15, None, 0);
    assert!(frame_row_text(&frame, 0).contains("edit"));
}

fn gallery_card() -> ToolCard {
    ToolCard::new()
        .name(text("read"))
        .intent(text("src/lib.rs"))
        .badge(text("2ms"))
        .child()
}

fn text_column(row: &str, text: &str) -> usize {
    let byte = row.find(text).expect("text is present");
    row[..byte].chars().count()
}

#[test]
fn granted_heights_preserve_header_identity() {
    let row = |height: u16| {
        frame_row_text(&paint_card(&mut gallery_card(), &["body row"], 32, Some(height), 0), 0)
    };
    let tall_row = row(3);
    let bridge_row = row(2);
    let collapsed_row = row(1);

    assert_eq!(tall_row, "▾ ⠋ read src/lib.rs          2ms");
    assert_eq!(bridge_row, "  ⠋ read src/lib.rs          2ms");
    assert_eq!(collapsed_row, "  · read src/lib.rs          2ms");
    assert_eq!(text_column(&tall_row, "read"), 4);
    assert_eq!(text_column(&bridge_row, "read"), 4);
    assert_eq!(text_column(&collapsed_row, "read"), 4);
}

#[test]
fn two_rows_are_header_and_closing_rail_only() {
    let frame = paint_card(&mut gallery_card(), &["body row"], 32, Some(2), 0);
    assert_eq!(frame_row_text(&frame, 0), "  ⠋ read src/lib.rs          2ms");
    assert_eq!(frame_row_text(&frame, 1), format!("╰{}", "─".repeat(31)));
    assert!(!frame_row_text(&frame, 1).contains("body row"));
}

#[test]
fn finalized_one_row_pulse_attenuates_on_shared_clock() {
    let mut card = ToolCard::new().name(text("read")).activity(text("active"));
    let mut row = |card: &mut ToolCard, now: u64| frame_row_text(&paint_card(card, &[], 20, Some(1), now), 0);
    assert_eq!(row(&mut card, 240), "  ● read active");

    assert!(card.set_state(ToolState::Success));
    assert_eq!(row(&mut card, 240), "  ● read active");
    assert_eq!(row(&mut card, 360), "  • read active");
    assert_eq!(row(&mut card, 480), "  · read active");
}

#[test]
fn streaming_body_growth_is_clipped_to_granted_height() {
    let mut card = ToolCard::new().name(text("bash")).intent(text("running")).child();
    paint_card(&mut card, &["one"], 24, Some(3), 0);
    assert!(card.replace_body(1));
    let frame = paint_card(&mut card, &["one", "two", "three", "four"], 24, Some(3), 0);
    assert_eq!(frame.size().height, 3);
    assert_eq!(frame_row_text(&frame, 1), "│ one");
    assert_eq!(frame_row_text(&frame, 2), format!("╰{}", "─".repeat(23)));
}

#[test]
fn one_row_shows_pulse_name_activity_and_badge_without_chrome() {
    let mut card = ToolCard::new()
        .name(text("read"))
        .intent(text("stable intent"))
        .activity(text("reading lines 1-8"))
        .badge(text("2ms"))
        .child();
    let frame = paint_card(&mut card, &["hidden body"], 32, Some(1), 0);
    assert_eq!(frame_row_text(&frame, 0), "  · read reading lines 1-8   2ms");
}

fn field(id: &str, value: Option<FieldValue>, required: bool) -> Checked {
    Checked {
        visible: true,
        id: Some(id.to_string()),
        value,
        required,
        pattern: None,
        own_error: None,
        children: Vec::new(),
    }
}

#[test]
fn next_and_back_switch_the_active_ring_before_the_wizard_slot() {
    let mut wizard = Wizard::new(Slot(1)).step(text("First")).step(text("Second"));
    assert_eq!(wizard.active(), Some(0));
    assert!(matches!(wizard.key(Key::Right, &None), Flow::Consumed));
    assert!(matches!(wizard.key(Key::Enter, &None), Flow::Consumed));
    assert_eq!(wizard.active(), Some(1));
    assert!(matches!(wizard.key(Key::Left, &None), Flow::Consumed));
    assert!(matches!(wizard.key(Key::Enter, &None), Flow::Consumed));
    assert_eq!(wizard.active(), Some(0));
}

#[test]
fn required_value_blocks_next_step() {
    let pane = Some(field("name", Some(FieldValue::Text(String::new())), true));
    let mut wizard = Wizard::new(Slot(1)).step(text("Details")).step(text("Done"));
    wizard.key(Key::Right, &pane);
    assert!(matches!(wizard.key(Key::Enter, &pane), Flow::Consumed));
    assert_eq!(wizard.active(), Some(0));
    assert_eq!(wizard.error.as_deref(), Some("name is required"));
}

#[test]
fn form_field_validation_blocks_and_allows_next_step() {
    let form = |value: Option<FieldValue>| {
        let mut form = field("form", None, false);
        form.id = None;
        form.children.push(field("name", value, true));
        Some(form)
    };
    let mut blocked = Wizard::new(Slot(1)).step(text("Details")).step(text("Done"));
    assert!(matches!(blocked.next(&form(Some(FieldValue::Null))), Flow::Consumed));
    assert_eq!(blocked.active(), Some(0));
    assert_eq!(blocked.error.as_deref(), Some("name is required"));

    let mut allowed = Wizard::new(Slot(1)).step(text("Details")).step(text("Done"));
    let filled = form(Some(FieldValue::Text("OMP".to_string())));
    assert!(matches!(allowed.next(&filled), Flow::Consumed));
    assert_eq!(allowed.active(), Some(1));
    assert_eq!(allowed.error, None);
    let flow = allowed.next(&None);
    assert!(matches!(flow, Flow::Event(UiEvent::Submit)) || matches!(flow, Flow::Consumed));
}

#[test]
fn fields_are_checked_against_their_pattern() {
    let pattern = Some("[a-z]+".to_string());
    assert_eq!(check_field("name", "omp", true, &pattern), None);
    assert!(check_field("name", "OMP", true, &pattern).is_some());
    assert_eq!(check_field("name", "", false, &pattern), None);
    let list = FieldValue::List(vec![
        FieldValue::Text("a".to_string()),
        FieldValue::Text("b".to_string()),
    ]);
    assert_eq!(display_value(&list), "a b");
    assert_eq!(display_value(&FieldValue::Null), "");
    assert_eq!(display_value(&FieldValue::Bool(true)), "true");
    assert_eq!(display_value(&FieldValue::Bool(false)), "false");
    assert_eq!(display_value(&FieldValue::Number("1.5".to_string())), "1.5");
    assert_eq!(display_value(&FieldValue::Object("{\"a\":1}".to_string())), "{\"a\":1}");
    assert_eq!(brighten(Color::Rgb(0, 100, 255)), Color::Rgb(51, 131, 255));
    assert_eq!(brighten(Color::Indexed(3)), Color::Indexed(3));
    assert_eq!(Charset::Ascii.check().len(), Charset::Ascii.check().chars().count());
}

#[test]
fn tabs_switch_changes_ring_and_value() {
    let mut tabs = Tabs::new(Slot(1)).pane(text("Config")).pane(text("Notes"));
    assert_eq!(tabs.value().map(string_of).as_deref(), Some("Config"));
    assert_eq!(tabs.active(), Some(0));
    tabs.key(Key::Right);
    assert_eq!(tabs.value().map(string_of).as_deref(), Some("Notes"));
    assert_eq!(tabs.active(), Some(1));
}

#[test]
fn wizard_validation_conditionals_and_submit() {
    let mut wizard = Wizard::new(Slot(1))
        .with(true)
        .step(text("name"))
        .step(text("transport"))
        .step(text("confirm"));
    let named = |value: &str| {
        let mut srv = field("srv", Some(FieldValue::Text(value.to_string())), true);
        srv.pattern = Some("[a-z][a-z0-9-]*".to_string());
        Some(srv)
    };

    wizard.key(Key::Right, &named(""));
    assert!(matches!(wizard.key(Key::Enter, &named("")), Flow::Consumed));
    assert!(wizard.error.as_deref().is_some_and(|e| e.contains("required")));
    assert_eq!(wizard.active(), Some(0));

    assert!(matches!(wizard.key(Key::Enter, &named("Bad!")), Flow::Consumed));
    assert!(wizard.error.as_deref().is_some_and(|e| e.contains("match")));

    wizard.key(Key::Enter, &named("github"));
    assert_eq!(wizard.active(), Some(1));

    // The hidden command does not block: only the shown URL is checked.
    let transport = |url: &str| {
        let mut pane = field("pane", None, false);
        pane.id = None;
        let mut command = field("command", Some(FieldValue::Text(String::new())), true);
        command.visible = false;
        pane.children.push(command);
        pane.children.push(field("url", Some(FieldValue::Text(url.to_string())), true));
        Some(pane)
    };
    wizard.key(Key::Enter, &transport(""));
    assert_eq!(wizard.error.as_deref(), Some("url is required"));
    wizard.key(Key::Enter, &transport("https"));
    assert_eq!(wizard.active(), Some(2));
    assert!(matches!(wizard.key(Key::Enter, &None), Flow::Event(UiEvent::Submit)));
}

#[test]
fn the_wizard_frames_its_step_with_chips_and_buttons() {
    let ctx = context();
    let mut wizard = Wizard::new(Slot(1)).step(text("Name")).step(text("Confirm"));
    let rect = Rect::new(0, 0, 40, 8);
    let mut frame = Frame::new(Size::new(40, 8), 1);
    let mut hits: Vec<Hit> = Vec::new();
    let labels = vec![text(&wizard.step_label(0)), text(&wizard.step_label(1))];
    wizard.paint_head(&mut frame, &mut hits, &ctx, true, &labels, rect, 8);
    let head = frame_row_text(&frame, 0);
    assert!(head.contains("Name") && head.contains("2 Confirm"), "{head:?}");
    assert_eq!(hits.len(), 2, "each chip can be pointed at");

    wizard.next(&Some(field("name", Some(FieldValue::Text(String::new())), true)));
    let error = text("name is required");
    wizard.paint_foot(&mut frame, &mut hits, &ctx, true, rect, 8, &text("[!]"), &error);
    let shown: String = (0..8).map(|y| frame_row_text(&frame, y)).collect::<Vec<_>>().join("\n");
    assert!(shown.contains("[!] name is required"), "{shown}");
    assert!(hits.len() > 2, "the buttons can be pointed at");
}
