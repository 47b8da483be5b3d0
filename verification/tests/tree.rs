use omp_tui::charset::Charset;
use omp_tui::color::Color;
use omp_tui::context::{JamoWidth, UiContext, WidthPolicy};
use omp_tui::events::{Flow, Hit, HitTag, Slot, UiEvent};
use omp_tui::frame::Frame;
use omp_tui::geometry::{Rect, Size};
use omp_tui::input::{Key, Mouse};
use omp_tui::markup::Border;
use omp_tui::screen::frame_row_text;
use omp_tui::text::Text;
use omp_tui::tree::{NodeFace, Tree, TreeAnnotation, TreeNode};
use omp_tui::tree_paint::TreePaint;

fn context() -> UiContext {
    UiContext::new(&WidthPolicy { jamo: JamoWidth::Platform, narrow_platform: false })
}

fn node(slot: u64, label: &str, open: bool) -> TreeNode {
    TreeNode::new(NodeFace::new(Slot(slot)), open).label(label, Text::cells_of(label))
}

fn keyed(slot: u64, key: &str, label: &str) -> TreeNode {
    let mut face = NodeFace::new(Slot(slot));
    face.key = Some(key.to_string());
    TreeNode::new(face, false).label(label, Text::cells_of(label))
}

fn tree(id: Option<&str>, nodes: Vec<TreeNode>) -> Tree {
    let mut tree = Tree::new(id.map(str::to_string), None, None);
    for node in nodes {
        tree.node(node);
    }
    tree
}

fn paint_rows(
    tree: &mut Tree,
    ctx: &UiContext,
    width: u16,
    height: u16,
    content_rows: u16,
) -> (Frame, Vec<Hit>, u16) {
    let mut frame = Frame::new(Size::new(width, height), 1);
    let mut hits = Vec::new();
    let paint = TreePaint {
        theme: &ctx.theme,
        charset: ctx.charset,
        rect: Rect::new(0, 0, width, height),
        content_rows,
        clip: height,
        hovered: None,
        slot: Slot(100),
        selection: Color::Rgb(40, 40, 60),
    };
    let omitted = tree.paint(&mut frame, &mut hits, &paint);
    (frame, hits, omitted)
}

fn paint(tree: &mut Tree, ctx: &UiContext, width: u16, height: u16) -> (Frame, Vec<Hit>) {
    let (frame, hits, _) = paint_rows(tree, ctx, width, height, height);
    (frame, hits)
}

fn row_hits(hits: &[Hit]) -> usize {
    hits.iter().filter(|hit| matches!(hit.tag, HitTag::TreeRow(_))).count()
}

#[test]
fn selection_values_and_activation_use_explicit_keys() {
    let mut tree = tree(
        Some("tree-id"),
        vec![keyed(1, "root-key", "root").node(keyed(2, "leaf-key", "leaf"))],
    );
    assert!(matches!(
        tree.key(Key::Right, 4),
        Flow::Event(UiEvent::TreeToggled { id, key, expanded: Some(true) })
            if id == "tree-id" && key == "root-key"
    ));
    assert!(matches!(tree.key(Key::Right, 4), Flow::Consumed));
    assert!(matches!(
        tree.key(Key::Enter, 4),
        Flow::Event(UiEvent::TreeActivated { id, key }) if id == "tree-id" && key == "leaf-key"
    ));
    assert_eq!(tree.selected_key(), Some("leaf-key"));
}

#[test]
fn keyboard_matrix_releases_edges_and_obeys_tree_navigation() {
    let mut tree = tree(
        None,
        vec![node(1, "root", true).node(node(2, "a", false)).node(node(3, "b", false))],
    );
    assert!(matches!(tree.key(Key::Up, 2), Flow::Skip));
    assert!(matches!(tree.key(Key::Char('j'), 2), Flow::Consumed));
    assert!(matches!(tree.key(Key::Char('h'), 2), Flow::Consumed));
    assert_eq!(tree.cursor, 0);
    assert!(matches!(
        tree.key(Key::Char('h'), 2),
        Flow::Event(UiEvent::TreeToggled { expanded: Some(false), .. })
    ));
    assert!(matches!(
        tree.key(Key::Char('l'), 2),
        Flow::Event(UiEvent::TreeToggled { expanded: Some(true), .. })
    ));
    assert!(matches!(tree.key(Key::Char('l'), 2), Flow::Consumed));
    assert_eq!(tree.cursor, 1);
    assert!(matches!(tree.key(Key::End, 2), Flow::Consumed));
    assert!(matches!(tree.key(Key::Down, 2), Flow::Skip));
    assert!(matches!(tree.key(Key::Home, 2), Flow::Consumed));
    assert!(matches!(tree.key(Key::PageDown, 2), Flow::Consumed));
    assert_eq!(tree.cursor, 2);
    assert!(matches!(tree.key(Key::Char('g'), 2), Flow::Consumed));
    assert!(matches!(tree.key(Key::Char('G'), 2), Flow::Consumed));
}

#[test]
fn row_gutters_keep_logical_trailing_false_depth() {
    let mut tree = tree(
        None,
        vec![node(1, "root", true)
            .node(
                node(2, "a", true).node(node(3, "a1", true).node(node(4, "leaf", false))),
            )
            .node(node(5, "b", false))],
    );
    tree.rebuild_rows();

    let leaf = tree.rows.iter().find(|row| row.face.slot == Slot(4)).expect("leaf row");
    assert_eq!(leaf.gutter_depth, 2);
    assert!(leaf.gutters.get(0));
    assert!(!leaf.gutters.get(1));
    assert_eq!(leaf.key, "root/a/a1/leaf");
}

#[test]
fn virtualization_paints_only_window_and_scroll_chases_selection() {
    let ctx = context();
    let nodes = (0..10_000u64)
        .map(|index| keyed(index, &format!("node-{index}"), &format!("row {index}")))
        .collect();
    let mut tree = tree(None, nodes);
    let (frame, hits) = paint(&mut tree, &ctx, 24, 4);
    assert_eq!(row_hits(&hits), 4);
    assert!(frame_row_text(&frame, 3).contains("row 3"));
    assert!(matches!(tree.key(Key::End, 4), Flow::Consumed));
    assert_eq!(tree.scroll_top(), 9_996);
    let (frame, _) = paint(&mut tree, &ctx, 24, 4);
    assert!(frame_row_text(&frame, 3).contains("row 9999"));
    assert!(matches!(tree.mouse(Mouse::WheelUp, HitTag::TreeRow(9_999), 4), Flow::Consumed));
    assert_eq!(tree.scroll_top(), 9_993);
}

#[test]
fn max_rows_reserves_shared_footer_and_counts_unpainted_items() {
    let ctx = context();
    let mut tree = Tree::new(None, None, Some(3));
    for (slot, label) in ["a", "b", "c", "d"].iter().enumerate() {
        tree.node(node(slot as u64, label, false));
    }
    assert_eq!(tree.height(), 3);
    let (mut frame, hits, omitted) = paint_rows(&mut tree, &ctx, 20, 3, 2);
    assert_eq!(row_hits(&hits), 2);
    frame.put(
        0,
        2,
        &Text::cells_of(&format!("… {omitted} more items")),
        omp_tui::style::Style::new(),
    );
    assert_eq!(frame_row_text(&frame, 2), "… 2 more items");
}

#[test]
fn selection_and_scroll_can_be_restored_by_key() {
    let ctx = context();
    let mut tree =
        tree(None, vec![keyed(1, "a", "a"), keyed(2, "b", "b"), keyed(3, "c", "c")]);
    assert!(tree.select_key("c"));
    assert_eq!(tree.selected_key(), Some("c"));
    assert!(!tree.select_key("missing"));
    assert_eq!(tree.selected_key(), Some("c"));
    tree.set_scroll_top(2);
    assert_eq!(tree.scroll_top(), 2);
    let _ = paint(&mut tree, &ctx, 20, 2);
    assert_eq!(tree.scroll_top(), 1);
}

#[test]
fn rich_cells_color_prefix_annotation_action_and_truncate() {
    let mut ctx = context();
    ctx.theme.accent = Color::Rgb(1, 2, 3);
    ctx.theme.info = Color::Rgb(4, 5, 6);
    ctx.theme.ok = Color::Rgb(7, 8, 9);
    ctx.theme.err = Color::Rgb(10, 11, 12);
    let mut face = NodeFace::new(Slot(1));
    face.key = Some("leaf".to_string());
    face.lead = Text::cells_of("⌕");
    face.lead_color = Some(ctx.theme.accent);
    face.action_color = Some(ctx.theme.ok);
    face.bold = true;
    let leaf = TreeNode::new(face, false)
        .prefix(Text::cells_of("a/very/long/prefix/"))
        .label("name", Text::cells_of("name"))
        .annotate(TreeAnnotation { text: Text::cells_of("+2"), color: Some(ctx.theme.info) })
        .annotate(TreeAnnotation { text: Text::cells_of("-1"), color: Some(ctx.theme.err) })
        .action(Text::cells_of("Run"));
    let mut files = tree(Some("files"), vec![leaf]);
    let (frame, hits) = paint(&mut files, &ctx, 28, 1);
    let text = frame_row_text(&frame, 0);
    assert!(text.contains('…'), "{text}");
    assert!(text.ends_with("+2 -1 Run"), "{text}");
    let icon_x = text.chars().position(|c| c == '⌕').unwrap() as u16;
    let style = |x: u16| frame.cell(x, 0).style();
    assert_eq!(style(icon_x).foreground_color(), Color::Rgb(1, 2, 3));
    assert!(style(7).spec().dim, "prefix is dim");
    assert_eq!(style(18).foreground_color(), Color::Rgb(4, 5, 6));
    assert_eq!(style(21).foreground_color(), Color::Rgb(10, 11, 12));
    assert_eq!(style(24).foreground_color(), Color::Rgb(7, 8, 9));
    let action = hits
        .iter()
        .find(|hit| matches!(hit.tag, HitTag::TreeAction(0)))
        .expect("action hit");
    assert!(matches!(
        files.mouse(Mouse::Click, action.tag, 1),
        Flow::Event(UiEvent::TreeAction { id, key, action })
            if id == "files" && key == "leaf" && action == "Run"
    ));
    let mut long = tree(None, vec![node(1, "label-that-does-not-fit", false)]);
    let (frame, _) = paint(&mut long, &ctx, 12, 1);
    assert!(frame_row_text(&frame, 0).contains('…'), "long labels end-truncate");
}

#[test]
fn tree_guides_paint_connectors_for_open_branches() {
    let ctx = context();
    assert_eq!(ctx.charset, Charset::Unicode);
    let mut tree = Tree::new(None, Some(Border::Square), None);
    tree.node(node(1, "root", true).node(node(2, "one", false)).node(node(3, "two", false)));
    let (frame, _) = paint(&mut tree, &ctx, 40, 3);
    let text: Vec<String> = (0..3).map(|y| frame_row_text(&frame, y)).collect();
    let text = text.join("\n");
    assert!(text.contains("├─ one"), "{text}");
    assert!(text.contains("└─ two"), "{text}");
}

#[test]
fn closing_a_branch_twice_restores_its_rows() {
    let mut tree = tree(
        None,
        vec![node(1, "root", true).node(node(2, "a", false)).node(node(3, "b", false))],
    );
    assert_eq!(tree.height(), 3);
    tree.key(Key::Left, 3);
    assert_eq!(tree.height(), 1);
    tree.key(Key::Right, 3);
    assert_eq!(tree.height(), 3);
}

#[test]
fn tree_expand_collapse_select() {
    let mut tree = tree(
        Some("target"),
        vec![
            node(1, "services", true).node(node(2, "api", false)).node(node(3, "workers", false)),
            node(4, "edge", false),
        ],
    );
    tree.key(Key::Down, 10);
    tree.key(Key::Enter, 10);
    assert_eq!(tree.selected_key(), Some("services/api"));
    tree.key(Key::Up, 10);
    tree.key(Key::Left, 10);
    tree.rebuild_rows();
    assert_eq!(tree.rows.len(), 2);
    tree.key(Key::Right, 10);
    tree.rebuild_rows();
    assert_eq!(tree.rows.len(), 4);
}

#[test]
fn appended_label_text_joins_the_label() {
    let node = TreeNode::new(NodeFace::new(Slot(1)), false)
        .label("na", Text::cells_of("na"))
        .label("me", Text::cells_of("name"));
    let shown: String =
        node.face.label.clusters.iter().map(|cluster| cluster.text.clone()).collect();
    assert_eq!(shown, "name");
}
