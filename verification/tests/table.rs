use omp_tui::charset::Charset;
use omp_tui::color::Color;
use omp_tui::frame::Frame;
use omp_tui::geometry::{Rect, Size};
use omp_tui::markup::{Align, Truncate};
use omp_tui::runs::{truncate_start, truncate_to_width};
use omp_tui::screen::frame_row_text;
use omp_tui::style::Style;
use omp_tui::table::{CellChild, Table, TableCell, TableRow};
use omp_tui::text::Text;

fn text_child(line: &str) -> CellChild {
    let text = Text::cells_of(line);
    let width = text.width();
    CellChild {
        min: 1,
        natural: width,
        visible: true,
        text: Some(text),
        style: Style::new(),
        vertical: false,
    }
}

fn cell(line: &str) -> TableCell {
    TableCell::new().child(text_child(line))
}

#[test]
fn truncate_start_keeps_the_tail_with_a_leading_ellipsis() {
    let name = Text::cells_of("google-antigravity/gemini-3.6-flash");
    let mut frame = Frame::new(Size::new(20, 2), 1);
    let (tail, cut) = truncate_start(&name, 20);
    assert!(cut);
    let column = frame.put(0, 0, &Text::cells_of("…"), Style::new());
    frame.put(column, 0, &tail, Style::new());
    let head = truncate_to_width(&name, 20);
    assert!(head.ellipsis);
    let column = frame.put(0, 1, &head.text, Style::new());
    frame.put(column, 1, &Text::cells_of("…"), Style::new());
    let rows = [frame_row_text(&frame, 0), frame_row_text(&frame, 1)];
    assert!(rows[0].starts_with('…') && rows[0].ends_with("flash"), "start: {:?}", rows[0]);
    assert!(rows[1].ends_with('…'), "end: {:?}", rows[1]);
    assert_eq!(rows[0].chars().count(), 20, "start fills the width: {:?}", rows[0]);
    assert_eq!(rows[1].chars().count(), 20, "end fills the width: {:?}", rows[1]);
    assert_eq!(head.width, 20);
}

#[test]
fn cell_truncate_start_collapses_styled_runs_from_the_head() {
    let name = TableCell::new()
        .with_str("truncate", "start")
        .child(text_child("google-antigravity/"))
        .child(text_child("gemini-3.6-flash"));
    let mut frame = Frame::new(Size::new(24, 1), 1);
    // The other column takes two cells behind a gap of two.
    assert!(name.paint(&mut frame, Rect::new(0, 0, 20, 1), 1));
    let stat = cell("1m").with_str("align", "end").with_str("truncate", "");
    assert!(stat.paint(&mut frame, Rect::new(22, 0, 2, 1), 1));
    let row = frame_row_text(&frame, 0);
    // The provider head clips behind one leading ellipsis; the id tail
    // stays whole and the ctx column keeps its right edge.
    assert!(row.contains("gemini-3.6-flash"), "row: {row:?}");
    assert_eq!(row.matches('…').count(), 1, "row: {row:?}");
    assert!(row.starts_with('…'), "row: {row:?}");
    assert!(row.ends_with("1m"), "row: {row:?}");
}

#[test]
fn truncating_cells_flatten_breaks_and_align() {
    let two_lines = Text {
        clusters: vec![
            omp_tui::text::Cluster::new("a", 1),
            omp_tui::text::Cluster::new("\n", 0),
            omp_tui::text::Cluster::new("b", 1),
        ],
    };
    let child = CellChild { text: Some(two_lines), ..text_child("") };
    let flat = TableCell::new().with(Some(Truncate::End), Align::End).child(child);
    let mut frame = Frame::new(Size::new(8, 1), 1);
    assert!(flat.paint(&mut frame, Rect::new(0, 0, 8, 1), 1));
    assert_eq!(frame_row_text(&frame, 0), "     a b", "a hard break renders as a space");
    assert_eq!(flat.measure(), (0, 0));

    let image = CellChild { text: None, ..text_child("image") };
    let mixed = TableCell::new().with(Some(Truncate::End), Align::Start).child(image);
    assert!(mixed.flatten(8).is_none(), "an image cannot join a line");
    assert!(cell("plain").flatten(8).is_none(), "the cell does not truncate");
}

#[test]
fn squeezed_cells_never_bleed_into_the_next_column() {
    let mut squeezed = cell("alpha").child(text_child("beta")).child(text_child("gamma"));
    let (widths, slack) = squeezed.shares(7);
    assert_eq!((widths, slack), (vec![5, 2], 0));
    let rects = squeezed.place(Rect::new(4, 1, 7, 1), &vec![1, 3]);
    assert_eq!(rects, vec![Rect::new(4, 1, 5, 1), Rect::new(9, 1, 2, 1)]);
    assert_eq!(squeezed.painted(), vec![0, 1]);
    assert_eq!(squeezed.measure(), (3, 14));
    assert_eq!(squeezed.height(&vec![1, 3]), 3);

    let mut ended = cell("ab").with(None, Align::End);
    assert_eq!(ended.place(Rect::new(0, 0, 6, 1), &vec![1]), vec![Rect::new(4, 0, 2, 1)]);
    let mut centered = cell("ab").with_str("align", "center");
    assert_eq!(centered.place(Rect::new(0, 0, 6, 1), &vec![1]), vec![Rect::new(2, 0, 2, 1)]);
    assert_eq!(cell("a").with(Some(Truncate::Start), Align::Start).height(&vec![9]), 1);
}

#[test]
fn max_rows_clamps_table_and_counts_physical_rows() {
    let mut table = Table::new().with(None, Some(3));
    for label in ["a", "b", "c", "d"] {
        table = table.row(TableRow::new().cell(cell(label)));
    }
    let height = table.height(&vec![1, 1, 1, 1]);
    assert_eq!(height, 3);
    table.place(Rect::new(0, 0, 20, height), &vec![1, 1, 1, 1]);
    assert_eq!(table.natural_rows, 4);
    let mut frame = Frame::new(Size::new(20, height), 1);
    // One of the three rows is kept for the footer.
    let cut = table.paint(&mut frame, Rect::new(0, 0, 20, height), height, Some(2));
    assert_eq!(cut, 2);
    for (row, label) in ["a", "b", "c", "d"].iter().enumerate() {
        if (row as u16) < cut {
            frame.put(0, row as u16, &Text::cells_of(label), Style::new());
        }
    }
    let hidden = table.natural_rows - cut;
    frame.put(0, 2, &Text::cells_of(&format!("… {hidden} more rows")), Style::new());
    assert_eq!(frame_row_text(&frame, 0), "a");
    assert_eq!(frame_row_text(&frame, 1), "b");
    assert_eq!(frame_row_text(&frame, 2), "… 2 more rows");
}

#[test]
fn row_backgrounds_stop_at_the_clip() {
    let blue = Color::Rgb(0, 0, 255);
    let mut table = Table::new()
        .row(TableRow::new().cell(cell("a")))
        .row(TableRow::new().with(blue).cell(cell("b")).cell(cell("c")));
    assert_eq!(table.column_gap(), 2);
    assert_eq!(table.rows[1].start, 1);
    assert_eq!(table.rows[1].end, 3);
    table.place(Rect::new(0, 0, 4, 4), &vec![1, 3]);
    assert_eq!(table.bands, vec![(0, 1), (1, 3)]);
    let mut frame = Frame::new(Size::new(4, 4), 1);
    table.paint(&mut frame, Rect::new(0, 0, 4, 4), 3, None);
    assert_eq!(frame.cell(0, 0).style().background_color(), Color::Default);
    assert_eq!(frame.cell(3, 2).style().background_color(), blue);
    assert_eq!(frame.cell(0, 3).style().background_color(), Color::Default);
    assert_eq!(Charset::default(), Charset::Unicode);
}

#[test]
fn squeezed_children_stay_in_their_cell() {
    let mut squeezed = TableCell::new()
        .with_str("align", "end")
        .child(text_child("abcdef"))
        .child(text_child("gh"))
        .child(text_child("ij"));
    let rects = squeezed.place(Rect::new(5, 0, 7, 1), &vec![1, 1, 1]);
    assert_eq!(rects, vec![Rect::new(5, 0, 6, 1), Rect::new(11, 0, 1, 1)]);
    let rects = squeezed.place(Rect::new(5, 0, 12, 1), &vec![1, 1, 1]);
    assert_eq!(rects[0], Rect::new(7, 0, 6, 1), "spare room goes before the content");
    assert_eq!(rects[2], Rect::new(15, 0, 2, 1));
}

#[test]
fn rows_that_were_never_placed_are_not_painted() {
    let red = Color::Rgb(255, 0, 0);
    let row = || TableRow::new().with(red).cell(cell("x"));
    let mut table = Table::new().row(row());
    let mut frame = Frame::new(Size::new(4, 3), 1);
    table.paint(&mut frame, Rect::new(0, 0, 4, 3), 3, None);
    assert_eq!(frame.cell(0, 0).style().background_color(), Color::Default);
    table.place(Rect::new(0, 0, 4, 3), &vec![1]);
    let table = table.row(row());
    table.paint(&mut frame, Rect::new(0, 0, 4, 3), 3, None);
    assert_eq!(frame.cell(0, 0).style().background_color(), red);
    assert_eq!(frame.cell(0, 1).style().background_color(), Color::Default);
}
