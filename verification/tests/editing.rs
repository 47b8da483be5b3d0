use omp_tui::buffer::{BufferOutcome, EditBuffer};
use omp_tui::codes::{code_ranges, nearest_open_tag, xml_ranges};
use omp_tui::input::Key;
use omp_tui::layout::{Glyph, Measured};
use omp_tui::motion::VisualRow;

fn joins(c: char, previous: char) -> bool {
    ('\u{300}'..='\u{36f}').contains(&c)
        || c == '\u{200d}'
        || c == '\u{fe0f}'
        || previous == '\u{200d}'
}

fn cells(c: char) -> u16 {
    if c.is_control() {
        0
    } else if ('\u{1100}'..='\u{115f}').contains(&c)
        || ('\u{2e80}'..='\u{a4cf}').contains(&c)
        || ('\u{ac00}'..='\u{d7a3}').contains(&c)
        || ('\u{ff00}'..='\u{ff60}').contains(&c)
        || c >= '\u{1f000}'
    {
        2
    } else {
        1
    }
}

fn glyphs(text: &str, from: usize, to: usize) -> Vec<Glyph> {
    let mut glyphs: Vec<Glyph> = Vec::new();
    let mut previous = '\0';
    for (at, c) in text[from..to].char_indices() {
        let end = from + at + c.len_utf8();
        match glyphs.last_mut() {
            Some(last) if joins(c, previous) => last.end = end,
            _ => glyphs.push(Glyph { start: from + at, end, width: cells(c) }),
        }
        previous = c;
    }
    glyphs
}

fn lines(text: &str) -> Vec<Vec<Glyph>> {
    let mut from = 0;
    text.split('\n')
        .map(|line| {
            let start = from;
            from += line.len() + 1;
            glyphs(text, start, start + line.len())
        })
        .collect()
}

fn measured(buffer: &EditBuffer) -> Measured {
    let text = buffer.text();
    Measured {
        before: glyphs(text, 0, buffer.cursor()),
        after: glyphs(text, buffer.cursor(), text.len()),
        lines: lines(text),
    }
}

fn press(buffer: &mut EditBuffer, key: Key) -> BufferOutcome {
    press_in(buffer, key, 80, 10)
}

fn press_in(buffer: &mut EditBuffer, key: Key, width: u16, rows: usize) -> BufferOutcome {
    let around = measured(buffer);
    buffer.handle(key, width, rows, &around)
}

fn place(buffer: &mut EditBuffer, line: usize, column: u16) {
    let measured = lines(buffer.text());
    buffer.set_cursor_line_column(line, column, &measured);
}

fn column(buffer: &EditBuffer) -> (usize, u16) {
    let before = glyphs(buffer.text(), 0, buffer.cursor());
    (buffer.cursor_line(), buffer.cursor_column(&before))
}

fn rows(buffer: &mut EditBuffer, width: u16, max: usize) -> Vec<VisualRow> {
    let around = measured(buffer);
    buffer.rows_with_metrics(width, max, &around).0
}

fn metrics(buffer: &mut EditBuffer, width: u16, max: usize) -> (usize, usize, usize) {
    let around = measured(buffer);
    buffer.rows_with_metrics(width, max, &around).1
}

fn row_texts(rows: &[VisualRow]) -> Vec<&str> {
    rows.iter().map(|row| row.text.as_str()).collect()
}

fn type_slash(text: &str) -> EditBuffer {
    let mut buffer = EditBuffer::new(text);
    assert_eq!(press(&mut buffer, Key::Char('/')), BufferOutcome::Changed);
    buffer
}

#[test]
fn close_tag_completes_innermost_open_element() {
    let buffer = type_slash("<box><row gap=1><Foo.Bar>hi<");
    assert_eq!(buffer.text(), "<box><row gap=1><Foo.Bar>hi</Foo.Bar>");
    assert_eq!(buffer.cursor(), buffer.text().len());
}

#[test]
fn close_tag_ignores_self_closing_elements() {
    let buffer = type_slash("<a><hr/><");
    assert_eq!(buffer.text(), "<a><hr/></a>");
    assert_eq!(buffer.cursor(), buffer.text().len());
}

#[test]
fn close_tag_pops_already_closed_pair() {
    let buffer = type_slash("<a><b></b><");
    assert_eq!(buffer.text(), "<a><b></b></a>");
    assert_eq!(buffer.cursor(), buffer.text().len());
}

#[test]
fn close_tag_respects_quoted_attribute_delimiters() {
    let buffer = type_slash("<a t=\"x>y\"><");
    assert_eq!(buffer.text(), "<a t=\"x>y\"></a>");
    assert_eq!(buffer.cursor(), buffer.text().len());
}

#[test]
fn close_tag_ignores_comment_contents() {
    let buffer = type_slash("<a><!-- <b> --><");
    assert_eq!(buffer.text(), "<a><!-- <b> --></a>");
    assert_eq!(buffer.cursor(), buffer.text().len());
}

#[test]
fn close_tag_ignores_inline_and_fenced_code() {
    let inline = type_slash("<real>`<fake>`<");
    assert_eq!(inline.text(), "<real>`<fake>`</real>");

    let fenced = type_slash("<real>\n```\n<fake>\n```\n<");
    assert_eq!(fenced.text(), "<real>\n```\n<fake>\n```\n</real>");
}

#[test]
fn close_tag_recovers_from_a_mismatched_closer_without_leaking_inner_tags() {
    let buffer = type_slash("<outer><inner></outer><");
    assert_eq!(buffer.text(), "<outer><inner></outer></");
}

#[test]
fn code_and_xml_masks_cover_structural_text_only() {
    let text = "prose `let x = <fake>` <real attr=\">\">body</real>\n~~~\n<tag>\n~~~";
    assert_eq!(
        code_ranges(text).iter().map(|range| &text[range.0..range.1]).collect::<Vec<_>>(),
        ["`let x = <fake>`", "~~~\n<tag>\n~~~"]
    );
    assert_eq!(
        xml_ranges(text).iter().map(|range| &text[range.0..range.1]).collect::<Vec<_>>(),
        ["<fake>", "<real attr=\">\">", "</real>", "<tag>"]
    );
}

#[test]
fn close_tag_types_literal_slash_when_stack_is_empty() {
    let buffer = type_slash("<");
    assert_eq!(buffer.text(), "</");
    assert_eq!(buffer.cursor(), buffer.text().len());
    assert_eq!(nearest_open_tag("<a><b/>"), Some("a"));
    assert_eq!(nearest_open_tag("plain"), None);
}

#[test]
fn pasting_a_document_does_not_complete_its_closing_tags() {
    // completion is a typing affordance; a pasted document already
    // carries its closers, so duplicating them would corrupt the paste
    let document = "<box bg=\"black\">\n  <row gap=\"1\">\n    <col>hi</col>\n  </row>\n</box>";
    let mut buffer = EditBuffer::new("");
    assert_eq!(buffer.insert_text(document), BufferOutcome::Changed);
    assert_eq!(buffer.text(), document);
}

#[test]
fn word_motion_matches_pi_unicode_coarse_blocks() {
    let text = "你好，世界\u{a0}foo‑bar «привет»";
    let mut buffer = EditBuffer::new(text);
    for expected in [
        text.rfind('»').expect("closing quote"),
        text.find('п').expect("Russian word"),
        text.find('«').expect("opening quote"),
        text.find('f').expect("joined Latin word"),
        text.find('世').expect("second CJK block"),
        text.find('，').expect("Unicode delimiter"),
        0,
    ] {
        assert_eq!(press(&mut buffer, Key::WordLeft), BufferOutcome::Changed);
        assert_eq!(buffer.cursor(), expected);
    }

    assert_eq!(press(&mut buffer, Key::WordRight), BufferOutcome::Changed);
    assert_eq!(buffer.cursor(), text.find('，').expect("after first CJK block"));
    assert_eq!(press(&mut buffer, Key::WordRight), BufferOutcome::Changed);
    assert_eq!(buffer.cursor(), text.find('，').expect("delimiter") + '，'.len_utf8());
    assert_eq!(press(&mut buffer, Key::WordRight), BufferOutcome::Changed);
    assert_eq!(buffer.cursor(), text.find('\u{a0}').expect("after second CJK block"));
}

#[test]
fn kill_and_yank_preserve_atomic_reference_identity() {
    let mut buffer = EditBuffer::new("prefix ");
    buffer.insert_reference("[chip]", "<attachment/>");
    assert_eq!(press(&mut buffer, Key::Ctrl('w')), BufferOutcome::Changed);
    assert_eq!(buffer.text(), "prefix ");
    assert!(buffer.atom_ranges().is_empty());

    assert_eq!(press(&mut buffer, Key::Ctrl('y')), BufferOutcome::Changed);
    assert_eq!(buffer.text(), "prefix [chip]");
    assert_eq!(buffer.atom_ranges().as_slice(), &[(7, 13)]);
    assert_eq!(buffer.expanded_text(), "prefix <attachment/>");

    assert_eq!(press(&mut buffer, Key::Backspace), BufferOutcome::Changed);
    assert_eq!(buffer.text(), "prefix ");
}

#[test]
fn backward_kill_accumulation_keeps_reference_offsets() {
    let mut buffer = EditBuffer::new("");
    buffer.insert_reference("[one]", "<one/>");
    buffer.insert_text(" tail");
    press(&mut buffer, Key::Ctrl('w'));
    press(&mut buffer, Key::Ctrl('w'));
    assert_eq!(press(&mut buffer, Key::Ctrl('y')), BufferOutcome::Changed);
    assert_eq!(buffer.text(), "[one] tail");
    assert_eq!(buffer.atom_ranges().as_slice(), &[(0, 5)]);
    assert_eq!(buffer.expanded_text(), "<one/> tail");
}

#[test]
fn yank_pop_restores_atoms_from_an_older_kill_entry() {
    let mut buffer = EditBuffer::new("");
    buffer.insert_reference("[one]", "<one/>");
    press(&mut buffer, Key::Ctrl('w'));
    buffer.insert_text("plain");
    press(&mut buffer, Key::Ctrl('w'));

    press(&mut buffer, Key::Ctrl('y'));
    assert_eq!(buffer.text(), "plain");
    assert_eq!(press(&mut buffer, Key::Alt('y')), BufferOutcome::Changed);
    assert_eq!(buffer.text(), "[one]");
    assert_eq!(buffer.atom_ranges().as_slice(), &[(0, 5)]);
    assert_eq!(buffer.expanded_text(), "<one/>");
}

#[test]
fn reference_markers_are_single_units_for_caret_and_selection_motion() {
    let mut buffer = EditBuffer::new("a");
    buffer.insert_reference("[chip]", "<ref/>");
    buffer.insert_text("z");
    place(&mut buffer, 0, 1);
    assert_eq!(press(&mut buffer, Key::Right), BufferOutcome::Changed);
    assert_eq!(buffer.cursor(), 7);
    assert_eq!(press(&mut buffer, Key::Left), BufferOutcome::Changed);
    assert_eq!(buffer.cursor(), 1);
    assert_eq!(press(&mut buffer, Key::SelectRight), BufferOutcome::Changed);
    assert_eq!(buffer.selection(), Some((1, 7)));
    assert_eq!(buffer.selected_text(), Some("[chip]"));
}

#[test]
fn character_jump_crosses_lines_and_never_lands_inside_an_atom() {
    let mut buffer = EditBuffer::new("a\n");
    buffer.insert_reference("[chip]", "<ref/>");
    buffer.insert_text("\nz");
    place(&mut buffer, 0, 0);
    press(&mut buffer, Key::Ctrl(']'));
    assert_eq!(press(&mut buffer, Key::Char('h')), BufferOutcome::Changed);
    assert_eq!(buffer.cursor(), 8, "forward jump snaps to the atom's far edge");

    press(&mut buffer, Key::CtrlAlt(']'));
    assert_eq!(press(&mut buffer, Key::Char('c')), BufferOutcome::Changed);
    assert_eq!(buffer.cursor(), 2, "backward jump snaps to the atom's near edge");
}

#[test]
fn line_message_and_selection_motions_use_distinct_boundaries() {
    let mut buffer = EditBuffer::new("one\ntwo\nthree");
    place(&mut buffer, 1, 1);
    assert_eq!(press(&mut buffer, Key::SelectEnd), BufferOutcome::Changed);
    assert_eq!(buffer.selected_text(), Some("wo"));
    assert_eq!(press(&mut buffer, Key::Home), BufferOutcome::Changed);
    assert_eq!(column(&buffer), (1, 1));
    assert_eq!(press(&mut buffer, Key::Home), BufferOutcome::Changed);
    assert_eq!(column(&buffer), (1, 0));
    assert_eq!(buffer.move_to_message_edge(false), BufferOutcome::Changed);
    assert_eq!(buffer.cursor(), 0);
    assert_eq!(buffer.move_to_message_edge(true), BufferOutcome::Changed);
    assert_eq!(buffer.cursor(), buffer.text().len());
}

#[test]
fn right_at_message_end_seeds_the_vertical_sticky_column() {
    let mut buffer = EditBuffer::new("abcd\nx\nabcd");
    place(&mut buffer, 2, 4);
    assert_eq!(press_in(&mut buffer, Key::Right, 80, 8), BufferOutcome::Ignored);
    assert_eq!(press_in(&mut buffer, Key::Up, 80, 8), BufferOutcome::Changed);
    assert_eq!(column(&buffer), (1, 1));
    assert_eq!(press_in(&mut buffer, Key::Up, 80, 8), BufferOutcome::Changed);
    assert_eq!(column(&buffer), (0, 4));
}

#[test]
fn wrapping_fills_wide_tokens_but_keeps_narrow_words_whole() {
    let mut wide = EditBuffer::new("word 一二三四五");
    assert_eq!(row_texts(&rows(&mut wide, 10, 8)), ["word 一二", "三四五"]);

    let mut mixed = EditBuffer::new("word 一a二b三c四d");
    assert_eq!(row_texts(&rows(&mut mixed, 10, 8)), ["word 一a二", "b三c四d"]);

    let mut narrow = EditBuffer::new("word über");
    assert_eq!(row_texts(&rows(&mut narrow, 8, 8)), ["word", "über"]);
}

#[test]
fn wrapping_uses_remaining_width_before_splitting_a_long_token() {
    let mut buffer = EditBuffer::new("word abcdefghijklmnop");
    assert_eq!(row_texts(&rows(&mut buffer, 10, 8)), ["word abcde", "fghijklmno", "p"]);
}

#[test]
fn wrap_hidden_whitespace_stays_addressable_and_rows_fit() {
    let mut buffer = EditBuffer::new("word     next");
    let shown = rows(&mut buffer, 6, 8);
    assert_eq!(row_texts(&shown), ["word", "next"]);
    assert!(shown.iter().all(|row| row.text.chars().count() <= 6));

    place(&mut buffer, 0, 7);
    let shown = rows(&mut buffer, 6, 8);
    assert_eq!(shown[0].cursor_column, Some(4));
    assert_eq!(shown[1].cursor_column, None);
}

#[test]
fn manual_scroll_detaches_until_the_next_edit_then_follows_the_caret() {
    let mut buffer = EditBuffer::new("0\n1\n2\n3\n4");
    assert_eq!(metrics(&mut buffer, 20, 2), (3, 2, 5));
    let measured_lines = lines(buffer.text());
    assert!(buffer.scroll_rows(-2, 20, 2, &measured_lines));
    assert_eq!(metrics(&mut buffer, 20, 2), (1, 2, 5));

    assert_eq!(press_in(&mut buffer, Key::Char('x'), 20, 2), BufferOutcome::Changed);
    assert_eq!(metrics(&mut buffer, 20, 2), (3, 2, 5));
    buffer.replace_external("a\nb\nc", false);
    assert_eq!(metrics(&mut buffer, 20, 2), (1, 2, 3));
}

#[test]
fn double_clicking_whitespace_selects_only_its_run() {
    let mut buffer = EditBuffer::new("one  two");
    let text = buffer.text().to_string();
    let measured_lines = lines(&text);
    buffer.select_word_visual_row(
        0,
        3,
        80,
        &measured_lines,
        &glyphs(&text, 0, 3),
        &glyphs(&text, 3, text.len()),
    );
    assert_eq!(buffer.selection(), Some((3, 5)));
    assert_eq!(buffer.selected_text(), Some("  "));
}

#[test]
fn shift_motion_extends_and_plain_motion_collapses_selection() {
    let mut buffer = EditBuffer::new("abc");
    assert_eq!(press(&mut buffer, Key::SelectLeft), BufferOutcome::Changed);
    assert_eq!(press(&mut buffer, Key::SelectLeft), BufferOutcome::Changed);
    assert_eq!(buffer.selection(), Some((1, 3)));
    assert_eq!(buffer.selected_text(), Some("bc"));

    assert_eq!(press(&mut buffer, Key::Left), BufferOutcome::Changed);
    assert_eq!(buffer.cursor(), 1);
    assert_eq!(buffer.selection(), None);
}

#[test]
fn typing_replaces_selection_in_one_undo_step() {
    let mut buffer = EditBuffer::new("abcd");
    press(&mut buffer, Key::SelectLeft);
    press(&mut buffer, Key::SelectLeft);
    assert_eq!(press(&mut buffer, Key::Char('X')), BufferOutcome::Changed);
    assert_eq!(buffer.text(), "abX");

    assert_eq!(press(&mut buffer, Key::Ctrl('_')), BufferOutcome::Changed);
    assert_eq!(buffer.text(), "abcd");
    assert_eq!(buffer.cursor(), 2);
    assert_eq!(press(&mut buffer, Key::Ctrl('_')), BufferOutcome::Ignored);
}

#[test]
fn kill_commands_prefer_the_active_selection() {
    for key in [Key::Ctrl('u'), Key::Ctrl('k'), Key::Ctrl('w'), Key::WordDelete] {
        let mut buffer = EditBuffer::new("one two");
        press(&mut buffer, Key::SelectWordLeft);
        assert_eq!(press(&mut buffer, key), BufferOutcome::Changed);
        assert_eq!(buffer.text(), "one ", "{key:?}");
        assert_eq!(press(&mut buffer, Key::Ctrl('y')), BufferOutcome::Changed);
        assert_eq!(buffer.text(), "one two", "{key:?}");
    }
}

#[test]
fn cut_deletes_and_yank_reinserts_selection() {
    let mut buffer = EditBuffer::new("one two");
    assert_eq!(press(&mut buffer, Key::SelectWordLeft), BufferOutcome::Changed);
    assert_eq!(buffer.selected_text(), Some("two"));
    assert_eq!(press(&mut buffer, Key::Cut), BufferOutcome::Changed);
    assert_eq!(buffer.text(), "one ");
    assert_eq!(buffer.take_copied().as_deref(), Some("two"), "the host drains the cut text");
    assert_eq!(buffer.take_copied(), None, "drained once");
    assert_eq!(press(&mut buffer, Key::Ctrl('y')), BufferOutcome::Changed);
    assert_eq!(buffer.text(), "one two");
}

#[test]
fn copy_stashes_text_for_the_host_without_editing() {
    let mut buffer = EditBuffer::new("one two");
    assert_eq!(press(&mut buffer, Key::Copy), BufferOutcome::Ignored, "no selection");
    assert_eq!(buffer.take_copied(), None);
    press(&mut buffer, Key::SelectWordLeft);
    assert_eq!(press(&mut buffer, Key::Copy), BufferOutcome::Changed);
    assert_eq!(buffer.text(), "one two", "copy never edits");
    assert_eq!(buffer.take_copied().as_deref(), Some("two"));
}

#[test]
fn undrained_copy_is_voided_by_the_next_key() {
    let mut buffer = EditBuffer::new("one two");
    press(&mut buffer, Key::SelectWordLeft);
    assert_eq!(press(&mut buffer, Key::Copy), BufferOutcome::Changed);
    // A host that skipped the drain must not surface the old text
    // alongside a later, unrelated edit.
    assert_eq!(press(&mut buffer, Key::Char('x')), BufferOutcome::Changed);
    assert_eq!(buffer.take_copied(), None, "stash lives exactly one key");
}

#[test]
fn select_all_exposes_selected_text() {
    let mut buffer = EditBuffer::new("hello\nworld");
    assert_eq!(press(&mut buffer, Key::SelectAll), BufferOutcome::Changed);
    assert_eq!(buffer.selection(), Some((0, 11)));
    assert_eq!(buffer.selected_text(), Some("hello\nworld"));
}

#[test]
fn selection_span_maps_columns_within_a_wrapped_row() {
    let mut buffer = EditBuffer::new("abcdefghi");
    let measured_lines = lines(buffer.text());
    buffer.set_cursor_visual_row(1, 1, 4, &measured_lines);
    press_in(&mut buffer, Key::SelectRight, 4, 8);
    press_in(&mut buffer, Key::SelectRight, 4, 8);
    let shown = rows(&mut buffer, 4, 8);
    assert_eq!(shown[1].text, "efgh");
    let row_glyphs = glyphs(buffer.text(), shown[1].start, shown[1].end);
    assert_eq!(buffer.selection_span(&shown[1], &row_glyphs), Some((1, 3)));
}

#[test]
fn selection_edge_inside_atomic_marker_snaps_to_the_whole_atom() {
    let mut buffer = EditBuffer::new("a");
    buffer.insert_reference("[chip]", "<ref/>");
    buffer.insert_text("z");
    let measured_lines = lines(buffer.text());
    buffer.set_cursor_visual_row(0, 1, 80, &measured_lines);
    buffer.extend_selection_visual_row(0, 3, 80, &measured_lines);
    assert_eq!(buffer.atom_ranges().as_slice(), &[(1, 7)]);
    assert_eq!(buffer.selection(), Some((1, 7)));
    assert_eq!(buffer.selected_text(), Some("[chip]"));
}

#[test]
fn editor_typing_newline_join_and_value() {
    let mut editor = EditBuffer::new("ab");
    press(&mut editor, Key::Enter);
    press(&mut editor, Key::Char('c'));
    assert_eq!(editor.text(), "ab\nc");
    press(&mut editor, Key::Home);
    press(&mut editor, Key::Backspace);
    assert_eq!(editor.text(), "abc");
}

#[test]
fn editor_readline_chords_edit_and_move() {
    let mut editor = EditBuffer::new("alpha beta gamma");
    press(&mut editor, Key::End);
    press(&mut editor, Key::Ctrl('w'));
    assert_eq!(editor.text(), "alpha beta ");
    press(&mut editor, Key::Ctrl('a'));
    press(&mut editor, Key::WordRight);
    press(&mut editor, Key::Ctrl('k'));
    assert_eq!(editor.text(), "alpha");
    press(&mut editor, Key::Char('!'));
    press(&mut editor, Key::WordLeft);
    press(&mut editor, Key::WordLeft);
    press(&mut editor, Key::Ctrl('u'));
    assert_eq!(editor.text(), "alpha!");
    press(&mut editor, Key::Ctrl('e'));
    press(&mut editor, Key::ShiftEnter);
    press(&mut editor, Key::Char('x'));
    assert_eq!(editor.text(), "alpha!\nx");
    press(&mut editor, Key::Up);
    press(&mut editor, Key::End);
    press(&mut editor, Key::Ctrl('k'));
    assert_eq!(editor.text(), "alpha!x");
}

#[test]
fn input_readline_chords_edit_and_move() {
    let mut input = EditBuffer::new("one two three");
    press(&mut input, Key::Ctrl('e'));
    press(&mut input, Key::Ctrl('w'));
    assert_eq!(input.text(), "one two ");
    press(&mut input, Key::WordLeft);
    press(&mut input, Key::Ctrl('k'));
    assert_eq!(input.text(), "one ");
    press(&mut input, Key::Ctrl('u'));
    assert_eq!(input.text(), "");
}

#[test]
fn editor_horizontal_motion_wraps_across_lines() {
    let mut editor = EditBuffer::new("ab");
    press(&mut editor, Key::Enter);
    press(&mut editor, Key::Char('c'));
    press(&mut editor, Key::Home);
    press(&mut editor, Key::Left);
    press(&mut editor, Key::Char('X'));
    assert_eq!(editor.text(), "abX\nc");
    press(&mut editor, Key::Right);
    press(&mut editor, Key::Char('Y'));
    assert_eq!(editor.text(), "abX\nYc");
}

#[test]
fn editor_word_motion_crosses_line_boundaries() {
    let mut editor = EditBuffer::new("alpha beta");
    press(&mut editor, Key::Enter);
    press(&mut editor, Key::Char('c'));
    press(&mut editor, Key::Home);
    press(&mut editor, Key::WordLeft);
    press(&mut editor, Key::Char('X'));
    assert_eq!(editor.text(), "alpha betaX\nc");
    press(&mut editor, Key::End);
    press(&mut editor, Key::WordRight);
    press(&mut editor, Key::Char('Y'));
    assert_eq!(editor.text(), "alpha betaX\nYc");
}

#[test]
fn editor_delete_removes_forward_and_joins_lines() {
    let mut editor = EditBuffer::new("ab");
    press(&mut editor, Key::Home);
    press(&mut editor, Key::Delete);
    assert_eq!(editor.text(), "b");
    press(&mut editor, Key::End);
    press(&mut editor, Key::Enter);
    press(&mut editor, Key::Char('c'));
    press(&mut editor, Key::Up);
    press(&mut editor, Key::End);
    press(&mut editor, Key::Delete);
    assert_eq!(editor.text(), "bc");
}

#[test]
fn editor_wheel_scrolls_visible_rows_without_moving_cursor() {
    let mut editor = EditBuffer::new("one\ntwo\nthree\nfour");
    let shown = |editor: &mut EditBuffer| {
        rows(editor, 30, 2).iter().map(|row| row.text.clone()).collect::<Vec<String>>()
    };
    assert_eq!(shown(&mut editor), vec!["three", "four"]);
    let cursor = editor.cursor();
    let measured = lines(editor.text());
    assert!(editor.scroll_rows(-1, 30, 2, &measured));
    assert_eq!(shown(&mut editor), vec!["two", "three"]);
    assert_eq!(editor.cursor(), cursor);
}

#[test]
fn editor_pi_word_motion_keeps_joined_words_together() {
    let mut editor = EditBuffer::new("foo-bar baz");
    press(&mut editor, Key::WordLeft);
    press(&mut editor, Key::WordLeft);
    press(&mut editor, Key::Char('X'));
    assert_eq!(editor.text(), "Xfoo-bar baz");
}

#[test]
fn editor_pi_word_deletes_merge_logical_lines() {
    let mut editor = EditBuffer::new("first\nsecond");
    press(&mut editor, Key::Home);
    press(&mut editor, Key::Ctrl('w'));
    assert_eq!(editor.text(), "firstsecond");

    let mut editor = EditBuffer::new("first\nsecond");
    press(&mut editor, Key::Up);
    press(&mut editor, Key::End);
    press(&mut editor, Key::WordDelete);
    assert_eq!(editor.text(), "firstsecond");
}

#[test]
fn editor_vertical_motion_preserves_sticky_column_and_snaps_at_top() {
    let mut editor = EditBuffer::new("abcdef\nx\nabcdef");
    press(&mut editor, Key::Home);
    for _ in 0..5 {
        press(&mut editor, Key::Right);
    }
    press(&mut editor, Key::Up);
    press(&mut editor, Key::Up);
    assert_eq!(column(&editor), (0, 5));
    press(&mut editor, Key::Up);
    assert_eq!(column(&editor), (0, 0));
    assert_eq!(press(&mut editor, Key::Up), BufferOutcome::Ignored, "Up is released at the top");
    assert_eq!(column(&editor), (0, 0));
}

#[test]
fn editor_without_submit_inserts_newline_on_enter() {
    let mut editor = EditBuffer::new("line");
    assert_eq!(press(&mut editor, Key::Enter), BufferOutcome::Changed);
    assert_eq!(editor.text(), "line\n");
}

#[test]
fn widget_editor_delegates_power_editing_and_visual_motion_to_edit_buffer() {
    let mut editor = EditBuffer::new("alpha beta gamma");
    press_in(&mut editor, Key::Ctrl('w'), 9, 3);
    press_in(&mut editor, Key::Ctrl('w'), 9, 3);
    press_in(&mut editor, Key::Ctrl('y'), 9, 3);
    assert_eq!(editor.text(), "alpha beta gamma");
    press_in(&mut editor, Key::Ctrl('-'), 9, 3);
    assert_eq!(editor.text(), "alpha ");

    editor.replace_external("abcdef abcdef abcdef\nx\nabcdef", true);
    press_in(&mut editor, Key::Ctrl(']'), 9, 3);
    press_in(&mut editor, Key::Char('f'), 9, 3);
    assert_eq!(editor.cursor(), 5);
    press_in(&mut editor, Key::PageDown, 9, 10);
    assert!(editor.cursor_line() >= 1, "page motion crosses wrapped visual rows");
}

#[test]
fn transient_text_is_replaced_and_committed_as_one_edit() {
    let mut buffer = EditBuffer::new("say ");
    let range = buffer.replace_transient_range(4, 4, "hel");
    assert_eq!((range, buffer.text()), ((4, 7), "say hel"));
    let range = buffer.replace_transient_range(range.0, range.1, "hello");
    assert_eq!((range, buffer.text()), ((4, 9), "say hello"));
    buffer.commit_transient_range(range.0, range.1, "hello!");
    assert_eq!(buffer.text(), "say hello!");
    press(&mut buffer, Key::Ctrl('-'));
    assert_eq!(buffer.text(), "say ");
    press(&mut buffer, Key::Home);
    buffer.restore_cursor_offset(2);
    assert_eq!(buffer.cursor(), 2);
    buffer.restore_cursor_offset(9);
    assert_eq!(buffer.cursor(), 4, "the cursor stays inside the text");
}

#[test]
fn look_alikes_are_no_references() {
    let mut buffer = EditBuffer::new("");
    buffer.insert_reference("[one]", "<one/>");
    buffer.insert_text(" [one]");
    assert_eq!(buffer.atom_ranges().as_slice(), &[(0, 5)]);
    assert_eq!(buffer.expanded_text(), "<one/> [one]");
    place(&mut buffer, 0, 0);
    buffer.insert_text("see ");
    assert_eq!(buffer.atom_ranges().as_slice(), &[(4, 9)]);
    assert_eq!(buffer.expanded_text(), "see <one/> [one]");
}

#[test]
fn buffers_count_and_list_their_lines() {
    let mut buffer = EditBuffer::new("one\n\nthree");
    assert_eq!(buffer.line_count(), 3);
    assert_eq!(buffer.logical_lines(), vec!["one", "", "three"]);
    buffer.select_all();
    assert_eq!(buffer.selected_text(), Some("one\n\nthree"));
    buffer.clear_selection();
    assert_eq!(buffer.selected_text(), None);
    assert_eq!(EditBuffer::new("").logical_lines(), vec![""]);
}

#[test]
fn buffer_rows_keep_the_cursor_in_view_and_fit_their_width() {
    let mut buffer = EditBuffer::new("alpha beta\n界界界\ntail");
    place(&mut buffer, 0, 0);
    let around = measured(&buffer);
    let shown = buffer.rows(5, 3, &around);
    assert_eq!(row_texts(&shown), ["alpha", "beta", "界界"]);
    assert_eq!(shown[0].cursor_column, Some(0));
    assert!(shown.windows(2).all(|pair| pair[0].end <= pair[1].start));

    // A cluster wider than the row stands alone.
    let shown = buffer.rows(1, 16, &around);
    assert!(shown.iter().any(|row| row.text == "界"));
    assert!(shown.iter().all(|row| row.text.chars().count() <= 1));
}
