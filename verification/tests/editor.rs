use omp_tui::commands::{completion_token_end, Command, CommandArgument, SlashCommands};
use omp_tui::completion::{
    tab_plainly, CompletionEdit, EditorCompletion, EditorOptions, Icon, Suggestion,
    SuggestionDisplay, Suggestions, TabAction,
};
use omp_tui::editor::{EditOutcome, Editor};
use omp_tui::emoji::EmojiEntry;
use omp_tui::input::Key;
use omp_tui::layout::{Glyph, Measured};

fn joins(c: char, previous: char) -> bool {
    ('\u{300}'..='\u{36f}').contains(&c)
        || c == '\u{200d}'
        || c == '\u{fe0f}'
        || previous == '\u{200d}'
}

fn cells(c: char) -> u16 {
    if c.is_control() {
        0
    } else if ('\u{2e80}'..='\u{a4cf}').contains(&c) || c >= '\u{1f000}' {
        2
    } else {
        1
    }
}

fn glyphs(text: &str, from: usize, to: usize) -> Vec<Glyph> {
    let mut glyphs: Vec<Glyph> = Vec::new();
    let mut previous = '\0';
    for (at, c) in text[from..to].char_indices() {
        let end = from + at + c.len_utf8();
        match glyphs.last_mut() {
            Some(last) if joins(c, previous) => last.end = end,
            _ => glyphs.push(Glyph { start: from + at, end, width: cells(c) }),
        }
        previous = c;
    }
    glyphs
}

fn lines(text: &str) -> Vec<Vec<Glyph>> {
    let mut from = 0;
    text.split('\n')
        .map(|line| {
            let start = from;
            from += line.len() + 1;
            glyphs(text, start, start + line.len())
        })
        .collect()
}

fn measured<C: EditorCompletion>(editor: &Editor<C>) -> Measured {
    let text = editor.text();
    let cursor = editor.buffer.cursor();
    Measured {
        before: glyphs(text, 0, cursor),
        after: glyphs(text, cursor, text.len()),
        lines: lines(text),
    }
}

fn press<C: EditorCompletion>(editor: &mut Editor<C>, key: Key) -> EditOutcome {
    let around = measured(editor);
    editor.handle(key, &around)
}

fn press_key<C: EditorCompletion>(editor: &mut Editor<C>, key: Key) -> EditOutcome {
    let around = measured(editor);
    editor.handle_key(key, &around)
}

fn place<C: EditorCompletion>(editor: &mut Editor<C>, line: usize, column: u16) {
    let measured = lines(editor.text());
    editor.buffer.set_cursor_line_column(line, column, &measured);
}

fn column<C: EditorCompletion>(editor: &Editor<C>) -> (usize, u16) {
    let before = glyphs(editor.text(), 0, editor.buffer.cursor());
    (editor.buffer.cursor_line(), editor.buffer.cursor_column(&before))
}

fn view_rows<C: EditorCompletion>(
    editor: &mut Editor<C>,
    width: u16,
    rows: usize,
) -> Vec<(String, Option<u16>)> {
    let around = measured(editor);
    editor
        .view_rows(width, rows, &around)
        .into_iter()
        .map(|row| (row.text, row.cursor_column))
        .collect()
}

fn navigates<C: EditorCompletion>(editor: &Editor<C>, key: Key) -> bool {
    let measured = lines(editor.text());
    editor.history_navigates(key, &measured)
}

/// Small palette with enough shape for ranking-sensitive expectations.
fn palette() -> Vec<Command> {
    let arg = |name: &str, about: &str, usage: &str| {
        (name.to_string(), about.to_string(), usage.to_string())
    };
    vec![
        Command::new("security", "Plan, run, inspect, and compare security scans", Vec::new())
            .with_args(vec![
                arg("plan", "Draft a scan plan", ""),
                arg("import", "Import an external report", "<path>"),
                arg("compare", "Diff two runs", "<run-a> <run-b>"),
            ])
            .with_hint("plan|import|compare"),
        Command::new("settings", "Open settings menu", Vec::new()),
        Command::new("setup", "Open provider setup", vec!["providers".to_string()]),
    ]
}

fn emojis() -> Vec<EmojiEntry> {
    [("joy", "😂"), ("joy_cat", "😹"), ("smile", "😄"), ("tada", "🎉")]
        .iter()
        .map(|(name, emoji)| EmojiEntry { name: name.to_string(), emoji: emoji.to_string() })
        .collect()
}

fn bare(options: EditorOptions) -> Editor<SlashCommands> {
    let mut editor = Editor::new(options);
    editor.set_emojis(emojis());
    editor
}

fn with_commands(commands: Vec<Command>) -> Editor<SlashCommands> {
    let mut editor = bare(EditorOptions::default());
    editor.set_completion(SlashCommands::new(commands));
    editor
}

fn make_editor() -> Editor<SlashCommands> {
    with_commands(palette())
}

fn type_text<C: EditorCompletion>(editor: &mut Editor<C>, text: &str) {
    for character in text.chars() {
        assert_eq!(press_key(editor, Key::Char(character)), EditOutcome::Changed);
    }
}

fn values<C: EditorCompletion>(editor: &Editor<C>) -> Vec<String> {
    editor
        .picker()
        .expect("candidates open")
        .suggestions
        .iter()
        .map(|item| item.value().clone())
        .collect()
}

fn selected_text<C: EditorCompletion>(editor: &Editor<C>) -> String {
    let picker = editor.picker().expect("candidates open");
    match picker.suggestions[picker.selected()].display() {
        SuggestionDisplay::Text(text) => text.clone(),
        other => panic!("unexpected row {other:?}"),
    }
}

fn submitted(text: &str) -> EditOutcome {
    EditOutcome::Submitted(text.to_string())
}

#[test]
fn command_picker_navigates_and_inserts_a_trailing_space() {
    let mut editor = make_editor();
    type_text(&mut editor, "/");
    assert_eq!(press_key(&mut editor, Key::Down), EditOutcome::Changed);
    assert_eq!(press_key(&mut editor, Key::Tab), EditOutcome::Changed);
    assert_eq!(editor.text(), "/settings ");
}

#[test]
fn right_arrow_at_logical_line_end_accepts_the_selected_completion() {
    let mut editor = make_editor();
    type_text(&mut editor, "/se");
    assert_eq!(press_key(&mut editor, Key::Right), EditOutcome::Changed);
    assert_eq!(editor.text(), "/security ");
}

#[test]
fn emoji_popup_stays_suppressed_inside_recognized_slash_arguments() {
    let mut editor = make_editor();
    type_text(&mut editor, "/security :joy");
    assert!(editor.picker().is_none());
    editor.set_text("prose :joy");
    assert!(editor.picker().is_some());
}

#[test]
fn replacement_picker_replaces_the_word_under_the_cursor() {
    let mut editor = bare(EditorOptions::default());
    editor.buffer.replace_external("teh", true);
    editor.refresh();
    assert_eq!(press_key(&mut editor, Key::Right), EditOutcome::Changed);
    assert!(editor.show_replacements(0, 3, &vec!["the".to_string()]));
    assert_eq!(press_key(&mut editor, Key::Enter), EditOutcome::Changed);
    assert_eq!(editor.text(), "the");
}

#[test]
fn replacement_picker_preserves_caret_after_trailing_boundary() {
    let mut editor = bare(EditorOptions::default());
    editor.buffer.replace_external("teh ", false);
    editor.refresh();
    assert!(editor.show_replacements(0, 3, &vec!["the".to_string()]));
    assert_eq!(press_key(&mut editor, Key::Tab), EditOutcome::Changed);
    assert_eq!(editor.text(), "the ");
    assert_eq!(editor.buffer.cursor(), 4);
}

/// Toy engine: `@` mentions with any-key trigger, a fixed ghost
/// completion after `hel`, and Tab materializing that ghost text.
struct AtNames;

impl EditorCompletion for AtNames {
    fn suggest(&mut self, text: &str, cursor: usize) -> Option<Suggestions> {
        let before = &text[..cursor];
        let at = before.rfind('@')?;
        let query = &before[at + 1..];
        let items: Vec<Suggestion> = ["alice", "bob"]
            .iter()
            .filter(|name| !query.is_empty() && name.starts_with(query))
            .map(|name| Suggestion::new(&format!("@{name} "), name))
            .collect();
        if items.is_empty() {
            None
        } else {
            Some(Suggestions { start: at, end: completion_token_end(text, cursor), items })
        }
    }

    fn hint(&mut self, text: &str, cursor: usize) -> Option<String> {
        if text[..cursor].ends_with("hel") {
            Some("lo world".to_string())
        } else {
            None
        }
    }

    fn tab(&mut self, text: &str, cursor: usize, selected: Option<&Suggestion>) -> TabAction {
        // with our dropdown open, Tab belongs to the app (focus switch)
        if selected.is_some() {
            return TabAction::Pass;
        }
        match self.hint(text, cursor) {
            Some(insert) => TabAction::Edit(CompletionEdit { start: cursor, end: cursor, insert }),
            None => TabAction::Pass,
        }
    }

    fn allow_builtin_emoji(&mut self, _text: &str, _cursor: usize) -> bool {
        true
    }

    fn accepted(&mut self, _replaced: &str, _suggestion: &Suggestion) {}
}

#[test]
fn completion_replaces_text_after_the_cursor() {
    let mut editor = Editor::new(EditorOptions::default());
    editor.set_completion(AtNames);
    type_text(&mut editor, "@alicex");
    assert_eq!(press_key(&mut editor, Key::Left), EditOutcome::Changed);
    assert!(editor.picker().is_some(), "exact prefix reopens the picker");
    assert_eq!(press_key(&mut editor, Key::Enter), EditOutcome::Changed);
    assert_eq!(editor.text(), "@alice ");
}

/// Engine claiming a range that no longer contains the cursor (stale
/// async rows): the dropdown must stay open on the clamped span.
struct StaleRange;

impl EditorCompletion for StaleRange {
    fn suggest(&mut self, text: &str, _cursor: usize) -> Option<Suggestions> {
        if text.is_empty() {
            None
        } else {
            Some(Suggestions { start: 0, end: 0, items: vec![Suggestion::new("value", "value")] })
        }
    }

    fn hint(&mut self, _text: &str, _cursor: usize) -> Option<String> {
        None
    }

    fn tab(&mut self, _text: &str, _cursor: usize, selected: Option<&Suggestion>) -> TabAction {
        tab_plainly(selected.is_some())
    }

    fn allow_builtin_emoji(&mut self, _text: &str, _cursor: usize) -> bool {
        true
    }

    fn accepted(&mut self, _replaced: &str, _suggestion: &Suggestion) {}
}

#[test]
fn degenerate_completion_range_is_clamped_not_hidden() {
    let mut editor = Editor::new(EditorOptions::default());
    editor.set_completion(StaleRange);
    type_text(&mut editor, "ab");
    assert!(editor.picker().is_some(), "degenerate range keeps the dropdown open");
    assert_eq!(press_key(&mut editor, Key::Enter), EditOutcome::Changed);
    assert!(editor.text().starts_with("value"), "{}", editor.text());
}

#[test]
fn stale_async_picker_snapshot_never_overwrites_a_newer_buffer_or_caret() {
    let mut editor = make_editor();
    type_text(&mut editor, "/se");
    assert!(editor.picker().is_some());
    // Model an async request that completed for `/se` while an input
    // mutation advanced without installing a replacement result.
    editor.buffer.replace_external("keep this", true);
    assert_eq!(press_key(&mut editor, Key::Tab), EditOutcome::Changed);
    assert_eq!(editor.text(), "keep this");
    assert_eq!(editor.buffer.cursor(), 0);

    // An ABA query can have the same text and caret as an old result.
    // Generation identity still prevents that result being accepted.
    editor.set_text("/se");
    let stale = editor.picker.take().expect("matching picker");
    editor.set_text("other");
    editor.set_text("/se");
    editor.picker = Some(stale);
    assert_eq!(press_key(&mut editor, Key::Enter), EditOutcome::Changed);
    assert_eq!(editor.text(), "/se");
    assert_eq!(editor.buffer.cursor(), 3);
}

/// `#N` references.
struct HashRefs;

impl EditorCompletion for HashRefs {
    fn suggest(&mut self, text: &str, cursor: usize) -> Option<Suggestions> {
        let hash = text[..cursor].rfind('#')?;
        let digits = &text[hash + 1..cursor];
        if !digits.is_empty() && digits.bytes().all(|byte| byte.is_ascii_digit()) {
            Some(Suggestions {
                start: hash,
                end: cursor,
                items: vec![Suggestion::new("pr://1 ", "pr #1")],
            })
        } else {
            None
        }
    }

    fn hint(&mut self, _text: &str, _cursor: usize) -> Option<String> {
        None
    }

    fn tab(&mut self, _text: &str, _cursor: usize, selected: Option<&Suggestion>) -> TabAction {
        tab_plainly(selected.is_some())
    }

    fn allow_builtin_emoji(&mut self, _text: &str, _cursor: usize) -> bool {
        true
    }

    fn accepted(&mut self, _replaced: &str, _suggestion: &Suggestion) {}
}

/// A `#N` chip marker looks like a `#<number>` reference trigger, but the
/// engine's range would tear the atom on accept: no dropdown opens over
/// it, and the same key still removes the whole chip.
#[test]
fn completion_never_opens_over_an_atomic_marker() {
    let mut editor = Editor::new(EditorOptions::default());
    editor.set_completion(HashRefs);
    let chip = "\u{f15c} #1";
    let references = vec![(chip.to_owned(), "payload".to_owned())];
    editor.insert_reference_group(&references, " ");
    assert_eq!(editor.text(), format!("{chip} "));
    assert_eq!(press_key(&mut editor, Key::Backspace), EditOutcome::Changed);
    assert_eq!(editor.text(), chip);
    assert!(editor.picker().is_none(), "the chip's `#1` is not a reference token");
    assert_eq!(press_key(&mut editor, Key::Backspace), EditOutcome::Changed);
    assert_eq!(editor.text(), "");
    // Ordinary text after the chip still completes.
    editor.insert_reference_group(&references, " ");
    type_text(&mut editor, "#2");
    assert!(editor.picker().is_some(), "a typed reference after the chip completes");
}

#[test]
fn command_frequency_breaks_equal_text_score_ties() {
    let mut editor = bare(EditorOptions::default());
    editor.set_completion(SlashCommands::new(palette()).with_usage(vec![0, 4, 0]));
    type_text(&mut editor, "/se");
    let picker = editor.picker().expect("command candidates open");
    assert_eq!(picker.suggestions[picker.selected()].value(), "/settings ");
}

const SKILL: Icon = Icon(7);

#[test]
fn skill_namespace_collapses_then_chains_to_individual_skills() {
    let mut editor = with_commands(vec![
        Command::new("settings", "Open settings", Vec::new()),
        Command::new("skill:review", "Review code", Vec::new()).with_icon(SKILL),
        Command::new("skill:test", "Run focused tests", Vec::new()).with_icon(SKILL),
    ]);
    type_text(&mut editor, "/");
    let offered = values(&editor);
    assert!(offered.iter().any(|value| value == "/skill:"), "collapsed namespace is offered");
    assert!(
        offered.iter().all(|value| !value.starts_with("/skill:") || value == "/skill:"),
        "individual skills stay collapsed"
    );

    type_text(&mut editor, "skill:");
    assert_eq!(values(&editor), ["/skill:review ", "/skill:test "]);
    let picker = editor.picker().expect("skill candidates expand");
    assert!(picker.suggestions.iter().all(|item| item.icon() == Some(SKILL)));
}

#[test]
fn accepting_skill_namespace_reopens_completion_without_a_space() {
    let mut editor = with_commands(vec![Command::new("skill:review", "Review code", Vec::new())]);
    type_text(&mut editor, "/");
    assert_eq!(press_key(&mut editor, Key::Enter), EditOutcome::Changed);
    assert_eq!(editor.text(), "/skill:");
    assert_eq!(editor.picker().expect("skill candidates reopen").len(), 1);
}

#[test]
fn bare_skill_prefix_breaks_out_above_fuzzy_commands() {
    let mut editor = with_commands(vec![
        Command::new("skill:batch", "Run batch workflows", Vec::new()),
        Command::new("skill:refactor", "Review code", Vec::new()),
        Command::new("run-batch", "Run a saved batch job", Vec::new()),
    ]);
    type_text(&mut editor, "/batch");
    assert_eq!(values(&editor), ["/skill:batch ", "/run-batch "]);
}

#[test]
fn bare_skill_prefix_alias_tie_keeps_command_only() {
    let mut editor = with_commands(vec![
        Command::new("skill:setup-ci", "Bootstrap CI pipelines", Vec::new()),
        Command::new("configure", "Open settings", vec!["settings".to_string()]),
    ]);
    type_text(&mut editor, "/set");
    assert_eq!(values(&editor), ["/settings "]);
}

#[test]
fn exact_bare_skill_breaks_out_above_command_prefix() {
    let mut editor = with_commands(vec![
        Command::new("skill:set", "Set tracked values", Vec::new()),
        Command::new("settings", "Open settings", Vec::new()),
    ]);
    type_text(&mut editor, "/set");
    assert_eq!(values(&editor), ["/skill:set ", "/settings "]);
}

#[test]
fn fuzzy_only_bare_skill_does_not_break_out() {
    let mut editor =
        with_commands(vec![Command::new("skill:humanizer", "Remove signs of writing", Vec::new())]);
    type_text(&mut editor, "/hmz");
    assert!(editor.picker().is_none());
}

#[test]
fn command_picker_defaults_to_ten_visible_suggestions() {
    let commands = (0..12)
        .map(|index| Command::new(&format!("command-{index}"), "command", Vec::new()))
        .collect::<Vec<_>>();
    let mut editor = with_commands(commands);
    type_text(&mut editor, "/");
    let picker = editor.picker().expect("command candidates open");
    assert_eq!(picker.visible_suggestions().1.len(), 10);
}

#[test]
fn enter_submits_a_command_straight_from_the_name_picker() {
    let mut editor = make_editor();
    type_text(&mut editor, "/settings");
    assert!(editor.picker().is_some());
    assert_eq!(press_key(&mut editor, Key::Enter), submitted("/settings "));
}

#[test]
fn enter_submits_a_bare_command_that_takes_optional_arguments() {
    let mut editor = make_editor();
    type_text(&mut editor, "/security");
    assert!(editor.picker().is_some());
    assert_eq!(press_key(&mut editor, Key::Enter), submitted("/security "));
}

#[test]
fn exact_argument_enter_accepts_once_then_submits() {
    let mut editor = make_editor();
    type_text(&mut editor, "/security plan");
    assert!(editor.picker().is_some());
    assert_eq!(press_key(&mut editor, Key::Enter), EditOutcome::Changed);
    assert_eq!(editor.text(), "/security plan ");
    assert!(editor.picker().is_none());
    assert_eq!(press_key(&mut editor, Key::Enter), submitted("/security plan "));
}

#[test]
fn options_gate_emoji_history_and_xml() {
    // no completion registered: `/` never opens a dropdown
    let mut editor = bare(EditorOptions::default());
    type_text(&mut editor, "/se");
    assert!(editor.picker().is_none(), "no completion registered");
    assert!(editor.inline_hint().is_none());

    let mut editor = bare(EditorOptions { emoji: false, ..EditorOptions::default() });
    type_text(&mut editor, ":joy");
    assert!(editor.picker().is_none(), "emoji dropdown disabled");
    type_text(&mut editor, ": ");
    assert_eq!(editor.text(), ":joy: ", "shortcode expansion disabled");

    let mut editor = bare(EditorOptions { history: false, ..EditorOptions::default() });
    type_text(&mut editor, "one");
    assert_eq!(press(&mut editor, Key::Enter), submitted("one"));
    assert_eq!(press(&mut editor, Key::Up), EditOutcome::Ignored, "history disabled");

    let mut editor = bare(EditorOptions { xml: false, ..EditorOptions::default() });
    type_text(&mut editor, "<a></");
    assert_eq!(editor.text(), "<a></", "close-tag completion disabled");
}

#[test]
fn argument_completion_inside_a_slash_command() {
    let mut editor = make_editor();
    type_text(&mut editor, "/security i");
    assert_eq!(selected_text(&editor), "import");
    assert_eq!(press_key(&mut editor, Key::Enter), EditOutcome::Changed);
    assert_eq!(editor.text(), "/security import ");
    // second word is free-form: no picker re-opens
    assert!(editor.picker().is_none());
}

#[test]
fn colon_delimiter_opens_subcommand_completion() {
    let mut editor = make_editor();
    type_text(&mut editor, "/security:im");
    assert_eq!(selected_text(&editor), "import");
    assert_eq!(editor.inline_hint().as_deref(), Some("port <path>"));
}

#[test]
fn inline_hint_follows_selection_arguments_and_usage() {
    let mut editor = make_editor();
    type_text(&mut editor, "/sec");
    assert_eq!(editor.inline_hint().as_deref(), Some("plan|import|compare"));
    assert_eq!(press_key(&mut editor, Key::Tab), EditOutcome::Changed);
    assert_eq!(editor.text(), "/security ");
    // bare `/name ` ghosts the command usage, picker open or not
    assert_eq!(editor.inline_hint().as_deref(), Some("plan|import|compare"));
    // typing an argument prefix ghosts the remaining name + its usage
    type_text(&mut editor, "im");
    assert_eq!(editor.inline_hint().as_deref(), Some("port <path>"));
    // accepting the argument ghosts its remaining usage
    assert_eq!(press_key(&mut editor, Key::Enter), EditOutcome::Changed);
    assert_eq!(editor.text(), "/security import ");
    assert_eq!(editor.inline_hint().as_deref(), Some("<path>"));
    // usage words already typed stop ghosting
    type_text(&mut editor, "report.json");
    assert_eq!(editor.inline_hint(), None);
    // Multi-word usages ghost only the remainder; whole and in-progress
    // words count alike.
    let mut compare = make_editor();
    type_text(&mut compare, "/security compare one");
    assert_eq!(compare.inline_hint().as_deref(), Some("<run-b>"));
    type_text(&mut compare, " two");
    assert_eq!(compare.inline_hint(), None, "usage fully consumed");
}

#[test]
fn emoji_picker_and_shortcode_use_the_same_dataset() {
    let mut picker_editor = make_editor();
    type_text(&mut picker_editor, ":joy");
    let picker = picker_editor.picker().expect("joy opens the picker");
    assert!(matches!(
        picker.suggestions[picker.selected()].display(),
        SuggestionDisplay::Emoji { emoji, shortcode } if emoji == "😂" && shortcode == "joy"
    ));
    assert_eq!(press_key(&mut picker_editor, Key::Enter), EditOutcome::Changed);
    assert_eq!(picker_editor.text(), "😂");

    let mut shortcode_editor = make_editor();
    type_text(&mut shortcode_editor, ":joy:");
    assert_eq!(shortcode_editor.text(), "😂");
}

#[test]
fn emoticon_replacement_is_unicode_boundary_safe() {
    let mut editor = make_editor();
    type_text(&mut editor, "é:) ");
    assert_eq!(editor.text(), "é:) ");
}

#[test]
fn submit_expands_a_complete_emoticon_without_a_trailing_space() {
    let mut editor = make_editor();
    type_text(&mut editor, "hello :)");
    assert_eq!(press_key(&mut editor, Key::Enter), submitted("hello 🙂"));
}

#[test]
fn cursor_navigation_and_backspace_preserve_graphemes() {
    let mut editor = make_editor();
    type_text(&mut editor, "a👩‍💻b");
    assert_eq!(press_key(&mut editor, Key::Left), EditOutcome::Changed);
    assert_eq!(press_key(&mut editor, Key::Backspace), EditOutcome::Changed);
    assert_eq!(editor.text(), "ab");
}

#[test]
fn shift_enter_adds_lines_and_vertical_navigation_preserves_column() {
    let mut editor = make_editor();
    type_text(&mut editor, "first");
    assert_eq!(press_key(&mut editor, Key::ShiftEnter), EditOutcome::Changed);
    type_text(&mut editor, "second");

    assert_eq!(editor.text(), "first\nsecond");
    let measured_lines = lines(editor.text());
    assert_eq!(editor.input_height_for(80, &measured_lines), 2);
    assert_eq!(
        view_rows(&mut editor, 20, 8),
        [("first".to_string(), None), ("second".to_string(), Some(6))]
    );

    assert_eq!(press_key(&mut editor, Key::Up), EditOutcome::Changed);
    assert_eq!(view_rows(&mut editor, 20, 8)[0].1, Some(5));
    assert_eq!(press_key(&mut editor, Key::Down), EditOutcome::Changed);
    assert_eq!(view_rows(&mut editor, 20, 8)[1].1, Some(6));

    assert_eq!(press_key(&mut editor, Key::Enter), submitted("first\nsecond"));
}

#[test]
fn slash_commands_complete_at_the_start_of_later_lines() {
    let mut editor = make_editor();
    type_text(&mut editor, "context");
    press_key(&mut editor, Key::ShiftEnter);
    type_text(&mut editor, "/set");

    assert!(editor.picker().is_some());
    assert_eq!(press_key(&mut editor, Key::Enter), EditOutcome::Changed);
    assert_eq!(editor.text(), "context\n/settings ");
}

#[test]
fn control_a_e_and_u_are_scoped_to_logical_lines() {
    let mut editor = make_editor();
    assert_eq!(editor.insert_text("one\ntwo"), EditOutcome::Changed);
    assert_eq!(press_key(&mut editor, Key::Ctrl('a')), EditOutcome::Changed);
    assert_eq!(editor.buffer.cursor(), 4);
    assert_eq!(press_key(&mut editor, Key::Ctrl('e')), EditOutcome::Changed);
    assert_eq!(editor.buffer.cursor(), 7);
    // Ctrl-U kills only to this line's start, rather than clearing the document.
    assert_eq!(press_key(&mut editor, Key::Ctrl('u')), EditOutcome::Changed);
    assert_eq!(editor.text(), "one\n");
    assert_eq!(press_key(&mut editor, Key::Ctrl('u')), EditOutcome::Changed);
    assert_eq!(editor.text(), "one");
}

#[test]
fn word_motion_keeps_apostrophes_and_hyphens_inside_words() {
    let mut editor = make_editor();
    editor.insert_text("don't foo-bar");
    assert_eq!(press(&mut editor, Key::WordLeft), EditOutcome::Changed);
    assert_eq!(editor.buffer.cursor(), 6);
    assert_eq!(press(&mut editor, Key::WordLeft), EditOutcome::Changed);
    assert_eq!(editor.buffer.cursor(), 0);
    assert_eq!(press(&mut editor, Key::WordRight), EditOutcome::Changed);
    assert_eq!(editor.buffer.cursor(), 5);
}

#[test]
fn word_deletes_merge_logical_lines() {
    let mut editor = make_editor();
    editor.insert_text("first\nsecond");
    press(&mut editor, Key::Ctrl('a'));
    assert_eq!(press(&mut editor, Key::Ctrl('w')), EditOutcome::Changed);
    assert_eq!(editor.text(), "firstsecond");

    let mut forward = make_editor();
    forward.insert_text("first\nsecond");
    place(&mut forward, 0, 5);
    assert_eq!(press(&mut forward, Key::WordDelete), EditOutcome::Changed);
    assert_eq!(forward.text(), "firstsecond");
}

#[test]
fn vertical_motion_snaps_at_document_boundaries_before_ignoring() {
    let mut editor = make_editor();
    editor.insert_text("abc");
    assert_eq!(press(&mut editor, Key::Up), EditOutcome::Changed);
    assert_eq!(editor.buffer.cursor(), 0);
    assert_eq!(press(&mut editor, Key::Up), EditOutcome::Ignored);
    assert_eq!(press(&mut editor, Key::Down), EditOutcome::Changed);
    assert_eq!(editor.buffer.cursor(), 3);
    assert_eq!(press(&mut editor, Key::Down), EditOutcome::Ignored);
}

#[test]
fn kill_ring_accumulates_yanks_and_cycles_older_entries() {
    let mut editor = make_editor();
    type_text(&mut editor, "alpha beta gamma");
    press(&mut editor, Key::Ctrl('w'));
    press(&mut editor, Key::Ctrl('w'));
    assert_eq!(press(&mut editor, Key::Ctrl('y')), EditOutcome::Changed);
    assert_eq!(editor.text(), "alpha beta gamma");
    press(&mut editor, Key::Space);
    type_text(&mut editor, "older");
    press(&mut editor, Key::Ctrl('w'));
    assert_eq!(press(&mut editor, Key::Ctrl('y')), EditOutcome::Changed);
    assert_eq!(press(&mut editor, Key::Alt('y')), EditOutcome::Changed);
    assert!(editor.text().ends_with("beta gamma"));
}

#[test]
fn undo_coalesces_non_whitespace_typing_and_splits_at_spaces() {
    let mut editor = make_editor();
    type_text(&mut editor, "abc.def ghi");
    assert_eq!(press(&mut editor, Key::Ctrl('-')), EditOutcome::Changed);
    assert_eq!(editor.text(), "abc.def ");
    assert_eq!(press(&mut editor, Key::Ctrl('_')), EditOutcome::Changed);
    assert_eq!(editor.text(), "abc.def");
    assert_eq!(press(&mut editor, Key::Ctrl('-')), EditOutcome::Changed);
    assert_eq!(editor.text(), "");
}

#[test]
fn history_deduplicates_navigates_and_restores_the_draft() {
    let mut editor = make_editor();
    type_text(&mut editor, "one");
    assert_eq!(press(&mut editor, Key::Enter), submitted("one"));
    type_text(&mut editor, "two");
    assert_eq!(press(&mut editor, Key::Enter), submitted("two"));
    type_text(&mut editor, "one");
    press(&mut editor, Key::Enter);
    assert_eq!(editor.history.len(), 2);
    assert_eq!(press(&mut editor, Key::Up), EditOutcome::Changed);
    assert_eq!(editor.text(), "one");
    assert_eq!(press(&mut editor, Key::Up), EditOutcome::Changed);
    assert_eq!(editor.text(), "two");
    editor.history_draft = "draft".into();
    press(&mut editor, Key::End);
    assert_eq!(press(&mut editor, Key::Down), EditOutcome::Changed);
    assert_eq!(press(&mut editor, Key::Down), EditOutcome::Changed);
    assert_eq!(editor.text(), "draft");
}

#[test]
fn host_recorded_and_seeded_history_drives_up_down_navigation() {
    // The host records what it actually sent; a resumed session seeds
    // newest-first.
    let mut editor = make_editor();
    assert!(!navigates(&editor, Key::Up), "nothing recorded yet");
    let prompts: Vec<String> =
        ["older", "  ", "newest", "older"].iter().map(|prompt| prompt.to_string()).collect();
    editor.seed_history(&prompts);
    assert_eq!(editor.history, ["older", "newest"]);
    editor.add_to_history("  older ");
    assert_eq!(editor.history, ["older", "newest"]);
    editor.add_to_history("");
    assert_eq!(editor.history.len(), 2);
    assert!(navigates(&editor, Key::Up));
    assert!(!navigates(&editor, Key::Down), "not browsing yet");
    assert_eq!(press(&mut editor, Key::Up), EditOutcome::Changed);
    assert_eq!(editor.text(), "older");
    assert!(navigates(&editor, Key::Up));
    press(&mut editor, Key::End);
    assert!(navigates(&editor, Key::Down));
    assert_eq!(press(&mut editor, Key::Down), EditOutcome::Changed);
    assert_eq!(editor.text(), "");
    // A non-empty draft owns Up unless the editor is already browsing.
    type_text(&mut editor, "draft");
    press(&mut editor, Key::Home);
    assert!(!navigates(&editor, Key::Up));
    // The host replacing the draft leaves browsing mode.
    editor.set_text("");
    press(&mut editor, Key::Up);
    assert_eq!(editor.text(), "older");
    assert_eq!(editor.history_index, Some(0));
    editor.set_text("");
    assert!(editor.history_index.is_none());
    assert_eq!(press(&mut editor, Key::Up), EditOutcome::Changed);
    assert_eq!(editor.text(), "older", "Up restarts from the newest entry");
    // A recalled `/command` never opens the dropdown, so the next Down
    // steps history, not rows.
    editor.set_text("");
    editor.add_to_history("/settings");
    assert_eq!(press(&mut editor, Key::Up), EditOutcome::Changed);
    assert_eq!(editor.text(), "/settings");
    assert!(editor.picker().is_none(), "recall keeps the popup closed");
    press(&mut editor, Key::End);
    assert_eq!(press(&mut editor, Key::Down), EditOutcome::Changed);
    assert_eq!(editor.text(), "");
}

#[test]
fn ctrl_r_fuzzy_search_preserves_draft_and_walks_older_matches() {
    let mut editor = make_editor();
    for prompt in ["fix parser", "write docs", "parser tests"] {
        type_text(&mut editor, prompt);
        press(&mut editor, Key::Enter);
    }
    type_text(&mut editor, "prs");
    assert_eq!(press(&mut editor, Key::Ctrl('r')), EditOutcome::Changed);
    assert_eq!(editor.text(), "parser tests");
    assert_eq!(press(&mut editor, Key::Ctrl('r')), EditOutcome::Changed);
    assert_eq!(editor.text(), "fix parser");
    press(&mut editor, Key::End);
    assert_eq!(press(&mut editor, Key::Down), EditOutcome::Changed);
    assert_eq!(editor.text(), "parser tests");
    press(&mut editor, Key::End);
    assert_eq!(press(&mut editor, Key::Down), EditOutcome::Changed);
    assert_eq!(editor.text(), "prs");
}

#[test]
fn reference_markers_are_atomic_for_every_delete_and_expand_on_submit() {
    let payload = (0..12).map(|n| format!("line{n}")).collect::<Vec<_>>().join("\n");
    for key in [
        Key::Backspace,
        Key::Delete,
        Key::Ctrl('w'),
        Key::WordDelete,
        Key::Ctrl('k'),
        Key::Ctrl('u'),
    ] {
        let mut editor = make_editor();
        editor.insert_reference("txt #1", &payload);
        assert_eq!(editor.text(), "txt #1");
        if matches!(key, Key::Delete | Key::WordDelete | Key::Ctrl('k')) {
            place(&mut editor, 0, 0);
        }
        assert_eq!(press(&mut editor, key), EditOutcome::Changed);
        assert_eq!(editor.text(), "", "{key:?}");
    }
    let mut editor = make_editor();
    editor.insert_reference("txt #1", &payload);
    assert_eq!(press(&mut editor, Key::Enter), EditOutcome::Submitted(payload));
}

#[test]
fn reference_groups_are_one_undoable_drop_action() {
    let mut editor = make_editor();
    let references = vec![
        ("[one]".to_owned(), "<ref one/>".to_owned()),
        ("[two]".to_owned(), "<ref two/>".to_owned()),
    ];
    assert_eq!(editor.insert_reference_group(&references, " "), EditOutcome::Changed);
    assert_eq!(editor.text(), "[one] [two] ");
    assert_eq!(press(&mut editor, Key::Enter), submitted("<ref one/> <ref two/> "));

    let mut editor = make_editor();
    editor.insert_reference_group(&references, " ");
    assert_eq!(press(&mut editor, Key::Ctrl('-')), EditOutcome::Changed);
    assert_eq!(editor.text(), "");
    assert!(editor.atom_ranges().is_empty());
}

#[test]
fn references_are_positional_atoms_immune_to_lookalike_text() {
    let mut editor = make_editor();
    assert_eq!(editor.insert_reference("* #1", "<ref image=1/>"), EditOutcome::Changed);
    type_text(&mut editor, " hi ");
    editor.insert_text("* #1");
    assert_eq!(editor.text(), "* #1 hi * #1");
    assert_eq!(
        editor.atom_ranges().as_slice(),
        &[(0, 4)],
        "typed lookalike text never becomes an atom"
    );
    assert_eq!(
        press(&mut editor, Key::Enter),
        submitted("<ref image=1/> hi * #1"),
        "only the real reference expands"
    );
}

#[test]
fn reference_markers_delete_atomically_and_undo_restores_them() {
    let mut editor = make_editor();
    editor.insert_reference("* #1", "<ref image=1/>");
    assert_eq!(press(&mut editor, Key::Backspace), EditOutcome::Changed);
    assert_eq!(editor.text(), "");
    assert!(editor.atom_ranges().is_empty());
    assert_eq!(press(&mut editor, Key::Ctrl('_')), EditOutcome::Changed);
    assert_eq!(editor.text(), "* #1");
    assert_eq!(
        editor.atom_ranges().as_slice(),
        &[(0, 4)],
        "undo restores the atom, not just its text"
    );
}

#[test]
fn partial_replacements_widen_to_whole_reference_markers() {
    let mut torn = make_editor();
    type_text(&mut torn, "ab");
    torn.insert_reference("* #1", "<ref image=1/>");
    type_text(&mut torn, "cd");
    // Overlap the marker's first byte only: the whole unit must go.
    torn.buffer.replace_range(1, 3, "X");
    assert_eq!(torn.text(), "aXcd");
    assert!(torn.atom_ranges().is_empty(), "torn atom is dropped whole");
    // Insertions at the marker boundary leave the unit intact.
    let mut fresh = make_editor();
    fresh.insert_reference("* #1", "<ref image=1/>");
    fresh.buffer.replace_range(0, 0, ">");
    assert_eq!(fresh.text(), ">* #1");
    assert_eq!(fresh.atom_ranges().as_slice(), &[(1, 5)]);
}

#[test]
fn character_jump_moves_forward_and_backward() {
    let mut editor = make_editor();
    editor.insert_text("abacad");
    place(&mut editor, 0, 0);
    press(&mut editor, Key::Ctrl(']'));
    press(&mut editor, Key::Char('a'));
    assert_eq!(editor.buffer.cursor(), 2);
    press(&mut editor, Key::CtrlAlt(']'));
    press(&mut editor, Key::Char('a'));
    assert_eq!(editor.buffer.cursor(), 0);
}

#[test]
fn page_motion_uses_visible_rows_and_keeps_sticky_column() {
    let mut editor = make_editor();
    editor.insert_text("abcd\nx\nabcd\nx\nabcd\nx\nabcd\nx\nabcd");
    place(&mut editor, 0, 3);
    press(&mut editor, Key::PageDown);
    assert_eq!(column(&editor), (8, 3));
    press(&mut editor, Key::PageUp);
    assert_eq!(column(&editor), (0, 3));

    // The rendered viewport, not logical lines, controls the jump. With a
    // three-row viewport these wrapped rows move two at a time, preserving
    // the requested display column across the short logical line.
    editor.set_text("abcde\nx\nabcde\nx\nabcde");
    place(&mut editor, 0, 2);
    let _ = view_rows(&mut editor, 3, 3);
    press(&mut editor, Key::PageDown);
    assert_eq!(column(&editor), (1, 1));
    press(&mut editor, Key::PageDown);
    assert_eq!(column(&editor), (2, 5));

    // A viewport resize immediately changes the page distance.
    let _ = view_rows(&mut editor, 3, 2);
    press(&mut editor, Key::PageUp);
    assert_eq!(column(&editor), (2, 2));

    // A display column that falls inside a wide grapheme snaps to a valid
    // boundary without losing the sticky column on the following page.
    editor.set_text("ab\nx\né界z\nx\nab");
    place(&mut editor, 0, 2);
    let _ = view_rows(&mut editor, 20, 3);
    press(&mut editor, Key::PageDown);
    assert_eq!(column(&editor), (2, 1));
    assert_eq!(&editor.text()[..editor.buffer.cursor()], "ab\nx\né");
    press(&mut editor, Key::PageDown);
    assert_eq!(column(&editor), (4, 2));

    // Atomic markers may only be crossed as a whole. Landing inside one
    // chooses the motion-direction edge while retaining the requested
    // display column for the next page.
    editor.set_text("ab\nx\n");
    editor.insert_reference("[chip]", "<ref/>");
    editor.insert_text("z\nx\nab");
    place(&mut editor, 0, 1);
    let _ = view_rows(&mut editor, 20, 3);
    let (atom_start, atom_end) = editor.buffer.atom_ranges()[0];
    press(&mut editor, Key::PageDown);
    assert_eq!(editor.buffer.cursor(), atom_end);
    press(&mut editor, Key::PageDown);
    assert_eq!(column(&editor), (4, 1));
    press(&mut editor, Key::PageUp);
    assert_eq!(editor.buffer.cursor(), atom_start);
    press(&mut editor, Key::PageUp);
    assert_eq!(column(&editor), (0, 1));
}

#[test]
fn page_motion_uses_the_rendered_viewport_minus_one_row() {
    let mut editor = make_editor();
    editor.insert_text("0\n1\n2\n3\n4\n5\n6");
    place(&mut editor, 0, 0);
    let _ = view_rows(&mut editor, 20, 4);
    assert_eq!(press(&mut editor, Key::PageDown), EditOutcome::Changed);
    assert_eq!(editor.buffer.cursor_line(), 3);
    assert_eq!(press(&mut editor, Key::PageUp), EditOutcome::Changed);
    assert_eq!(editor.buffer.cursor_line(), 0);
}

#[test]
fn view_word_wraps_and_vertical_motion_uses_visual_rows() {
    let mut editor = make_editor();
    editor.insert_text("hello world");
    let rows: Vec<String> = view_rows(&mut editor, 7, 8).into_iter().map(|row| row.0).collect();
    assert_eq!(rows, ["hello", "world"]);
    place(&mut editor, 0, 4);
    press(&mut editor, Key::Down);
    assert_eq!(editor.buffer.cursor(), 10);
    press(&mut editor, Key::Up);
    assert_eq!(editor.buffer.cursor(), 4);
}

#[test]
fn custom_completion_controls_trigger_ghost_text_and_tab() {
    let mut editor = Editor::new(EditorOptions::default());
    editor.set_emojis(emojis());
    editor.set_completion(AtNames);
    type_text(&mut editor, "hi @al");
    let picker = editor.picker().expect("@ trigger opens the dropdown");
    assert_eq!(picker.len(), 1);
    // the engine overrides Tab even while its own dropdown is open
    assert_eq!(press(&mut editor, Key::Tab), EditOutcome::Ignored);
    assert!(editor.picker().is_some(), "passthrough leaves the dropdown open");
    assert_eq!(press(&mut editor, Key::Enter), EditOutcome::Changed);
    assert_eq!(editor.text(), "hi @alice ");

    type_text(&mut editor, "hel");
    assert_eq!(editor.inline_hint().as_deref(), Some("lo world"));
    assert_eq!(press(&mut editor, Key::Tab), EditOutcome::Changed);
    assert_eq!(editor.text(), "hi @alice hello world");
    // nothing to complete: Tab passes through to the embedding app
    assert_eq!(press(&mut editor, Key::Tab), EditOutcome::Ignored);

    // the emoji dropdown accepts on Tab without consulting the engine
    type_text(&mut editor, " :joy");
    assert!(editor.picker().is_some(), "emoji dropdown open");
    assert_eq!(press(&mut editor, Key::Tab), EditOutcome::Changed);
    assert!(editor.text().ends_with("😂"), "{}", editor.text());
}

#[test]
fn volatile_text_follows_the_cursor_until_it_is_committed() {
    let mut editor = bare(EditorOptions::default());
    editor.set_text("say ");
    assert!(editor.caret_visible() && !editor.volatile_active());
    editor.set_volatile_text("hel");
    assert!(editor.volatile_active());
    assert_eq!(editor.text(), "say hel");
    editor.set_volatile_text("hello");
    assert_eq!(editor.text(), "say hello");
    editor.clear_volatile_text();
    assert_eq!(editor.text(), "say ");
    editor.set_volatile_text("hello");
    editor.commit_volatile_text("hello!");
    assert!(!editor.volatile_active());
    assert_eq!(editor.text(), "say hello!");
}

#[test]
fn pasted_references_expand_on_submit() {
    let mut editor = bare(EditorOptions::default());
    editor.insert_text("see ");
    assert_eq!(editor.insert_reference("[paste #1]", "the whole text"), EditOutcome::Changed);
    assert!(editor.text().starts_with("see [paste #1]"));
    assert_eq!(editor.current_line(), editor.text());
    match editor.submit() {
        EditOutcome::Submitted(text) => assert!(text.starts_with("see the whole text")),
        other => panic!("unexpected outcome {other:?}"),
    }
    assert_eq!(editor.text(), "");
}

#[test]
fn the_dropdown_wheels_and_clicks() {
    let mut editor = make_editor();
    press(&mut editor, Key::Char('/'));
    press(&mut editor, Key::Char('s'));
    let picker = editor.picker().expect("the palette opened");
    assert!(picker.suggestions.len() >= 3);
    let before = picker.selected;
    editor.wheel_picker(true);
    assert_eq!(editor.picker().map(|picker| picker.selected), Some(before + 1));
    editor.wheel_picker(false);
    assert_eq!(editor.picker().map(|picker| picker.selected), Some(before));
    assert!(editor.picker_height() >= 3);
    editor.click_picker(0);
    assert!(editor.text().starts_with("/se"), "the clicked command is taken");
}

#[test]
fn browsing_far_back_comes_forth_to_the_draft() {
    let mut editor = make_editor();
    for prompt in ["first", "/settings", "third"] {
        editor.add_to_history(prompt);
    }
    for expected in ["third", "/settings", "first"] {
        assert_eq!(press(&mut editor, Key::Up), EditOutcome::Changed);
        assert_eq!(editor.text(), expected);
        assert!(editor.picker().is_none(), "a recalled prompt opens no dropdown");
    }
    assert_eq!(editor.history_index, Some(2));
    press(&mut editor, Key::End);
    for expected in ["/settings", "third", ""] {
        assert_eq!(press(&mut editor, Key::Down), EditOutcome::Changed);
        assert_eq!(editor.text(), expected);
    }
    assert_eq!(editor.history_index, None);
}

fn argument(value: &str) -> CommandArgument {
    CommandArgument { value: value.to_string(), description: String::new(), usage: None }
}

fn offered(palette: &SlashCommands, text: &str) -> Vec<String> {
    palette
        .suggestions(text, text.len())
        .map(|found| found.items.into_iter().map(|row| row.value).collect())
        .unwrap_or_default()
}

#[test]
fn live_candidates_join_the_palette() {
    let mcp = Command::new("mcp", "Manage servers", Vec::new())
        .with_status("2 connected")
        .with_dynamic_args(vec![argument("github"), argument("gitlab")]);
    let mut palette =
        SlashCommands::new(vec![mcp, Command::new("move", "Move a file", Vec::new())]);
    assert_eq!(offered(&palette, "/mcp git"), vec!["github ", "gitlab "]);
    let names = palette.suggestions("/mc", 3).expect("the name matches");
    assert_eq!(names.items[0].description.as_deref(), Some("2 connected"));

    assert!(offered(&palette, "/move sr").is_empty());
    palette.set_paths(vec![argument("src/")]);
    assert_eq!(offered(&palette, "/move sr"), vec!["src/"], "paths are not spaced");
    assert!(offered(&palette, "/move a sr").is_empty(), "only the first argument is a path");

    assert_eq!(palette.typed_argument("/mcp  gi", 8), Some((0, "gi".to_string())));
    assert_eq!(palette.typed_argument("x\n/move:a", 9), Some((1, "a".to_string())));
    assert_eq!(palette.typed_argument("x\n/move:a b", 11), None, "a second argument");
    assert_eq!(palette.typed_argument("/mcp test s", 11), None);
    assert_eq!(palette.typed_argument("/mcp test ", 10), None);
    assert!(offered(&palette, "/mcp test git").is_empty());
    assert_eq!(palette.typed_argument("/mcp", 4), None);
    assert_eq!(palette.typed_argument("/nope x", 7), None);
    assert_eq!(palette.typed_argument("/skill:x", 8), None);
}

#[test]
fn suggestion_rows_carry_what_they_are_given() {
    let row = Suggestion::new("/go ", "go")
        .with_description("Travel")
        .with_category("Places")
        .with_match_spans(&vec![(0, 1), (1, 1), (1, 2)]);
    assert_eq!(row.description.as_deref(), Some("Travel"));
    assert_eq!(row.category.as_deref(), Some("Places"));
    assert_eq!(row.match_spans, vec![(0, 1), (1, 2)], "empty spans are left out");
}

#[test]
fn switches_and_edits_re_query() {
    let mut editor = bare(EditorOptions::default());
    for key in [Key::Char(':'), Key::Char('j'), Key::Char('o')] {
        press(&mut editor, key);
    }
    assert!(editor.picker().is_some(), "the emoji dropdown is open");
    editor.set_options(EditorOptions { emoji: false, ..EditorOptions::default() });
    assert!(editor.picker().is_none() && !editor.options().emoji);
    editor.apply_edit(0, 3, "done");
    assert_eq!(editor.text(), "done");
    assert_eq!(editor.buffer.cursor(), 4);
    press(&mut editor, Key::Ctrl('-'));
    assert_eq!(editor.text(), ":jo", "an edit is one undo unit");
}

/// Engine that writes down what it is asked.
struct Witness {
    asked: Vec<(String, usize)>,
    told: Vec<(String, String)>,
}

impl EditorCompletion for Witness {
    fn suggest(&mut self, text: &str, cursor: usize) -> Option<Suggestions> {
        self.asked.push((text.to_owned(), cursor));
        if text == "a" {
            Some(Suggestions { start: 0, end: 1, items: vec![Suggestion::new("apple", "apple")] })
        } else {
            None
        }
    }

    fn hint(&mut self, text: &str, cursor: usize) -> Option<String> {
        Some(format!("{text}@{cursor}"))
    }

    fn tab(&mut self, _text: &str, _cursor: usize, selected: Option<&Suggestion>) -> TabAction {
        tab_plainly(selected.is_some())
    }

    fn allow_builtin_emoji(&mut self, _text: &str, _cursor: usize) -> bool {
        false
    }

    fn accepted(&mut self, replaced: &str, suggestion: &Suggestion) {
        self.told.push((replaced.to_owned(), suggestion.value().clone()));
    }
}

#[test]
fn the_installed_engine_is_asked_after_every_edit_and_told_of_its_rows() {
    let mut editor = Editor::new(EditorOptions::default());
    editor.set_completion(Witness { asked: Vec::new(), told: Vec::new() });
    type_text(&mut editor, "a");
    assert_eq!(editor.inline_hint().as_deref(), Some("a@1"));
    assert_eq!(press_key(&mut editor, Key::Enter), EditOutcome::Changed);
    assert_eq!(editor.text(), "apple");
    let engine = editor.completion.as_ref().expect("installed");
    assert_eq!(
        engine.asked,
        vec![
            (String::new(), 0),
            ("a".to_owned(), 1),
            ("apple".to_owned(), 5),
        ]
    );
    assert_eq!(engine.told, vec![("a".to_owned(), "apple".to_owned())]);
    assert_eq!(editor.inline_hint().as_deref(), Some("apple@5"));
}

#[test]
fn view_rows_are_centered_around_the_cursor() {
    let mut editor = bare(EditorOptions::default());
    editor.set_text("0\n1\n2\n3\n4");
    press_key(&mut editor, Key::Up);
    press_key(&mut editor, Key::Up);
    let shown = |editor: &mut Editor<SlashCommands>, rows: usize| -> Vec<String> {
        view_rows(editor, 20, rows).into_iter().map(|row| row.0).collect()
    };
    assert_eq!(shown(&mut editor, 3), ["1", "2", "3"]);
    assert_eq!(shown(&mut editor, 1), ["2"]);
    assert_eq!(shown(&mut editor, 9), ["0", "1", "2", "3", "4"]);
    press_key(&mut editor, Key::Up);
    press_key(&mut editor, Key::Up);
    assert_eq!(shown(&mut editor, 3), ["0", "1", "2"]);
    editor.set_text("0\n1\n2\n3\n4");
    assert_eq!(shown(&mut editor, 3), ["2", "3", "4"]);
}

#[test]
fn a_preview_leaves_the_caret_around_it() {
    let mut editor = bare(EditorOptions::default());
    editor.set_text("say ");
    editor.set_volatile_text("hel");
    assert_eq!(editor.buffer.cursor(), 7, "a new preview stands before the caret");
    press(&mut editor, Key::Home);
    editor.set_volatile_text("hello");
    assert_eq!(editor.text(), "say hello");
    assert_eq!(editor.buffer.cursor(), 0, "a caret before the preview stays");
    assert!(editor.caret_visible());
    press(&mut editor, Key::End);
    editor.set_volatile_text("he");
    assert_eq!((editor.text(), editor.buffer.cursor()), ("say he", 6));
}

#[test]
fn history_steps_from_the_outer_rows() {
    let mut editor = bare(EditorOptions::default());
    editor.seed_history(&vec!["newest".to_string(), "older".to_string()]);
    assert_eq!(press(&mut editor, Key::Up), EditOutcome::Changed);
    press(&mut editor, Key::Right);
    assert!(navigates(&editor, Key::Up) && navigates(&editor, Key::Down));
    assert_eq!(press(&mut editor, Key::Up), EditOutcome::Changed);
    assert_eq!(editor.text(), "older");
    press(&mut editor, Key::Right);
    assert_eq!(press(&mut editor, Key::Down), EditOutcome::Changed);
    assert_eq!(editor.text(), "newest");
}

#[test]
fn history_leaves_inner_rows_to_the_caret() {
    let mut editor = bare(EditorOptions::default());
    editor.seed_history(&vec!["a\nb\nc".to_string()]);
    press(&mut editor, Key::Up);
    press(&mut editor, Key::Down);
    assert_eq!((editor.text(), editor.buffer.cursor()), ("a\nb\nc", 2));
    assert!(!navigates(&editor, Key::Up) && !navigates(&editor, Key::Down));
    press(&mut editor, Key::Down);
    assert!(navigates(&editor, Key::Down));
    assert_eq!(press(&mut editor, Key::Down), EditOutcome::Changed);
    assert_eq!(editor.text(), "");
}
