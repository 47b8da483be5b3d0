use omp_tui::charset::Charset;
use omp_tui::context::{JamoWidth, UiContext, WidthPolicy};
use omp_tui::events::{Flow, Hit, HitTag, Slot, UiEvent};
use omp_tui::frame::Frame;
use omp_tui::geometry::{Rect, Size};
use omp_tui::input::{Key, Mouse};
use omp_tui::screen::frame_row_text;
use omp_tui::select::{Preview, Select, SelectOption, Step};
use omp_tui::select_layout::option_label_indent;
use omp_tui::select_paint::SelectPaint;
use omp_tui::text::Text;

fn context() -> UiContext {
    UiContext::new(&WidthPolicy { jamo: JamoWidth::Platform, narrow_platform: false })
}

fn option(label: &str, value: Option<&str>) -> SelectOption {
    let mut option = SelectOption::new().label(label, Text::cells_of(label));
    option.value = value.map(str::to_string);
    option
}

fn select(id: &str, options: Vec<SelectOption>) -> Select {
    let mut select = Select::new().with(Some(id.to_string()), None);
    for option in options {
        select.option(option, &None);
    }
    select
}

fn label_of(select: &Select, index: usize) -> String {
    select.options[index].label.clusters.iter().map(|cluster| cluster.text.clone()).collect()
}

/// Scores as a host that matches every word of the query gives them.
fn scores(select: &Select) -> Option<Vec<Option<i32>>> {
    if select.filter_q.is_empty() {
        return None;
    }
    let query = select.filter_q.to_lowercase();
    Some(
        (0..select.options.len())
            .map(|index| {
                let label = label_of(select, index).to_lowercase();
                if query.split_whitespace().all(|word| label.contains(word)) {
                    Some(1)
                } else {
                    None
                }
            })
            .collect(),
    )
}

fn key(select: &mut Select, key: Key) -> Flow {
    match select.dispatch(key, 0) {
        Step::Done(flow) => flow,
        Step::Refilter => {
            let scores = scores(select);
            select.filter_flow(&scores)
        },
    }
}

fn highlights(flow: &Flow, wanted_id: &str, wanted: &str) -> bool {
    matches!(
        flow,
        Flow::Event(UiEvent::Highlighted { id, value }) if id == wanted_id && value == wanted
    )
}

fn changes(flow: &Flow, wanted_id: &str, wanted: &str) -> bool {
    matches!(
        flow,
        Flow::Event(UiEvent::Changed { id, value }) if id == wanted_id && value == wanted
    )
}

fn paint(select: &Select, ctx: &UiContext, rect: Rect) -> (Frame, Vec<Hit>) {
    let mut frame = Frame::new(Size::new(rect.width, rect.height), 1);
    let mut hits = Vec::new();
    let query = Text::cells_of(&select.filter_q);
    let custom = Text::cells_of(&select.custom_text);
    let search = Text::cells_of("⌕");
    let rail = Text::cells_of("│");
    let paint = SelectPaint {
        theme: &ctx.theme,
        charset: ctx.charset,
        rect,
        clip: rect.height,
        focused: true,
        hovered: None,
        slot: Slot(3),
        query: &query,
        custom: &custom,
        search: &search,
        rail: &rail,
    };
    select.paint(&mut frame, &mut hits, &paint);
    (frame, hits)
}

#[test]
fn navigate_and_activate_changes_value() {
    let mut pick = select("pick", vec![option("one", Some("1")), option("two", Some("2"))]);
    assert!(
        highlights(&key(&mut pick, Key::Down), "pick", "2"),
        "cursor moves surface the highlighted option"
    );
    assert!(
        changes(&key(&mut pick, Key::Enter), "pick", "2"),
        "activation surfaces the committed option"
    );
    assert_eq!(pick.chosen_value().as_deref(), Some("2"));
    assert!(matches!(key(&mut pick, Key::Down), Flow::Skip));
}

#[test]
fn home_and_end_jump_between_filtered_options() {
    let mut pick = select(
        "pick",
        vec![
            option("one match", Some("one")),
            option("two match", Some("two")),
            option("red match", Some("red")),
            option("unrelated", Some("unrelated")),
        ],
    );
    pick.set_filter(true, None, &None);

    for character in "match".chars() {
        let _ = key(&mut pick, Key::Char(character));
    }
    assert!(highlights(&key(&mut pick, Key::End), "pick", "red"));
    assert!(highlights(&key(&mut pick, Key::Home), "pick", "one"));
}

#[test]
fn paint_places_rows_and_registers_hits() {
    let ctx = context();
    let mut plain = select("pick", vec![option("Alpha", None)]);
    let height = plain.height(ctx.charset, 32);
    let rect = Rect::new(0, 0, 32, height);
    plain.place(ctx.charset, rect);
    let (frame, hits) = paint(&plain, &ctx, rect);
    assert!(frame_row_text(&frame, 0).contains("Alpha"));
    assert_eq!(hits.len(), 1);
}

#[test]
fn long_labels_wrap_onto_indented_continuation_rows() {
    let ctx = context();
    let label = "This is a deliberately long option label with distinguishing tail";
    let mut long = select("pick", vec![option(label, None)]);
    let width = 24;
    let height = long.height(ctx.charset, width);
    assert!(height > 1, "the complete label must occupy multiple visual rows");
    let rect = Rect::new(0, 0, width, height);
    long.place(ctx.charset, rect);
    let (frame, _) = paint(&long, &ctx, rect);

    let rows: Vec<String> = (0..height).map(|row| frame_row_text(&frame, row)).collect();
    assert!(rows.iter().all(|row| !row.contains('…')), "labels must not be truncated");
    assert!(
        rows.iter().any(|row| row.contains("distinguishing tail")),
        "the disambiguating tail remains visible: {rows:?}"
    );
    let indent = ctx.charset.cursor().chars().count() + ctx.charset.radio(false).chars().count() + 1;
    let continuation =
        rows.iter().find(|row| row.contains("distinguishing tail")).expect("tail continuation row");
    assert_eq!(
        continuation.len() - continuation.trim_start().len(),
        indent,
        "continuations align under the label"
    );
    assert_eq!(option_label_indent(Charset::Unicode) as usize, indent);
}

#[test]
fn multi_select_space_toggles_and_enter_submits_current_selection() {
    let mut checks = select("checks", vec![option("lint", None), option("unit", None)]);
    checks.set_multi(true);

    assert!(
        matches!(key(&mut checks, Key::Enter), Flow::Event(UiEvent::Submit)),
        "an empty multi-select is a valid submission"
    );
    assert_eq!(checks.chosen_values(), Vec::<String>::new());

    assert!(
        changes(&key(&mut checks, Key::Space), "checks", "lint"),
        "Space alone toggles the focused option"
    );
    assert!(
        matches!(key(&mut checks, Key::Enter), Flow::Event(UiEvent::Submit)),
        "Enter submits without toggling the focused option"
    );
    assert_eq!(checks.chosen_values(), vec!["lint".to_string()]);
}

#[test]
fn multi_select_adopts_selected_rows_and_active_cursor() {
    let mut lint = option("lint", Some("lint"));
    lint.selected = true;
    let mut unit = option("unit", Some("unit"));
    unit.active = true;
    let mut checks = Select::new().with(Some("checks".to_string()), None);
    checks.set_multi(true);
    checks.option(lint, &None);
    checks.option(unit, &None);
    checks.enter(true);
    assert_eq!(checks.chosen_values(), vec!["lint".to_string()]);
    assert_eq!(checks.cursor_value().as_deref(), Some("unit"));
}

#[test]
fn digit_selects_matching_numbered_label_after_unnumbered_row() {
    let mut pick = select(
        "pick",
        vec![
            option("Detected item", Some("detected")),
            option("1. First", Some("first")),
            option("2. Second", Some("second")),
        ],
    );
    pick.set_filter(true, None, &None);

    assert!(
        changes(&key(&mut pick, Key::Char('2')), "pick", "second"),
        "the digit matches the numbered label rather than the row position"
    );
}

#[test]
fn digit_moves_multi_select_cursor_without_toggling() {
    let mut checks = select(
        "checks",
        vec![option("Context", None), option("1. Lint", None), option("2. Unit", None)],
    );
    checks.set_multi(true);
    checks.set_filter(true, None, &None);

    assert!(highlights(&key(&mut checks, Key::Char('2')), "checks", "2. Unit"));
    assert_eq!(checks.chosen_values(), Vec::<String>::new());
    assert!(changes(&key(&mut checks, Key::Space), "checks", "2. Unit"));
}

#[test]
fn select_scrolls_the_preselected_row_into_view_on_the_first_layout() {
    let ctx = context();
    let options = (0..200)
        .map(|index| {
            let mut model = option(&format!("model {index}"), Some(&format!("m{index}")));
            model.recommended = index == 150;
            model
        })
        .collect();
    let mut pick = select("pick", options);
    pick.set_filter(true, None, &None);
    pick.enter(true);
    let rect = Rect::new(0, 0, 40, 6);
    pick.height(ctx.charset, 40);
    pick.place(ctx.charset, rect);
    assert_eq!(pick.cursor_option(), Some(150), "focus rests on the chosen row");
    let scroll = pick.scroll;
    assert!((146..=150).contains(&scroll), "window contains the cursor: scroll {scroll}");
    let rows = |pick: &Select| -> String {
        let (frame, _) = paint(pick, &ctx, rect);
        let rows: Vec<String> = (0..6).map(|row| frame_row_text(&frame, row)).collect();
        rows.join("\n")
    };
    let painted = rows(&pick);
    assert!(painted.contains("model 150"), "the chosen row is on screen:\n{painted}");
    assert!(!painted.contains("model 0\n"), "the top of the list scrolled away:\n{painted}");
    // End jumps the whole distance in one frame too.
    key(&mut pick, Key::End);
    pick.place(ctx.charset, rect);
    let painted = rows(&pick);
    assert!(painted.contains("model 199"), "End lands on the last row:\n{painted}");
}

#[test]
fn select_filter_ranks_word_matches_first_and_resets_the_cursor_to_the_best_match() {
    let labels = [
        "Abliteration llama-3 abliteration/llama-3",
        "OpenRouter Qwen Plus openrouter/qwen/qwen-plus",
        "OpenRouter gpt-oss-120b openrouter/openai/gpt-oss-120b",
        "Zai glm-4-plus zai/glm-4-plus",
        "Acme Poet Opus 4.6 acme/poet-opus-4-6",
        "Acme Poet Opus 5 acme/poet-opus-5",
        "OpenRouter Poet Opus 5 openrouter/acme/poet-opus-5",
    ];
    let options = labels
        .iter()
        .enumerate()
        .map(|(index, label)| {
            let mut model = option(label, Some(&index.to_string()));
            model.recommended = index == 5;
            model
        })
        .collect();
    let mut models = select("models", options);
    models.set_filter(true, None, &None);
    models.enter(true);
    assert_eq!(models.cursor_option(), Some(5), "the current model preselects");
    for character in "opus".chars() {
        key(&mut models, Key::Char(character));
    }
    assert_eq!(models.visible_len(), 3, "o-p-u-s scattered across words never matches");
    assert_eq!(models.cursor_option(), Some(5), "the current model ranks first for `opus`");
    // Typing on keeps the cursor only while the rows above it are unchanged.
    key(&mut models, Key::Down);
    assert_ne!(models.cursor_option(), Some(5));
    key(&mut models, Key::Char(' '));
    key(&mut models, Key::Char('4'));
    assert_eq!(models.visible_len(), 1);
    assert_eq!(
        models.cursor_option(),
        Some(4),
        "the list changed above the cursor: back to the top"
    );
}

#[test]
fn pointers_choose_rows_and_pastes_extend_the_query() {
    let mut pick = select("pick", vec![option("one", Some("1")), option("two", Some("2"))]);
    assert!(changes(&pick.mouse(Mouse::Click, HitTag::Row(1)), "pick", "2"));
    assert_eq!(pick.chosen_value().as_deref(), Some("2"));
    pick.set_filter(true, None, &None);
    assert!(matches!(pick.paste("tw\no"), Step::Refilter));
    assert_eq!(pick.filter_q, "tw o", "breaks are joined to one line");
    let scores = Some(vec![None, Some(3)]);
    pick.refilter(&scores);
    assert_eq!(pick.visible_len(), 1);
}

#[test]
fn multi_select_toggles_and_reports_array() {
    let mut checks =
        select("checks", vec![option("lint", Some("lint")), option("unit tests", Some("unit"))]);
    checks.set_multi(true);
    key(&mut checks, Key::Space);
    key(&mut checks, Key::Down);
    key(&mut checks, Key::Space);
    assert_eq!(checks.chosen_values(), vec!["lint", "unit"]);
    key(&mut checks, Key::Space);
    assert_eq!(checks.chosen_values(), vec!["lint"]);
}

fn filters(flow: &Flow, wanted_id: &str, wanted_query: &str, wanted: Option<&str>) -> bool {
    matches!(
        flow,
        Flow::Event(UiEvent::Filtered { id, query, value })
            if id == wanted_id && query == wanted_query && value.as_deref() == wanted
    )
}

#[test]
fn select_contract_recommended_edges_search_custom() {
    let mut production = option("Production", Some("prod"));
    production.recommended = true;
    production.desc = Some(Text::cells_of("full fleet"));
    let mut env = select("env", vec![production, option("Staging", Some("stage"))]);
    env.set_custom(true, &None);
    env.set_filter(true, None, &None);
    assert_eq!(env.chosen_value().as_deref(), Some("prod"), "recommended preselects");

    key(&mut env, Key::Down);
    assert!(changes(&key(&mut env, Key::Enter), "env", "stage"));
    assert_eq!(env.chosen_value().as_deref(), Some("stage"));

    key(&mut env, Key::Up);
    assert!(
        !matches!(key(&mut env, Key::Up), Flow::Skip),
        "filterable selects wrap at the top edge"
    );

    assert!(filters(&key(&mut env, Key::Char('s')), "env", "s", Some("stage")));
    assert_eq!(env.visible_len(), 1, "filtered to Staging");
    assert!(filters(&key(&mut env, Key::Esc), "env", "", Some("prod")));
    assert_eq!(env.visible_len(), 3);

    key(&mut env, Key::Down);
    key(&mut env, Key::Down);
    key(&mut env, Key::Enter);
    for c in "dr site".chars() {
        key(&mut env, if c == ' ' { Key::Space } else { Key::Char(c) });
    }
    key(&mut env, Key::Enter);
    assert_eq!(env.chosen_value().as_deref(), Some("dr site"));
}

#[test]
fn previews_stand_below_their_option() {
    let mut first = option("one", Some("1"));
    first.desc = Some(Text::cells_of("about"));
    first.previews = vec![Preview { natural: 4, height: 2 }, Preview { natural: 4, height: 1 }];
    let mut pick = select("pick", vec![first]);
    let area = Rect::new(1, 2, 30, 10);
    pick.place(Charset::Unicode, area);
    let top = pick.preview_rect(Charset::Unicode, area, 0, 0);
    let next = pick.preview_rect(Charset::Unicode, area, 0, 1);
    assert_eq!((top.x, top.y, top.height), (9, 4, 2));
    assert_eq!((next.x, next.y, next.height), (9, 6, 1));
}

#[test]
fn the_name_may_be_given_as_text() {
    let named = select("old", vec![option("one", Some("1")), option("two", Some("2"))])
        .with_str("pick");
    assert_eq!(named.id.as_deref(), Some("pick"));
}
