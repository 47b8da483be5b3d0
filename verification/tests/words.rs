use omp_tui::chars::{is_cjk, is_whitespace, to_ascii_lower};
use omp_tui::clipping::{clip_end, clip_start};
use omp_tui::emoji::{
    emoji_token_end, emoji_trigger, expand_emoticons, has_left_boundary, lookup_emoji, EmojiEntry,
};
use omp_tui::lines::{desc_lines, label_lines, line_text};
use omp_tui::numbers::to_decimal;
use omp_tui::paths::{
    home_argument, is_before, lists_whole, origin, path_arguments, typed_parent, DirectoryEntry,
    Origin,
};
use omp_tui::runs::{truncate_start, truncate_to_width, Run};
use omp_tui::scoring::{
    breakout_match_tier, command_score, find_bytes, fuzzy_match_spans, fuzzy_score, has_prefix,
    history_entry_matches,
};
use omp_tui::strings::{
    at_boundary, byte_len, char_len, chars_of, same_ignoring_case, same_text, splice_text,
};
use omp_tui::style::Style;
use omp_tui::text::{contains_control, is_ascii_text, is_line_stop, Cluster, Text};
use omp_tui::words::{is_word_joiner, word_class, WordClass};
use omp_tui::wrap::{wrap_glyphs, GraphemeCell};

fn string_of(text: &Text) -> String {
    text.clusters.iter().map(|cluster| cluster.text.clone()).collect()
}

fn run(text: &str) -> Run {
    Run { text: Text::cells_of(text), style: Style::new() }
}

fn joined(runs: &[Run]) -> String {
    runs.iter().map(|run| string_of(&run.text)).collect()
}

#[test]
fn numbers_are_written_in_decimal() {
    assert_eq!(to_decimal(0), "0");
    assert_eq!(to_decimal(907), "907");
    assert_eq!(to_decimal(u64::MAX), "18446744073709551615");
}

#[test]
fn characters_fall_into_their_classes() {
    assert!(is_whitespace('\u{3000}') && is_whitespace('\t') && !is_whitespace('\u{200b}'));
    assert!(is_cjk('漢') && is_cjk('か') && !is_cjk('a'));
    assert_eq!((to_ascii_lower('Q'), to_ascii_lower('É')), ('q', 'É'));
    assert_eq!(word_class("_"), WordClass::Word);
    assert_eq!(word_class("é"), WordClass::Word);
    assert_eq!(word_class("٣"), WordClass::Word);
    assert_eq!(word_class(" "), WordClass::Whitespace);
    assert_eq!(word_class("漢"), WordClass::Cjk);
    assert_eq!(word_class("."), WordClass::Delimiter);
    assert!(is_word_joiner("-") && is_word_joiner("'") && !is_word_joiner("/"));
    assert!(contains_control("a\u{7}") && !contains_control("a b"));
    assert!(is_ascii_text("plain") && !is_ascii_text("é"));
    assert!(is_line_stop("\n", true) && !is_line_stop("x", true));
}

#[test]
fn strings_are_cut_at_boundaries() {
    assert_eq!((byte_len("é"), char_len('é'), char_len('😀')), (2, 2, 4));
    assert!(at_boundary("éa", 2) && !at_boundary("éa", 1) && at_boundary("éa", 3));
    assert_eq!(splice_text("héllo", 1, 3, "e"), "hello");
    assert_eq!(chars_of("aé"), vec!['a', 'é']);
    assert!(same_text("x", "x") && !same_text("x", "X") && same_ignoring_case("xY", "Xy"));
}

#[test]
fn fuzzy_scores_rank_prefixes_over_scattered_hits() {
    assert!(fuzzy_score(b"set", b"settings") > fuzzy_score(b"set", b"asset"));
    assert!(fuzzy_score(b"set", b"asset") > fuzzy_score(b"set", b"s-e-t"));
    assert_eq!(fuzzy_score(b"xyz", b"settings"), 0);
    assert!(command_score(b"set", b"settings") > 0);
    assert_eq!(command_score(b"xyz", b"settings"), 0);
    assert!(breakout_match_tier(b"plan", b"plan") >= breakout_match_tier(b"plan", b"xplanx"));
    assert_eq!(fuzzy_match_spans(b"settings", b"set"), vec![(0, 3)]);
    assert!(fuzzy_match_spans(b"settings", b"xyz").is_empty());
    assert_eq!(find_bytes(b"abcabc", b"ca"), Some(2));
    assert_eq!(find_bytes(b"abc", b"d"), None);
    assert!(has_prefix(b"abc", b"ab") && !has_prefix(b"abc", b"b"));
    assert!(history_entry_matches(b"fix bug", b"Fix the bug"));
    assert!(!history_entry_matches(b"fix ship", b"Fix the bug"));
}

fn catalog() -> Vec<EmojiEntry> {
    vec![EmojiEntry { name: "joy".to_string(), emoji: "😂".to_string() }]
}

#[test]
fn emoji_triggers_need_a_left_boundary() {
    assert_eq!(emoji_trigger("hi :jo", 6), Some((3, b"jo".to_vec())));
    assert_eq!(emoji_trigger("a:jo", 4), None, "a colon inside a word is no trigger");
    assert_eq!(emoji_token_end("x :joy!", 4), 6);
    assert!(has_left_boundary(b" :", 1) && !has_left_boundary(b"a:", 1));
    assert_eq!(lookup_emoji(&catalog(), b"joy"), Some("😂"));
    assert_eq!(lookup_emoji(&catalog(), b"nope"), None);
    assert!(!expand_emoticons("ok :-)".to_string()).contains(":-)"));
    assert_eq!(expand_emoticons("plain".to_string()), "plain");
}

#[test]
fn labels_wrap_and_descriptions_clip() {
    let label = Text::cells_of("alpha beta gamma");
    let shown: Vec<String> = label_lines(&label, 10)
        .into_iter()
        .map(|(start, end)| string_of(&line_text(&label, start, end)))
        .collect();
    assert_eq!(shown.concat().replace(' ', ""), "alphabetagamma", "nothing is lost");
    assert!(shown.iter().all(|line| line.trim_end().chars().count() <= 10));
    assert!(desc_lines(&label, 6).len() <= 2);
}

#[test]
fn rows_wrap_at_the_limit() {
    let glyphs: Vec<GraphemeCell> = "ab cd"
        .char_indices()
        .map(|(at, c)| GraphemeCell { start: at, end: at + 1, width: 1, whitespace: c == ' ' })
        .collect();
    let rows = wrap_glyphs(&glyphs, 3);
    assert_eq!(rows.len(), 2);
    assert_eq!((rows[0].source_start, rows[0].source_end), (0, 3));
    assert_eq!((rows[1].start, rows[1].end), (3, 5));
}

#[test]
fn cuts_mark_what_they_left_out() {
    let text = Text::cells_of("abcdef");
    let cut = truncate_to_width(&text, 4);
    assert_eq!((string_of(&cut.text), cut.ellipsis), ("abc".to_string(), true));
    let whole = truncate_to_width(&text, 6);
    assert_eq!((string_of(&whole.text), whole.ellipsis), ("abcdef".to_string(), false));
    let (tail, marked) = truncate_start(&text, 4);
    assert_eq!((string_of(&tail), marked), ("def".to_string(), true));
}

#[test]
fn styled_rows_clip_with_one_ellipsis() {
    let row = vec![run("abc"), run("defg")];
    assert_eq!(joined(&clip_end(&row, 5)), "abcd…");
    assert_eq!(joined(&clip_end(&row, 7)), "abcdefg");
    assert_eq!(joined(&clip_start(&row, 5)), "…defg");
    assert_eq!(joined(&clip_end(&row, 0)), "");
    let wide = vec![Run {
        text: Text { clusters: vec![Cluster::new("漢", 2), Cluster::new("字", 2)] },
        style: Style::new(),
    }];
    assert_eq!(joined(&clip_end(&wide, 3)), "漢…");
}

#[test]
fn directories_are_offered_in_order() {
    let entries: Vec<DirectoryEntry> = [("src", true), (".git", true), ("Stale", false), ("sub", true)]
        .iter()
        .map(|(name, directory)| DirectoryEntry { name: name.to_string(), directory: *directory })
        .collect();
    assert_eq!(typed_parent("a/b/s"), "a/b/");
    assert_eq!(typed_parent("dir\\s"), "dir\\");
    assert_eq!(typed_parent("s"), "");
    let shown = |prefix: &str| -> Vec<(String, String)> {
        path_arguments("a/", prefix, &entries, '/')
            .into_iter()
            .map(|candidate| (candidate.value, candidate.description))
            .collect()
    };
    let directory = |value: &str| (value.to_string(), "directory".to_string());
    assert_eq!(shown("s"), vec![directory("a/src/"), directory("a/sub/")]);
    assert_eq!(
        shown(""),
        vec![
            ("a/Stale".to_string(), "file".to_string()),
            directory("a/src/"),
            directory("a/sub/"),
        ]
    );
    assert_eq!(home_argument().value, "~/");
    assert!(is_before(b"a", b"ab") && is_before(b"B", b"a") && !is_before(b"a", b"a"));
}

#[test]
fn paths_point_home_here_or_where_they_say() {
    assert!(matches!(origin(""), Origin::Here));
    assert!(matches!(origin("~"), Origin::Home));
    assert!(matches!(origin("~//src"), Origin::UnderHome(rest) if rest == "src"));
    assert!(matches!(origin("~x"), Origin::UnderHome(rest) if rest == "x"));
    assert!(matches!(origin("a/~"), Origin::Typed));
    assert!(lists_whole("") && lists_whole("a/") && lists_whole("a\\") && !lists_whole("a/b"));
}
