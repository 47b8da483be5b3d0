use omp_tui::charset::{Charset, IconEntry};
use omp_tui::completion::Icon;
use omp_tui::markup::Border;

#[test]
fn every_glyph_family_has_an_ascii_form() {
    let ascii = Charset::Ascii;
    let glyphs = [
        ascii.cursor(),
        ascii.radio(true),
        ascii.radio(false),
        ascii.checkbox(true),
        ascii.checkbox(false),
        ascii.expander(true),
        ascii.expander(false),
        ascii.quote_rail(),
        ascii.scrollbar().0,
        ascii.scrollbar().1,
        ascii.progress().0,
        ascii.progress().1,
        ascii.pill_caps().0,
        ascii.pill_caps().1,
        ascii.rail(),
        ascii.beam(),
        ascii.check(),
        ascii.note_icon(),
        ascii.arrows().0,
        ascii.arrows().1,
        ascii.dropdown(),
        ascii.shadow().unwrap_or(""),
    ];
    for glyph in glyphs {
        assert!(glyph.is_ascii(), "{glyph:?}");
    }
    assert_eq!(ascii.progress(), ("#", "."));
    assert_eq!(Charset::Unicode.progress(), ("█", "░"));
    assert_eq!(ascii.rule(), '-');
    assert!(ascii.starburst().iter().all(|facet| facet.is_ascii()));
    assert_eq!(ascii.grid().lead, "| ");
    assert_eq!(Charset::Unicode.grid().top, ('┌', '┬', '┐'));
    for border in [Border::Square, Border::Dash, Border::Round, Border::Heavy, Border::Double] {
        let (a, b, c, d, e, f) = ascii.border(border);
        assert!([a, b, c, d, e, f].iter().all(char::is_ascii));
        let (branch, last, goes_on) = ascii.guides(border);
        assert!(branch.is_ascii() && last.is_ascii() && goes_on.is_ascii());
    }
    assert_eq!(ascii.radio(true), "(o)");
    assert_eq!(ascii.radio(false), "( )");
}

#[test]
fn frames_advance_on_their_own_clock() {
    let pulse = Charset::Ascii.pulse();
    assert_eq!(pulse.at(0), ".");
    assert_eq!(pulse.at(120), "o");
    assert_eq!(pulse.at(240), "O");
    assert_eq!(pulse.at(600), ".");
    assert_eq!(pulse.next_change(130), 240);
    assert!(Charset::Unicode.spinner().at(0) != Charset::Unicode.spinner().at(80));
}

#[test]
fn icons_degrade_by_charset() {
    let catalog = vec![IconEntry {
        names: vec!["folder".to_string(), "dir".to_string()],
        nerd: "\u{f07b}".to_string(),
        unicode: "▤".to_string(),
        ascii: "[d]".to_string(),
    }];
    assert_eq!(Charset::Ascii.icon_named(&catalog, "folder"), Some("[d]"));
    assert_eq!(Charset::Unicode.icon_named(&catalog, "folder"), Some("▤"));
    assert_eq!(Charset::NerdFont.icon_named(&catalog, "folder"), Some("\u{f07b}"));
    assert_eq!(Charset::Ascii.icon_named(&catalog, "dir"), Some("[d]"));
    assert_eq!(Charset::Ascii.icon_named(&catalog, "file"), None);
    assert_eq!(Charset::Ascii.icon(&catalog, Icon(0)), Some("[d]"));
    assert_eq!(Charset::Ascii.icon(&catalog, Icon(1)), None);
}

#[test]
fn rules_degrade_on_ascii_terminals() {
    assert_eq!(Charset::Ascii.rule_fill('═'), '-');
    assert_eq!(Charset::Ascii.rule_fill('='), '=');
    assert_eq!(Charset::Unicode.rule_fill('═'), '═');
}
