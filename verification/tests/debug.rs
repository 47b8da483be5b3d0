use omp_tui::input::{Chord, Key, Mouse};
use omp_tui::keyspec::{parse_keys, with_mods};
use omp_tui::requests::{parse_request, DebugOp, DebugRequest};

#[test]
fn key_spec_tokens_chords_and_literals() {
    let keys = parse_keys("tab C-c M-y 'hi there' x pgdn f5 alt-enter").expect("valid spec");
    assert_eq!(
        keys,
        vec![
            Chord::plain(Key::Tab),
            with_mods(Key::Char('c'), true, false, false),
            with_mods(Key::Char('y'), false, true, false),
            Chord::plain(Key::Char('h')),
            Chord::plain(Key::Char('i')),
            Chord::plain(Key::Space),
            Chord::plain(Key::Char('t')),
            Chord::plain(Key::Char('h')),
            Chord::plain(Key::Char('e')),
            Chord::plain(Key::Char('r')),
            Chord::plain(Key::Char('e')),
            Chord::plain(Key::Char('x')),
            Chord::plain(Key::PageDown),
            Chord::plain(Key::Function(5)),
            with_mods(Key::Enter, false, true, false),
        ]
    );
}

#[test]
fn key_spec_rejects_unknown_and_unterminated() {
    assert!(parse_keys("bogus-token").is_err());
    assert!(parse_keys("'open").is_err());
}

#[test]
fn request_lines_parse_by_op() {
    assert!(matches!(parse_request(br#"{"op":"text"}"#), Ok(DebugRequest::Query(DebugOp::Text))));
    assert!(matches!(
        parse_request(br#"{"op":"keys","keys":"enter"}"#),
        Ok(DebugRequest::Chords(chords)) if chords == vec![Chord::plain(Key::Enter)]
    ));
    assert!(matches!(parse_request(br#"{"op":"slots"}"#), Ok(DebugRequest::Query(DebugOp::Slots))));
    assert!(matches!(
        parse_request(br#"{"op":"effect","effect":{"kind":"mount_slot"}}"#),
        Ok(DebugRequest::Effect(effect)) if effect == r#"{"kind":"mount_slot"}"#
    ));
    assert!(parse_request(br#"{"op":"warp"}"#).is_err());
    let mouse = parse_request(br#"{"op":"mouse","x":3,"y":7,"action":"wheel-down"}"#);
    assert!(matches!(
        mouse,
        Ok(DebugRequest::Mouse(report))
            if report.kind == Mouse::WheelDown && report.col == 3 && report.row == 7
    ));
}
