use omp_tui::escape::{control, escape, Control, Mode};

#[test]
fn mode_polarity_uses_bare_set_and_bang_reset() {
    assert_eq!(
        escape(&vec![
            Control::Enable(Mode::AppCursorKeys),
            Control::Disable(Mode::AppCursorKeys),
            Control::Query(Mode::AppCursorKeys),
            Control::Enable(Mode::AppKeypad),
            Control::Disable(Mode::AppKeypad),
            Control::Enable(Mode::ModifyOtherKeys),
            Control::Disable(Mode::ModifyOtherKeys),
        ]),
        "\x1b[?1h\x1b[?1l\x1b[?1$p\x1b=\x1b>\x1b[>4;2m\x1b[>4;0m"
    );
}

#[test]
fn introducers_compose_with_literal_payloads() {
    assert_eq!(
        escape(&vec![Control::Osc, Control::Literal("11;?"), Control::Bel]),
        "\x1b]11;?\x07"
    );
    assert_eq!(
        escape(&vec![
            Control::Dcs,
            Control::Literal("tmux;"),
            Control::Escape,
            Control::Apc,
            Control::Literal("G"),
            Control::Escape,
            Control::St,
            Control::St,
        ]),
        "\x1bPtmux;\x1b\x1b_G\x1b\x1b\\\x1b\\"
    );
}

#[test]
fn protocol_queries_read_as_capabilities_not_wire_syntax() {
    assert_eq!(
        escape(&vec![
            Control::KittyGraphicsQuery,
            Control::SixelColorRegistersQuery,
            Control::CellPixelsQuery,
            Control::BackgroundColorQuery,
            Control::Osc99Query,
            Control::Query(Mode::InsertMode),
            Control::Query(Mode::NewlineMode),
            Control::Query(Mode::ScrollOnOutput),
            Control::Query(Mode::ScrollOnKeyPress),
            Control::Query(Mode::SyncOutput),
            Control::Query(Mode::AppearanceNotifications),
            Control::Query(Mode::InBandResize),
            Control::KittyKeyboardQuery,
            Control::PrimaryDeviceAttributesQuery,
        ]),
        "\x1b_Gi=31,s=1,v=1,a=q,t=d,f=24;AAAA\x1b\\\
         \x1b[?2;1;0S\x1b[16t\x1b]11;?\x07\
         \x1b]99;i=omp-tui:p=?;\x1b\\\
         \x1b[4$p\x1b[20$p\x1b[?1010$p\x1b[?1011$p\x1b[?2026$p\
         \x1b[?2031$p\x1b[?2048$p\
         \x1b[?u\x1b[c"
    );
}

#[test]
fn stateful_modes_pair_set_and_reset_byte_exactly() {
    let mut commands = Vec::new();
    for mode in [
        Mode::InsertMode,
        Mode::NewlineMode,
        Mode::AltScreen,
        Mode::CursorVisible,
        Mode::Autowrap,
        Mode::Origin,
        Mode::BracketedPaste,
        Mode::SyncOutput,
        Mode::InBandResize,
        Mode::AppearanceNotifications,
        Mode::PasteEvents,
        Mode::ScrollOnOutput,
        Mode::ScrollOnKeyPress,
        Mode::MouseVt200,
        Mode::MouseButtonEvent,
        Mode::MouseAnyEvent,
        Mode::MouseSgr,
    ] {
        commands.push(Control::Enable(mode));
        commands.push(Control::Disable(mode));
    }
    assert_eq!(
        escape(&commands),
        "\x1b[4h\x1b[4l\x1b[20h\x1b[20l\
         \x1b[?1049h\x1b[?1049l\x1b[?25h\x1b[?25l\x1b[?7h\x1b[?7l\x1b[?6h\x1b[?6l\
         \x1b[?2004h\x1b[?2004l\x1b[?2026h\x1b[?2026l\x1b[?2048h\x1b[?2048l\
         \x1b[?2031h\x1b[?2031l\x1b[?5522h\x1b[?5522l\
         \x1b[?1010h\x1b[?1010l\x1b[?1011h\x1b[?1011l\
         \x1b[?1000h\x1b[?1000l\x1b[?1002h\x1b[?1002l\x1b[?1003h\x1b[?1003l\
         \x1b[?1006h\x1b[?1006l"
    );
}

#[test]
fn stateless_controls_and_stacks_are_byte_exact() {
    assert_eq!(
        escape(&vec![
            Control::CursorHome,
            Control::CursorUp,
            Control::CursorDown,
            Control::CursorForward,
            Control::EraseDisplay,
            Control::EraseLine,
            Control::EraseScrollback,
            Control::ScreenToScrollback,
            Control::MarginsReset,
            Control::ScrollRegion,
            Control::StylePrefix,
            Control::StyleReset,
            Control::ViewportBottom,
            Control::ViewportNewline,
            Control::TitlePush,
            Control::TitlePop,
            Control::KittyKeyboardPop,
            Control::ProgressClear,
        ]),
        "\x1b[H\x1b[{}A\x1b[{}B\x1b[{}C\x1b[2J\x1b[2K\x1b[3J\x1b[22J\x1b[r\x1b[1;{}r\
         \x1b[0\x1b[0m\x1b[65535B\r\x1b[999;1H\r\n\
         \x1b[22;0t\x1b[23;0t\x1b[<u\x1b]9;4;0;\x07"
    );
}

#[test]
fn cursor_styles_are_byte_exact() {
    assert_eq!(
        escape(&vec![
            Control::CursorStyleDefault,
            Control::CursorStyleBlinkingBlock,
            Control::CursorStyleSteadyBlock,
            Control::CursorStyleBlinkingUnderline,
            Control::CursorStyleSteadyUnderline,
            Control::CursorStyleBlinkingBar,
            Control::CursorStyleSteadyBar,
        ]),
        "\x1b[0 q\x1b[1 q\x1b[2 q\x1b[3 q\x1b[4 q\x1b[5 q\x1b[6 q"
    );
    assert_eq!(escape(&Vec::new()), "");
    assert_eq!(control(Control::Csi), "\x1b[");
}
