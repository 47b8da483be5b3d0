//! Terminal control strings, built from semantic commands.

use vstd::prelude::*;
use vstd::string::*;

use crate::numbers::{decimal, to_decimal};

verus! {

/// A mode of the terminal that is switched on and off.
#[derive(Clone, Copy, Debug, PartialEq, Eq, Structural)]
pub enum Mode {
    /// Typed text moves the line along.
    InsertMode,
    /// Line feeds return the carriage.
    NewlineMode,
    /// The alternate screen.
    AltScreen,
    /// Cursor keys send application sequences.
    AppCursorKeys,
    /// The terminal reports changes of its appearance.
    AppearanceNotifications,
    /// Text past the right margin goes on in the next line.
    Autowrap,
    /// Pasted text comes between brackets.
    BracketedPaste,
    /// The cursor is shown.
    CursorVisible,
    /// The terminal reports changes of its size.
    InBandResize,
    /// The pointer is reported wherever it moves.
    MouseAnyEvent,
    /// The pointer is reported while a button is held.
    MouseButtonEvent,
    /// Pointer reports are written in decimal.
    MouseSgr,
    /// Presses and releases of buttons are reported.
    MouseVt200,
    /// Positions count from the margins.
    Origin,
    /// The terminal announces pastes.
    PasteEvents,
    /// A key press scrolls to the end.
    ScrollOnKeyPress,
    /// Output scrolls to the end.
    ScrollOnOutput,
    /// Output is shown only when it is complete.
    SyncOutput,
    /// The keypad sends application sequences.
    AppKeypad,
    /// Keys report all their modifiers.
    ModifyOtherKeys,
}

/// A control command.
#[derive(Clone, Copy)]
pub enum Control {
    /// Switches a mode on.
    Enable(Mode),
    /// Switches a mode off.
    Disable(Mode),
    /// Asks for the state of a mode.
    Query(Mode),
    /// Text that is sent as it is.
    Literal(&'static str),
    /// The escape character.
    Escape,
    /// Introduces a control sequence.
    Csi,
    /// Introduces an operating system command.
    Osc,
    /// Introduces a device control string.
    Dcs,
    /// Introduces an application program command.
    Apc,
    /// Terminates a string.
    St,
    /// Rings the bell, or terminates a command.
    Bel,
    /// Asks for the background color.
    BackgroundColorQuery,
    /// Asks for the size of a cell in pixels.
    CellPixelsQuery,
    /// Asks for the kitty graphics protocol.
    KittyGraphicsQuery,
    /// Asks for the kitty keyboard protocol.
    KittyKeyboardQuery,
    /// Asks for desktop notifications.
    Osc99Query,
    /// Asks what the terminal is.
    PrimaryDeviceAttributesQuery,
    /// Asks for the color registers of sixel graphics.
    SixelColorRegistersQuery,
    /// Moves the cursor to the first cell.
    CursorHome,
    /// Moves the cursor forward, as a template.
    CursorForward,
    /// Moves the cursor up, as a template.
    CursorUp,
    /// Moves the cursor down, as a template.
    CursorDown,
    /// Clears the screen.
    EraseDisplay,
    /// Clears the line.
    EraseLine,
    /// Clears the scrollback.
    EraseScrollback,
    /// Scrolls the whole screen again.
    MarginsReset,
    /// Moves the screen into the scrollback.
    ScreenToScrollback,
    /// Scrolls the first lines only, as a template.
    ScrollRegion,
    /// Starts a style from the default.
    StylePrefix,
    /// Returns to the default style.
    StyleReset,
    /// Moves the cursor to the start of the last line.
    ViewportBottom,
    /// Starts a line below the last.
    ViewportNewline,
    /// Restores the earlier keyboard protocol.
    KittyKeyboardPop,
    /// Takes the progress mark away.
    ProgressClear,
    /// Restores the earlier title.
    TitlePop,
    /// Keeps the title.
    TitlePush,
    /// The cursor of the user's choice.
    CursorStyleDefault,
    /// A blinking block.
    CursorStyleBlinkingBlock,
    /// A steady block.
    CursorStyleSteadyBlock,
    /// A blinking underline.
    CursorStyleBlinkingUnderline,
    /// A steady underline.
    CursorStyleSteadyUnderline,
    /// A blinking bar.
    CursorStyleBlinkingBar,
    /// A steady bar.
    CursorStyleSteadyBar,
}

/// Number of a mode, and whether it is one of the private modes; `None` for the
/// modes that have sequences of their own.
pub open spec fn mode_code(mode: Mode) -> Option<(bool, u64)> {
    match mode {
        Mode::InsertMode => Some((false, 4)),
        Mode::NewlineMode => Some((false, 20)),
        Mode::AltScreen => Some((true, 1049)),
        Mode::AppCursorKeys => Some((true, 1)),
        Mode::AppearanceNotifications => Some((true, 2031)),
        Mode::Autowrap => Some((true, 7)),
        Mode::BracketedPaste => Some((true, 2004)),
        Mode::CursorVisible => Some((true, 25)),
        Mode::InBandResize => Some((true, 2048)),
        Mode::MouseAnyEvent => Some((true, 1003)),
        Mode::MouseButtonEvent => Some((true, 1002)),
        Mode::MouseSgr => Some((true, 1006)),
        Mode::MouseVt200 => Some((true, 1000)),
        Mode::Origin => Some((true, 6)),
        Mode::PasteEvents => Some((true, 5522)),
        Mode::ScrollOnKeyPress => Some((true, 1011)),
        Mode::ScrollOnOutput => Some((true, 1010)),
        Mode::SyncOutput => Some((true, 2026)),
        Mode::AppKeypad => None,
        Mode::ModifyOtherKeys => None,
    }
}

/// Whether the terminal answers for a mode.
pub open spec fn answers(mode: Mode) -> bool {
    mode_code(mode) is Some
}

/// A mode sequence: its number between the introducer and `tail`.
pub open spec fn numbered(code: (bool, u64), tail: Seq<char>) -> Seq<char> {
    (if code.0 {
        "\x1b[?"@
    } else {
        "\x1b["@
    }) + decimal(code.1 as nat) + tail
}

/// What switches a mode on.
pub open spec fn set_text(mode: Mode) -> Seq<char> {
    match mode_code(mode) {
        Some(code) => numbered(code, "h"@),
        None => if mode == Mode::AppKeypad {
            "\x1b="@
        } else {
            "\x1b[>4;2m"@
        },
    }
}

/// What switches a mode off.
pub open spec fn reset_text(mode: Mode) -> Seq<char> {
    match mode_code(mode) {
        Some(code) => numbered(code, "l"@),
        None => if mode == Mode::AppKeypad {
            "\x1b>"@
        } else {
            "\x1b[>4;0m"@
        },
    }
}

/// The characters of a command.
pub open spec fn control_text(control: Control) -> Seq<char> {
    match control {
        Control::Enable(mode) => set_text(mode),
        Control::Disable(mode) => reset_text(mode),
        Control::Query(mode) => match mode_code(mode) {
            Some(code) => numbered(code, "$p"@),
            None => Seq::empty(),
        },
        Control::Literal(text) => text@,
        Control::Escape => "\x1b"@,
        Control::Csi => "\x1b["@,
        Control::Osc => "\x1b]"@,
        Control::Dcs => "\x1bP"@,
        Control::Apc => "\x1b_"@,
        Control::St => "\x1b\\"@,
        Control::Bel => "\x07"@,
        Control::BackgroundColorQuery => "\x1b]11;?\x07"@,
        Control::CellPixelsQuery => "\x1b[16t"@,
        Control::KittyGraphicsQuery => "\x1b_Gi=31,s=1,v=1,a=q,t=d,f=24;AAAA\x1b\\"@,
        Control::KittyKeyboardQuery => "\x1b[?u"@,
        Control::Osc99Query => "\x1b]99;i=omp-tui:p=?;\x1b\\"@,
        Control::PrimaryDeviceAttributesQuery => "\x1b[c"@,
        Control::SixelColorRegistersQuery => "\x1b[?2;1;0S"@,
        Control::CursorHome => "\x1b[H"@,
        Control::CursorForward => "\x1b[{}C"@,
        Control::CursorUp => "\x1b[{}A"@,
        Control::CursorDown => "\x1b[{}B"@,
        Control::EraseDisplay => "\x1b[2J"@,
        Control::EraseLine => "\x1b[2K"@,
        Control::EraseScrollback => "\x1b[3J"@,
        Control::MarginsReset => "\x1b[r"@,
        Control::ScreenToScrollback => "\x1b[22J"@,
        Control::ScrollRegion => "\x1b[1;{}r"@,
        Control::StylePrefix => "\x1b[0"@,
        Control::StyleReset => "\x1b[0m"@,
        Control::ViewportBottom => "\x1b[65535B\r"@,
        Control::ViewportNewline => "\x1b[999;1H\r\n"@,
        Control::KittyKeyboardPop => "\x1b[<u"@,
        Control::ProgressClear => "\x1b]9;4;0;\x07"@,
        Control::TitlePop => "\x1b[23;0t"@,
        Control::TitlePush => "\x1b[22;0t"@,
        Control::CursorStyleDefault => "\x1b[0 q"@,
        Control::CursorStyleBlinkingBlock => "\x1b[1 q"@,
        Control::CursorStyleSteadyBlock => "\x1b[2 q"@,
        Control::CursorStyleBlinkingUnderline => "\x1b[3 q"@,
        Control::CursorStyleSteadyUnderline => "\x1b[4 q"@,
        Control::CursorStyleBlinkingBar => "\x1b[5 q"@,
        Control::CursorStyleSteadyBar => "\x1b[6 q"@,
    }
}

/// The characters of the first `count` commands, one behind the other.
pub open spec fn controls_text(controls: Seq<Control>, count: int) -> Seq<char>
    decreases count,
{
    if count <= 0 {
        Seq::empty()
    } else {
        controls_text(controls, count - 1) + control_text(controls[count - 1])
    }
}

/// Number of a mode, and whether it is one of the private modes.
fn code_of(mode: Mode) -> (code: Option<(bool, u64)>)
    ensures
        code == mode_code(mode),
{
    match mode {
        Mode::InsertMode => Some((false, 4)),
        Mode::NewlineMode => Some((false, 20)),
        Mode::AltScreen => Some((true, 1049)),
        Mode::AppCursorKeys => Some((true, 1)),
        Mode::AppearanceNotifications => Some((true, 2031)),
        Mode::Autowrap => Some((true, 7)),
        Mode::BracketedPaste => Some((true, 2004)),
        Mode::CursorVisible => Some((true, 25)),
        Mode::InBandResize => Some((true, 2048)),
        Mode::MouseAnyEvent => Some((true, 1003)),
        Mode::MouseButtonEvent => Some((true, 1002)),
        Mode::MouseSgr => Some((true, 1006)),
        Mode::MouseVt200 => Some((true, 1000)),
        Mode::Origin => Some((true, 6)),
        Mode::PasteEvents => Some((true, 5522)),
        Mode::ScrollOnKeyPress => Some((true, 1011)),
        Mode::ScrollOnOutput => Some((true, 1010)),
        Mode::SyncOutput => Some((true, 2026)),
        Mode::AppKeypad => None,
        Mode::ModifyOtherKeys => None,
    }
}

/// A mode sequence: its number between the introducer and `tail`.
fn mode_sequence(code: (bool, u64), tail: &str) -> (text: String)
    ensures
        text@ == numbered(code, tail@),
{
    let mut text: String = if code.0 {
        "\x1b[?".to_owned()
    } else {
        "\x1b[".to_owned()
    };
    let number: String = to_decimal(code.1);
    text.append(number.as_str());
    text.append(tail);
    text
}

/// The characters of a command that takes no mode.
fn plain_control(control: Control) -> (text: &'static str)
    requires
        !(control is Enable || control is Disable || control is Query),
    ensures
        text@ == control_text(control),
{
    match control {
        Control::Literal(text) => text,
        Control::Escape => "\x1b",
        Control::Csi => "\x1b[",
        Control::Osc => "\x1b]",
        Control::Dcs => "\x1bP",
        Control::Apc => "\x1b_",
        Control::St => "\x1b\\",
        Control::Bel => "\x07",
        Control::BackgroundColorQuery => "\x1b]11;?\x07",
        Control::CellPixelsQuery => "\x1b[16t",
        Control::KittyGraphicsQuery => "\x1b_Gi=31,s=1,v=1,a=q,t=d,f=24;AAAA\x1b\\",
        Control::KittyKeyboardQuery => "\x1b[?u",
        Control::Osc99Query => "\x1b]99;i=omp-tui:p=?;\x1b\\",
        Control::PrimaryDeviceAttributesQuery => "\x1b[c",
        Control::SixelColorRegistersQuery => "\x1b[?2;1;0S",
        Control::CursorHome => "\x1b[H",
        Control::CursorForward => "\x1b[{}C",
        Control::CursorUp => "\x1b[{}A",
        Control::CursorDown => "\x1b[{}B",
        Control::EraseDisplay => "\x1b[2J",
        Control::EraseLine => "\x1b[2K",
        Control::EraseScrollback => "\x1b[3J",
        Control::MarginsReset => "\x1b[r",
        Control::ScreenToScrollback => "\x1b[22J",
        Control::ScrollRegion => "\x1b[1;{}r",
        Control::StylePrefix => "\x1b[0",
        Control::StyleReset => "\x1b[0m",
        Control::ViewportBottom => "\x1b[65535B\r",
        Control::ViewportNewline => "\x1b[999;1H\r\n",
        Control::KittyKeyboardPop => "\x1b[<u",
        Control::ProgressClear => "\x1b]9;4;0;\x07",
        Control::TitlePop => "\x1b[23;0t",
        Control::TitlePush => "\x1b[22;0t",
        Control::CursorStyleDefault => "\x1b[0 q",
        Control::CursorStyleBlinkingBlock => "\x1b[1 q",
        Control::CursorStyleSteadyBlock => "\x1b[2 q",
        Control::CursorStyleBlinkingUnderline => "\x1b[3 q",
        Control::CursorStyleSteadyUnderline => "\x1b[4 q",
        Control::CursorStyleBlinkingBar => "\x1b[5 q",
        Control::CursorStyleSteadyBar => "\x1b[6 q",
        _ => "",
    }
}

/// The control string of one command. Modes that the terminal does not answer
/// for cannot be asked for.
pub fn control(command: Control) -> (text: String)
    requires
        command matches Control::Query(mode) ==> answers(mode),
    ensures
        text@ == control_text(command),
{
    match command {
        Control::Enable(mode) => match code_of(mode) {
            Some(code) => mode_sequence(code, "h"),
            None => if mode == Mode::AppKeypad {
                "\x1b=".to_owned()
            } else {
                "\x1b[>4;2m".to_owned()
            },
        },
        Control::Disable(mode) => match code_of(mode) {
            Some(code) => mode_sequence(code, "l"),
            None => if mode == Mode::AppKeypad {
                "\x1b>".to_owned()
            } else {
                "\x1b[>4;0m".to_owned()
            },
        },
        Control::Query(mode) => match code_of(mode) {
            Some(code) => mode_sequence(code, "$p"),
            None => String::new(),
        },
        _ => plain_control(command).to_owned(),
    }
}

/// Builds a terminal control string from semantic commands, one behind the
/// other.
pub fn escape(commands: &Vec<Control>) -> (text: String)
    requires
        forall|i: int|
            #![trigger commands@[i]]
            0 <= i < commands@.len() ==> (commands@[i] matches Control::Query(mode) ==> answers(
                mode,
            )),
    ensures
        text@ == controls_text(commands@, commands@.len() as int),
{
    let mut text: String = "".to_owned();
    proof {
        reveal_strlit("");
    }
    assert(text@ =~= Seq::empty());
    let mut at: usize = 0;
    while at < commands.len()
        invariant
            at <= commands.len(),
            forall|i: int|
                #![trigger commands@[i]]
                0 <= i < commands@.len() ==> (commands@[i] matches Control::Query(mode) ==> answers(
                    mode,
                )),
            text@ == controls_text(commands@, at as int),
        decreases commands.len() - at,
    {
        let part: String = control(commands[at]);
        text.append(part.as_str());
        at += 1;
    }
    text
}

/// What switches a mode on differs from what switches it off in the final
/// alone: `h` against `l`.
pub proof fn numbered_modes_pair(mode: Mode)
    requires
        answers(mode),
    ensures
        set_text(mode).drop_last() == reset_text(mode).drop_last(),
        set_text(mode).last() == 'h',
        reset_text(mode).last() == 'l',
{
    reveal_strlit("h");
    reveal_strlit("l");
    let code = mode_code(mode)->0;
    let head = (if code.0 {
        "\x1b[?"@
    } else {
        "\x1b["@
    }) + decimal(code.1 as nat);
    assert(set_text(mode).drop_last() =~= head);
    assert(reset_text(mode).drop_last() =~= head);
}

} // verus!
