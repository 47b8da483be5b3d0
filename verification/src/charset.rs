//! Glyph tiers: what a border, cursor or mark looks like on this terminal.

use vstd::prelude::*;
use vstd::string::*;

use crate::anim::{glyph_views, Frames};
use crate::completion::Icon;
use crate::markup::Border;
use crate::strings::same_text;

verus! {

/// Glyph capability tier.
#[derive(Clone, Copy, Debug, PartialEq, Eq, Structural)]
pub enum Charset {
    /// Full Unicode box drawing, geometric shapes, half blocks.
    Unicode,
    /// Unicode plus Nerd Font private-use glyphs where they read better.
    NerdFont,
    /// Pure 7-bit ASCII: every terminal, every font, every era.
    Ascii,
}

impl Default for Charset {
    fn default() -> (charset: Self)
        ensures
            charset == Charset::Unicode,
    {
        Charset::Unicode
    }
}

/// Table-grid glyph set: border rows as `(left, junction, right)` triples plus
/// the row-interior separators.
#[derive(Clone, Copy)]
pub struct Grid {
    /// Horizontal fill between junctions.
    pub fill: char,
    /// Left edge of a content row.
    pub lead: &'static str,
    /// Between-cells separator.
    pub mid: &'static str,
    /// Right edge of a content row.
    pub tail: &'static str,
    /// Top border row glyphs.
    pub top: (char, char, char),
    /// Separator row glyphs.
    pub middle: (char, char, char),
    /// Bottom border row glyphs.
    pub bottom: (char, char, char),
}

/// The glyphs of one icon on each tier.
pub struct IconEntry {
    /// The names the icon goes by.
    pub names: Vec<String>,
    /// Its glyph on Unicode terminals.
    pub unicode: String,
    /// Its glyph with a Nerd Font.
    pub nerd: String,
    /// Its glyph in ASCII.
    pub ascii: String,
}

/// The glyph an icon shows on a tier.
pub open spec fn icon_glyph(entry: IconEntry, charset: Charset) -> Seq<char> {
    match charset {
        Charset::Unicode => entry.unicode@,
        Charset::NerdFont => entry.nerd@,
        Charset::Ascii => entry.ascii@,
    }
}

/// Whether an icon goes by `name`.
pub open spec fn icon_named(entry: IconEntry, name: Seq<char>) -> bool {
    exists|i: int| 0 <= i < entry.names@.len() && (#[trigger] entry.names@[i])@ == name
}

/// The first icon of the catalog, from `at` on, that goes by `name`.
pub open spec fn icon_from(catalog: Seq<IconEntry>, name: Seq<char>, at: int) -> Option<int>
    decreases catalog.len() - at,
{
    if at < 0 || at >= catalog.len() {
        None
    } else if icon_named(catalog[at], name) {
        Some(at)
    } else {
        icon_from(catalog, name, at + 1)
    }
}

/// Whether an icon goes by `name`.
fn goes_by(entry: &IconEntry, name: &str) -> (yes: bool)
    ensures
        yes == icon_named(*entry, name@),
{
    let mut at: usize = 0;
    while at < entry.names.len()
        invariant
            at <= entry.names.len(),
            forall|i: int| 0 <= i < at ==> (#[trigger] entry.names@[i])@ != name@,
        decreases entry.names.len() - at,
    {
        if same_text(entry.names[at].as_str(), name) {
            return true;
        }
        at += 1;
    }
    false
}

impl Charset {
    /// Resolves a semantic icon of the catalog through this tier.
    pub fn icon(self, catalog: &Vec<IconEntry>, icon: Icon) -> (glyph: Option<&str>)
        ensures
            match glyph {
                Some(shown) => icon.0 < catalog@.len() && shown@ == icon_glyph(
                    catalog@[icon.0 as int],
                    self,
                ),
                None => icon.0 >= catalog@.len(),
            },
    {
        let at: usize = icon.0 as usize;
        if at >= catalog.len() {
            return None;
        }
        Some(self.glyph_of(&catalog[at]))
    }

    /// The glyph an icon shows on this tier.
    pub fn glyph_of(self, entry: &IconEntry) -> (glyph: &str)
        ensures
            glyph@ == icon_glyph(*entry, self),
    {
        match self {
            Charset::Unicode => entry.unicode.as_str(),
            Charset::NerdFont => entry.nerd.as_str(),
            Charset::Ascii => entry.ascii.as_str(),
        }
    }

    /// Resolves a short icon name or qualified compatibility alias.
    pub fn icon_named<'a>(self, catalog: &'a Vec<IconEntry>, name: &str) -> (glyph: Option<&'a str>)
        ensures
            match glyph {
                Some(shown) => icon_from(catalog@, name@, 0) is Some && shown@ == icon_glyph(
                    catalog@[icon_from(catalog@, name@, 0)->0],
                    self,
                ),
                None => icon_from(catalog@, name@, 0) is None,
            },
    {
        let mut at: usize = 0;
        while at < catalog.len()
            invariant
                at <= catalog.len(),
                icon_from(catalog@, name@, 0) == icon_from(catalog@, name@, at as int),
            decreases catalog.len() - at,
        {
            if goes_by(&catalog[at], name) {
                return Some(self.glyph_of(&catalog[at]));
            }
            at += 1;
        }
        None
    }


    /// Border glyph set for a box: `(tl, tr, bl, br, horizontal, vertical)`.
    pub fn border(self, border: Border) -> (glyphs: (char, char, char, char, char, char))
        ensures
            glyphs == border_glyphs(self, border),
    {
        match self {
            Charset::Ascii => ('+', '+', '+', '+', '-', '|'),
            _ => match border {
                Border::Square => ('┌', '┐', '└', '┘', '─', '│'),
                Border::Dash => ('┌', '┐', '└', '┘', '╌', '┆'),
                Border::Round => ('╭', '╮', '╰', '╯', '─', '│'),
                Border::Heavy => ('┏', '┓', '┗', '┛', '━', '┃'),
                Border::Double => ('╔', '╗', '╚', '╝', '═', '║'),
            },
        }
    }

    /// Focus cursor prefix, two cells wide.
    pub fn cursor(self) -> (glyph: &'static str)
        ensures
            glyph@ == (match self {
                Charset::Unicode => "❯ "@,
                Charset::NerdFont => "\u{f054} "@,
                Charset::Ascii => "> "@,
            }),
    {
        match self {
            Charset::Unicode => "❯ ",
            Charset::NerdFont => "\u{f054} ",
            Charset::Ascii => "> ",
        }
    }

    /// Radio mark for `selected`.
    pub fn radio(self, selected: bool) -> (glyph: &'static str)
        ensures
            glyph@ == (match self {
                Charset::Ascii => if selected {
                    "(o)"@
                } else {
                    "( )"@
                },
                Charset::NerdFont => if selected {
                    "\u{f192}"@
                } else {
                    "\u{f10c}"@
                },
                Charset::Unicode => if selected {
                    "◉"@
                } else {
                    "○"@
                },
            }),
    {
        match self {
            Charset::Ascii => if selected {
                "(o)"
            } else {
                "( )"
            },
            Charset::NerdFont => if selected {
                "\u{f192}"
            } else {
                "\u{f10c}"
            },
            Charset::Unicode => if selected {
                "◉"
            } else {
                "○"
            },
        }
    }

    /// Checkbox mark for `checked`.
    pub fn checkbox(self, checked: bool) -> (glyph: &'static str)
        ensures
            glyph@ == (match self {
                Charset::Ascii => if checked {
                    "[x]"@
                } else {
                    "[ ]"@
                },
                Charset::NerdFont => if checked {
                    "\u{f14a}"@
                } else {
                    "\u{f096}"@
                },
                Charset::Unicode => if checked {
                    "☑"@
                } else {
                    "☐"@
                },
            }),
    {
        match self {
            Charset::Ascii => if checked {
                "[x]"
            } else {
                "[ ]"
            },
            Charset::NerdFont => if checked {
                "\u{f14a}"
            } else {
                "\u{f096}"
            },
            Charset::Unicode => if checked {
                "☑"
            } else {
                "☐"
            },
        }
    }

    /// Tree expander of an open or shut branch.
    pub fn expander(self, open: bool) -> (glyph: &'static str)
        ensures
            glyph@ == (match self {
                Charset::Ascii => if open {
                    "v "@
                } else {
                    "> "@
                },
                Charset::Unicode | Charset::NerdFont => if open {
                    "▾ "@
                } else {
                    "▸ "@
                },
            }),
    {
        match self {
            Charset::Ascii => if open {
                "v "
            } else {
                "> "
            },
            Charset::Unicode | Charset::NerdFont => if open {
                "▾ "
            } else {
                "▸ "
            },
        }
    }

    /// Tree guide glyphs for a connector family: `(branch, last, continue)`.
    ///
    /// Each is two cells wide; ASCII terminals collapse every family to the
    /// same 7-bit set.
    pub fn guides(self, family: Border) -> (glyphs: (&'static str, &'static str, &'static str))
        ensures
            (glyphs.0@, glyphs.1@, glyphs.2@) == guide_glyphs(self, family),
    {
        match self {
            Charset::Ascii => ("|-", "`-", "| "),
            _ => match family {
                Border::Square => ("├─", "└─", "│ "),
                Border::Dash => ("├╌", "└╌", "┆ "),
                Border::Round => ("├─", "╰─", "│ "),
                Border::Heavy => ("┣━", "┗━", "┃ "),
                Border::Double => ("╠═", "╚═", "║ "),
            },
        }
    }

    /// Horizontal rule / divider fill character.
    pub fn rule(self) -> (fill: char)
        ensures
            fill == rule_glyph(self),
    {
        match self {
            Charset::Ascii => '-',
            _ => '─',
        }
    }

    /// A rule fill honoring this tier: non-ASCII requests (box-drawing,
    /// em-dashes) degrade to the plain rule character on ASCII terminals;
    /// ASCII requests pass through everywhere.
    pub fn rule_fill(self, requested: char) -> (fill: char)
        ensures
            fill == (if self == Charset::Ascii && requested > '\u{7f}' {
                '-'
            } else {
                requested
            }),
    {
        if self == Charset::Ascii && requested > '\u{7f}' {
            self.rule()
        } else {
            requested
        }
    }

    /// Blockquote rail prefix.
    pub fn quote_rail(self) -> (glyph: &'static str)
        ensures
            glyph@ == (match self {
                Charset::Ascii => "| "@,
                Charset::Unicode | Charset::NerdFont => "│ "@,
            }),
    {
        match self {
            Charset::Ascii => "| ",
            Charset::Unicode | Charset::NerdFont => "│ ",
        }
    }

    /// Grid chrome for cell-bordered tables: the square border strokes plus the
    /// tees and cross that a box border alone cannot provide.
    pub fn grid(self) -> (grid: Grid)
        ensures
            match self {
                Charset::Ascii => grid.fill == '-' && grid.lead@ == "| "@ && grid.mid@ == " | "@
                    && grid.tail@ == " |"@ && grid.top == ('+', '+', '+') && grid.middle == (
                    '+',
                    '+',
                    '+',
                ) && grid.bottom == ('+', '+', '+'),
                _ => grid.fill == '─' && grid.lead@ == "│ "@ && grid.mid@ == " │ "@ && grid.tail@
                    == " │"@ && grid.top == ('┌', '┬', '┐') && grid.middle == ('├', '┼', '┤')
                    && grid.bottom == ('└', '┴', '┘'),
            },
    {
        match self {
            Charset::Ascii => Grid {
                fill: '-',
                lead: "| ",
                mid: " | ",
                tail: " |",
                top: ('+', '+', '+'),
                middle: ('+', '+', '+'),
                bottom: ('+', '+', '+'),
            },
            _ => Grid {
                fill: '─',
                lead: "│ ",
                mid: " │ ",
                tail: " │",
                top: ('┌', '┬', '┐'),
                middle: ('├', '┼', '┤'),
                bottom: ('└', '┴', '┘'),
            },
        }
    }

    /// Scrollbar `(track, thumb)`.
    pub fn scrollbar(self) -> (glyphs: (&'static str, &'static str))
        ensures
            (glyphs.0@, glyphs.1@) == (match self {
                Charset::Ascii => ("|"@, "#"@),
                Charset::Unicode | Charset::NerdFont => ("│"@, "█"@),
            }),
    {
        match self {
            Charset::Ascii => ("|", "#"),
            Charset::Unicode | Charset::NerdFont => ("│", "█"),
        }
    }

    /// Progress bar `(filled, empty)`.
    pub fn progress(self) -> (glyphs: (&'static str, &'static str))
        ensures
            (glyphs.0@, glyphs.1@) == (match self {
                Charset::Ascii => ("#"@, "."@),
                Charset::Unicode | Charset::NerdFont => ("█"@, "░"@),
            }),
    {
        match self {
            Charset::Ascii => ("#", "."),
            Charset::Unicode | Charset::NerdFont => ("█", "░"),
        }
    }

    /// Pill chip caps `(left, right)`; empty in ASCII (flat chips).
    pub fn pill_caps(self) -> (glyphs: (&'static str, &'static str))
        ensures
            (glyphs.0@, glyphs.1@) == (match self {
                Charset::Ascii => (""@, ""@),
                Charset::Unicode | Charset::NerdFont => ("▐"@, "▌"@),
            }),
    {
        match self {
            Charset::Ascii => ("", ""),
            Charset::Unicode | Charset::NerdFont => ("▐", "▌"),
        }
    }

    /// Left rail glyph for editors and notes.
    pub fn rail(self) -> (glyph: &'static str)
        ensures
            glyph@ == (match self {
                Charset::Ascii => "| "@,
                Charset::Unicode | Charset::NerdFont => "▎ "@,
            }),
    {
        match self {
            Charset::Ascii => "| ",
            Charset::Unicode | Charset::NerdFont => "▎ ",
        }
    }

    /// Status-band chrome: `(left cap, segment separator, right cap)`.
    /// 
    /// Uses a thin powerline separator between segments and a solid powerline
    /// cap closing the group; only the Nerd Font tier has a soft opening cap.
    pub fn status_band(self) -> (glyphs: (&'static str, &'static str, &'static str))
        ensures
            (glyphs.0@, glyphs.1@, glyphs.2@) == (match self {
                Charset::Ascii => (""@, ">"@, ">"@),
                Charset::Unicode => (""@, ">"@, "▶"@),
                Charset::NerdFont => ("\u{e0b6}"@, "\u{e0b1}"@, "\u{e0b0}"@),
            }),
    {
        match self {
            Charset::Ascii => ("", ">", ">"),
            Charset::Unicode => ("", ">", "▶"),
            Charset::NerdFont => ("\u{e0b6}", "\u{e0b1}", "\u{e0b0}"),
        }
    }

    /// Right-docked status-band chrome, mirrored: the opening cap points left into
    /// the surrounding background and the closing edge ends flat, solid against the
    /// right margin.
    pub fn status_band_end(self) -> (glyphs: (&'static str, &'static str, &'static str))
        ensures
            (glyphs.0@, glyphs.1@, glyphs.2@) == (match self {
                Charset::Ascii => ("<"@, "<"@, ""@),
                Charset::Unicode => ("◀"@, "<"@, ""@),
                Charset::NerdFont => ("\u{e0b2}"@, "\u{e0b3}"@, ""@),
            }),
    {
        match self {
            Charset::Ascii => ("<", "<", ""),
            Charset::Unicode => ("◀", "<", ""),
            Charset::NerdFont => ("\u{e0b2}", "\u{e0b3}", ""),
        }
    }

    /// Lift-shadow glyph under risen chrome; `None` skips the shadow: ASCII has
    /// no half blocks worth faking with punctuation.
    pub fn shadow(self) -> (glyph: Option<&'static str>)
        ensures
            match glyph {
                Some(shown) => self != Charset::Ascii && shown@ == "▀"@,
                None => self == Charset::Ascii,
            },
    {
        match self {
            Charset::Ascii => None,
            _ => Some("▀"),
        }
    }

    /// Spinner animation frames for this tier.
    pub fn spinner(self) -> (frames: Frames)
        ensures
            frames.wf(),
            (glyph_views(frames.glyphs@), frames.step) == spinner_frames(self),
    {
        let frames: Frames = match self {
            Charset::Ascii => Frames {
                glyphs: vec![
                    "|", "/", "-", "\\",
                ],
                step: 120,
            },
            Charset::Unicode | Charset::NerdFont => Frames {
                glyphs: vec![
                    "⠋", "⠙", "⠹", "⠸", "⠼", "⠴", "⠦", "⠧", "⠇", "⠏",
                ],
                step: 80,
            },
        };
        assert(glyph_views(frames.glyphs@) =~= spinner_frames(self).0);
        frames
    }

    /// Tool-status spinner frames for this tier, advancing every 80ms on the
    /// shared clock so every live tool card shows the same glyph at once.
    pub fn status_spinner(self) -> (frames: Frames)
        ensures
            frames.wf(),
            (glyph_views(frames.glyphs@), frames.step) == status_spinner_frames(self),
    {
        let frames: Frames = match self {
            Charset::Ascii => Frames {
                glyphs: vec![
                    "|", "/", "-", "\\",
                ],
                step: 80,
            },
            Charset::Unicode => Frames {
                glyphs: vec![
                    "⣾", "⣽", "⣻", "⢿", "⡿", "⣟", "⣯", "⣷",
                ],
                step: 80,
            },
            Charset::NerdFont => Frames {
                glyphs: vec![
                    "\u{f1456}", "\u{f144b}", "\u{f144c}", "\u{f144d}", "\u{f144e}",
                    "\u{f144f}", "\u{f1450}", "\u{f1451}", "\u{f1452}", "\u{f1453}",
                    "\u{f1454}", "\u{f1455}",
                ],
                step: 80,
            },
        };
        assert(glyph_views(frames.glyphs@) =~= status_spinner_frames(self).0);
        frames
    }

    /// Low-amplitude activity pulse frames for this tier.
    pub fn pulse(self) -> (frames: Frames)
        ensures
            frames.wf(),
            (glyph_views(frames.glyphs@), frames.step) == pulse_frames(self),
    {
        let frames: Frames = match self {
            Charset::Ascii => Frames {
                glyphs: vec![
                    ".", "o", "O", "o", ".",
                ],
                step: 120,
            },
            Charset::Unicode | Charset::NerdFont => Frames {
                glyphs: vec![
                    "·", "•", "●", "•", "·",
                ],
                step: 120,
            },
        };
        assert(glyph_views(frames.glyphs@) =~= pulse_frames(self).0);
        frames
    }

    /// Starburst facets for the breathing thinking pulse: eight single-cell
    /// glyphs cycled in place.
    pub fn starburst(self) -> (facets: Vec<&'static str>)
        ensures
            glyph_views(facets@) == (match self {
                Charset::Ascii => seq!["*"@, "+"@, "x"@, "#"@, "*"@, "+"@, "x"@, "#"@],
                _ => seq!["✻"@, "✼"@, "❉"@, "❊"@, "✺"@, "✹"@, "✸"@, "✶"@],
            }),
    {
        let facets: Vec<&'static str> = match self {
            Charset::Ascii => vec!["*", "+", "x", "#", "*", "+", "x", "#"],
            _ => vec!["✻", "✼", "❉", "❊", "✺", "✹", "✸", "✶"],
        };
        assert(glyph_views(facets@) =~= match self {
            Charset::Ascii => seq!["*"@, "+"@, "x"@, "#"@, "*"@, "+"@, "x"@, "#"@],
            _ => seq!["✻"@, "✼"@, "❉"@, "❊"@, "✺"@, "✹"@, "✸"@, "✶"@],
        });
        facets
    }

    /// Text cursor beam shown in inline edit modes.
    pub fn beam(self) -> (glyph: &'static str)
        ensures
            glyph@ == (match self {
                Charset::Ascii => "_"@,
                Charset::Unicode | Charset::NerdFont => "▏"@,
            }),
    {
        match self {
            Charset::Ascii => "_",
            Charset::Unicode | Charset::NerdFont => "▏",
        }
    }

    /// Success / chosen mark.
    pub fn check(self) -> (glyph: &'static str)
        ensures
            glyph@ == (match self {
                Charset::Ascii => "*"@,
                Charset::NerdFont => "\u{f00c}"@,
                Charset::Unicode => "✓"@,
            }),
    {
        match self {
            Charset::Ascii => "*",
            Charset::NerdFont => "\u{f00c}",
            Charset::Unicode => "✓",
        }
    }

    /// Note header icon.
    pub fn note_icon(self) -> (glyph: &'static str)
        ensures
            glyph@ == (match self {
                Charset::Ascii => "[i]"@,
                Charset::NerdFont => "\u{f05a}"@,
                Charset::Unicode => "ℹ"@,
            }),
    {
        match self {
            Charset::Ascii => "[i]",
            Charset::NerdFont => "\u{f05a}",
            Charset::Unicode => "ℹ",
        }
    }

    /// Enum-cycle affordance `(left, right)` arrows.
    pub fn arrows(self) -> (glyphs: (&'static str, &'static str))
        ensures
            (glyphs.0@, glyphs.1@) == (match self {
                Charset::Ascii => ("<"@, ">"@),
                Charset::Unicode | Charset::NerdFont => ("◂"@, "▸"@),
            }),
    {
        match self {
            Charset::Ascii => ("<", ">"),
            Charset::Unicode | Charset::NerdFont => ("◂", "▸"),
        }
    }

    /// Dropdown-opens-here affordance.
    pub fn dropdown(self) -> (glyph: &'static str)
        ensures
            glyph@ == (match self {
                Charset::Ascii => " v"@,
                Charset::Unicode | Charset::NerdFont => " ▾"@,
            }),
    {
        match self {
            Charset::Ascii => " v",
            Charset::Unicode | Charset::NerdFont => " ▾",
        }
    }
}

/// Border glyphs of a tier: `(tl, tr, bl, br, horizontal, vertical)`.
pub open spec fn border_glyphs(charset: Charset, border: Border) -> (
    char,
    char,
    char,
    char,
    char,
    char,
) {
    match charset {
        Charset::Ascii => ('+', '+', '+', '+', '-', '|'),
        _ => match border {
            Border::Square => ('┌', '┐', '└', '┘', '─', '│'),
            Border::Dash => ('┌', '┐', '└', '┘', '╌', '┆'),
            Border::Round => ('╭', '╮', '╰', '╯', '─', '│'),
            Border::Heavy => ('┏', '┓', '┗', '┛', '━', '┃'),
            Border::Double => ('╔', '╗', '╚', '╝', '═', '║'),
        },
    }
}

/// Tree guides of a tier: `(branch, last, continue)`.
pub open spec fn guide_glyphs(charset: Charset, family: Border) -> (Seq<char>, Seq<char>, Seq<char>) {
    match charset {
        Charset::Ascii => ("|-"@, "`-"@, "| "@),
        _ => match family {
            Border::Square => ("├─"@, "└─"@, "│ "@),
            Border::Dash => ("├╌"@, "└╌"@, "┆ "@),
            Border::Round => ("├─"@, "╰─"@, "│ "@),
            Border::Heavy => ("┣━"@, "┗━"@, "┃ "@),
            Border::Double => ("╠═"@, "╚═"@, "║ "@),
        },
    }
}

/// The divider fill of a tier.
pub open spec fn rule_glyph(charset: Charset) -> char {
    match charset {
        Charset::Ascii => '-',
        _ => '─',
    }
}

/// The glyphs of `spinner`, with the time each is shown.
pub open spec fn spinner_frames(charset: Charset) -> (Seq<Seq<char>>, u64) {
    match charset {
        Charset::Ascii => (
            seq![
                "|"@, "/"@, "-"@, "\\"@,
            ],
            120,
        ),
        Charset::Unicode | Charset::NerdFont => (
            seq![
                "⠋"@, "⠙"@, "⠹"@, "⠸"@, "⠼"@, "⠴"@, "⠦"@, "⠧"@, "⠇"@, "⠏"@,
            ],
            80,
        ),
    }
}

/// The glyphs of `status_spinner`, with the time each is shown.
pub open spec fn status_spinner_frames(charset: Charset) -> (Seq<Seq<char>>, u64) {
    match charset {
        Charset::Ascii => (
            seq![
                "|"@, "/"@, "-"@, "\\"@,
            ],
            80,
        ),
        Charset::Unicode => (
            seq![
                "⣾"@, "⣽"@, "⣻"@, "⢿"@, "⡿"@, "⣟"@, "⣯"@, "⣷"@,
            ],
            80,
        ),
        Charset::NerdFont => (
            seq![
                "\u{f1456}"@, "\u{f144b}"@, "\u{f144c}"@, "\u{f144d}"@, "\u{f144e}"@,
                "\u{f144f}"@, "\u{f1450}"@, "\u{f1451}"@, "\u{f1452}"@, "\u{f1453}"@,
                "\u{f1454}"@, "\u{f1455}"@,
            ],
            80,
        ),
    }
}

/// The glyphs of `pulse`, with the time each is shown.
pub open spec fn pulse_frames(charset: Charset) -> (Seq<Seq<char>>, u64) {
    match charset {
        Charset::Ascii => (
            seq![
                "."@, "o"@, "O"@, "o"@, "."@,
            ],
            120,
        ),
        Charset::Unicode | Charset::NerdFont => (
            seq![
                "·"@, "•"@, "●"@, "•"@, "·"@,
            ],
            120,
        ),
    }
}

/// Every glyph an ASCII terminal is given for a border or rule is ASCII.
pub proof fn ascii_chrome_is_ascii(border: Border)
    ensures
        ({
            let glyphs = border_glyphs(Charset::Ascii, border);
            glyphs.0 <= '\u{7f}' && glyphs.1 <= '\u{7f}' && glyphs.2 <= '\u{7f}' && glyphs.3
                <= '\u{7f}' && glyphs.4 <= '\u{7f}' && glyphs.5 <= '\u{7f}'
        }),
        rule_glyph(Charset::Ascii) <= '\u{7f}',
{
}

} // verus!
