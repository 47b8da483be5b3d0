//! Cell styles and the hyperlink targets they carry.

use vstd::prelude::*;

use crate::color::Color;
use crate::strings::same_text;

verus! {

/// Stable identity for one terminal hyperlink target.
///
/// IDs are interned from URLs so copied rich-text styles and frame cells carry
/// only a compact typed handle. The renderer resolves the handle immediately
/// before materializing OSC 8.
#[derive(Clone, Copy, Debug, PartialEq, Eq, Structural)]
pub struct LinkId(u32);

impl LinkId {
    /// The number behind the handle.
    pub closed spec fn number(self) -> u32 {
        self.0
    }

    /// The number behind the handle, as the renderer writes it.
    pub fn get(self) -> (number: u32)
        ensures
            number == self.number(),
    {
        self.0
    }
}

/// The hyperlink targets known so far, in the order they were first seen.
pub struct LinkRegistry {
    urls: Vec<String>,
}

impl LinkRegistry {
    /// The targets, in the order they were first seen.
    pub closed spec fn targets(self) -> Seq<Seq<char>> {
        self.urls@.map_values(|url: String| url@)
    }

    /// No target is listed twice, and every position has a handle.
    pub open spec fn wf(self) -> bool {
        &&& self.targets().no_duplicates()
        &&& self.targets().len() <= u32::MAX
    }

    /// The target behind a handle.
    pub open spec fn target(self, id: LinkId) -> Option<Seq<char>> {
        if 1 <= id.number() <= self.targets().len() {
            Some(self.targets()[id.number() - 1])
        } else {
            None
        }
    }

    /// Creates a registry without targets.
    pub fn new() -> (links: Self)
        ensures
            links.wf(),
            links.targets() == Seq::<Seq<char>>::empty(),
    {
        let links = LinkRegistry { urls: Vec::new() };
        assert(links.targets() =~= Seq::<Seq<char>>::empty());
        links
    }

    /// Hands out the handle of `url`, listing it when it is new.
    pub fn intern(&mut self, url: &str) -> (id: LinkId)
        requires
            old(self).wf(),
            old(self).targets().len() < u32::MAX || old(self).targets().contains(url@),
        ensures
            final(self).wf(),
            final(self).target(id) == Some(url@),
            old(self).targets().contains(url@) ==> final(self).targets() == old(self).targets(),
            !old(self).targets().contains(url@) ==> final(self).targets() == old(
                self,
            ).targets().push(url@),
            old(self).targets().is_prefix_of(final(self).targets()),
    {
        let mut index: usize = 0;
        while index < self.urls.len()
            invariant
                *self == *old(self),
                self.wf(),
                self.targets().len() == self.urls.len(),
                index <= self.urls.len(),
                forall|i: int| 0 <= i < index ==> self.targets()[i] != url@,
            decreases self.urls.len() - index,
        {
            assert(self.targets()[index as int] == self.urls@[index as int]@);
            if same_text(self.urls[index].as_str(), url) {
                assert(self.targets().contains(url@));
                return LinkId((index + 1) as u32);
            }
            index += 1;
        }
        assert(!self.targets().contains(url@));
        self.urls.push(url.to_owned());
        assert(self.targets() =~= old(self).targets().push(url@));
        LinkId(self.urls.len() as u32)
    }

    /// The target behind a handle, if the handle is known.
    pub fn get(&self, id: LinkId) -> (url: Option<&str>)
        ensures
            match url {
                Some(text) => self.target(id) == Some(text@),
                None => self.target(id) is None,
            },
    {
        let number: usize = id.0 as usize;
        if number == 0 || number > self.urls.len() {
            return None;
        }
        assert(self.targets()[number - 1] == self.urls@[number - 1]@);
        Some(self.urls[number - 1].as_str())
    }
}

impl Default for LinkRegistry {
    fn default() -> (links: Self)
        ensures
            links.wf(),
            links.targets() == Seq::<Seq<char>>::empty(),
    {
        LinkRegistry::new()
    }
}

/// Handles stay valid: a target keeps its handle whatever is interned later.
pub proof fn handles_are_stable(earlier: LinkRegistry, later: LinkRegistry, id: LinkId)
    requires
        earlier.targets().is_prefix_of(later.targets()),
        earlier.target(id) is Some,
    ensures
        later.target(id) == earlier.target(id),
{
    let known = earlier.targets();
    assert(later.targets().subrange(0, known.len() as int) == known);
    assert(known[id.number() - 1] == later.targets()[id.number() - 1]);
}

/// Two handles with the same target are the same handle.
pub proof fn targets_determine_handles(links: LinkRegistry, a: LinkId, b: LinkId)
    requires
        links.wf(),
        links.target(a) is Some,
        links.target(a) == links.target(b),
    ensures
        a == b,
{
}

/// Resolves an interned hyperlink target, passing the URL to `use_url` when
/// the id is known.
pub fn with_link_url<T, F: FnOnce(&str) -> T>(links: &LinkRegistry, id: LinkId, use_url: F) -> (used:
    Option<T>)
    requires
        forall|url: &str| links.target(id) == Some(url@) ==> use_url.requires((url,)),
    ensures
        used is Some <==> links.target(id) is Some,
        used matches Some(value) ==> exists|url: &str|
            links.target(id) == Some(url@) && use_url.ensures((url,), value),
{
    match links.get(id) {
        Some(url) => Some(use_url(url)),
        None => None,
    }
}

/// Whether a hyperlink target holds anything but escape and bell characters.
pub open spec fn link_worth_keeping(url: Seq<char>) -> bool {
    exists|i: int| 0 <= i < url.len() && #[trigger] url[i] != '\u{1b}' && url[i] != '\u{7}'
}

/// Interns a hyperlink target, or nothing when it is empty or made of escape
/// and bell characters alone.
pub fn intern_link(links: &mut LinkRegistry, url: &str) -> (id: Option<LinkId>)
    requires
        old(links).wf(),
        old(links).targets().len() < u32::MAX || old(links).targets().contains(url@),
    ensures
        final(links).wf(),
        id is Some <==> link_worth_keeping(url@),
        id matches Some(handle) ==> final(links).target(handle) == Some(url@),
        id is None ==> *final(links) == *old(links),
        id is Some && !old(links).targets().contains(url@) ==> final(links).targets() == old(
            links,
        ).targets().push(url@),
        id is Some && old(links).targets().contains(url@) ==> final(links).targets() == old(
            links,
        ).targets(),
{
    let mut plain = false;
    for c in iter: url.chars()
        invariant
            iter.seq() == url@,
            plain <==> exists|i: int|
                0 <= i < iter.index() && #[trigger] url@[i] != '\u{1b}' && url@[i] != '\u{7}',
    {
        if c != '\u{1b}' && c != '\u{7}' {
            assert(url@[iter.index() as int] == c);
            plain = true;
        }
    }
    if !plain {
        return None;
    }
    Some(links.intern(url))
}

/// Underline shape carried by a [`Style`] (SGR `4` / `4:x`).
#[derive(Clone, Copy, Debug, PartialEq, Eq, Structural)]
pub enum Underline {
    /// No underline.
    Off,
    /// Single straight underline (SGR `4`).
    Straight,
    /// Curly underline (SGR `4:3`), used for typo squiggles.
    Curly,
}

impl Default for Underline {
    fn default() -> (shape: Self)
        ensures
            shape == Underline::Off,
    {
        Underline::Off
    }
}

/// Canonical visual attributes for one or more cells.
#[derive(Clone, Copy, Debug, PartialEq, Eq, Structural)]
pub struct Style {
    /// Glyph color.
    pub foreground: Color,
    /// Cell color.
    pub background: Color,
    /// Bold intensity.
    pub bold: bool,
    /// Faint intensity.
    pub dim: bool,
    /// Italics.
    pub italic: bool,
    /// Underline shape.
    pub underline: Underline,
    /// Underline color (SGR 58); also carries the Kitty placeholder
    /// placement-ID reference on typed image cells.
    pub underline_color: Color,
    /// Reverse video.
    pub reverse: bool,
    /// Strikethrough.
    pub strikethrough: bool,
    /// Hyperlink target, if any.
    pub link: Option<LinkId>,
}

/// The style without any attribute.
pub open spec fn plain() -> Style {
    Style {
        foreground: Color::Default,
        background: Color::Default,
        bold: false,
        dim: false,
        italic: false,
        underline: Underline::Off,
        underline_color: Color::Default,
        reverse: false,
        strikethrough: false,
        link: None,
    }
}

impl Default for Style {
    fn default() -> (style: Self)
        ensures
            style == plain(),
    {
        Style::new()
    }
}

/// `own` where it is set, else `inherited`.
pub open spec fn color_or(own: Color, inherited: Color) -> Color {
    if own == Color::Default {
        inherited
    } else {
        own
    }
}

/// The cascade of a style onto its parent's.
pub open spec fn inherited(own: Style, parent: Style) -> Style {
    Style {
        foreground: color_or(own.foreground, parent.foreground),
        background: own.background,
        bold: own.bold || parent.bold,
        dim: own.dim || parent.dim,
        italic: own.italic || parent.italic,
        underline: if own.underline == Underline::Off {
            parent.underline
        } else {
            own.underline
        },
        underline_color: color_or(own.underline_color, parent.underline_color),
        reverse: own.reverse || parent.reverse,
        strikethrough: own.strikethrough || parent.strikethrough,
        link: if own.link is None {
            parent.link
        } else {
            own.link
        },
    }
}

/// `style` on the background `color`, where there is one.
pub open spec fn tinted(style: Style, color: Option<Color>) -> Style {
    match color {
        Some(background) => Style { background, ..style },
        None => style,
    }
}

impl Style {
    /// Creates an unstyled terminal style.
    pub fn new() -> (style: Self)
        ensures
            style == plain(),
    {
        Style {
            foreground: Color::Default,
            background: Color::Default,
            bold: false,
            dim: false,
            italic: false,
            underline: Underline::Off,
            underline_color: Color::Default,
            reverse: false,
            strikethrough: false,
            link: None,
        }
    }

    /// Sets the foreground color.
    pub fn fg(self, color: Color) -> (style: Self)
        ensures
            style == (Style { foreground: color, ..self }),
    {
        Style { foreground: color, ..self }
    }

    /// Sets the background color.
    pub fn bg(self, color: Color) -> (style: Self)
        ensures
            style == (Style { background: color, ..self }),
    {
        Style { background: color, ..self }
    }

    /// Sets the background color where one is given.
    pub fn tint(self, color: Option<Color>) -> (style: Self)
        ensures
            style == tinted(self, color),
    {
        match color {
            Some(background) => self.bg(background),
            None => self,
        }
    }

    /// Enables bold intensity.
    pub fn bold(self) -> (style: Self)
        ensures
            style == (Style { bold: true, ..self }),
    {
        Style { bold: true, ..self }
    }

    /// Enables faint intensity.
    pub fn dim(self) -> (style: Self)
        ensures
            style == (Style { dim: true, ..self }),
    {
        Style { dim: true, ..self }
    }

    /// Enables italics.
    pub fn italic(self) -> (style: Self)
        ensures
            style == (Style { italic: true, ..self }),
    {
        Style { italic: true, ..self }
    }

    /// Enables underlining.
    pub fn underline(self) -> (style: Self)
        ensures
            style == (Style { underline: Underline::Straight, ..self }),
    {
        Style { underline: Underline::Straight, ..self }
    }

    /// Enables a curly underline (SGR `4:3`), the typo-squiggle shape.
    pub fn undercurl(self) -> (style: Self)
        ensures
            style == (Style { underline: Underline::Curly, ..self }),
    {
        Style { underline: Underline::Curly, ..self }
    }

    /// Sets the underline color (SGR 58); [`Color::Default`] leaves the
    /// terminal's underline color untouched.
    pub fn underline_color(self, color: Color) -> (style: Self)
        ensures
            style == (Style { underline_color: color, ..self }),
    {
        Style { underline_color: color, ..self }
    }

    /// Enables reverse video.
    pub fn reverse(self) -> (style: Self)
        ensures
            style == (Style { reverse: true, ..self }),
    {
        Style { reverse: true, ..self }
    }

    /// Enables strikethrough.
    pub fn strikethrough(self) -> (style: Self)
        ensures
            style == (Style { strikethrough: true, ..self }),
    {
        Style { strikethrough: true, ..self }
    }

    /// Attaches a terminal hyperlink target to this style.
    ///
    /// The URL is interned once and only its typed identity rides on rich-text
    /// runs and frame cells. Empty targets are ignored.
    pub fn link(self, links: &mut LinkRegistry, url: &str) -> (style: Self)
        requires
            old(links).wf(),
            old(links).targets().len() < u32::MAX || old(links).targets().contains(url@),
        ensures
            final(links).wf(),
            style == (Style { link: style.link, ..self }),
            style.link is Some <==> link_worth_keeping(url@),
            style.link matches Some(id) ==> final(links).target(id) == Some(url@),
            style.link is None ==> *final(links) == *old(links),
            style.link is Some && !old(links).targets().contains(url@) ==> final(links).targets()
                == old(links).targets().push(url@),
            style.link is Some && old(links).targets().contains(url@) ==> final(links).targets()
                == old(links).targets(),
    {
        Style { link: intern_link(links, url), ..self }
    }

    /// Drops the hyperlink target.
    pub fn without_link(self) -> (style: Self)
        ensures
            style == (Style { link: None, ..self }),
    {
        Style { link: None, ..self }
    }

    /// CSS-like cascade: unset properties adopt the parent's. A
    /// `Color::Default` foreground counts as unset and attribute flags OR
    /// together. The background never inherits — ancestor fills reach
    /// descendants through the paint underlay instead.
    pub fn inherit(self, parent: Self) -> (style: Self)
        ensures
            style == inherited(self, parent),
    {
        Style {
            foreground: match self.foreground {
                Color::Default => parent.foreground,
                own => own,
            },
            background: self.background,
            bold: self.bold || parent.bold,
            dim: self.dim || parent.dim,
            italic: self.italic || parent.italic,
            underline: match self.underline {
                Underline::Off => parent.underline,
                own => own,
            },
            underline_color: match self.underline_color {
                Color::Default => parent.underline_color,
                own => own,
            },
            reverse: self.reverse || parent.reverse,
            strikethrough: self.strikethrough || parent.strikethrough,
            link: match self.link {
                None => parent.link,
                Some(id) => Some(id),
            },
        }
    }

    /// The foreground color, for callers deriving accents from a style.
    pub fn foreground_color(&self) -> (color: Color)
        ensures
            color == self.foreground,
    {
        self.foreground
    }

    /// The background color, for callers deciding whether to fill a region.
    pub fn background_color(&self) -> (color: Color)
        ensures
            color == self.background,
    {
        self.background
    }

    /// Reads every attribute at once, for presenters outside this crate.
    pub fn spec(&self) -> (spec: StyleSpec)
        ensures
            spec == (StyleSpec {
                foreground: self.foreground,
                background: self.background,
                bold: self.bold,
                dim: self.dim,
                italic: self.italic,
                underline: self.underline,
                underline_color: self.underline_color,
                reverse: self.reverse,
                strikethrough: self.strikethrough,
                link: self.link,
            }),
    {
        StyleSpec {
            foreground: self.foreground,
            background: self.background,
            bold: self.bold,
            dim: self.dim,
            italic: self.italic,
            underline: self.underline,
            underline_color: self.underline_color,
            reverse: self.reverse,
            strikethrough: self.strikethrough,
            link: self.link,
        }
    }
}

/// A plain read-out of a [`Style`]'s attributes.
///
/// Non-terminal presenters (the GPU host) composite cells without emitting
/// escapes; `spec` hands them the full attribute set.
#[derive(Clone, Copy, Debug, PartialEq, Eq, Structural)]
pub struct StyleSpec {
    /// Foreground color; [`Color::Default`] defers to the host.
    pub foreground: Color,
    /// Background color; [`Color::Default`] shows the host backdrop.
    pub background: Color,
    /// Bold intensity.
    pub bold: bool,
    /// Faint intensity.
    pub dim: bool,
    /// Italics.
    pub italic: bool,
    /// Underlining.
    pub underline: Underline,
    /// Underline color (SGR 58); [`Color::Default`] follows the foreground.
    pub underline_color: Color,
    /// Reverse video.
    pub reverse: bool,
    /// Strikethrough.
    pub strikethrough: bool,
    /// Hyperlink target, if any.
    pub link: Option<LinkId>,
}

/// An unstyled parent hands nothing down.
pub proof fn inheriting_from_plain_changes_nothing(own: Style)
    ensures
        inherited(own, plain()) == own,
{
}

/// An unstyled child shows its parent's style, except for the background.
pub proof fn plain_adopts_the_parent(parent: Style)
    ensures
        inherited(plain(), parent) == (Style { background: Color::Default, ..parent }),
{
}

/// A chain of cascades may be folded from either end.
pub proof fn inheritance_is_associative(own: Style, parent: Style, root: Style)
    ensures
        inherited(inherited(own, parent), root) == inherited(own, inherited(parent, root)),
{
}

/// Inheriting twice from one parent is inheriting once.
pub proof fn inheritance_is_idempotent(own: Style, parent: Style)
    ensures
        inherited(inherited(own, parent), parent) == inherited(own, parent),
{
}

} // verus!
