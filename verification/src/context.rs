//! Presentation context: glyph charset and color theme.
//!
//! Widgets never hardcode glyphs or colors; they consult the [`UiContext`].

use vstd::prelude::*;

use crate::charset::Charset;
use crate::strings::same_text;
use crate::theme::{appearance_of, dark_theme, quantized_theme, stock_theme, Appearance, Theme};

verus! {

/// Terminal policy for Hangul Compatibility Jamo (`U+3131..=U+318E`).
#[derive(Clone, Copy, Debug, PartialEq, Eq, Structural)]
pub enum JamoWidth {
    /// Follow the platform default: narrow on macOS, Unicode tables elsewhere.
    Platform,
    /// Use the Unicode width table without a terminal-specific correction.
    Unicode,
    /// Force visible Compatibility Jamo to one cell.
    Narrow,
    /// Force visible Compatibility Jamo to two cells.
    Wide,
}

impl Default for JamoWidth {
    fn default() -> (width: Self)
        ensures
            width == JamoWidth::Platform,
    {
        JamoWidth::Platform
    }
}

/// The policy a terminal's capability value stands for.
pub open spec fn reported_jamo(value: u8) -> JamoWidth {
    if value == 1 {
        JamoWidth::Narrow
    } else if value == 2 {
        JamoWidth::Wide
    } else {
        JamoWidth::Platform
    }
}

impl JamoWidth {
    /// The policy a terminal's capability value stands for: `0` for the
    /// platform default, `1` for narrow, `2` for wide.
    pub fn from_caps(value: u8) -> (width: Self)
        ensures
            width == reported_jamo(value),
    {
        match value {
            1 => JamoWidth::Narrow,
            2 => JamoWidth::Wide,
            _ => JamoWidth::Platform,
        }
    }
}

/// The process-wide width policy that measuring consults.
pub struct WidthPolicy {
    /// The policy in force.
    pub jamo: JamoWidth,
    /// Whether this platform shows Compatibility Jamo narrow.
    pub narrow_platform: bool,
}

/// The policy a setting comes down to on a platform.
pub open spec fn effective_jamo(width: JamoWidth, narrow_platform: bool) -> JamoWidth {
    match width {
        JamoWidth::Platform => if narrow_platform {
            JamoWidth::Narrow
        } else {
            JamoWidth::Unicode
        },
        _ => width,
    }
}

impl WidthPolicy {
    /// What the policy in force comes down to.
    pub fn effective(&self) -> (width: JamoWidth)
        ensures
            width == effective_jamo(self.jamo, self.narrow_platform),
    {
        match self.jamo {
            JamoWidth::Platform => if self.narrow_platform {
                JamoWidth::Narrow
            } else {
                JamoWidth::Unicode
            },
            _ => self.jamo,
        }
    }

    /// Puts a policy in force; whether anything is measured differently now.
    pub fn set(&mut self, width: JamoWidth) -> (changed: bool)
        ensures
            *final(self) == (WidthPolicy { jamo: width, ..*old(self) }),
            changed == (effective_jamo(old(self).jamo, old(self).narrow_platform)
                != effective_jamo(width, old(self).narrow_platform)),
    {
        let before: JamoWidth = self.effective();
        self.jamo = width;
        let after: JamoWidth = self.effective();
        before != after
    }
}

/// Terminal image rendering capability.
#[derive(Clone, Copy, Debug, PartialEq, Eq, Structural)]
pub enum Graphics {
    /// Render images as colored half-block text cells.
    Cells,
    /// Render registered images with the DEC sixel protocol.
    Sixel,
    /// Render registered images with cursor-positioned Kitty placements.
    KittyDirect,
    /// Render registered images with Kitty Unicode placeholders.
    KittyPlaceholders,
    /// Render registered images with the iTerm2 inline-image protocol.
    Iterm2,
}

impl Default for Graphics {
    fn default() -> (graphics: Self)
        ensures
            graphics == Graphics::Cells,
    {
        Graphics::Cells
    }
}

/// What was detected of the terminal.
#[derive(Clone, Copy, Debug)]
pub struct TerminalCaps {
    /// Image rendering capability.
    pub graphics: Graphics,
    /// Glyph capability tier.
    pub charset: Charset,
    /// Compatibility Jamo capability value.
    pub jamo_width: u8,
    /// Reported background, as 16-bit components.
    pub background: Option<(u16, u16, u16)>,
    /// Whether the terminal shows 24-bit colors.
    pub true_color: bool,
}

/// A named palette with a theme for each appearance.
pub struct JsonTheme {
    /// The palette's name.
    pub name: String,
    /// Its theme on dark backgrounds.
    pub dark: Theme,
    /// Its theme on light backgrounds.
    pub light: Theme,
}

/// A named palette.
pub struct PaletteView {
    /// The palette's name.
    pub name: Seq<char>,
    /// Its theme on dark backgrounds.
    pub dark: Theme,
    /// Its theme on light backgrounds.
    pub light: Theme,
}

impl View for JsonTheme {
    type V = PaletteView;

    open spec fn view(&self) -> PaletteView {
        PaletteView { name: self.name@, dark: self.dark, light: self.light }
    }
}

/// The palette, where one is selected.
pub open spec fn palette_view(palette: Option<JsonTheme>) -> Option<PaletteView> {
    match palette {
        Some(chosen) => Some(chosen@),
        None => None,
    }
}

/// The theme of a palette, or of the stock one, for a background.
pub open spec fn palette_theme(palette: Option<PaletteView>, appearance: Appearance) -> Theme {
    match palette {
        Some(chosen) => match appearance {
            Appearance::Dark => chosen.dark,
            Appearance::Light => chosen.light,
        },
        None => stock_theme(appearance),
    }
}

impl JsonTheme {
    /// The palette's theme for a background.
    pub fn for_appearance(&self, appearance: Appearance) -> (theme: Theme)
        ensures
            theme == palette_theme(Some(self@), appearance),
    {
        match appearance {
            Appearance::Dark => self.dark,
            Appearance::Light => self.light,
        }
    }

    /// The same palette.
    pub fn copy(&self) -> (palette: Self)
        ensures
            palette@ == self@,
    {
        JsonTheme { name: self.name.clone(), dark: self.dark, light: self.light }
    }
}

/// Copies a selected palette.
fn copy_palette(palette: &Option<JsonTheme>) -> (copy: Option<JsonTheme>)
    ensures
        palette_view(copy) == palette_view(*palette),
{
    match palette {
        Some(chosen) => Some(chosen.copy()),
        None => None,
    }
}

/// Whether two selections are the same.
fn same_palette(a: &Option<JsonTheme>, b: &Option<JsonTheme>) -> (same: bool)
    ensures
        same == (palette_view(*a) == palette_view(*b)),
{
    match (a, b) {
        (Some(x), Some(y)) => same_text(x.name.as_str(), y.name.as_str()) && x.dark == y.dark
            && x.light == y.light,
        (None, None) => true,
        _ => false,
    }
}

/// The theme of a selection for a background.
fn resolve(palette: &Option<JsonTheme>, appearance: Appearance) -> (theme: Theme)
    ensures
        theme == palette_theme(palette_view(*palette), appearance),
{
    match palette {
        Some(chosen) => chosen.for_appearance(appearance),
        None => Theme::for_appearance(appearance),
    }
}

/// Presentation context threaded through parse, layout, and paint.
pub struct UiContext {
    /// Terminal-reported dark or light background appearance.
    pub appearance: Appearance,
    /// Glyph capability tier.
    pub charset: Charset,
    /// Terminal image rendering capability.
    pub graphics: Graphics,
    /// Pixel-capable presenter: components emit decor primitives instead of
    /// border/fill glyphs.
    pub native_decor: bool,
    /// Hangul Compatibility Jamo width policy.
    pub jamo_width: JamoWidth,
    /// Semantic color palette.
    pub theme: Theme,
    /// Named palette selected for dark backgrounds; `None` means the stock one.
    pub dark_palette: Option<JsonTheme>,
    /// Named palette selected for light backgrounds; `None` means the stock one.
    pub light_palette: Option<JsonTheme>,
    /// Number that tells this custom element registry from others.
    pub elements: u64,
    /// Presentation clock of the pass in flight, in milliseconds. Excluded from
    /// equality: a moving clock must never read as a context change.
    pub now: u64,
    /// Cache-invalidation revision. Excluded from equality, like the clock.
    pub revision: u64,
}

/// What a context settles.
pub struct ContextView {
    /// Background appearance.
    pub appearance: Appearance,
    /// Glyph capability tier.
    pub charset: Charset,
    /// Image rendering capability.
    pub graphics: Graphics,
    /// Whether the presenter draws pixels.
    pub native_decor: bool,
    /// Compatibility Jamo policy.
    pub jamo_width: JamoWidth,
    /// Semantic color palette.
    pub theme: Theme,
    /// Palette for dark backgrounds.
    pub dark_palette: Option<PaletteView>,
    /// Palette for light backgrounds.
    pub light_palette: Option<PaletteView>,
    /// The element registry.
    pub elements: u64,
    /// The clock.
    pub now: u64,
    /// The cache revision.
    pub revision: u64,
}

impl View for UiContext {
    type V = ContextView;

    open spec fn view(&self) -> ContextView {
        ContextView {
            appearance: self.appearance,
            charset: self.charset,
            graphics: self.graphics,
            native_decor: self.native_decor,
            jamo_width: self.jamo_width,
            theme: self.theme,
            dark_palette: palette_view(self.dark_palette),
            light_palette: palette_view(self.light_palette),
            elements: self.elements,
            now: self.now,
            revision: self.revision,
        }
    }
}

/// The context before anything is known of the terminal.
pub open spec fn fresh_context(jamo_width: JamoWidth) -> ContextView {
    ContextView {
        appearance: Appearance::Dark,
        charset: Charset::Unicode,
        graphics: Graphics::Cells,
        native_decor: false,
        jamo_width,
        theme: dark_theme(),
        dark_palette: None,
        light_palette: None,
        elements: 0,
        now: 0,
        revision: 0,
    }
}

impl ContextView {
    /// The theme selected for a background.
    pub open spec fn selected(self, appearance: Appearance) -> Theme {
        match appearance {
            Appearance::Dark => palette_theme(self.dark_palette, appearance),
            Appearance::Light => palette_theme(self.light_palette, appearance),
        }
    }

    /// The context on another background. The theme follows where it was the
    /// selected one, in full or indexed colors; another theme stays.
    pub open spec fn on_background(self, appearance: Appearance) -> Self {
        if self.appearance == appearance {
            self
        } else {
            ContextView {
                appearance,
                theme: if self.theme == self.selected(self.appearance) {
                    self.selected(appearance)
                } else if self.theme == quantized_theme(self.selected(self.appearance)) {
                    quantized_theme(self.selected(appearance))
                } else {
                    self.theme
                },
                ..self
            }
        }
    }

    /// The context with other palettes selected; indexed colors stay indexed.
    pub open spec fn with_palettes(
        self,
        dark: Option<PaletteView>,
        light: Option<PaletteView>,
    ) -> Self {
        let chosen = ContextView { dark_palette: dark, light_palette: light, ..self };
        let previous = self.selected(self.appearance);
        let next = chosen.selected(self.appearance);
        ContextView {
            theme: if self.theme == quantized_theme(previous) && self.theme != previous {
                quantized_theme(next)
            } else {
                next
            },
            ..chosen
        }
    }

    /// The context for a detected terminal.
    pub open spec fn on_terminal(self, caps: TerminalCaps) -> Self {
        let reported = ContextView {
            graphics: caps.graphics,
            charset: caps.charset,
            jamo_width: reported_jamo(caps.jamo_width),
            ..self
        };
        let placed = match caps.background {
            Some((red, green, blue)) => reported.on_background(appearance_of(red, green, blue)),
            None => reported,
        };
        if caps.true_color {
            placed
        } else {
            ContextView { theme: quantized_theme(placed.theme), ..placed }
        }
    }

    /// Whether two contexts show the same.
    pub open spec fn same(self, other: Self) -> bool {
        self == (ContextView { now: self.now, revision: self.revision, ..other })
    }
}

impl UiContext {
    /// The context before anything is known of the terminal, under the width
    /// policy in force.
    pub fn new(policy: &WidthPolicy) -> (ctx: Self)
        ensures
            ctx@ == fresh_context(policy.jamo),
    {
        UiContext {
            appearance: Appearance::Dark,
            charset: Charset::Unicode,
            graphics: Graphics::Cells,
            native_decor: false,
            jamo_width: policy.jamo,
            theme: Theme::for_appearance(Appearance::Dark),
            dark_palette: None,
            light_palette: None,
            elements: 0,
            now: 0,
            revision: 0,
        }
    }

    /// Applies a Hangul Compatibility Jamo policy process-wide.
    ///
    /// Returns whether the effective configuration changed.
    pub fn set_jamo_width(&mut self, policy: &mut WidthPolicy, width: JamoWidth) -> (changed: bool)
        ensures
            final(self)@ == (ContextView { jamo_width: width, ..old(self)@ }),
            *final(policy) == (WidthPolicy { jamo: width, ..*old(policy) }),
            changed == (effective_jamo(old(policy).jamo, old(policy).narrow_platform)
                != effective_jamo(width, old(policy).narrow_platform)),
    {
        self.jamo_width = width;
        policy.set(width)
    }

    /// Applies the detected terminal's capabilities: graphics tier, color depth,
    /// glyph charset, Compatibility Jamo policy, and background appearance.
    ///
    /// Returns whether anything but the graphics tier changed.
    pub fn apply_terminal_caps(&mut self, policy: &mut WidthPolicy, caps: &TerminalCaps) -> (changed:
        bool)
        ensures
            final(self)@ == old(self)@.on_terminal(*caps),
            *final(policy) == (WidthPolicy {
                jamo: reported_jamo(caps.jamo_width),
                ..*old(policy)
            }),
            changed == ({
                ||| old(self)@.charset != caps.charset
                ||| effective_jamo(old(policy).jamo, old(policy).narrow_platform) != effective_jamo(
                    reported_jamo(caps.jamo_width),
                    old(policy).narrow_platform,
                )
                ||| old(self)@.appearance != final(self)@.appearance
                ||| !caps.true_color && final(self)@.theme != old(self)@.on_terminal(
                    (TerminalCaps { true_color: true, ..*caps }),
                ).theme
            }),
    {
        self.graphics = caps.graphics;
        let mut changed: bool = self.charset != caps.charset;
        self.charset = caps.charset;
        if self.set_jamo_width(policy, JamoWidth::from_caps(caps.jamo_width)) {
            changed = true;
        }
        match caps.background {
            Some((red, green, blue)) => {
                if self.apply_appearance(Appearance::from_rgb16(red, green, blue)) {
                    changed = true;
                }
            },
            None => {},
        }
        if !caps.true_color {
            let theme: Theme = self.theme.quantized_256();
            if theme != self.theme {
                changed = true;
            }
            self.theme = theme;
        }
        changed
    }

    /// Applies a terminal-reported dark/light appearance change.
    ///
    /// Indexed-color terminals retain quantization. A caller-supplied ad-hoc
    /// theme is preserved so the host can choose whether and how to restyle it.
    pub fn apply_appearance(&mut self, appearance: Appearance) -> (changed: bool)
        ensures
            final(self)@ == old(self)@.on_background(appearance),
            changed == (old(self)@.appearance != appearance),
    {
        if self.appearance == appearance {
            return false;
        }
        let stock: Theme = self.resolved_palette(self.appearance);
        let next: Theme = self.resolved_palette(appearance);
        if self.theme == stock {
            self.theme = next;
        } else if self.theme == stock.quantized_256() {
            self.theme = next.quantized_256();
        }
        self.appearance = appearance;
        true
    }

    /// Selects one named palette for both terminal appearances.
    pub fn set_palette(&mut self, palette: Option<JsonTheme>) -> (changed: bool)
        ensures
            final(self)@ == old(self)@.with_palettes(palette_view(palette), palette_view(palette)),
            changed == (final(self)@ != old(self)@),
    {
        let other: Option<JsonTheme> = copy_palette(&palette);
        self.set_appearance_palettes(palette, other)
    }

    /// Selects independent named palettes for dark and light appearances.
    ///
    /// The active semantic theme and both future selections change together;
    /// `None` selects the stock palette for that appearance.
    pub fn set_appearance_palettes(
        &mut self,
        dark: Option<JsonTheme>,
        light: Option<JsonTheme>,
    ) -> (changed: bool)
        ensures
            final(self)@ == old(self)@.with_palettes(palette_view(dark), palette_view(light)),
            changed == (final(self)@ != old(self)@),
    {
        let previous: Theme = self.resolved_palette(self.appearance);
        let indexed: bool = self.theme == previous.quantized_256() && self.theme != previous;
        let resolved: Theme = match self.appearance {
            Appearance::Dark => resolve(&dark, self.appearance),
            Appearance::Light => resolve(&light, self.appearance),
        };
        let theme: Theme = if indexed {
            resolved.quantized_256()
        } else {
            resolved
        };
        let changed: bool = self.theme != theme || !same_palette(&self.dark_palette, &dark)
            || !same_palette(&self.light_palette, &light);
        self.theme = theme;
        self.dark_palette = dark;
        self.light_palette = light;
        changed
    }

    /// Returns this context showing one fixed `palette`.
    pub fn with_palette(self, palette: Option<JsonTheme>) -> (ctx: Self)
        ensures
            ctx@ == self@.with_palettes(palette_view(palette), palette_view(palette)),
    {
        let mut ctx: UiContext = self;
        ctx.set_palette(palette);
        ctx
    }

    /// Returns this context with independent named palettes for dark and light
    /// terminal appearances.
    pub fn with_appearance_palettes(
        self,
        dark: Option<JsonTheme>,
        light: Option<JsonTheme>,
    ) -> (ctx: Self)
        ensures
            ctx@ == self@.with_palettes(palette_view(dark), palette_view(light)),
    {
        let mut ctx: UiContext = self;
        ctx.set_appearance_palettes(dark, light);
        ctx
    }

    /// The theme selected for a background.
    pub fn resolved_palette(&self, appearance: Appearance) -> (theme: Theme)
        ensures
            theme == self@.selected(appearance),
    {
        match appearance {
            Appearance::Dark => resolve(&self.dark_palette, appearance),
            Appearance::Light => resolve(&self.light_palette, appearance),
        }
    }

    /// Returns this context configured for the detected terminal.
    pub fn with_terminal_caps(self, policy: &mut WidthPolicy, caps: &TerminalCaps) -> (ctx: Self)
        ensures
            ctx@ == self@.on_terminal(*caps),
            *final(policy) == (WidthPolicy {
                jamo: reported_jamo(caps.jamo_width),
                ..*old(policy)
            }),
    {
        let mut ctx: UiContext = self;
        ctx.apply_terminal_caps(policy, caps);
        ctx
    }

    /// Whether two contexts show the same, whatever their clocks say.
    pub fn same(&self, other: &Self) -> (same: bool)
        ensures
            same == self@.same(other@),
    {
        self.charset == other.charset && self.appearance == other.appearance && self.graphics
            == other.graphics && self.native_decor == other.native_decor && self.jamo_width
            == other.jamo_width && self.theme == other.theme && same_palette(
            &self.dark_palette,
            &other.dark_palette,
        ) && same_palette(&self.light_palette, &other.light_palette) && self.elements
            == other.elements
    }
}

/// Each appearance keeps its own selection: a context that shows the selected
/// theme shows it again after the background changed and changed back.
pub proof fn selections_survive_the_round_trip(ctx: ContextView, other: Appearance)
    requires
        ctx.theme == ctx.selected(ctx.appearance),
    ensures
        ctx.on_background(other).theme == ctx.selected(other),
        ctx.on_background(other).on_background(ctx.appearance) == ctx,
{
}

/// A theme of the caller's own survives every background change.
pub proof fn custom_themes_are_kept(ctx: ContextView, other: Appearance)
    requires
        ctx.theme != ctx.selected(ctx.appearance),
        ctx.theme != quantized_theme(ctx.selected(ctx.appearance)),
    ensures
        ctx.on_background(other).theme == ctx.theme,
{
}

/// Selecting the same palettes again changes nothing.
pub proof fn reselecting_changes_nothing(
    ctx: ContextView,
    dark: Option<PaletteView>,
    light: Option<PaletteView>,
)
    ensures
        ctx.with_palettes(dark, light).with_palettes(dark, light) == ctx.with_palettes(
            dark,
            light,
        ),
{
}

/// A moving clock is no context change, and contexts that show the same are
/// interchangeable in every comparison.
pub proof fn sameness_is_an_equivalence(a: ContextView, b: ContextView, c: ContextView, now: u64)
    ensures
        a.same(ContextView { now, ..a }),
        a.same(b) ==> b.same(a),
        a.same(b) && b.same(c) ==> a.same(c),
{
}

} // verus!
