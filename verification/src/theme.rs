//! Semantic colors. Agents pick meanings; the theme picks colors.

use vstd::prelude::*;
use vstd::string::*;

use crate::color::{quantized, quantized_is_never_rgb, Color};
use crate::strings::same_text;

verus! {

/// Terminal-reported background appearance.
#[derive(Clone, Copy, Debug, PartialEq, Eq, Structural)]
pub enum Appearance {
    /// A background whose BT.601 luminance is below 0.5.
    Dark,
    /// A background whose BT.601 luminance is at least 0.5.
    Light,
}

impl Default for Appearance {
    fn default() -> (appearance: Self)
        ensures
            appearance == Appearance::Dark,
    {
        Appearance::Dark
    }
}

/// The BT.601 luminance of a color in thousandths of a component's range.
pub open spec fn luma(red: int, green: int, blue: int) -> int {
    299 * red + 587 * green + 114 * blue
}

/// The appearance of a background: light from half the largest luminance on.
pub open spec fn appearance_of(red: u16, green: u16, blue: u16) -> Appearance {
    if 2 * luma(red as int, green as int, blue as int) < luma(65535, 65535, 65535) {
        Appearance::Dark
    } else {
        Appearance::Light
    }
}

impl Appearance {
    /// Classifies 16-bit RGB components using BT.601 luminance.
    pub fn from_rgb16(red: u16, green: u16, blue: u16) -> (appearance: Self)
        ensures
            appearance == appearance_of(red, green, blue),
    {
        let weighted: u64 = 299 * (red as u64) + 587 * (green as u64) + 114 * (blue as u64);
        if weighted < 500 * 65535 {
            Appearance::Dark
        } else {
            Appearance::Light
        }
    }

    /// Classifies 8-bit RGB components using BT.601 luminance.
    pub fn from_rgb8(red: u8, green: u8, blue: u8) -> (appearance: Self)
        ensures
            appearance == (if 2 * luma(red as int, green as int, blue as int) < luma(255, 255, 255) {
                Appearance::Dark
            } else {
                Appearance::Light
            }),
    {
        Appearance::from_rgb16((red as u16) * 0x101, (green as u16) * 0x101, (blue as u16) * 0x101)
    }
}

/// Semantic color palette; no widget hardcodes an RGB value.
#[derive(Clone, Copy, Debug, PartialEq, Eq, Structural)]
pub struct Theme {
    /// Default foreground.
    pub fg: Color,
    /// Primary interactive accent (focus, active controls, links).
    pub accent: Color,
    /// Informational values.
    pub info: Color,
    /// Success / enabled.
    pub ok: Color,
    /// Caution / modified.
    pub warn: Color,
    /// Errors / destructive.
    pub err: Color,
    /// De-emphasized chrome and hints.
    pub muted: Color,
    /// Secondary labels and gallery state chrome.
    pub dim: Color,
    /// Tool output and private reasoning text.
    pub output: Color,
    /// Container borders and rules; dimmer than `fg`, brighter than `surface`.
    pub border: Color,
    /// Markdown code-fence rows.
    pub code_border: Color,
    /// Added lines and gutters in tool diffs.
    pub tool_diff_added: Color,
    /// Removed lines and gutters in tool diffs.
    pub tool_diff_removed: Color,
    /// Unchanged lines, metadata, and gap rows in tool diffs.
    pub tool_diff_context: Color,
    /// Neutral chip / button fill.
    pub surface: Color,
    /// Hover row tint.
    pub hover: Color,
    /// Text-selection background tint.
    pub selection: Color,
    /// Drop-shadow tint painted under lifted (elevated) surfaces.
    pub shadow: Color,
    /// Elevated panel fill (composer, overlay cards); darker than `surface`.
    pub panel: Color,
    /// Faulted tool-card surface.
    pub error_surface: Color,
    /// Secondary accent (cost figures, alternate roles); distinct from
    /// `accent` without carrying ok/warn/err semantics.
    pub secondary: Color,
    /// Python language identity used by eval-cell chrome.
    pub python: Color,
    /// Inactive rule color inside the compact status-line context gauge.
    pub status_rule: Color,
    /// Subdued structural border used by welcome/provider chrome.
    pub border_muted: Color,
    /// Status-band background.
    pub status_bg: Color,
    /// Status-band separator.
    pub status_sep: Color,
    /// Status-band model label.
    pub status_model: Color,
    /// Status-band path.
    pub status_path: Color,
    /// Clean and dirty branch labels.
    pub status_git_clean: Color,
    /// Dirty branch label.
    pub status_git_dirty: Color,
    /// Context values.
    pub status_context: Color,
    /// Input/cache spend counters.
    pub status_spend: Color,
    /// Staged status count.
    pub status_staged: Color,
    /// Unstaged status count.
    pub status_dirty: Color,
    /// Untracked status count.
    pub status_untracked: Color,
    /// Output/rate counters.
    pub status_output: Color,
    /// Billing summary.
    pub status_cost: Color,
    /// Subagent and job badges.
    pub status_subagents: Color,
    /// Text painted on top of accent/warn fills.
    pub contrast: Color,
}

/// The stock palette for dark backgrounds.
pub open spec fn dark_theme() -> Theme {
    Theme {
        fg: Color::Rgb(0xe8, 0xec, 0xf4),
        accent: Color::Rgb(0x00, 0xb4, 0xff),
        info: Color::Rgb(0x4a, 0x9e, 0xff),
        ok: Color::Rgb(0x00, 0xff, 0x88),
        warn: Color::Rgb(0xff, 0xb3, 0x47),
        err: Color::Rgb(0xff, 0x47, 0x57),
        muted: Color::Rgb(0x6b, 0x72, 0x80),
        dim: Color::Rgb(0x6b, 0x72, 0x80),
        output: Color::Rgb(0x9c, 0xa3, 0xb0),
        border: Color::Rgb(0x1f, 0x25, 0x2d),
        code_border: Color::Rgb(0xd4, 0xc0, 0x90),
        tool_diff_added: Color::Rgb(0x00, 0xff, 0x88),
        tool_diff_removed: Color::Rgb(0xff, 0x47, 0x57),
        tool_diff_context: Color::Rgb(0x6b, 0x72, 0x80),
        surface: Color::Rgb(0x3a, 0x3f, 0x4b),
        hover: Color::Rgb(0x2c, 0x31, 0x3a),
        selection: Color::Rgb(0x36, 0x4c, 0x61),
        shadow: Color::Rgb(0x05, 0x07, 0x0c),
        panel: Color::Rgb(0x0f, 0x12, 0x16),
        error_surface: Color::Rgb(0x1a, 0x0f, 0x10),
        secondary: Color::Rgb(0xab, 0x77, 0xe6),
        python: Color::Rgb(0x37, 0x76, 0xab),
        status_rule: Color::Rgb(0x2a, 0x30, 0x38),
        border_muted: Color::Rgb(0x3d, 0x42, 0x4a),
        status_bg: Color::Rgb(0x12, 0x12, 0x12),
        status_sep: Color::Indexed(244),
        status_model: Color::Rgb(0xd7, 0x87, 0xaf),
        status_path: Color::Rgb(0x00, 0xaf, 0xaf),
        status_git_clean: Color::Rgb(0x5f, 0xaf, 0x5f),
        status_git_dirty: Color::Rgb(0xd7, 0xaf, 0x5f),
        status_context: Color::Rgb(0x87, 0x87, 0xaf),
        status_spend: Color::Rgb(0x5f, 0xaf, 0xaf),
        status_staged: Color::Indexed(70),
        status_dirty: Color::Indexed(178),
        status_untracked: Color::Indexed(39),
        status_output: Color::Indexed(205),
        status_cost: Color::Indexed(205),
        status_subagents: Color::Rgb(0xff, 0xb3, 0x47),
        contrast: Color::Rgb(0x10, 0x12, 0x16),
    }
}

/// The stock palette for light backgrounds.
pub open spec fn light_theme() -> Theme {
    Theme {
        fg: Color::Rgb(0x24, 0x28, 0x30),
        accent: Color::Rgb(0x00, 0x5f, 0xaf),
        info: Color::Rgb(0x00, 0x72, 0x7d),
        ok: Color::Rgb(0x3f, 0x70, 0x19),
        warn: Color::Rgb(0x8a, 0x5a, 0x00),
        err: Color::Rgb(0xb0, 0x24, 0x32),
        muted: Color::Rgb(0x6b, 0x70, 0x78),
        dim: Color::Rgb(0x6b, 0x70, 0x78),
        output: Color::Rgb(0x4b, 0x52, 0x5d),
        border: Color::Rgb(0xd0, 0xd7, 0xde),
        code_border: Color::Rgb(0x6b, 0x70, 0x78),
        tool_diff_added: Color::Rgb(0x3f, 0x70, 0x19),
        tool_diff_removed: Color::Rgb(0xb0, 0x24, 0x32),
        tool_diff_context: Color::Rgb(0x6b, 0x70, 0x78),
        surface: Color::Rgb(0xe2, 0xe5, 0xea),
        hover: Color::Rgb(0xed, 0xef, 0xf2),
        selection: Color::Rgb(0xc2, 0xda, 0xed),
        shadow: Color::Rgb(0xb8, 0xbd, 0xc7),
        panel: Color::Rgb(0xee, 0xf0, 0xf3),
        error_surface: Color::Rgb(0xff, 0xed, 0xee),
        secondary: Color::Rgb(0x6f, 0x42, 0xc1),
        python: Color::Rgb(0x37, 0x76, 0xab),
        status_rule: Color::Rgb(0xc8, 0xd0, 0xd8),
        border_muted: Color::Rgb(0xb0, 0xb0, 0xb0),
        status_bg: Color::Rgb(0xe0, 0xe0, 0xe0),
        status_sep: Color::Rgb(0x80, 0x80, 0x80),
        status_model: Color::Rgb(0x87, 0x5f, 0x87),
        status_path: Color::Rgb(0x00, 0x5f, 0x87),
        status_git_clean: Color::Rgb(0x00, 0x5f, 0x00),
        status_git_dirty: Color::Rgb(0xaf, 0x5f, 0x00),
        status_context: Color::Rgb(0x5f, 0x5f, 0x87),
        status_spend: Color::Rgb(0x00, 0x5f, 0x5f),
        status_staged: Color::Indexed(28),
        status_dirty: Color::Indexed(136),
        status_untracked: Color::Indexed(31),
        status_output: Color::Indexed(133),
        status_cost: Color::Indexed(133),
        status_subagents: Color::Rgb(0x00, 0x5f, 0xaf),
        contrast: Color::Rgb(0xff, 0xff, 0xff),
    }
}

/// The stock palette for a background.
pub open spec fn stock_theme(appearance: Appearance) -> Theme {
    match appearance {
        Appearance::Dark => dark_theme(),
        Appearance::Light => light_theme(),
    }
}

/// The palette with every color drawn from the 256 indexed ones.
pub open spec fn quantized_theme(theme: Theme) -> Theme {
    Theme {
        fg: quantized(theme.fg),
        accent: quantized(theme.accent),
        info: quantized(theme.info),
        ok: quantized(theme.ok),
        warn: quantized(theme.warn),
        err: quantized(theme.err),
        muted: quantized(theme.muted),
        dim: quantized(theme.dim),
        output: quantized(theme.output),
        border: quantized(theme.border),
        code_border: quantized(theme.code_border),
        tool_diff_added: quantized(theme.tool_diff_added),
        tool_diff_removed: quantized(theme.tool_diff_removed),
        tool_diff_context: quantized(theme.tool_diff_context),
        surface: quantized(theme.surface),
        hover: quantized(theme.hover),
        selection: quantized(theme.selection),
        shadow: quantized(theme.shadow),
        panel: quantized(theme.panel),
        error_surface: quantized(theme.error_surface),
        secondary: quantized(theme.secondary),
        python: quantized(theme.python),
        status_rule: quantized(theme.status_rule),
        border_muted: quantized(theme.border_muted),
        status_bg: quantized(theme.status_bg),
        status_sep: quantized(theme.status_sep),
        status_model: quantized(theme.status_model),
        status_path: quantized(theme.status_path),
        status_git_clean: quantized(theme.status_git_clean),
        status_git_dirty: quantized(theme.status_git_dirty),
        status_context: quantized(theme.status_context),
        status_spend: quantized(theme.status_spend),
        status_staged: quantized(theme.status_staged),
        status_dirty: quantized(theme.status_dirty),
        status_untracked: quantized(theme.status_untracked),
        status_output: quantized(theme.status_output),
        status_cost: quantized(theme.status_cost),
        status_subagents: quantized(theme.status_subagents),
        contrast: quantized(theme.contrast),
    }
}

/// The color a semantic token names.
pub open spec fn token_color(theme: Theme, name: Seq<char>) -> Option<Color> {
    if name == "default"@ {
        Some(Color::Default)
    } else if name == "fg"@ {
        Some(theme.fg)
    } else if name == "accent"@ {
        Some(theme.accent)
    } else if name == "info"@ {
        Some(theme.info)
    } else if name == "secondary"@ {
        Some(theme.secondary)
    } else if name == "python"@ {
        Some(theme.python)
    } else if name == "status_rule"@ {
        Some(theme.status_rule)
    } else if name == "border_muted"@ {
        Some(theme.border_muted)
    } else if name == "status_bg"@ {
        Some(theme.status_bg)
    } else if name == "status_sep"@ {
        Some(theme.status_sep)
    } else if name == "status_model"@ {
        Some(theme.status_model)
    } else if name == "status_path"@ {
        Some(theme.status_path)
    } else if name == "status_git_clean"@ {
        Some(theme.status_git_clean)
    } else if name == "status_git_dirty"@ {
        Some(theme.status_git_dirty)
    } else if name == "status_context"@ {
        Some(theme.status_context)
    } else if name == "status_spend"@ {
        Some(theme.status_spend)
    } else if name == "status_staged"@ {
        Some(theme.status_staged)
    } else if name == "status_dirty"@ {
        Some(theme.status_dirty)
    } else if name == "status_untracked"@ {
        Some(theme.status_untracked)
    } else if name == "status_output"@ {
        Some(theme.status_output)
    } else if name == "status_cost"@ {
        Some(theme.status_cost)
    } else if name == "status_subagents"@ {
        Some(theme.status_subagents)
    } else if name == "ok"@ || name == "success"@ {
        Some(theme.ok)
    } else if name == "warn"@ || name == "warning"@ {
        Some(theme.warn)
    } else if name == "err"@ || name == "error"@ {
        Some(theme.err)
    } else if name == "muted"@ {
        Some(theme.muted)
    } else if name == "dim"@ {
        Some(theme.dim)
    } else if name == "output"@ || name == "thinking"@ {
        Some(theme.output)
    } else if name == "error_surface"@ {
        Some(theme.error_surface)
    } else if name == "border"@ {
        Some(theme.border)
    } else if name == "code_border"@ {
        Some(theme.code_border)
    } else if name == "tool_diff_added"@ {
        Some(theme.tool_diff_added)
    } else if name == "tool_diff_removed"@ {
        Some(theme.tool_diff_removed)
    } else if name == "tool_diff_context"@ {
        Some(theme.tool_diff_context)
    } else if name == "surface"@ {
        Some(theme.surface)
    } else if name == "hover"@ {
        Some(theme.hover)
    } else if name == "selection"@ {
        Some(theme.selection)
    } else if name == "shadow"@ {
        Some(theme.shadow)
    } else if name == "panel"@ {
        Some(theme.panel)
    } else if name == "contrast"@ {
        Some(theme.contrast)
    } else {
        None
    }
}

/// Whether `name` is a semantic token.
pub open spec fn known_token(name: Seq<char>) -> bool {
    ||| name == "default"@
    ||| name == "fg"@
    ||| name == "accent"@
    ||| name == "info"@
    ||| name == "secondary"@
    ||| name == "python"@
    ||| name == "status_rule"@
    ||| name == "border_muted"@
    ||| name == "status_bg"@
    ||| name == "status_sep"@
    ||| name == "status_model"@
    ||| name == "status_path"@
    ||| name == "status_git_clean"@
    ||| name == "status_git_dirty"@
    ||| name == "status_context"@
    ||| name == "status_spend"@
    ||| name == "status_staged"@
    ||| name == "status_dirty"@
    ||| name == "status_untracked"@
    ||| name == "status_output"@
    ||| name == "status_cost"@
    ||| name == "status_subagents"@
    ||| name == "ok"@
    ||| name == "success"@
    ||| name == "warn"@
    ||| name == "warning"@
    ||| name == "err"@
    ||| name == "error"@
    ||| name == "muted"@
    ||| name == "dim"@
    ||| name == "output"@
    ||| name == "thinking"@
    ||| name == "error_surface"@
    ||| name == "border"@
    ||| name == "code_border"@
    ||| name == "tool_diff_added"@
    ||| name == "tool_diff_removed"@
    ||| name == "tool_diff_context"@
    ||| name == "surface"@
    ||| name == "hover"@
    ||| name == "selection"@
    ||| name == "shadow"@
    ||| name == "panel"@
    ||| name == "contrast"@
}

impl Default for Theme {
    fn default() -> (theme: Self)
        ensures
            theme == dark_theme(),
    {
        Theme::for_appearance(Appearance::Dark)
    }
}

impl Theme {
    /// Resolves `foreground` for text painted over `background`.
    ///
    /// Explicit foregrounds pass through. An unset foreground is replaced with
    /// `label`, the host's contrast-safe color for that background, only when
    /// the background is concrete; terminal defaults remain terminal defaults
    /// on an unpainted surface.
    pub fn foreground_on(&self, foreground: Color, background: Color, label: Color) -> (color: Color)
        ensures
            color == (if foreground == Color::Default && background != Color::Default {
                label
            } else {
                foreground
            }),
    {
        if foreground == Color::Default && background != Color::Default {
            label
        } else {
            foreground
        }
    }

    /// Quantizes every semantic token for terminals without truecolor.
    pub fn quantized_256(self) -> (theme: Self)
        ensures
            theme == quantized_theme(self),
    {
        Theme {
            fg: self.fg.quantized_256(),
            accent: self.accent.quantized_256(),
            info: self.info.quantized_256(),
            ok: self.ok.quantized_256(),
            warn: self.warn.quantized_256(),
            err: self.err.quantized_256(),
            muted: self.muted.quantized_256(),
            dim: self.dim.quantized_256(),
            output: self.output.quantized_256(),
            border: self.border.quantized_256(),
            code_border: self.code_border.quantized_256(),
            tool_diff_added: self.tool_diff_added.quantized_256(),
            tool_diff_removed: self.tool_diff_removed.quantized_256(),
            tool_diff_context: self.tool_diff_context.quantized_256(),
            surface: self.surface.quantized_256(),
            hover: self.hover.quantized_256(),
            selection: self.selection.quantized_256(),
            shadow: self.shadow.quantized_256(),
            panel: self.panel.quantized_256(),
            error_surface: self.error_surface.quantized_256(),
            secondary: self.secondary.quantized_256(),
            python: self.python.quantized_256(),
            status_rule: self.status_rule.quantized_256(),
            border_muted: self.border_muted.quantized_256(),
            status_bg: self.status_bg.quantized_256(),
            status_sep: self.status_sep.quantized_256(),
            status_model: self.status_model.quantized_256(),
            status_path: self.status_path.quantized_256(),
            status_git_clean: self.status_git_clean.quantized_256(),
            status_git_dirty: self.status_git_dirty.quantized_256(),
            status_context: self.status_context.quantized_256(),
            status_spend: self.status_spend.quantized_256(),
            status_staged: self.status_staged.quantized_256(),
            status_dirty: self.status_dirty.quantized_256(),
            status_untracked: self.status_untracked.quantized_256(),
            status_output: self.status_output.quantized_256(),
            status_cost: self.status_cost.quantized_256(),
            status_subagents: self.status_subagents.quantized_256(),
            contrast: self.contrast.quantized_256(),
        }
    }

    /// Returns the semantic palette for a terminal background appearance.
    pub fn for_appearance(appearance: Appearance) -> (theme: Self)
        ensures
            theme == stock_theme(appearance),
    {
        match appearance {
            Appearance::Dark => Theme {
                fg: Color::Rgb(0xe8, 0xec, 0xf4),
                accent: Color::Rgb(0x00, 0xb4, 0xff),
                info: Color::Rgb(0x4a, 0x9e, 0xff),
                ok: Color::Rgb(0x00, 0xff, 0x88),
                warn: Color::Rgb(0xff, 0xb3, 0x47),
                err: Color::Rgb(0xff, 0x47, 0x57),
                muted: Color::Rgb(0x6b, 0x72, 0x80),
                dim: Color::Rgb(0x6b, 0x72, 0x80),
                output: Color::Rgb(0x9c, 0xa3, 0xb0),
                border: Color::Rgb(0x1f, 0x25, 0x2d),
                code_border: Color::Rgb(0xd4, 0xc0, 0x90),
                tool_diff_added: Color::Rgb(0x00, 0xff, 0x88),
                tool_diff_removed: Color::Rgb(0xff, 0x47, 0x57),
                tool_diff_context: Color::Rgb(0x6b, 0x72, 0x80),
                surface: Color::Rgb(0x3a, 0x3f, 0x4b),
                hover: Color::Rgb(0x2c, 0x31, 0x3a),
                selection: Color::Rgb(0x36, 0x4c, 0x61),
                shadow: Color::Rgb(0x05, 0x07, 0x0c),
                panel: Color::Rgb(0x0f, 0x12, 0x16),
                error_surface: Color::Rgb(0x1a, 0x0f, 0x10),
                secondary: Color::Rgb(0xab, 0x77, 0xe6),
                python: Color::Rgb(0x37, 0x76, 0xab),
                status_rule: Color::Rgb(0x2a, 0x30, 0x38),
                border_muted: Color::Rgb(0x3d, 0x42, 0x4a),
                status_bg: Color::Rgb(0x12, 0x12, 0x12),
                status_sep: Color::Indexed(244),
                status_model: Color::Rgb(0xd7, 0x87, 0xaf),
                status_path: Color::Rgb(0x00, 0xaf, 0xaf),
                status_git_clean: Color::Rgb(0x5f, 0xaf, 0x5f),
                status_git_dirty: Color::Rgb(0xd7, 0xaf, 0x5f),
                status_context: Color::Rgb(0x87, 0x87, 0xaf),
                status_spend: Color::Rgb(0x5f, 0xaf, 0xaf),
                status_staged: Color::Indexed(70),
                status_dirty: Color::Indexed(178),
                status_untracked: Color::Indexed(39),
                status_output: Color::Indexed(205),
                status_cost: Color::Indexed(205),
                status_subagents: Color::Rgb(0xff, 0xb3, 0x47),
                contrast: Color::Rgb(0x10, 0x12, 0x16),
            },
            Appearance::Light => Theme {
                fg: Color::Rgb(0x24, 0x28, 0x30),
                accent: Color::Rgb(0x00, 0x5f, 0xaf),
                info: Color::Rgb(0x00, 0x72, 0x7d),
                ok: Color::Rgb(0x3f, 0x70, 0x19),
                warn: Color::Rgb(0x8a, 0x5a, 0x00),
                err: Color::Rgb(0xb0, 0x24, 0x32),
                muted: Color::Rgb(0x6b, 0x70, 0x78),
                dim: Color::Rgb(0x6b, 0x70, 0x78),
                output: Color::Rgb(0x4b, 0x52, 0x5d),
                border: Color::Rgb(0xd0, 0xd7, 0xde),
                code_border: Color::Rgb(0x6b, 0x70, 0x78),
                tool_diff_added: Color::Rgb(0x3f, 0x70, 0x19),
                tool_diff_removed: Color::Rgb(0xb0, 0x24, 0x32),
                tool_diff_context: Color::Rgb(0x6b, 0x70, 0x78),
                surface: Color::Rgb(0xe2, 0xe5, 0xea),
                hover: Color::Rgb(0xed, 0xef, 0xf2),
                selection: Color::Rgb(0xc2, 0xda, 0xed),
                shadow: Color::Rgb(0xb8, 0xbd, 0xc7),
                panel: Color::Rgb(0xee, 0xf0, 0xf3),
                error_surface: Color::Rgb(0xff, 0xed, 0xee),
                secondary: Color::Rgb(0x6f, 0x42, 0xc1),
                python: Color::Rgb(0x37, 0x76, 0xab),
                status_rule: Color::Rgb(0xc8, 0xd0, 0xd8),
                border_muted: Color::Rgb(0xb0, 0xb0, 0xb0),
                status_bg: Color::Rgb(0xe0, 0xe0, 0xe0),
                status_sep: Color::Rgb(0x80, 0x80, 0x80),
                status_model: Color::Rgb(0x87, 0x5f, 0x87),
                status_path: Color::Rgb(0x00, 0x5f, 0x87),
                status_git_clean: Color::Rgb(0x00, 0x5f, 0x00),
                status_git_dirty: Color::Rgb(0xaf, 0x5f, 0x00),
                status_context: Color::Rgb(0x5f, 0x5f, 0x87),
                status_spend: Color::Rgb(0x00, 0x5f, 0x5f),
                status_staged: Color::Indexed(28),
                status_dirty: Color::Indexed(136),
                status_untracked: Color::Indexed(31),
                status_output: Color::Indexed(133),
                status_cost: Color::Indexed(133),
                status_subagents: Color::Rgb(0x00, 0x5f, 0xaf),
                contrast: Color::Rgb(0xff, 0xff, 0xff),
            },
        }
    }

    /// Resolves a semantic token name (`accent`, `warn`, …) to its color.
    ///
    /// `warning`, `error`, and `success` are accepted aliases of `warn`, `err`,
    /// and `ok`; producers routinely emit the long spellings. The host resolves
    /// the CSS system colors.
    pub fn token(&self, name: &str) -> (color: Option<Color>)
        ensures
            color == token_color(*self, name@),
    {
        if same_text(name, "default") {
            Some(Color::Default)
        } else if same_text(name, "fg") {
            Some(self.fg)
        } else if same_text(name, "accent") {
            Some(self.accent)
        } else if same_text(name, "info") {
            Some(self.info)
        } else if same_text(name, "secondary") {
            Some(self.secondary)
        } else if same_text(name, "python") {
            Some(self.python)
        } else if same_text(name, "status_rule") {
            Some(self.status_rule)
        } else if same_text(name, "border_muted") {
            Some(self.border_muted)
        } else if same_text(name, "status_bg") {
            Some(self.status_bg)
        } else if same_text(name, "status_sep") {
            Some(self.status_sep)
        } else if same_text(name, "status_model") {
            Some(self.status_model)
        } else if same_text(name, "status_path") {
            Some(self.status_path)
        } else if same_text(name, "status_git_clean") {
            Some(self.status_git_clean)
        } else if same_text(name, "status_git_dirty") {
            Some(self.status_git_dirty)
        } else if same_text(name, "status_context") {
            Some(self.status_context)
        } else if same_text(name, "status_spend") {
            Some(self.status_spend)
        } else if same_text(name, "status_staged") {
            Some(self.status_staged)
        } else if same_text(name, "status_dirty") {
            Some(self.status_dirty)
        } else if same_text(name, "status_untracked") {
            Some(self.status_untracked)
        } else if same_text(name, "status_output") {
            Some(self.status_output)
        } else if same_text(name, "status_cost") {
            Some(self.status_cost)
        } else if same_text(name, "status_subagents") {
            Some(self.status_subagents)
        } else if same_text(name, "ok") || same_text(name, "success") {
            Some(self.ok)
        } else if same_text(name, "warn") || same_text(name, "warning") {
            Some(self.warn)
        } else if same_text(name, "err") || same_text(name, "error") {
            Some(self.err)
        } else if same_text(name, "muted") {
            Some(self.muted)
        } else if same_text(name, "dim") {
            Some(self.dim)
        } else if same_text(name, "output") || same_text(name, "thinking") {
            Some(self.output)
        } else if same_text(name, "error_surface") {
            Some(self.error_surface)
        } else if same_text(name, "border") {
            Some(self.border)
        } else if same_text(name, "code_border") {
            Some(self.code_border)
        } else if same_text(name, "tool_diff_added") {
            Some(self.tool_diff_added)
        } else if same_text(name, "tool_diff_removed") {
            Some(self.tool_diff_removed)
        } else if same_text(name, "tool_diff_context") {
            Some(self.tool_diff_context)
        } else if same_text(name, "surface") {
            Some(self.surface)
        } else if same_text(name, "hover") {
            Some(self.hover)
        } else if same_text(name, "selection") {
            Some(self.selection)
        } else if same_text(name, "shadow") {
            Some(self.shadow)
        } else if same_text(name, "panel") {
            Some(self.panel)
        } else if same_text(name, "contrast") {
            Some(self.contrast)
        } else {
            None
        }
    }

    /// Whether `name` is a semantic token of every theme.
    pub fn is_token(name: &str) -> (yes: bool)
        ensures
            yes == known_token(name@),
    {
        same_text(name, "default")
            || same_text(name, "fg")
            || same_text(name, "accent")
            || same_text(name, "info")
            || same_text(name, "secondary")
            || same_text(name, "python")
            || same_text(name, "status_rule")
            || same_text(name, "border_muted")
            || same_text(name, "status_bg")
            || same_text(name, "status_sep")
            || same_text(name, "status_model")
            || same_text(name, "status_path")
            || same_text(name, "status_git_clean")
            || same_text(name, "status_git_dirty")
            || same_text(name, "status_context")
            || same_text(name, "status_spend")
            || same_text(name, "status_staged")
            || same_text(name, "status_dirty")
            || same_text(name, "status_untracked")
            || same_text(name, "status_output")
            || same_text(name, "status_cost")
            || same_text(name, "status_subagents")
            || same_text(name, "ok")
            || same_text(name, "success")
            || same_text(name, "warn")
            || same_text(name, "warning")
            || same_text(name, "err")
            || same_text(name, "error")
            || same_text(name, "muted")
            || same_text(name, "dim")
            || same_text(name, "output")
            || same_text(name, "thinking")
            || same_text(name, "error_surface")
            || same_text(name, "border")
            || same_text(name, "code_border")
            || same_text(name, "tool_diff_added")
            || same_text(name, "tool_diff_removed")
            || same_text(name, "tool_diff_context")
            || same_text(name, "surface")
            || same_text(name, "hover")
            || same_text(name, "selection")
            || same_text(name, "shadow")
            || same_text(name, "panel")
            || same_text(name, "contrast")
    }
}

/// A name is a token exactly when every theme gives it a color.
pub proof fn tokens_resolve_on_every_theme(theme: Theme, name: Seq<char>)
    ensures
        known_token(name) <==> token_color(theme, name) is Some,
{
}

/// A quantized theme names no color that takes truecolor to show.
pub proof fn quantized_themes_need_no_truecolor(theme: Theme, name: Seq<char>)
    ensures
        token_color(quantized_theme(theme), name) matches Some(color) ==> !(color is Rgb),
{
    assert forall|color: Color| !(#[trigger] quantized(color) is Rgb) by {
        quantized_is_never_rgb(color);
    }
}

/// Scaling the components to another depth does not change the appearance.
pub proof fn depths_agree_on_appearance(red: u8, green: u8, blue: u8)
    ensures
        appearance_of(
            (red * 257) as u16,
            (green * 257) as u16,
            (blue * 257) as u16,
        ) == (if 2 * luma(red as int, green as int, blue as int) < luma(255, 255, 255) {
            Appearance::Dark
        } else {
            Appearance::Light
        }),
{
}

} // verus!
