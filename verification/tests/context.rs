use omp_tui::charset::Charset;
use omp_tui::color::Color;
use omp_tui::context::{
    Graphics, JamoWidth, JsonTheme, TerminalCaps, UiContext, WidthPolicy,
};
use omp_tui::theme::{Appearance, Theme};

fn policy() -> WidthPolicy {
    WidthPolicy { jamo: JamoWidth::Platform, narrow_platform: false }
}

fn context() -> UiContext {
    UiContext::new(&policy())
}

fn stock() -> Theme {
    Theme::for_appearance(Appearance::Dark)
}

fn palette(name: &str, dark: Color, light: Color) -> JsonTheme {
    JsonTheme {
        name: name.to_string(),
        dark: Theme { accent: dark, ..Theme::for_appearance(Appearance::Dark) },
        light: Theme { accent: light, ..Theme::for_appearance(Appearance::Light) },
    }
}

#[test]
fn pulse_frames_degrade_by_charset() {
    let samples = [0u64, 120, 240, 360, 480];
    let unicode = samples.map(|now| Charset::Unicode.pulse().at(now));
    let nerd = samples.map(|now| Charset::NerdFont.pulse().at(now));
    let ascii = samples.map(|now| Charset::Ascii.pulse().at(now));

    assert_eq!(unicode, ["·", "•", "●", "•", "·"]);
    assert_eq!(nerd, unicode);
    assert_eq!(ascii, [".", "o", "O", "o", "."]);
}

#[test]
fn bt601_classifies_boundary_colors_at_both_component_depths() {
    assert_eq!(Appearance::from_rgb8(0, 0, 0), Appearance::Dark);
    assert_eq!(Appearance::from_rgb8(255, 255, 255), Appearance::Light);
    assert_eq!(Appearance::from_rgb8(127, 127, 127), Appearance::Dark);
    assert_eq!(Appearance::from_rgb8(128, 128, 128), Appearance::Light);
    assert_eq!(Appearance::from_rgb16(0, 0, 0), Appearance::Dark);
    assert_eq!(Appearance::from_rgb16(u16::MAX, u16::MAX, u16::MAX), Appearance::Light);
    assert_eq!(Appearance::from_rgb16(0x7fff, 0x7fff, 0x7fff), Appearance::Dark);
    assert_eq!(Appearance::from_rgb16(0x8000, 0x8000, 0x8000), Appearance::Light);
}

#[test]
fn unset_foreground_falls_back_only_on_painted_surfaces() {
    let theme = Theme { fg: Color::Default, ..stock() };
    let surface = Color::Rgb(0xee, 0xee, 0xee);
    // The label that a bright surface blends to.
    let label = surface.contrast_label(true, Color::Rgb(43, 43, 43));
    let painted = theme.foreground_on(theme.fg, surface, label);
    assert_ne!(painted, Color::Default);
    assert_eq!(theme.foreground_on(theme.fg, Color::Default, label), Color::Default);

    let explicit = Color::Rgb(1, 2, 3);
    assert_eq!(theme.foreground_on(explicit, theme.panel, label), explicit);
}

#[test]
fn appearance_changes_follow_stock_palette_and_preserve_custom_themes() {
    let mut stock_ctx = context();
    assert!(stock_ctx.apply_appearance(Appearance::Light));
    assert_eq!(stock_ctx.appearance, Appearance::Light);
    assert_eq!(stock_ctx.theme, Theme::for_appearance(Appearance::Light));
    assert!(!stock_ctx.apply_appearance(Appearance::Light));

    let mut quantized = context();
    quantized.theme = Theme::for_appearance(Appearance::Dark).quantized_256();
    assert!(quantized.apply_appearance(Appearance::Light));
    assert_eq!(quantized.theme, Theme::for_appearance(Appearance::Light).quantized_256());

    let custom = Theme { accent: Color::Rgb(1, 2, 3), ..stock() };
    let mut custom_ctx = context();
    custom_ctx.theme = custom;
    assert!(custom_ctx.apply_appearance(Appearance::Light));
    assert_eq!(custom_ctx.theme, custom);
}

#[test]
fn appearance_changes_select_independent_named_palettes_atomically() {
    let dark = palette("night", Color::Rgb(0x11, 0x11, 0x11), Color::Rgb(0x12, 0x12, 0x12));
    let light = palette("day", Color::Rgb(0xdd, 0xdd, 0xdd), Color::Rgb(0xee, 0xee, 0xee));
    let mut ui = context().with_appearance_palettes(Some(dark), Some(light));
    assert_eq!(ui.theme.accent, Color::Rgb(0x11, 0x11, 0x11));

    assert!(ui.apply_appearance(Appearance::Light));
    assert_eq!(
        ui.theme.accent,
        Color::Rgb(0xee, 0xee, 0xee),
        "light appearance selects the separately named day palette",
    );
    assert!(ui.apply_appearance(Appearance::Dark));
    assert_eq!(
        ui.theme.accent,
        Color::Rgb(0x11, 0x11, 0x11),
        "dark selection survives the round trip",
    );
}

#[test]
fn appearance_palettes_are_distinct_and_cover_every_token() {
    let dark = Theme::for_appearance(Appearance::Dark);
    let light = Theme::for_appearance(Appearance::Light);
    assert_ne!(dark, light);
    for token in [
        "fg",
        "accent",
        "info",
        "ok",
        "warn",
        "err",
        "muted",
        "border",
        "code_border",
        "surface",
        "hover",
        "shadow",
        "contrast",
    ] {
        assert!(dark.token(token).is_some(), "dark palette misses {token}");
        assert!(light.token(token).is_some(), "light palette misses {token}");
        assert!(Theme::is_token(token));
    }
    assert_eq!(dark.token("no-such-token"), None);
    assert!(!Theme::is_token("no-such-token"));
}

#[test]
fn selecting_the_same_palette_again_changes_nothing() {
    let mut ui = context();
    assert!(!ui.set_palette(None), "the stock palette was selected already");
    let night = || palette("night", Color::Rgb(1, 1, 1), Color::Rgb(2, 2, 2));
    assert!(ui.set_palette(Some(night())));
    assert!(!ui.set_palette(Some(night())));
    assert_eq!(ui.theme.accent, Color::Rgb(1, 1, 1));
    assert!(ui.set_palette(None));
    assert_eq!(ui.theme, stock());
}

#[test]
fn contexts_compare_by_what_they_show() {
    let one = context();
    let mut other = context();
    assert!(one.same(&other));
    other.theme.accent = Color::Rgb(9, 9, 9);
    assert!(!one.same(&other));
}

#[test]
fn jamo_widths_change_only_where_the_effective_width_does() {
    let mut widths = policy();
    let mut ui = UiContext::new(&widths);
    assert!(
        !ui.set_jamo_width(&mut widths, JamoWidth::Unicode),
        "the platform follows the tables already"
    );
    assert!(ui.set_jamo_width(&mut widths, JamoWidth::Wide));
    assert!(ui.set_jamo_width(&mut widths, JamoWidth::Narrow));
    assert_eq!(widths.effective(), JamoWidth::Narrow);
    let mut narrow = WidthPolicy { jamo: JamoWidth::Platform, narrow_platform: true };
    assert!(!narrow.set(JamoWidth::Narrow));
}

#[test]
fn quantized_themes_need_no_truecolor() {
    let theme = stock().quantized_256();
    for name in ["fg", "accent", "err", "muted", "border"] {
        assert!(!matches!(theme.token(name), Some(Color::Rgb(..))), "{name}");
    }
    assert_eq!(theme.accent, stock().accent.quantized_256());
    assert_eq!(theme.quantized_256(), theme);
}

#[test]
fn terminals_configure_their_context() {
    let mut widths = policy();
    let caps = TerminalCaps {
        graphics: Graphics::Sixel,
        charset: Charset::Ascii,
        jamo_width: 2,
        background: Some((0xffff, 0xffff, 0xffff)),
        true_color: false,
    };
    let ui = context().with_terminal_caps(&mut widths, &caps);
    assert_eq!((ui.graphics, ui.charset), (Graphics::Sixel, Charset::Ascii));
    assert_eq!(widths.jamo, JamoWidth::Wide);
    assert_eq!(ui.theme, Theme::for_appearance(Appearance::Light).quantized_256());
    let night = palette("night", Color::Rgb(1, 1, 1), Color::Rgb(2, 2, 2));
    assert_eq!(context().with_palette(Some(night)).theme.accent, Color::Rgb(1, 1, 1));
}
