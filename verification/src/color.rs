//! Terminal colors and the xterm 256-color palette.

use vstd::prelude::*;

verus! {

/// A terminal foreground or background color.
#[derive(Clone, Copy, Debug, PartialEq, Eq, Structural)]
pub enum Color {
    /// The terminal's configured default color.
    Default,
    /// An indexed color from the terminal's 256-color palette.
    Indexed(u8),
    /// A 24-bit RGB color.
    Rgb(u8, u8, u8),
}

impl Default for Color {
    fn default() -> (color: Self)
        ensures
            color == Color::Default,
    {
        Color::Default
    }
}

/// Channel value of one of the six steps of the xterm color cube.
pub open spec fn cube_level(step: int) -> int {
    if step <= 0 {
        0
    } else {
        55 + 40 * step
    }
}

/// Channel value of one of the twenty-four steps of the xterm gray ramp.
pub open spec fn gray_level(step: int) -> int {
    8 + 10 * step
}

/// Distance between two channel values.
pub open spec fn channel_gap(a: int, b: int) -> int {
    if a >= b {
        a - b
    } else {
        b - a
    }
}

/// Squared distance between two colors, channel by channel.
pub open spec fn color_gap(a: (int, int, int), b: (int, int, int)) -> int {
    let red = channel_gap(a.0, b.0);
    let green = channel_gap(a.1, b.1);
    let blue = channel_gap(a.2, b.2);
    red * red + green * green + blue * blue
}

/// Whether `step` is the first cube step at the least distance from `channel`.
pub open spec fn is_nearest_step(channel: int, step: int) -> bool {
    &&& 0 <= step < 6
    &&& forall|other: int|
        0 <= other < 6 ==> channel_gap(channel, cube_level(step)) <= channel_gap(
            channel,
            #[trigger] cube_level(other),
        )
    &&& forall|other: int|
        0 <= other < step ==> channel_gap(channel, cube_level(step)) < channel_gap(
            channel,
            #[trigger] cube_level(other),
        )
}

/// The cube step that quantization picks for `channel`.
pub open spec fn nearest_step(channel: int) -> int {
    choose|step: int| is_nearest_step(channel, step)
}

/// The gray step that quantization considers for a mean channel value.
pub open spec fn gray_step(mean: int) -> int {
    if mean <= 8 {
        0
    } else if (mean - 3) / 10 > 23 {
        23
    } else {
        (mean - 3) / 10
    }
}

/// Red, green and blue of the sixteen ANSI colors.
pub open spec fn ansi_rgb(index: int) -> (u8, u8, u8) {
    if index == 0 {
        (0, 0, 0)
    } else if index == 1 {
        (128, 0, 0)
    } else if index == 2 {
        (0, 128, 0)
    } else if index == 3 {
        (128, 128, 0)
    } else if index == 4 {
        (0, 0, 128)
    } else if index == 5 {
        (128, 0, 128)
    } else if index == 6 {
        (0, 128, 128)
    } else if index == 7 {
        (192, 192, 192)
    } else if index == 8 {
        (128, 128, 128)
    } else if index == 9 {
        (255, 0, 0)
    } else if index == 10 {
        (0, 255, 0)
    } else if index == 11 {
        (255, 255, 0)
    } else if index == 12 {
        (0, 0, 255)
    } else if index == 13 {
        (255, 0, 255)
    } else if index == 14 {
        (0, 255, 255)
    } else {
        (255, 255, 255)
    }
}

/// The color that an xterm palette index stands for.
pub open spec fn palette_color(index: int) -> Color {
    if index < 16 {
        let (red, green, blue) = ansi_rgb(index);
        Color::Rgb(red, green, blue)
    } else if index < 232 {
        Color::Rgb(
            cube_level((index - 16) / 36) as u8,
            cube_level((index - 16) % 36 / 6) as u8,
            cube_level((index - 16) % 6) as u8,
        )
    } else {
        let gray = gray_level(index - 232) as u8;
        Color::Rgb(gray, gray, gray)
    }
}

/// The palette entry that quantization gives a color.
#[verifier::opaque]
pub open spec fn quantized(color: Color) -> Color {
    match color {
        Color::Rgb(red, green, blue) => {
            let wanted = (red as int, green as int, blue as int);
            let (r, g, b) = (
                nearest_step(red as int),
                nearest_step(green as int),
                nearest_step(blue as int),
            );
            let cube = (cube_level(r), cube_level(g), cube_level(b));
            let step = gray_step((red + green + blue) / 3);
            let gray = gray_level(step);
            if color_gap(wanted, (gray, gray, gray)) < color_gap(wanted, cube) {
                Color::Indexed((232 + step) as u8)
            } else {
                Color::Indexed((16 + 36 * r + 6 * g + b) as u8)
            }
        },
        other => other,
    }
}

/// At most one cube step is nearest to a channel value.
proof fn nearest_step_is_unique(channel: int, step: int)
    requires
        is_nearest_step(channel, step),
    ensures
        nearest_step(channel) == step,
{
    let other = nearest_step(channel);
    assert(is_nearest_step(channel, other));
    if other < step {
        assert(channel_gap(channel, cube_level(step)) < channel_gap(channel, cube_level(other)));
    } else if step < other {
        assert(channel_gap(channel, cube_level(other)) < channel_gap(channel, cube_level(step)));
    }
}

/// Channel value of a cube step.
fn cube_channel(step: u8) -> (level: u8)
    requires
        step < 6,
    ensures
        level == cube_level(step as int),
{
    if step == 0 {
        0
    } else {
        55 + 40 * step
    }
}

/// Distance between two channel values.
fn gap(a: u8, b: u8) -> (distance: u8)
    ensures
        distance == channel_gap(a as int, b as int),
{
    if a >= b {
        a - b
    } else {
        b - a
    }
}

/// The first cube step at the least distance from `channel`.
pub fn nearest_level(channel: u8) -> (best: u8)
    ensures
        is_nearest_step(channel as int, best as int),
{
    let mut best: u8 = 0;
    let mut best_distance: u8 = gap(channel, cube_channel(0));
    let mut index: u8 = 1;
    while index < 6
        invariant
            0 <= best < index <= 6,
            best_distance == channel_gap(channel as int, cube_level(best as int)),
            forall|other: int|
                0 <= other < index ==> best_distance <= channel_gap(
                    channel as int,
                    #[trigger] cube_level(other),
                ),
            forall|other: int|
                0 <= other < best ==> best_distance < channel_gap(
                    channel as int,
                    #[trigger] cube_level(other),
                ),
        decreases 6 - index,
    {
        let distance: u8 = gap(channel, cube_channel(index));
        if distance < best_distance {
            best = index;
            best_distance = distance;
        }
        index += 1;
    }
    best
}

/// Square of a channel distance.
fn square(distance: u8) -> (product: u32)
    ensures
        product == distance * distance,
        product <= 65025,
{
    assert(distance * distance <= 65025) by (nonlinear_arith)
        requires
            distance <= 255,
    ;
    distance as u32 * distance as u32
}

/// Squared distance between two colors.
pub fn distance_sq(r: u8, g: u8, b: u8, rr: u8, gg: u8, bb: u8) -> (distance: u32)
    ensures
        distance == color_gap((r as int, g as int, b as int), (rr as int, gg as int, bb as int)),
{
    square(gap(r, rr)) + square(gap(g, gg)) + square(gap(b, bb))
}

/// The color that an xterm palette index stands for.
pub fn indexed_rgb(index: u8) -> (color: Color)
    ensures
        color == palette_color(index as int),
{
    if index < 16 {
        match index {
            0 => Color::Rgb(0, 0, 0),
            1 => Color::Rgb(128, 0, 0),
            2 => Color::Rgb(0, 128, 0),
            3 => Color::Rgb(128, 128, 0),
            4 => Color::Rgb(0, 0, 128),
            5 => Color::Rgb(128, 0, 128),
            6 => Color::Rgb(0, 128, 128),
            7 => Color::Rgb(192, 192, 192),
            8 => Color::Rgb(128, 128, 128),
            9 => Color::Rgb(255, 0, 0),
            10 => Color::Rgb(0, 255, 0),
            11 => Color::Rgb(255, 255, 0),
            12 => Color::Rgb(0, 0, 255),
            13 => Color::Rgb(255, 0, 255),
            14 => Color::Rgb(0, 255, 255),
            _ => Color::Rgb(255, 255, 255),
        }
    } else if index < 232 {
        let cube: u8 = index - 16;
        Color::Rgb(
            cube_channel(cube / 36),
            cube_channel(cube % 36 / 6),
            cube_channel(cube % 6),
        )
    } else {
        let gray: u8 = 8 + 10 * (index - 232);
        Color::Rgb(gray, gray, gray)
    }
}

impl Color {
    /// Quantizes a 24-bit color to the nearest xterm 256-color cube or
    /// grayscale entry. Default and already-indexed colors pass through.
    pub fn quantized_256(self) -> (color: Self)
        ensures
            color == quantized(self),
    {
        proof {
            reveal(quantized);
        }
        match self {
            Color::Rgb(red, green, blue) => {
                let ri: u8 = nearest_level(red);
                let gi: u8 = nearest_level(green);
                let bi: u8 = nearest_level(blue);
                proof {
                    nearest_step_is_unique(red as int, ri as int);
                    nearest_step_is_unique(green as int, gi as int);
                    nearest_step_is_unique(blue as int, bi as int);
                }
                let cube: u8 = 16 + 36 * ri + 6 * gi + bi;
                let cube_error: u32 = distance_sq(
                    red,
                    green,
                    blue,
                    cube_channel(ri),
                    cube_channel(gi),
                    cube_channel(bi),
                );
                let average: u16 = (red as u16 + green as u16 + blue as u16) / 3;
                let gray_index: u8 = if average <= 8 {
                    0
                } else {
                    let candidate: u16 = (average - 8 + 5) / 10;
                    if candidate > 23 {
                        23
                    } else {
                        candidate as u8
                    }
                };
                let gray: u8 = 8 + 10 * gray_index;
                let gray_error: u32 = distance_sq(red, green, blue, gray, gray, gray);
                if gray_error < cube_error {
                    Color::Indexed(232 + gray_index)
                } else {
                    Color::Indexed(cube)
                }
            },
            other => other,
        }
    }
}

/// Every channel value has a nearest cube step.
proof fn nearest_step_exists(channel: int)
    requires
        0 <= channel <= 255,
    ensures
        is_nearest_step(channel, nearest_step(channel)),
{
    let step: int = if channel <= 47 {
        0
    } else if channel <= 115 {
        1
    } else if channel <= 155 {
        2
    } else if channel <= 195 {
        3
    } else if channel <= 235 {
        4
    } else {
        5
    };
    assert(is_nearest_step(channel, step));
}

/// Quantizing twice gives what quantizing once gave.
pub proof fn quantizing_is_idempotent(color: Color)
    ensures
        quantized(quantized(color)) == quantized(color),
{
    reveal(quantized);
}

/// Quantization never yields a 24-bit color.
pub proof fn quantized_is_never_rgb(color: Color)
    ensures
        !(quantized(color) is Rgb),
{
    reveal(quantized);
}

/// A color cube step quantizes to itself.
proof fn cube_step_is_nearest_to_itself(step: int)
    requires
        0 <= step < 6,
    ensures
        nearest_step(cube_level(step)) == step,
{
    assert(is_nearest_step(cube_level(step), step));
    nearest_step_is_unique(cube_level(step), step);
}

/// A color of the cube quantizes to its own cube entry.
proof fn cube_color_quantizes_to_itself(r: int, g: int, b: int)
    requires
        0 <= r < 6,
        0 <= g < 6,
        0 <= b < 6,
    ensures
        quantized(Color::Rgb(cube_level(r) as u8, cube_level(g) as u8, cube_level(b) as u8))
            == Color::Indexed((16 + 36 * r + 6 * g + b) as u8),
{
    reveal(quantized);
    cube_step_is_nearest_to_itself(r);
    cube_step_is_nearest_to_itself(g);
    cube_step_is_nearest_to_itself(b);
    let wanted = (cube_level(r), cube_level(g), cube_level(b));
    let gray = gray_level(gray_step((cube_level(r) + cube_level(g) + cube_level(b)) / 3));
    assert(color_gap(wanted, wanted) == 0) by {
        assert(0int * 0 == 0);
    }
    gap_is_never_negative(wanted, (gray, gray, gray));
}

/// A color of the gray ramp quantizes to its own entry.
proof fn gray_color_quantizes_to_itself(step: int)
    requires
        0 <= step < 24,
    ensures
        quantized(
            Color::Rgb(gray_level(step) as u8, gray_level(step) as u8, gray_level(step) as u8),
        ) == Color::Indexed((232 + step) as u8),
{
    reveal(quantized);
    let gray = gray_level(step);
    nearest_step_exists(gray);
    let near = nearest_step(gray);
    let distance = channel_gap(gray, cube_level(near));
    assert(distance > 0);
    assert(distance * distance > 0) by (nonlinear_arith)
        requires
            distance > 0,
    ;
    assert(color_gap((gray, gray, gray), (gray, gray, gray)) == 0) by {
        assert(0int * 0 == 0);
    }
    assert((gray + gray + gray) / 3 == gray);
    assert(gray_step(gray) == step);
}

/// The three base-six digits of a cube offset recompose it.
proof fn cube_digits_recompose(cube: int)
    requires
        0 <= cube < 216,
    ensures
        cube == 36 * (cube / 36) + 6 * (cube % 36 / 6) + cube % 6,
        0 <= cube / 36 < 6,
        0 <= cube % 36 / 6 < 6,
{
    let rest = cube - 36 * (cube / 36);
    assert(rest == cube % 36);
    assert(rest == 6 * (rest / 6) + rest % 6);
    let tail = cube - 6 * (6 * (cube / 36) + rest / 6);
    assert(tail == rest % 6);
    assert(cube % 6 == tail);
}

/// The colors of the cube and of the gray ramp quantize to the very index
/// that stands for them.
pub proof fn palette_colors_quantize_to_their_index(index: u8)
    requires
        16 <= index,
    ensures
        quantized(palette_color(index as int)) == Color::Indexed(index),
{
    if index < 232 {
        let cube = index - 16;
        let (r, g, b) = (cube / 36, cube % 36 / 6, cube % 6);
        cube_digits_recompose(cube);
        cube_color_quantizes_to_itself(r, g, b);
    } else {
        gray_color_quantizes_to_itself(index - 232);
    }
}

/// A squared distance is not negative.
proof fn gap_is_never_negative(a: (int, int, int), b: (int, int, int))
    ensures
        color_gap(a, b) >= 0,
{
    let red = channel_gap(a.0, b.0);
    let green = channel_gap(a.1, b.1);
    let blue = channel_gap(a.2, b.2);
    assert(red * red >= 0) by (nonlinear_arith);
    assert(green * green >= 0) by (nonlinear_arith);
    assert(blue * blue >= 0) by (nonlinear_arith);
}

/// Squared distance from a color to the entry at a palette index.
pub open spec fn palette_gap(wanted: (int, int, int), index: int) -> int {
    match palette_color(index) {
        Color::Rgb(red, green, blue) => color_gap(wanted, (red as int, green as int, blue as int)),
        _ => 0,
    }
}

/// Channels that lie nearer make colors that lie nearer.
proof fn nearer_channels_make_nearer_colors(
    wanted: (int, int, int),
    near: (int, int, int),
    far: (int, int, int),
)
    requires
        channel_gap(wanted.0, near.0) <= channel_gap(wanted.0, far.0),
        channel_gap(wanted.1, near.1) <= channel_gap(wanted.1, far.1),
        channel_gap(wanted.2, near.2) <= channel_gap(wanted.2, far.2),
    ensures
        color_gap(wanted, near) <= color_gap(wanted, far),
{
    squares_grow(channel_gap(wanted.0, near.0), channel_gap(wanted.0, far.0));
    squares_grow(channel_gap(wanted.1, near.1), channel_gap(wanted.1, far.1));
    squares_grow(channel_gap(wanted.2, near.2), channel_gap(wanted.2, far.2));
}

/// Squares grow with what is squared.
proof fn squares_grow(a: int, b: int)
    by (nonlinear_arith)
    requires
        0 <= a <= b,
    ensures
        a * a <= b * b,
{
}

/// The square of a distance is that of the difference.
proof fn gap_squared(a: int, b: int)
    ensures
        channel_gap(a, b) * channel_gap(a, b) == a * a - 2 * (a * b) + b * b,
{
    let gap = channel_gap(a, b);
    assert(gap * gap == (a - b) * (a - b)) by (nonlinear_arith)
        requires
            gap == a - b || gap == b - a,
    ;
    assert((a - b) * (a - b) == a * a - 2 * (a * b) + b * b) by (nonlinear_arith);
}

/// No gray of the ramp lies nearer than the one that quantization considers.
proof fn considered_gray_is_nearest(wanted: (int, int, int), step: int)
    requires
        0 <= wanted.0 <= 255,
        0 <= wanted.1 <= 255,
        0 <= wanted.2 <= 255,
        0 <= step < 24,
    ensures
        ({
            let near = gray_level(gray_step((wanted.0 + wanted.1 + wanted.2) / 3));
            let far = gray_level(step);
            color_gap(wanted, (near, near, near)) <= color_gap(wanted, (far, far, far))
        }),
{
    let sum = wanted.0 + wanted.1 + wanted.2;
    let chosen = gray_step(sum / 3);
    let near = gray_level(chosen);
    let far = gray_level(step);
    gap_squared(wanted.0, near);
    gap_squared(wanted.1, near);
    gap_squared(wanted.2, near);
    gap_squared(wanted.0, far);
    gap_squared(wanted.1, far);
    gap_squared(wanted.2, far);
    assert(wanted.0 * near + wanted.1 * near + wanted.2 * near == sum * near) by (nonlinear_arith)
        requires
            sum == wanted.0 + wanted.1 + wanted.2,
    ;
    assert(wanted.0 * far + wanted.1 * far + wanted.2 * far == sum * far) by (nonlinear_arith)
        requires
            sum == wanted.0 + wanted.1 + wanted.2,
    ;
    if chosen < step {
        assert(sum <= 3 * near + 15);
        assert(3 * (near * near) - 2 * (sum * near) <= 3 * (far * far) - 2 * (sum * far))
            by (nonlinear_arith)
            requires
                far >= near + 10,
                sum <= 3 * near + 15,
        ;
    } else if step < chosen {
        assert(sum >= 3 * near - 15);
        assert(3 * (near * near) - 2 * (sum * near) <= 3 * (far * far) - 2 * (sum * far))
            by (nonlinear_arith)
            requires
                far <= near - 10,
                sum >= 3 * near - 15,
        ;
    }
}

/// Quantization gives the nearest entry of the cube and the gray ramp: no other
/// lies nearer to the color.
pub proof fn quantized_entry_is_nearest(red: u8, green: u8, blue: u8, index: u8)
    requires
        16 <= index,
    ensures
        ({
            let wanted = (red as int, green as int, blue as int);
            match quantized(Color::Rgb(red, green, blue)) {
                Color::Indexed(entry) => 16 <= entry && palette_gap(wanted, entry as int)
                    <= palette_gap(wanted, index as int),
                _ => false,
            }
        }),
{
    reveal(quantized);
    let wanted = (red as int, green as int, blue as int);
    let (r, g, b) = (
        nearest_step(red as int),
        nearest_step(green as int),
        nearest_step(blue as int),
    );
    nearest_step_exists(red as int);
    nearest_step_exists(green as int);
    nearest_step_exists(blue as int);
    let offset = 36 * r + 6 * g + b;
    let cube = (cube_level(r), cube_level(g), cube_level(b));
    let step = gray_step((red + green + blue) / 3);
    let gray = gray_level(step);
    assert(offset / 36 == r && offset % 36 / 6 == g && offset % 6 == b);
    assert(palette_gap(wanted, 16 + offset) == color_gap(wanted, cube));
    assert(palette_gap(wanted, 232 + step) == color_gap(wanted, (gray, gray, gray)));
    if index < 232 {
        let other = index - 16;
        cube_digits_recompose(other);
        let far = (
            cube_level(other / 36),
            cube_level(other % 36 / 6),
            cube_level(other % 6),
        );
        assert(palette_gap(wanted, index as int) == color_gap(wanted, far));
        nearer_channels_make_nearer_colors(wanted, cube, far);
    } else {
        let far = gray_level(index - 232);
        assert(palette_gap(wanted, index as int) == color_gap(wanted, (far, far, far)));
        considered_gray_is_nearest(wanted, index - 232);
    }
}

/// A color as style sheets write it. The host reads the text and measures the
/// alpha; the library decides what becomes of it in a cell.
#[derive(Clone, Copy, Debug, PartialEq, Eq, Structural)]
pub enum CssColor {
    /// Channels, and whether any of the color shows.
    Rgba(u8, u8, u8, bool),
    /// The color of the surrounding text.
    Current,
    /// A color of the system, which needs a theme.
    System,
}

impl Color {
    /// Lowers a parsed style-sheet color to a cell color without context: fully
    /// transparent values and `currentcolor` become [`Color::Default`] (the
    /// terminal's pass-through color), translucent values keep their color
    /// unblended, and system colors, which need a theme, are `None`, as is text
    /// that is no color.
    pub fn parse(value: Option<CssColor>) -> (color: Option<Self>)
        ensures
            color == (match value {
                Some(CssColor::Rgba(red, green, blue, shows)) => Some(
                    if shows {
                        Color::Rgb(red, green, blue)
                    } else {
                        Color::Default
                    },
                ),
                Some(CssColor::Current) => Some(Color::Default),
                Some(CssColor::System) => None,
                None => None,
            }),
    {
        match value {
            Some(CssColor::Rgba(red, green, blue, shows)) => if shows {
                Some(Color::Rgb(red, green, blue))
            } else {
                Some(Color::Default)
            },
            Some(CssColor::Current) => Some(Color::Default),
            Some(CssColor::System) => None,
            None => None,
        }
    }

    /// Derives a readable label color from this fill, given whether the fill is
    /// bright and what an RGB fill blends to.
    ///
    /// RGB fills blend toward black or white. Xterm-indexed fills select the
    /// corresponding black or white palette endpoint; the terminal-default
    /// surface remains terminal-default because its actual color is unknown.
    pub fn contrast_label(self, bright: bool, blend: Color) -> (label: Self)
        ensures
            label == (match self {
                Color::Default => Color::Default,
                Color::Indexed(_) => if bright {
                    Color::Indexed(16)
                } else {
                    Color::Indexed(231)
                },
                Color::Rgb(..) => blend,
            }),
    {
        match self {
            Color::Default => Color::Default,
            Color::Indexed(_) => if bright {
                Color::Indexed(16)
            } else {
                Color::Indexed(231)
            },
            Color::Rgb(..) => blend,
        }
    }
}

/// A two-stop terminal color ramp.
///
/// Zero degrees runs left-to-right; 90 degrees runs top-to-bottom.
#[derive(Clone, Copy, Debug, PartialEq, Eq, Structural)]
pub struct Gradient {
    start: Color,
    end: Color,
    angle: u16,
}

impl Gradient {
    /// The color at the beginning of the ramp.
    pub closed spec fn from(self) -> Color {
        self.start
    }

    /// The color at the end of the ramp.
    pub closed spec fn to(self) -> Color {
        self.end
    }

    /// The direction of the ramp in degrees.
    pub closed spec fn degrees(self) -> u16 {
        self.angle
    }

    /// Creates a ramp between two colors.
    pub fn new(start: Color, end: Color, angle: u16) -> (gradient: Self)
        ensures
            gradient.from() == start,
            gradient.to() == end,
            gradient.degrees() == angle,
    {
        Gradient { start, end, angle }
    }

    /// Returns the color at the beginning of the ramp.
    pub fn start(&self) -> (color: Color)
        ensures
            color == self.from(),
    {
        self.start
    }

    /// Returns the color at the end of the ramp.
    pub fn end(&self) -> (color: Color)
        ensures
            color == self.to(),
    {
        self.end
    }

    /// Returns the angle: 0 is left-to-right and 90 is top-to-bottom.
    pub fn angle(&self) -> (degrees: u16)
        ensures
            degrees == self.degrees(),
    {
        self.angle
    }
}

} // verus!
