//! Colors and the light-surface dimensions shared by the state and render
//! layers.
use vstd::prelude::*;

verus! {

/// How many light surfaces a device can carry, in board wiring order.
pub const MAX_LIGHTS: usize = 2;

/// How many hue waypoints a breathing color group can hold.
pub const GROUP_CAPACITY: usize = 7;

/// An 8-bit-per-channel color.
#[derive(Debug, Clone, Copy, PartialEq, Eq, Structural)]
pub struct Rgb(pub u8, pub u8, pub u8);

/// One channel scaled by an 8-bit brightness: `channel * brightness / 255`,
/// rounded down, so `255` keeps the channel and `0` turns it off.
pub open spec fn scaled_channel(channel: u8, brightness: u8) -> u8 {
    (channel as int * brightness as int / 255) as u8
}

pub open spec fn scaled_color(color: Rgb, brightness: u8) -> Rgb {
    Rgb(
        scaled_channel(color.0, brightness),
        scaled_channel(color.1, brightness),
        scaled_channel(color.2, brightness),
    )
}

fn scale_channel(channel: u8, brightness: u8) -> (r: u8)
    ensures
        r == scaled_channel(channel, brightness),
{
    assert(channel as u32 * brightness as u32 <= 255 * 255) by (nonlinear_arith)
        requires
            channel <= 255,
            brightness <= 255,
    ;
    let product = channel as u32 * brightness as u32;
    assert(product / 255 <= 255) by (nonlinear_arith)
        requires
            product <= 255 * 255,
    ;
    (product / 255) as u8
}

/// Fold a brightness into a color, dimming every channel toward black.
pub fn scale_brightness(color: Rgb, brightness: u8) -> (r: Rgb)
    ensures
        r == scaled_color(color, brightness),
{
    Rgb(
        scale_channel(color.0, brightness),
        scale_channel(color.1, brightness),
        scale_channel(color.2, brightness),
    )
}

/// Hue of a color on the 256-step wheel (`0` red, about `85` green, about
/// `171` blue): the sector of the brightest channel plus `43` steps per full
/// channel difference over the chroma. A gray has hue `0`.
pub open spec fn color_hue(color: Rgb) -> u8 {
    let (r, g, b) = (color.0 as int, color.1 as int, color.2 as int);
    let max = if r >= g && r >= b { r } else if g >= b { g } else { b };
    let min = if r <= g && r <= b { r } else if g <= b { g } else { b };
    let delta = max - min;
    if delta == 0 {
        0
    } else if max == r {
        if g >= b {
            (43 * (g - b) / delta) as u8
        } else if 43 * (b - g) / delta == 0 {
            0
        } else {
            (256 - 43 * (b - g) / delta) as u8
        }
    } else if max == g {
        if b >= r {
            (85 + 43 * (b - r) / delta) as u8
        } else {
            (85 - 43 * (r - b) / delta) as u8
        }
    } else {
        if r >= g {
            (171 + 43 * (r - g) / delta) as u8
        } else {
            (171 - 43 * (g - r) / delta) as u8
        }
    }
}

/// Integer division of `43 * part` by `delta` with `part <= delta`, a value
/// in `0..=43`.
fn hue_steps(part: u8, delta: u8) -> (r: u8)
    requires
        part <= delta,
        delta > 0,
    ensures
        r == 43 * part as int / delta as int,
        r <= 43,
{
    let scaled = 43u32 * part as u32;
    assert(scaled / delta as u32 <= 43) by (nonlinear_arith)
        requires
            scaled == 43 * part as u32,
            part <= delta,
            delta > 0,
    ;
    (scaled / delta as u32) as u8
}

/// The hue of a color, for the diagnostic readout of a solid light.
pub fn rgb_hue(color: Rgb) -> (h: u8)
    ensures
        h == color_hue(color),
{
    let (r, g, b) = (color.0, color.1, color.2);
    let max = if r >= g && r >= b { r } else if g >= b { g } else { b };
    let min = if r <= g && r <= b { r } else if g <= b { g } else { b };
    let delta = max - min;
    if delta == 0 {
        0
    } else if max == r {
        if g >= b {
            hue_steps(g - b, delta)
        } else {
            let s = hue_steps(b - g, delta);
            if s == 0 { 0 } else { 255 - (s - 1) }
        }
    } else if max == g {
        if b >= r {
            85 + hue_steps(b - r, delta)
        } else {
            85 - hue_steps(r - b, delta)
        }
    } else {
        if r >= g {
            171 + hue_steps(r - g, delta)
        } else {
            171 - hue_steps(g - r, delta)
        }
    }
}

/// How a surface spreads one color: evenly, or dimmed from top to bottom.
#[derive(Debug, Clone, Copy, PartialEq, Eq, Structural)]
pub enum Fill {
    Uniform,
    VerticalGradient,
}

/// A light surface that shows one color at a time. Implemented per light
/// component in the board support.
pub trait RgbLight {
    /// Show `color` spread as `fill` says.
    fn set_fill(&mut self, fill: Fill, color: Rgb);

    /// Show `color` evenly.
    fn set_rgb(&mut self, color: Rgb) {
        self.set_fill(Fill::Uniform, color);
    }
}

} // verus!
