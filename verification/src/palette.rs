//! Resolve colors to `0xRRGGBB`, or `None` for the terminal default.
//!
//! The palette knows nothing of any emulator crate: the emulator boundary maps
//! its colors into the neutral [`Color`] here.

use vstd::prelude::*;

verus! {

/// A color to resolve, independent of any terminal-emulator crate.
#[derive(Debug, Clone, Copy, PartialEq, Eq)]
pub enum Color {
    /// The themeable default foreground/background; the host supplies the
    /// concrete value via `default_colors`.
    Default,
    /// A 256-color palette index: 0..16 ANSI, 16..232 cube, 232..256 grayscale.
    Indexed(u8),
    /// A direct truecolor value.
    Rgb(u8, u8, u8),
}

/// Pack three 8-bit channels into `0xRRGGBB`.
pub open spec fn rgb(r: int, g: int, b: int) -> int {
    r * 0x10000 + g * 0x100 + b
}

/// The 16 ANSI colors as `0xRRGGBB` (xterm defaults).
pub open spec fn ansi16(index: int) -> int {
    if index == 0 { 0x000000 }
    else if index == 1 { 0x800000 }
    else if index == 2 { 0x008000 }
    else if index == 3 { 0x808000 }
    else if index == 4 { 0x000080 }
    else if index == 5 { 0x800080 }
    else if index == 6 { 0x008080 }
    else if index == 7 { 0xc0c0c0 }
    else if index == 8 { 0x808080 }
    else if index == 9 { 0xff0000 }
    else if index == 10 { 0x00ff00 }
    else if index == 11 { 0xffff00 }
    else if index == 12 { 0x0000ff }
    else if index == 13 { 0xff00ff }
    else if index == 14 { 0x00ffff }
    else { 0xffffff }
}

/// One channel of the 6x6x6 color cube: 0, 95, 135, 175, 215, 255.
pub open spec fn cube_level(v: int) -> int {
    if v == 0 { 0 } else { 55 + 40 * v }
}

/// The xterm 256-color palette entry for `index`.
pub open spec fn indexed_rgb(index: int) -> int {
    if index < 16 {
        ansi16(index)
    } else if index < 232 {
        let n = index - 16;
        rgb(cube_level(n / 36), cube_level((n / 6) % 6), cube_level(n % 6))
    } else {
        let gray = 8 + 10 * (index - 232);
        rgb(gray, gray, gray)
    }
}

/// What a color resolves to: `None` for the default, else its packed RGB.
pub open spec fn resolved(color: Color) -> Option<u32> {
    match color {
        Color::Default => None,
        Color::Indexed(index) => Some(indexed_rgb(index as int) as u32),
        Color::Rgb(r, g, b) => Some(rgb(r as int, g as int, b as int) as u32),
    }
}

fn ansi16_entry(index: u8) -> (rgb_value: u32)
    requires
        index < 16,
    ensures
        rgb_value == ansi16(index as int),
{
    match index {
        0 => 0x000000,
        1 => 0x800000,
        2 => 0x008000,
        3 => 0x808000,
        4 => 0x000080,
        5 => 0x800080,
        6 => 0x008080,
        7 => 0xc0c0c0,
        8 => 0x808080,
        9 => 0xff0000,
        10 => 0x00ff00,
        11 => 0xffff00,
        12 => 0x0000ff,
        13 => 0xff00ff,
        14 => 0x00ffff,
        _ => 0xffffff,
    }
}

fn cube_channel(v: u8) -> (level: u32)
    requires
        v < 6,
    ensures
        level == cube_level(v as int),
        level <= 255,
{
    if v == 0 { 0 } else { 55 + 40 * v as u32 }
}

fn pack(r: u32, g: u32, b: u32) -> (packed: u32)
    requires
        r <= 255,
        g <= 255,
        b <= 255,
    ensures
        packed == rgb(r as int, g as int, b as int),
{
    assert((r << 16u32) == r * 0x10000 && (g << 8u32) == g * 0x100) by (bit_vector)
        requires
            r <= 255,
            g <= 255,
    ;
    assert(((r << 16u32) | (g << 8u32) | b) == (r << 16u32) + (g << 8u32) + b) by (bit_vector)
        requires
            r <= 255,
            g <= 255,
            b <= 255,
    ;
    (r << 16u32) | (g << 8u32) | b
}

fn indexed(index: u8) -> (rgb_value: u32)
    ensures
        rgb_value == indexed_rgb(index as int),
{
    if index < 16 {
        ansi16_entry(index)
    } else if index < 232 {
        let n = index - 16;
        pack(cube_channel(n / 36), cube_channel((n / 6) % 6), cube_channel(n % 6))
    } else {
        let gray: u32 = 8 + 10 * (index as u32 - 232);
        pack(gray, gray, gray)
    }
}

/// Resolve a color to packed RGB, or `None` for the terminal default.
pub fn resolve(color: Color) -> (packed: Option<u32>)
    ensures
        packed == resolved(color),
        packed matches Some(v) ==> v <= 0xffffff,
{
    match color {
        Color::Default => None,
        Color::Indexed(index) => Some(indexed(index)),
        Color::Rgb(r, g, b) => Some(pack(r as u32, g as u32, b as u32)),
    }
}

/// The 16 ANSI colors are the xterm defaults: black, maroon, green, olive,
/// navy, purple, teal, silver, grey, red, lime, yellow, blue, fuchsia, aqua
/// and white, in palette order.
pub proof fn lemma_ansi_colors()
    ensures
        resolved(Color::Indexed(0)) == Some(0x000000u32),
        resolved(Color::Indexed(1)) == Some(0x800000u32),
        resolved(Color::Indexed(2)) == Some(0x008000u32),
        resolved(Color::Indexed(3)) == Some(0x808000u32),
        resolved(Color::Indexed(4)) == Some(0x000080u32),
        resolved(Color::Indexed(5)) == Some(0x800080u32),
        resolved(Color::Indexed(6)) == Some(0x008080u32),
        resolved(Color::Indexed(7)) == Some(0xc0c0c0u32),
        resolved(Color::Indexed(8)) == Some(0x808080u32),
        resolved(Color::Indexed(9)) == Some(0xff0000u32),
        resolved(Color::Indexed(10)) == Some(0x00ff00u32),
        resolved(Color::Indexed(11)) == Some(0xffff00u32),
        resolved(Color::Indexed(12)) == Some(0x0000ffu32),
        resolved(Color::Indexed(13)) == Some(0xff00ffu32),
        resolved(Color::Indexed(14)) == Some(0x00ffffu32),
        resolved(Color::Indexed(15)) == Some(0xffffffu32),
{
}

/// The 6x6x6 color cube: entry `16 + 36 r + 6 g + b` has the channels given
/// by the levels 0, 95, 135, 175, 215, 255 at `r`, `g` and `b`.
pub proof fn lemma_color_cube(r: int, g: int, b: int)
    requires
        0 <= r < 6,
        0 <= g < 6,
        0 <= b < 6,
    ensures
        ({
            let levels = seq![0int, 95, 135, 175, 215, 255];
            resolved(Color::Indexed((16 + 36 * r + 6 * g + b) as u8)) == Some(
                (levels[r] * 0x10000 + levels[g] * 0x100 + levels[b]) as u32,
            )
        }),
{
    let n = 36 * r + 6 * g + b;
    assert(0 <= n < 216);
    assert(((16 + n) as u8) as int == 16 + n);
    vstd::arithmetic::div_mod::lemma_fundamental_div_mod_converse(n, 36, r, 6 * g + b);
    vstd::arithmetic::div_mod::lemma_fundamental_div_mod_converse(n, 6, 6 * r + g, b);
    vstd::arithmetic::div_mod::lemma_fundamental_div_mod_converse(6 * r + g, 6, r, g);
    let levels = seq![0int, 95, 135, 175, 215, 255];
    assert(cube_level(r) == levels[r]);
    assert(cube_level(g) == levels[g]);
    assert(cube_level(b) == levels[b]);
}

/// The grayscale ramp: entry `232 + k` is the gray whose three channels are
/// `8 + 10 k`.
pub proof fn lemma_grayscale(k: int)
    requires
        0 <= k < 24,
    ensures
        resolved(Color::Indexed((232 + k) as u8)) == Some(
            ((8 + 10 * k) * 0x10000 + (8 + 10 * k) * 0x100 + (8 + 10 * k)) as u32,
        ),
{
    assert(((232 + k) as u8) as int == 232 + k);
}

/// The default color has no value (the host's default applies), and a
/// truecolor value packs its channels as `0xRRGGBB`.
pub proof fn lemma_default_and_truecolor(r: u8, g: u8, b: u8)
    ensures
        resolved(Color::Default) is None,
        resolved(Color::Rgb(r, g, b)) == Some((r * 0x10000 + g * 0x100 + b) as u32),
        r * 0x10000 + g * 0x100 + b <= 0xffffff,
{
}

} // verus!
