//! Colours as packed 24-bit RGB values.

use vstd::prelude::*;

verus! {

/// Colour of every floor tile.
pub const RED: u32 = 0xFF0000;

/// Colour of every wall tile.
pub const BLUE: u32 = 0x0000FF;

/// Colour of the player.
pub const GREEN: u32 = 0x00FF00;

/// The packed value whose three low bytes are `r`, `g` and `b`, red highest.
pub open spec fn packed(r: int, g: int, b: int) -> int {
    r * 0x10000 + g * 0x100 + b
}

/// The byte of `color` that holds its red channel: bits 16 to 23.
pub open spec fn red_of(color: u32) -> u8 {
    ((color as int / 0x10000) % 0x100) as u8
}

/// The byte of `color` that holds its green channel: bits 8 to 15.
pub open spec fn green_of(color: u32) -> u8 {
    ((color as int / 0x100) % 0x100) as u8
}

/// The byte of `color` that holds its blue channel: bits 0 to 7.
pub open spec fn blue_of(color: u32) -> u8 {
    (color as int % 0x100) as u8
}

/// Packs three channel values into one colour, red in bits 16 to 23, green in
/// bits 8 to 15 and blue in bits 0 to 7.
pub fn compose_color(r: u32, g: u32, b: u32) -> (rgb: u32)
    requires
        r <= 0xFF,
        g <= 0xFF,
        b <= 0xFF,
    ensures
        rgb == packed(r as int, g as int, b as int),
        rgb <= 0xFFFFFF,
{
    assert(r << 8 == r * 0x100) by (bit_vector)
        requires
            r <= 0xFF,
    ;
    let mut rgb: u32 = r;
    rgb = (rgb << 8) + g;
    let upper: u32 = rgb;
    assert(upper << 8 == upper * 0x100) by (bit_vector)
        requires
            upper <= 0xFFFF,
    ;
    rgb = (rgb << 8) + b;
    rgb
}

/// Splits a colour into its red, green and blue bytes. Bits 24 to 31 are not
/// part of any channel.
pub fn split_rgb(color: u32) -> (channels: (u8, u8, u8))
    ensures
        channels.0 == red_of(color),
        channels.1 == green_of(color),
        channels.2 == blue_of(color),
{
    assert((color >> 16) & 0xFF == (color / 0x10000) % 0x100) by (bit_vector);
    assert((color >> 8) & 0xFF == (color / 0x100) % 0x100) by (bit_vector);
    assert((color >> 0) & 0xFF == color % 0x100) by (bit_vector);
    assert((color >> 16) & 0xFF <= 0xFF) by (bit_vector);
    assert((color >> 8) & 0xFF <= 0xFF) by (bit_vector);
    assert((color >> 0) & 0xFF <= 0xFF) by (bit_vector);
    (((color >> 16) & 0xFF) as u8, ((color >> 8) & 0xFF) as u8, ((color >> 0) & 0xFF) as u8)
}

/// Splitting a composed colour gives back the three channels it was made of.
pub proof fn lemma_split_of_composed(r: u32, g: u32, b: u32)
    requires
        r <= 0xFF,
        g <= 0xFF,
        b <= 0xFF,
    ensures
        0 <= packed(r as int, g as int, b as int) <= 0xFFFFFF,
        red_of(packed(r as int, g as int, b as int) as u32) == r,
        green_of(packed(r as int, g as int, b as int) as u32) == g,
        blue_of(packed(r as int, g as int, b as int) as u32) == b,
{
}

} // verus!
