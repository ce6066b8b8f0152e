//! Colours as packed bytes. The conversion of a channel to a fraction of one
//! is floating-point arithmetic and the caller's part.

use vstd::prelude::*;

verus! {

/// The byte of `hex` that lies `shift / 8` bytes above the lowest.
pub open spec fn channel(hex: u32, shift: nat) -> int {
    if shift == 0 {
        hex as int % 256
    } else if shift == 8 {
        (hex as int / 256) % 256
    } else if shift == 16 {
        (hex as int / 65536) % 256
    } else {
        (hex as int / 16777216) % 256
    }
}

/// The red, green and blue channels of a colour written as `0xRRGGBB`; the
/// highest byte is not looked at.
pub fn rgb_channels(hex: u32) -> (rgb: (u8, u8, u8))
    ensures
        rgb.0 == channel(hex, 16),
        rgb.1 == channel(hex, 8),
        rgb.2 == channel(hex, 0),
{
    let r: u32 = (hex >> 16) & 0xFF;
    let g: u32 = (hex >> 8) & 0xFF;
    let b: u32 = hex & 0xFF;
    assert(((hex >> 16) & 0xFF) == (hex / 65536) % 256) by (bit_vector);
    assert(((hex >> 8) & 0xFF) == (hex / 256) % 256) by (bit_vector);
    assert((hex & 0xFF) == hex % 256) by (bit_vector);
    (r as u8, g as u8, b as u8)
}

/// The red, green, blue and alpha channels of a colour written as
/// `0xRRGGBBAA`.
pub fn rgba_channels(hex: u32) -> (rgba: (u8, u8, u8, u8))
    ensures
        rgba.0 == channel(hex, 24),
        rgba.1 == channel(hex, 16),
        rgba.2 == channel(hex, 8),
        rgba.3 == channel(hex, 0),
{
    let r: u32 = (hex >> 24) & 0xFF;
    let g: u32 = (hex >> 16) & 0xFF;
    let b: u32 = (hex >> 8) & 0xFF;
    let a: u32 = hex & 0xFF;
    assert(((hex >> 24) & 0xFF) == (hex / 16777216) % 256) by (bit_vector);
    assert(((hex >> 16) & 0xFF) == (hex / 65536) % 256) by (bit_vector);
    assert(((hex >> 8) & 0xFF) == (hex / 256) % 256) by (bit_vector);
    assert((hex & 0xFF) == hex % 256) by (bit_vector);
    (r as u8, g as u8, b as u8, a as u8)
}

} // verus!
