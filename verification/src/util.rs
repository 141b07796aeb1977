use vstd::prelude::*;

verus! {

/// RGB565 packing: the five high bits of red, the six high bits of green and
/// the five high bits of blue, in that order from the top of the word.
pub open spec fn spec_color565(r: u8, g: u8, b: u8) -> u16 {
    ((((r as u16) & 0xF8) << 8) | (((g as u16) & 0xFC) << 3)) | ((b as u16) >> 3)
}

/// Packs one 8-bit-per-channel color into a 16-bit RGB565 word.
pub fn color565_from_rgb(r: u8, g: u8, b: u8) -> (c: u16)
    ensures
        c == spec_color565(r, g, b),
{
    (((r as u16) & 0xF8) << 8) | (((g as u16) & 0xFC) << 3) | ((b as u16) >> 3)
}

} // verus!
