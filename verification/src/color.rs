//! The bit-level core of the payload codec: resolving a pixel index to its RGB
//! triple, extracting the 4-bit nybble hidden in a triple's low bits, and
//! assembling one payload byte from a pair of pixels.

use vstd::prelude::*;

verus! {

/// The nybble hidden in one RGB triple: bit 3 is the red channel's least
/// significant bit, bits 2-1 are the green channel's two low bits, and bit 0
/// is the blue channel's least significant bit.
pub open spec fn nybble_of(r: u8, g: u8, b: u8) -> u8 {
    ((r & 1) << 3) | ((g & 3) << 1) | (b & 1)
}

/// A pixel index `px` can be resolved against palette `pal`: its three
/// channel bytes all lie inside the palette data.
pub open spec fn pixel_in_range(pal: Seq<u8>, px: u8) -> bool {
    px * 3 + 2 < pal.len()
}

/// The RGB triple that palette `pal` assigns to pixel index `px`.
pub open spec fn color_at(pal: Seq<u8>, px: u8) -> (u8, u8, u8) {
    (pal[px * 3], pal[px * 3 + 1], pal[px * 3 + 2])
}

/// The nybble hidden at pixel index `px` of palette `pal`.
pub open spec fn nybble_at(pal: Seq<u8>, px: u8) -> u8 {
    nybble_of(color_at(pal, px).0, color_at(pal, px).1, color_at(pal, px).2)
}

/// Both pixels of the pair starting at pixel position `i` of `buf` resolve
/// against palette `pal`.
pub open spec fn pair_in_range(buf: Seq<u8>, pal: Seq<u8>, i: int) -> bool {
    pixel_in_range(pal, buf[i]) && pixel_in_range(pal, buf[i + 1])
}

/// The payload byte hidden in the pixel pair at positions `i`, `i + 1` of
/// `buf`: the first pixel's nybble is the high half, the second's the low.
pub open spec fn byte_of(buf: Seq<u8>, pal: Seq<u8>, i: int) -> u8 {
    (nybble_at(pal, buf[i]) << 4) | nybble_at(pal, buf[i + 1])
}

/// Derives the 4-bit value hidden in one RGB triple.
pub fn nybble(color: (u8, u8, u8)) -> (n: u8)
    ensures
        n == nybble_of(color.0, color.1, color.2),
        n < 16,
{
    let (r, g, b) = color;
    let n: u8 = ((r & 1) << 3) | ((g & 3) << 1) | (b & 1);
    proof {
        assert(((r & 1) << 3) | ((g & 3) << 1) | (b & 1) < 16) by (bit_vector);
    }
    n
}

/// Decides whether a pixel index can be resolved against the palette.
pub fn pixel_ok(pixel: u8, palette: &[u8]) -> (b: bool)
    ensures
        b == pixel_in_range(palette@, pixel),
{
    (pixel as usize) * 3 + 2 < palette.len()
}

/// Resolves a pixel index to its RGB triple in the given palette.
pub fn pixel_to_color(pixel: u8, palette: &[u8]) -> (c: (u8, u8, u8))
    requires
        pixel_in_range(palette@, pixel),
    ensures
        c == color_at(palette@, pixel),
{
    let i: usize = (pixel as usize) * 3;
    (palette[i], palette[i + 1], palette[i + 2])
}

/// Assembles the payload byte hidden in the pixel pair at positions `i`,
/// `i + 1` of the frame buffer.
pub fn byte(buffer: &[u8], palette: &[u8], i: usize) -> (b: u8)
    requires
        i + 1 < buffer@.len(),
        pair_in_range(buffer@, palette@, i as int),
    ensures
        b == byte_of(buffer@, palette@, i as int),
{
    let hi = nybble(pixel_to_color(buffer[i], palette));
    let lo = nybble(pixel_to_color(buffer[i + 1], palette));
    (hi << 4) | lo
}

} // verus!
