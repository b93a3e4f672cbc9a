//! Packing of 8-bit colour channels into one `0xAARRGGBB` word.

use vstd::prelude::*;

verus! {

/// Packs alpha, red, green and blue into `0xAARRGGBB`: each channel is
/// shifted into its byte and the four are or-ed together, so a channel
/// above 255 spills into the bytes above it.
pub fn pack_argb(a: u32, r: u32, g: u32, b: u32) -> (argb: u32)
    ensures
        argb == ((a << 24u32) | (r << 16u32) | (g << 8u32) | b),
        (a < 256 && r < 256 && g < 256 && b < 256) ==> argb == a * 0x1000000 + r * 0x10000 + g
            * 0x100 + b,
{
    let argb = (a << 24u32) | (r << 16u32) | (g << 8u32) | b;
    assert((a < 256 && r < 256 && g < 256 && b < 256) ==> ((a << 24u32) | (r << 16u32) | (g << 8u32)
        | b) == a * 0x1000000 + r * 0x10000 + g * 0x100 + b) by (bit_vector);
    argb
}

/// Alpha, red, green and blue of a packed `0xAARRGGBB` word.
pub open spec fn unpack_argb(argb: u32) -> (u32, u32, u32, u32) {
    ((argb >> 24u32) & 0xff, (argb >> 16u32) & 0xff, (argb >> 8u32) & 0xff, argb & 0xff)
}

/// Channels of at most 255 come back unchanged from a packed word.
pub proof fn lemma_pack_unpack(a: u32, r: u32, g: u32, b: u32)
    requires
        a < 256,
        r < 256,
        g < 256,
        b < 256,
    ensures
        unpack_argb((a << 24u32) | (r << 16u32) | (g << 8u32) | b) == (a, r, g, b),
{
    let p = (a << 24u32) | (r << 16u32) | (g << 8u32) | b;
    assert((p >> 24u32) & 0xff == a && (p >> 16u32) & 0xff == r && (p >> 8u32) & 0xff == g && p
        & 0xff == b) by (bit_vector)
        requires
            a < 256,
            r < 256,
            g < 256,
            b < 256,
            p == (a << 24u32) | (r << 16u32) | (g << 8u32) | b,
    ;
}

} // verus!
