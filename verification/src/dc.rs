//! Packing of the DC (average-color) term: three 8-bit sRGB channels in one
//! integer, red in the high byte.

use vstd::prelude::*;
use vstd::arithmetic::div_mod::lemma_fundamental_div_mod_converse;

verus! {

/// The integer that packs the sRGB channels `r`, `g`, `b`, red highest.
pub open spec fn dc_packed(r: int, g: int, b: int) -> int {
    r * 65536 + g * 256 + b
}

/// Packs three 8-bit sRGB channels into one integer, red in the high byte.
pub fn pack(r: u32, g: u32, b: u32) -> (v: u32)
    requires
        r <= 255,
        g <= 255,
        b <= 255,
    ensures
        v == dc_packed(r as int, g as int, b as int),
        v < 16777216,
{
    r * 65536 + g * 256 + b
}

/// Splits a packed DC integer back into its three channels.  For a packed
/// value below `2^24` this inverts `pack`; the high channel keeps whatever
/// lies above the low two bytes.
pub fn unpack(v: u32) -> (rgb: (u32, u32, u32))
    ensures
        rgb.0 == v as int / 65536,
        rgb.1 == (v as int / 256) % 256,
        rgb.2 == v as int % 256,
        rgb.1 <= 255,
        rgb.2 <= 255,
{
    (v / 65536, (v / 256) % 256, v % 256)
}

/// Unpacking a packed DC term recovers each channel exactly.
pub proof fn lemma_dc_round_trip(r: int, g: int, b: int)
    requires
        0 <= r <= 255,
        0 <= g <= 255,
        0 <= b <= 255,
    ensures
        dc_packed(r, g, b) / 65536 == r,
        (dc_packed(r, g, b) / 256) % 256 == g,
        dc_packed(r, g, b) % 256 == b,
{
    let v = dc_packed(r, g, b);
    lemma_fundamental_div_mod_converse(v, 65536, r, g * 256 + b);
    lemma_fundamental_div_mod_converse(v, 256, r * 256 + g, b);
    lemma_fundamental_div_mod_converse(r * 256 + g, 256, r, g);
}

} // verus!
