//! Packing of an AC term: three quantized channels, each in `[0, 18]`, as
//! three base-19 digits in one integer, red most significant.

use vstd::prelude::*;
use vstd::arithmetic::div_mod::lemma_fundamental_div_mod_converse;

verus! {

/// The integer that packs the quantized channels `r`, `g`, `b` as base-19
/// digits, red most significant.
pub open spec fn ac_packed(r: int, g: int, b: int) -> int {
    r * 361 + g * 19 + b
}

/// Packs three quantized channels, each at most 18, into one integer.
pub fn pack(r: u32, g: u32, b: u32) -> (v: u32)
    requires
        r <= 18,
        g <= 18,
        b <= 18,
    ensures
        v == ac_packed(r as int, g as int, b as int),
        v < 6859,
{
    r * 361 + g * 19 + b
}

/// Splits a packed AC integer back into its three base-19 digits.  For a
/// packed value below `19^3` this inverts `pack`; the high digit keeps
/// whatever lies above the low two.
pub fn unpack(v: u16) -> (rgb: (u16, u16, u16))
    ensures
        rgb.0 == v as int / 361,
        rgb.1 == (v as int / 19) % 19,
        rgb.2 == v as int % 19,
        rgb.1 <= 18,
        rgb.2 <= 18,
{
    (v / 361, (v / 19) % 19, v % 19)
}

/// Unpacking a packed AC term recovers each quantized channel exactly.
pub proof fn lemma_ac_round_trip(r: int, g: int, b: int)
    requires
        0 <= r <= 18,
        0 <= g <= 18,
        0 <= b <= 18,
    ensures
        ac_packed(r, g, b) / 361 == r,
        (ac_packed(r, g, b) / 19) % 19 == g,
        ac_packed(r, g, b) % 19 == b,
{
    let v = ac_packed(r, g, b);
    lemma_fundamental_div_mod_converse(v, 361, r, g * 19 + b);
    lemma_fundamental_div_mod_converse(v, 19, r * 19 + g, b);
    lemma_fundamental_div_mod_converse(r * 19 + g, 19, r, g);
}

} // verus!
