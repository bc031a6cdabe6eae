use vstd::prelude::*;
use crate::color::Rgba;

verus! {

/// Linear interpolation of one channel: `l` weighted `num/den` plus
/// `r` weighted `(den-num)/den`, truncated.
pub open spec fn blend_channel(l: int, r: int, num: int, den: int) -> int {
    (l * num + r * (den - num)) / den
}

/// Linear interpolation of two pixels with the fractional weight
/// `num/den` on the first.
pub open spec fn blend_px(line: Rgba, orig: Rgba, num: int, den: int) -> Rgba {
    Rgba(
        [
            blend_channel(line.0[0] as int, orig.0[0] as int, num, den) as u8,
            blend_channel(line.0[1] as int, orig.0[1] as int, num, den) as u8,
            blend_channel(line.0[2] as int, orig.0[2] as int, num, den) as u8,
            blend_channel(line.0[3] as int, orig.0[3] as int, num, den) as u8,
        ],
    )
}

proof fn lemma_blend_channel_range(l: int, r: int, num: int, den: int)
    by (nonlinear_arith)
    requires
        0 <= l <= 255,
        0 <= r <= 255,
        0 <= num <= den,
        1 <= den,
    ensures
        0 <= blend_channel(l, r, num, den) <= 255,
{
    assert(l * num + r * (den - num) <= 255 * num + 255 * (den - num));
    assert(l * num + r * (den - num) >= 0);
}

fn weighted_channel_sum(l: u8, r: u8, num: u32, den: u32) -> (c: u8)
    requires
        1 <= den <= 0x4000_0000,
        num <= den,
    ensures
        c as int == blend_channel(l as int, r as int, num as int, den as int),
{
    proof {
        lemma_blend_channel_range(l as int, r as int, num as int, den as int);
        assert((l as int) * (num as int) + (r as int) * ((den - num) as int) <= 255 * 0x4000_0000)
            by (nonlinear_arith)
            requires
                0 <= l as int <= 255,
                0 <= r as int <= 255,
                0 <= num as int <= den as int,
                den as int <= 0x4000_0000,
        ;
        assert((l as int) * (num as int) >= 0 && (r as int) * ((den - num) as int) >= 0)
            by (nonlinear_arith)
            requires
                0 <= l as int,
                0 <= r as int,
                0 <= num as int,
                num as int <= den as int,
        ;
    }
    (((l as u64) * (num as u64) + (r as u64) * ((den - num) as u64)) / (den as u64)) as u8
}

/// Adds two pixels with the fractional weight `num/den` on the first
/// and its complement on the second, channel by channel; the weights
/// sum to one, so the result needs no clamping.
pub fn weighted_sum(left: Rgba, right: Rgba, num: u32, den: u32) -> (r: Rgba)
    requires
        1 <= den <= 0x4000_0000,
        num <= den,
    ensures
        r == blend_px(left, right, num as int, den as int),
{
    Rgba(
        [
            weighted_channel_sum(left.0[0], right.0[0], num, den),
            weighted_channel_sum(left.0[1], right.0[1], num, den),
            weighted_channel_sum(left.0[2], right.0[2], num, den),
            weighted_channel_sum(left.0[3], right.0[3], num, den),
        ],
    )
}

} // verus!
