//! Turning accumulated radiance samples into 8-bit pixel channels:
//! average, gamma-correct by square root, clamp, scale.

use vstd::prelude::*;
use crate::fixed::{
    SCALE, tdiv, fxsqrt, lemma_tdiv_basics, lemma_tdiv_bound, sqrt_fx,
};
use crate::utils::{spec_clamp, clamp};
use crate::vec3::{Colour, lemma_sqrt_magnitude};
use vstd::arithmetic::div_mod::lemma_div_is_ordered;

verus! {

/// Largest channel value that survives the clamp: just below one.
pub const CLAMP_MAX: i64 = 65470;

/// One channel of the final pixel: divide the accumulated sum by the
/// sample count, take the fixed-point square root (gamma two), clamp to
/// `[0, 0.999]`, and keep the top eight bits.
pub open spec fn spec_rescale_channel(sum: int, n: int) -> int {
    let avg = tdiv(sum, n);
    let gamma = fxsqrt(avg);
    let clamped = spec_clamp(gamma, 0, CLAMP_MAX as int);
    tdiv(clamped * 256, SCALE as int)
}

/// Rescale one channel, exactly per `spec_rescale_channel`; the result
/// is always an 8-bit value.
pub fn rescale_channel(sum: i64, n: i64) -> (r: i32)
    requires
        n >= 1,
        0 <= sum <= 0x1000000000000,
    ensures
        r == spec_rescale_channel(sum as int, n as int),
        0 <= r <= 255,
{
    proof {
        lemma_tdiv_basics(sum as int, n as int);
        lemma_tdiv_bound(sum as int, n as int, 0x1000000000000);
    }
    let avg: i64 = sum / n;
    let gamma: i64 = sqrt_fx(avg);
    proof {
        lemma_sqrt_magnitude(avg as int);
    }
    let clamped: i64 = clamp(gamma, 0, CLAMP_MAX);
    proof {
        lemma_tdiv_basics((clamped as int) * 256, SCALE as int);
        assert(0 <= (clamped as int) * 256 <= (CLAMP_MAX as int) * 256) by (nonlinear_arith)
            requires 0 <= clamped <= CLAMP_MAX;
        lemma_div_is_ordered((clamped as int) * 256, (CLAMP_MAX as int) * 256, SCALE as int);
    }
    let wide: i64 = clamped * 256;
    (wide / SCALE) as i32
}

/// Rescale a pixel's accumulated colour into integer RGB in `[0, 255]`.
pub fn rescale_colour(pixel_colour: Colour, samples_per_pixel: i64) -> (rgb: (i32, i32, i32))
    requires
        samples_per_pixel >= 1,
        0 <= pixel_colour.e0 <= 0x1000000000000,
        0 <= pixel_colour.e1 <= 0x1000000000000,
        0 <= pixel_colour.e2 <= 0x1000000000000,
    ensures
        rgb.0 == spec_rescale_channel(pixel_colour.e0 as int, samples_per_pixel as int),
        rgb.1 == spec_rescale_channel(pixel_colour.e1 as int, samples_per_pixel as int),
        rgb.2 == spec_rescale_channel(pixel_colour.e2 as int, samples_per_pixel as int),
        0 <= rgb.0 <= 255 && 0 <= rgb.1 <= 255 && 0 <= rgb.2 <= 255,
{
    let r: i32 = rescale_channel(pixel_colour.e0, samples_per_pixel);
    let g: i32 = rescale_channel(pixel_colour.e1, samples_per_pixel);
    let b: i32 = rescale_channel(pixel_colour.e2, samples_per_pixel);
    (r, g, b)
}

} // verus!
