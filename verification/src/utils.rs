//! Small numeric helpers and the crate's only source of randomness.

use vstd::prelude::*;
use crate::fixed::{SCALE, absi, tdiv, lemma_tdiv_basics, mul_fx};
use vstd::arithmetic::div_mod::lemma_div_is_ordered;
use vstd::arithmetic::mul::lemma_mul_inequality;

verus! {

/// Largest ray parameter the intersection search accepts; stands in for
/// positive infinity. In real terms about one million distance units.
pub const INFINITY: i64 = 68719476736;

/// Fixed-point representation of pi.
pub const PI_FX: i64 = 205887;

pub open spec fn spec_clamp(x: int, min: int, max: int) -> int {
    if x < min {
        min
    } else if x > max {
        max
    } else {
        x
    }
}

/// Clamp `x` to the closed interval `[min, max]`.
pub fn clamp(x: i64, min: i64, max: i64) -> (r: i64)
    ensures
        r == spec_clamp(x as int, min as int, max as int),
{
    if x < min {
        min
    } else if x > max {
        max
    } else {
        x
    }
}

/// `degrees * pi / 180`, in fixed point.
pub open spec fn spec_deg_to_rad(degrees: int) -> int {
    tdiv(degrees * (PI_FX as int), 180 * (SCALE as int))
}

/// Convert an angle from degrees to radians.
pub fn degrees_to_radians(degrees: i64) -> (r: i64)
    ensures
        r == spec_deg_to_rad(degrees as int),
        absi(r as int) <= absi(degrees as int),
{
    let p: i128 = (degrees as i128) * (PI_FX as i128);
    let q: i128 = p / (180 * (SCALE as i128));
    proof {
        lemma_tdiv_basics(p as int, 180 * (SCALE as int));
        assert(absi(p as int) == absi(degrees as int) * (PI_FX as int)) by (nonlinear_arith)
            requires p as int == (degrees as int) * (PI_FX as int);
        lemma_mul_inequality(PI_FX as int, 180 * (SCALE as int), absi(degrees as int));
        assert(absi(degrees as int) * (PI_FX as int) == (PI_FX as int) * absi(degrees as int))
            by (nonlinear_arith);
        assert(absi(degrees as int) * (180 * (SCALE as int))
            == (180 * (SCALE as int)) * absi(degrees as int)) by (nonlinear_arith);
        lemma_div_is_ordered(
            absi(p as int),
            absi(degrees as int) * (180 * (SCALE as int)),
            180 * (SCALE as int),
        );
        vstd::arithmetic::div_mod::lemma_div_multiples_vanish(
            absi(degrees as int),
            180 * (SCALE as int),
        );
    }
    q as i64
}

/// Relies on `rand::random::<u16>`: the `StandardUniform` distribution
/// draws every `u16` value with equal probability, so the result is a
/// uniform raw sample in `[0, SCALE)`. Nothing more than the range is
/// promised, since the value is random.
#[verifier::external_body]
fn rand_unit() -> (r: i64)
    ensures
        0 <= r < SCALE,
{
    rand::random::<u16>() as i64
}

/// A random fixed-point value in `[min, max)` (`min` itself when the
/// interval is empty): `min + u * (max - min)` for a uniform unit sample `u`.
pub fn random_fx(min: i64, max: i64) -> (r: i64)
    requires
        min <= max,
        absi(min as int) <= 0x10000000000,
        absi(max as int) <= 0x10000000000,
    ensures
        min <= r <= max,
        min < max ==> r < max,
{
    let u: i64 = rand_unit();
    let width: i64 = max - min;
    proof {
        assert(0 <= (width as int) * (u as int) <= (width as int) * ((SCALE as int) - 1))
            by (nonlinear_arith)
            requires 0 <= width as int, 0 <= u as int <= (SCALE as int) - 1;
        lemma_tdiv_basics((width as int) * (u as int), SCALE as int);
        lemma_div_is_ordered(
            (width as int) * (u as int),
            (width as int) * ((SCALE as int) - 1),
            SCALE as int,
        );
        assert((width as int) * ((SCALE as int) - 1) / (SCALE as int) <= width as int) by {
            assert((width as int) * ((SCALE as int) - 1) < (width as int + 1) * (SCALE as int))
                by (nonlinear_arith)
                requires 0 <= width as int;
            vstd::arithmetic::div_mod::lemma_div_multiples_vanish(
                width as int + 1,
                SCALE as int,
            );
            lemma_div_is_ordered(
                (width as int) * ((SCALE as int) - 1),
                (width as int + 1) * (SCALE as int),
                SCALE as int,
            );
            assert((width as int) * ((SCALE as int) - 1) % (SCALE as int) != 0 ==> true);
        }
    }
    let step: i64 = mul_fx(width, u);
    proof {
        if min < max {
            assert(step as int <= (width as int) * ((SCALE as int) - 1) / (SCALE as int));
            assert((width as int) * ((SCALE as int) - 1) / (SCALE as int) < width as int) by {
                assert((width as int) * ((SCALE as int) - 1)
                    <= (width as int) * (SCALE as int) - (width as int)) by (nonlinear_arith);
                vstd::arithmetic::div_mod::lemma_fundamental_div_mod_converse(
                    (width as int) * (SCALE as int) - 1,
                    SCALE as int,
                    width as int - 1,
                    (SCALE as int) - 1,
                );
                assert((width as int - 1) * (SCALE as int) + ((SCALE as int) - 1)
                    == (width as int) * (SCALE as int) - 1) by (nonlinear_arith);
                lemma_div_is_ordered(
                    (width as int) * ((SCALE as int) - 1),
                    (width as int) * (SCALE as int) - 1,
                    SCALE as int,
                );
            }
        }
    }
    min + step
}

} // verus!
