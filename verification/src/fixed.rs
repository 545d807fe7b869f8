//! Scalar fixed-point arithmetic.
//!
//! Every real-valued quantity of the renderer is represented in Q16.16
//! fixed point: an `i64` holding `value * SCALE`, with `SCALE = 2^16`.
//! All operations are defined exactly over mathematical integers, so every
//! contract in the crate pins its result down to the last raw unit.

use vstd::prelude::*;
use vstd::arithmetic::div_mod::{
    lemma_div_is_ordered, lemma_div_pos_is_pos, lemma_div_basics, lemma_div_multiples_vanish,
};

verus! {

/// Number of raw units per 1.0: the fixed-point scale, 2^16.
pub const SCALE: i64 = 65536;

/// The value fits in an `i64`.
pub open spec fn fits_i64(x: int) -> bool {
    i64::MIN <= x <= i64::MAX
}

/// Absolute value over mathematical integers.
pub open spec fn absi(x: int) -> int {
    if x >= 0 {
        x
    } else {
        -x
    }
}

/// Truncating (round-toward-zero) integer division, the semantics of `/`
/// on Rust's signed integers, expressed over mathematical integers.
pub open spec fn tdiv(a: int, b: int) -> int {
    if a >= 0 {
        a / b
    } else {
        -((-a) / b)
    }
}

/// Fixed-point product: `(a * b) / SCALE`, truncated toward zero.
pub open spec fn fxmul(a: int, b: int) -> int {
    tdiv(a * b, SCALE as int)
}

/// Fixed-point quotient: `(a * SCALE) / b`, truncated toward zero.
pub open spec fn fxdiv(a: int, b: int) -> int {
    tdiv(a * (SCALE as int), b)
}

/// The floor of the square root of a non-negative integer.
pub closed spec fn sqrt_floor(n: int) -> int {
    choose|r: int| #![trigger r * r] 0 <= r && r * r <= n < (r + 1) * (r + 1)
}

/// Fixed-point square root: `sqrt_floor(a * SCALE)` is the Q16.16
/// representation of the square root of the real value `a / SCALE`.
pub open spec fn fxsqrt(a: int) -> int {
    sqrt_floor(a * (SCALE as int))
}

/// The square-root floor exists for every non-negative integer.
pub proof fn lemma_sqrt_floor_exists(n: int)
    requires
        n >= 0,
    ensures
        0 <= sqrt_floor(n),
        sqrt_floor(n) * sqrt_floor(n) <= n,
        n < (sqrt_floor(n) + 1) * (sqrt_floor(n) + 1),
    decreases n,
{
    if n == 0 {
        assert(0 <= 0 && 0 * 0 <= 0 < (0 + 1) * (0 + 1)) by (nonlinear_arith);
        assert(exists|r: int| #![trigger r * r] 0 <= r && r * r <= n < (r + 1) * (r + 1));
    } else {
        lemma_sqrt_floor_exists(n - 1);
        let r0 = sqrt_floor(n - 1);
        if n < (r0 + 1) * (r0 + 1) {
            assert(0 <= r0 && r0 * r0 <= n < (r0 + 1) * (r0 + 1));
            assert(exists|r: int| #![trigger r * r] 0 <= r && r * r <= n < (r + 1) * (r + 1));
        } else {
            assert(n == (r0 + 1) * (r0 + 1));
            assert((r0 + 1) * (r0 + 1) < (r0 + 2) * (r0 + 2)) by (nonlinear_arith)
                requires r0 >= 0;
            assert(0 <= r0 + 1 && (r0 + 1) * (r0 + 1) <= n < (r0 + 2) * (r0 + 2));
            assert(exists|r: int| #![trigger r * r] 0 <= r && r * r <= n < (r + 1) * (r + 1));
        }
    }
}

/// Any integer satisfying the floor-square-root bracketing equals `sqrt_floor`.
pub proof fn lemma_sqrt_floor_unique(n: int, r: int)
    requires
        0 <= r,
        r * r <= n,
        n < (r + 1) * (r + 1),
    ensures
        r == sqrt_floor(n),
{
    lemma_sqrt_floor_exists(n);
    let s = sqrt_floor(n);
    if r < s {
        assert((r + 1) * (r + 1) <= s * s) by (nonlinear_arith)
            requires 0 <= r, r < s;
        assert(false);
    }
    if s < r {
        assert((s + 1) * (s + 1) <= r * r) by (nonlinear_arith)
            requires 0 <= s, s < r;
        assert(false);
    }
}

/// Truncating division agrees in magnitude with Euclidean division of the
/// magnitudes, is bounded by the dividend's magnitude, and negates cleanly.
pub proof fn lemma_tdiv_basics(a: int, d: int)
    requires
        d >= 1,
    ensures
        absi(tdiv(a, d)) == absi(a) / d,
        absi(tdiv(a, d)) <= absi(a),
        tdiv(-a, d) == -tdiv(a, d),
        tdiv(a, 1) == a,
        a >= 0 ==> tdiv(a, d) >= 0,
        a <= 0 ==> tdiv(a, d) <= 0,
    decreases 0int,
{
    lemma_div_basics(a);
    lemma_div_basics(-a);
    if a >= 0 {
        lemma_div_pos_is_pos(a, d);
        lemma_div_is_ordered(0, a, d);
        assert(a / d <= a) by {
            vstd::arithmetic::div_mod::lemma_div_nonincreasing(a, d);
        }
    } else {
        lemma_div_pos_is_pos(-a, d);
        assert((-a) / d <= -a * 1) by {
            vstd::arithmetic::div_mod::lemma_div_nonincreasing(-a, d);
        }
    }
}

/// `|a| <= m` transfers to a bound on the truncated quotient.
pub proof fn lemma_tdiv_bound(a: int, d: int, m: int)
    requires
        d >= 1,
        absi(a) <= m,
    ensures
        absi(tdiv(a, d)) <= m / d,
        absi(tdiv(a, d)) <= m,
    decreases 0int,
{
    lemma_tdiv_basics(a, d);
    lemma_div_is_ordered(absi(a), m, d);
    vstd::arithmetic::div_mod::lemma_div_nonincreasing(m, d);
}

/// Truncating division recovers the dividend up to less than one
/// divisor: `|a - d * tdiv(a, d)| < d`.
pub proof fn lemma_tdiv_residual(a: int, d: int)
    requires
        d >= 1,
    ensures
        absi(a - d * tdiv(a, d)) < d,
    decreases 0int,
{
    if a >= 0 {
        vstd::arithmetic::div_mod::lemma_fundamental_div_mod(a, d);
        vstd::arithmetic::div_mod::lemma_mod_bound(a, d);
    } else {
        vstd::arithmetic::div_mod::lemma_fundamental_div_mod(-a, d);
        vstd::arithmetic::div_mod::lemma_mod_bound(-a, d);
        assert(d * -((-a) / d) == -(d * ((-a) / d))) by (nonlinear_arith);
    }
}

/// Multiplying by `SCALE` in fixed point is the identity.
pub proof fn lemma_fxmul_scale(a: int)
    ensures
        fxmul(a, SCALE as int) == a,
        fxmul(SCALE as int, a) == a,
    decreases 0int,
{
    if a >= 0 {
        lemma_div_multiples_vanish(a, SCALE as int);
    } else {
        lemma_div_multiples_vanish(-a, SCALE as int);
        assert(-a * (SCALE as int) == -(a * (SCALE as int))) by (nonlinear_arith);
    }
    assert(a * (SCALE as int) == (SCALE as int) * a) by (nonlinear_arith);
}

/// Magnitude bound for a fixed-point product.
pub proof fn lemma_fxmul_bound(a: int, b: int, ma: int, mb: int)
    requires
        absi(a) <= ma,
        absi(b) <= mb,
    ensures
        absi(fxmul(a, b)) <= ma * mb / (SCALE as int),
        absi(fxmul(a, b)) <= ma * mb,
    decreases 0int,
{
    assert(absi(a * b) == absi(a) * absi(b)) by (nonlinear_arith);
    assert(absi(a) * absi(b) <= ma * mb) by (nonlinear_arith)
        requires absi(a) <= ma, absi(b) <= mb, 0 <= absi(a), 0 <= absi(b);
    lemma_tdiv_bound(a * b, SCALE as int, ma * mb);
    vstd::arithmetic::div_mod::lemma_div_nonincreasing(ma * mb, SCALE as int);
}

/// Fixed-point multiplication, exact per `fxmul`.
pub fn mul_fx(a: i64, b: i64) -> (r: i64)
    requires
        i64::MIN <= fxmul(a as int, b as int) <= i64::MAX,
    ensures
        r == fxmul(a as int, b as int),
{
    let p: i128 = (a as i128) * (b as i128);
    let q: i128 = p / (SCALE as i128);
    proof {
        lemma_tdiv_basics(p as int, SCALE as int);
    }
    q as i64
}

/// Integer square-root floor on `u128`, by binary search on the root.
fn isqrt_u128(n: u128) -> (r: u64)
    ensures
        (r as int) * (r as int) <= n as int,
        (n as int) < (r as int + 1) * (r as int + 1),
{
    if n == 0 {
        assert((0int + 1) * (0int + 1) == 1);
        return 0;
    }
    let mut lo: u128 = 0;
    let mut hi: u128 = 18446744073709551616;  // 2^64
    proof {
        assert((hi as int) * (hi as int) > u128::MAX as int) by (nonlinear_arith)
            requires hi == 18446744073709551616;
    }
    while lo + 1 < hi
        invariant
            lo < hi <= 18446744073709551616,
            (lo as int) * (lo as int) <= n as int,
            (n as int) < (hi as int) * (hi as int),
        decreases hi - lo,
    {
        let mid: u128 = lo + (hi - lo) / 2;
        proof {
            assert((mid as int) * (mid as int) <= u128::MAX as int) by (nonlinear_arith)
                requires mid < 18446744073709551616u128;
        }
        let sq: u128 = mid * mid;
        if sq <= n {
            lo = mid;
        } else {
            hi = mid;
        }
    }
    lo as u64
}

/// Fixed-point square root of a non-negative value, exact per `fxsqrt`.
pub fn sqrt_fx(a: i64) -> (r: i64)
    requires
        a >= 0,
    ensures
        r == fxsqrt(a as int),
        r >= 0,
        (r as int) * (r as int) <= (a as int) * (SCALE as int),
        (a as int) * (SCALE as int) < (r as int + 1) * (r as int + 1),
{
    proof {
        assert((a as int) * 0x10000int <= 0x8000000000000000int * 0x10000int) by (nonlinear_arith)
            requires 0 <= a as int <= 0x8000000000000000int;
    }
    let n: u128 = (a as u128) * (SCALE as u128);
    let s: u64 = isqrt_u128(n);
    proof {
        lemma_sqrt_floor_unique(n as int, s as int);
        assert(n as int <= 0x8000000000000000int * 0x10000int) by (nonlinear_arith)
            requires n as int == (a as int) * 0x10000int, 0 <= a as int <= 0x8000000000000000int;
        assert((s as int) < 0x20000000000) by (nonlinear_arith)
            requires
                (s as int) * (s as int) <= n as int,
                0 <= s as int,
                n as int <= 0x8000000000000000int * 0x10000int;
    }
    s as i64
}

/// Square-root floor of a wide non-negative value, used for the
/// ray/sphere discriminant, which is a product of two fixed-point values
/// and so carries twice the scale.
pub fn sqrt_wide(n: i128) -> (r: i64)
    requires
        0 <= n,
        n < 0x4000000000000000 * 0x2000000000000000,
    ensures
        r == sqrt_floor(n as int),
        r >= 0,
        (r as int) * (r as int) <= n as int,
        (n as int) < (r as int + 1) * (r as int + 1),
{
    let s: u64 = isqrt_u128(n as u128);
    proof {
        lemma_sqrt_floor_unique(n as int, s as int);
        assert((s as int) < 0x8000000000000000) by (nonlinear_arith)
            requires
                (s as int) * (s as int) <= n as int,
                0 <= s as int,
                (n as int) < 0x4000000000000000int * 0x2000000000000000int;
    }
    s as i64
}

/// Fixed-point division by a positive divisor, exact per `fxdiv`.
/// Every division in the renderer is by a positive quantity (a length,
/// a radius, a sample count), so the positive case is all that is needed.
pub fn div_fx(a: i64, b: i64) -> (r: i64)
    requires
        b >= 1,
        i64::MIN <= fxdiv(a as int, b as int) <= i64::MAX,
    ensures
        r == fxdiv(a as int, b as int),
{
    let p: i128 = (a as i128) * (SCALE as i128);
    let q: i128 = p / (b as i128);
    proof {
        lemma_tdiv_basics(p as int, b as int);
    }
    q as i64
}

/// Taylor approximation of the sine on `[0, 1.5]` radians:
/// `x - x^3/6 + x^5/120 - x^7/5040`, each power in fixed point.
pub open spec fn spec_sin(x: int) -> int {
    let x2 = fxmul(x, x);
    let x3 = fxmul(x2, x);
    let x5 = fxmul(x3, x2);
    let x7 = fxmul(x5, x2);
    x - tdiv(x3, 6) + tdiv(x5, 120) - tdiv(x7, 5040)
}

/// Taylor approximation of the cosine on `[0, 1.5]` radians:
/// `1 - x^2/2 + x^4/24 - x^6/720`.
pub open spec fn spec_cos(x: int) -> int {
    let x2 = fxmul(x, x);
    let x4 = fxmul(x2, x2);
    let x6 = fxmul(x4, x2);
    (SCALE as int) - tdiv(x2, 2) + tdiv(x4, 24) - tdiv(x6, 720)
}

/// Power bounds shared by the two Taylor sums on `[0, 1.5]`.
proof fn lemma_taylor_bounds(x: int)
    requires
        0 <= x <= 98304,
    ensures
        0 <= fxmul(x, x) <= 147456,
        0 <= fxmul(fxmul(x, x), x) <= 221184,
        0 <= fxmul(fxmul(x, x), fxmul(x, x)) <= 331776,
        0 <= fxmul(fxmul(fxmul(x, x), x), fxmul(x, x)) <= 497664,
        0 <= fxmul(fxmul(fxmul(x, x), fxmul(x, x)), fxmul(x, x)) <= 746496,
        0 <= fxmul(fxmul(fxmul(fxmul(x, x), x), fxmul(x, x)), fxmul(x, x)) <= 1119744,
    decreases 0int,
{
    let x2 = fxmul(x, x);
    assert(x * x >= 0) by (nonlinear_arith);
    lemma_tdiv_basics(x * x, SCALE as int);
    lemma_fxmul_bound(x, x, 98304, 98304);
    assert(x2 * x >= 0) by (nonlinear_arith)
        requires x2 >= 0, x >= 0;
    lemma_tdiv_basics(x2 * x, SCALE as int);
    lemma_fxmul_bound(x2, x, 147456, 98304);
    let x3 = fxmul(x2, x);
    assert(x2 * x2 >= 0) by (nonlinear_arith)
        requires x2 >= 0;
    lemma_tdiv_basics(x2 * x2, SCALE as int);
    lemma_fxmul_bound(x2, x2, 147456, 147456);
    let x4 = fxmul(x2, x2);
    assert(x3 * x2 >= 0) by (nonlinear_arith)
        requires x3 >= 0, x2 >= 0;
    lemma_tdiv_basics(x3 * x2, SCALE as int);
    lemma_fxmul_bound(x3, x2, 221184, 147456);
    let x5 = fxmul(x3, x2);
    assert(x4 * x2 >= 0) by (nonlinear_arith)
        requires x4 >= 0, x2 >= 0;
    lemma_tdiv_basics(x4 * x2, SCALE as int);
    lemma_fxmul_bound(x4, x2, 331776, 147456);
    assert(x5 * x2 >= 0) by (nonlinear_arith)
        requires x5 >= 0, x2 >= 0;
    lemma_tdiv_basics(x5 * x2, SCALE as int);
    lemma_fxmul_bound(x5, x2, 497664, 147456);
}

/// Fixed-point sine for angles in `[0, 1.5]` radians, exact per
/// `spec_sin`, with magnitude at most three units.
pub fn sin_fx(x: i64) -> (r: i64)
    requires
        0 <= x <= 98304,
    ensures
        r == spec_sin(x as int),
        -196608 <= r <= 196608,
{
    proof {
        lemma_taylor_bounds(x as int);
        lemma_tdiv_bound(fxmul(fxmul(x as int, x as int), x as int), 6, 221184);
        lemma_tdiv_bound(
            fxmul(fxmul(fxmul(x as int, x as int), x as int), fxmul(x as int, x as int)),
            120,
            497664,
        );
        lemma_tdiv_bound(
            fxmul(
                fxmul(fxmul(fxmul(x as int, x as int), x as int), fxmul(x as int, x as int)),
                fxmul(x as int, x as int),
            ),
            5040,
            1119744,
        );
    }
    let x2: i64 = mul_fx(x, x);
    let x3: i64 = mul_fx(x2, x);
    let x5: i64 = mul_fx(x3, x2);
    let x7: i64 = mul_fx(x5, x2);
    x - x3 / 6 + x5 / 120 - x7 / 5040
}

/// Fixed-point cosine for angles in `[0, 1.5]` radians, exact per
/// `spec_cos`, with magnitude at most three units.
pub fn cos_fx(x: i64) -> (r: i64)
    requires
        0 <= x <= 98304,
    ensures
        r == spec_cos(x as int),
        -196608 <= r <= 196608,
{
    proof {
        lemma_taylor_bounds(x as int);
        lemma_tdiv_bound(fxmul(x as int, x as int), 2, 147456);
        lemma_tdiv_bound(fxmul(fxmul(x as int, x as int), fxmul(x as int, x as int)), 24, 331776);
        lemma_tdiv_bound(
            fxmul(fxmul(fxmul(x as int, x as int), fxmul(x as int, x as int)),
                fxmul(x as int, x as int)),
            720,
            746496,
        );
    }
    let x2: i64 = mul_fx(x, x);
    let x4: i64 = mul_fx(x2, x2);
    let x6: i64 = mul_fx(x4, x2);
    SCALE - x2 / 2 + x4 / 24 - x6 / 720
}

} // verus!
