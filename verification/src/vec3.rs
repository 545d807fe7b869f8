//! Three-component fixed-point vectors, used for points, directions and
//! colours alike, mirrored by exact integer specifications.

use vstd::prelude::*;
use crate::fixed::{
    SCALE, absi, tdiv, fxmul, fxdiv, fxsqrt, fits_i64,
    lemma_tdiv_basics, lemma_tdiv_bound, lemma_fxmul_bound, lemma_sqrt_floor_exists,
    mul_fx, div_fx, sqrt_fx,
};
use crate::utils::random_fx;
use vstd::arithmetic::div_mod::{lemma_div_is_ordered, lemma_div_multiples_vanish};

verus! {

/// Largest component magnitude the dot product accepts (2^38).
pub const DOT_MAX: i64 = 274877906944;

/// Component bound guaranteed for normalized vectors: three units.
pub const UNIT_MAX: i64 = 196608;

/// Components smaller than this in magnitude count as "near zero"
/// (2^-8 in real terms).
pub const NEAR_ZERO_EPS: i64 = 256;

#[derive(Clone, Copy, PartialEq, Eq, Structural, Debug)]
pub struct Vec3 {
    pub e0: i64,
    pub e1: i64,
    pub e2: i64,
}

pub type Point3 = Vec3;

pub type Colour = Vec3;

/// All three components bounded by `m` in magnitude.
pub open spec fn in_range(v: Vec3, m: int) -> bool {
    absi(v.e0 as int) <= m && absi(v.e1 as int) <= m && absi(v.e2 as int) <= m
}

/// Fixed-point dot product.
pub open spec fn sdot(u: Vec3, v: Vec3) -> int {
    tdiv(
        (u.e0 as int) * (v.e0 as int) + (u.e1 as int) * (v.e1 as int)
            + (u.e2 as int) * (v.e2 as int),
        SCALE as int,
    )
}

pub open spec fn spec_add(a: Vec3, b: Vec3) -> Vec3 {
    Vec3 {
        e0: (a.e0 + b.e0) as i64,
        e1: (a.e1 + b.e1) as i64,
        e2: (a.e2 + b.e2) as i64,
    }
}

pub open spec fn spec_sub(a: Vec3, b: Vec3) -> Vec3 {
    Vec3 {
        e0: (a.e0 - b.e0) as i64,
        e1: (a.e1 - b.e1) as i64,
        e2: (a.e2 - b.e2) as i64,
    }
}

pub open spec fn spec_neg(a: Vec3) -> Vec3 {
    Vec3 { e0: (-a.e0) as i64, e1: (-a.e1) as i64, e2: (-a.e2) as i64 }
}

/// Component-wise fixed-point product (colour attenuation).
pub open spec fn spec_cmul(a: Vec3, b: Vec3) -> Vec3 {
    Vec3 {
        e0: fxmul(a.e0 as int, b.e0 as int) as i64,
        e1: fxmul(a.e1 as int, b.e1 as int) as i64,
        e2: fxmul(a.e2 as int, b.e2 as int) as i64,
    }
}

/// Scaling by a fixed-point scalar.
pub open spec fn spec_scale(a: Vec3, k: int) -> Vec3 {
    Vec3 {
        e0: fxmul(a.e0 as int, k) as i64,
        e1: fxmul(a.e1 as int, k) as i64,
        e2: fxmul(a.e2 as int, k) as i64,
    }
}

/// Division by a positive fixed-point scalar.
pub open spec fn spec_divs(a: Vec3, k: int) -> Vec3 {
    Vec3 {
        e0: fxdiv(a.e0 as int, k) as i64,
        e1: fxdiv(a.e1 as int, k) as i64,
        e2: fxdiv(a.e2 as int, k) as i64,
    }
}

pub open spec fn spec_cross(u: Vec3, v: Vec3) -> Vec3 {
    Vec3 {
        e0: (fxmul(u.e1 as int, v.e2 as int) - fxmul(u.e2 as int, v.e1 as int)) as i64,
        e1: (fxmul(u.e2 as int, v.e0 as int) - fxmul(u.e0 as int, v.e2 as int)) as i64,
        e2: (fxmul(u.e0 as int, v.e1 as int) - fxmul(u.e1 as int, v.e0 as int)) as i64,
    }
}

/// The fixed-point length of `v`.
pub open spec fn spec_len(v: Vec3) -> int {
    fxsqrt(sdot(v, v))
}

/// The normalized direction of `v`.
pub open spec fn spec_unit(v: Vec3) -> Vec3 {
    Vec3 {
        e0: fxdiv(v.e0 as int, spec_len(v)) as i64,
        e1: fxdiv(v.e1 as int, spec_len(v)) as i64,
        e2: fxdiv(v.e2 as int, spec_len(v)) as i64,
    }
}

pub open spec fn spec_near_zero(v: Vec3) -> bool {
    absi(v.e0 as int) < NEAR_ZERO_EPS && absi(v.e1 as int) < NEAR_ZERO_EPS
        && absi(v.e2 as int) < NEAR_ZERO_EPS
}

/// Mirror reflection of `v` about the normal `n`: `v - 2*dot(v,n)*n`.
pub open spec fn spec_reflect(v: Vec3, n: Vec3) -> Vec3 {
    Vec3 {
        e0: (v.e0 - fxmul(n.e0 as int, 2 * sdot(v, n))) as i64,
        e1: (v.e1 - fxmul(n.e1 as int, 2 * sdot(v, n))) as i64,
        e2: (v.e2 - fxmul(n.e2 as int, 2 * sdot(v, n))) as i64,
    }
}

impl Vec3 {
    /// The zero vector.
    pub fn new() -> (r: Self)
        ensures
            r.e0 == 0 && r.e1 == 0 && r.e2 == 0,
    {
        Self { e0: 0, e1: 0, e2: 0 }
    }

    pub fn from(e0: i64, e1: i64, e2: i64) -> (r: Self)
        ensures
            r.e0 == e0 && r.e1 == e1 && r.e2 == e2,
    {
        Self { e0, e1, e2 }
    }

    pub fn x(&self) -> (r: i64)
        ensures
            r == self.e0,
    {
        self.e0
    }

    pub fn y(&self) -> (r: i64)
        ensures
            r == self.e1,
    {
        self.e1
    }

    pub fn z(&self) -> (r: i64)
        ensures
            r == self.e2,
    {
        self.e2
    }

    pub fn vadd(self, o: Vec3) -> (r: Vec3)
        requires
            fits_i64(self.e0 + o.e0),
            fits_i64(self.e1 + o.e1),
            fits_i64(self.e2 + o.e2),
        ensures
            r == spec_add(self, o),
            r.e0 == self.e0 + o.e0 && r.e1 == self.e1 + o.e1 && r.e2 == self.e2 + o.e2,
    {
        Vec3 { e0: self.e0 + o.e0, e1: self.e1 + o.e1, e2: self.e2 + o.e2 }
    }

    pub fn vsub(self, o: Vec3) -> (r: Vec3)
        requires
            fits_i64(self.e0 - o.e0),
            fits_i64(self.e1 - o.e1),
            fits_i64(self.e2 - o.e2),
        ensures
            r == spec_sub(self, o),
            r.e0 == self.e0 - o.e0 && r.e1 == self.e1 - o.e1 && r.e2 == self.e2 - o.e2,
    {
        Vec3 { e0: self.e0 - o.e0, e1: self.e1 - o.e1, e2: self.e2 - o.e2 }
    }

    pub fn vneg(self) -> (r: Vec3)
        requires
            self.e0 > i64::MIN && self.e1 > i64::MIN && self.e2 > i64::MIN,
        ensures
            r == spec_neg(self),
            r.e0 == -self.e0 && r.e1 == -self.e1 && r.e2 == -self.e2,
    {
        Vec3 { e0: -self.e0, e1: -self.e1, e2: -self.e2 }
    }

    /// Component-wise product, used to attenuate colours.
    pub fn vmul(self, o: Vec3) -> (r: Vec3)
        requires
            fits_i64(fxmul(self.e0 as int, o.e0 as int)),
            fits_i64(fxmul(self.e1 as int, o.e1 as int)),
            fits_i64(fxmul(self.e2 as int, o.e2 as int)),
        ensures
            r == spec_cmul(self, o),
    {
        Vec3 {
            e0: mul_fx(self.e0, o.e0),
            e1: mul_fx(self.e1, o.e1),
            e2: mul_fx(self.e2, o.e2),
        }
    }

    /// Scale by a fixed-point scalar.
    pub fn vscale(self, k: i64) -> (r: Vec3)
        requires
            fits_i64(fxmul(self.e0 as int, k as int)),
            fits_i64(fxmul(self.e1 as int, k as int)),
            fits_i64(fxmul(self.e2 as int, k as int)),
        ensures
            r == spec_scale(self, k as int),
    {
        Vec3 { e0: mul_fx(self.e0, k), e1: mul_fx(self.e1, k), e2: mul_fx(self.e2, k) }
    }

    /// Divide by a positive fixed-point scalar.
    pub fn vdivs(self, k: i64) -> (r: Vec3)
        requires
            k >= 1,
            fits_i64(fxdiv(self.e0 as int, k as int)),
            fits_i64(fxdiv(self.e1 as int, k as int)),
            fits_i64(fxdiv(self.e2 as int, k as int)),
        ensures
            r == spec_divs(self, k as int),
    {
        Vec3 { e0: div_fx(self.e0, k), e1: div_fx(self.e1, k), e2: div_fx(self.e2, k) }
    }

    /// Squared length.
    pub fn squared(&self) -> (r: i64)
        requires
            in_range(*self, DOT_MAX as int),
        ensures
            r == sdot(*self, *self),
            r >= 0,
    {
        dot(*self, *self)
    }

    /// Fixed-point length.
    pub fn length(&self) -> (r: i64)
        requires
            in_range(*self, DOT_MAX as int),
        ensures
            r == spec_len(*self),
            r >= 0,
    {
        let sq: i64 = self.squared();
        sqrt_fx(sq)
    }

    pub fn unit_vector(&self) -> (r: Vec3)
        requires
            in_range(*self, DOT_MAX as int),
            sdot(*self, *self) >= 1,
        ensures
            r == spec_unit(*self),
            in_range(r, UNIT_MAX as int),
    {
        unit_vector(*self)
    }

    /// True when every component is below the degeneracy threshold.
    pub fn near_zero(&self) -> (r: bool)
        ensures
            r == spec_near_zero(*self),
    {
        let a0: bool = -NEAR_ZERO_EPS < self.e0 && self.e0 < NEAR_ZERO_EPS;
        let a1: bool = -NEAR_ZERO_EPS < self.e1 && self.e1 < NEAR_ZERO_EPS;
        let a2: bool = -NEAR_ZERO_EPS < self.e2 && self.e2 < NEAR_ZERO_EPS;
        a0 && a1 && a2
    }
}

/// Fixed-point dot product: the sum of the component products, rescaled.
pub fn dot(u: Vec3, v: Vec3) -> (r: i64)
    requires
        in_range(u, DOT_MAX as int),
        in_range(v, DOT_MAX as int),
    ensures
        r == sdot(u, v),
        u == v ==> r >= 0,
{
    proof {
        lemma_prod_bound(u.e0 as int, v.e0 as int, DOT_MAX as int);
        lemma_prod_bound(u.e1 as int, v.e1 as int, DOT_MAX as int);
        lemma_prod_bound(u.e2 as int, v.e2 as int, DOT_MAX as int);
    }
    let p0: i128 = (u.e0 as i128) * (v.e0 as i128);
    let p1: i128 = (u.e1 as i128) * (v.e1 as i128);
    let p2: i128 = (u.e2 as i128) * (v.e2 as i128);
    let s: i128 = p0 + p1 + p2;
    let q: i128 = s / (SCALE as i128);
    proof {
        lemma_tdiv_bound(s as int, SCALE as int, 3 * (DOT_MAX as int) * (DOT_MAX as int));
        if u == v {
            assert(p0 >= 0 && p1 >= 0 && p2 >= 0) by (nonlinear_arith)
                requires
                    p0 == (u.e0 as int) * (u.e0 as int),
                    p1 == (u.e1 as int) * (u.e1 as int),
                    p2 == (u.e2 as int) * (u.e2 as int),
                    v == u;
            lemma_tdiv_basics(s as int, SCALE as int);
        }
    }
    q as i64
}

/// Componentwise magnitude bounds transfer to the product.
pub proof fn lemma_prod_range(a: int, b: int, ma: int, mb: int)
    requires
        absi(a) <= ma,
        absi(b) <= mb,
    ensures
        absi(a * b) <= ma * mb,
        -(ma * mb) <= a * b <= ma * mb,
    decreases 0int,
{
    assert(absi(a * b) == absi(a) * absi(b)) by (nonlinear_arith);
    assert(absi(a) * absi(b) <= ma * mb) by (nonlinear_arith)
        requires 0 <= absi(a) <= ma, 0 <= absi(b) <= mb;
}

/// `|a| <= m` and `|b| <= m` bound the product by `m*m`.
proof fn lemma_prod_bound(a: int, b: int, m: int)
    requires
        absi(a) <= m,
        absi(b) <= m,
    ensures
        absi(a * b) <= m * m,
        -(m * m) <= a * b <= m * m,
    decreases 0int,
{
    assert(absi(a * b) == absi(a) * absi(b)) by (nonlinear_arith);
    assert(absi(a) * absi(b) <= m * m) by (nonlinear_arith)
        requires 0 <= absi(a) <= m, 0 <= absi(b) <= m;
}

/// Fixed-point cross product.
pub fn cross(u: Vec3, v: Vec3) -> (r: Vec3)
    requires
        in_range(u, 0x40000000),
        in_range(v, 0x40000000),
    ensures
        r == spec_cross(u, v),
        r.e0 == fxmul(u.e1 as int, v.e2 as int) - fxmul(u.e2 as int, v.e1 as int),
        r.e1 == fxmul(u.e2 as int, v.e0 as int) - fxmul(u.e0 as int, v.e2 as int),
        r.e2 == fxmul(u.e0 as int, v.e1 as int) - fxmul(u.e1 as int, v.e0 as int),
{
    proof {
        lemma_fxmul_bound(u.e1 as int, v.e2 as int, 0x40000000, 0x40000000);
        lemma_fxmul_bound(u.e2 as int, v.e1 as int, 0x40000000, 0x40000000);
        lemma_fxmul_bound(u.e2 as int, v.e0 as int, 0x40000000, 0x40000000);
        lemma_fxmul_bound(u.e0 as int, v.e2 as int, 0x40000000, 0x40000000);
        lemma_fxmul_bound(u.e0 as int, v.e1 as int, 0x40000000, 0x40000000);
        lemma_fxmul_bound(u.e1 as int, v.e0 as int, 0x40000000, 0x40000000);
    }
    let a0: i64 = mul_fx(u.e1, v.e2);
    let b0: i64 = mul_fx(u.e2, v.e1);
    let a1: i64 = mul_fx(u.e2, v.e0);
    let b1: i64 = mul_fx(u.e0, v.e2);
    let a2: i64 = mul_fx(u.e0, v.e1);
    let b2: i64 = mul_fx(u.e1, v.e0);
    Vec3 { e0: a0 - b0, e1: a1 - b1, e2: a2 - b2 }
}

/// Normalization: each component divided by the fixed-point length.
pub fn unit_vector(v: Vec3) -> (r: Vec3)
    requires
        in_range(v, DOT_MAX as int),
        sdot(v, v) >= 1,
    ensures
        r == spec_unit(v),
        in_range(r, UNIT_MAX as int),
{
    let d: i64 = dot(v, v);
    let len: i64 = sqrt_fx(d);
    proof {
        lemma_len_lower(v);
        lemma_unit_bound(v);
        lemma_tdiv_bound(v.e0 as int * (SCALE as int), spec_len(v), (DOT_MAX as int) * (SCALE as int));
        lemma_tdiv_bound(v.e1 as int * (SCALE as int), spec_len(v), (DOT_MAX as int) * (SCALE as int));
        lemma_tdiv_bound(v.e2 as int * (SCALE as int), spec_len(v), (DOT_MAX as int) * (SCALE as int));
        assert(absi(v.e0 as int * (SCALE as int)) <= (DOT_MAX as int) * (SCALE as int))
            by (nonlinear_arith)
            requires absi(v.e0 as int) <= DOT_MAX as int;
        assert(absi(v.e1 as int * (SCALE as int)) <= (DOT_MAX as int) * (SCALE as int))
            by (nonlinear_arith)
            requires absi(v.e1 as int) <= DOT_MAX as int;
        assert(absi(v.e2 as int * (SCALE as int)) <= (DOT_MAX as int) * (SCALE as int))
            by (nonlinear_arith)
            requires absi(v.e2 as int) <= DOT_MAX as int;
    }
    Vec3 { e0: div_fx(v.e0, len), e1: div_fx(v.e1, len), e2: div_fx(v.e2, len) }
}

/// A vector of squared length at least one raw unit has length at least 256.
pub proof fn lemma_len_lower(v: Vec3)
    requires
        sdot(v, v) >= 1,
    ensures
        spec_len(v) >= 256,
    decreases 0int,
{
    let d = sdot(v, v);
    lemma_sqrt_floor_exists(d * (SCALE as int));
    let len = spec_len(v);
    assert(d * (SCALE as int) >= SCALE as int) by (nonlinear_arith)
        requires d >= 1;
    if len < 256 {
        assert((len + 1) * (len + 1) <= 256 * 256) by (nonlinear_arith)
            requires 0 <= len, len < 256;
        assert(false);
    }
}

/// Components of a normalized vector are at most three units in magnitude.
pub proof fn lemma_unit_bound(v: Vec3)
    requires
        in_range(v, DOT_MAX as int),
        sdot(v, v) >= 1,
    ensures
        in_range(spec_unit(v), UNIT_MAX as int),
        absi(fxdiv(v.e0 as int, spec_len(v))) <= UNIT_MAX as int,
        absi(fxdiv(v.e1 as int, spec_len(v))) <= UNIT_MAX as int,
        absi(fxdiv(v.e2 as int, spec_len(v))) <= UNIT_MAX as int,
    decreases 0int,
{
    let sum = (v.e0 as int) * (v.e0 as int) + (v.e1 as int) * (v.e1 as int)
        + (v.e2 as int) * (v.e2 as int);
    let d = sdot(v, v);
    let len = spec_len(v);
    lemma_len_lower(v);
    lemma_sqrt_floor_exists(d * (SCALE as int));
    assert((v.e0 as int) * (v.e0 as int) >= 0) by (nonlinear_arith);
    assert((v.e1 as int) * (v.e1 as int) >= 0) by (nonlinear_arith);
    assert((v.e2 as int) * (v.e2 as int) >= 0) by (nonlinear_arith);
    lemma_tdiv_basics(sum, SCALE as int);
    vstd::arithmetic::div_mod::lemma_fundamental_div_mod(sum, SCALE as int);
    vstd::arithmetic::div_mod::lemma_mod_bound(sum, SCALE as int);
    assert(d * (SCALE as int) > sum - (SCALE as int)) by (nonlinear_arith)
        requires
            d == sum / (SCALE as int),
            sum == (SCALE as int) * (sum / (SCALE as int)) + sum % (SCALE as int),
            0 <= sum % (SCALE as int) < (SCALE as int);
    lemma_unit_bound_comp(v.e0 as int, sum, d, len);
    lemma_unit_bound_comp(v.e1 as int, sum, d, len);
    lemma_unit_bound_comp(v.e2 as int, sum, d, len);
}

/// One component of the normalization bound: `|vi| <= 3*len`, hence the
/// quotient `vi * SCALE / len` is at most three units.
proof fn lemma_unit_bound_comp(vi: int, sum: int, d: int, len: int)
    requires
        sum >= vi * vi,
        d * (SCALE as int) > sum - (SCALE as int),
        len >= 256,
        len * len <= d * (SCALE as int),
        d * (SCALE as int) < (len + 1) * (len + 1),
    ensures
        absi(fxdiv(vi, len)) <= UNIT_MAX as int,
    decreases 0int,
{
    assert(absi(vi) <= 3 * len) by (nonlinear_arith)
        requires
            sum >= vi * vi,
            d * (SCALE as int) > sum - (SCALE as int),
            len >= 256,
            d * (SCALE as int) < (len + 1) * (len + 1),
    ;
    lemma_tdiv_basics(vi * (SCALE as int), len);
    assert(absi(vi * (SCALE as int)) == absi(vi) * (SCALE as int)) by (nonlinear_arith);
    assert(absi(vi) * (SCALE as int) <= 3 * len * (SCALE as int)) by (nonlinear_arith)
        requires absi(vi) <= 3 * len;
    lemma_div_is_ordered(absi(vi) * (SCALE as int), 3 * len * (SCALE as int), len);
    assert(3 * len * (SCALE as int) == (3 * (SCALE as int)) * len) by (nonlinear_arith);
    lemma_div_multiples_vanish(3 * (SCALE as int), len);
}

/// A vector of squared length at least one quarter normalizes to
/// components of magnitude at most one plus two raw units: the length is
/// then at least half a unit, so each component is within one unit of
/// the fixed-point length and the quotient cannot exceed one by more
/// than rounding.
pub proof fn lemma_unit_near_one(v: Vec3)
    requires
        in_range(v, DOT_MAX as int),
        sdot(v, v) >= 16384,
    ensures
        in_range(spec_unit(v), (SCALE + 2) as int),
    decreases 0int,
{
    let sum = (v.e0 as int) * (v.e0 as int) + (v.e1 as int) * (v.e1 as int)
        + (v.e2 as int) * (v.e2 as int);
    let d = sdot(v, v);
    let len = spec_len(v);
    lemma_sqrt_floor_exists(d * (SCALE as int));
    assert((v.e0 as int) * (v.e0 as int) >= 0) by (nonlinear_arith);
    assert((v.e1 as int) * (v.e1 as int) >= 0) by (nonlinear_arith);
    assert((v.e2 as int) * (v.e2 as int) >= 0) by (nonlinear_arith);
    lemma_tdiv_basics(sum, SCALE as int);
    vstd::arithmetic::div_mod::lemma_fundamental_div_mod(sum, SCALE as int);
    vstd::arithmetic::div_mod::lemma_mod_bound(sum, SCALE as int);
    assert(sum < d * (SCALE as int) + (SCALE as int)) by (nonlinear_arith)
        requires
            d == sum / (SCALE as int),
            sum == (SCALE as int) * (sum / (SCALE as int)) + sum % (SCALE as int),
            0 <= sum % (SCALE as int) < (SCALE as int);
    assert(len >= 32768) by {
        assert(d * (SCALE as int) >= 16384 * (SCALE as int)) by (nonlinear_arith)
            requires d >= 16384;
        if len < 32768 {
            assert((len + 1) * (len + 1) <= 32768 * 32768) by (nonlinear_arith)
                requires 0 <= len, len < 32768;
            assert(false);
        }
    }
    lemma_unit_near_one_comp(v.e0 as int, sum, d, len);
    lemma_unit_near_one_comp(v.e1 as int, sum, d, len);
    lemma_unit_near_one_comp(v.e2 as int, sum, d, len);
}

/// One component of the near-unit bound: `|vi| <= len + 1`, hence the
/// quotient is below one plus three raw units.
proof fn lemma_unit_near_one_comp(vi: int, sum: int, d: int, len: int)
    requires
        sum >= vi * vi,
        sum < d * (SCALE as int) + (SCALE as int),
        len >= 32768,
        len * len <= d * (SCALE as int),
        d * (SCALE as int) < (len + 1) * (len + 1),
    ensures
        absi(fxdiv(vi, len)) <= (SCALE + 2) as int,
    decreases 0int,
{
    assert(vi * vi < (len + 2) * (len + 2)) by (nonlinear_arith)
        requires
            sum >= vi * vi,
            sum < d * (SCALE as int) + (SCALE as int),
            d * (SCALE as int) < (len + 1) * (len + 1),
            len >= 32768;
    assert(absi(vi) <= len + 1) by (nonlinear_arith)
        requires vi * vi < (len + 2) * (len + 2), len >= 0;
    lemma_tdiv_basics(vi * (SCALE as int), len);
    assert(absi(vi * (SCALE as int)) == absi(vi) * (SCALE as int)) by (nonlinear_arith);
    assert(absi(vi) * (SCALE as int) < ((SCALE + 3) as int) * len) by (nonlinear_arith)
        requires absi(vi) <= len + 1, len >= 32768;
    vstd::arithmetic::div_mod::lemma_multiply_divide_lt(
        absi(vi) * (SCALE as int),
        len,
        (SCALE + 3) as int,
    );
}

/// Scaling any vector by zero gives the zero vector.
pub proof fn lemma_scale_zero(v: Vec3)
    ensures
        spec_scale(v, 0) == (Vec3 { e0: 0i64, e1: 0i64, e2: 0i64 }),
    decreases 0int,
{
    assert((v.e0 as int) * 0 == 0) by (nonlinear_arith);
    assert((v.e1 as int) * 0 == 0) by (nonlinear_arith);
    assert((v.e2 as int) * 0 == 0) by (nonlinear_arith);
}

/// Mirror reflection about `n`.
pub fn reflect(v: Vec3, n: Vec3) -> (r: Vec3)
    requires
        in_range(v, 0x100000),
        in_range(n, 0x100000),
    ensures
        r == spec_reflect(v, n),
        in_range(r, 0x100000000),
{
    let d: i64 = dot(v, n);
    proof {
        lemma_sdot_range(v, n, 0x100000, 0x100000);
        lemma_fxmul_bound(n.e0 as int, 2 * sdot(v, n), 0x100000, 0x6000000);
        lemma_fxmul_bound(n.e1 as int, 2 * sdot(v, n), 0x100000, 0x6000000);
        lemma_fxmul_bound(n.e2 as int, 2 * sdot(v, n), 0x100000, 0x6000000);
    }
    let k: i64 = 2 * d;
    let s: Vec3 = n.vscale(k);
    v.vsub(s)
}

/// The incidence cosine used by refraction: `dot(-uv, n)` capped at one.
pub open spec fn spec_cos_theta(uv: Vec3, n: Vec3) -> int {
    if sdot(spec_neg(uv), n) > SCALE as int {
        SCALE as int
    } else {
        sdot(spec_neg(uv), n)
    }
}

/// The perpendicular part of the refracted direction:
/// `(n*cos_theta + uv) * ratio`.
pub open spec fn spec_refract_perp(uv: Vec3, n: Vec3, ratio: int) -> Vec3 {
    spec_scale(spec_add(spec_scale(n, spec_cos_theta(uv, n)), uv), ratio)
}

/// Snell refraction: the perpendicular part plus a parallel part of
/// magnitude `sqrt(|1 - |perp|^2|)` against the normal.
pub open spec fn spec_refract(uv: Vec3, n: Vec3, ratio: int) -> Vec3 {
    let perp = spec_refract_perp(uv, n, ratio);
    let k = (SCALE as int) - sdot(perp, perp);
    spec_add(perp, spec_scale(n, -fxsqrt(absi(k))))
}

/// Refract the unit direction `uv` through a surface with normal `n` and
/// refraction ratio `ratio`.
pub fn refract(uv: Vec3, n: Vec3, ratio: i64) -> (r: Vec3)
    requires
        in_range(uv, UNIT_MAX as int),
        in_range(n, 0x100000),
        1 <= ratio <= 0x80000,
    ensures
        r == spec_refract(uv, n, ratio as int),
{
    let nuv: Vec3 = uv.vneg();
    let d: i64 = dot(nuv, n);
    proof {
        lemma_sdot_range(nuv, n, UNIT_MAX as int, 0x100000);
    }
    let cos_theta: i64 = if d > SCALE { SCALE } else { d };
    proof {
        lemma_fxmul_bound(n.e0 as int, cos_theta as int, 0x100000, 0x900000);
        lemma_fxmul_bound(n.e1 as int, cos_theta as int, 0x100000, 0x900000);
        lemma_fxmul_bound(n.e2 as int, cos_theta as int, 0x100000, 0x900000);
    }
    let scaled_n: Vec3 = n.vscale(cos_theta);
    let pre: Vec3 = scaled_n.vadd(uv);
    proof {
        lemma_fxmul_bound(pre.e0 as int, ratio as int, 0x90030000, 0x80000);
        lemma_fxmul_bound(pre.e1 as int, ratio as int, 0x90030000, 0x80000);
        lemma_fxmul_bound(pre.e2 as int, ratio as int, 0x90030000, 0x80000);
    }
    let r_out_perp: Vec3 = pre.vscale(ratio);
    proof {
        lemma_sdot_range(r_out_perp, r_out_perp, 0x480180000, 0x480180000);
    }
    let perp_sq: i64 = dot(r_out_perp, r_out_perp);
    let k: i64 = SCALE - perp_sq;
    let k_abs: i64 = if k < 0 { -k } else { k };
    let s: i64 = sqrt_fx(k_abs);
    proof {
        lemma_sqrt_magnitude(k_abs as int);
        lemma_fxmul_bound(n.e0 as int, -(s as int), 0x100000, 0x1000000000);
        lemma_fxmul_bound(n.e1 as int, -(s as int), 0x100000, 0x1000000000);
        lemma_fxmul_bound(n.e2 as int, -(s as int), 0x100000, 0x1000000000);
    }
    let r_out_parallel: Vec3 = n.vscale(-s);
    r_out_perp.vadd(r_out_parallel)
}

/// The fixed-point square root of `0 <= a < 2^56` is below `2^36`.
pub proof fn lemma_sqrt_magnitude(a: int)
    requires
        0 <= a < 0x100000000000000,
    ensures
        0 <= fxsqrt(a) < 0x1000000000,
    decreases 0int,
{
    lemma_sqrt_floor_exists(a * (SCALE as int));
    let s = fxsqrt(a);
    assert(a * (SCALE as int) < 0x100000000000000int * 0x10000) by (nonlinear_arith)
        requires a < 0x100000000000000;
    if s >= 0x1000000000 {
        assert(s * s >= 0x1000000000int * 0x1000000000int) by (nonlinear_arith)
            requires s >= 0x1000000000;
        assert(false);
    }
}

/// A refraction ratio of one bends no light: the refracted direction
/// equals the incoming direction whenever the square root in the
/// parallel term reproduces the incidence cosine exactly. The hypothesis
/// on `fxsqrt` excludes only the inputs where fixed-point rounding of
/// that root loses a unit; in exact arithmetic it holds always, since
/// the parallel term then has magnitude `sqrt(1 - (1 - cos^2)) = cos`.
pub proof fn lemma_refract_identity_ratio(uv: Vec3, n: Vec3)
    requires
        in_range(uv, UNIT_MAX as int),
        in_range(n, 0x100000),
        fxsqrt(absi((SCALE as int) - sdot(
            spec_add(spec_scale(n, spec_cos_theta(uv, n)), uv),
            spec_add(spec_scale(n, spec_cos_theta(uv, n)), uv),
        ))) == spec_cos_theta(uv, n),
    ensures
        spec_refract(uv, n, SCALE as int) == uv,
    decreases 0int,
{
    let cos = spec_cos_theta(uv, n);
    let nuv = spec_neg(uv);
    assert(in_range(nuv, UNIT_MAX as int));
    lemma_sdot_range(nuv, n, UNIT_MAX as int, 0x100000);
    assert(absi(cos) <= 0x900000);
    lemma_fxmul_bound(n.e0 as int, cos, 0x100000, 0x900000);
    lemma_fxmul_bound(n.e1 as int, cos, 0x100000, 0x900000);
    lemma_fxmul_bound(n.e2 as int, cos, 0x100000, 0x900000);
    let pre = spec_add(spec_scale(n, cos), uv);
    crate::fixed::lemma_fxmul_scale(pre.e0 as int);
    crate::fixed::lemma_fxmul_scale(pre.e1 as int);
    crate::fixed::lemma_fxmul_scale(pre.e2 as int);
    assert(spec_refract_perp(uv, n, SCALE as int) == pre);
    lemma_fxmul_neg(n.e0 as int, cos);
    lemma_fxmul_neg(n.e1 as int, cos);
    lemma_fxmul_neg(n.e2 as int, cos);
}

/// `fxmul(a, -b) == -fxmul(a, b)`: truncating division is symmetric
/// about zero.
pub proof fn lemma_fxmul_neg(a: int, b: int)
    ensures
        fxmul(a, -b) == -fxmul(a, b),
    decreases 0int,
{
    assert(a * (-b) == -(a * b)) by (nonlinear_arith);
    lemma_tdiv_basics(a * b, SCALE as int);
}

/// The dot product is symmetric.
pub proof fn lemma_sdot_comm(u: Vec3, v: Vec3)
    ensures
        sdot(u, v) == sdot(v, u),
    decreases 0int,
{
    assert((u.e0 as int) * (v.e0 as int) == (v.e0 as int) * (u.e0 as int)) by (nonlinear_arith);
    assert((u.e1 as int) * (v.e1 as int) == (v.e1 as int) * (u.e1 as int)) by (nonlinear_arith);
    assert((u.e2 as int) * (v.e2 as int) == (v.e2 as int) * (u.e2 as int)) by (nonlinear_arith);
}

/// Negating one argument negates the dot product.
pub proof fn lemma_sdot_neg(u: Vec3, v: Vec3)
    requires
        u.e0 > i64::MIN && u.e1 > i64::MIN && u.e2 > i64::MIN,
    ensures
        sdot(spec_neg(u), v) == -sdot(u, v),
    decreases 0int,
{
    let s = (u.e0 as int) * (v.e0 as int) + (u.e1 as int) * (v.e1 as int)
        + (u.e2 as int) * (v.e2 as int);
    assert((-(u.e0 as int)) * (v.e0 as int) == -((u.e0 as int) * (v.e0 as int)))
        by (nonlinear_arith);
    assert((-(u.e1 as int)) * (v.e1 as int) == -((u.e1 as int) * (v.e1 as int)))
        by (nonlinear_arith);
    assert((-(u.e2 as int)) * (v.e2 as int) == -((u.e2 as int) * (v.e2 as int)))
        by (nonlinear_arith);
    lemma_tdiv_basics(s, SCALE as int);
}

impl Vec3 {
    /// A vector with each component drawn uniformly from `[min, max)`.
    pub fn random(min: i64, max: i64) -> (r: Vec3)
        requires
            min <= max,
            absi(min as int) <= 0x10000000000,
            absi(max as int) <= 0x10000000000,
        ensures
            min <= r.e0 <= max && min <= r.e1 <= max && min <= r.e2 <= max,
            min < max ==> r.e0 < max && r.e1 < max && r.e2 < max,
    {
        Vec3 {
            e0: random_fx(min, max),
            e1: random_fx(min, max),
            e2: random_fx(min, max),
        }
    }

    /// Rejection-sample a point strictly inside the unit ball. The attempt
    /// count is bounded so that the search provably terminates; the chance
    /// of exhausting it is below 2^-64, and the fallback is the origin.
    pub fn random_in_unit_sphere() -> (r: Vec3)
        ensures
            sdot(r, r) < SCALE as int,
            in_range(r, SCALE as int),
            r.e0 < SCALE && r.e1 < SCALE && r.e2 < SCALE,
    {
        let mut tries: u32 = 64;
        while tries > 0
            decreases tries,
        {
            let p: Vec3 = Self::random(-SCALE, SCALE);
            let d: i64 = dot(p, p);
            if d < SCALE {
                return p;
            }
            tries = tries - 1;
        }
        Vec3 { e0: 0, e1: 0, e2: 0 }
    }

    /// A random direction of unit length: a ball sample of radius in
    /// `[1/2, 1)`, normalized. The squared length of the result is one up
    /// to fixed-point rounding; samples whose normalization drifts out of
    /// the stated band are rejected along with those outside the shell.
    pub fn random_unit_vector() -> (r: Vec3)
        ensures
            in_range(r, (SCALE + 2) as int),
            49152 <= sdot(r, r) <= 81920,
            exists|v: Vec3| 16384 <= sdot(v, v) < SCALE as int && r == spec_unit(v),
    {
        let mut tries: u32 = 64;
        while tries > 0
            decreases tries,
        {
            let p: Vec3 = Self::random(-SCALE, SCALE);
            let d: i64 = dot(p, p);
            if 16384 <= d && d < SCALE {
                let u: Vec3 = unit_vector(p);
                proof {
                    lemma_unit_near_one(p);
                }
                let sq: i64 = dot(u, u);
                if 49152 <= sq && sq <= 81920 {
                    proof {
                        assert(16384 <= sdot(p, p) < SCALE as int && u == spec_unit(p));
                    }
                    return u;
                }
            }
            tries = tries - 1;
        }
        let fallback: Vec3 = Vec3 { e0: 0, e1: 0, e2: 32768 };
        proof {
            assert(32768int * 32768int == 1073741824int) by (nonlinear_arith);
            assert(0int * 0int == 0int) by (nonlinear_arith);
            assert(16384int * 65536int == 1073741824int) by (nonlinear_arith);
            assert(32768int * 65536int == 2147483648int) by (nonlinear_arith);
            assert(65536int * 65536int == 4294967296int) by (nonlinear_arith);
            crate::fixed::lemma_sqrt_floor_unique(1073741824int, 32768int);
            assert(sdot(fallback, fallback) == 16384);
            assert(spec_len(fallback) == 32768);
            assert(spec_unit(fallback) == (Vec3 { e0: 0i64, e1: 0i64, e2: 65536i64 }));
        }
        let u: Vec3 = unit_vector(fallback);
        proof {
            assert(sdot(u, u) == 65536);
            assert(16384 <= sdot(fallback, fallback) < SCALE as int && u == spec_unit(fallback));
        }
        u
    }

    /// A unit-ball sample on the same side of the surface as `normal`.
    pub fn random_in_hemisphere(normal: Vec3) -> (r: Vec3)
        requires
            in_range(normal, DOT_MAX as int),
        ensures
            sdot(r, normal) >= 0,
            sdot(r, r) < SCALE as int,
            in_range(r, SCALE as int),
    {
        let in_unit_sphere: Vec3 = Self::random_in_unit_sphere();
        let d: i64 = dot(in_unit_sphere, normal);
        if d > 0 {
            in_unit_sphere
        } else {
            let flipped: Vec3 = in_unit_sphere.vneg();
            proof {
                lemma_sdot_neg(in_unit_sphere, normal);
                lemma_sdot_neg(in_unit_sphere, in_unit_sphere);
                lemma_sdot_comm(spec_neg(in_unit_sphere), in_unit_sphere);
                lemma_sdot_neg(in_unit_sphere, spec_neg(in_unit_sphere));
                lemma_sdot_comm(in_unit_sphere, spec_neg(in_unit_sphere));
            }
            flipped
        }
    }

    /// Rejection-sample a point inside the unit disk in the `z = 0` plane,
    /// used for lens defocus.
    pub fn random_in_unit_disk() -> (r: Vec3)
        ensures
            sdot(r, r) < SCALE as int,
            in_range(r, SCALE as int),
            r.e0 < SCALE && r.e1 < SCALE,
            r.e2 == 0,
    {
        let mut tries: u32 = 64;
        while tries > 0
            decreases tries,
        {
            let p: Vec3 = Vec3 {
                e0: random_fx(-SCALE, SCALE),
                e1: random_fx(-SCALE, SCALE),
                e2: 0,
            };
            let d: i64 = dot(p, p);
            if d < SCALE {
                return p;
            }
            tries = tries - 1;
        }
        Vec3 { e0: 0, e1: 0, e2: 0 }
    }
}

/// A magnitude bound on the dot product from bounds on the arguments.
pub proof fn lemma_sdot_range(u: Vec3, v: Vec3, mu: int, mv: int)
    requires
        in_range(u, mu),
        in_range(v, mv),
        0 <= mu,
        0 <= mv,
    ensures
        absi(sdot(u, v)) <= 3 * mu * mv / (SCALE as int),
        absi(sdot(u, v)) <= 3 * mu * mv,
    decreases 0int,
{
    let sum = (u.e0 as int) * (v.e0 as int) + (u.e1 as int) * (v.e1 as int)
        + (u.e2 as int) * (v.e2 as int);
    lemma_prod_bound(u.e0 as int, v.e0 as int, if mu > mv { mu } else { mv });
    assert(absi((u.e0 as int) * (v.e0 as int)) <= mu * mv) by (nonlinear_arith)
        requires absi(u.e0 as int) <= mu, absi(v.e0 as int) <= mv, 0 <= mu, 0 <= mv;
    assert(absi((u.e1 as int) * (v.e1 as int)) <= mu * mv) by (nonlinear_arith)
        requires absi(u.e1 as int) <= mu, absi(v.e1 as int) <= mv, 0 <= mu, 0 <= mv;
    assert(absi((u.e2 as int) * (v.e2 as int)) <= mu * mv) by (nonlinear_arith)
        requires absi(u.e2 as int) <= mu, absi(v.e2 as int) <= mv, 0 <= mu, 0 <= mv;
    assert(3 * mu * mv == mu * mv + mu * mv + mu * mv) by (nonlinear_arith);
    lemma_tdiv_bound(sum, SCALE as int, 3 * mu * mv);
}

} // verus!
