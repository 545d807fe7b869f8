//! The sole geometric primitive: a sphere, intersected by the closed-form
//! quadratic solve. Every quantity of the solve has an exact integer
//! specification, so the contract pins down both whether a ray hits and
//! the exact parameter, point and normal of the hit.

use vstd::prelude::*;
use crate::fixed::{
    SCALE, absi, tdiv, fxmul, fxdiv, sqrt_floor,
    lemma_tdiv_bound, lemma_fxmul_bound,
    mul_fx, sqrt_wide,
};
use crate::vec3::{
    Vec3, Point3, in_range, sdot, spec_sub, spec_neg, dot,
    lemma_sdot_range, lemma_prod_range,
};
use crate::ray::Ray;
use crate::hittable::{HitRecord, COORD_MAX, DIR_MAX, NORMAL_MAX, RADIUS_MIN};
use crate::material::{Material, material_wf};
use crate::utils::INFINITY;

verus! {

#[derive(Clone, Copy, PartialEq, Eq, Structural, Debug)]
pub struct Sphere {
    pub centre: Point3,
    pub radius: i64,
    pub material: Material,
}

/// A sphere the renderer can work with: bounded centre, radius neither
/// degenerate nor beyond the coordinate range, valid material.
pub open spec fn sphere_wf(s: Sphere) -> bool {
    &&& in_range(s.centre, COORD_MAX as int)
    &&& RADIUS_MIN as int <= s.radius <= COORD_MAX as int
    &&& material_wf(s.material)
}

/// A ray the intersection routines accept: bounded origin and direction,
/// direction not degenerate.
pub open spec fn ray_wf(r: Ray) -> bool {
    &&& in_range(r.orig, COORD_MAX as int)
    &&& in_range(r.dir, DIR_MAX as int)
    &&& sdot(r.dir, r.dir) >= 1
}

/// `origin - centre`.
pub open spec fn oc_of(s: Sphere, r: Ray) -> Vec3 {
    spec_sub(r.orig, s.centre)
}

/// The quadratic coefficient `a = dot(dir, dir)`.
pub open spec fn hit_a(r: Ray) -> int {
    sdot(r.dir, r.dir)
}

/// The half cross-coefficient `dot(oc, dir)`.
pub open spec fn hit_half_b(s: Sphere, r: Ray) -> int {
    sdot(oc_of(s, r), r.dir)
}

/// The constant coefficient `dot(oc, oc) - radius^2`.
pub open spec fn hit_c(s: Sphere, r: Ray) -> int {
    sdot(oc_of(s, r), oc_of(s, r)) - fxmul(s.radius as int, s.radius as int)
}

/// The discriminant `half_b^2 - a*c`, carried at twice the fixed-point
/// scale (a product of two scaled values, not rescaled).
pub open spec fn hit_disc(s: Sphere, r: Ray) -> int {
    hit_half_b(s, r) * hit_half_b(s, r) - hit_a(r) * hit_c(s, r)
}

/// Square root of the discriminant, back at single scale.
pub open spec fn hit_sqrtd(s: Sphere, r: Ray) -> int {
    sqrt_floor(hit_disc(s, r))
}

/// The smaller quadratic root `(-half_b - sqrtd) / a`.
pub open spec fn hit_root1(s: Sphere, r: Ray) -> int {
    tdiv((-hit_half_b(s, r) - hit_sqrtd(s, r)) * (SCALE as int), hit_a(r))
}

/// The larger quadratic root `(-half_b + sqrtd) / a`.
pub open spec fn hit_root2(s: Sphere, r: Ray) -> int {
    tdiv((-hit_half_b(s, r) + hit_sqrtd(s, r)) * (SCALE as int), hit_a(r))
}

/// Components of the ray's point at parameter `t`, over unbounded integers.
pub open spec fn at0(r: Ray, t: int) -> int {
    r.orig.e0 + fxmul(r.dir.e0 as int, t)
}

pub open spec fn at1(r: Ray, t: int) -> int {
    r.orig.e1 + fxmul(r.dir.e1 as int, t)
}

pub open spec fn at2(r: Ray, t: int) -> int {
    r.orig.e2 + fxmul(r.dir.e2 as int, t)
}

/// Components of the outward normal at parameter `t`:
/// `(point - centre) / radius`.
pub open spec fn outward0(s: Sphere, r: Ray, t: int) -> int {
    fxdiv(at0(r, t) - s.centre.e0, s.radius as int)
}

pub open spec fn outward1(s: Sphere, r: Ray, t: int) -> int {
    fxdiv(at1(r, t) - s.centre.e1, s.radius as int)
}

pub open spec fn outward2(s: Sphere, r: Ray, t: int) -> int {
    fxdiv(at2(r, t) - s.centre.e2, s.radius as int)
}

/// A root is accepted when it lies in the search window and the hit it
/// denotes is representable: the point stays within the coordinate range
/// and the outward normal within the normal range. Real hits of
/// well-formed scenes satisfy both; the guards only exclude values beyond
/// the fixed-point representation.
pub open spec fn root_ok(s: Sphere, r: Ray, t: int, t_min: int, t_max: int) -> bool {
    &&& t_min <= t <= t_max
    &&& absi(at0(r, t)) <= COORD_MAX as int
    &&& absi(at1(r, t)) <= COORD_MAX as int
    &&& absi(at2(r, t)) <= COORD_MAX as int
    &&& absi(outward0(s, r, t)) <= NORMAL_MAX as int
    &&& absi(outward1(s, r, t)) <= NORMAL_MAX as int
    &&& absi(outward2(s, r, t)) <= NORMAL_MAX as int
}

/// The parameter at which a ray first hits a sphere within the window,
/// if it does: the smaller root when acceptable, else the larger root,
/// else nothing; misses outright when the discriminant is negative.
pub open spec fn sphere_hit_result(s: Sphere, r: Ray, t_min: int, t_max: int) -> Option<int> {
    if hit_disc(s, r) < 0 {
        None
    } else if root_ok(s, r, hit_root1(s, r), t_min, t_max) {
        Some(hit_root1(s, r))
    } else if root_ok(s, r, hit_root2(s, r), t_min, t_max) {
        Some(hit_root2(s, r))
    } else {
        None
    }
}

/// The record `rec` describes exactly the hit of ray `r` on sphere `s`
/// at parameter `t`: point, material and oriented normal.
pub open spec fn matches_hit(rec: HitRecord, s: Sphere, r: Ray, t: int) -> bool {
    let out = Vec3 {
        e0: outward0(s, r, t) as i64,
        e1: outward1(s, r, t) as i64,
        e2: outward2(s, r, t) as i64,
    };
    &&& rec.t == t
    &&& rec.p.e0 == at0(r, t) && rec.p.e1 == at1(r, t) && rec.p.e2 == at2(r, t)
    &&& rec.material == s.material
    &&& rec.front_face == (sdot(r.dir, out) < 0)
    &&& rec.normal == if sdot(r.dir, out) < 0 { out } else { spec_neg(out) }
}

/// The accepted parameters really are the quadratic roots: `a * t`
/// recovers `(-half_b -/+ sqrt(disc)) * SCALE` up to less than one `a`
/// (the truncation of the final division), and the discriminant's square
/// root is bracketed exactly. Together with the window clause of `hit`,
/// this is the root-validity law of the intersection.
pub proof fn lemma_hit_roots_solve_quadratic(s: Sphere, r: Ray)
    requires
        hit_a(r) >= 1,
        hit_disc(s, r) >= 0,
    ensures
        absi((-hit_half_b(s, r) - hit_sqrtd(s, r)) * (SCALE as int)
            - hit_a(r) * hit_root1(s, r)) < hit_a(r),
        absi((-hit_half_b(s, r) + hit_sqrtd(s, r)) * (SCALE as int)
            - hit_a(r) * hit_root2(s, r)) < hit_a(r),
        hit_sqrtd(s, r) * hit_sqrtd(s, r) <= hit_disc(s, r),
        hit_disc(s, r) < (hit_sqrtd(s, r) + 1) * (hit_sqrtd(s, r) + 1),
    decreases 0int,
{
    crate::fixed::lemma_tdiv_residual(
        (-hit_half_b(s, r) - hit_sqrtd(s, r)) * (SCALE as int),
        hit_a(r),
    );
    crate::fixed::lemma_tdiv_residual(
        (-hit_half_b(s, r) + hit_sqrtd(s, r)) * (SCALE as int),
        hit_a(r),
    );
    crate::fixed::lemma_sqrt_floor_exists(hit_disc(s, r));
}

impl Sphere {
    pub fn from(c: Point3, r: i64, m: Material) -> (s: Self)
        ensures
            s.centre == c,
            s.radius == r,
            s.material == m,
    {
        Self { centre: c, radius: r, material: m }
    }

    /// Check one candidate root: window first, then representability of
    /// the hit point and of the outward normal.
    fn try_root(&self, r: Ray, t_min: i64, t_max: i64, root: i128) -> (res: Option<(i64, Vec3, Vec3)>)
        requires
            sphere_wf(*self),
            ray_wf(r),
            0 <= t_min,
            t_max <= INFINITY,
        ensures
            res is Some <==> root_ok(*self, r, root as int, t_min as int, t_max as int),
            res matches Some(v) ==> {
                &&& v.0 == root as int
                &&& v.1.e0 == at0(r, root as int) && v.1.e1 == at1(r, root as int)
                    && v.1.e2 == at2(r, root as int)
                &&& v.2.e0 == outward0(*self, r, root as int)
                    && v.2.e1 == outward1(*self, r, root as int)
                    && v.2.e2 == outward2(*self, r, root as int)
            },
    {
        if root < t_min as i128 || (t_max as i128) < root {
            return None;
        }
        proof {
            lemma_prod_range(r.dir.e0 as int, root as int, DIR_MAX as int, INFINITY as int);
            lemma_prod_range(r.dir.e1 as int, root as int, DIR_MAX as int, INFINITY as int);
            lemma_prod_range(r.dir.e2 as int, root as int, DIR_MAX as int, INFINITY as int);
            lemma_tdiv_bound((r.dir.e0 as int) * (root as int), SCALE as int,
                (DIR_MAX as int) * (INFINITY as int));
            lemma_tdiv_bound((r.dir.e1 as int) * (root as int), SCALE as int,
                (DIR_MAX as int) * (INFINITY as int));
            lemma_tdiv_bound((r.dir.e2 as int) * (root as int), SCALE as int,
                (DIR_MAX as int) * (INFINITY as int));
        }
        let p0: i128 = (r.orig.e0 as i128) + ((r.dir.e0 as i128) * root) / (SCALE as i128);
        let p1: i128 = (r.orig.e1 as i128) + ((r.dir.e1 as i128) * root) / (SCALE as i128);
        let p2: i128 = (r.orig.e2 as i128) + ((r.dir.e2 as i128) * root) / (SCALE as i128);
        if p0 > COORD_MAX as i128 || p0 < -(COORD_MAX as i128)
            || p1 > COORD_MAX as i128 || p1 < -(COORD_MAX as i128)
            || p2 > COORD_MAX as i128 || p2 < -(COORD_MAX as i128) {
            return None;
        }
        proof {
            lemma_tdiv_bound((p0 as int - self.centre.e0) * (SCALE as int), self.radius as int,
                2 * (COORD_MAX as int) * (SCALE as int));
            lemma_tdiv_bound((p1 as int - self.centre.e1) * (SCALE as int), self.radius as int,
                2 * (COORD_MAX as int) * (SCALE as int));
            lemma_tdiv_bound((p2 as int - self.centre.e2) * (SCALE as int), self.radius as int,
                2 * (COORD_MAX as int) * (SCALE as int));
            lemma_prod_range(p0 as int - self.centre.e0, SCALE as int,
                2 * (COORD_MAX as int), SCALE as int);
            lemma_prod_range(p1 as int - self.centre.e1, SCALE as int,
                2 * (COORD_MAX as int), SCALE as int);
            lemma_prod_range(p2 as int - self.centre.e2, SCALE as int,
                2 * (COORD_MAX as int), SCALE as int);
        }
        let o0: i128 = ((p0 - (self.centre.e0 as i128)) * (SCALE as i128)) / (self.radius as i128);
        let o1: i128 = ((p1 - (self.centre.e1 as i128)) * (SCALE as i128)) / (self.radius as i128);
        let o2: i128 = ((p2 - (self.centre.e2 as i128)) * (SCALE as i128)) / (self.radius as i128);
        if o0 > NORMAL_MAX as i128 || o0 < -(NORMAL_MAX as i128)
            || o1 > NORMAL_MAX as i128 || o1 < -(NORMAL_MAX as i128)
            || o2 > NORMAL_MAX as i128 || o2 < -(NORMAL_MAX as i128) {
            return None;
        }
        let p: Vec3 = Vec3::from(p0 as i64, p1 as i64, p2 as i64);
        let out: Vec3 = Vec3::from(o0 as i64, o1 as i64, o2 as i64);
        Some((root as i64, p, out))
    }

    /// Intersect the ray with the sphere over the window
    /// `[t_min, t_max]`. Returns true exactly when the discriminant is
    /// non-negative and an acceptable root exists; the record then holds
    /// that root, the hit point, the sphere's material, and the normal
    /// oriented against the ray. On a miss the record is untouched.
    pub fn hit(&self, r: Ray, t_min: i64, t_max: i64, rec: &mut HitRecord) -> (b: bool)
        requires
            sphere_wf(*self),
            ray_wf(r),
            0 <= t_min,
            t_max <= INFINITY,
        ensures
            b == (sphere_hit_result(*self, r, t_min as int, t_max as int) is Some),
            b ==> sphere_hit_result(*self, r, t_min as int, t_max as int)
                == Some(final(rec).t as int),
            b ==> matches_hit(*final(rec), *self, r, final(rec).t as int),
            b ==> sdot(final(rec).normal, r.dir) <= 0,
            b ==> in_range(final(rec).p, COORD_MAX as int)
                && in_range(final(rec).normal, NORMAL_MAX as int)
                && final(rec).material == self.material
                && t_min <= final(rec).t <= t_max,
            !b ==> *final(rec) == *old(rec),
    {
        let oc: Vec3 = r.origin().vsub(self.centre);
        proof {
            lemma_sdot_range(r.dir, r.dir, DIR_MAX as int, DIR_MAX as int);
            lemma_sdot_range(oc, r.dir, 2 * (COORD_MAX as int), DIR_MAX as int);
            lemma_sdot_range(oc, oc, 2 * (COORD_MAX as int), 2 * (COORD_MAX as int));
            lemma_fxmul_bound(self.radius as int, self.radius as int,
                COORD_MAX as int, COORD_MAX as int);
        }
        let a: i64 = dot(r.direction(), r.direction());
        let half_b: i64 = dot(oc, r.direction());
        let c_val: i64 = dot(oc, oc) - mul_fx(self.radius, self.radius);
        proof {
            lemma_prod_range(half_b as int, half_b as int, 0x400000000000000, 0x400000000000000);
            lemma_prod_range(a as int, c_val as int, 0x400000000000000, 0x2000000000000000);
        }
        let discriminant: i128 = (half_b as i128) * (half_b as i128)
            - (a as i128) * (c_val as i128);
        if discriminant < 0 {
            return false;
        }
        let sqrtd: i64 = sqrt_wide(discriminant);
        proof {
            lemma_tdiv_bound(
                (-(half_b as int) - (sqrtd as int)) * (SCALE as int),
                a as int,
                0x100000000000000000000,
            );
            lemma_prod_range(-(half_b as int) - (sqrtd as int), SCALE as int,
                0x10000000000000000, SCALE as int);
            lemma_tdiv_bound(
                (-(half_b as int) + (sqrtd as int)) * (SCALE as int),
                a as int,
                0x100000000000000000000,
            );
            lemma_prod_range(-(half_b as int) + (sqrtd as int), SCALE as int,
                0x10000000000000000, SCALE as int);
        }
        let num1: i128 = ((-(half_b as i128)) - (sqrtd as i128)) * (SCALE as i128);
        let root1: i128 = num1 / (a as i128);
        let first: Option<(i64, Vec3, Vec3)> = self.try_root(r, t_min, t_max, root1);
        let chosen: Option<(i64, Vec3, Vec3)> = match first {
            Some(v) => Some(v),
            None => {
                let num2: i128 = ((-(half_b as i128)) + (sqrtd as i128)) * (SCALE as i128);
                let root2: i128 = num2 / (a as i128);
                self.try_root(r, t_min, t_max, root2)
            },
        };
        match chosen {
            Some(v) => {
                rec.t = v.0;
                rec.p = v.1;
                rec.material = self.material;
                rec.set_face_normal(r, v.2);
                true
            },
            None => false,
        }
    }
}

} // verus!
