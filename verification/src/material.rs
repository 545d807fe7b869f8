//! Surface materials and their scattering rules: Lambertian diffuse,
//! fuzzed metal reflection, and dielectric refraction with Schlick's
//! reflectance approximation. The material set is closed, so dispatch is
//! a match over a tagged union.

use vstd::prelude::*;
use crate::fixed::{
    SCALE, absi, fxmul, fxdiv, fxsqrt,
    lemma_fxmul_bound, lemma_tdiv_basics, lemma_tdiv_bound,
    mul_fx, div_fx, sqrt_fx,
};
use crate::utils::{spec_clamp, clamp, random_fx};
use crate::vec3::{
    Vec3, Colour, in_range, sdot, spec_add, spec_scale, spec_neg, spec_unit,
    spec_reflect, spec_refract, spec_near_zero,
    dot, unit_vector, reflect, refract,
    UNIT_MAX, DOT_MAX,
    lemma_sdot_range, lemma_scale_zero,
};
use crate::ray::Ray;
use crate::hittable::{HitRecord, NORMAL_MAX};

verus! {

/// Largest admissible refraction index: eight (real terms).
pub const IR_MAX: i64 = 524288;

/// A colour channel is a fixed-point value in `[0, 1]`.
pub open spec fn colour_wf(c: Colour) -> bool {
    &&& 0 <= c.e0 <= SCALE
    &&& 0 <= c.e1 <= SCALE
    &&& 0 <= c.e2 <= SCALE
}

#[derive(Clone, Copy, PartialEq, Eq, Structural, Debug)]
pub struct Lambertian {
    pub albedo: Colour,
}

#[derive(Clone, Copy, PartialEq, Eq, Structural, Debug)]
pub struct Metal {
    pub albedo: Colour,
    pub fuzz: i64,
}

#[derive(Clone, Copy, PartialEq, Eq, Structural, Debug)]
pub struct Dielectric {
    pub ir: i64,
}

/// The closed set of surface materials.
#[derive(Clone, Copy, PartialEq, Eq, Structural, Debug)]
pub enum Material {
    Lambertian(Lambertian),
    Metal(Metal),
    Dielectric(Dielectric),
}

/// Well-formedness of a material: colours are colours, fuzz is at most
/// one, and the refraction index lies in `[1, 8]`.
pub open spec fn material_wf(m: Material) -> bool {
    match m {
        Material::Lambertian(l) => colour_wf(l.albedo),
        Material::Metal(mt) => colour_wf(mt.albedo) && 0 <= mt.fuzz <= SCALE,
        Material::Dielectric(d) => SCALE <= d.ir <= IR_MAX,
    }
}

/// The attenuation each material applies when it scatters: the albedo
/// for diffuse and metal surfaces, pure white for glass.
pub open spec fn spec_attenuation(m: Material) -> Colour {
    match m {
        Material::Lambertian(l) => l.albedo,
        Material::Metal(mt) => mt.albedo,
        Material::Dielectric(d) => Colour { e0: SCALE, e1: SCALE, e2: SCALE },
    }
}

impl Lambertian {
    pub fn from(colour: Colour) -> (r: Self)
        ensures
            r.albedo == colour,
    {
        Self { albedo: colour }
    }
}

impl Metal {
    /// Fuzz larger than one is clamped down to one.
    pub fn from(a: Colour, f: i64) -> (r: Self)
        ensures
            r.albedo == a,
            r.fuzz == if f < SCALE { f as int } else { SCALE as int },
    {
        Self { albedo: a, fuzz: if f < SCALE { f } else { SCALE } }
    }
}

impl Dielectric {
    pub fn from(index_of_refraction: i64) -> (r: Self)
        ensures
            r.ir == index_of_refraction,
    {
        Self { ir: index_of_refraction }
    }
}

/// Schlick's approximation:
/// `r0 + (1 - r0) * (1 - cosine)^5` with `r0 = ((1 - ri) / (1 + ri))^2`.
pub open spec fn spec_reflectance(cosine: int, ref_idx: int) -> int {
    let r0 = fxdiv((SCALE as int) - ref_idx, (SCALE as int) + ref_idx);
    let r0sq = fxmul(r0, r0);
    let m = (SCALE as int) - cosine;
    let m2 = fxmul(m, m);
    let m4 = fxmul(m2, m2);
    let m5 = fxmul(m4, m);
    r0sq + fxmul((SCALE as int) - r0sq, m5)
}

impl Dielectric {
    /// Schlick reflectance, exact per `spec_reflectance`.
    pub fn reflectance(cosine: i64, ref_idx: i64) -> (r: i64)
        requires
            -SCALE <= cosine <= SCALE,
            SCALE <= ref_idx <= IR_MAX,
        ensures
            r == spec_reflectance(cosine as int, ref_idx as int),
    {
        proof {
            lemma_tdiv_bound(
                ((SCALE as int) - ref_idx) * (SCALE as int),
                (SCALE as int) + ref_idx,
                (IR_MAX as int) * (SCALE as int),
            );
            assert(absi(((SCALE as int) - ref_idx) * (SCALE as int))
                <= (IR_MAX as int) * (SCALE as int)) by (nonlinear_arith)
                requires SCALE <= ref_idx <= IR_MAX;
            vstd::arithmetic::div_mod::lemma_div_is_ordered_by_denominator(
                (IR_MAX as int) * (SCALE as int),
                2 * (SCALE as int),
                (SCALE as int) + ref_idx,
            );
        }
        let r0: i64 = div_fx(SCALE - ref_idx, SCALE + ref_idx);
        proof {
            assert(absi(r0 as int) <= 0x40000);
            lemma_fxmul_bound(r0 as int, r0 as int, 0x40000, 0x40000);
        }
        let r0sq: i64 = mul_fx(r0, r0);
        let m: i64 = SCALE - cosine;
        proof {
            lemma_fxmul_bound(m as int, m as int, 0x20000, 0x20000);
            lemma_fxmul_bound(fxmul(m as int, m as int), fxmul(m as int, m as int), 0x40000, 0x40000);
            lemma_fxmul_bound(
                fxmul(fxmul(m as int, m as int), fxmul(m as int, m as int)),
                m as int,
                0x100000,
                0x20000,
            );
        }
        let m2: i64 = mul_fx(m, m);
        let m4: i64 = mul_fx(m2, m2);
        let m5: i64 = mul_fx(m4, m);
        proof {
            lemma_fxmul_bound((SCALE as int) - r0sq as int, m5 as int, 0x200000, 0x200000);
        }
        r0sq + mul_fx(SCALE - r0sq, m5)
    }
}

/// What `Vec3::random_unit_vector` hands back: a near-unit direction
/// with squared length one up to rounding.
pub open spec fn unit_sample(u: Vec3) -> bool {
    &&& in_range(u, (SCALE + 2) as int)
    &&& 49152 <= sdot(u, u) <= 81920
}

impl Lambertian {
    /// Diffuse scattering: the new direction is the surface normal plus a
    /// random unit vector, falling back to the normal itself when the sum
    /// nearly cancels. Always scatters; attenuation is the albedo, and the
    /// scattered ray starts at the hit point.
    pub fn scatter(&self, r_in: Ray, rec: &HitRecord) -> (res: Option<(Colour, Ray)>)
        requires
            in_range(rec.normal, NORMAL_MAX as int),
        ensures
            res is Some,
            res matches Some(s) ==> {
                &&& s.0 == self.albedo
                &&& s.1.orig == rec.p
                &&& in_range(s.1.dir, NORMAL_MAX as int + UNIT_MAX as int)
                &&& (s.1.dir == rec.normal
                    || (!spec_near_zero(s.1.dir) && exists|u: Vec3|
                        #[trigger] unit_sample(u) && s.1.dir == spec_add(rec.normal, u)))
            },
    {
        let u: Vec3 = Vec3::random_unit_vector();
        let mut scatter_direction: Vec3 = rec.normal.vadd(u);
        if scatter_direction.near_zero() {
            scatter_direction = rec.normal;
        } else {
            proof {
                assert(unit_sample(u) && scatter_direction == spec_add(rec.normal, u));
            }
        }
        Some((self.albedo, Ray::from(rec.p, scatter_direction)))
    }
}

impl Metal {
    /// Specular scattering: mirror the incoming direction about the
    /// normal, fuzz it by a random unit vector scaled by `fuzz`, and
    /// absorb rays that would leave into the surface. With zero fuzz the
    /// scattered direction is exactly the mirror reflection.
    pub fn scatter(&self, r_in: Ray, rec: &HitRecord) -> (res: Option<(Colour, Ray)>)
        requires
            0 <= self.fuzz <= SCALE,
            in_range(r_in.dir, DOT_MAX as int),
            sdot(r_in.dir, r_in.dir) >= 1,
            in_range(rec.normal, NORMAL_MAX as int),
        ensures
            res matches Some(s) ==> {
                &&& s.0 == self.albedo
                &&& s.1.orig == rec.p
                &&& sdot(s.1.dir, rec.normal) > 0
                &&& in_range(s.1.dir, 0x200000000)
                &&& exists|u: Vec3| #[trigger] unit_sample(u) && s.1.dir == spec_add(
                    spec_reflect(spec_unit(r_in.dir), rec.normal),
                    spec_scale(u, self.fuzz as int),
                )
            },
            res is None ==> exists|u: Vec3| #[trigger] unit_sample(u) && sdot(
                spec_add(
                    spec_reflect(spec_unit(r_in.dir), rec.normal),
                    spec_scale(u, self.fuzz as int),
                ),
                rec.normal,
            ) <= 0,
            self.fuzz == 0 ==> {
                let mirror = spec_reflect(spec_unit(r_in.dir), rec.normal);
                &&& (res is Some <==> sdot(mirror, rec.normal) > 0)
                &&& (res matches Some(s) ==> s.1.dir == mirror)
            },
    {
        let unit_dir: Vec3 = unit_vector(r_in.dir);
        let reflected: Vec3 = reflect(unit_dir, rec.normal);
        let u: Vec3 = Vec3::random_unit_vector();
        proof {
            lemma_fxmul_bound(u.e0 as int, self.fuzz as int, UNIT_MAX as int, SCALE as int);
            lemma_fxmul_bound(u.e1 as int, self.fuzz as int, UNIT_MAX as int, SCALE as int);
            lemma_fxmul_bound(u.e2 as int, self.fuzz as int, UNIT_MAX as int, SCALE as int);
        }
        let fuzz_step: Vec3 = u.vscale(self.fuzz);
        let dir: Vec3 = reflected.vadd(fuzz_step);
        proof {
            if self.fuzz == 0 {
                lemma_scale_zero(u);
                assert(dir == spec_reflect(spec_unit(r_in.dir), rec.normal));
            }
            assert(unit_sample(u) && dir == spec_add(
                spec_reflect(spec_unit(r_in.dir), rec.normal),
                spec_scale(u, self.fuzz as int),
            ));
        }
        let scattered: Ray = Ray::from(rec.p, dir);
        let d: i64 = dot(scattered.direction(), rec.normal);
        if d > 0 {
            Some((self.albedo, scattered))
        } else {
            None
        }
    }
}

/// The refraction ratio a dielectric applies: `1/ir` when the ray enters
/// the medium from outside, `ir` when it leaves.
pub open spec fn spec_refraction_ratio(ir: int, front_face: bool) -> int {
    if front_face {
        fxdiv(SCALE as int, ir)
    } else {
        ir
    }
}

impl Dielectric {
    /// Dielectric scattering: refract where Snell's law allows it and a
    /// Schlick-reflectance coin flip permits, otherwise reflect. Always
    /// scatters; glass absorbs nothing, so the attenuation is pure white.
    /// Under total internal reflection the ray always reflects.
    pub fn scatter(&self, r_in: Ray, rec: &HitRecord) -> (res: Option<(Colour, Ray)>)
        requires
            SCALE <= self.ir <= IR_MAX,
            in_range(r_in.dir, DOT_MAX as int),
            sdot(r_in.dir, r_in.dir) >= 1,
            in_range(rec.normal, NORMAL_MAX as int),
        ensures
            res is Some,
            res matches Some(s) ==> {
                let u = spec_unit(r_in.dir);
                let ratio = spec_refraction_ratio(self.ir as int, rec.front_face);
                let mirror = spec_reflect(u, rec.normal);
                let bent = spec_refract(u, rec.normal, ratio);
                let cos = spec_clamp(sdot(spec_neg(u), rec.normal), -(SCALE as int), SCALE as int);
                &&& s.0 == (Colour { e0: SCALE, e1: SCALE, e2: SCALE })
                &&& s.1.orig == rec.p
                &&& (s.1.dir == mirror || s.1.dir == bent)
                &&& (spec_cannot_refract(u, rec.normal, ratio) ==> s.1.dir == mirror)
                &&& (!spec_cannot_refract(u, rec.normal, ratio)
                    && spec_reflectance(cos, self.ir as int) <= 0 ==> s.1.dir == bent)
                &&& (!spec_cannot_refract(u, rec.normal, ratio)
                    && spec_reflectance(cos, self.ir as int) >= SCALE as int ==> s.1.dir == mirror)
            },
    {
        let attenuation: Colour = Vec3::from(SCALE, SCALE, SCALE);
        proof {
            lemma_ratio_bounds(self.ir as int);
        }
        let refraction_ratio: i64 = if rec.front_face {
            div_fx(SCALE, self.ir)
        } else {
            self.ir
        };
        proof {
            assert(1 <= refraction_ratio as int <= IR_MAX as int);
        }
        let unit_direction: Vec3 = unit_vector(r_in.dir);
        let neg_unit: Vec3 = unit_direction.vneg();
        let d: i64 = dot(neg_unit, rec.normal);
        proof {
            lemma_sdot_range(neg_unit, rec.normal, UNIT_MAX as int, NORMAL_MAX as int);
        }
        let cos_theta: i64 = clamp(d, -SCALE, SCALE);
        proof {
            lemma_fxmul_bound(cos_theta as int, cos_theta as int, SCALE as int, SCALE as int);
            lemma_cos_sq_le_one(cos_theta as int);
        }
        let sin_sq: i64 = SCALE - mul_fx(cos_theta, cos_theta);
        let sin_theta: i64 = sqrt_fx(sin_sq);
        proof {
            crate::vec3::lemma_sqrt_magnitude(sin_sq as int);
            lemma_fxmul_bound(refraction_ratio as int, sin_theta as int, IR_MAX as int, 0x1000000000);
        }
        let cannot_refract: bool = mul_fx(refraction_ratio, sin_theta) > SCALE;
        let reflect_choice: bool = if cannot_refract {
            true
        } else {
            let q: i64 = random_fx(0, SCALE);
            Self::reflectance(cos_theta, self.ir) > q
        };
        let direction: Vec3 = if reflect_choice {
            reflect(unit_direction, rec.normal)
        } else {
            refract(unit_direction, rec.normal, refraction_ratio)
        };
        Some((attenuation, Ray::from(rec.p, direction)))
    }
}

/// For a refraction index in `[1, 8]`, the applied ratio (either the
/// index or its reciprocal) lies in `[1, 8]` and fits comfortably.
proof fn lemma_ratio_bounds(ir: int)
    requires
        SCALE as int <= ir <= IR_MAX as int,
    ensures
        1 <= fxdiv(SCALE as int, ir) <= SCALE as int,
    decreases 0int,
{
    let num = (SCALE as int) * (SCALE as int);
    lemma_tdiv_basics(num, ir);
    vstd::arithmetic::div_mod::lemma_div_pos_is_pos(num, ir);
    assert(ir <= (SCALE as int) * (SCALE as int)) by (nonlinear_arith)
        requires SCALE as int <= ir <= IR_MAX as int;
    vstd::arithmetic::div_mod::lemma_div_is_ordered(ir, num, ir);
    vstd::arithmetic::div_mod::lemma_div_by_self(ir);
    vstd::arithmetic::div_mod::lemma_div_is_ordered_by_denominator(num, SCALE as int, ir);
    vstd::arithmetic::div_mod::lemma_div_multiples_vanish(SCALE as int, SCALE as int);
}

/// Total internal reflection: the scaled sine of the refracted angle
/// would exceed one.
pub open spec fn spec_cannot_refract(u: Vec3, n: Vec3, ratio: int) -> bool {
    let cos = spec_clamp(sdot(spec_neg(u), n), -(SCALE as int), SCALE as int);
    let sin = fxsqrt((SCALE as int) - fxmul(cos, cos));
    fxmul(ratio, sin) > SCALE as int
}

/// `cos` in `[-1, 1]` has a square of at most one.
proof fn lemma_cos_sq_le_one(cos: int)
    requires
        -(SCALE as int) <= cos <= SCALE as int,
    ensures
        0 <= fxmul(cos, cos) <= SCALE as int,
    decreases 0int,
{
    assert(0 <= cos * cos <= (SCALE as int) * (SCALE as int)) by (nonlinear_arith)
        requires -(SCALE as int) <= cos <= SCALE as int;
    lemma_tdiv_basics(cos * cos, SCALE as int);
    vstd::arithmetic::div_mod::lemma_div_is_ordered(
        cos * cos,
        (SCALE as int) * (SCALE as int),
        SCALE as int,
    );
    vstd::arithmetic::div_mod::lemma_div_multiples_vanish(SCALE as int, SCALE as int);
}

impl Material {
    /// Dispatch to the variant's scattering rule.
    pub fn scatter(&self, r_in: Ray, rec: &HitRecord) -> (res: Option<(Colour, Ray)>)
        requires
            material_wf(*self),
            in_range(r_in.dir, DOT_MAX as int),
            sdot(r_in.dir, r_in.dir) >= 1,
            in_range(rec.normal, NORMAL_MAX as int),
        ensures
            res matches Some(s) ==> s.1.orig == rec.p,
            res matches Some(s) ==> s.0 == spec_attenuation(*self),
            res matches Some(s) ==> colour_wf(s.0),
            *self matches Material::Lambertian(l) ==> res is Some
                && (res matches Some(s) ==> s.1.dir == rec.normal
                    || (!spec_near_zero(s.1.dir) && exists|u: Vec3|
                        #[trigger] unit_sample(u) && s.1.dir == spec_add(rec.normal, u))),
            *self matches Material::Metal(mt) ==> {
                &&& (res matches Some(s) ==> {
                    &&& sdot(s.1.dir, rec.normal) > 0
                    &&& exists|u: Vec3| #[trigger] unit_sample(u) && s.1.dir == spec_add(
                        spec_reflect(spec_unit(r_in.dir), rec.normal),
                        spec_scale(u, mt.fuzz as int),
                    )
                })
                &&& (res is None ==> exists|u: Vec3| #[trigger] unit_sample(u) && sdot(
                    spec_add(
                        spec_reflect(spec_unit(r_in.dir), rec.normal),
                        spec_scale(u, mt.fuzz as int),
                    ),
                    rec.normal,
                ) <= 0)
                &&& (mt.fuzz == 0 ==> {
                    let mirror = spec_reflect(spec_unit(r_in.dir), rec.normal);
                    &&& (res is Some <==> sdot(mirror, rec.normal) > 0)
                    &&& (res matches Some(s) ==> s.1.dir == mirror)
                })
            },
            *self matches Material::Dielectric(d) ==> res is Some
                && (res matches Some(s) ==> {
                    let u = spec_unit(r_in.dir);
                    let ratio = spec_refraction_ratio(d.ir as int, rec.front_face);
                    let mirror = spec_reflect(u, rec.normal);
                    let bent = spec_refract(u, rec.normal, ratio);
                    &&& (s.1.dir == mirror || s.1.dir == bent)
                    &&& (spec_cannot_refract(u, rec.normal, ratio) ==> s.1.dir == mirror)
                }),
    {
        match self {
            Material::Lambertian(l) => l.scatter(r_in, rec),
            Material::Metal(mt) => mt.scatter(r_in, rec),
            Material::Dielectric(d) => d.scatter(r_in, rec),
        }
    }
}

} // verus!
