//! The camera: an orthonormal viewing frame with a thin-lens aperture,
//! built once from look-from/look-at/up vectors, a vertical field of
//! view, aspect ratio, aperture and focus distance.

use vstd::prelude::*;
use crate::fixed::{
    SCALE, absi, tdiv, fxmul, fxdiv, fits_i64, spec_sin, spec_cos,
    lemma_tdiv_basics, lemma_tdiv_bound, lemma_fxmul_bound,
    sin_fx, cos_fx, div_fx,
};
use crate::utils::{PI_FX, spec_deg_to_rad, degrees_to_radians};
use crate::vec3::{
    Vec3, Point3, in_range, sdot, spec_add, spec_sub, spec_scale, spec_divs,
    spec_cross, spec_unit, UNIT_MAX,
    cross, unit_vector, lemma_unit_near_one, lemma_scale_zero,
};
use crate::ray::Ray;
use crate::hittable::{COORD_MAX, DIR_MAX};

verus! {

/// Bound on a camera position component (2^34).
pub const CAM_POS_MAX: i64 = 17179869184;

/// Bound on the viewport extent vectors (`horizontal`, `vertical`).
pub const CAM_VEC_MAX: i64 = 6442450944;

/// Bound on the offset from the origin to the lower-left corner.
pub const CAM_CORNER_MAX: i64 = 8589934592;

/// Bound on the up-vector components handed to the constructor.
pub const VUP_MAX: i64 = 1048576;

/// Largest vertical field of view accepted, in fixed-point degrees (160).
pub const VFOV_MAX: i64 = 10485760;

/// The half field-of-view angle in radians.
pub open spec fn spec_half_theta(vfov: int) -> int {
    tdiv(spec_deg_to_rad(vfov), 2)
}

/// A usable vertical field of view: positive, at most 160 degrees, and
/// with a cosine of the half-angle at least one quarter, so that the
/// tangent stays representable.
pub open spec fn vfov_ok(vfov: int) -> bool {
    &&& 0 < vfov <= VFOV_MAX as int
    &&& spec_cos(spec_half_theta(vfov)) >= 16384
}

/// The viewport half-height: the tangent of the half angle.
pub open spec fn spec_half_height(vfov: int) -> int {
    fxdiv(spec_sin(spec_half_theta(vfov)), spec_cos(spec_half_theta(vfov)))
}

/// Decide `vfov_ok` at run time, so that callers outside the verified
/// code can test a field of view before building a camera.
pub fn vfov_usable(vfov: i64) -> (b: bool)
    ensures
        b == vfov_ok(vfov as int),
{
    if vfov <= 0 || vfov > VFOV_MAX {
        return false;
    }
    let theta: i64 = degrees_to_radians(vfov);
    proof {
        lemma_tdiv_bound(vfov * (PI_FX as int), 180 * (SCALE as int),
            (VFOV_MAX as int) * (PI_FX as int));
        assert(absi(vfov * (PI_FX as int)) <= (VFOV_MAX as int) * (PI_FX as int))
            by (nonlinear_arith)
            requires 0 < vfov <= VFOV_MAX;
        lemma_tdiv_basics(vfov * (PI_FX as int), 180 * (SCALE as int));
        assert(vfov * (PI_FX as int) >= 0) by (nonlinear_arith)
            requires vfov > 0;
        assert((VFOV_MAX as int) * (PI_FX as int) == 2158881669120) by (nonlinear_arith);
        assert(2158881669120int / (180 * (SCALE as int)) == 183010) by {
            vstd::arithmetic::div_mod::lemma_fundamental_div_mod_converse(
                2158881669120, 180 * (SCALE as int), 183010, 7864320,
            );
            assert(183010int * (180 * (SCALE as int)) + 7864320 == 2158881669120)
                by (nonlinear_arith);
        }
        lemma_tdiv_basics(theta as int, 2);
        lemma_tdiv_bound(theta as int, 2, 183010);
    }
    let half: i64 = theta / 2;
    let cos_h: i64 = cos_fx(half);
    cos_h >= 16384
}

pub struct Camera {
    pub origin: Point3,
    pub lower_left_corner: Point3,
    pub horizontal: Vec3,
    pub vertical: Vec3,
    pub u: Vec3,
    pub v: Vec3,
    pub w: Vec3,
    pub lens_radius: i64,
}

/// The frame bounds every constructed camera satisfies, and which
/// `get_ray` needs to produce rays the intersection code accepts.
pub open spec fn camera_wf(c: Camera) -> bool {
    &&& in_range(c.origin, CAM_POS_MAX as int)
    &&& in_range(c.horizontal, CAM_VEC_MAX as int)
    &&& in_range(c.vertical, CAM_VEC_MAX as int)
    &&& in_range(spec_sub(c.lower_left_corner, c.origin), CAM_CORNER_MAX as int)
    &&& fits_i64(c.lower_left_corner.e0 - c.origin.e0)
    &&& fits_i64(c.lower_left_corner.e1 - c.origin.e1)
    &&& fits_i64(c.lower_left_corner.e2 - c.origin.e2)
    &&& in_range(c.u, 65538)
    &&& in_range(c.v, 131080)
    &&& in_range(c.w, 65538)
    &&& 0 <= c.lens_radius <= 0x100000
}

/// The ray `get_ray` produces for image coordinates `(s, t)` and lens
/// sample `rd`: the origin is offset within the aperture, the direction
/// runs from the offset origin to the focal point of `(s, t)`.
pub open spec fn spec_get_ray(c: Camera, s: int, t: int, rd: Vec3) -> Ray {
    let rdl = spec_scale(rd, c.lens_radius as int);
    let offset = spec_add(spec_scale(c.u, rdl.e0 as int), spec_scale(c.v, rdl.e1 as int));
    let base = spec_sub(c.lower_left_corner, c.origin);
    let dir = spec_sub(
        spec_add(spec_add(base, spec_scale(c.horizontal, s)), spec_scale(c.vertical, t)),
        offset,
    );
    Ray { orig: spec_add(c.origin, offset), dir: dir }
}

impl Camera {
    /// Build the viewing frame. The preconditions are the representation
    /// limits of the fixed-point frame: bounded inputs, a usable field of
    /// view, non-degenerate look and up directions.
    #[verifier::rlimit(60)]
    pub fn from(
        look_from: Point3,
        look_at: Point3,
        v_up: Vec3,
        vfov: i64,
        aspect_ratio: i64,
        aperture: i64,
        focus_dist: i64,
    ) -> (c: Camera)
        requires
            in_range(look_from, CAM_POS_MAX as int),
            in_range(look_at, CAM_POS_MAX as int),
            sdot(spec_sub(look_from, look_at), spec_sub(look_from, look_at)) >= 16384,
            in_range(v_up, VUP_MAX as int),
            ({
                let w = spec_unit(spec_sub(look_from, look_at));
                sdot(spec_cross(v_up, w), spec_cross(v_up, w)) >= 16384
            }),
            vfov_ok(vfov as int),
            0 < aspect_ratio <= 0x80000,
            0 <= aperture <= 0x200000,
            1 <= focus_dist <= 0x800000,
        ensures
            camera_wf(c),
            c.origin == look_from,
            c.w == spec_unit(spec_sub(look_from, look_at)),
            c.u == spec_unit(spec_cross(v_up, c.w)),
            c.v == spec_cross(c.w, c.u),
            ({
                let h = spec_half_height(vfov as int);
                let vh = 2 * h;
                let vw = fxmul(aspect_ratio as int, vh);
                &&& c.horizontal == spec_scale(spec_scale(c.u, vw), focus_dist as int)
                &&& c.vertical == spec_scale(spec_scale(c.v, vh), focus_dist as int)
            }),
            c.lower_left_corner == spec_sub(
                spec_sub(
                    spec_sub(c.origin, spec_divs(c.horizontal, 2 * SCALE as int)),
                    spec_divs(c.vertical, 2 * SCALE as int),
                ),
                spec_scale(c.w, focus_dist as int),
            ),
            c.lens_radius == tdiv(aperture as int, 2),
    {
        let theta: i64 = degrees_to_radians(vfov);
        proof {
            lemma_tdiv_bound(vfov * (PI_FX as int), 180 * (SCALE as int),
                (VFOV_MAX as int) * (PI_FX as int));
            assert(absi(vfov * (PI_FX as int)) <= (VFOV_MAX as int) * (PI_FX as int))
                by (nonlinear_arith)
                requires 0 < vfov <= VFOV_MAX;
            lemma_tdiv_basics(vfov * (PI_FX as int), 180 * (SCALE as int));
            assert(vfov * (PI_FX as int) >= 0) by (nonlinear_arith)
                requires vfov > 0;
            assert((VFOV_MAX as int) * (PI_FX as int) == 2158881669120) by (nonlinear_arith);
            assert(2158881669120int / (180 * (SCALE as int)) == 183010) by {
                vstd::arithmetic::div_mod::lemma_fundamental_div_mod_converse(
                    2158881669120, 180 * (SCALE as int), 183010, 7864320,
                );
                assert(183010int * (180 * (SCALE as int)) + 7864320 == 2158881669120)
                    by (nonlinear_arith);
            }
            lemma_tdiv_basics(theta as int, 2);
            lemma_tdiv_bound(theta as int, 2, 183010);
        }
        let half: i64 = theta / 2;
        let sin_h: i64 = sin_fx(half);
        let cos_h: i64 = cos_fx(half);
        proof {
            lemma_tdiv_bound((sin_h as int) * (SCALE as int), cos_h as int,
                196608 * (SCALE as int));
            assert(absi((sin_h as int) * (SCALE as int)) <= 196608 * (SCALE as int))
                by (nonlinear_arith)
                requires -196608 <= sin_h <= 196608;
            lemma_tdiv_basics((sin_h as int) * (SCALE as int), cos_h as int);
            vstd::arithmetic::div_mod::lemma_div_is_ordered_by_denominator(
                196608 * (SCALE as int),
                16384,
                cos_h as int,
            );
        }
        let h: i64 = div_fx(sin_h, cos_h);
        let viewport_height: i64 = 2 * h;
        proof {
            lemma_fxmul_bound(aspect_ratio as int, viewport_height as int, 0x80000, 0x180000);
        }
        let viewport_width: i64 = crate::fixed::mul_fx(aspect_ratio, viewport_height);

        let w: Vec3 = look_from.vsub(look_at).unit_vector();
        proof {
            lemma_unit_near_one(spec_sub(look_from, look_at));
            lemma_cross_bound(v_up, w, VUP_MAX as int, UNIT_MAX as int);
        }
        let up_cross_w: Vec3 = cross(v_up, w);
        let u: Vec3 = up_cross_w.unit_vector();
        proof {
            lemma_unit_near_one(up_cross_w);
        }
        let v: Vec3 = cross(w, u);
        proof {
            lemma_cross_bound(w, u, 65538, 65538);
            assert(65538int * 65538int == 4295229444int) by (nonlinear_arith);
            assert(4295229444int / (SCALE as int) == 65540) by {
                vstd::arithmetic::div_mod::lemma_fundamental_div_mod_converse(
                    4295229444int, SCALE as int, 65540, 4,
                );
                assert(65540int * (SCALE as int) + 4 == 4295229444int) by (nonlinear_arith);
            }
            lemma_cross_bound(w, u, UNIT_MAX as int, UNIT_MAX as int);
            lemma_fxmul_bound(u.e0 as int, viewport_width as int, UNIT_MAX as int, 0xC00000);
            lemma_fxmul_bound(u.e1 as int, viewport_width as int, UNIT_MAX as int, 0xC00000);
            lemma_fxmul_bound(u.e2 as int, viewport_width as int, UNIT_MAX as int, 0xC00000);
        }
        let u_scaled: Vec3 = u.vscale(viewport_width);
        proof {
            lemma_fxmul_bound(u_scaled.e0 as int, focus_dist as int, 0x2400000, 0x800000);
            lemma_fxmul_bound(u_scaled.e1 as int, focus_dist as int, 0x2400000, 0x800000);
            lemma_fxmul_bound(u_scaled.e2 as int, focus_dist as int, 0x2400000, 0x800000);
        }
        let horizontal: Vec3 = u_scaled.vscale(focus_dist);
        proof {
            lemma_fxmul_bound(v.e0 as int, viewport_height as int, 0x120000, 0x180000);
            lemma_fxmul_bound(v.e1 as int, viewport_height as int, 0x120000, 0x180000);
            lemma_fxmul_bound(v.e2 as int, viewport_height as int, 0x120000, 0x180000);
        }
        let v_scaled: Vec3 = v.vscale(viewport_height);
        proof {
            lemma_fxmul_bound(v_scaled.e0 as int, focus_dist as int, 0x1B00000, 0x800000);
            lemma_fxmul_bound(v_scaled.e1 as int, focus_dist as int, 0x1B00000, 0x800000);
            lemma_fxmul_bound(v_scaled.e2 as int, focus_dist as int, 0x1B00000, 0x800000);
        }
        let vertical: Vec3 = v_scaled.vscale(focus_dist);

        let origin: Point3 = look_from;
        proof {
            lemma_tdiv_bound(horizontal.e0 as int * (SCALE as int), 2 * (SCALE as int),
                (CAM_VEC_MAX as int) * (SCALE as int));
            lemma_tdiv_bound(horizontal.e1 as int * (SCALE as int), 2 * (SCALE as int),
                (CAM_VEC_MAX as int) * (SCALE as int));
            lemma_tdiv_bound(horizontal.e2 as int * (SCALE as int), 2 * (SCALE as int),
                (CAM_VEC_MAX as int) * (SCALE as int));
            lemma_tdiv_bound(vertical.e0 as int * (SCALE as int), 2 * (SCALE as int),
                (CAM_VEC_MAX as int) * (SCALE as int));
            lemma_tdiv_bound(vertical.e1 as int * (SCALE as int), 2 * (SCALE as int),
                (CAM_VEC_MAX as int) * (SCALE as int));
            lemma_tdiv_bound(vertical.e2 as int * (SCALE as int), 2 * (SCALE as int),
                (CAM_VEC_MAX as int) * (SCALE as int));
            lemma_abs_mul_scale(horizontal.e0 as int, CAM_VEC_MAX as int);
            lemma_abs_mul_scale(horizontal.e1 as int, CAM_VEC_MAX as int);
            lemma_abs_mul_scale(horizontal.e2 as int, CAM_VEC_MAX as int);
            lemma_abs_mul_scale(vertical.e0 as int, CAM_VEC_MAX as int);
            lemma_abs_mul_scale(vertical.e1 as int, CAM_VEC_MAX as int);
            lemma_abs_mul_scale(vertical.e2 as int, CAM_VEC_MAX as int);
            lemma_fxmul_bound(w.e0 as int, focus_dist as int, UNIT_MAX as int, 0x800000);
            lemma_fxmul_bound(w.e1 as int, focus_dist as int, UNIT_MAX as int, 0x800000);
            lemma_fxmul_bound(w.e2 as int, focus_dist as int, UNIT_MAX as int, 0x800000);
        }
        let half_h: Vec3 = horizontal.vdivs(2 * SCALE);
        let half_v: Vec3 = vertical.vdivs(2 * SCALE);
        let w_focus: Vec3 = w.vscale(focus_dist);
        let lower_left_corner: Point3 = origin.vsub(half_h).vsub(half_v).vsub(w_focus);

        let lens_radius: i64 = aperture / 2;
        proof {
            lemma_tdiv_basics(aperture as int, 2);
        }
        Camera {
            origin,
            lower_left_corner,
            horizontal,
            vertical,
            u,
            v,
            w,
            lens_radius,
        }
    }

    /// Produce the camera ray for normalized image coordinates `(s, t)`,
    /// jittered within the aperture by a random lens sample. The result
    /// is exactly the ray of `spec_get_ray` for some sample in the unit
    /// disk, with origin and direction within the intersection bounds.
    #[verifier::rlimit(80)]
    pub fn get_ray(&self, s: i64, t: i64) -> (r: Ray)
        requires
            camera_wf(*self),
            -98304 <= s <= 98304,
            -98304 <= t <= 98304,
        ensures
            exists|rd: Vec3| {
                &&& #[trigger] sdot(rd, rd) < SCALE as int
                &&& in_range(rd, SCALE as int)
                &&& rd.e2 == 0
                &&& r == spec_get_ray(*self, s as int, t as int, rd)
            },
            in_range(r.orig, COORD_MAX as int),
            in_range(r.dir, DIR_MAX as int),
            in_range(spec_sub(r.orig, self.origin), 3 * (self.lens_radius as int) + 160),
            self.lens_radius == 0 ==> r.orig == self.origin,
    {
        let rd_sample: Vec3 = Vec3::random_in_unit_disk();
        proof {
            lemma_fxmul_bound(rd_sample.e0 as int, self.lens_radius as int,
                SCALE as int, 0x100000);
            lemma_fxmul_bound(rd_sample.e1 as int, self.lens_radius as int,
                SCALE as int, 0x100000);
            lemma_fxmul_bound(rd_sample.e2 as int, self.lens_radius as int,
                SCALE as int, 0x100000);
        }
        let rd: Vec3 = rd_sample.vscale(self.lens_radius);
        proof {
            lemma_lens_scale(rd_sample.e0 as int, self.lens_radius as int);
            lemma_lens_scale(rd_sample.e1 as int, self.lens_radius as int);
            lemma_offset_term_u(self.u.e0 as int, rd.e0 as int, self.lens_radius as int);
            lemma_offset_term_u(self.u.e1 as int, rd.e0 as int, self.lens_radius as int);
            lemma_offset_term_u(self.u.e2 as int, rd.e0 as int, self.lens_radius as int);
            lemma_offset_term_v(self.v.e0 as int, rd.e1 as int, self.lens_radius as int);
            lemma_offset_term_v(self.v.e1 as int, rd.e1 as int, self.lens_radius as int);
            lemma_offset_term_v(self.v.e2 as int, rd.e1 as int, self.lens_radius as int);
            if self.lens_radius == 0 {
                lemma_scale_zero(rd_sample);
                lemma_scale_zero(self.u);
                lemma_scale_zero(self.v);
            }
        }
        let offset: Vec3 = self.u.vscale(rd.x()).vadd(self.v.vscale(rd.y()));
        let base: Vec3 = self.lower_left_corner.vsub(self.origin);
        proof {
            lemma_fxmul_bound(self.horizontal.e0 as int, s as int, CAM_VEC_MAX as int, 98304);
            lemma_fxmul_bound(self.horizontal.e1 as int, s as int, CAM_VEC_MAX as int, 98304);
            lemma_fxmul_bound(self.horizontal.e2 as int, s as int, CAM_VEC_MAX as int, 98304);
            lemma_fxmul_bound(self.vertical.e0 as int, t as int, CAM_VEC_MAX as int, 98304);
            lemma_fxmul_bound(self.vertical.e1 as int, t as int, CAM_VEC_MAX as int, 98304);
            lemma_fxmul_bound(self.vertical.e2 as int, t as int, CAM_VEC_MAX as int, 98304);
        }
        let h_step: Vec3 = self.horizontal.vscale(s);
        let v_step: Vec3 = self.vertical.vscale(t);
        let dir: Vec3 = base.vadd(h_step).vadd(v_step).vsub(offset);
        let orig: Point3 = self.origin.vadd(offset);
        let r: Ray = Ray::from(orig, dir);
        proof {
            assert(sdot(rd_sample, rd_sample) < SCALE as int
                && in_range(rd_sample, SCALE as int)
                && rd_sample.e2 == 0
                && r == spec_get_ray(*self, s as int, t as int, rd_sample));
        }
        r
    }
}

/// One term of the defocus offset: a near-unit basis component times a
/// value within the lens radius stays within the lens radius plus a
/// rounding margin.
proof fn lemma_offset_term_u(a: int, b: int, lr: int)
    requires
        absi(a) <= 65538,
        absi(b) <= lr,
        0 <= lr <= 0x100000,
    ensures
        absi(fxmul(a, b)) <= lr + 32,
    decreases 0int,
{
    lemma_fxmul_bound(a, b, 65538, lr);
    assert(65538 * lr <= (SCALE as int) * (lr + 32)) by (nonlinear_arith)
        requires 0 <= lr <= 0x100000;
    vstd::arithmetic::div_mod::lemma_div_is_ordered(
        65538 * lr,
        (SCALE as int) * (lr + 32),
        SCALE as int,
    );
    vstd::arithmetic::div_mod::lemma_div_multiples_vanish(lr + 32, SCALE as int);
    assert((lr + 32) * (SCALE as int) == (SCALE as int) * (lr + 32)) by (nonlinear_arith);
}

/// The same for the second basis vector, whose components stay within
/// two units plus rounding.
proof fn lemma_offset_term_v(a: int, b: int, lr: int)
    requires
        absi(a) <= 131080,
        absi(b) <= lr,
        0 <= lr <= 0x100000,
    ensures
        absi(fxmul(a, b)) <= 2 * lr + 128,
    decreases 0int,
{
    lemma_fxmul_bound(a, b, 131080, lr);
    assert(131080 * lr <= (SCALE as int) * (2 * lr + 128)) by (nonlinear_arith)
        requires 0 <= lr <= 0x100000;
    vstd::arithmetic::div_mod::lemma_div_is_ordered(
        131080 * lr,
        (SCALE as int) * (2 * lr + 128),
        SCALE as int,
    );
    vstd::arithmetic::div_mod::lemma_div_multiples_vanish(2 * lr + 128, SCALE as int);
    assert((2 * lr + 128) * (SCALE as int) == (SCALE as int) * (2 * lr + 128))
        by (nonlinear_arith);
}

/// The lens sample scaled by the radius stays within the radius.
proof fn lemma_lens_scale(a: int, lr: int)
    requires
        absi(a) <= SCALE as int,
        0 <= lr,
    ensures
        absi(fxmul(a, lr)) <= lr,
    decreases 0int,
{
    lemma_fxmul_bound(a, lr, SCALE as int, lr);
    assert((SCALE as int) * lr == lr * (SCALE as int)) by (nonlinear_arith);
    vstd::arithmetic::div_mod::lemma_div_multiples_vanish(lr, SCALE as int);
}

/// Components of a cross product of vectors bounded by `ma` and `mb`
/// stay within `2 * ma * mb / SCALE`.
proof fn lemma_cross_bound(a: Vec3, b: Vec3, ma: int, mb: int)
    requires
        in_range(a, ma),
        in_range(b, mb),
        0 <= ma,
        0 <= mb,
    ensures
        in_range(spec_cross(a, b), 2 * (ma * mb / (SCALE as int))),
    decreases 0int,
{
    lemma_fxmul_bound(a.e1 as int, b.e2 as int, ma, mb);
    lemma_fxmul_bound(a.e2 as int, b.e1 as int, ma, mb);
    lemma_fxmul_bound(a.e2 as int, b.e0 as int, ma, mb);
    lemma_fxmul_bound(a.e0 as int, b.e2 as int, ma, mb);
    lemma_fxmul_bound(a.e0 as int, b.e1 as int, ma, mb);
    lemma_fxmul_bound(a.e1 as int, b.e0 as int, ma, mb);
}

/// `|x * SCALE| == |x| * SCALE`, to feed quotient bounds.
proof fn lemma_abs_mul_scale(x: int, m: int)
    requires
        absi(x) <= m,
    ensures
        absi(x * (SCALE as int)) <= m * (SCALE as int),
    decreases 0int,
{
    assert(absi(x * (SCALE as int)) == absi(x) * (SCALE as int)) by (nonlinear_arith);
    assert(absi(x) * (SCALE as int) <= m * (SCALE as int)) by (nonlinear_arith)
        requires absi(x) <= m;
}


} // verus!
