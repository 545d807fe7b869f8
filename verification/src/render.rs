//! The radiance estimator and the per-pixel sampling loop.

use vstd::prelude::*;
use crate::fixed::{
    SCALE, tdiv, fxmul, lemma_tdiv_basics, lemma_fxmul_scale,
};
use crate::utils::{spec_clamp, clamp, random_fx, INFINITY};
use crate::vec3::{
    Vec3, Colour, in_range, sdot, spec_add, spec_scale, spec_cmul, spec_unit,
    dot, unit_vector,
};
use crate::ray::Ray;
use crate::hittable::{HitRecord, COORD_MAX, DIR_MAX};
use crate::material::{colour_wf, spec_attenuation};
use crate::hittable_list::{HittableList, scene_wf, scene_hit, lemma_scene_hit_index};
use crate::camera::{Camera, camera_wf, spec_get_ray};
use crate::colour::{rescale_colour, spec_rescale_channel};
use crate::image::{Image, Pixel, image_wf};

verus! {

/// The lower ray-parameter cutoff: keeps bounced rays from re-hitting
/// the surface they just left (shadow acne). About 0.001.
pub const T_MIN_EPS: i64 = 66;

/// Bounce budget of the radiance estimator.
pub const MAX_DEPTH: i32 = 50;

/// The sky: a vertical gradient from white at the horizon to sky blue at
/// the zenith, parameterized by the y component of the unit direction
/// (clamped into `[0, 1]` against fixed-point overshoot of the
/// normalization).
pub open spec fn spec_background(dir: Vec3) -> Colour {
    let t = spec_clamp(tdiv(spec_unit(dir).e1 + (SCALE as int), 2), 0, SCALE as int);
    spec_add(
        spec_scale(Colour { e0: SCALE, e1: SCALE, e2: SCALE }, (SCALE as int) - t),
        spec_scale(Colour { e0: 32768i64, e1: 45875i64, e2: SCALE }, t),
    )
}

/// The fixed-point product of two values in `[0, 1]` stays in `[0, 1]`.
proof fn lemma_channel_mul(x: int, y: int)
    requires
        0 <= x <= SCALE as int,
        0 <= y <= SCALE as int,
    ensures
        0 <= fxmul(x, y) <= SCALE as int,
    decreases 0int,
{
    assert(0 <= x * y <= (SCALE as int) * (SCALE as int)) by (nonlinear_arith)
        requires 0 <= x <= SCALE as int, 0 <= y <= SCALE as int;
    lemma_tdiv_basics(x * y, SCALE as int);
    vstd::arithmetic::div_mod::lemma_div_is_ordered(
        x * y,
        (SCALE as int) * (SCALE as int),
        SCALE as int,
    );
    vstd::arithmetic::div_mod::lemma_div_multiples_vanish(SCALE as int, SCALE as int);
}

/// The background gradient is a valid colour.
proof fn lemma_background_wf(dir: Vec3)
    ensures
        colour_wf(spec_background(dir)),
    decreases 0int,
{
    let t = spec_clamp(tdiv(spec_unit(dir).e1 + (SCALE as int), 2), 0, SCALE as int);
    lemma_fxmul_scale((SCALE as int) - t);
    lemma_fxmul_scale(t);
    lemma_channel_mul(32768, t);
    lemma_channel_mul(45875, t);
    lemma_channel_mul(SCALE as int, t);
}

/// Pure black.
pub open spec fn spec_black() -> Colour {
    Colour { e0: 0i64, e1: 0i64, e2: 0i64 }
}

/// Everything the radiance estimator promises of one estimate `c` for
/// the ray `r` at the given depth budget, over every random outcome:
/// a valid colour; black at an exhausted budget; exactly the background
/// gradient on a miss; and on a hit either black (the ray was absorbed,
/// or its scattered successor left the representable range) or the
/// winning material's attenuation times some valid colour — the
/// recursive estimate of the scattered ray.
pub open spec fn estimate_ok(world: HittableList, r: Ray, depth: int, c: Colour) -> bool {
    &&& colour_wf(c)
    &&& (depth <= 0 ==> c == spec_black())
    &&& (depth > 0 && !(scene_hit(world, r, T_MIN_EPS as int, INFINITY as int) is Some)
        ==> c == spec_background(r.dir))
    &&& (depth > 0 ==> (scene_hit(world, r, T_MIN_EPS as int, INFINITY as int) matches Some(win)
        ==> (c == spec_black()
            || exists|sub: Colour| #[trigger] colour_wf(sub)
                && c == spec_cmul(spec_attenuation(world.objects@[win.0].material), sub))))
}

/// The recursive Monte Carlo radiance estimate of a ray.
///
/// Exact on its deterministic paths: an exhausted depth budget yields
/// black, a ray that misses the whole scene yields exactly the
/// background gradient. On a hit the material decides: absorption yields
/// black, scattering recurses and attenuates, and a scattered ray that
/// leaves the representable range (impossible for ordinary scenes)
/// counts as absorbed. Every outcome is a valid colour with channels in
/// `[0, 1]`.
pub fn ray_colour(r: Ray, world: &HittableList, depth: i32) -> (c: Colour)
    requires
        scene_wf(*world),
        in_range(r.orig, COORD_MAX as int),
        in_range(r.dir, DIR_MAX as int),
        sdot(r.dir, r.dir) >= 1,
    ensures
        estimate_ok(*world, r, depth as int, c),
    decreases depth,
{
    if depth <= 0 {
        return Vec3::new();
    }

    let mut rec: HitRecord = HitRecord::new();
    if world.hit(r, T_MIN_EPS, INFINITY, &mut rec) {
        proof {
            lemma_scene_hit_index(*world, r, T_MIN_EPS as int, INFINITY as int);
            let i = choose|i: int|
                0 <= i < world.objects@.len()
                && scene_hit(*world, r, T_MIN_EPS as int, INFINITY as int)
                    == Some((i, rec.t as int))
                && #[trigger] crate::sphere::matches_hit(rec, world.objects@[i], r, rec.t as int);
            assert(rec.material == world.objects@[i].material);
        }
        match rec.material.scatter(r, &rec) {
            Some(sc) => {
                let (attenuation, scattered): (Colour, Ray) = sc;
                let d = scattered.direction();
                let within: bool = -DIR_MAX <= d.e0 && d.e0 <= DIR_MAX
                    && -DIR_MAX <= d.e1 && d.e1 <= DIR_MAX
                    && -DIR_MAX <= d.e2 && d.e2 <= DIR_MAX;
                if within {
                    let d2: i64 = dot(d, d);
                    if d2 >= 1 {
                        let sub: Colour = ray_colour(scattered, world, depth - 1);
                        proof {
                            lemma_channel_mul(attenuation.e0 as int, sub.e0 as int);
                            lemma_channel_mul(attenuation.e1 as int, sub.e1 as int);
                            lemma_channel_mul(attenuation.e2 as int, sub.e2 as int);
                        }
                        let out: Colour = attenuation.vmul(sub);
                        proof {
                            assert(colour_wf(sub)
                                && out == spec_cmul(spec_attenuation(rec.material), sub));
                        }
                        return out;
                    }
                }
                Vec3::new()
            },
            None => Vec3::new(),
        }
    } else {
        let unit_direction: Vec3 = unit_vector(r.direction());
        let t0: i64 = (unit_direction.y() + SCALE) / 2;
        let t: i64 = clamp(t0, 0, SCALE);
        proof {
            lemma_fxmul_scale((SCALE as int) - t);
            lemma_fxmul_scale(t as int);
            lemma_channel_mul(32768, t as int);
            lemma_channel_mul(45875, t as int);
            lemma_channel_mul(SCALE as int, t as int);
            lemma_background_wf(r.dir);
        }
        let white: Colour = Vec3::from(SCALE, SCALE, SCALE);
        let blue: Colour = Vec3::from(32768, 45875, SCALE);
        white.vscale(SCALE - t).vadd(blue.vscale(t))
    }
}

/// What one per-pixel radiance sample is: for some jitter pair and some
/// lens sample, `c` is an estimate of the camera ray through the
/// jittered pixel coordinates — exactly the background on a miss,
/// black for a degenerate ray, black or attenuated on a hit.
pub open spec fn pixel_sample_ok(
    camera: Camera,
    world: HittableList,
    i: int,
    j: int,
    width: int,
    height: int,
    c: Colour,
) -> bool {
    exists|ju: int, jv: int, rd: Vec3|
        #![trigger spec_get_ray(camera, tdiv(i * (SCALE as int) + ju, width - 1),
            tdiv(j * (SCALE as int) + jv, height - 1), rd)]
        {
            let u = tdiv(i * (SCALE as int) + ju, width - 1);
            let v = tdiv(j * (SCALE as int) + jv, height - 1);
            let ray = spec_get_ray(camera, u, v, rd);
            &&& 0 <= ju < SCALE as int
            &&& 0 <= jv < SCALE as int
            &&& sdot(rd, rd) < SCALE as int
            &&& in_range(rd, SCALE as int)
            &&& rd.e2 == 0
            &&& (sdot(ray.dir, ray.dir) < 1 ==> c == spec_black())
            &&& (sdot(ray.dir, ray.dir) >= 1 ==> estimate_ok(world, ray, MAX_DEPTH as int, c))
        }
}

/// One stochastic radiance sample for pixel `(i, j)` of a
/// `width x height` image: jitter the pixel coordinates, ask the camera
/// for the ray, and estimate its radiance. Camera rays whose direction
/// degenerates below the representable threshold contribute black.
pub fn calculate_pixel_colour(
    camera: &Camera,
    world: &HittableList,
    i: i64,
    j: i64,
    width: i64,
    height: i64,
) -> (c: Colour)
    requires
        camera_wf(*camera),
        scene_wf(*world),
        3 <= width <= 65536,
        3 <= height <= 65536,
        0 <= i < width,
        0 <= j < height,
    ensures
        colour_wf(c),
        pixel_sample_ok(*camera, *world, i as int, j as int, width as int, height as int, c),
{
    let ju: i64 = random_fx(0, SCALE);
    let jv: i64 = random_fx(0, SCALE);
    proof {
        lemma_tdiv_basics(i * (SCALE as int) + ju, (width - 1) as int);
        lemma_tdiv_basics(j * (SCALE as int) + jv, (height - 1) as int);
        lemma_pixel_coord(i as int, ju as int, width as int);
        lemma_pixel_coord(j as int, jv as int, height as int);
    }
    let u: i64 = (i * SCALE + ju) / (width - 1);
    let v: i64 = (j * SCALE + jv) / (height - 1);
    let ray: Ray = camera.get_ray(u, v);
    let ghost rd: Vec3 = choose|rd: Vec3| {
        &&& #[trigger] sdot(rd, rd) < SCALE as int
        &&& in_range(rd, SCALE as int)
        &&& rd.e2 == 0
        &&& ray == spec_get_ray(*camera, u as int, v as int, rd)
    };
    let d: Vec3 = ray.direction();
    proof {
        assert(in_range(ray.dir, DIR_MAX as int));
    }
    let d2: i64 = dot(d, d);
    let c: Colour = if d2 >= 1 {
        ray_colour(ray, world, MAX_DEPTH)
    } else {
        Vec3::new()
    };
    proof {
        let gu = tdiv((i as int) * (SCALE as int) + ju, width as int - 1);
        let gv = tdiv((j as int) * (SCALE as int) + jv, height as int - 1);
        assert(gu == u as int && gv == v as int);
        let gray = spec_get_ray(*camera, gu, gv, rd);
        assert(gray == ray);
        assert((sdot(gray.dir, gray.dir) < 1 ==> c == spec_black())
            && (sdot(gray.dir, gray.dir) >= 1
                ==> estimate_ok(*world, gray, MAX_DEPTH as int, c)));
        assert(pixel_sample_ok(*camera, *world, i as int, j as int,
            width as int, height as int, c));
    }
    c
}

/// A jittered normalized pixel coordinate stays within one and a half
/// units for images at least three pixels wide.
proof fn lemma_pixel_coord(i: int, q: int, width: int)
    requires
        3 <= width <= 65536,
        0 <= i < width,
        0 <= q < SCALE as int,
    ensures
        0 <= tdiv(i * (SCALE as int) + q, width - 1) <= 98304,
    decreases 0int,
{
    let num = i * (SCALE as int) + q;
    assert(num >= 0) by (nonlinear_arith)
        requires num == i * (SCALE as int) + q, i >= 0, q >= 0;
    lemma_tdiv_basics(num, width - 1);
    assert(num < (width - 1) * 98305) by (nonlinear_arith)
        requires
            num == i * (SCALE as int) + q,
            0 <= i <= width - 1,
            0 <= q <= (SCALE as int) - 1,
            width >= 3;
    vstd::arithmetic::div_mod::lemma_multiply_divide_lt(num, width - 1, 98305);
}

/// A sum of `n` admissible per-pixel radiance samples for pixel
/// `(col, row)`: zero for no samples, otherwise a previous such sum
/// plus one more admissible sample.
pub open spec fn sample_sum_ok(
    camera: Camera,
    world: HittableList,
    col: int,
    row: int,
    width: int,
    height: int,
    n: int,
    sum: Colour,
) -> bool
    decreases n,
{
    if n <= 0 {
        sum == spec_black()
    } else {
        exists|prev: Colour, smp: Colour|
            #![trigger spec_add(prev, smp)]
        {
            &&& sample_sum_ok(camera, world, col, row, width, height, n - 1, prev)
            &&& colour_wf(smp)
            &&& pixel_sample_ok(camera, world, col, row, width, height, smp)
            &&& sum == spec_add(prev, smp)
        }
    }
}

/// A rendered pixel: the 8-bit rescaling of some sum of `n` admissible
/// radiance samples for its coordinates.
pub open spec fn pixel_rendered(
    camera: Camera,
    world: HittableList,
    width: int,
    height: int,
    n: int,
    row: int,
    col: int,
    p: Pixel,
) -> bool {
    exists|sum: Colour| {
        &&& #[trigger] sample_sum_ok(camera, world, col, row, width, height, n, sum)
        &&& p.r == spec_rescale_channel(sum.e0 as int, n)
        &&& p.g == spec_rescale_channel(sum.e1 as int, n)
        &&& p.b == spec_rescale_channel(sum.e2 as int, n)
    }
}

/// Render the full image: for every pixel accumulate
/// `samples_per_pixel` stochastic radiance samples and rescale the sum
/// into 8-bit RGB. Every pixel of the result is a valid 8-bit triple.
pub fn create_image(
    camera: &Camera,
    world: &HittableList,
    samples_per_pixel: i64,
    width: i64,
    height: i64,
) -> (im: Image)
    requires
        camera_wf(*camera),
        scene_wf(*world),
        3 <= width <= 4096,
        3 <= height <= 4096,
        1 <= samples_per_pixel <= 65536,
    ensures
        image_wf(im),
        im.width == width,
        im.height == height,
        forall|k: int| 0 <= k < im.pixels@.len() ==> {
            &&& 0 <= (#[trigger] im.pixels@[k]).r <= 255
            &&& 0 <= im.pixels@[k].g <= 255
            &&& 0 <= im.pixels@[k].b <= 255
        },
        forall|k: int| 0 <= k < im.pixels@.len() ==> pixel_rendered(
            *camera, *world, width as int, height as int, samples_per_pixel as int,
            k / (width as int), k % (width as int), #[trigger] im.pixels@[k],
        ),
    {
    proof {
        assert((width as int) * (height as int) <= 0x1000000) by (nonlinear_arith)
            requires 3 <= width <= 4096, 3 <= height <= 4096;
    }
    let mut image: Image = Image::new(width as usize, height as usize);
    let mut row: i64 = 0;
    while row < height
        invariant
            camera_wf(*camera),
            scene_wf(*world),
            3 <= width <= 4096,
            3 <= height <= 4096,
            1 <= samples_per_pixel <= 65536,
            0 <= row <= height,
            image_wf(image),
            image.width == width,
            image.height == height,
            forall|k: int| 0 <= k < image.pixels@.len() ==> {
                &&& 0 <= (#[trigger] image.pixels@[k]).r <= 255
                &&& 0 <= image.pixels@[k].g <= 255
                &&& 0 <= image.pixels@[k].b <= 255
            },
            forall|k: int| 0 <= k < (row as int) * (width as int) ==> pixel_rendered(
                *camera, *world, width as int, height as int, samples_per_pixel as int,
                k / (width as int), k % (width as int), #[trigger] image.pixels@[k],
            ),
        decreases height - row,
    {
        let mut col: i64 = 0;
        while col < width
            invariant
                camera_wf(*camera),
                scene_wf(*world),
                3 <= width <= 4096,
                3 <= height <= 4096,
                1 <= samples_per_pixel <= 65536,
                0 <= row < height,
                0 <= col <= width,
                image_wf(image),
                image.width == width,
                image.height == height,
                forall|k: int| 0 <= k < image.pixels@.len() ==> {
                    &&& 0 <= (#[trigger] image.pixels@[k]).r <= 255
                    &&& 0 <= image.pixels@[k].g <= 255
                    &&& 0 <= image.pixels@[k].b <= 255
                },
                forall|k: int| 0 <= k < (row as int) * (width as int) + (col as int)
                    ==> pixel_rendered(
                        *camera, *world, width as int, height as int,
                        samples_per_pixel as int,
                        k / (width as int), k % (width as int), #[trigger] image.pixels@[k],
                    ),
            decreases width - col,
        {
            let mut sum: Colour = Vec3::new();
            let mut s: i64 = 0;
            while s < samples_per_pixel
                invariant
                    camera_wf(*camera),
                    scene_wf(*world),
                    3 <= width <= 4096,
                    3 <= height <= 4096,
                    1 <= samples_per_pixel <= 65536,
                    0 <= row < height,
                    0 <= col < width,
                    0 <= s <= samples_per_pixel,
                    0 <= sum.e0 <= s * (SCALE as int),
                    0 <= sum.e1 <= s * (SCALE as int),
                    0 <= sum.e2 <= s * (SCALE as int),
                    sample_sum_ok(*camera, *world, col as int, row as int,
                        width as int, height as int, s as int, sum),
                decreases samples_per_pixel - s,
            {
                let sample: Colour = calculate_pixel_colour(
                    camera, world, col, row, width, height,
                );
                proof {
                    assert((s + 1) * (SCALE as int) == s * (SCALE as int) + (SCALE as int))
                        by (nonlinear_arith);
                    assert(samples_per_pixel * (SCALE as int) <= 65536 * (SCALE as int))
                        by (nonlinear_arith)
                        requires samples_per_pixel <= 65536;
                    assert(s * (SCALE as int) <= samples_per_pixel * (SCALE as int))
                        by (nonlinear_arith)
                        requires s <= samples_per_pixel;
                }
                let ghost prev_sum: Colour = sum;
                sum = sum.vadd(sample);
                proof {
                    assert(sample_sum_ok(*camera, *world, col as int, row as int,
                        width as int, height as int, s as int, prev_sum)
                        && colour_wf(sample)
                        && pixel_sample_ok(*camera, *world, col as int, row as int,
                            width as int, height as int, sample)
                        && sum == spec_add(prev_sum, sample));
                    assert(sample_sum_ok(*camera, *world, col as int, row as int,
                        width as int, height as int, s as int + 1, sum));
                }
                s = s + 1;
            }
            proof {
                assert(samples_per_pixel * (SCALE as int) <= 0x100000000)
                    by (nonlinear_arith)
                    requires samples_per_pixel <= 65536;
                assert(s * (SCALE as int) <= samples_per_pixel * (SCALE as int))
                    by (nonlinear_arith)
                    requires s <= samples_per_pixel;
            }
            let rgb: (i32, i32, i32) = rescale_colour(sum, samples_per_pixel);
            let ghost before: Seq<Pixel> = image.pixels@;
            let ghost idx: int = (row as usize) * image.width + (col as usize);
            let px: Pixel = Pixel::from(rgb.0, rgb.1, rgb.2);
            let ghost painted: Pixel = px;
            image.set_pixel(row as usize, col as usize, px);
            proof {
                assert(0 <= idx < before.len()) by {
                    assert((row as int) * (width as int) + (col as int)
                        < (width as int) * (height as int)) by (nonlinear_arith)
                        requires
                            0 <= (row as int) < (height as int),
                            0 <= (col as int) < (width as int);
                }
                assert forall|k: int| 0 <= k < image.pixels@.len() implies {
                    &&& 0 <= (#[trigger] image.pixels@[k]).r <= 255
                    &&& 0 <= image.pixels@[k].g <= 255
                    &&& 0 <= image.pixels@[k].b <= 255
                } by {
                    if k != idx {
                        assert(image.pixels@[k] == before[k]);
                    }
                }
                vstd::arithmetic::div_mod::lemma_fundamental_div_mod_converse(
                    idx, width as int, row as int, col as int,
                );
                assert(sample_sum_ok(*camera, *world, col as int, row as int,
                    width as int, height as int, samples_per_pixel as int, sum)
                    && painted.r == spec_rescale_channel(sum.e0 as int, samples_per_pixel as int)
                    && painted.g == spec_rescale_channel(sum.e1 as int, samples_per_pixel as int)
                    && painted.b == spec_rescale_channel(sum.e2 as int, samples_per_pixel as int));
                assert forall|k: int| 0 <= k < idx + 1 implies pixel_rendered(
                    *camera, *world, width as int, height as int, samples_per_pixel as int,
                    k / (width as int), k % (width as int), #[trigger] image.pixels@[k],
                ) by {
                    if k != idx {
                        assert(image.pixels@[k] == before[k]);
                    }
                }
            }
            col = col + 1;
        }
        proof {
            assert((row as int) * (width as int) + (width as int)
                == (row as int + 1) * (width as int)) by (nonlinear_arith);
        }
        row = row + 1;
    }
    proof {
        assert((height as int) * (width as int) == (width as int) * (height as int))
            by (nonlinear_arith);
    }
    image
}

} // verus!
