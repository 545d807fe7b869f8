use raytracer::{
    Vec3, Ray, Sphere, HitRecord, HittableList, Material, Lambertian, Metal, Dielectric,
    Camera, Image, Pixel, SCALE, INFINITY, dot, refract, ray_colour, rescale_colour,
    vfov_usable, create_image,
};

fn grey() -> Material {
    Material::Lambertian(Lambertian::from(Vec3::from(SCALE / 2, SCALE / 2, SCALE / 2)))
}

#[test]
fn ray_evaluation() {
    let r = Ray::from(Vec3::from(SCALE, 0, 0), Vec3::from(0, 0, -SCALE));
    let p = r.at(2 * SCALE);
    assert_eq!((p.x(), p.y(), p.z()), (SCALE, 0, -2 * SCALE));
    assert_eq!(r.origin().x(), SCALE);
    assert_eq!(r.direction().z(), -SCALE);
}

#[test]
fn sphere_hit_from_outside() {
    // Unit-radius-half sphere one unit down the -z axis, viewed from the origin.
    let s = Sphere::from(Vec3::from(0, 0, -SCALE), SCALE / 2, grey());
    let r = Ray::from(Vec3::from(0, 0, 0), Vec3::from(0, 0, -SCALE));
    let mut rec = HitRecord::new();
    let hit = s.hit(r, 66, INFINITY, &mut rec);
    assert!(hit);
    assert_eq!(rec.t, 32768); // the closer root, at half a unit
    assert_eq!((rec.p.x(), rec.p.y(), rec.p.z()), (0, 0, -32768));
    assert_eq!((rec.normal.x(), rec.normal.y(), rec.normal.z()), (0, 0, SCALE));
    assert!(rec.front_face);
    // the oriented normal points against the ray
    assert!(dot(rec.normal, r.direction()) <= 0);
}

#[test]
fn sphere_hit_from_inside_takes_the_far_root() {
    let s = Sphere::from(Vec3::from(0, 0, -SCALE), SCALE / 2, grey());
    let r = Ray::from(Vec3::from(0, 0, -SCALE), Vec3::from(0, 0, -SCALE));
    let mut rec = HitRecord::new();
    let hit = s.hit(r, 66, INFINITY, &mut rec);
    assert!(hit);
    assert_eq!(rec.t, 32768);
    assert!(!rec.front_face);
    assert_eq!((rec.normal.x(), rec.normal.y(), rec.normal.z()), (0, 0, SCALE));
}

#[test]
fn sphere_miss_leaves_the_record_alone() {
    let s = Sphere::from(Vec3::from(0, 0, -SCALE), SCALE / 2, grey());
    let r = Ray::from(Vec3::from(0, 0, 0), Vec3::from(0, SCALE, 0));
    let mut rec = HitRecord::new();
    let before = rec;
    assert!(!s.hit(r, 66, INFINITY, &mut rec));
    assert!(rec == before);
}

#[test]
fn sphere_respects_the_search_window() {
    let s = Sphere::from(Vec3::from(0, 0, -SCALE), SCALE / 2, grey());
    let r = Ray::from(Vec3::from(0, 0, 0), Vec3::from(0, 0, -SCALE));
    let mut rec = HitRecord::new();
    // both roots (0.5 and 1.5 units) lie beyond a window that ends at 0.25
    assert!(!s.hit(r, 66, SCALE / 4, &mut rec));
    // a window opening past the first root finds the second
    assert!(s.hit(r, 40000, INFINITY, &mut rec));
    assert_eq!(rec.t, 98304);
}

#[test]
fn tangent_ray_with_zero_discriminant_still_reports_the_touch() {
    // A ray grazing the sphere: the discriminant is exactly zero and the
    // single root is accepted; the contact is tangential, so the ray
    // does not point against the outward normal and counts as back-face.
    let s = Sphere::from(Vec3::from(0, 0, -SCALE), SCALE / 2, grey());
    let r = Ray::from(Vec3::from(SCALE / 2, 0, 0), Vec3::from(0, 0, -SCALE));
    let mut rec = HitRecord::new();
    assert!(s.hit(r, 66, INFINITY, &mut rec));
    assert_eq!(rec.t, SCALE);
    assert_eq!((rec.p.x(), rec.p.y(), rec.p.z()), (SCALE / 2, 0, -SCALE));
    assert!(!rec.front_face);
    assert_eq!((rec.normal.x(), rec.normal.y(), rec.normal.z()), (-SCALE, 0, 0));
}

#[test]
fn face_normal_orientation() {
    let r = Ray::from(Vec3::from(0, 0, 0), Vec3::from(0, 0, -SCALE));
    let mut rec = HitRecord::new();
    rec.set_face_normal(r, Vec3::from(0, 0, SCALE));
    assert!(rec.front_face);
    assert_eq!(rec.normal.z(), SCALE);
    rec.set_face_normal(r, Vec3::from(0, 0, -SCALE));
    assert!(!rec.front_face);
    assert_eq!(rec.normal.z(), SCALE);
    assert!(dot(rec.normal, r.direction()) <= 0);
}

#[test]
fn scene_returns_the_nearest_hit_in_either_order() {
    let near = Sphere::from(Vec3::from(0, 0, -2 * SCALE), SCALE / 2, grey());
    let far = Sphere::from(Vec3::from(0, 0, -4 * SCALE), SCALE / 2, grey());
    let r = Ray::from(Vec3::from(0, 0, 0), Vec3::from(0, 0, -SCALE));

    let mut world = HittableList::new();
    world.add(near);
    world.add(far);
    let mut rec = HitRecord::new();
    assert!(world.hit(r, 66, INFINITY, &mut rec));
    assert_eq!(rec.t, 98304); // 1.5 units: the near sphere's surface

    let mut reversed = HittableList::new();
    reversed.add(far);
    reversed.add(near);
    let mut rec2 = HitRecord::new();
    assert!(reversed.hit(r, 66, INFINITY, &mut rec2));
    assert_eq!(rec2.t, 98304);
}

#[test]
fn empty_scene_never_hits() {
    let world = HittableList::new();
    let r = Ray::from(Vec3::from(0, 0, 0), Vec3::from(0, 0, -SCALE));
    let mut rec = HitRecord::new();
    assert!(!world.hit(r, 66, INFINITY, &mut rec));
}

#[test]
fn lambertian_keeps_albedo_and_origin() {
    let albedo = Vec3::from(SCALE / 4, SCALE / 2, SCALE);
    let mat = Lambertian::from(albedo);
    let mut rec = HitRecord::new();
    rec.p = Vec3::from(SCALE, 2 * SCALE, 3 * SCALE);
    rec.normal = Vec3::from(0, SCALE, 0);
    let r_in = Ray::from(Vec3::from(0, 0, 0), Vec3::from(0, -SCALE, 0));
    for _ in 0..16 {
        let (att, scattered) = mat.scatter(r_in, &rec).expect("lambertian always scatters");
        assert!(att == albedo);
        assert!(scattered.origin() == rec.p);
    }
}

#[test]
fn polished_metal_mirrors_exactly() {
    let albedo = Vec3::from(SCALE, SCALE, SCALE);
    let mat = Metal::from(albedo, 0);
    let mut rec = HitRecord::new();
    rec.normal = Vec3::from(0, SCALE, 0);
    let r_in = Ray::from(Vec3::from(0, 0, 0), Vec3::from(SCALE, -SCALE, 0));
    let (att, scattered) = mat.scatter(r_in, &rec).expect("grazing reflection survives");
    assert!(att == albedo);
    let d = scattered.direction();
    assert_eq!((d.x(), d.y(), d.z()), (46341, 46341, 0));
}

#[test]
fn metal_clamps_fuzz_to_one() {
    let m = Metal::from(Vec3::from(SCALE, SCALE, SCALE), 3 * SCALE);
    assert_eq!(m.fuzz, SCALE);
    let m2 = Metal::from(Vec3::from(SCALE, SCALE, SCALE), 100);
    assert_eq!(m2.fuzz, 100);
}

#[test]
fn metal_absorbs_rays_scattered_into_the_surface() {
    // Incoming along the normal from below: the mirror direction points
    // into the surface, so the polished metal absorbs it.
    let mat = Metal::from(Vec3::from(SCALE, SCALE, SCALE), 0);
    let mut rec = HitRecord::new();
    rec.normal = Vec3::from(0, SCALE, 0);
    let r_in = Ray::from(Vec3::from(0, 0, 0), Vec3::from(0, SCALE, 0));
    assert!(mat.scatter(r_in, &rec).is_none());
}

#[test]
fn dielectric_with_unit_index_does_not_bend_light() {
    let mat = Dielectric::from(SCALE);
    let mut rec = HitRecord::new();
    rec.normal = Vec3::from(0, 0, SCALE);
    rec.front_face = true;
    let r_in = Ray::from(Vec3::from(0, 0, 0), Vec3::from(0, 0, -SCALE));
    for _ in 0..16 {
        let (att, scattered) = mat.scatter(r_in, &rec).expect("glass always scatters");
        assert_eq!((att.x(), att.y(), att.z()), (SCALE, SCALE, SCALE));
        let d = scattered.direction();
        assert_eq!((d.x(), d.y(), d.z()), (0, 0, -SCALE));
    }
}

#[test]
fn refraction_identity_on_axis() {
    let uv = Vec3::from(0, 0, -SCALE);
    let n = Vec3::from(0, 0, SCALE);
    let out = refract(uv, n, SCALE);
    assert_eq!((out.x(), out.y(), out.z()), (0, 0, -SCALE));
}

#[test]
fn total_internal_reflection_forces_a_mirror() {
    // Leaving glass at a shallow angle: Snell's law has no solution, so
    // the dielectric must reflect, deterministically.
    let mat = Dielectric::from(98304); // index 1.5
    let mut rec = HitRecord::new();
    rec.normal = Vec3::from(0, 0, SCALE);
    rec.front_face = false;
    let r_in = Ray::from(Vec3::from(0, 0, 0), Vec3::from(4 * SCALE, 0, -SCALE));
    for _ in 0..8 {
        let (_, scattered) = mat.scatter(r_in, &rec).expect("glass always scatters");
        let d = scattered.direction();
        assert_eq!((d.x(), d.y(), d.z()), (63579, 0, 15894));
    }
}

#[test]
fn schlick_reflectance_at_normal_incidence() {
    // cos = 1, ir = 1: no reflection at all.
    assert_eq!(Dielectric::reflectance(SCALE, SCALE), 0);
}

#[test]
fn depth_exhaustion_returns_black() {
    let mut world = HittableList::new();
    world.add(Sphere::from(Vec3::from(0, 0, -SCALE), SCALE / 2, grey()));
    let r = Ray::from(Vec3::from(0, 0, 0), Vec3::from(0, 0, -SCALE));
    let c = ray_colour(r, &world, 0);
    assert_eq!((c.x(), c.y(), c.z()), (0, 0, 0));
}

#[test]
fn missing_everything_yields_the_background_gradient() {
    let world = HittableList::new();
    // straight up: the zenith colour, exactly sky blue
    let up = Ray::from(Vec3::from(0, 0, 0), Vec3::from(0, 1048576, 0));
    let c = ray_colour(up, &world, 5);
    assert_eq!((c.x(), c.y(), c.z()), (32768, 45875, SCALE));
    // straight down: the horizon colour, exactly white
    let down = Ray::from(Vec3::from(0, 0, 0), Vec3::from(0, -1048576, 0));
    let c2 = ray_colour(down, &world, 5);
    assert_eq!((c2.x(), c2.y(), c2.z()), (SCALE, SCALE, SCALE));
}

#[test]
fn centre_of_a_single_sphere_scene_differs_from_the_edges() {
    let mut world = HittableList::new();
    world.add(Sphere::from(Vec3::from(0, 0, -SCALE), SCALE / 2, grey()));
    // the centre ray hits and, with a depth budget of one, comes out black
    let centre = ray_colour(
        Ray::from(Vec3::from(0, 0, 0), Vec3::from(0, 0, -SCALE)),
        &world,
        1,
    );
    assert_eq!((centre.x(), centre.y(), centre.z()), (0, 0, 0));
    // an edge ray misses and shows the sky
    let edge = ray_colour(
        Ray::from(Vec3::from(0, 0, 0), Vec3::from(0, 1048576, 0)),
        &world,
        1,
    );
    assert!(edge.z() == SCALE && edge.x() > 0);
    assert!((edge.x(), edge.y(), edge.z()) != (centre.x(), centre.y(), centre.z()));
}

#[test]
fn rescaling_pixels_gamma_corrects_and_clamps() {
    let full = rescale_colour(Vec3::from(SCALE, SCALE, SCALE), 1);
    assert_eq!(full, (255, 255, 255));
    let quarter = rescale_colour(Vec3::from(SCALE / 4, SCALE / 4, SCALE / 4), 1);
    assert_eq!(quarter, (128, 128, 128));
    let black = rescale_colour(Vec3::from(0, 0, 0), 1);
    assert_eq!(black, (0, 0, 0));
    // averaging: four samples summing to one unit is a quarter unit
    let averaged = rescale_colour(Vec3::from(SCALE, SCALE, SCALE), 4);
    assert_eq!(averaged, (128, 128, 128));
}

#[test]
fn pixels_and_images_hold_their_values() {
    let p = Pixel::from(12, 34, 56);
    assert_eq!(p.to_tuple(), (12, 34, 56));
    let z = Pixel::new();
    assert_eq!(z.to_tuple(), (0, 0, 0));
    let mut im = Image::new(4, 3);
    assert_eq!(im.width, 4);
    assert_eq!(im.height, 3);
    im.set_pixel(2, 1, p);
    assert_eq!(im.get_pixel(2, 1).to_tuple(), (12, 34, 56));
    assert_eq!(im.get_pixel(0, 0).to_tuple(), (0, 0, 0));
}

#[test]
fn camera_with_closed_aperture_shoots_from_its_origin() {
    assert!(vfov_usable(90 * SCALE));
    assert!(!vfov_usable(0));
    assert!(!vfov_usable(179 * SCALE));
    let cam = Camera::from(
        Vec3::from(0, 0, 0),
        Vec3::from(0, 0, -SCALE),
        Vec3::from(0, SCALE, 0),
        90 * SCALE,
        SCALE,
        0,
        SCALE,
    );
    let r = cam.get_ray(32768, 32768);
    assert_eq!((r.origin().x(), r.origin().y(), r.origin().z()), (0, 0, 0));
    // the central ray looks down -z
    assert!(r.direction().z() < 0);
}

#[test]
fn open_aperture_offsets_the_ray_origin_within_the_lens() {
    let cam = Camera::from(
        Vec3::from(0, 0, 0),
        Vec3::from(0, 0, -SCALE),
        Vec3::from(0, SCALE, 0),
        90 * SCALE,
        SCALE,
        6554, // aperture 0.1, lens radius 0.05
        SCALE,
    );
    let lens_radius = 6554 / 2;
    let bound = 3 * lens_radius + 160;
    for _ in 0..32 {
        let r = cam.get_ray(32768, 32768);
        let o = r.origin();
        assert!(o.x().abs() <= bound && o.y().abs() <= bound && o.z().abs() <= bound);
    }
}

#[test]
fn rendering_a_small_image_yields_valid_pixels() {
    let mut world = HittableList::new();
    world.add(Sphere::from(Vec3::from(0, 0, -SCALE), SCALE / 2, grey()));
    let cam = Camera::from(
        Vec3::from(0, 0, 0),
        Vec3::from(0, 0, -SCALE),
        Vec3::from(0, SCALE, 0),
        90 * SCALE,
        SCALE,
        0,
        SCALE,
    );
    let im = create_image(&cam, &world, 2, 4, 4);
    assert_eq!(im.width, 4);
    assert_eq!(im.height, 4);
    for row in 0..4 {
        for col in 0..4 {
            let (r, g, b) = im.get_pixel(row, col).to_tuple();
            assert!(0 <= r && r <= 255);
            assert!(0 <= g && g <= 255);
            assert!(0 <= b && b <= 255);
        }
    }
}
