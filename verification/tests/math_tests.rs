use raytracer::{
    Vec3, SCALE, clamp, degrees_to_radians, random_fx, dot, cross, unit_vector, reflect,
};

#[test]
fn vector_componentwise_arithmetic() {
    let a = Vec3::from(2 * SCALE, -3 * SCALE, SCALE / 2);
    let b = Vec3::from(SCALE, SCALE, SCALE);
    let s = a.vadd(b);
    assert_eq!((s.x(), s.y(), s.z()), (3 * SCALE, -2 * SCALE, SCALE / 2 + SCALE));
    let d = a.vsub(b);
    assert_eq!((d.x(), d.y(), d.z()), (SCALE, -4 * SCALE, SCALE / 2 - SCALE));
    let n = a.vneg();
    assert_eq!((n.x(), n.y(), n.z()), (-2 * SCALE, 3 * SCALE, -SCALE / 2));
}

#[test]
fn fixed_point_products() {
    // 2.0 * 3.0 == 6.0 in each channel
    let a = Vec3::from(2 * SCALE, 2 * SCALE, 2 * SCALE);
    let b = Vec3::from(3 * SCALE, -3 * SCALE, 0);
    let p = a.vmul(b);
    assert_eq!((p.x(), p.y(), p.z()), (6 * SCALE, -6 * SCALE, 0));
    let q = a.vscale(SCALE / 2);
    assert_eq!((q.x(), q.y(), q.z()), (SCALE, SCALE, SCALE));
    let r = a.vdivs(2 * SCALE);
    assert_eq!((r.x(), r.y(), r.z()), (SCALE, SCALE, SCALE));
}

#[test]
fn dot_and_cross_of_axes() {
    let x = Vec3::from(SCALE, 0, 0);
    let y = Vec3::from(0, SCALE, 0);
    let z = Vec3::from(0, 0, SCALE);
    assert_eq!(dot(x, x), SCALE);
    assert_eq!(dot(x, y), 0);
    let c = cross(x, y);
    assert_eq!((c.x(), c.y(), c.z()), (z.x(), z.y(), z.z()));
}

#[test]
fn squared_and_length() {
    let v = Vec3::from(3 * SCALE, 4 * SCALE, 0);
    assert_eq!(v.squared(), 25 * SCALE);
    assert_eq!(v.length(), 5 * SCALE);
}

#[test]
fn normalization_of_a_three_four_five_vector() {
    let v = Vec3::from(3 * SCALE, 4 * SCALE, 0);
    let u = unit_vector(v);
    assert_eq!((u.x(), u.y(), u.z()), (39321, 52428, 0));
    let um = v.unit_vector();
    assert_eq!((um.x(), um.y(), um.z()), (39321, 52428, 0));
}

#[test]
fn near_zero_threshold() {
    assert!(Vec3::from(255, -255, 0).near_zero());
    assert!(!Vec3::from(256, 0, 0).near_zero());
    assert!(!Vec3::from(0, 0, -256).near_zero());
}

#[test]
fn clamp_is_exact() {
    assert_eq!(clamp(5, 0, 10), 5);
    assert_eq!(clamp(-5, 0, 10), 0);
    assert_eq!(clamp(15, 0, 10), 10);
}

#[test]
fn degrees_to_radians_of_half_turn_is_pi() {
    assert_eq!(degrees_to_radians(180 * SCALE), 205887);
    assert_eq!(degrees_to_radians(0), 0);
}

#[test]
fn reflection_about_the_up_axis() {
    let v = Vec3::from(SCALE, -SCALE, 0);
    let n = Vec3::from(0, SCALE, 0);
    let r = reflect(v, n);
    assert_eq!((r.x(), r.y(), r.z()), (SCALE, SCALE, 0));
}

#[test]
fn uniform_samples_stay_in_range_and_vary() {
    let mut distinct = false;
    let first = random_fx(0, SCALE);
    for _ in 0..128 {
        let q = random_fx(0, SCALE);
        assert!(0 <= q && q < SCALE);
        if q != first {
            distinct = true;
        }
    }
    assert!(distinct);
    let bounded = random_fx(-SCALE, SCALE);
    assert!(-SCALE <= bounded && bounded < SCALE);
    assert_eq!(random_fx(7, 7), 7);
}

#[test]
fn ball_and_disk_samples_are_inside() {
    for _ in 0..32 {
        let p = Vec3::random_in_unit_sphere();
        assert!(p.squared() < SCALE);
        let d = Vec3::random_in_unit_disk();
        assert!(d.squared() < SCALE);
        assert_eq!(d.z(), 0);
    }
}

#[test]
fn random_unit_vectors_have_unit_length() {
    for _ in 0..32 {
        let u = Vec3::random_unit_vector();
        let sq = u.squared();
        assert!(49152 <= sq && sq <= 81920, "squared length {sq}");
    }
}

#[test]
fn hemisphere_samples_agree_with_the_normal() {
    let n = Vec3::from(0, SCALE, 0);
    for _ in 0..32 {
        let p = Vec3::random_in_hemisphere(n);
        assert!(dot(p, n) >= 0);
        assert!(p.squared() < SCALE);
    }
}

#[test]
fn componentwise_random_vector_is_bounded() {
    for _ in 0..16 {
        let v = Vec3::random(-SCALE, SCALE);
        assert!(-SCALE <= v.x() && v.x() < SCALE);
        assert!(-SCALE <= v.y() && v.y() < SCALE);
        assert!(-SCALE <= v.z() && v.z() < SCALE);
    }
}
