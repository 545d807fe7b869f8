//! Hit records: the result of a successful ray/surface intersection.

use vstd::prelude::*;
use crate::vec3::{Vec3, Point3, in_range, sdot, spec_neg, lemma_sdot_comm, lemma_sdot_neg, dot, DOT_MAX};
use crate::ray::Ray;
use crate::material::{Material, Lambertian, material_wf};

verus! {

/// Largest admissible coordinate magnitude for scene geometry (2^36,
/// about one million distance units).
pub const COORD_MAX: i64 = 68719476736;

/// Largest admissible ray-direction component (2^35).
pub const DIR_MAX: i64 = 34359738368;

/// Bound on the components of a stored surface normal (2^20, sixteen
/// units: ample for the near-unit outward normals of valid hits).
pub const NORMAL_MAX: i64 = 1048576;

/// Smallest admissible sphere radius (about 0.001 in real terms).
pub const RADIUS_MIN: i64 = 64;

#[derive(Clone, Copy, PartialEq, Eq, Structural, Debug)]
pub struct HitRecord {
    pub p: Point3,
    pub normal: Vec3,
    pub material: Material,
    pub t: i64,
    pub front_face: bool,
}

/// Well-formedness of a hit record: the point and normal are bounded and
/// the material is valid.
pub open spec fn rec_wf(rec: HitRecord) -> bool {
    &&& in_range(rec.p, COORD_MAX as int)
    &&& in_range(rec.normal, NORMAL_MAX as int)
    &&& material_wf(rec.material)
    &&& rec.t >= 0
}

impl HitRecord {
    /// A blank record: origin hit with a black diffuse material.
    pub fn new() -> (r: Self)
        ensures
            r.p.e0 == 0 && r.p.e1 == 0 && r.p.e2 == 0,
            r.normal.e0 == 0 && r.normal.e1 == 0 && r.normal.e2 == 0,
            r.t == 0,
            r.front_face,
            r.material == Material::Lambertian(Lambertian { albedo: Vec3 { e0: 0i64, e1: 0i64, e2: 0i64 } }),
    {
        Self {
            p: Vec3::new(),
            normal: Vec3::new(),
            material: Material::Lambertian(Lambertian::from(Vec3::new())),
            t: 0,
            front_face: true,
        }
    }

    /// Orient `outward_normal` against the incoming ray: `front_face`
    /// records whether the geometric outward normal already pointed
    /// against the ray, and `normal` is flipped when it did not, so that
    /// the stored normal never points with the ray.
    pub fn set_face_normal(&mut self, r: Ray, outward_normal: Vec3)
        requires
            in_range(r.dir, DOT_MAX as int),
            in_range(outward_normal, (DOT_MAX - 1) as int),
        ensures
            final(self).front_face == (sdot(r.dir, outward_normal) < 0),
            final(self).normal == if sdot(r.dir, outward_normal) < 0 {
                outward_normal
            } else {
                spec_neg(outward_normal)
            },
            sdot(final(self).normal, r.dir) <= 0,
            final(self).p == old(self).p,
            final(self).material == old(self).material,
            final(self).t == old(self).t,
    {
        let d: i64 = dot(r.direction(), outward_normal);
        self.front_face = d < 0;
        proof {
            lemma_sdot_comm(r.dir, outward_normal);
            lemma_sdot_neg(outward_normal, r.dir);
        }
        self.normal = if self.front_face {
            outward_normal
        } else {
            outward_normal.vneg()
        };
    }
}

} // verus!
