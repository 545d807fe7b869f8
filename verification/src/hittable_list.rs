//! The scene: an ordered collection of spheres, intersected by taking
//! the nearest accepted hit, shrinking the search window as closer hits
//! are found.

use vstd::prelude::*;
use crate::vec3::{in_range, sdot};
use crate::ray::Ray;
use crate::hittable::{HitRecord, COORD_MAX, NORMAL_MAX};
use crate::material::material_wf;
use crate::sphere::{Sphere, sphere_wf, ray_wf, sphere_hit_result, matches_hit};
use crate::utils::INFINITY;

verus! {

pub struct HittableList {
    pub objects: Vec<Sphere>,
}

/// Every member of the scene is a well-formed sphere.
pub open spec fn scene_wf(l: HittableList) -> bool {
    forall|i: int| 0 <= i < l.objects@.len() ==> sphere_wf(#[trigger] l.objects@[i])
}

/// The fold the nearest-hit search computes, member by member from the
/// front: each accepted hit becomes the new best and shrinks the window.
/// The result carries the index of the winning sphere and the parameter.
pub open spec fn scene_hit_loop(
    objs: Seq<Sphere>,
    i: int,
    r: Ray,
    t_min: int,
    t_max: int,
    best: Option<(int, int)>,
) -> Option<(int, int)>
    decreases objs.len() - i,
{
    if i < 0 || i >= objs.len() {
        best
    } else {
        match sphere_hit_result(objs[i], r, t_min, t_max) {
            Some(t) => scene_hit_loop(objs, i + 1, r, t_min, t, Some((i, t))),
            None => scene_hit_loop(objs, i + 1, r, t_min, t_max, best),
        }
    }
}

/// The nearest hit of the whole scene, if any.
pub open spec fn scene_hit(l: HittableList, r: Ray, t_min: int, t_max: int) -> Option<(int, int)> {
    scene_hit_loop(l.objects@, 0, r, t_min, t_max, None)
}

/// The fold only ever reports indices of scene members.
pub proof fn lemma_scene_hit_loop_index(
    objs: Seq<Sphere>,
    i: int,
    r: Ray,
    t_min: int,
    t_max: int,
    best: Option<(int, int)>,
)
    requires
        best matches Some(b) ==> 0 <= b.0 < objs.len(),
    ensures
        scene_hit_loop(objs, i, r, t_min, t_max, best) matches Some(win)
            ==> 0 <= win.0 < objs.len(),
    decreases objs.len() - i,
{
    if 0 <= i < objs.len() {
        match sphere_hit_result(objs[i], r, t_min, t_max) {
            Some(t) => {
                lemma_scene_hit_loop_index(objs, i + 1, r, t_min, t, Some((i, t)));
            },
            None => {
                lemma_scene_hit_loop_index(objs, i + 1, r, t_min, t_max, best);
            },
        }
    }
}

/// The nearest hit, when there is one, belongs to a scene member.
pub proof fn lemma_scene_hit_index(l: HittableList, r: Ray, t_min: int, t_max: int)
    ensures
        scene_hit(l, r, t_min, t_max) matches Some(win) ==> 0 <= win.0 < l.objects@.len(),
    decreases 0int,
{
    lemma_scene_hit_loop_index(l.objects@, 0, r, t_min, t_max, None);
}

impl HittableList {
    pub fn new() -> (l: Self)
        ensures
            l.objects@.len() == 0,
    {
        Self { objects: Vec::new() }
    }

    pub fn add(&mut self, object: Sphere)
        ensures
            final(self).objects@ == old(self).objects@.push(object),
    {
        self.objects.push(object);
    }

    pub fn clear(&mut self)
        ensures
            final(self).objects@.len() == 0,
    {
        self.objects.clear();
    }

    /// Intersect the ray against every member and keep the globally
    /// nearest accepted hit. True exactly when some member hits; the
    /// record then belongs to the winning member of the fold.
    pub fn hit(&self, r: Ray, t_min: i64, t_max: i64, rec: &mut HitRecord) -> (b: bool)
        requires
            scene_wf(*self),
            ray_wf(r),
            0 <= t_min,
            t_max <= INFINITY,
        ensures
            b == (scene_hit(*self, r, t_min as int, t_max as int) is Some),
            b ==> exists|i: int|
                0 <= i < self.objects@.len()
                && scene_hit(*self, r, t_min as int, t_max as int)
                    == Some((i, final(rec).t as int))
                && #[trigger] matches_hit(*final(rec), self.objects@[i], r, final(rec).t as int),
            b ==> sdot(final(rec).normal, r.dir) <= 0
                && in_range(final(rec).p, COORD_MAX as int)
                && in_range(final(rec).normal, NORMAL_MAX as int)
                && material_wf(final(rec).material)
                && t_min <= final(rec).t <= t_max,
            !b ==> *final(rec) == *old(rec),
    {
        let mut hit_anything: bool = false;
        let mut closest_so_far: i64 = t_max;
        let ghost mut gbest: Option<(int, int)> = None;
        let ghost mut gidx: int = 0;
        let mut k: usize = 0;
        while k < self.objects.len()
            invariant
                scene_wf(*self),
                ray_wf(r),
                0 <= t_min,
                t_max <= INFINITY,
                0 <= k <= self.objects@.len(),
                closest_so_far <= t_max,
                hit_anything == (gbest is Some),
                hit_anything ==> {
                    &&& gbest == Some((gidx, closest_so_far as int))
                    &&& 0 <= gidx < k as int
                    &&& rec.t == closest_so_far
                    &&& matches_hit(*rec, self.objects@[gidx], r, rec.t as int)
                    &&& sdot(rec.normal, r.dir) <= 0
                    &&& in_range(rec.p, COORD_MAX as int)
                    &&& in_range(rec.normal, NORMAL_MAX as int)
                    &&& material_wf(rec.material)
                    &&& t_min <= rec.t <= t_max
                },
                !hit_anything ==> closest_so_far == t_max && *rec == *old(rec),
                scene_hit_loop(self.objects@, k as int, r, t_min as int,
                    closest_so_far as int, gbest)
                    == scene_hit(*self, r, t_min as int, t_max as int),
            decreases self.objects@.len() - k as int,
        {
            let sp: &Sphere = &self.objects[k];
            proof {
                assert(sphere_wf(self.objects@[k as int]));
            }
            let h: bool = sp.hit(r, t_min, closest_so_far, rec);
            if h {
                hit_anything = true;
                closest_so_far = rec.t;
                proof {
                    gbest = Some((k as int, rec.t as int));
                    gidx = k as int;
                }
            }
            k = k + 1;
        }
        hit_anything
    }
}

} // verus!
