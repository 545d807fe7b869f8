//! Rays: a parametric half-line `origin + t * direction`.

use vstd::prelude::*;
use crate::fixed::{fxmul, fits_i64};
use crate::vec3::{Vec3, Point3, spec_add, spec_scale};

verus! {

#[derive(Clone, Copy, PartialEq, Eq, Structural, Debug)]
pub struct Ray {
    pub orig: Point3,
    pub dir: Vec3,
}

/// The point the ray reaches at parameter `t`.
pub open spec fn spec_at(r: Ray, t: int) -> Point3 {
    spec_add(r.orig, spec_scale(r.dir, t))
}

/// All the intermediate values of `Ray::at` fit in an `i64`.
pub open spec fn at_fits(r: Ray, t: int) -> bool {
    &&& fits_i64(fxmul(r.dir.e0 as int, t))
    &&& fits_i64(fxmul(r.dir.e1 as int, t))
    &&& fits_i64(fxmul(r.dir.e2 as int, t))
    &&& fits_i64(r.orig.e0 + fxmul(r.dir.e0 as int, t))
    &&& fits_i64(r.orig.e1 + fxmul(r.dir.e1 as int, t))
    &&& fits_i64(r.orig.e2 + fxmul(r.dir.e2 as int, t))
}

impl Ray {
    /// The degenerate ray at the origin.
    pub fn new() -> (r: Self)
        ensures
            r.orig.e0 == 0 && r.orig.e1 == 0 && r.orig.e2 == 0,
            r.dir.e0 == 0 && r.dir.e1 == 0 && r.dir.e2 == 0,
    {
        Self { orig: Vec3::new(), dir: Vec3::new() }
    }

    pub fn from(origin: Point3, direction: Vec3) -> (r: Self)
        ensures
            r.orig == origin,
            r.dir == direction,
    {
        Self { orig: origin, dir: direction }
    }

    pub fn origin(&self) -> (r: Point3)
        ensures
            r == self.orig,
    {
        self.orig
    }

    pub fn direction(&self) -> (r: Vec3)
        ensures
            r == self.dir,
    {
        self.dir
    }

    /// Evaluate the ray at parameter `t`.
    pub fn at(&self, t: i64) -> (r: Point3)
        requires
            at_fits(*self, t as int),
        ensures
            r == spec_at(*self, t as int),
    {
        let step: Vec3 = self.dir.vscale(t);
        self.orig.vadd(step)
    }
}

} // verus!
