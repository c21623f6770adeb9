//! Parametric rays with an exposure-time tag for motion blur.

use vstd::prelude::*;
use crate::vec3::{Vec3, in_range};
use crate::fixed::{mul_fix, fmul, lemma_mul_fix_bound};

verus! {

#[derive(Clone, Copy, PartialEq, Eq, Structural, Debug)]
pub struct Ray {
    pub orig: Vec3,
    pub dir: Vec3,
    pub time: i64,
}

/// Rays the tracer produces: origin inside the world volume, direction small
/// enough for the intersection quadratic, exposure time within one frame.
pub open spec fn ray_wf(r: Ray) -> bool {
    &&& in_range(r.orig, 33554432)
    &&& in_range(r.dir, 134217728)
    &&& 0 <= r.time < 65536
}

/// The point `orig + dir * t`.
pub open spec fn at_spec(r: Ray, t: int) -> Vec3 {
    Vec3 {
        x: (r.orig.x + mul_fix(r.dir.x as int, t)) as i64,
        y: (r.orig.y + mul_fix(r.dir.y as int, t)) as i64,
        z: (r.orig.z + mul_fix(r.dir.z as int, t)) as i64,
    }
}

impl Ray {
    pub fn at(&self, t: i64) -> (p: Vec3)
        requires
            in_range(self.orig, 33554432),
            in_range(self.dir, 134217728),
            0 <= t <= 1099511627776,
        ensures
            p == at_spec(*self, t as int),
    {
        proof {
            lemma_mul_fix_bound(self.dir.x as int, t as int, 134217728, 1099511627776);
            lemma_mul_fix_bound(self.dir.y as int, t as int, 134217728, 1099511627776);
            lemma_mul_fix_bound(self.dir.z as int, t as int, 134217728, 1099511627776);
        }
        Vec3 {
            x: self.orig.x + fmul(self.dir.x, t),
            y: self.orig.y + fmul(self.dir.y, t),
            z: self.orig.z + fmul(self.dir.z, t),
        }
    }
}

} // verus!
