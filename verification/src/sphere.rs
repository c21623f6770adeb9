//! Analytic spheres, optionally in linear motion, and their ray intersection.

use vstd::prelude::*;
use crate::hittable::{HitRecord, hit_wf, front_spec, face_normal_spec};
use crate::material::{MatType, mat_wf};
use crate::ray::{Ray, ray_wf, at_spec};
use crate::vec3::{
    Vec3, in_range, dot_spec, len2_spec, v_sub, check_range, dot, lemma_dot_bound,
};
use crate::fixed::{
    mag, mul_fix, div_fix, sqrt_fix_spec, fmul, fdiv, sqrt_fix, lemma_mul_fix_bound,
};

verus! {

pub struct Sphere {
    pub center: Vec3,
    pub rad: i64,
    pub material: MatType,
    pub velocity: Vec3,
    pub moving: bool,
}

/// A sphere the tracer accepts: center and motion inside the world volume,
/// radius non-zero (its sign selects an inward-facing shell) and bounded.
pub open spec fn sphere_wf(s: Sphere) -> bool {
    &&& in_range(s.center, 8388608)
    &&& in_range(s.velocity, 16777216)
    &&& 1 <= mag(s.rad as int) <= 8388608
    &&& mat_wf(s.material)
}

/// The sphere's center at a ray time: the static center, or the linear
/// interpolation along the velocity for a moving sphere.
pub open spec fn center_at(s: Sphere, time: int) -> Vec3 {
    if s.moving {
        Vec3 {
            x: (s.center.x + mul_fix(s.velocity.x as int, time)) as i64,
            y: (s.center.y + mul_fix(s.velocity.y as int, time)) as i64,
            z: (s.center.z + mul_fix(s.velocity.z as int, time)) as i64,
        }
    } else {
        s.center
    }
}

/// The intersection decision. Solve `a t^2 + 2 half_b t + c == 0`; a negative
/// discriminant or a degenerate direction is a miss, else take the smaller
/// root, falling back to the larger, and reject roots outside `[t_min,
/// t_max]`. The outward normal is measured from the time-interpolated center,
/// so a moving sphere shades about where it currently is. Points or normals
/// outside the fixed-point working range are rejected as misses.
pub open spec fn sphere_hit_spec(s: Sphere, r: Ray, t_min: int, t_max: int) -> Option<HitRecord> {
    let center = center_at(s, r.time as int);
    let oc = v_sub(r.orig, center);
    let a = len2_spec(r.dir);
    let half_b = dot_spec(oc, r.dir);
    let c = len2_spec(oc) - mul_fix(s.rad as int, s.rad as int);
    let disc = mul_fix(half_b, half_b) - mul_fix(a, c);
    if a == 0 || disc < 0 {
        None
    } else {
        let sq = sqrt_fix_spec(disc);
        let root1 = div_fix(-half_b - sq, a);
        let root = if root1 < t_min || root1 > t_max {
            div_fix(-half_b + sq, a)
        } else {
            root1
        };
        if root < t_min || root > t_max {
            None
        } else {
            let p = at_spec(r, root);
            let outward = Vec3 {
                x: div_fix((p.x - center.x) as int, s.rad as int) as i64,
                y: div_fix((p.y - center.y) as int, s.rad as int) as i64,
                z: div_fix((p.z - center.z) as int, s.rad as int) as i64,
            };
            if !in_range(p, 33554432) || !in_range(outward, 262144) {
                None
            } else {
                Some(
                    HitRecord {
                        p,
                        norm: face_normal_spec(r.dir, outward),
                        t: root as i64,
                        front: front_spec(r.dir, outward),
                        material: s.material,
                    },
                )
            }
        }
    }
}

/// A hit's parameter lies in the queried interval.
pub proof fn lemma_sphere_hit_range(s: Sphere, r: Ray, t_min: int, c: int, h: HitRecord)
    requires
        0 <= t_min,
        c <= 1099511627776,
        sphere_hit_spec(s, r, t_min, c) == Some(h),
    ensures
        t_min <= h.t <= c,
{
}

/// Narrowing the interval below a sphere's hit turns it into a miss: the
/// chosen root only grows when the smaller one falls out of range, so a
/// sphere that hit at `h.t` has nothing to offer strictly before it, and a
/// sphere that missed still misses.
pub proof fn lemma_sphere_hit_mono(s: Sphere, r: Ray, t_min: int, c: int, c2: int)
    requires
        0 <= t_min,
        c <= 1099511627776,
        c2 <= c,
        match sphere_hit_spec(s, r, t_min, c) {
            Option::None => true,
            Option::Some(h) => c2 < h.t,
        },
    ensures
        sphere_hit_spec(s, r, t_min, c2) is None,
{
    let center = center_at(s, r.time as int);
    let oc = v_sub(r.orig, center);
    let a = len2_spec(r.dir);
    let half_b = dot_spec(oc, r.dir);
    let cc = len2_spec(oc) - mul_fix(s.rad as int, s.rad as int);
    let disc = mul_fix(half_b, half_b) - mul_fix(a, cc);
    if !(a == 0 || disc < 0) {
        let sq = sqrt_fix_spec(disc);
        crate::fixed::lemma_isqrt_bounds(disc * 65536);
        assert(sq >= 0);
        let root1 = div_fix(-half_b - sq, a);
        let root2 = div_fix(-half_b + sq, a);
        assert(a >= 1) by {
            crate::fixed::lemma_square_fix_nonneg(r.dir.x as int);
            crate::fixed::lemma_square_fix_nonneg(r.dir.y as int);
            crate::fixed::lemma_square_fix_nonneg(r.dir.z as int);
        }
        crate::fixed::lemma_div_fix_mono(-half_b - sq, -half_b + sq, a);
        assert(root1 <= root2);
    }
}

impl Sphere {
    pub fn new(center: Vec3, rad: i64, material: MatType) -> (s: Sphere)
        requires
            in_range(center, 8388608),
            1 <= mag(rad as int) <= 8388608,
            mat_wf(material),
        ensures
            s == (Sphere { center, rad, material, velocity: Vec3 { x: 0, y: 0, z: 0 }, moving: false }),
            sphere_wf(s),
    {
        Sphere { center, rad, material, velocity: Vec3 { x: 0, y: 0, z: 0 }, moving: false }
    }

    /// A sphere moving linearly from `center` to `target` over one frame.
    pub fn new_moving(center: Vec3, target: Vec3, rad: i64, material: MatType) -> (s: Sphere)
        requires
            in_range(center, 8388608),
            in_range(target, 8388608),
            1 <= mag(rad as int) <= 8388608,
            mat_wf(material),
        ensures
            s.center == center,
            s.rad == rad,
            s.material == material,
            s.moving,
            s.velocity == v_sub(target, center),
            sphere_wf(s),
    {
        Sphere {
            center,
            rad,
            material,
            velocity: target.sub(center),
            moving: true,
        }
    }

    fn sphere_center(&self, time: i64) -> (c: Vec3)
        requires
            sphere_wf(*self),
            0 <= time < 65536,
        ensures
            c == center_at(*self, time as int),
            in_range(c, 33554432),
    {
        if self.moving {
            proof {
                lemma_mul_fix_bound(self.velocity.x as int, time as int, 16777216, 65536);
                lemma_mul_fix_bound(self.velocity.y as int, time as int, 16777216, 65536);
                lemma_mul_fix_bound(self.velocity.z as int, time as int, 16777216, 65536);
            }
            Vec3 {
                x: self.center.x + fmul(self.velocity.x, time),
                y: self.center.y + fmul(self.velocity.y, time),
                z: self.center.z + fmul(self.velocity.z, time),
            }
        } else {
            self.center
        }
    }

    /// Nearest intersection of the ray with this sphere inside `[t_min, t_max]`.
    pub fn hit(&self, r: &Ray, t_min: i64, t_max: i64) -> (res: Option<HitRecord>)
        requires
            sphere_wf(*self),
            ray_wf(*r),
            0 <= t_min <= t_max <= 1099511627776,
        ensures
            res == sphere_hit_spec(*self, *r, t_min as int, t_max as int),
            res matches Some(rec) ==> hit_wf(rec) && t_min <= rec.t <= t_max && rec.material
                == self.material,
    {
        let center = self.sphere_center(r.time);
        let oc = r.orig.sub(center);
        proof {
            lemma_dot_bound(r.dir, r.dir, 134217728, 134217728);
            lemma_dot_bound(oc, r.dir, 67108864, 134217728);
            lemma_dot_bound(oc, oc, 67108864, 67108864);
            lemma_mul_fix_bound(self.rad as int, self.rad as int, 8388608, 8388608);
        }
        let a = r.dir.len_2();
        let half_b = dot(oc, r.dir);
        let c = oc.len_2() - fmul(self.rad, self.rad);
        proof {
            lemma_mul_fix_bound(half_b as int, half_b as int, 824633720832, 824633720832);
            lemma_mul_fix_bound(a as int, c as int, 824633720832, 275951648768);
        }
        let disc = fmul(half_b, half_b) - fmul(a, c);
        if a == 0 || disc < 0 {
            return None;
        }
        let sq = sqrt_fix(disc);
        let mut root = fdiv(-half_b - sq, a);
        if root < t_min || root > t_max {
            root = fdiv(-half_b + sq, a);
            if root < t_min || root > t_max {
                return None;
            }
        }
        let p = r.at(root);
        proof {
            lemma_mul_fix_bound(r.dir.x as int, root as int, 134217728, 1099511627776);
            lemma_mul_fix_bound(r.dir.y as int, root as int, 134217728, 1099511627776);
            lemma_mul_fix_bound(r.dir.z as int, root as int, 134217728, 1099511627776);
        }
        if !check_range(p, 33554432) {
            return None;
        }
        let delta = p.sub(center);
        let outward = Vec3 {
            x: fdiv(delta.x, self.rad),
            y: fdiv(delta.y, self.rad),
            z: fdiv(delta.z, self.rad),
        };
        if !check_range(outward, 262144) {
            return None;
        }
        let front = dot(r.dir, outward) < 0;
        let norm = if front {
            outward
        } else {
            outward.neg()
        };
        Some(HitRecord { p, norm, t: root, front, material: self.material })
    }
}

} // verus!
