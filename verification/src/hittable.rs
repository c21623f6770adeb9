//! Intersection records.

use vstd::prelude::*;
use crate::material::{MatType, Lambertian, mat_wf};
use crate::ray::Ray;
use crate::vec3::{Vec3, in_range, dot_spec, v_neg, dot};

verus! {

/// The transient output of an intersection test. `norm` always points
/// against the incoming ray; `front` records whether the geometric outward
/// normal already did.
#[derive(Clone, Copy, PartialEq, Eq, Structural, Debug)]
pub struct HitRecord {
    pub p: Vec3,
    pub norm: Vec3,
    pub t: i64,
    pub front: bool,
    pub material: MatType,
}

/// Records the intersection code produces: point inside the world volume,
/// normal of roughly unit length, parameter within the queried interval.
pub open spec fn hit_wf(rec: HitRecord) -> bool {
    &&& in_range(rec.p, 33554432)
    &&& in_range(rec.norm, 262144)
    &&& 0 <= rec.t <= 1099511627776
    &&& mat_wf(rec.material)
}

/// Whether the outward normal already opposes the incoming ray.
pub open spec fn front_spec(dir: Vec3, outward: Vec3) -> bool {
    dot_spec(dir, outward) < 0
}

/// The stored normal: the outward normal, flipped to oppose the ray.
pub open spec fn face_normal_spec(dir: Vec3, outward: Vec3) -> Vec3 {
    if front_spec(dir, outward) {
        outward
    } else {
        v_neg(outward)
    }
}

impl HitRecord {
    /// A placeholder record, as produced before any intersection is found.
    pub fn new() -> (r: HitRecord)
        ensures
            r == (HitRecord {
                p: Vec3 { x: 0, y: 0, z: 0 },
                norm: Vec3 { x: 0, y: 0, z: 0 },
                t: 0,
                front: false,
                material: MatType::Lambertian(
                    Lambertian { albedo: Vec3 { x: 65536, y: 65536, z: 65536 } },
                ),
            }),
    {
        HitRecord {
            p: Vec3 { x: 0, y: 0, z: 0 },
            norm: Vec3 { x: 0, y: 0, z: 0 },
            t: 0,
            front: false,
            material: MatType::Lambertian(
                Lambertian { albedo: Vec3 { x: 65536, y: 65536, z: 65536 } },
            ),
        }
    }

    /// Orient the stored normal against the incoming ray.
    pub fn set_face_normal(&mut self, r: &Ray, outward_norm: Vec3)
        requires
            in_range(r.dir, 274877906944),
            in_range(outward_norm, 274877906944),
        ensures
            final(self).front == front_spec(r.dir, outward_norm),
            final(self).norm == face_normal_spec(r.dir, outward_norm),
            final(self).p == old(self).p,
            final(self).t == old(self).t,
            final(self).material == old(self).material,
    {
        self.front = dot(r.dir, outward_norm) < 0;
        self.norm = if self.front {
            outward_norm
        } else {
            Vec3 { x: -outward_norm.x, y: -outward_norm.y, z: -outward_norm.z }
        };
    }
}

} // verus!
