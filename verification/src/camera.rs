//! The camera: an orthonormal viewing frame with depth of field and motion
//! blur, mapping normalized image-plane coordinates to world-space rays.

use vstd::prelude::*;
use crate::ray::{Ray, ray_wf};
use crate::vec3::{
    Vec3, in_range, v_add, v_sub, v_scale, cross_spec, unit_spec, unit_vector, cross, len2_spec,
};
use crate::fixed::{mag, mul_fix, fmul, lemma_mul_fix_bound};
use crate::rng::next_fraction;

verus! {

pub struct Camera {
    pub origin: Vec3,
    pub horizontal: Vec3,
    pub vertical: Vec3,
    pub lower_left_corner: Vec3,
    pub u: Vec3,
    pub v: Vec3,
    pub w: Vec3,
    pub lens_radius: i64,
}

/// A frame whose fields are small enough that every ray it emits satisfies
/// `ray_wf`.
pub open spec fn camera_wf(c: Camera) -> bool {
    &&& in_range(c.origin, 8388608)
    &&& in_range(c.horizontal, 4194560)
    &&& in_range(c.vertical, 8389632)
    &&& in_range(c.lower_left_corner, 33554432)
    &&& in_range(c.u, 65540)
    &&& in_range(c.v, 131088)
    &&& in_range(c.w, 65540)
    &&& 0 <= c.lens_radius <= 1048576
}

impl Camera {
    /// Build the viewing frame. `tan_half_fov` is the tangent of half the
    /// vertical field of view, as a fixed-point fraction; the viewport is
    /// scaled by the focus distance so the focus plane renders sharp. The
    /// two product bounds keep the viewport inside the fixed-point working
    /// range; a caller can check them by computing the same products.
    #[verifier::rlimit(100)]
    pub fn new(
        lookfrom: Vec3,
        lookat: Vec3,
        vup: Vec3,
        tan_half_fov: i64,
        aspect_ratio: i64,
        aperture: i64,
        focus_dist: i64,
    ) -> (c: Camera)
        requires
            in_range(lookfrom, 8388608),
            in_range(lookat, 8388608),
            in_range(vup, 8388608),
            0 < tan_half_fov <= 262144,
            0 < aspect_ratio <= 262144,
            0 <= aperture <= 2097152,
            0 < focus_dist <= 4194304,
            mag(
                mul_fix(focus_dist as int, mul_fix(aspect_ratio as int, 2 * tan_half_fov as int)),
            ) <= 4194304,
            mag(mul_fix(focus_dist as int, 2 * tan_half_fov as int)) <= 4194304,
        ensures
            c.origin == lookfrom,
            c.w == unit_spec(v_sub(lookfrom, lookat)),
            c.u == unit_spec(cross_spec(vup, c.w)),
            c.v == cross_spec(c.w, c.u),
            c.horizontal == v_scale(
                c.u,
                mul_fix(focus_dist as int, mul_fix(aspect_ratio as int, 2 * tan_half_fov as int)),
            ),
            c.vertical == v_scale(c.v, mul_fix(focus_dist as int, 2 * tan_half_fov as int)),
            c.lower_left_corner == v_sub(
                v_sub(v_sub(c.origin, v_scale(c.horizontal, 32768)), v_scale(c.vertical, 32768)),
                v_scale(c.w, focus_dist as int),
            ),
            c.lens_radius == mul_fix(aperture as int, 32768),
            camera_wf(c),
    {
        let viewport_height: i64 = 2 * tan_half_fov;
        proof {
            lemma_mul_fix_bound(aspect_ratio as int, 2 * tan_half_fov as int, 262144, 524288);
        }
        let viewport_width: i64 = fmul(aspect_ratio, viewport_height);

        let w = unit_vector(lookfrom.sub(lookat));
        proof {
            lemma_mul_fix_bound(vup.x as int, w.y as int, 8388608, 65540);
            lemma_mul_fix_bound(vup.x as int, w.z as int, 8388608, 65540);
            lemma_mul_fix_bound(vup.y as int, w.x as int, 8388608, 65540);
            lemma_mul_fix_bound(vup.y as int, w.z as int, 8388608, 65540);
            lemma_mul_fix_bound(vup.z as int, w.x as int, 8388608, 65540);
            lemma_mul_fix_bound(vup.z as int, w.y as int, 8388608, 65540);
        }
        let u = unit_vector(cross(vup, w));
        proof {
            lemma_mul_fix_bound(w.x as int, u.y as int, 65540, 65540);
            lemma_mul_fix_bound(w.x as int, u.z as int, 65540, 65540);
            lemma_mul_fix_bound(w.y as int, u.x as int, 65540, 65540);
            lemma_mul_fix_bound(w.y as int, u.z as int, 65540, 65540);
            lemma_mul_fix_bound(w.z as int, u.x as int, 65540, 65540);
            lemma_mul_fix_bound(w.z as int, u.y as int, 65540, 65540);
        }
        let v = cross(w, u);

        let origin = lookfrom;
        let fvw = fmul(focus_dist, viewport_width);
        let fvh = fmul(focus_dist, viewport_height);
        proof {
            lemma_mul_fix_bound(u.x as int, fvw as int, 65540, 4194304);
            lemma_mul_fix_bound(u.y as int, fvw as int, 65540, 4194304);
            lemma_mul_fix_bound(u.z as int, fvw as int, 65540, 4194304);
            lemma_mul_fix_bound(v.x as int, fvh as int, 131088, 4194304);
            lemma_mul_fix_bound(v.y as int, fvh as int, 131088, 4194304);
            lemma_mul_fix_bound(v.z as int, fvh as int, 131088, 4194304);
        }
        let horizontal = u.scale(fvw);
        let vertical = v.scale(fvh);
        proof {
            lemma_mul_fix_bound(horizontal.x as int, 32768, 4194560, 32768);
            lemma_mul_fix_bound(horizontal.y as int, 32768, 4194560, 32768);
            lemma_mul_fix_bound(horizontal.z as int, 32768, 4194560, 32768);
            lemma_mul_fix_bound(vertical.x as int, 32768, 8389632, 32768);
            lemma_mul_fix_bound(vertical.y as int, 32768, 8389632, 32768);
            lemma_mul_fix_bound(vertical.z as int, 32768, 8389632, 32768);
            lemma_mul_fix_bound(w.x as int, focus_dist as int, 65540, 4194304);
            lemma_mul_fix_bound(w.y as int, focus_dist as int, 65540, 4194304);
            lemma_mul_fix_bound(w.z as int, focus_dist as int, 65540, 4194304);
        }
        let lower_left_corner = origin.sub(horizontal.scale(32768)).sub(vertical.scale(32768)).sub(
            w.scale(focus_dist),
        );
        let lens_radius = fmul(aperture, 32768);
        proof {
            lemma_mul_fix_bound(aperture as int, 32768, 2097152, 32768);
            assert(mul_fix(aperture as int, 32768) >= 0) by (nonlinear_arith)
                requires
                    aperture >= 0;
        }
        Camera { origin, horizontal, vertical, lower_left_corner, u, v, w, lens_radius }
    }

    /// A ray through viewport point `(s, t)`, starting from a random point
    /// on the lens disk and stamped with a random exposure time. Wherever on
    /// the lens the ray starts, it aims at the `(s, t)` viewport point: the
    /// direction is the viewport point minus the ray's own origin, exactly
    /// (the focus invariant — the lens offset cancels additively). The
    /// origin itself is the camera origin displaced along `u` and `v` by a
    /// drawn lens-disk point scaled by the lens radius; with a closed lens
    /// it is exactly the camera origin.
    #[verifier::rlimit(100)]
    pub fn get_ray(&self, s: i64, t: i64, rng: &mut rand::rngs::StdRng) -> (r: Ray)
        requires
            camera_wf(*self),
            0 <= s <= 131072,
            0 <= t <= 131072,
        ensures
            ray_wf(r),
            r.dir == v_sub(
                v_add(
                    v_add(self.lower_left_corner, v_scale(self.horizontal, s as int)),
                    v_scale(self.vertical, t as int),
                ),
                r.orig,
            ),
            exists|d: Vec3|
                in_range(d, 65536) && #[trigger] len2_spec(d) < 65536 && d.z == 0 && r.orig
                    == v_add(
                    self.origin,
                    v_add(
                        v_scale(self.u, mul_fix(d.x as int, self.lens_radius as int)),
                        v_scale(self.v, mul_fix(d.y as int, self.lens_radius as int)),
                    ),
                ),
            self.lens_radius == 0 ==> r.orig == self.origin,
    {
        let disk = Vec3::random_in_unit_disk(rng);
        proof {
            lemma_mul_fix_bound(disk.x as int, self.lens_radius as int, 65536, 1048576);
            lemma_mul_fix_bound(disk.y as int, self.lens_radius as int, 65536, 1048576);
            lemma_mul_fix_bound(disk.z as int, self.lens_radius as int, 65536, 1048576);
        }
        let rd = disk.scale(self.lens_radius);
        proof {
            lemma_mul_fix_bound(self.u.x as int, rd.x as int, 65540, 1048576);
            lemma_mul_fix_bound(self.u.y as int, rd.x as int, 65540, 1048576);
            lemma_mul_fix_bound(self.u.z as int, rd.x as int, 65540, 1048576);
            lemma_mul_fix_bound(self.v.x as int, rd.y as int, 131088, 1048576);
            lemma_mul_fix_bound(self.v.y as int, rd.y as int, 131088, 1048576);
            lemma_mul_fix_bound(self.v.z as int, rd.y as int, 131088, 1048576);
        }
        let offset = self.u.scale(rd.x).add(self.v.scale(rd.y));
        proof {
            lemma_mul_fix_bound(self.horizontal.x as int, s as int, 4194560, 262144);
            lemma_mul_fix_bound(self.horizontal.y as int, s as int, 4194560, 262144);
            lemma_mul_fix_bound(self.horizontal.z as int, s as int, 4194560, 262144);
            lemma_mul_fix_bound(self.vertical.x as int, t as int, 8389632, 262144);
            lemma_mul_fix_bound(self.vertical.y as int, t as int, 8389632, 262144);
            lemma_mul_fix_bound(self.vertical.z as int, t as int, 8389632, 262144);
        }
        let orig = self.origin.add(offset);
        proof {
            assert(orig == v_add(
                self.origin,
                v_add(
                    v_scale(self.u, mul_fix(disk.x as int, self.lens_radius as int)),
                    v_scale(self.v, mul_fix(disk.y as int, self.lens_radius as int)),
                ),
            ));
            if self.lens_radius == 0 {
                assert(mul_fix(disk.x as int, 0) == 0 && mul_fix(disk.y as int, 0) == 0 && mul_fix(
                    disk.z as int,
                    0,
                ) == 0) by (nonlinear_arith);
                assert(rd.x == 0 && rd.y == 0);
                assert(offset.x == 0 && offset.y == 0 && offset.z == 0);
            }
        }
        let dir = self.lower_left_corner.add(self.horizontal.scale(s)).add(
            self.vertical.scale(t),
        ).sub(self.origin).sub(offset);
        let time = next_fraction(rng);
        Ray { orig, dir, time }
    }
}

} // verus!
