//! Recursive color evaluation and scalar clamping.

use vstd::prelude::*;
use crate::hittable_list::{HittableList, list_wf, list_hit_spec};
use crate::ray::{Ray, ray_wf};
use crate::material::MatType;
use crate::vec3::{Vec3, color_wf, unit_spec, unit_vector};
use crate::fixed::{mul_fix, fmul, lemma_fraction_bound};

verus! {

pub open spec fn clamp_spec(x: int, min: int, max: int) -> int {
    if x < min {
        min
    } else if x > max {
        max
    } else {
        x
    }
}

pub fn clamp(x: i64, min: i64, max: i64) -> (r: i64)
    ensures
        r == clamp_spec(x as int, min as int, max as int),
{
    if x < min {
        return min;
    }
    if x > max {
        return max;
    }
    x
}

/// The background: a vertical gradient from white at the bottom to sky blue
/// at the top, keyed by the normalized direction's `y` component mapped from
/// `[-1, 1]` to `[0, 1]`. Rounding can leave the normalized component a few
/// steps past one unit, so it is clamped before the blend.
pub open spec fn background_spec(dir: Vec3) -> Vec3 {
    let ny = clamp_spec(unit_spec(dir).y as int, -65536, 65536);
    let t = (ny + 65536) / 2;
    Vec3 {
        x: ((65536 - t) + mul_fix(t, 32768)) as i64,
        y: ((65536 - t) + mul_fix(t, 45875)) as i64,
        z: ((65536 - t) + mul_fix(t, 65536)) as i64,
    }
}

/// Blend white and sky blue by the ray direction's height.
pub fn background(dir: Vec3) -> (c: Vec3)
    requires
        crate::vec3::in_range(dir, 274877906944),
    ensures
        c == background_spec(dir),
        color_wf(c),
{
    let u = unit_vector(dir);
    let ny = clamp(u.y, -65536, 65536);
    let t = (ny + 65536) / 2;
    proof {
        lemma_fraction_bound(t as int, 32768);
        lemma_fraction_bound(t as int, 45875);
        lemma_fraction_bound(t as int, 65536);
    }
    Vec3 {
        x: (65536 - t) + fmul(t, 32768),
        y: (65536 - t) + fmul(t, 45875),
        z: (65536 - t) + fmul(t, 65536),
    }
}

/// Trace a ray through the scene. An exhausted depth budget is black; a miss
/// is the background gradient; a hit is the scattered color filtered by the
/// material's attenuation, or black when the material absorbs the ray — so a
/// hit on a Lambertian or metal surface never returns more energy than that
/// surface's albedo, in any channel.
pub fn ray_color(r: &Ray, world: &HittableList, depth: u32, rng: &mut rand::rngs::StdRng) -> (c:
    Vec3)
    requires
        ray_wf(*r),
        list_wf(*world),
    ensures
        color_wf(c),
        depth == 0 ==> c == (Vec3 { x: 0, y: 0, z: 0 }),
        depth > 0 && list_hit_spec(*world, *r, 66, 1099511627776) is None ==> c == background_spec(
            r.dir,
        ),
        depth > 0 ==> (list_hit_spec(*world, *r, 66, 1099511627776) matches Some(rec) ==> (
        rec.material matches MatType::Lambertian(l) ==> c.x <= l.albedo.x && c.y <= l.albedo.y
            && c.z <= l.albedo.z)),
        depth > 0 ==> (list_hit_spec(*world, *r, 66, 1099511627776) matches Some(rec) ==> (
        rec.material matches MatType::Metal(m) ==> c.x <= m.albedo.x && c.y <= m.albedo.y && c.z
            <= m.albedo.z)),
    decreases depth,
{
    if depth == 0 {
        return Vec3 { x: 0, y: 0, z: 0 };
    }
    match world.hit(r, 66, 1099511627776) {
        Some(rec) => {
            match rec.material.scatter(r, &rec, rng) {
                Some((attenuation, scattered)) => {
                    let bounced = ray_color(&scattered, world, depth - 1, rng);
                    proof {
                        lemma_fraction_bound(attenuation.x as int, bounced.x as int);
                        lemma_fraction_bound(attenuation.y as int, bounced.y as int);
                        lemma_fraction_bound(attenuation.z as int, bounced.z as int);
                    }
                    attenuation.mul(bounced)
                },
                None => Vec3 { x: 0, y: 0, z: 0 },
            }
        },
        None => background(r.dir),
    }
}

} // verus!
