//! Stochastic material scattering: diffuse, reflective and refractive.

use vstd::prelude::*;
use crate::hittable::{HitRecord, hit_wf};
use crate::ray::{Ray, ray_wf};
use crate::vec3::{
    Vec3, color_wf, dot_spec, unit_spec, unit_outcome, reflect_spec, v_add, v_scale, dot,
    unit_vector, reflect, refract, check_range,
};
use crate::fixed::{
    mag, mul_fix, div_fix, sqrt_fix_spec, fmul, fdiv, sqrt_fix, lemma_square_fix_nonneg,
    lemma_fraction_bound, lemma_mul_fix_bound,
};
use crate::rng::next_fraction;

verus! {

#[derive(Clone, Copy, PartialEq, Eq, Structural, Debug)]
pub struct Lambertian {
    pub albedo: Vec3,
}

#[derive(Clone, Copy, PartialEq, Eq, Structural, Debug)]
pub struct Metal {
    pub albedo: Vec3,
    pub fuzz: i64,
}

#[derive(Clone, Copy, PartialEq, Eq, Structural, Debug)]
pub struct Dielectric {
    pub index_refraction: i64,
}

#[derive(Clone, Copy, PartialEq, Eq, Structural, Debug)]
pub enum MatType {
    Lambertian(Lambertian),
    Metal(Metal),
    Dielectric(Dielectric),
}

/// Valid material parameters: albedo channels are fractions, fuzz is at most
/// one, and the refraction index lies in `[1/4, 4]` — the fixed-point band in
/// which the refraction arithmetic stays precise.
pub open spec fn mat_wf(m: MatType) -> bool {
    match m {
        MatType::Lambertian(l) => color_wf(l.albedo),
        MatType::Metal(mt) => color_wf(mt.albedo) && 0 <= mt.fuzz <= 65536,
        MatType::Dielectric(d) => 16384 <= d.index_refraction <= 262144,
    }
}

/// The refraction ratio a dielectric uses: `1/ior` entering, `ior` leaving.
pub open spec fn dielectric_ratio(d: Dielectric, front: bool) -> int {
    if front {
        div_fix(65536, d.index_refraction as int)
    } else {
        d.index_refraction as int
    }
}

/// Schlick's reflectance approximation, on the clamped cosine.
pub open spec fn reflectance_spec(cosine: int, ref_idx: int) -> int {
    let c = if cosine < 0 {
        0
    } else if cosine > 65536 {
        65536
    } else {
        cosine
    };
    let r0 = div_fix(65536 - ref_idx, 65536 + ref_idx);
    let r1 = mul_fix(r0, r0);
    let p = 65536 - c;
    let p2 = mul_fix(p, p);
    let p4 = mul_fix(p2, p2);
    let p5 = mul_fix(p4, p);
    r1 + mul_fix(65536 - r1, p5)
}

/// The cosine a dielectric sees: `min(-dot(unit_dir, norm), 1)`.
pub open spec fn cos_theta_spec(unit_dir: Vec3, norm: Vec3) -> int {
    let d = -dot_spec(unit_dir, norm);
    if d < 65536 {
        d
    } else {
        65536
    }
}

/// Total internal reflection: `ratio * sin_theta > 1`.
pub open spec fn tir_spec(unit_dir: Vec3, norm: Vec3, ratio: int) -> bool {
    let cos = cos_theta_spec(unit_dir, norm);
    let cos2 = mul_fix(cos, cos);
    let sin2 = if 65536 - cos2 >= 0 {
        65536 - cos2
    } else {
        0
    };
    mul_fix(ratio, sqrt_fix_spec(sin2)) > 65536
}

/// The diffuse scatter direction for a drawn unit vector `u`: the normal
/// plus `u`, or the bare normal when that sum cancels to zero.
pub open spec fn lambertian_dir(norm: Vec3, u: Vec3) -> Vec3 {
    let d = v_add(norm, u);
    if d.x == 0 && d.y == 0 && d.z == 0 {
        norm
    } else {
        d
    }
}

/// The metal scatter outcome for a drawn unit vector `u`: the fuzzed mirror
/// direction either leaves the surface, giving exactly that scattered ray,
/// or falls at or below it, absorbing the sample.
pub open spec fn metal_outcome(
    m: Metal,
    r_in: Ray,
    rec: HitRecord,
    u: Vec3,
    res: Option<(Vec3, Ray)>,
) -> bool {
    let d = v_add(reflect_spec(unit_spec(r_in.dir), rec.norm), v_scale(u, m.fuzz as int));
    if dot_spec(d, rec.norm) > 0 {
        res == Some((m.albedo, (Ray { orig: rec.p, dir: d, time: r_in.time })))
    } else {
        res is None
    }
}

impl Lambertian {
    /// Diffuse scatter: a new ray from the hit point along `norm + random
    /// unit vector` (the normal itself if that sum cancels). Always scatters;
    /// the attenuation is exactly the albedo, whatever the incoming ray.
    pub fn scatter(&self, r_in: &Ray, rec: &HitRecord, rng: &mut rand::rngs::StdRng) -> (res:
        Option<(Vec3, Ray)>)
        requires
            ray_wf(*r_in),
            hit_wf(*rec),
            color_wf(self.albedo),
        ensures
            res matches Some((att, sc)) && att == self.albedo && ray_wf(sc) && sc.orig == rec.p
                && sc.time == r_in.time,
            exists|u: Vec3|
                #[trigger] unit_outcome(u) && res == Some(
                    (self.albedo, (Ray { orig: rec.p, dir: lambertian_dir(rec.norm, u), time: r_in.time })),
                ),
    {
        let ru = Vec3::random_unit(rng);
        let mut scatter_dir = rec.norm.add(ru);
        if scatter_dir.near_zero() {
            scatter_dir = rec.norm;
        }
        let scattered = Ray { orig: rec.p, dir: scatter_dir, time: r_in.time };
        proof {
            assert(scatter_dir == lambertian_dir(rec.norm, ru));
        }
        Some((self.albedo, scattered))
    }
}

impl Metal {
    /// Specular scatter: reflect the unit incoming direction about the
    /// normal, perturbed by `fuzz` times a random unit vector. Absorbed when
    /// the perturbed direction falls below the surface.
    pub fn scatter(&self, r_in: &Ray, rec: &HitRecord, rng: &mut rand::rngs::StdRng) -> (res:
        Option<(Vec3, Ray)>)
        requires
            ray_wf(*r_in),
            hit_wf(*rec),
            color_wf(self.albedo),
            0 <= self.fuzz <= 65536,
        ensures
            res matches Some((att, sc)) ==> att == self.albedo && ray_wf(sc) && sc.orig == rec.p
                && sc.time == r_in.time && dot_spec(sc.dir, rec.norm) > 0,
            exists|u: Vec3| #[trigger] unit_outcome(u) && metal_outcome(*self, *r_in, *rec, u, res),
            self.fuzz == 0 ==> (res is Some <==> dot_spec(
                reflect_spec(unit_spec(r_in.dir), rec.norm),
                rec.norm,
            ) > 0),
            self.fuzz == 0 ==> (res matches Some((att, sc)) ==> sc.dir == reflect_spec(
                unit_spec(r_in.dir),
                rec.norm,
            )),
    {
        let unit_in = unit_vector(r_in.dir);
        let reflected = reflect(unit_in, rec.norm);
        let ru = Vec3::random_unit(rng);
        proof {
            lemma_mul_fix_bound(ru.x as int, self.fuzz as int, 65540, 65536);
            lemma_mul_fix_bound(ru.y as int, self.fuzz as int, 65540, 65536);
            lemma_mul_fix_bound(ru.z as int, self.fuzz as int, 65540, 65536);
        }
        let fz = ru.scale(self.fuzz);
        let dir = reflected.add(fz);
        proof {
            assert(dir == v_add(reflect_spec(unit_spec(r_in.dir), rec.norm), v_scale(ru, self.fuzz as int)));
            if self.fuzz == 0 {
                assert(mul_fix(ru.x as int, 0) == 0 && mul_fix(ru.y as int, 0) == 0 && mul_fix(
                    ru.z as int,
                    0,
                ) == 0) by (nonlinear_arith);
                assert(fz.x == 0 && fz.y == 0 && fz.z == 0);
                assert(dir == reflect_spec(unit_spec(r_in.dir), rec.norm));
            }
        }
        let scattered = Ray { orig: rec.p, dir, time: r_in.time };
        if dot(dir, rec.norm) > 0 {
            let res = Some((self.albedo, scattered));
            proof {
                assert(metal_outcome(*self, *r_in, *rec, ru, res));
            }
            res
        } else {
            let res: Option<(Vec3, Ray)> = None;
            proof {
                assert(metal_outcome(*self, *r_in, *rec, ru, res));
            }
            res
        }
    }
}

impl Dielectric {
    /// Schlick's reflectance approximation.
    pub fn reflectance(cosine: i64, ref_idx: i64) -> (r: i64)
        requires
            mag(cosine as int) <= 4194304,
            16384 <= ref_idx <= 262144,
        ensures
            r == reflectance_spec(cosine as int, ref_idx as int),
            0 <= r <= 65536,
    {
        let c = if cosine < 0 {
            0
        } else if cosine > 65536 {
            65536
        } else {
            cosine
        };
        let r0 = fdiv(65536 - ref_idx, 65536 + ref_idx);
        proof {
            assert(mag(div_fix(65536 - ref_idx as int, 65536 + ref_idx as int)) <= 65535)
                by (nonlinear_arith)
                requires
                    16384 <= ref_idx <= 262144;
            lemma_square_fix_nonneg(r0 as int);
            lemma_mul_fix_bound(r0 as int, r0 as int, 65535, 65535);
        }
        let r1 = fmul(r0, r0);
        let p = 65536 - c;
        proof {
            lemma_fraction_bound(p as int, p as int);
        }
        let p2 = fmul(p, p);
        proof {
            lemma_fraction_bound(p2 as int, p2 as int);
        }
        let p4 = fmul(p2, p2);
        proof {
            lemma_fraction_bound(p4 as int, p as int);
        }
        let p5 = fmul(p4, p);
        proof {
            lemma_fraction_bound(65536 - r1 as int, p5 as int);
        }
        r1 + fmul(65536 - r1, p5)
    }

    /// Refractive scatter: lossless attenuation, refracting by Snell's law
    /// unless total internal reflection or a Schlick-weighted coin forces a
    /// reflection. A dielectric never absorbs the ray.
    pub fn scatter(&self, r_in: &Ray, rec: &HitRecord, rng: &mut rand::rngs::StdRng) -> (res:
        Option<(Vec3, Ray)>)
        requires
            ray_wf(*r_in),
            hit_wf(*rec),
            16384 <= self.index_refraction <= 262144,
        ensures
            res matches Some((att, sc)) && att == (Vec3 { x: 65536, y: 65536, z: 65536 })
                && ray_wf(sc) && sc.orig == rec.p && sc.time == r_in.time,
            res matches Some((att, sc)) ==> tir_spec(
                unit_spec(r_in.dir),
                rec.norm,
                dielectric_ratio(*self, rec.front),
            ) ==> sc.dir == reflect_spec(unit_spec(r_in.dir), rec.norm),
    {
        let attenuation = Vec3 { x: 65536, y: 65536, z: 65536 };
        let refraction_ratio = if rec.front {
            let q = fdiv(65536, self.index_refraction);
            proof {
                assert(16384 <= div_fix(65536, self.index_refraction as int) <= 262144)
                    by (nonlinear_arith)
                    requires
                        16384 <= self.index_refraction <= 262144;
            }
            q
        } else {
            self.index_refraction
        };
        let unit_dir = unit_vector(r_in.dir);
        proof {
            crate::vec3::lemma_dot_bound(unit_dir, rec.norm, 65540, 262144);
        }
        let d = dot(unit_dir, rec.norm);
        let cos_theta = if -d < 65536 {
            -d
        } else {
            65536
        };
        proof {
            lemma_square_fix_nonneg(cos_theta as int);
            lemma_mul_fix_bound(cos_theta as int, cos_theta as int, 786480, 786480);
        }
        let cos2 = fmul(cos_theta, cos_theta);
        let sin2 = if 65536 - cos2 >= 0 {
            65536 - cos2
        } else {
            0
        };
        let sin_theta = sqrt_fix(sin2);
        proof {
            assert(sqrt_fix_spec(sin2 as int) <= 65536) by (nonlinear_arith)
                requires
                    0 <= sin2 <= 65536,
                    sin_theta >= 0,
                    sin_theta * sin_theta <= sin2 * 65536,
                    sin_theta == sqrt_fix_spec(sin2 as int);
            lemma_mul_fix_bound(refraction_ratio as int, sin_theta as int, 262144, 65536);
        }
        let cannot_refract = fmul(refraction_ratio, sin_theta) > 65536;
        let dir = if cannot_refract || Dielectric::reflectance(cos_theta, refraction_ratio)
            > next_fraction(rng) {
            reflect(unit_dir, rec.norm)
        } else {
            let refracted = refract(unit_dir, rec.norm, refraction_ratio);
            if check_range(refracted, 134217728) {
                refracted
            } else {
                // Numeric guard: a refracted direction too large for the
                // intersection arithmetic falls back to reflection.
                reflect(unit_dir, rec.norm)
            }
        };
        let scattered = Ray { orig: rec.p, dir, time: r_in.time };
        Some((attenuation, scattered))
    }
}

impl MatType {
    /// Dispatch scattering to the hit material. Lambertian and dielectric
    /// materials always scatter; metal absorbs fuzzed rays that fall below
    /// the surface. The attenuation never exceeds the material's albedo.
    pub fn scatter(&self, r_in: &Ray, rec: &HitRecord, rng: &mut rand::rngs::StdRng) -> (res:
        Option<(Vec3, Ray)>)
        requires
            ray_wf(*r_in),
            hit_wf(*rec),
            mat_wf(*self),
        ensures
            res matches Some((att, sc)) ==> color_wf(att) && ray_wf(sc) && sc.orig == rec.p
                && sc.time == r_in.time,
            self matches MatType::Lambertian(l) ==> res matches Some((att, sc)) && att == l.albedo,
            self matches MatType::Lambertian(l) ==> exists|u: Vec3|
                #[trigger] unit_outcome(u) && res == Some(
                    (l.albedo, (Ray { orig: rec.p, dir: lambertian_dir(rec.norm, u), time: r_in.time })),
                ),
            self matches MatType::Metal(m) ==> (res matches Some((att, sc)) ==> att == m.albedo
                && dot_spec(sc.dir, rec.norm) > 0),
            self matches MatType::Metal(m) ==> exists|u: Vec3|
                #[trigger] unit_outcome(u) && metal_outcome(*m, *r_in, *rec, u, res),
            self matches MatType::Metal(m) && m.fuzz == 0 ==> (res is Some <==> dot_spec(
                reflect_spec(unit_spec(r_in.dir), rec.norm),
                rec.norm,
            ) > 0),
            self matches MatType::Dielectric(d) ==> res matches Some((att, sc)) && att == (Vec3 {
                x: 65536,
                y: 65536,
                z: 65536,
            }),
    {
        match self {
            MatType::Lambertian(l) => l.scatter(r_in, rec, rng),
            MatType::Metal(m) => m.scatter(r_in, rec, rng),
            MatType::Dielectric(d) => d.scatter(r_in, rec, rng),
        }
    }
}

} // verus!
