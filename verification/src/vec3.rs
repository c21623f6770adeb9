//! Three-component fixed-point vectors: arithmetic, geometric operators and
//! randomized sampling helpers.

use vstd::prelude::*;
use crate::fixed::{
    mag, mul_fix, div_fix, sqrt_fix_spec, fmul, fdiv, sqrt_fix, lemma_square_fix_nonneg,
    lemma_mul_fix_bound,
};
use crate::rng::next_symmetric;
use crate::rng::next_fraction;

verus! {

#[derive(Clone, Copy, PartialEq, Eq, Structural, Debug)]
pub struct Vec3 {
    pub x: i64,
    pub y: i64,
    pub z: i64,
}

/// Every component's magnitude is at most `b`.
pub open spec fn in_range(v: Vec3, b: int) -> bool {
    &&& mag(v.x as int) <= b
    &&& mag(v.y as int) <= b
    &&& mag(v.z as int) <= b
}

pub open spec fn v_add(u: Vec3, v: Vec3) -> Vec3 {
    Vec3 { x: (u.x + v.x) as i64, y: (u.y + v.y) as i64, z: (u.z + v.z) as i64 }
}

pub open spec fn v_sub(u: Vec3, v: Vec3) -> Vec3 {
    Vec3 { x: (u.x - v.x) as i64, y: (u.y - v.y) as i64, z: (u.z - v.z) as i64 }
}

pub open spec fn v_neg(v: Vec3) -> Vec3 {
    Vec3 { x: (-v.x) as i64, y: (-v.y) as i64, z: (-v.z) as i64 }
}

/// Scale every component by the fixed-point scalar `k`.
pub open spec fn v_scale(v: Vec3, k: int) -> Vec3 {
    Vec3 {
        x: mul_fix(v.x as int, k) as i64,
        y: mul_fix(v.y as int, k) as i64,
        z: mul_fix(v.z as int, k) as i64,
    }
}

/// A value `random_unit` can return: a normalized sample of the unit
/// sphere's outer shell, of unit length within normalization tolerance.
pub open spec fn unit_outcome(u: Vec3) -> bool {
    &&& in_range(u, 65540)
    &&& 65512 <= len2_spec(u) <= 65560
    &&& exists|p: Vec3| in_range(p, 65536) && 16384 <= #[trigger] len2_spec(p) && u == unit_spec(p)
}

/// A color: every channel within `[0, SCALE]`.
pub open spec fn color_wf(v: Vec3) -> bool {
    &&& 0 <= v.x <= 65536
    &&& 0 <= v.y <= 65536
    &&& 0 <= v.z <= 65536
}

pub open spec fn dot_spec(u: Vec3, v: Vec3) -> int {
    mul_fix(u.x as int, v.x as int) + mul_fix(u.y as int, v.y as int) + mul_fix(
        u.z as int,
        v.z as int,
    )
}

pub open spec fn len2_spec(v: Vec3) -> int {
    dot_spec(v, v)
}

/// The unit vector along `v`. A vector shorter than half a unit has too few
/// significant bits to normalize, and maps to the `z` axis instead.
pub open spec fn unit_spec(v: Vec3) -> Vec3 {
    if len2_spec(v) < 16384 {
        Vec3 { x: 0, y: 0, z: 65536 }
    } else {
        let l = sqrt_fix_spec(len2_spec(v));
        Vec3 {
            x: div_fix(v.x as int, l) as i64,
            y: div_fix(v.y as int, l) as i64,
            z: div_fix(v.z as int, l) as i64,
        }
    }
}

/// Mirror reflection of `v` about the normal `n`: `v - 2*dot(v,n)*n`.
pub open spec fn reflect_spec(v: Vec3, n: Vec3) -> Vec3 {
    Vec3 {
        x: (v.x - mul_fix(2 * dot_spec(v, n), n.x as int)) as i64,
        y: (v.y - mul_fix(2 * dot_spec(v, n), n.y as int)) as i64,
        z: (v.z - mul_fix(2 * dot_spec(v, n), n.z as int)) as i64,
    }
}

/// Snell refraction of the unit direction `uv` at the normal `n`, given the
/// ratio of refraction indices. The parallel component's radicand is clamped
/// by magnitude, so that rounding overshoot past one cannot fault the root.
pub open spec fn refract_spec(uv: Vec3, n: Vec3, etai_over_etat: int) -> Vec3 {
    let cos_theta = {
        let d = -dot_spec(uv, n);
        if d < 65536 {
            d
        } else {
            65536
        }
    };
    let px = mul_fix(etai_over_etat, uv.x + mul_fix(cos_theta, n.x as int));
    let py = mul_fix(etai_over_etat, uv.y + mul_fix(cos_theta, n.y as int));
    let pz = mul_fix(etai_over_etat, uv.z + mul_fix(cos_theta, n.z as int));
    let perp_len2 = mul_fix(px, px) + mul_fix(py, py) + mul_fix(pz, pz);
    let s = sqrt_fix_spec(mag(65536 - perp_len2));
    Vec3 {
        x: (px - mul_fix(s, n.x as int)) as i64,
        y: (py - mul_fix(s, n.y as int)) as i64,
        z: (pz - mul_fix(s, n.z as int)) as i64,
    }
}

impl Vec3 {
    pub fn new(a: i64, b: i64, c: i64) -> (r: Vec3)
        ensures
            r == (Vec3 { x: a, y: b, z: c }),
    {
        Vec3 { x: a, y: b, z: c }
    }

    pub fn add(self, o: Vec3) -> (r: Vec3)
        requires
            in_range(self, 0x2000000000000000),
            in_range(o, 0x2000000000000000),
        ensures
            r.x == self.x + o.x,
            r.y == self.y + o.y,
            r.z == self.z + o.z,
    {
        Vec3 { x: self.x + o.x, y: self.y + o.y, z: self.z + o.z }
    }

    pub fn sub(self, o: Vec3) -> (r: Vec3)
        requires
            in_range(self, 0x2000000000000000),
            in_range(o, 0x2000000000000000),
        ensures
            r.x == self.x - o.x,
            r.y == self.y - o.y,
            r.z == self.z - o.z,
    {
        Vec3 { x: self.x - o.x, y: self.y - o.y, z: self.z - o.z }
    }

    pub fn neg(self) -> (r: Vec3)
        requires
            in_range(self, 0x4000000000000000),
        ensures
            r.x == -self.x,
            r.y == -self.y,
            r.z == -self.z,
    {
        Vec3 { x: -self.x, y: -self.y, z: -self.z }
    }

    /// Componentwise fixed-point product.
    pub fn mul(self, o: Vec3) -> (r: Vec3)
        requires
            in_range(self, 549755813888),
            in_range(o, 549755813888),
        ensures
            r.x == mul_fix(self.x as int, o.x as int),
            r.y == mul_fix(self.y as int, o.y as int),
            r.z == mul_fix(self.z as int, o.z as int),
    {
        Vec3 { x: fmul(self.x, o.x), y: fmul(self.y, o.y), z: fmul(self.z, o.z) }
    }

    /// Scale by a fixed-point scalar.
    pub fn scale(self, k: i64) -> (r: Vec3)
        requires
            in_range(self, 549755813888),
            mag(k as int) <= 549755813888,
        ensures
            r.x == mul_fix(self.x as int, k as int),
            r.y == mul_fix(self.y as int, k as int),
            r.z == mul_fix(self.z as int, k as int),
    {
        Vec3 { x: fmul(self.x, k), y: fmul(self.y, k), z: fmul(self.z, k) }
    }

    pub fn len_2(&self) -> (r: i64)
        requires
            in_range(*self, 274877906944),
        ensures
            r == len2_spec(*self),
            0 <= r <= 3458764513820540928,
    {
        proof {
            lemma_square_fix_nonneg(self.x as int);
            lemma_square_fix_nonneg(self.y as int);
            lemma_square_fix_nonneg(self.z as int);
            lemma_mul_fix_bound(self.x as int, self.x as int, 274877906944, 274877906944);
            lemma_mul_fix_bound(self.y as int, self.y as int, 274877906944, 274877906944);
            lemma_mul_fix_bound(self.z as int, self.z as int, 274877906944, 274877906944);
        }
        fmul(self.x, self.x) + fmul(self.y, self.y) + fmul(self.z, self.z)
    }

    pub fn len(&self) -> (r: i64)
        requires
            in_range(*self, 274877906944),
        ensures
            r == sqrt_fix_spec(len2_spec(*self)),
            0 <= r,
    {
        sqrt_fix(self.len_2())
    }

    /// True when the vector is zero in every component: the smallest
    /// representable magnitude is one fixed-point step, so only the zero
    /// vector is degenerate.
    pub fn near_zero(&self) -> (r: bool)
        ensures
            r == (self.x == 0 && self.y == 0 && self.z == 0),
    {
        self.x == 0 && self.y == 0 && self.z == 0
    }

    /// Each component uniform in `[0, SCALE)`.
    pub fn random(rng: &mut rand::rngs::StdRng) -> (r: Vec3)
        ensures
            in_range(r, 65536),
            0 <= r.x < 65536,
            0 <= r.y < 65536,
            0 <= r.z < 65536,
    {
        let x = next_fraction(rng);
        let y = next_fraction(rng);
        let z = next_fraction(rng);
        Vec3 { x, y, z }
    }

    /// Each component uniform in `[min, max)`.
    pub fn random_range(min: i64, max: i64, rng: &mut rand::rngs::StdRng) -> (r: Vec3)
        requires
            min < max,
            mag(min as int) <= 549755813888,
            mag(max as int) <= 549755813888,
        ensures
            min <= r.x < max,
            min <= r.y < max,
            min <= r.z < max,
    {
        let span = max - min;
        let x = min + Self::random_step(span, rng);
        let y = min + Self::random_step(span, rng);
        let z = min + Self::random_step(span, rng);
        Vec3 { x, y, z }
    }

    /// A uniform fixed-point fraction of `span`.
    fn random_step(span: i64, rng: &mut rand::rngs::StdRng) -> (r: i64)
        requires
            0 < span <= 1099511627776,
        ensures
            0 <= r < span,
    {
        let f = next_fraction(rng);
        let r = fmul(f, span);
        proof {
            assert(0 <= mul_fix(f as int, span as int) < span) by (nonlinear_arith)
                requires
                    0 <= f < 65536,
                    0 < span;
        }
        r
    }

    /// Rejection-sample the cube until the point falls in the unit ball, but
    /// outside the half-unit ball where normalization would lose precision;
    /// after too many misses, fall back to a fixed interior point.
    pub fn random_in_unit_sphere(rng: &mut rand::rngs::StdRng) -> (r: Vec3)
        ensures
            in_range(r, 65536),
            16384 <= len2_spec(r) < 65536,
    {
        let mut tries: u32 = 0;
        while tries < 64
            decreases 64 - tries,
        {
            let p = Vec3::random_range(-65536, 65536, rng);
            let l2 = p.len_2();
            if 16384 <= l2 && l2 < 65536 {
                return p;
            }
            tries = tries + 1;
        }
        Vec3 { x: 0, y: 0, z: 32768 }
    }

    /// Rejection-sample the lens disk (the `z == 0` plane of the unit ball).
    pub fn random_in_unit_disk(rng: &mut rand::rngs::StdRng) -> (r: Vec3)
        ensures
            in_range(r, 65536),
            0 <= len2_spec(r) < 65536,
            r.z == 0,
    {
        let mut tries: u32 = 0;
        while tries < 64
            decreases 64 - tries,
        {
            let x = next_symmetric(rng);
            let y = next_symmetric(rng);
            let p = Vec3 { x, y, z: 0 };
            let l2 = p.len_2();
            if l2 < 65536 {
                proof {
                    lemma_square_fix_nonneg(p.x as int);
                    lemma_square_fix_nonneg(p.y as int);
                    lemma_square_fix_nonneg(p.z as int);
                }
                return p;
            }
            tries = tries + 1;
        }
        Vec3 { x: 0, y: 0, z: 0 }
    }

    /// A random direction of unit length, within normalization tolerance.
    pub fn random_unit(rng: &mut rand::rngs::StdRng) -> (r: Vec3)
        ensures
            unit_outcome(r),
            in_range(r, 65540),
            65512 <= len2_spec(r) <= 65560,
    {
        let p = Vec3::random_in_unit_sphere(rng);
        let r = unit_vector(p);
        proof {
            lemma_unit_length(p);
            assert(in_range(p, 65536) && 16384 <= len2_spec(p) && r == unit_spec(p));
        }
        r
    }
}

/// Runtime test of `in_range`, for the numeric guards of the intersection code.
pub fn check_range(v: Vec3, b: i64) -> (r: bool)
    requires
        0 <= b,
    ensures
        r == in_range(v, b as int),
{
    -b <= v.x && v.x <= b && -b <= v.y && v.y <= b && -b <= v.z && v.z <= b
}

pub fn dot(u: Vec3, v: Vec3) -> (r: i64)
    requires
        in_range(u, 274877906944),
        in_range(v, 274877906944),
    ensures
        r == dot_spec(u, v),
        mag(r as int) <= 3458764513820540928,
{
    proof {
        lemma_mul_fix_bound(u.x as int, v.x as int, 274877906944, 274877906944);
        lemma_mul_fix_bound(u.y as int, v.y as int, 274877906944, 274877906944);
        lemma_mul_fix_bound(u.z as int, v.z as int, 274877906944, 274877906944);
    }
    fmul(u.x, v.x) + fmul(u.y, v.y) + fmul(u.z, v.z)
}

/// The magnitude of a dot product is bounded by the product of the operands'
/// component bounds.
pub proof fn lemma_dot_bound(u: Vec3, v: Vec3, bu: int, bv: int)
    requires
        in_range(u, bu),
        in_range(v, bv),
        0 <= bu,
        0 <= bv,
    ensures
        mag(dot_spec(u, v)) <= 3 * ((bu * bv) / 65536),
{
    lemma_mul_fix_bound(u.x as int, v.x as int, bu, bv);
    lemma_mul_fix_bound(u.y as int, v.y as int, bu, bv);
    lemma_mul_fix_bound(u.z as int, v.z as int, bu, bv);
}

pub open spec fn cross_spec(u: Vec3, v: Vec3) -> Vec3 {
    Vec3 {
        x: (mul_fix(u.y as int, v.z as int) - mul_fix(u.z as int, v.y as int)) as i64,
        y: (mul_fix(u.z as int, v.x as int) - mul_fix(u.x as int, v.z as int)) as i64,
        z: (mul_fix(u.x as int, v.y as int) - mul_fix(u.y as int, v.x as int)) as i64,
    }
}

pub fn cross(u: Vec3, v: Vec3) -> (r: Vec3)
    requires
        in_range(u, 274877906944),
        in_range(v, 274877906944),
    ensures
        r == cross_spec(u, v),
        r.x == mul_fix(u.y as int, v.z as int) - mul_fix(u.z as int, v.y as int),
        r.y == mul_fix(u.z as int, v.x as int) - mul_fix(u.x as int, v.z as int),
        r.z == mul_fix(u.x as int, v.y as int) - mul_fix(u.y as int, v.x as int),
{
    proof {
        lemma_mul_fix_bound(u.y as int, v.z as int, 274877906944, 274877906944);
        lemma_mul_fix_bound(u.z as int, v.y as int, 274877906944, 274877906944);
        lemma_mul_fix_bound(u.z as int, v.x as int, 274877906944, 274877906944);
        lemma_mul_fix_bound(u.x as int, v.z as int, 274877906944, 274877906944);
        lemma_mul_fix_bound(u.x as int, v.y as int, 274877906944, 274877906944);
        lemma_mul_fix_bound(u.y as int, v.x as int, 274877906944, 274877906944);
    }
    Vec3 {
        x: fmul(u.y, v.z) - fmul(u.z, v.y),
        y: fmul(u.z, v.x) - fmul(u.x, v.z),
        z: fmul(u.x, v.y) - fmul(u.y, v.x),
    }
}

/// A component of a normalized vector has magnitude at most `SCALE + 4`.
proof fn lemma_unit_component_bound(x: int, l2: int, l: int)
    requires
        16384 <= l2,
        x * x < 65536 * (l2 + 1),
        32768 <= l,
        l * l <= 65536 * l2,
        65536 * l2 < (l + 1) * (l + 1),
    ensures
        mag(div_fix(x, l)) <= 65540,
{
    let n = mag(x) * 65536;
    assert(n * n < 65541 * l * (65541 * l)) by (nonlinear_arith)
        requires
            x * x < 65536 * (l2 + 1),
            65536 * l2 < (l + 1) * (l + 1),
            32768 <= l,
            n == mag(x) * 65536;
    assert(n < 65541 * l) by (nonlinear_arith)
        requires
            n >= 0,
            l >= 1,
            n * n < 65541 * l * (65541 * l);
    assert(n / l <= 65540) by (nonlinear_arith)
        requires
            n >= 0,
            l >= 1,
            n < 65541 * l;
    assert(mag(div_fix(x, l)) == n / l);
}

/// The fixed-point square of `a` brackets the exact square of its
/// magnitude within one scale step.
proof fn lemma_fix_sq_bounds(a: int)
    ensures
        mul_fix(a, a) >= 0,
        mag(a) * mag(a) == a * a,
        65536 * mul_fix(a, a) <= mag(a) * mag(a),
        mag(a) * mag(a) < 65536 * (mul_fix(a, a) + 1),
{
    assert(mul_fix(a, a) >= 0 && mag(a) * mag(a) == a * a && 65536 * mul_fix(a, a) <= mag(a) * mag(
    a) && mag(a) * mag(a) < 65536 * (mul_fix(a, a) + 1)) by (nonlinear_arith);
}

/// One component's contribution to the normalized length bounds: writing
/// `m` for the component's magnitude after division by the length `l`, the
/// square `m * l` lands within `2 l q` of the scaled component's square, on
/// either side.
proof fn lemma_unit_len_comp(x: int, l: int, m: int)
    requires
        l >= 1,
        m == (mag(x) * 65536) / l,
    ensures
        m >= 0,
        m * l <= mag(x) * 65536 < (m + 1) * l,
        m * m * (l * l) <= (mag(x) * 65536) * (mag(x) * 65536),
        (mag(x) * 65536) * (mag(x) * 65536) <= m * m * (l * l) + 2 * l * (mag(x) * 65536),
{
    let q = mag(x) * 65536;
    assert(m >= 0 && m * l <= q && q < (m + 1) * l) by (nonlinear_arith)
        requires
            m == q / l,
            l >= 1,
            q >= 0;
    assert(m * m * (l * l) <= q * q) by (nonlinear_arith)
        requires
            0 <= m * l <= q;
    assert(q * q <= m * m * (l * l) + 2 * l * q) by (nonlinear_arith)
        requires
            0 <= m * l,
            m * l <= q,
            q < (m + 1) * l,
            l >= 1;
}

/// Normalization preserves length: the normalized vector's squared length
/// is one within a tolerance of 24 fixed-point steps (about 0.0004), for
/// every vector — one too short to normalize maps to an exact unit axis.
pub proof fn lemma_unit_length(v: Vec3)
    ensures
        65512 <= len2_spec(unit_spec(v)) <= 65560,
{
    if len2_spec(v) < 16384 {
        assert(len2_spec(unit_spec(v)) == 65536);
        return ;
    }
    let l2 = len2_spec(v);
    let l = sqrt_fix_spec(l2);
    crate::fixed::lemma_isqrt_bounds(l2 * 65536);
    assert(l * l <= 65536 * l2 < (l + 1) * (l + 1));
    assert(l >= 32768) by (nonlinear_arith)
        requires
            l >= 0,
            65536 * l2 < (l + 1) * (l + 1),
            l2 >= 16384;
    let tx = mul_fix(v.x as int, v.x as int);
    let ty = mul_fix(v.y as int, v.y as int);
    let tz = mul_fix(v.z as int, v.z as int);
    lemma_fix_sq_bounds(v.x as int);
    lemma_fix_sq_bounds(v.y as int);
    lemma_fix_sq_bounds(v.z as int);
    assert(l2 == tx + ty + tz);

    let n = unit_spec(v);
    let mx = (mag(v.x as int) * 65536) / l;
    let my = (mag(v.y as int) * 65536) / l;
    let mz = (mag(v.z as int) * 65536) / l;
    lemma_unit_len_comp(v.x as int, l, mx);
    lemma_unit_len_comp(v.y as int, l, my);
    lemma_unit_len_comp(v.z as int, l, mz);
    assert(n.x as int == div_fix(v.x as int, l) && n.y as int == div_fix(v.y as int, l) && n.z
        as int == div_fix(v.z as int, l)) by {
        assert(v.x * v.x < 65536 * (l2 + 1) && v.y * v.y < 65536 * (l2 + 1) && v.z * v.z < 65536 * (
        l2 + 1)) by (nonlinear_arith)
            requires
                65536 * tx <= mag(v.x as int) * mag(v.x as int),
                mag(v.x as int) * mag(v.x as int) == v.x * v.x,
                mag(v.x as int) * mag(v.x as int) < 65536 * (tx + 1),
                65536 * ty <= mag(v.y as int) * mag(v.y as int),
                mag(v.y as int) * mag(v.y as int) == v.y * v.y,
                mag(v.y as int) * mag(v.y as int) < 65536 * (ty + 1),
                65536 * tz <= mag(v.z as int) * mag(v.z as int),
                mag(v.z as int) * mag(v.z as int) == v.z * v.z,
                mag(v.z as int) * mag(v.z as int) < 65536 * (tz + 1),
                tx >= 0,
                ty >= 0,
                tz >= 0,
                l2 == tx + ty + tz;
        lemma_unit_component_bound(v.x as int, l2, l);
        lemma_unit_component_bound(v.y as int, l2, l);
        lemma_unit_component_bound(v.z as int, l2, l);
    }
    assert(mag(div_fix(v.x as int, l)) == mx);
    assert(mag(div_fix(v.y as int, l)) == my);
    assert(mag(div_fix(v.z as int, l)) == mz);
    let ux = mul_fix(n.x as int, n.x as int);
    let uy = mul_fix(n.y as int, n.y as int);
    let uz = mul_fix(n.z as int, n.z as int);
    lemma_fix_sq_bounds(n.x as int);
    lemma_fix_sq_bounds(n.y as int);
    lemma_fix_sq_bounds(n.z as int);
    assert(len2_spec(n) == ux + uy + uz);

    // Upper bound, one component at a time, then summed over the vector.
    assert(ux * (l * l) <= 65536 * 65536 * (tx + 1)) by (nonlinear_arith)
        requires
            65536 * ux <= mx * mx,
            mx * mx * (l * l) <= (mag(v.x as int) * 65536) * (mag(v.x as int) * 65536),
            mag(v.x as int) * mag(v.x as int) < 65536 * (tx + 1),
            l >= 1,
            ux >= 0;
    assert(uy * (l * l) <= 65536 * 65536 * (ty + 1)) by (nonlinear_arith)
        requires
            65536 * uy <= my * my,
            my * my * (l * l) <= (mag(v.y as int) * 65536) * (mag(v.y as int) * 65536),
            mag(v.y as int) * mag(v.y as int) < 65536 * (ty + 1),
            l >= 1,
            uy >= 0;
    assert(uz * (l * l) <= 65536 * 65536 * (tz + 1)) by (nonlinear_arith)
        requires
            65536 * uz <= mz * mz,
            mz * mz * (l * l) <= (mag(v.z as int) * 65536) * (mag(v.z as int) * 65536),
            mag(v.z as int) * mag(v.z as int) < 65536 * (tz + 1),
            l >= 1,
            uz >= 0;
    assert((ux + uy + uz) * (l * l) <= 65536 * 65536 * (l2 + 3)) by (nonlinear_arith)
        requires
            ux * (l * l) <= 65536 * 65536 * (tx + 1),
            uy * (l * l) <= 65536 * 65536 * (ty + 1),
            uz * (l * l) <= 65536 * 65536 * (tz + 1),
            l2 == tx + ty + tz;
    assert(ux + uy + uz <= 65560) by (nonlinear_arith)
        requires
            (ux + uy + uz) * (l * l) <= 65536 * 65536 * (l2 + 3),
            65536 * l2 < (l + 1) * (l + 1),
            l >= 32768;

    // Lower bound, the same way; each component's magnitude is within one
    // of the sphere's length, so the division error stays small.
    assert(mag(v.x as int) <= l + 1 && mag(v.y as int) <= l + 1 && mag(v.z as int) <= l + 1)
        by (nonlinear_arith)
        requires
            mag(v.x as int) * mag(v.x as int) < 65536 * (tx + 1),
            mag(v.y as int) * mag(v.y as int) < 65536 * (ty + 1),
            mag(v.z as int) * mag(v.z as int) < 65536 * (tz + 1),
            tx <= l2 && ty <= l2 && tz <= l2,
            tx >= 0 && ty >= 0 && tz >= 0,
            l2 == tx + ty + tz,
            65536 * l2 < (l + 1) * (l + 1),
            l >= 32768,
            mag(v.x as int) >= 0,
            mag(v.y as int) >= 0,
            mag(v.z as int) >= 0;
    assert(tx * 65536 * 65536 <= (ux + 1) * (l * l) + 2 * l * (l + 1)) by (nonlinear_arith)
        requires
            65536 * tx <= mag(v.x as int) * mag(v.x as int),
            (mag(v.x as int) * 65536) * (mag(v.x as int) * 65536) <= mx * mx * (l * l) + 2 * l * (
            mag(v.x as int) * 65536),
            mx * mx < 65536 * (ux + 1),
            0 <= mag(v.x as int) <= l + 1,
            l >= 1;
    assert(ty * 65536 * 65536 <= (uy + 1) * (l * l) + 2 * l * (l + 1)) by (nonlinear_arith)
        requires
            65536 * ty <= mag(v.y as int) * mag(v.y as int),
            (mag(v.y as int) * 65536) * (mag(v.y as int) * 65536) <= my * my * (l * l) + 2 * l * (
            mag(v.y as int) * 65536),
            my * my < 65536 * (uy + 1),
            0 <= mag(v.y as int) <= l + 1,
            l >= 1;
    assert(tz * 65536 * 65536 <= (uz + 1) * (l * l) + 2 * l * (l + 1)) by (nonlinear_arith)
        requires
            65536 * tz <= mag(v.z as int) * mag(v.z as int),
            (mag(v.z as int) * 65536) * (mag(v.z as int) * 65536) <= mz * mz * (l * l) + 2 * l * (
            mag(v.z as int) * 65536),
            mz * mz < 65536 * (uz + 1),
            0 <= mag(v.z as int) <= l + 1,
            l >= 1;
    assert(l2 * 65536 * 65536 <= (ux + uy + uz + 3) * (l * l) + 6 * l * (l + 1))
        by (nonlinear_arith)
        requires
            tx * 65536 * 65536 <= (ux + 1) * (l * l) + 2 * l * (l + 1),
            ty * 65536 * 65536 <= (uy + 1) * (l * l) + 2 * l * (l + 1),
            tz * 65536 * 65536 <= (uz + 1) * (l * l) + 2 * l * (l + 1),
            l2 == tx + ty + tz;
    assert(ux + uy + uz >= 65512) by (nonlinear_arith)
        requires
            l2 * 65536 * 65536 <= (ux + uy + uz + 3) * (l * l) + 6 * l * (l + 1),
            l * l <= 65536 * l2,
            l >= 32768;
}

pub fn unit_vector(v: Vec3) -> (r: Vec3)
    requires
        in_range(v, 274877906944),
    ensures
        r == unit_spec(v),
        in_range(r, 65540),
{
    let l2 = v.len_2();
    if l2 < 16384 {
        Vec3 { x: 0, y: 0, z: 65536 }
    } else {
        let l = sqrt_fix(l2);
        proof {
            assert(32768 <= l) by (nonlinear_arith)
                requires
                    65536 * l2 < (l + 1) * (l + 1),
                    l2 >= 16384,
                    l >= 0;
            lemma_square_fix_nonneg(v.x as int);
            lemma_square_fix_nonneg(v.y as int);
            lemma_square_fix_nonneg(v.z as int);
            assert(v.x * v.x < 65536 * (l2 + 1) && v.y * v.y < 65536 * (l2 + 1) && v.z * v.z
                < 65536 * (l2 + 1)) by (nonlinear_arith)
                requires
                    mul_fix(v.x as int, v.x as int) <= l2,
                    mul_fix(v.y as int, v.y as int) <= l2,
                    mul_fix(v.z as int, v.z as int) <= l2;
            lemma_unit_component_bound(v.x as int, l2 as int, l as int);
            lemma_unit_component_bound(v.y as int, l2 as int, l as int);
            lemma_unit_component_bound(v.z as int, l2 as int, l as int);
        }
        Vec3 { x: fdiv(v.x, l), y: fdiv(v.y, l), z: fdiv(v.z, l) }
    }
}

/// One component of the reflected dot product, written over exact products
/// with one-step rounding errors pulled out. `dd` is the doubled dot.
proof fn lemma_reflect_dot_comp(vc: int, nc: int, dd: int)
    requires
        mag(nc) <= 262144,
    ensures
        (vc - mul_fix(dd, nc)) * nc == vc * nc - mul_fix(dd, nc) * nc,
        65536 * (mul_fix(dd, nc) * nc) == dd * (nc * nc) - (dd * nc - 65536 * mul_fix(dd, nc))
            * nc,
        mag((dd * nc - 65536 * mul_fix(dd, nc)) * nc) <= 65535 * 262144,
        mag(vc * nc - 65536 * mul_fix(vc, nc)) <= 65535,
        mag((vc - mul_fix(dd, nc)) * nc - 65536 * mul_fix(vc - mul_fix(dd, nc), nc)) <= 65535,
{
    crate::fixed::lemma_mul_fix_err(vc, nc);
    crate::fixed::lemma_mul_fix_err(dd, nc);
    crate::fixed::lemma_mul_fix_err(vc - mul_fix(dd, nc), nc);
    let m = mul_fix(dd, nc);
    let e2 = dd * nc - 65536 * m;
    assert((vc - m) * nc == vc * nc - m * nc) by (nonlinear_arith);
    assert(65536 * (m * nc) == dd * (nc * nc) - e2 * nc) by (nonlinear_arith)
        requires
            e2 == dd * nc - 65536 * m;
    assert(mag(e2 * nc) <= 65535 * 262144) by (nonlinear_arith)
        requires
            mag(e2) <= 65535,
            mag(nc) <= 262144;
}

/// Specular reflection opposes the normal: against a normal of unit length
/// (within normalization tolerance), the reflected direction's component
/// along the normal is the negation of the incoming one, up to fixed-point
/// rounding — the bound reads `|dot(reflect(v,n),n) + dot(v,n)|` at most
/// `54/65536` of `|dot(v,n)|` plus eighteen steps.
#[verifier::rlimit(100)]
#[verifier::spinoff_prover]
pub proof fn lemma_reflect_opposes_normal(v: Vec3, n: Vec3)
    requires
        in_range(v, 1048576),
        in_range(n, 262144),
        65512 <= len2_spec(n) <= 65560,
    ensures
        65536 * mag(dot_spec(reflect_spec(v, n), n) + dot_spec(v, n)) <= 54 * mag(
            dot_spec(v, n),
        ) + 1179648,
{
    let d = dot_spec(v, n);
    let dd = 2 * d;
    lemma_dot_bound(v, n, 1048576, 262144);
    let m1 = mul_fix(dd, n.x as int);
    let m2 = mul_fix(dd, n.y as int);
    let m3 = mul_fix(dd, n.z as int);
    lemma_mul_fix_bound(dd, n.x as int, 25165824, 262144);
    lemma_mul_fix_bound(dd, n.y as int, 25165824, 262144);
    lemma_mul_fix_bound(dd, n.z as int, 25165824, 262144);
    let rx = v.x - m1;
    let ry = v.y - m2;
    let rz = v.z - m3;
    assert(reflect_spec(v, n).x == rx && reflect_spec(v, n).y == ry && reflect_spec(v, n).z == rz);
    lemma_reflect_dot_comp(v.x as int, n.x as int, dd);
    lemma_reflect_dot_comp(v.y as int, n.y as int, dd);
    lemma_reflect_dot_comp(v.z as int, n.z as int, dd);

    // The squared normal components bracket the normal's squared length.
    let qx = (n.x as int) * (n.x as int);
    let qy = (n.y as int) * (n.y as int);
    let qz = (n.z as int) * (n.z as int);
    lemma_fix_sq_bounds(n.x as int);
    lemma_fix_sq_bounds(n.y as int);
    lemma_fix_sq_bounds(n.z as int);
    let l2 = len2_spec(n);
    assert(65536 * l2 <= qx + qy + qz < 65536 * l2 + 3 * 65536);

    // The deviation of the squared length from one, scaled by the doubled dot.
    let q = qx + qy + qz;
    assert(mag(65536 * 65536 - q) <= 1769472);
    assert(mag(dd * (65536 * 65536 - q)) <= mag(dd) * 1769472) by (nonlinear_arith)
        requires
            mag(65536 * 65536 - q) <= 1769472;
    assert(dd * (65536 * 65536) - dd * q == dd * (65536 * 65536 - q)) by (nonlinear_arith);
    assert(dd * qx + dd * qy + dd * qz == dd * q) by (nonlinear_arith)
        requires
            q == qx + qy + qz;
    assert(mag(dd) * 1769472 <= 2 * mag(d) * 1769472) by (nonlinear_arith)
        requires
            dd == 2 * d;

    // Assemble: everything below is linear in the named products.
    let e1x = v.x * n.x - 65536 * mul_fix(v.x as int, n.x as int);
    let e1y = v.y * n.y - 65536 * mul_fix(v.y as int, n.y as int);
    let e1z = v.z * n.z - 65536 * mul_fix(v.z as int, n.z as int);
    let e2x = (dd * n.x - 65536 * m1) * (n.x as int);
    let e2y = (dd * n.y - 65536 * m2) * (n.y as int);
    let e2z = (dd * n.z - 65536 * m3) * (n.z as int);
    let e3x = rx * (n.x as int) - 65536 * mul_fix(rx, n.x as int);
    let e3y = ry * (n.y as int) - 65536 * mul_fix(ry, n.y as int);
    let e3z = rz * (n.z as int) - 65536 * mul_fix(rz, n.z as int);
    let t0 = dot_spec(reflect_spec(v, n), n);
    assert(t0 == mul_fix(rx, n.x as int) + mul_fix(ry, n.y as int) + mul_fix(rz, n.z as int));
    assert(65536 * t0 == (rx * (n.x as int) + ry * (n.y as int) + rz * (n.z as int)) - (e3x + e3y
        + e3z));
    assert(rx * (n.x as int) + ry * (n.y as int) + rz * (n.z as int) == (v.x * n.x + v.y * n.y
        + v.z * n.z) - (m1 * (n.x as int) + m2 * (n.y as int) + m3 * (n.z as int)));
    assert(65536 * (m1 * (n.x as int) + m2 * (n.y as int) + m3 * (n.z as int)) == dd * q - (e2x
        + e2y + e2z));
    assert(65536 * d == (v.x * n.x + v.y * n.y + v.z * n.z) - (e1x + e1y + e1z));
    assert(65536 * 65536 * (t0 + d) == dd * (65536 * 65536 - q) + 65536 * (e1x + e1y + e1z) + (e2x
        + e2y + e2z) - 65536 * (e3x + e3y + e3z));
    assert(65536 * 65536 * mag(t0 + d) <= 2 * mag(d) * 1769472 + 65536 * 196605 + 3 * 65535
        * 262144 + 65536 * 196605);
    assert(65536 * 65536 * mag(t0 + d) <= 65536 * (54 * mag(d) + 1179648)) by (nonlinear_arith)
        requires
            65536 * 65536 * mag(t0 + d) <= 2 * mag(d) * 1769472 + 65536 * 196605 + 3 * 65535
                * 262144 + 65536 * 196605;
    assert(65536 * mag(t0 + d) <= 54 * mag(d) + 1179648);
}

pub fn reflect(v: Vec3, n: Vec3) -> (r: Vec3)
    requires
        in_range(v, 1048576),
        in_range(n, 1048576),
    ensures
        r == reflect_spec(v, n),
        in_range(v, 262144) && in_range(n, 262144) ==> in_range(r, 67108864),
{
    proof {
        lemma_dot_bound(v, n, 1048576, 1048576);
        lemma_mul_fix_bound(2 * dot_spec(v, n), n.x as int, 100663296, 1048576);
        lemma_mul_fix_bound(2 * dot_spec(v, n), n.y as int, 100663296, 1048576);
        lemma_mul_fix_bound(2 * dot_spec(v, n), n.z as int, 100663296, 1048576);
        if in_range(v, 262144) && in_range(n, 262144) {
            lemma_dot_bound(v, n, 262144, 262144);
            lemma_mul_fix_bound(2 * dot_spec(v, n), n.x as int, 6291456, 262144);
            lemma_mul_fix_bound(2 * dot_spec(v, n), n.y as int, 6291456, 262144);
            lemma_mul_fix_bound(2 * dot_spec(v, n), n.z as int, 6291456, 262144);
        }
    }
    let d = dot(v, n);
    let twod = 2 * d;
    Vec3 { x: v.x - fmul(twod, n.x), y: v.y - fmul(twod, n.y), z: v.z - fmul(twod, n.z) }
}

pub fn refract(uv: Vec3, n: Vec3, etai_over_etat: i64) -> (r: Vec3)
    requires
        in_range(uv, 262144),
        in_range(n, 262144),
        0 < etai_over_etat <= 262144,
    ensures
        r == refract_spec(uv, n, etai_over_etat as int),
{
    proof {
        lemma_dot_bound(uv, n, 262144, 262144);
    }
    let d = -dot(uv, n);
    let cos_theta = if d < 65536 {
        d
    } else {
        65536
    };
    proof {
        lemma_mul_fix_bound(cos_theta as int, n.x as int, 6291456, 262144);
        lemma_mul_fix_bound(cos_theta as int, n.y as int, 6291456, 262144);
        lemma_mul_fix_bound(cos_theta as int, n.z as int, 6291456, 262144);
        lemma_mul_fix_bound(
            etai_over_etat as int,
            uv.x + mul_fix(cos_theta as int, n.x as int),
            262144,
            25427968,
        );
        lemma_mul_fix_bound(
            etai_over_etat as int,
            uv.y + mul_fix(cos_theta as int, n.y as int),
            262144,
            25427968,
        );
        lemma_mul_fix_bound(
            etai_over_etat as int,
            uv.z + mul_fix(cos_theta as int, n.z as int),
            262144,
            25427968,
        );
    }
    let px = fmul(etai_over_etat, uv.x + fmul(cos_theta, n.x));
    let py = fmul(etai_over_etat, uv.y + fmul(cos_theta, n.y));
    let pz = fmul(etai_over_etat, uv.z + fmul(cos_theta, n.z));
    proof {
        lemma_square_fix_nonneg(px as int);
        lemma_square_fix_nonneg(py as int);
        lemma_square_fix_nonneg(pz as int);
        lemma_mul_fix_bound(px as int, px as int, 101711872, 101711872);
        lemma_mul_fix_bound(py as int, py as int, 101711872, 101711872);
        lemma_mul_fix_bound(pz as int, pz as int, 101711872, 101711872);
    }
    let perp_len2 = fmul(px, px) + fmul(py, py) + fmul(pz, pz);
    let radicand = if 65536 - perp_len2 >= 0 {
        65536 - perp_len2
    } else {
        -(65536 - perp_len2)
    };
    let s = sqrt_fix(radicand);
    proof {
        lemma_mul_fix_bound(s as int, n.x as int, 1099511627776, 262144);
        lemma_mul_fix_bound(s as int, n.y as int, 1099511627776, 262144);
        lemma_mul_fix_bound(s as int, n.z as int, 1099511627776, 262144);
    }
    Vec3 { x: px - fmul(s, n.x), y: py - fmul(s, n.y), z: pz - fmul(s, n.z) }
}

} // verus!
