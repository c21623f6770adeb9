//! Fixed-point scalar arithmetic.
//!
//! Every scalar quantity of the renderer (coordinates, colors, ray
//! parameters) is an `i64` holding a real value scaled by `SCALE`:
//! the stored number `n` stands for the real number `n / SCALE`.
//! Products and quotients truncate toward zero, like hardware division.

use vstd::prelude::*;

verus! {

/// The fixed-point scale: one world unit, and the largest color channel value.
pub const SCALE: i64 = 65536;

/// Magnitude of an integer.
pub open spec fn mag(a: int) -> int {
    if a >= 0 {
        a
    } else {
        -a
    }
}

/// Rescale a double-width product back to fixed point, truncating toward zero.
pub open spec fn to_fix(p: int) -> int {
    if p >= 0 {
        p / 65536
    } else {
        -((-p) / 65536)
    }
}

/// Fixed-point product: the real product of the two operands, truncated.
pub open spec fn mul_fix(a: int, b: int) -> int {
    to_fix(a * b)
}

/// Fixed-point quotient: the real quotient of the two operands, truncated
/// toward zero. Unspecified when `b == 0`.
pub open spec fn div_fix(a: int, b: int) -> int {
    let q = (mag(a) * 65536) / mag(b);
    if (a >= 0) == (b >= 0) {
        q
    } else {
        -q
    }
}

/// The integer square root of `n`: the largest `r` with `r * r <= n`.
pub open spec fn isqrt_spec(n: int) -> int
    decreases n,
{
    if n < 1 {
        0
    } else {
        let r = isqrt_spec(n - 1);
        if (r + 1) * (r + 1) <= n {
            r + 1
        } else {
            r
        }
    }
}

/// Square root of a fixed-point value: `isqrt(x * SCALE)` carries the scale
/// through the square root, since `sqrt(x / S) * S == sqrt(x * S)`.
pub open spec fn sqrt_fix_spec(x: int) -> int {
    isqrt_spec(x * 65536)
}

pub proof fn lemma_isqrt_bounds(n: int)
    requires
        n >= 0,
    ensures
        0 <= isqrt_spec(n),
        isqrt_spec(n) * isqrt_spec(n) <= n,
        n < (isqrt_spec(n) + 1) * (isqrt_spec(n) + 1),
    decreases n,
{
    if n == 0 {
    } else {
        lemma_isqrt_bounds(n - 1);
        let r = isqrt_spec(n - 1);
        if (r + 1) * (r + 1) <= n {
            assert(n < (r + 2) * (r + 2)) by (nonlinear_arith)
                requires
                    r >= 0,
                    n - 1 < (r + 1) * (r + 1);
        }
    }
}

pub proof fn lemma_isqrt_unique(n: int, r: int)
    requires
        n >= 0,
        r >= 0,
        r * r <= n,
        n < (r + 1) * (r + 1),
    ensures
        r == isqrt_spec(n),
{
    lemma_isqrt_bounds(n);
    let s = isqrt_spec(n);
    assert(r == s) by (nonlinear_arith)
        requires
            r >= 0,
            s >= 0,
            r * r <= n,
            n < (r + 1) * (r + 1),
            s * s <= n,
            n < (s + 1) * (s + 1);
}

/// Fixed-point multiply. The disjuncts of the precondition are the three
/// operand shapes the renderer produces: two mid-sized factors, a direction
/// times a large ray parameter, and a large quadratic coefficient times a
/// mid-sized one. Each keeps the scaled product inside `i64`.
pub fn fmul(a: i64, b: i64) -> (r: i64)
    requires
        (mag(a as int) <= 549755813888 && mag(b as int) <= 549755813888) || (mag(a as int)
            <= 134217728 && mag(b as int) <= 1125899906842624) || (mag(a as int) <= 1099511627776
            && mag(b as int) <= 274877906944),
    ensures
        r == mul_fix(a as int, b as int),
        mag(r as int) <= 4611686018427387904,
{
    proof {
        assert(mag(a as int * b as int) <= 302231454903657293676544) by (nonlinear_arith)
            requires
                (mag(a as int) <= 549755813888 && mag(b as int) <= 549755813888) || (mag(a as int)
                    <= 134217728 && mag(b as int) <= 1125899906842624) || (mag(a as int)
                    <= 1099511627776 && mag(b as int) <= 274877906944);
    }
    let p: i128 = (a as i128) * (b as i128);
    if p >= 0 {
        let q: u128 = (p as u128) / 65536;
        q as i64
    } else {
        let q: u128 = ((-p) as u128) / 65536;
        -(q as i64)
    }
}

/// Fixed-point divide, truncating toward zero.
pub fn fdiv(a: i64, b: i64) -> (r: i64)
    requires
        b != 0,
        mag(a as int) <= 70368744177664,
    ensures
        r == div_fix(a as int, b as int),
        mag(r as int) <= mag(a as int) * 65536,
{
    let am: u128 = if a >= 0 {
        a as u128
    } else {
        (-(a as i128)) as u128
    };
    let bm: u128 = if b >= 0 {
        b as u128
    } else {
        (-(b as i128)) as u128
    };
    let n: u128 = am * 65536;
    let q: u128 = n / bm;
    proof {
        assert(q <= n) by (nonlinear_arith)
            requires
                bm >= 1,
                n >= 0,
                q == n / bm;
    }
    if (a >= 0) == (b >= 0) {
        q as i64
    } else {
        -(q as i64)
    }
}

/// Integer square root by binary search.
pub fn isqrt(n: u128) -> (r: u128)
    requires
        n <= 0x10000000000000000000000000,
    ensures
        r == isqrt_spec(n as int),
        r * r <= n < (r + 1) * (r + 1),
        r <= 0x4000000000000,
{
    let mut lo: u128 = 0;
    let mut hi: u128 = 0x4000000000001;
    proof {
        assert(n < hi * hi) by (nonlinear_arith)
            requires
                n <= 0x10000000000000000000000000,
                hi == 0x4000000000001;
    }
    while lo + 1 < hi
        invariant
            lo * lo <= n,
            n < hi * hi,
            lo < hi,
            hi <= 0x4000000000001,
        decreases hi - lo,
    {
        let mid = lo + (hi - lo) / 2;
        proof {
            assert(mid * mid <= 0x10000000000000000000000000) by (nonlinear_arith)
                requires
                    0 <= mid <= 0x4000000000000;
        }
        if mid * mid <= n {
            lo = mid;
        } else {
            hi = mid;
        }
    }
    proof {
        lemma_isqrt_unique(n as int, lo as int);
    }
    lo
}

/// Square root of a non-negative fixed-point value.
pub fn sqrt_fix(x: i64) -> (r: i64)
    requires
        0 <= x,
    ensures
        r == sqrt_fix_spec(x as int),
        0 <= r,
        r * r <= x * 65536 < (r + 1) * (r + 1),
        r < 1099511627776,
{
    let n: u128 = (x as u128) * 65536;
    let r = isqrt(n);
    proof {
        assert(r < 1099511627776) by (nonlinear_arith)
            requires
                r * r <= n,
                n < 1208925819614629174706176;
    }
    r as i64
}

/// Fixed-point division by a positive divisor is monotone in the dividend.
pub proof fn lemma_div_fix_mono(x: int, y: int, d: int)
    requires
        x <= y,
        d >= 1,
    ensures
        div_fix(x, d) <= div_fix(y, d),
{
    if 0 <= x {
        assert((mag(x) * 65536) / mag(d) <= (mag(y) * 65536) / mag(d)) by (nonlinear_arith)
            requires
                0 <= mag(x) * 65536 <= mag(y) * 65536,
                mag(d) >= 1;
    } else if y < 0 {
        assert((mag(y) * 65536) / mag(d) <= (mag(x) * 65536) / mag(d)) by (nonlinear_arith)
            requires
                0 <= mag(y) * 65536 <= mag(x) * 65536,
                mag(d) >= 1;
    } else {
        assert((mag(x) * 65536) / mag(d) >= 0 && (mag(y) * 65536) / mag(d) >= 0)
            by (nonlinear_arith)
            requires
                mag(x) >= 0,
                mag(y) >= 0,
                mag(d) >= 1;
    }
}

/// A fixed-point product is the exact product up to one scale step.
pub proof fn lemma_mul_fix_err(a: int, b: int)
    ensures
        mag(65536 * mul_fix(a, b) - a * b) < 65536,
{
    assert(mag(65536 * to_fix(a * b) - a * b) < 65536) by (nonlinear_arith);
}

/// A square rescaled to fixed point is non-negative.
pub proof fn lemma_square_fix_nonneg(a: int)
    ensures
        mul_fix(a, a) >= 0,
{
    assert(a * a >= 0) by (nonlinear_arith);
}

/// A product of two fixed-point fractions in `[0, SCALE]` stays in `[0, SCALE]`,
/// below either factor's bound: attenuation never gains energy.
pub proof fn lemma_fraction_bound(a: int, b: int)
    requires
        0 <= a <= 65536,
        0 <= b <= 65536,
    ensures
        0 <= mul_fix(a, b) <= a,
        mul_fix(a, b) <= b,
{
    assert(0 <= (a * b) / 65536 <= a && (a * b) / 65536 <= b) by (nonlinear_arith)
        requires
            0 <= a <= 65536,
            0 <= b <= 65536;
}

/// Bounding a fixed-point product by bounds on its factors.
pub proof fn lemma_mul_fix_bound(a: int, b: int, bound_a: int, bound_b: int)
    requires
        mag(a) <= bound_a,
        mag(b) <= bound_b,
        0 <= bound_a,
        0 <= bound_b,
    ensures
        mag(mul_fix(a, b)) <= (bound_a * bound_b) / 65536,
{
    assert(mag(to_fix(a * b)) <= (bound_a * bound_b) / 65536) by (nonlinear_arith)
        requires
            mag(a) <= bound_a,
            mag(b) <= bound_b,
            0 <= bound_a,
            0 <= bound_b;
}

} // verus!
