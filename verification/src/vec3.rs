use crate::math::{
    lemma_isqrt_exists, lemma_isqrt_is, lemma_tdiv_exact, lemma_tdiv_error,
    lemma_mul_nonneg,
    abs_i, is_isqrt, isqrt, isqrt_u128, lemma_isqrt_bound, lemma_tdiv_bound, min_i64, tdiv,
    tdiv_i128, POS_MAX, SCALE, T_MAX,
};
use vstd::prelude::*;

verus! {

/// Mathematical view of a vector: unbounded integer components, each counting
/// `SCALE`-ths of a real unit.
pub ghost struct V3 {
    pub x: int,
    pub y: int,
    pub z: int,
}

/// A three-component fixed-point vector, also used as a position (`Point3`)
/// and as a linear RGB color (`Color`).
#[derive(Clone, Copy, PartialEq, Eq, Structural, Debug)]
pub struct Vec3 {
    pub x: i64,
    pub y: i64,
    pub z: i64,
}

pub type Point3 = Vec3;

pub type Color = Vec3;

impl View for Vec3 {
    type V = V3;

    open spec fn view(&self) -> V3 {
        V3 { x: self.x as int, y: self.y as int, z: self.z as int }
    }
}

pub open spec fn v3(x: int, y: int, z: int) -> V3 {
    V3 { x, y, z }
}

/// Every component is at most `b` in magnitude.
pub open spec fn bounded(v: V3, b: int) -> bool {
    abs_i(v.x) <= b && abs_i(v.y) <= b && abs_i(v.z) <= b
}

pub open spec fn add_v(a: V3, b: V3) -> V3 {
    V3 { x: a.x + b.x, y: a.y + b.y, z: a.z + b.z }
}

pub open spec fn sub_v(a: V3, b: V3) -> V3 {
    V3 { x: a.x - b.x, y: a.y - b.y, z: a.z - b.z }
}

pub open spec fn neg_v(a: V3) -> V3 {
    V3 { x: -a.x, y: -a.y, z: -a.z }
}

/// Dot product before rescaling: the value carries scale `SCALE * SCALE`.
pub open spec fn raw_dot(a: V3, b: V3) -> int {
    a.x * b.x + a.y * b.y + a.z * b.z
}

/// Squared length at scale `SCALE * SCALE`; never negative.
pub open spec fn raw_norm(a: V3) -> int {
    raw_dot(a, a)
}

/// Dot product as a fixed-point scalar.
pub open spec fn dot_v(a: V3, b: V3) -> int {
    tdiv(raw_dot(a, b), SCALE as int)
}

/// Scalar multiple `k * a` where `k` is a fixed-point scalar.
pub open spec fn scale_v(k: int, a: V3) -> V3 {
    V3 {
        x: tdiv(k * a.x, SCALE as int),
        y: tdiv(k * a.y, SCALE as int),
        z: tdiv(k * a.z, SCALE as int),
    }
}

/// Component-wise product, used for color attenuation.
pub open spec fn mul_v(a: V3, b: V3) -> V3 {
    V3 {
        x: tdiv(a.x * b.x, SCALE as int),
        y: tdiv(a.y * b.y, SCALE as int),
        z: tdiv(a.z * b.z, SCALE as int),
    }
}

/// Division by a nonzero fixed-point scalar.
pub open spec fn div_v(a: V3, k: int) -> V3 {
    V3 {
        x: tdiv(a.x * (SCALE as int), k),
        y: tdiv(a.y * (SCALE as int), k),
        z: tdiv(a.z * (SCALE as int), k),
    }
}

pub open spec fn cross_v(a: V3, b: V3) -> V3 {
    V3 {
        x: tdiv(a.y * b.z - a.z * b.y, SCALE as int),
        y: tdiv(a.z * b.x - a.x * b.z, SCALE as int),
        z: tdiv(a.x * b.y - a.y * b.x, SCALE as int),
    }
}

/// Fixed-point length: the integer square root of the raw squared length.
pub open spec fn len_v(a: V3) -> int {
    isqrt(raw_norm(a))
}

/// The normalized vector; meaningful only when `a` is nonzero.
pub open spec fn unit_v(a: V3) -> V3 {
    V3 {
        x: tdiv(a.x * (SCALE as int), len_v(a)),
        y: tdiv(a.y * (SCALE as int), len_v(a)),
        z: tdiv(a.z * (SCALE as int), len_v(a)),
    }
}

/// Below the diffuse-fallback threshold; at this resolution that is exactly
/// the zero vector.
pub open spec fn near_zero_v(a: V3) -> bool {
    a.x == 0 && a.y == 0 && a.z == 0
}

/// What `random_in_unit_sphere` may return: a point in the spherical shell
/// between one half and one unit of length.
pub open spec fn sphere_sample(p: V3) -> bool {
    &&& bounded(p, SCALE as int)
    &&& 250_000_000_000 <= raw_norm(p) < 1_000_000_000_000
}

/// What `random_unit_vector` may return: a vector of near-unit length,
/// within eleven millionths of a squared unit.
pub open spec fn unit_sample(u: V3) -> bool {
    &&& bounded(u, SCALE as int)
    &&& abs_i(raw_norm(u) - 1_000_000_000_000) <= 11_000_000
}

/// Mirror reflection `v - 2 * dot(v, n) * n`, rounded once per component.
pub open spec fn reflect_v(v: V3, n: V3) -> V3 {
    let d2 = 2 * raw_dot(v, n);
    V3 {
        x: v.x - tdiv(d2 * n.x, (SCALE as int) * (SCALE as int)),
        y: v.y - tdiv(d2 * n.y, (SCALE as int) * (SCALE as int)),
        z: v.z - tdiv(d2 * n.z, (SCALE as int) * (SCALE as int)),
    }
}

/// The smaller of two integers.
pub open spec fn min_i(a: int, b: int) -> int {
    if a <= b {
        a
    } else {
        b
    }
}

/// Snell refraction of the unit direction `uv` at a surface with unit normal
/// `n`, for the given ratio of refraction indices; mirrors the split into a
/// perpendicular and a parallel component.
pub open spec fn refract_v(uv: V3, n: V3, ratio: int) -> V3 {
    let cos = min_i(SCALE as int, dot_v(neg_v(uv), n));
    let r_perp = scale_v(ratio, add_v(uv, scale_v(cos, n)));
    let ls = tdiv(raw_norm(r_perp), SCALE as int);
    let st = isqrt(abs_i(SCALE - ls) * (SCALE as int));
    add_v(r_perp, neg_v(scale_v(st, n)))
}

/// A product of two magnitude bounds bounds the magnitude of the product.
pub proof fn lemma_mul_abs_bound(a: int, b: int, ba: int, bb: int)
    by (nonlinear_arith)
    requires
        abs_i(a) <= ba,
        abs_i(b) <= bb,
    ensures
        abs_i(a * b) <= ba * bb,
{
}

/// A square is never negative.
pub proof fn lemma_square_nonneg(a: int)
    by (nonlinear_arith)
    ensures
        a * a >= 0,
        a * a == abs_i(a) * abs_i(a),
{
}

/// Bounds on the scalar and the vector bound the scaled vector.
pub proof fn lemma_scale_bounded(k: int, a: V3, bk: int, ba: int)
    requires
        abs_i(k) <= bk,
        bounded(a, ba),
    ensures
        bounded(scale_v(k, a), (bk * ba) / (SCALE as int) + 1),
{
    let m = bk * ba;
    assert(m >= 0) by (nonlinear_arith)
        requires
            bk >= 0,
            ba >= 0,
            m == bk * ba,
    ;
    lemma_mul_abs_bound(k, a.x, bk, ba);
    lemma_mul_abs_bound(k, a.y, bk, ba);
    lemma_mul_abs_bound(k, a.z, bk, ba);
    vstd::arithmetic::div_mod::lemma_fundamental_div_mod(m, SCALE as int);
    vstd::arithmetic::div_mod::lemma_mod_bound(m, SCALE as int);
    lemma_tdiv_bound(k * a.x, SCALE as int, m / (SCALE as int) + 1);
    lemma_tdiv_bound(k * a.y, SCALE as int, m / (SCALE as int) + 1);
    lemma_tdiv_bound(k * a.z, SCALE as int, m / (SCALE as int) + 1);
}

/// Component bounds on both vectors bound their raw dot product.
pub proof fn lemma_raw_dot_bound(u: V3, v: V3, b: int)
    requires
        bounded(u, b),
        bounded(v, b),
    ensures
        abs_i(raw_dot(u, v)) <= 3 * (b * b),
{
    lemma_mul_abs_bound(u.x, v.x, b, b);
    lemma_mul_abs_bound(u.y, v.y, b, b);
    lemma_mul_abs_bound(u.z, v.z, b, b);
}

/// As `lemma_raw_dot_bound`, with a separate bound for each vector.
pub proof fn lemma_raw_dot_bound2(u: V3, v: V3, bu: int, bv: int)
    requires
        bounded(u, bu),
        bounded(v, bv),
    ensures
        abs_i(raw_dot(u, v)) <= 3 * (bu * bv),
{
    lemma_mul_abs_bound(u.x, v.x, bu, bv);
    lemma_mul_abs_bound(u.y, v.y, bu, bv);
    lemma_mul_abs_bound(u.z, v.z, bu, bv);
}

/// A vector is orthogonal to its cross product with anything, up to the
/// rounding of the cross product's components: for `u` with unit-bounded
/// components, the raw dot of `u` with `cross_v(w, u)` is within
/// `3 * SCALE` raw units of zero (three millionths).
pub proof fn lemma_cross_orthogonal(w: V3, u: V3)
    requires
        bounded(u, 1_000_000),
    ensures
        abs_i(raw_dot(u, cross_v(w, u))) <= 3_000_000,
{
    let sc = SCALE as int;
    let cx = w.y * u.z - w.z * u.y;
    let cy = w.z * u.x - w.x * u.z;
    let cz = w.x * u.y - w.y * u.x;
    // The scalar triple product of u, w and u vanishes exactly.
    assert(u.x * cx + u.y * cy + u.z * cz == 0) by (nonlinear_arith)
        requires
            cx == w.y * u.z - w.z * u.y,
            cy == w.z * u.x - w.x * u.z,
            cz == w.x * u.y - w.y * u.x,
    ;
    lemma_tdiv_error(cx, sc);
    lemma_tdiv_error(cy, sc);
    lemma_tdiv_error(cz, sc);
    let vx = tdiv(cx, sc);
    let vy = tdiv(cy, sc);
    let vz = tdiv(cz, sc);
    let rx = cx - vx * sc;
    let ry = cy - vy * sc;
    let rz = cz - vz * sc;
    assert(1_000_000 * (u.x * vx) == u.x * cx - u.x * rx) by (nonlinear_arith)
        requires
            vx * sc == cx - rx,
            sc == 1_000_000,
    ;
    assert(1_000_000 * (u.y * vy) == u.y * cy - u.y * ry) by (nonlinear_arith)
        requires
            vy * sc == cy - ry,
            sc == 1_000_000,
    ;
    assert(1_000_000 * (u.z * vz) == u.z * cz - u.z * rz) by (nonlinear_arith)
        requires
            vz * sc == cz - rz,
            sc == 1_000_000,
    ;
    lemma_mul_abs_bound(u.x, rx, 1_000_000, 1_000_000);
    lemma_mul_abs_bound(u.y, ry, 1_000_000, 1_000_000);
    lemma_mul_abs_bound(u.z, rz, 1_000_000, 1_000_000);
    assert(abs_i(1_000_000 * raw_dot(u, cross_v(w, u))) <= 3_000_000_000_000);
}

/// Negating a vector keeps its squared length and flips its dot products.
pub proof fn lemma_neg_dot(u: V3, v: V3)
    ensures
        raw_dot(u, neg_v(v)) == -raw_dot(u, v),
        raw_dot(neg_v(v), u) == -raw_dot(v, u),
        raw_norm(neg_v(v)) == raw_norm(v),
{
    assert(u.x * (-v.x) == -(u.x * v.x)) by (nonlinear_arith);
    assert(u.y * (-v.y) == -(u.y * v.y)) by (nonlinear_arith);
    assert(u.z * (-v.z) == -(u.z * v.z)) by (nonlinear_arith);
    assert((-v.x) * u.x == -(v.x * u.x)) by (nonlinear_arith);
    assert((-v.y) * u.y == -(v.y * u.y)) by (nonlinear_arith);
    assert((-v.z) * u.z == -(v.z * u.z)) by (nonlinear_arith);
    assert((-v.x) * (-v.x) == v.x * v.x) by (nonlinear_arith);
    assert((-v.y) * (-v.y) == v.y * v.y) by (nonlinear_arith);
    assert((-v.z) * (-v.z) == v.z * v.z) by (nonlinear_arith);
}

/// A nonzero integer vector has raw squared length at least one.
pub proof fn lemma_nonzero_norm(v: V3)
    requires
        !near_zero_v(v),
    ensures
        raw_norm(v) >= 1,
{
    lemma_square_nonneg(v.x);
    lemma_square_nonneg(v.y);
    lemma_square_nonneg(v.z);
    if v.x != 0 {
        assert(v.x * v.x >= 1) by (nonlinear_arith)
            requires
                v.x != 0,
        ;
    } else if v.y != 0 {
        assert(v.y * v.y >= 1) by (nonlinear_arith)
            requires
                v.y != 0,
        ;
    } else {
        assert(v.z * v.z >= 1) by (nonlinear_arith)
            requires
                v.z != 0,
        ;
    }
}

/// Runtime test of the `bounded` predicate.
pub fn bounded_check(v: &Vec3, b: i64) -> (r: bool)
    requires
        b >= 0,
    ensures
        r == bounded(v@, b as int),
{
    -b <= v.x && v.x <= b && -b <= v.y && v.y <= b && -b <= v.z && v.z <= b
}

impl Vec3 {
    pub fn new(x: i64, y: i64, z: i64) -> (r: Vec3)
        ensures
            r@ == v3(x as int, y as int, z as int),
    {
        Vec3 { x, y, z }
    }

    /// The zero vector, which also serves as the color black.
    pub fn zero() -> (r: Vec3)
        ensures
            r@ == v3(0, 0, 0),
    {
        Vec3 { x: 0, y: 0, z: 0 }
    }

    /// The all-ones vector: the color white in fixed point.
    pub fn one() -> (r: Vec3)
        ensures
            r@ == v3(SCALE as int, SCALE as int, SCALE as int),
    {
        Vec3 { x: SCALE, y: SCALE, z: SCALE }
    }

    /// A vector along the first axis.
    pub fn x(x: i64) -> (r: Vec3)
        ensures
            r@ == v3(x as int, 0, 0),
    {
        Vec3 { x, y: 0, z: 0 }
    }

    /// A vector along the second axis.
    pub fn y(y: i64) -> (r: Vec3)
        ensures
            r@ == v3(0, y as int, 0),
    {
        Vec3 { x: 0, y, z: 0 }
    }

    /// A vector along the third axis.
    pub fn z(z: i64) -> (r: Vec3)
        ensures
            r@ == v3(0, 0, z as int),
    {
        Vec3 { x: 0, y: 0, z }
    }

    pub fn add(self, rhs: Vec3) -> (r: Vec3)
        requires
            i64::MIN <= self@.x + rhs@.x <= i64::MAX,
            i64::MIN <= self@.y + rhs@.y <= i64::MAX,
            i64::MIN <= self@.z + rhs@.z <= i64::MAX,
        ensures
            r@ == add_v(self@, rhs@),
    {
        Vec3 { x: self.x + rhs.x, y: self.y + rhs.y, z: self.z + rhs.z }
    }

    pub fn sub(self, rhs: Vec3) -> (r: Vec3)
        requires
            i64::MIN <= self@.x - rhs@.x <= i64::MAX,
            i64::MIN <= self@.y - rhs@.y <= i64::MAX,
            i64::MIN <= self@.z - rhs@.z <= i64::MAX,
        ensures
            r@ == sub_v(self@, rhs@),
    {
        Vec3 { x: self.x - rhs.x, y: self.y - rhs.y, z: self.z - rhs.z }
    }

    pub fn neg(self) -> (r: Vec3)
        requires
            self@.x > i64::MIN,
            self@.y > i64::MIN,
            self@.z > i64::MIN,
        ensures
            r@ == neg_v(self@),
    {
        Vec3 { x: -self.x, y: -self.y, z: -self.z }
    }

    /// Scalar multiple of a vector by the fixed-point scalar `k`.
    pub fn scale(self, k: i64) -> (r: Vec3)
        requires
            bounded(self@, POS_MAX as int),
            abs_i(k as int) <= T_MAX as int,
        ensures
            r@ == scale_v(k as int, self@),
    {
        proof {
            lemma_mul_abs_bound(k as int, self@.x, T_MAX as int, POS_MAX as int);
            lemma_mul_abs_bound(k as int, self@.y, T_MAX as int, POS_MAX as int);
            lemma_mul_abs_bound(k as int, self@.z, T_MAX as int, POS_MAX as int);
        }
        let x = tdiv_i128((k as i128) * (self.x as i128), SCALE as i128);
        let y = tdiv_i128((k as i128) * (self.y as i128), SCALE as i128);
        let z = tdiv_i128((k as i128) * (self.z as i128), SCALE as i128);
        proof {
            lemma_tdiv_bound(
                (k as int) * self@.x,
                SCALE as int,
                (T_MAX as int) * (POS_MAX as int) / (SCALE as int),
            );
            lemma_tdiv_bound(
                (k as int) * self@.y,
                SCALE as int,
                (T_MAX as int) * (POS_MAX as int) / (SCALE as int),
            );
            lemma_tdiv_bound(
                (k as int) * self@.z,
                SCALE as int,
                (T_MAX as int) * (POS_MAX as int) / (SCALE as int),
            );
        }
        Vec3 { x: x as i64, y: y as i64, z: z as i64 }
    }

    /// Component-wise product (color attenuation).
    pub fn mul(self, rhs: Vec3) -> (r: Vec3)
        requires
            bounded(self@, POS_MAX as int),
            bounded(rhs@, POS_MAX as int),
        ensures
            r@ == mul_v(self@, rhs@),
    {
        proof {
            lemma_mul_abs_bound(self@.x, rhs@.x, POS_MAX as int, POS_MAX as int);
            lemma_mul_abs_bound(self@.y, rhs@.y, POS_MAX as int, POS_MAX as int);
            lemma_mul_abs_bound(self@.z, rhs@.z, POS_MAX as int, POS_MAX as int);
        }
        let x = tdiv_i128((self.x as i128) * (rhs.x as i128), SCALE as i128);
        let y = tdiv_i128((self.y as i128) * (rhs.y as i128), SCALE as i128);
        let z = tdiv_i128((self.z as i128) * (rhs.z as i128), SCALE as i128);
        proof {
            let cap = (POS_MAX as int) * (POS_MAX as int) / (SCALE as int);
            lemma_tdiv_bound(self@.x * rhs@.x, SCALE as int, cap);
            lemma_tdiv_bound(self@.y * rhs@.y, SCALE as int, cap);
            lemma_tdiv_bound(self@.z * rhs@.z, SCALE as int, cap);
        }
        Vec3 { x: x as i64, y: y as i64, z: z as i64 }
    }

    /// Division by a nonzero fixed-point scalar.
    pub fn div(self, k: i64) -> (r: Vec3)
        requires
            bounded(self@, 10_000_000_000),
            k != 0,
        ensures
            r@ == div_v(self@, k as int),
    {
        proof {
            lemma_mul_abs_bound(self@.x, SCALE as int, 10_000_000_000, SCALE as int);
            lemma_mul_abs_bound(self@.y, SCALE as int, 10_000_000_000, SCALE as int);
            lemma_mul_abs_bound(self@.z, SCALE as int, 10_000_000_000, SCALE as int);
        }
        let d: i128 = if k >= 0 {
            k as i128
        } else {
            -(k as i128)
        };
        let sx: i128 = if k >= 0 {
            self.x as i128
        } else {
            -(self.x as i128)
        };
        let sy: i128 = if k >= 0 {
            self.y as i128
        } else {
            -(self.y as i128)
        };
        let sz: i128 = if k >= 0 {
            self.z as i128
        } else {
            -(self.z as i128)
        };
        let x = tdiv_i128(sx * (SCALE as i128), d);
        let y = tdiv_i128(sy * (SCALE as i128), d);
        let z = tdiv_i128(sz * (SCALE as i128), d);
        proof {
            let cap = 10_000_000_000 * (SCALE as int);
            lemma_tdiv_bound(-self@.x * (SCALE as int), d as int, cap);
            lemma_tdiv_bound(-self@.y * (SCALE as int), d as int, cap);
            lemma_tdiv_bound(-self@.z * (SCALE as int), d as int, cap);
            lemma_tdiv_bound(self@.x * (SCALE as int), d as int, cap);
            lemma_tdiv_bound(self@.y * (SCALE as int), d as int, cap);
            lemma_tdiv_bound(self@.z * (SCALE as int), d as int, cap);
            assert(tdiv(-self@.x * (SCALE as int), -(k as int)) == tdiv(
                self@.x * (SCALE as int),
                k as int,
            ));
            assert(tdiv(-self@.y * (SCALE as int), -(k as int)) == tdiv(
                self@.y * (SCALE as int),
                k as int,
            ));
            assert(tdiv(-self@.z * (SCALE as int), -(k as int)) == tdiv(
                self@.z * (SCALE as int),
                k as int,
            ));
        }
        Vec3 { x: x as i64, y: y as i64, z: z as i64 }
    }

    /// Squared length as a fixed-point scalar.
    pub fn length_squared(&self) -> (r: i64)
        requires
            bounded(self@, 100_000_000_000),
        ensures
            r == tdiv(raw_norm(self@), SCALE as int),
            r >= 0,
    {
        let raw = raw_norm_wide(self);
        let r = tdiv_i128(raw, SCALE as i128);
        proof {
            lemma_tdiv_bound(raw_norm(self@), SCALE as int, 30_000_000_000_000_000);
        }
        r as i64
    }

    /// Fixed-point length: `isqrt` of the raw squared length.
    pub fn length(&self) -> (r: i64)
        requires
            bounded(self@, 100_000_000_000),
        ensures
            r == len_v(self@),
            r >= 0,
    {
        let raw = raw_norm_wide(self);
        let root = isqrt_u128(raw as u128);
        proof {
            lemma_isqrt_bound(raw_norm(self@), 200_000_000_000);
        }
        root as i64
    }

    pub fn cross(u: Vec3, v: Vec3) -> (r: Vec3)
        requires
            bounded(u@, POS_MAX as int),
            bounded(v@, POS_MAX as int),
        ensures
            r@ == cross_v(u@, v@),
    {
        proof {
            lemma_mul_abs_bound(u@.y, v@.z, POS_MAX as int, POS_MAX as int);
            lemma_mul_abs_bound(u@.z, v@.y, POS_MAX as int, POS_MAX as int);
            lemma_mul_abs_bound(u@.z, v@.x, POS_MAX as int, POS_MAX as int);
            lemma_mul_abs_bound(u@.x, v@.z, POS_MAX as int, POS_MAX as int);
            lemma_mul_abs_bound(u@.x, v@.y, POS_MAX as int, POS_MAX as int);
            lemma_mul_abs_bound(u@.y, v@.x, POS_MAX as int, POS_MAX as int);
        }
        let x = tdiv_i128(
            (u.y as i128) * (v.z as i128) - (u.z as i128) * (v.y as i128),
            SCALE as i128,
        );
        let y = tdiv_i128(
            (u.z as i128) * (v.x as i128) - (u.x as i128) * (v.z as i128),
            SCALE as i128,
        );
        let z = tdiv_i128(
            (u.x as i128) * (v.y as i128) - (u.y as i128) * (v.x as i128),
            SCALE as i128,
        );
        proof {
            let cap = 2 * (POS_MAX as int) * (POS_MAX as int) / (SCALE as int);
            lemma_tdiv_bound(u@.y * v@.z - u@.z * v@.y, SCALE as int, cap);
            lemma_tdiv_bound(u@.z * v@.x - u@.x * v@.z, SCALE as int, cap);
            lemma_tdiv_bound(u@.x * v@.y - u@.y * v@.x, SCALE as int, cap);
        }
        Vec3 { x: x as i64, y: y as i64, z: z as i64 }
    }

    /// Normalization; the zero vector is excluded by precondition.
    pub fn unit_vector(self) -> (r: Vec3)
        requires
            bounded(self@, 100_000_000_000),
            raw_norm(self@) >= 1,
        ensures
            r@ == unit_v(self@),
            bounded(r@, SCALE as int),
    {
        let raw = raw_norm_wide(&self);
        let len = isqrt_u128(raw as u128) as i128;
        proof {
            lemma_isqrt_bound(raw_norm(self@), 200_000_000_000);
            assert(len_v(self@) >= 1) by (nonlinear_arith)
                requires
                    is_isqrt(raw_norm(self@), len_v(self@)),
                    raw_norm(self@) >= 1,
            ;
            lemma_mul_abs_bound(self@.x, SCALE as int, 100_000_000_000, SCALE as int);
            lemma_mul_abs_bound(self@.y, SCALE as int, 100_000_000_000, SCALE as int);
            lemma_mul_abs_bound(self@.z, SCALE as int, 100_000_000_000, SCALE as int);
            // Each component is at most the length in magnitude, so the
            // normalized components stay within one unit.
            assert(abs_i(self@.x) <= len_v(self@) && abs_i(self@.y) <= len_v(self@) && abs_i(
                self@.z,
            ) <= len_v(self@)) by (nonlinear_arith)
                requires
                    is_isqrt(raw_norm(self@), len_v(self@)),
                    raw_norm(self@) == self@.x * self@.x + self@.y * self@.y + self@.z * self@.z,
            ;
        }
        let x = tdiv_i128((self.x as i128) * (SCALE as i128), len);
        let y = tdiv_i128((self.y as i128) * (SCALE as i128), len);
        let z = tdiv_i128((self.z as i128) * (SCALE as i128), len);
        proof {
            assert(abs_i(self@.x * (SCALE as int)) <= (SCALE as int) * len_v(self@))
                by (nonlinear_arith)
                requires
                    abs_i(self@.x) <= len_v(self@),
            ;
            assert(abs_i(self@.y * (SCALE as int)) <= (SCALE as int) * len_v(self@))
                by (nonlinear_arith)
                requires
                    abs_i(self@.y) <= len_v(self@),
            ;
            assert(abs_i(self@.z * (SCALE as int)) <= (SCALE as int) * len_v(self@))
                by (nonlinear_arith)
                requires
                    abs_i(self@.z) <= len_v(self@),
            ;
            lemma_tdiv_bound(self@.x * (SCALE as int), len_v(self@), SCALE as int);
            lemma_tdiv_bound(self@.y * (SCALE as int), len_v(self@), SCALE as int);
            lemma_tdiv_bound(self@.z * (SCALE as int), len_v(self@), SCALE as int);
        }
        Vec3 { x: x as i64, y: y as i64, z: z as i64 }
    }

    /// True exactly on the zero vector: the only vector below the diffuse
    /// fallback threshold at this resolution.
    pub fn near_zero(self) -> (r: bool)
        ensures
            r == near_zero_v(self@),
    {
        self.x == 0 && self.y == 0 && self.z == 0
    }

    /// Mirror reflection about the surface normal `normal`.
    pub fn reflect(v: &Vec3, normal: &Vec3) -> (r: Vec3)
        requires
            bounded(v@, POS_MAX as int),
            bounded(normal@, POS_MAX as int),
        ensures
            r@ == reflect_v(v@, normal@),
    {
        let rd: i128 = raw_dot_wide(v, normal);
        proof {
            lemma_raw_dot_bound(v@, normal@, POS_MAX as int);
        }
        let d2: i128 = 2 * rd;
        let s2: i128 = (SCALE as i128) * (SCALE as i128);
        proof {
            lemma_mul_abs_bound(
                2 * raw_dot(v@, normal@),
                normal@.x,
                600_000_000_000_000_000_000,
                POS_MAX as int,
            );
            lemma_mul_abs_bound(
                2 * raw_dot(v@, normal@),
                normal@.y,
                600_000_000_000_000_000_000,
                POS_MAX as int,
            );
            lemma_mul_abs_bound(
                2 * raw_dot(v@, normal@),
                normal@.z,
                600_000_000_000_000_000_000,
                POS_MAX as int,
            );
        }
        let qx = tdiv_i128(d2 * (normal.x as i128), s2);
        let qy = tdiv_i128(d2 * (normal.y as i128), s2);
        let qz = tdiv_i128(d2 * (normal.z as i128), s2);
        proof {
            let s2i = (SCALE as int) * (SCALE as int);
            lemma_tdiv_bound(2 * raw_dot(v@, normal@) * normal@.x, s2i, 6_000_000_000_000_000_000);
            lemma_tdiv_bound(2 * raw_dot(v@, normal@) * normal@.y, s2i, 6_000_000_000_000_000_000);
            lemma_tdiv_bound(2 * raw_dot(v@, normal@) * normal@.z, s2i, 6_000_000_000_000_000_000);
        }
        Vec3 { x: v.x - qx as i64, y: v.y - qy as i64, z: v.z - qz as i64 }
    }
}

impl Vec3 {
    /// Refraction of the unit direction `uv` at a surface with unit normal
    /// `n`; `ratio` is the quotient of the refraction indices on the two
    /// sides. The caller has already ruled out total internal reflection.
    pub fn refract(uv: &Vec3, n: &Vec3, ratio: i64) -> (r: Vec3)
        requires
            bounded(uv@, 2 * SCALE as int),
            bounded(n@, 2 * SCALE as int),
            1 <= ratio <= 4 * SCALE as int,
        ensures
            r@ == refract_v(uv@, n@, ratio as int),
            bounded(r@, 1_000_000_000),
    {
        proof {
            lemma_raw_dot_bound(neg_v(uv@), n@, 2_000_000);
            lemma_tdiv_bound(raw_dot(neg_v(uv@), n@), SCALE as int, 12_000_000);
        }
        let d = dot(uv.neg(), *n);
        let cos = min_i64(SCALE, d);
        proof {
            lemma_scale_bounded(cos as int, n@, 12_000_000, 2_000_000);
        }
        let cn = n.scale(cos);
        let sum = uv.add(cn);
        proof {
            assert(bounded(sum@, 26_000_001));
            lemma_scale_bounded(ratio as int, sum@, 4_000_000, 26_000_001);
        }
        let r_perp = sum.scale(ratio);
        proof {
            assert(bounded(r_perp@, 200_000_000));
            lemma_raw_dot_bound(r_perp@, r_perp@, 200_000_000);
            lemma_tdiv_bound(raw_norm(r_perp@), SCALE as int, 120_000_000_000);
        }
        let ls = r_perp.length_squared();
        let diff: i64 = if ls <= SCALE {
            SCALE - ls
        } else {
            ls - SCALE
        };
        proof {
            lemma_mul_abs_bound(diff as int, SCALE as int, 121_000_000_000, 1_000_000);
            lemma_mul_nonneg(diff as int, SCALE as int);
        }
        let wide: i128 = (diff as i128) * (SCALE as i128);
        let st_u = isqrt_u128(wide as u128);
        proof {
            lemma_isqrt_bound(
                abs_i(SCALE - tdiv(raw_norm(r_perp@), SCALE as int)) * (SCALE as int),
                400_000_000,
            );
        }
        let st = st_u as i64;
        proof {
            lemma_scale_bounded(st as int, n@, 400_000_000, 2_000_000);
        }
        let r_par = n.scale(st).neg();
        let r = r_perp.add(r_par);
        proof {
            assert(bounded(r@, 1_000_000_000));
        }
        r
    }
}

/// Normalizing a unit vector leaves it unchanged, so its length stays one:
/// for any `v` whose raw squared length lies in the unit window
/// `[SCALE^2, (SCALE+1)^2)`, `unit_v(v) == v`, and the squared length of the
/// result is within `2 * SCALE` raw units of one.
pub proof fn lemma_normalize_unit(v: V3)
    requires
        1_000_000_000_000 <= raw_norm(v) < 1_000_002_000_001,
    ensures
        unit_v(v) == v,
        abs_i(raw_norm(unit_v(v)) - 1_000_000_000_000) <= 2_000_000,
{
    assert(is_isqrt(raw_norm(v), 1_000_000)) by {
        assert(1_000_000 * 1_000_000 == 1_000_000_000_000);
        assert((1_000_000 + 1) * (1_000_000 + 1) == 1_000_002_000_001);
    }
    lemma_isqrt_is(raw_norm(v), 1_000_000);
    lemma_tdiv_exact(v.x, SCALE as int);
    lemma_tdiv_exact(v.y, SCALE as int);
    lemma_tdiv_exact(v.z, SCALE as int);
}

/// The components of a normalized vector never exceed one unit.
pub proof fn lemma_unit_bounded(v: V3)
    requires
        raw_norm(v) >= 1,
    ensures
        bounded(unit_v(v), SCALE as int),
{
    let sc = SCALE as int;
    let nv = raw_norm(v);
    lemma_square_nonneg(v.x);
    lemma_square_nonneg(v.y);
    lemma_square_nonneg(v.z);
    lemma_isqrt_exists(nv);
    let len = len_v(v);
    assert(len >= 1) by (nonlinear_arith)
        requires
            is_isqrt(nv, len),
            nv >= 1,
    ;
    assert(abs_i(v.x) <= len && abs_i(v.y) <= len && abs_i(v.z) <= len) by (nonlinear_arith)
        requires
            is_isqrt(nv, len),
            nv == v.x * v.x + v.y * v.y + v.z * v.z,
    ;
    assert(abs_i(v.x * sc) <= sc * len) by (nonlinear_arith)
        requires
            abs_i(v.x) <= len,
            sc >= 0,
    ;
    assert(abs_i(v.y * sc) <= sc * len) by (nonlinear_arith)
        requires
            abs_i(v.y) <= len,
            sc >= 0,
    ;
    assert(abs_i(v.z * sc) <= sc * len) by (nonlinear_arith)
        requires
            abs_i(v.z) <= len,
            sc >= 0,
    ;
    lemma_tdiv_bound(v.x * sc, len, sc);
    lemma_tdiv_bound(v.y * sc, len, sc);
    lemma_tdiv_bound(v.z * sc, len, sc);
}

/// Normalization brings any vector of length at least one half to length
/// one, up to rounding: the raw squared length of the result is within
/// `11 * SCALE` raw units of one (eleven millionths of a squared unit).
#[verifier::rlimit(50)]
pub proof fn lemma_normalize_near_unit(v: V3)
    requires
        raw_norm(v) >= 250_000_000_000,
    ensures
        abs_i(raw_norm(unit_v(v)) - 1_000_000_000_000) <= 11_000_000,
{
    let sc = SCALE as int;
    let nv = raw_norm(v);
    lemma_square_nonneg(v.x);
    lemma_square_nonneg(v.y);
    lemma_square_nonneg(v.z);
    lemma_isqrt_exists(nv);
    let len = len_v(v);
    assert(len >= 500_000 && len * len <= nv && nv < (len + 1) * (len + 1)) by (nonlinear_arith)
        requires
            is_isqrt(nv, len),
            nv >= 250_000_000_000,
    ;
    assert(abs_i(v.x) <= len && abs_i(v.y) <= len && abs_i(v.z) <= len) by (nonlinear_arith)
        requires
            is_isqrt(nv, len),
            nv == v.x * v.x + v.y * v.y + v.z * v.z,
    ;
    let u = unit_v(v);
    lemma_tdiv_error(v.x * sc, len);
    lemma_tdiv_error(v.y * sc, len);
    lemma_tdiv_error(v.z * sc, len);
    let ex = v.x * sc - u.x * len;
    let ey = v.y * sc - u.y * len;
    let ez = v.z * sc - u.z * len;
    assert(abs_i(ex) <= len && abs_i(ey) <= len && abs_i(ez) <= len);
    // Squaring each component relation.
    assert((u.x * len) * (u.x * len) == (v.x * sc) * (v.x * sc) - 2 * ((v.x * sc) * ex) + ex * ex)
        by (nonlinear_arith)
        requires
            u.x * len == v.x * sc - ex,
    ;
    assert((u.y * len) * (u.y * len) == (v.y * sc) * (v.y * sc) - 2 * ((v.y * sc) * ey) + ey * ey)
        by (nonlinear_arith)
        requires
            u.y * len == v.y * sc - ey,
    ;
    assert((u.z * len) * (u.z * len) == (v.z * sc) * (v.z * sc) - 2 * ((v.z * sc) * ez) + ez * ez)
        by (nonlinear_arith)
        requires
            u.z * len == v.z * sc - ez,
    ;
    // Factoring the squared scale out of the exact terms.
    assert((v.x * sc) * (v.x * sc) == (v.x * v.x) * (sc * sc)) by (nonlinear_arith);
    assert((v.y * sc) * (v.y * sc) == (v.y * v.y) * (sc * sc)) by (nonlinear_arith);
    assert((v.z * sc) * (v.z * sc) == (v.z * v.z) * (sc * sc)) by (nonlinear_arith);
    assert((v.x * v.x) * (sc * sc) + (v.y * v.y) * (sc * sc) + (v.z * v.z) * (sc * sc) == nv * (sc
        * sc)) by (nonlinear_arith)
        requires
            nv == v.x * v.x + v.y * v.y + v.z * v.z,
    ;
    // The normalized squared length, scaled by the squared length.
    let nu = raw_norm(u);
    assert((u.x * u.x) * (len * len) == (u.x * len) * (u.x * len)) by (nonlinear_arith);
    assert((u.y * u.y) * (len * len) == (u.y * len) * (u.y * len)) by (nonlinear_arith);
    assert((u.z * u.z) * (len * len) == (u.z * len) * (u.z * len)) by (nonlinear_arith);
    assert(nu * (len * len) == (u.x * u.x) * (len * len) + (u.y * u.y) * (len * len) + (u.z * u.z)
        * (len * len)) by (nonlinear_arith)
        requires
            nu == u.x * u.x + u.y * u.y + u.z * u.z,
    ;
    // Bounding each error term.
    assert(abs_i((v.x * sc) * ex) <= 1_000_000 * (len * len) && abs_i((v.y * sc) * ey) <= 1_000_000
        * (len * len) && abs_i((v.z * sc) * ez) <= 1_000_000 * (len * len)) by (nonlinear_arith)
        requires
            abs_i(v.x) <= len,
            abs_i(v.y) <= len,
            abs_i(v.z) <= len,
            abs_i(ex) <= len,
            abs_i(ey) <= len,
            abs_i(ez) <= len,
            sc == 1_000_000,
    ;
    assert(0 <= ex * ex <= len * len && 0 <= ey * ey <= len * len && 0 <= ez * ez <= len * len)
        by (nonlinear_arith)
        requires
            abs_i(ex) <= len,
            abs_i(ey) <= len,
            abs_i(ez) <= len,
    ;
    // The residue of the integer square root.
    assert((len + 1) * (len + 1) == len * len + 2 * len + 1) by (nonlinear_arith);
    assert(abs_i(nv * (sc * sc) - (len * len) * (sc * sc)) <= 2_000_000_000_000 * len)
        by (nonlinear_arith)
        requires
            0 <= nv - len * len <= 2 * len,
            sc == 1_000_000,
    ;
    // Combining: the scaled difference from one is small.
    assert(abs_i(nu * (len * len) - (len * len) * (sc * sc)) <= 2_000_000_000_000 * len + 7_000_000
        * (len * len));
    assert(2_000_000_000_000 * len + 7_000_000 * (len * len) <= 11_000_000 * (len * len))
        by (nonlinear_arith)
        requires
            len >= 500_000,
    ;
    assert((len * len) * (sc * sc) == 1_000_000_000_000 * (len * len)) by (nonlinear_arith)
        requires
            sc == 1_000_000,
    ;
    assert(abs_i((nu - 1_000_000_000_000) * (len * len)) == abs_i(nu * (len * len)
        - 1_000_000_000_000 * (len * len))) by (nonlinear_arith);
    assert(abs_i(nu - 1_000_000_000_000) <= 11_000_000) by (nonlinear_arith)
        requires
            abs_i((nu - 1_000_000_000_000) * (len * len)) <= 11_000_000 * (len * len),
            len * len >= 1,
    ;
}

/// Reflection flips the sign of the normal component while keeping its
/// magnitude: for a unit normal `n`, the raw dot of `reflect_v(v, n)` with
/// `n` equals `-raw_dot(v, n)` up to rounding of at most `3 * SCALE` raw
/// units (three millionths of a unit).
pub proof fn lemma_reflect_flips_normal_component(v: V3, n: V3)
    requires
        raw_norm(n) == 1_000_000_000_000,
    ensures
        abs_i(raw_dot(reflect_v(v, n), n) + raw_dot(v, n)) <= 3_000_000,
{
    let s2: int = 1_000_000_000_000;
    let d2 = 2 * raw_dot(v, n);
    let qx = tdiv(d2 * n.x, s2);
    let qy = tdiv(d2 * n.y, s2);
    let qz = tdiv(d2 * n.z, s2);
    lemma_tdiv_error(d2 * n.x, s2);
    lemma_tdiv_error(d2 * n.y, s2);
    lemma_tdiv_error(d2 * n.z, s2);
    let rx = d2 * n.x - qx * s2;
    let ry = d2 * n.y - qy * s2;
    let rz = d2 * n.z - qz * s2;
    lemma_square_nonneg(n.x);
    lemma_square_nonneg(n.y);
    lemma_square_nonneg(n.z);
    assert(abs_i(n.x) <= 1_000_000 && abs_i(n.y) <= 1_000_000 && abs_i(n.z) <= 1_000_000)
        by (nonlinear_arith)
        requires
            n.x * n.x + n.y * n.y + n.z * n.z == 1_000_000_000_000,
            n.x * n.x >= 0,
            n.y * n.y >= 0,
            n.z * n.z >= 0,
    ;
    lemma_mul_abs_bound(rx, n.x, s2, 1_000_000);
    lemma_mul_abs_bound(ry, n.y, s2, 1_000_000);
    lemma_mul_abs_bound(rz, n.z, s2, 1_000_000);
    // Expand each component of the reflected dot product.
    assert((v.x - qx) * n.x == v.x * n.x - qx * n.x) by (nonlinear_arith);
    assert((v.y - qy) * n.y == v.y * n.y - qy * n.y) by (nonlinear_arith);
    assert((v.z - qz) * n.z == v.z * n.z - qz * n.z) by (nonlinear_arith);
    // Push the scale through each rounded product.
    assert(s2 * (qx * n.x) == d2 * (n.x * n.x) - rx * n.x) by (nonlinear_arith)
        requires
            qx * s2 == d2 * n.x - rx,
    ;
    assert(s2 * (qy * n.y) == d2 * (n.y * n.y) - ry * n.y) by (nonlinear_arith)
        requires
            qy * s2 == d2 * n.y - ry,
    ;
    assert(s2 * (qz * n.z) == d2 * (n.z * n.z) - rz * n.z) by (nonlinear_arith)
        requires
            qz * s2 == d2 * n.z - rz,
    ;
    // The squared normal components sum to one.
    assert(d2 * (n.x * n.x) + d2 * (n.y * n.y) + d2 * (n.z * n.z) == d2 * s2) by (nonlinear_arith)
        requires
            n.x * n.x + n.y * n.y + n.z * n.z == s2,
    ;
    let g = raw_dot(reflect_v(v, n), n) + raw_dot(v, n);
    assert(s2 * g == rx * n.x + ry * n.y + rz * n.z);
    assert(abs_i(s2 * g) <= 3_000_000_000_000_000_000);
}

impl Vec3 {
    /// A vector with uniform random components in `[0, 1)`.
    pub fn random() -> (r: Vec3)
        ensures
            0 <= r@.x < SCALE as int,
            0 <= r@.y < SCALE as int,
            0 <= r@.z < SCALE as int,
            bounded(r@, SCALE as int),
    {
        Vec3 {
            x: crate::rng::random_double(),
            y: crate::rng::random_double(),
            z: crate::rng::random_double(),
        }
    }

    /// A vector with uniform random components in `[min, max)`.
    pub fn random_from_range(min: i64, max: i64) -> (r: Vec3)
        requires
            min < max,
        ensures
            min <= r@.x < max,
            min <= r@.y < max,
            min <= r@.z < max,
    {
        Vec3 {
            x: crate::rng::random_double_from_range(min, max),
            y: crate::rng::random_double_from_range(min, max),
            z: crate::rng::random_double_from_range(min, max),
        }
    }

    /// Rejection sampling: draws from the enclosing cube until the point
    /// falls strictly inside the unit sphere. Points of length below one
    /// half are rejected too, so the sample always normalizes to a
    /// near-unit vector.
    pub fn random_in_unit_sphere() -> (r: Vec3)
        ensures
            sphere_sample(r@),
    {
        let mut attempts: u32 = 0;
        while attempts < 64
            invariant
                true,
            decreases 64 - attempts,
        {
            let p = Vec3::random_from_range(-SCALE, SCALE);
            let w = raw_norm_wide(&p);
            if 250_000_000_000 <= w && w < 1_000_000_000_000 {
                return p;
            }
            attempts = attempts + 1;
        }
        // Vanishingly unlikely: every draw fell outside the spherical
        // shell. Fall back to a fixed interior point.
        Vec3 { x: 500_000, y: 0, z: 0 }
    }

    /// A random direction of near-unit length: a sphere sample, normalized.
    pub fn random_unit_vector() -> (r: Vec3)
        ensures
            unit_sample(r@),
    {
        let p = Vec3::random_in_unit_sphere();
        proof {
            lemma_normalize_near_unit(p@);
        }
        p.unit_vector()
    }

    /// A random unit-sphere sample turned to the side of the given normal.
    pub fn random_in_hemisphere(normal: &Vec3) -> (r: Vec3)
        requires
            bounded(normal@, 100_000_000_000),
        ensures
            sphere_sample(r@),
            raw_dot(r@, normal@) >= 0,
    {
        let in_unit_sphere = Vec3::random_in_unit_sphere();
        let d = raw_dot_wide(&in_unit_sphere, normal);
        if d > 0 {
            in_unit_sphere
        } else {
            proof {
                lemma_neg_dot(in_unit_sphere@, in_unit_sphere@);
                assert(raw_dot(neg_v(in_unit_sphere@), normal@) == -raw_dot(
                    in_unit_sphere@,
                    normal@,
                )) by {
                    lemma_neg_dot(normal@, in_unit_sphere@);
                }
            }
            in_unit_sphere.neg()
        }
    }

    /// Rejection sampling on the lens disk: a random point in the unit
    /// disk of the first two axes.
    pub fn random_in_unit_disk() -> (r: Vec3)
        ensures
            bounded(r@, SCALE as int),
            r@.z == 0,
            raw_norm(r@) < 1_000_000_000_000,
    {
        let mut attempts: u32 = 0;
        while attempts < 64
            invariant
                true,
            decreases 64 - attempts,
        {
            let p = Vec3 {
                x: crate::rng::random_double_from_range(-SCALE, SCALE),
                y: crate::rng::random_double_from_range(-SCALE, SCALE),
                z: 0,
            };
            let w = raw_norm_wide(&p);
            if w < 1_000_000_000_000 {
                return p;
            }
            attempts = attempts + 1;
        }
        // Vanishingly unlikely: every draw fell outside the disk. Fall
        // back to its center.
        Vec3 { x: 0, y: 0, z: 0 }
    }
}

/// Raw (scale `SCALE * SCALE`) dot product, computed wide.
pub fn raw_dot_wide(u: &Vec3, v: &Vec3) -> (r: i128)
    requires
        bounded(u@, 100_000_000_000),
        bounded(v@, 100_000_000_000),
    ensures
        r == raw_dot(u@, v@),
{
    proof {
        lemma_mul_abs_bound(u@.x, v@.x, 100_000_000_000, 100_000_000_000);
        lemma_mul_abs_bound(u@.y, v@.y, 100_000_000_000, 100_000_000_000);
        lemma_mul_abs_bound(u@.z, v@.z, 100_000_000_000, 100_000_000_000);
    }
    (u.x as i128) * (v.x as i128) + (u.y as i128) * (v.y as i128) + (u.z as i128) * (v.z as i128)
}

/// Raw squared length, computed wide; never negative.
pub fn raw_norm_wide(v: &Vec3) -> (r: i128)
    requires
        bounded(v@, 100_000_000_000),
    ensures
        r == raw_norm(v@),
        0 <= r <= 30_000_000_000_000_000_000_000,
{
    proof {
        lemma_square_nonneg(v@.x);
        lemma_square_nonneg(v@.y);
        lemma_square_nonneg(v@.z);
        lemma_mul_abs_bound(v@.x, v@.x, 100_000_000_000, 100_000_000_000);
        lemma_mul_abs_bound(v@.y, v@.y, 100_000_000_000, 100_000_000_000);
        lemma_mul_abs_bound(v@.z, v@.z, 100_000_000_000, 100_000_000_000);
    }
    (v.x as i128) * (v.x as i128) + (v.y as i128) * (v.y as i128) + (v.z as i128) * (v.z as i128)
}

/// Fixed-point dot product of two vectors.
pub fn dot(u: Vec3, v: Vec3) -> (r: i64)
    requires
        bounded(u@, 100_000_000_000),
        bounded(v@, 100_000_000_000),
    ensures
        r == dot_v(u@, v@),
{
    let raw = raw_dot_wide(&u, &v);
    proof {
        lemma_raw_dot_bound(u@, v@, 100_000_000_000);
    }
    let q = tdiv_i128(raw, SCALE as i128);
    proof {
        lemma_tdiv_bound(raw_dot(u@, v@), SCALE as int, 30_000_000_000_000_000);
    }
    q as i64
}

} // verus!
