use vstd::prelude::*;

verus! {

/// Fixed-point units per real one: every scalar in this crate is a signed
/// count of millionths.
pub const SCALE: i64 = 1_000_000;

/// Largest coordinate magnitude (in fixed-point units) a scene position may
/// have; keeps every intermediate product of the intersection arithmetic
/// inside `i128`.
pub const POS_MAX: i64 = 2_000_000_000;

/// Largest component magnitude of a ray direction.
pub const DIR_MAX: i64 = 400_000_000;

/// Largest ray parameter the intersection routines accept; stands in for an
/// unbounded upper interval end.
pub const T_MAX: i64 = 1_000_000_000_000;

/// Magnitude of an integer.
pub open spec fn abs_i(n: int) -> int {
    if n < 0 {
        -n
    } else {
        n
    }
}

/// Division rounded toward zero, as the hardware computes it.
pub open spec fn tdiv(n: int, d: int) -> int
    recommends
        d != 0,
{
    let q = abs_i(n) / abs_i(d);
    if (n < 0) != (d < 0) {
        -q
    } else {
        q
    }
}

/// `r` is the integer square root of `n`.
pub open spec fn is_isqrt(n: int, r: int) -> bool {
    0 <= r && r * r <= n && n < (r + 1) * (r + 1)
}

/// The integer square root: the largest `r` with `r * r <= n`.
pub open spec fn isqrt(n: int) -> int {
    choose|r: int| is_isqrt(n, r)
}

/// Any two integer square roots of the same number are equal.
pub proof fn lemma_isqrt_unique(n: int, r1: int, r2: int)
    by (nonlinear_arith)
    requires
        is_isqrt(n, r1),
        is_isqrt(n, r2),
    ensures
        r1 == r2,
{
}

/// A nonnegative number has an integer square root.
pub proof fn lemma_isqrt_exists(n: int)
    requires
        n >= 0,
    ensures
        is_isqrt(n, isqrt(n)),
    decreases n,
{
    if n == 0 {
        assert(is_isqrt(0, 0));
    } else {
        lemma_isqrt_exists(n - 1);
        let r = isqrt(n - 1);
        if n < (r + 1) * (r + 1) {
            assert(is_isqrt(n, r));
        } else {
            assert(n == (r + 1) * (r + 1)) by (nonlinear_arith)
                requires
                    is_isqrt(n - 1, r),
                    n >= (r + 1) * (r + 1),
            ;
            assert(is_isqrt(n, r + 1)) by (nonlinear_arith)
                requires
                    n == (r + 1) * (r + 1),
                    r >= 0,
            ;
        }
    }
    let w = choose|r: int| is_isqrt(n, r);
    assert(is_isqrt(n, w));
}

/// Pins `isqrt(n)` once a witness is at hand.
pub proof fn lemma_isqrt_is(n: int, r: int)
    requires
        is_isqrt(n, r),
    ensures
        isqrt(n) == r,
{
    lemma_isqrt_exists(n);
    lemma_isqrt_unique(n, r, isqrt(n));
}

/// The square root does not exceed the number and is monotone in it.
pub proof fn lemma_isqrt_bound(n: int, b: int)
    by (nonlinear_arith)
    requires
        n >= 0,
        b >= 0,
        n <= b * b,
        is_isqrt(n, isqrt(n)),
    ensures
        0 <= isqrt(n) <= b,
{
}

/// Dividing an exact multiple recovers the factor.
pub proof fn lemma_tdiv_exact(a: int, d: int)
    by (nonlinear_arith)
    requires
        d >= 1,
    ensures
        tdiv(a * d, d) == a,
{
    if a >= 0 {
        vstd::arithmetic::div_mod::lemma_div_multiples_vanish(a, d);
    } else {
        vstd::arithmetic::div_mod::lemma_div_multiples_vanish(-a, d);
    }
}

/// Truncating division never rounds past the true quotient:
/// the remainder `n - tdiv(n, d) * d` has the sign of `n` and magnitude
/// below `d`.
pub proof fn lemma_tdiv_error(n: int, d: int)
    requires
        d >= 1,
    ensures
        n >= 0 ==> 0 <= n - tdiv(n, d) * d < d,
        n < 0 ==> -d < n - tdiv(n, d) * d <= 0,
        abs_i(n - tdiv(n, d) * d) < d,
{
    if n >= 0 {
        vstd::arithmetic::div_mod::lemma_fundamental_div_mod(n, d);
        vstd::arithmetic::div_mod::lemma_mod_bound(n, d);
        assert(n - tdiv(n, d) * d == n % d) by (nonlinear_arith)
            requires
                d >= 1,
                n >= 0,
                n == d * (n / d) + n % d,
                tdiv(n, d) == n / d,
        ;
    } else {
        let m = -n;
        vstd::arithmetic::div_mod::lemma_fundamental_div_mod(m, d);
        vstd::arithmetic::div_mod::lemma_mod_bound(m, d);
        assert(n - tdiv(n, d) * d == -(m % d)) by (nonlinear_arith)
            requires
                d >= 1,
                n < 0,
                m == -n,
                m == d * (m / d) + m % d,
                tdiv(n, d) == -(m / d),
        ;
    }
}

/// A product of nonnegative factors is nonnegative.
pub proof fn lemma_mul_nonneg(a: int, b: int)
    by (nonlinear_arith)
    requires
        a >= 0,
        b >= 0,
    ensures
        a * b >= 0,
{
}

/// A bound on the dividend bounds the truncated quotient.
pub proof fn lemma_tdiv_bound(n: int, d: int, b: int)
    by (nonlinear_arith)
    requires
        d >= 1,
        b >= 0,
        abs_i(n) <= b * d,
    ensures
        abs_i(tdiv(n, d)) <= b,
        n >= 0 ==> 0 <= tdiv(n, d),
        n <= 0 ==> tdiv(n, d) <= 0,
{
    vstd::arithmetic::div_mod::lemma_div_is_ordered(abs_i(n), b * d, d);
    vstd::arithmetic::div_mod::lemma_div_multiples_vanish(b, d);
    vstd::arithmetic::div_mod::lemma_div_pos_is_pos(abs_i(n), d);
}

/// A strict bound one multiple up pins the quotient of a nonnegative
/// dividend below it.
pub proof fn lemma_tdiv_le(n: int, d: int, b: int)
    by (nonlinear_arith)
    requires
        d >= 1,
        b >= 0,
        0 <= n,
        n < (b + 1) * d,
    ensures
        0 <= tdiv(n, d) <= b,
{
    vstd::arithmetic::div_mod::lemma_div_pos_is_pos(n, d);
    if tdiv(n, d) > b {
        vstd::arithmetic::div_mod::lemma_fundamental_div_mod(n, d);
        vstd::arithmetic::div_mod::lemma_mod_bound(n, d);
    }
}

/// A lower bound on a nonnegative dividend gives one on the quotient.
pub proof fn lemma_tdiv_lower(n: int, d: int, b: int)
    by (nonlinear_arith)
    requires
        d >= 1,
        b >= 0,
        n >= b * d,
    ensures
        tdiv(n, d) >= b,
{
    vstd::arithmetic::div_mod::lemma_div_is_ordered(b * d, n, d);
    vstd::arithmetic::div_mod::lemma_div_multiples_vanish(b, d);
}

/// Truncating division, carried out on magnitudes so that only unsigned
/// machine division is needed.
pub fn tdiv_i128(n: i128, d: i128) -> (q: i128)
    requires
        d >= 1,
        n > i128::MIN,
    ensures
        q == tdiv(n as int, d as int),
        abs_i(q as int) <= abs_i(n as int),
{
    proof {
        assert(abs_i(n as int) <= abs_i(n as int) * (d as int)) by (nonlinear_arith)
            requires
                d >= 1,
        ;
        lemma_tdiv_bound(n as int, d as int, abs_i(n as int));
    }
    if n >= 0 {
        let q = (n as u128) / (d as u128);
        q as i128
    } else {
        let m = -n;
        let q = (m as u128) / (d as u128);
        -(q as i128)
    }
}

/// Integer square root by bisection on the answer.
pub fn isqrt_u128(n: u128) -> (r: u128)
    ensures
        is_isqrt(n as int, r as int),
        r == isqrt(n as int),
{
    let mut lo: u128 = 0;
    let mut hi: u128 = 0x1_0000_0000_0000_0000u128;
    if n < hi {
        hi = n + 1;
    }
    proof {
        assert((hi as int) * (hi as int) > n as int) by (nonlinear_arith)
            requires
                hi as int > n as int || hi == 0x1_0000_0000_0000_0000u128,
                n < 0x1_0000_0000_0000_0000_0000_0000_0000_0000,
                hi >= 1,
        ;
    }
    while lo + 1 < hi
        invariant
            0 <= lo < hi <= 0x1_0000_0000_0000_0000u128,
            (lo as int) * (lo as int) <= n as int,
            (n as int) < (hi as int) * (hi as int),
        decreases hi - lo,
    {
        let mid = lo + (hi - lo) / 2;
        proof {
            assert((mid as int) * (mid as int) < 0x1_0000_0000_0000_0000_0000_0000_0000_0000)
                by (nonlinear_arith)
                requires
                    0 <= mid < 0x1_0000_0000_0000_0000u128,
            ;
        }
        if mid * mid <= n {
            lo = mid;
        } else {
            hi = mid;
        }
    }
    proof {
        lemma_isqrt_is(n as int, lo as int);
    }
    lo
}

/// The fixed-point product of two scalars.
pub fn fxmul(a: i64, b: i64) -> (r: i64)
    requires
        abs_i(a as int) <= 3_000_000_000,
        abs_i(b as int) <= 3_000_000_000,
    ensures
        r == tdiv((a as int) * (b as int), SCALE as int),
{
    proof {
        assert(abs_i((a as int) * (b as int)) <= 9_000_000_000_000_000_000) by (nonlinear_arith)
            requires
                abs_i(a as int) <= 3_000_000_000,
                abs_i(b as int) <= 3_000_000_000,
        ;
        lemma_tdiv_bound((a as int) * (b as int), SCALE as int, 9_000_000_000_000);
    }
    tdiv_i128((a as i128) * (b as i128), SCALE as i128) as i64
}

/// The smaller of two fixed-point scalars.
pub fn min_i64(a: i64, b: i64) -> (r: i64)
    ensures
        r == if a as int <= b as int {
            a as int
        } else {
            b as int
        },
{
    if a <= b {
        a
    } else {
        b
    }
}

/// Clamps a scalar into `[lo, hi]`.
pub fn clamp(x: i64, lo: i64, hi: i64) -> (r: i64)
    requires
        lo <= hi,
    ensures
        r == if x < lo {
            lo as int
        } else if x > hi {
            hi as int
        } else {
            x as int
        },
{
    if x < lo {
        return lo;
    }
    if x > hi {
        return hi;
    }
    x
}

} // verus!
