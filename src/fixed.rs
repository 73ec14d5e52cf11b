//! Saturating fixed-point scalars.
//!
//! A scalar is an `i64` holding a real number scaled by `ONE`. Every operation
//! rounds toward negative infinity and saturates at `LIMIT`, which plays the
//! part of an infinity: no operation overflows and none has a precondition.
use vstd::prelude::*;

verus! {

/// The raw value of the real number one.
pub const ONE: i64 = 65536;

/// The largest magnitude that an arithmetic result takes; it stands for infinity.
pub const LIMIT: i64 = 1099511627776;

/// A value saturated to `[-LIMIT, LIMIT]`.
pub open spec fn sat(x: int) -> int {
    if x > LIMIT {
        LIMIT as int
    } else if x < -LIMIT {
        -LIMIT
    } else {
        x
    }
}

/// Division rounded toward negative infinity; zero for a zero divisor.
pub open spec fn floor_div(a: int, b: int) -> int {
    if b == 0 {
        0
    } else if b > 0 {
        a / b
    } else {
        (-a) / (-b)
    }
}

/// The saturated sum.
pub open spec fn add_spec(a: int, b: int) -> int {
    sat(a + b)
}

/// The saturated difference.
pub open spec fn sub_spec(a: int, b: int) -> int {
    sat(a - b)
}

/// The saturated product of two fixed-point values, rounded down.
pub open spec fn mul_spec(a: int, b: int) -> int {
    sat(floor_div(a * b, ONE as int))
}

/// The saturated quotient of two fixed-point values, rounded down; division
/// by zero saturates toward the sign of the dividend.
pub open spec fn div_spec(a: int, b: int) -> int {
    if b == 0 {
        if a > 0 {
            LIMIT as int
        } else if a < 0 {
            -LIMIT
        } else {
            0
        }
    } else {
        sat(floor_div(a * ONE, b))
    }
}

/// `r` is the integer square root of `n`.
pub open spec fn is_isqrt(n: int, r: int) -> bool {
    0 <= r && r * r <= n < (r + 1) * (r + 1)
}

/// The fixed-point square root, the largest `r` with `r * r <= a * ONE`
/// (zero for a value that is not positive).
pub open spec fn sqrt_ok(a: int, r: int) -> bool {
    if a <= 0 {
        r == 0
    } else {
        is_isqrt(a * ONE, r)
    }
}

/// The fixed-point square root as a function.
pub open spec fn sqrt_spec(a: int) -> int {
    choose|r: int| sqrt_ok(a, r)
}

/// The integer square root is unique.
pub proof fn lemma_isqrt_unique(n: int, r1: int, r2: int)
    requires
        is_isqrt(n, r1),
        is_isqrt(n, r2),
    ensures
        r1 == r2,
{
    if r1 < r2 {
        assert((r1 + 1) * (r1 + 1) <= r2 * r2) by (nonlinear_arith)
            requires
                0 <= r1 < r2,
        ;
    } else if r2 < r1 {
        assert((r2 + 1) * (r2 + 1) <= r1 * r1) by (nonlinear_arith)
            requires
                0 <= r2 < r1,
        ;
    }
}

/// Every natural number has an integer square root.
pub proof fn lemma_isqrt_exists(n: nat)
    ensures
        exists|r: int| is_isqrt(n as int, r),
    decreases n,
{
    if n == 0 {
        assert(is_isqrt(0, 0));
    } else {
        let m: int = n - 1;
        lemma_isqrt_exists(m as nat);
        let r = choose|r: int| is_isqrt(m, r);
        if (r + 1) * (r + 1) <= n {
            assert((r + 1) * (r + 1) == n);
            assert(n < (r + 2) * (r + 2)) by (nonlinear_arith)
                requires
                    (r + 1) * (r + 1) == n,
                    r >= 0,
            ;
            assert(is_isqrt(n as int, r + 1));
        } else {
            assert(is_isqrt(n as int, r));
        }
    }
}

/// The fixed-point square root is defined everywhere and is not negative.
pub proof fn lemma_sqrt_spec(a: int)
    ensures
        sqrt_ok(a, sqrt_spec(a)),
        sqrt_spec(a) >= 0,
{
    if a <= 0 {
        assert(sqrt_ok(a, 0));
    } else {
        assert(a * ONE >= 0) by (nonlinear_arith)
            requires
                a > 0,
        ;
        let n: int = a * ONE;
        lemma_isqrt_exists(n as nat);
        let r = choose|r: int| is_isqrt(n, r);
        assert(sqrt_ok(a, r));
    }
}

/// Division by a divisor that is not negative keeps the order of dividends.
pub proof fn lemma_div_monotone(u: int, v: int, a: int)
    requires
        u <= v,
        a >= 0,
    ensures
        div_spec(u, a) <= div_spec(v, a),
{
    if a > 0 {
        assert(u * ONE <= v * ONE) by (nonlinear_arith)
            requires
                u <= v,
        ;
        vstd::arithmetic::div_mod::lemma_div_is_ordered(u * ONE, v * ONE, a);
    }
}

/// Division by a negative divisor reverses the order of dividends.
pub proof fn lemma_div_antitone(u: int, v: int, a: int)
    requires
        u <= v,
        a < 0,
    ensures
        div_spec(u, a) >= div_spec(v, a),
{
    assert(-(v * ONE) <= -(u * ONE)) by (nonlinear_arith)
        requires
            u <= v,
    ;
    vstd::arithmetic::div_mod::lemma_div_is_ordered(-(v * ONE), -(u * ONE), -a);
}

/// A square is not negative.
pub proof fn lemma_mul_self_nonneg(x: int)
    ensures
        mul_spec(x, x) >= 0,
{
    assert(x * x >= 0) by (nonlinear_arith);
    vstd::arithmetic::div_mod::lemma_div_pos_is_pos(x * x, ONE as int);
}

pub open spec fn min_spec(a: int, b: int) -> int {
    if a <= b {
        a
    } else {
        b
    }
}

pub open spec fn max_spec(a: int, b: int) -> int {
    if a >= b {
        a
    } else {
        b
    }
}

/// The fixed-point value of a whole number.
pub open spec fn of_int(n: int) -> int {
    sat(n * ONE)
}

fn saturate(x: i128) -> (r: i64)
    ensures
        r == sat(x as int),
{
    if x > LIMIT as i128 {
        LIMIT
    } else if x < -(LIMIT as i128) {
        -LIMIT
    } else {
        x as i64
    }
}

/// Floor division of a wide value by a positive divisor.
pub(crate) fn floor_div_pos(a: i128, b: i128) -> (r: i128)
    requires
        b > 0,
        a > i128::MIN,
    ensures
        r == a as int / b as int,
        a >= 0 ==> 0 <= r <= a,
        a < 0 ==> a <= r < 0,
{
    proof {
        let q = a as int / b as int;
        let m = a as int % b as int;
        vstd::arithmetic::div_mod::lemma_fundamental_div_mod(a as int, b as int);
        assert(a >= 0 ==> 0 <= q <= a) by (nonlinear_arith)
            requires
                a == b * q + m,
                0 <= m < b,
                b >= 1,
        ;
        assert(a < 0 ==> a <= q < 0) by (nonlinear_arith)
            requires
                a == b * q + m,
                0 <= m < b,
                b >= 1,
        ;
    }
    if a >= 0 {
        a / b
    } else {
        let n = -a;
        let q = n / b;
        let m = n % b;
        assert(n == b * q + m) by (nonlinear_arith)
            requires
                q == n / b,
                m == n % b,
                b > 0,
                n >= 0,
        ;
        if m == 0 {
            assert(a == b * (-q) + 0) by (nonlinear_arith)
                requires
                    n == b * q + m,
                    a == -n,
                    m == 0,
            ;
            proof {
                vstd::arithmetic::div_mod::lemma_fundamental_div_mod_converse(
                    a as int,
                    b as int,
                    -q as int,
                    0,
                );
            }
            -q
        } else {
            assert(a == b * (-q - 1) + (b - m)) by (nonlinear_arith)
                requires
                    n == b * q + m,
                    a == -n,
            ;
            proof {
                vstd::arithmetic::div_mod::lemma_fundamental_div_mod_converse(
                    a as int,
                    b as int,
                    -q - 1,
                    b - m,
                );
            }
            -q - 1
        }
    }
}

/// Saturating sum.
pub fn add(a: i64, b: i64) -> (r: i64)
    ensures
        r == add_spec(a as int, b as int),
{
    saturate(a as i128 + b as i128)
}

/// Saturating difference.
pub fn sub(a: i64, b: i64) -> (r: i64)
    ensures
        r == sub_spec(a as int, b as int),
{
    saturate(a as i128 - b as i128)
}

/// Saturating product, rounded down.
pub fn mul(a: i64, b: i64) -> (r: i64)
    ensures
        r == mul_spec(a as int, b as int),
{
    assert(-0x4000_0000_0000_0000_0000_0000_0000_0000 <= a as int * b as int
        <= 0x4000_0000_0000_0000_0000_0000_0000_0000) by (nonlinear_arith)
        requires
            i64::MIN <= a <= i64::MAX,
            i64::MIN <= b <= i64::MAX,
    ;
    let p = a as i128 * b as i128;
    saturate(floor_div_pos(p, ONE as i128))
}

/// Saturating quotient, rounded down; a zero divisor saturates.
pub fn div(a: i64, b: i64) -> (r: i64)
    ensures
        r == div_spec(a as int, b as int),
{
    if b == 0 {
        if a > 0 {
            LIMIT
        } else if a < 0 {
            -LIMIT
        } else {
            0
        }
    } else {
        assert(-0x1_0000_0000_0000_0000_0000 <= a as int * ONE <= 0x1_0000_0000_0000_0000_0000)
            by (nonlinear_arith)
            requires
                i64::MIN <= a <= i64::MAX,
        ;
        let n = a as i128 * ONE as i128;
        if b > 0 {
            saturate(floor_div_pos(n, b as i128))
        } else {
            saturate(floor_div_pos(-n, -(b as i128)))
        }
    }
}

/// Integer square root by bisection.
pub fn isqrt(n: u128) -> (r: u128)
    requires
        n < 0x10_0000_0000_0000_0000_0000_0000,
    ensures
        is_isqrt(n as int, r as int),
{
    let mut lo: u128 = 0;
    let mut hi: u128 = 0x4_0000_0000_0000;
    assert(n < hi * hi) by (nonlinear_arith)
        requires
            hi == 0x4_0000_0000_0000,
            n < 0x10_0000_0000_0000_0000_0000_0000,
    ;
    while hi - lo > 1
        invariant
            lo < hi <= 0x4_0000_0000_0000,
            lo * lo <= n,
            n < hi * hi,
        decreases hi - lo,
    {
        let mid = lo + (hi - lo) / 2;
        assert(mid * mid <= 0x10_0000_0000_0000_0000_0000_0000) by (nonlinear_arith)
            requires
                mid <= 0x4_0000_0000_0000,
        ;
        if mid * mid <= n {
            lo = mid;
        } else {
            hi = mid;
        }
    }
    lo
}

/// Fixed-point square root, rounded down; zero for a value that is not positive.
pub fn sqrt(a: i64) -> (r: i64)
    ensures
        r == sqrt_spec(a as int),
        0 <= r <= 0x100_0000_0000,
{
    if a <= 0 {
        assert(sqrt_ok(a as int, 0));
        0
    } else {
        assert(a as int * ONE <= 0x1_0000_0000_0000_0000_0000) by (nonlinear_arith)
            requires
                0 < a <= i64::MAX,
        ;
        let n = a as u128 * ONE as u128;
        let r = isqrt(n);
        assert(r <= 0x100_0000_0000) by (nonlinear_arith)
            requires
                r * r <= n,
                n <= 0x1_0000_0000_0000_0000_0000,
                r >= 0,
        {
            if r > 0x100_0000_0000 {
                assert(r * r > 0x100_0000_0000 * 0x100_0000_0000);
            }
        }
        proof {
            assert(sqrt_ok(a as int, r as int));
            lemma_isqrt_unique(a * ONE, r as int, sqrt_spec(a as int));
        }
        r as i64
    }
}

/// Saturating negation.
pub fn neg(a: i64) -> (r: i64)
    ensures
        r == sat(-(a as int)),
{
    saturate(-(a as i128))
}

pub fn min(a: i64, b: i64) -> (r: i64)
    ensures
        r == min_spec(a as int, b as int),
{
    if a <= b {
        a
    } else {
        b
    }
}

pub fn max(a: i64, b: i64) -> (r: i64)
    ensures
        r == max_spec(a as int, b as int),
{
    if a >= b {
        a
    } else {
        b
    }
}

/// The fixed-point value of a whole number.
pub fn from_int(n: i64) -> (r: i64)
    ensures
        r == of_int(n as int),
{
    assert(-0x1_0000_0000_0000_0000_0000 <= n as int * ONE <= 0x1_0000_0000_0000_0000_0000)
        by (nonlinear_arith)
        requires
            i64::MIN <= n <= i64::MAX,
    ;
    saturate(n as i128 * ONE as i128)
}

/// Whole-number division rounded toward negative infinity; zero for a zero divisor.
pub fn floor_div_int(a: i64, b: i64) -> (r: i128)
    ensures
        r == floor_div(a as int, b as int),
        -0x8000_0000_0000_0000 <= r <= 0x8000_0000_0000_0000,
{
    if b == 0 {
        0
    } else if b > 0 {
        floor_div_pos(a as i128, b as i128)
    } else {
        floor_div_pos(-(a as i128), -(b as i128))
    }
}

/// Pi, rounded down.
pub const PI: i64 = 205887;

/// An angle in degrees converted to radians: `degrees * PI / 180`.
pub fn degrees_to_radians(degrees: i64) -> (r: i64)
    ensures
        r == div_spec(mul_spec(degrees as int, PI as int), of_int(180)),
{
    div(crate::fixed::mul(degrees, PI), from_int(180))
}

} // verus!
