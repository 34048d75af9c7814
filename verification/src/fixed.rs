//! Scalar fixed-point arithmetic: truncating multiply, divide and an exact
//! integer square root. Every executable function's result equals a spec
//! function of its arguments, so callers reason about exact values.

use vstd::prelude::*;

verus! {

/// Absolute value of a mathematical integer.
pub open spec fn absi(a: int) -> int {
    if a >= 0 {
        a
    } else {
        -a
    }
}

/// Truncating division (round toward zero), the semantics of hardware
/// integer division. Verus's own `/` on `int` is Euclidean, which differs
/// on negative dividends.
pub open spec fn tdiv(a: int, b: int) -> int
    recommends
        b != 0,
{
    let q = absi(a) / absi(b);
    if (a >= 0) == (b >= 0) {
        q
    } else {
        -q
    }
}

/// Fixed-point product: the real product of `a / 65536` and `b / 65536`,
/// scaled back and truncated toward zero.
pub open spec fn fxmul(a: int, b: int) -> int {
    tdiv(a * b, 65536)
}

/// Fixed-point quotient: the real quotient of `a / 65536` by `b / 65536`,
/// scaled back and truncated toward zero.
pub open spec fn fxdiv(a: int, b: int) -> int
    recommends
        b != 0,
{
    tdiv(a * 65536, b)
}

/// Integer square root, the largest `r` with `r * r <= n`.
pub open spec fn isqrt(n: nat) -> nat
    decreases n,
{
    if n == 0 {
        0
    } else {
        let r = isqrt((n - 1) as nat);
        if (r + 1) * (r + 1) <= n {
            r + 1
        } else {
            r
        }
    }
}

/// Square root of a fixed-point value: `isqrt` of the value rescaled so the
/// result is again 16.16 fixed point.
pub open spec fn fxsqrt(a: int) -> int
    recommends
        a >= 0,
{
    isqrt((a * 65536) as nat) as int
}

/// `isqrt(n)` is the integer square root: its square is at most `n` and the
/// next square is beyond `n`.
pub proof fn lemma_isqrt_bounds(n: nat)
    ensures
        isqrt(n) * isqrt(n) <= n,
        n < (isqrt(n) + 1) * (isqrt(n) + 1),
    decreases n,
{
    if n == 0 {
        assert(isqrt(0) == 0nat);
        assert(n < (isqrt(n) + 1) * (isqrt(n) + 1)) by (nonlinear_arith)
            requires
                n == 0,
                isqrt(n) == 0,
        ;
    } else {
        let m = (n - 1) as nat;
        lemma_isqrt_bounds(m);
        let r = isqrt(m);
        assert(r * r <= m && m < (r + 1) * (r + 1));
        if (r + 1) * (r + 1) <= n {
            assert(isqrt(n) == r + 1);
            assert(n <= (r + 1) * (r + 1));
            assert(n < (r + 2) * (r + 2)) by (nonlinear_arith)
                requires
                    n <= (r + 1) * (r + 1),
                    r >= 0,
            ;
            assert(isqrt(n) * isqrt(n) <= n) by (nonlinear_arith)
                requires
                    isqrt(n) == r + 1,
                    (r + 1) * (r + 1) <= n,
            ;
            assert(n < (isqrt(n) + 1) * (isqrt(n) + 1)) by (nonlinear_arith)
                requires
                    isqrt(n) == r + 1,
                    n < (r + 2) * (r + 2),
            ;
        } else {
            assert(isqrt(n) == r);
            assert(r * r <= n && n < (r + 1) * (r + 1));
            assert(isqrt(n) * isqrt(n) <= n) by (nonlinear_arith)
                requires
                    isqrt(n) == r,
                    r * r <= n,
            ;
            assert(n < (isqrt(n) + 1) * (isqrt(n) + 1)) by (nonlinear_arith)
                requires
                    isqrt(n) == r,
                    n < (r + 1) * (r + 1),
            ;
        }
    }
}

/// The integer square root is unique: any `r` squeezed between the same
/// squares equals `isqrt(n)`.
pub proof fn lemma_isqrt_unique(n: nat, r: nat)
    requires
        r * r <= n,
        n < (r + 1) * (r + 1),
    ensures
        r == isqrt(n),
{
    lemma_isqrt_bounds(n);
    let s = isqrt(n);
    if r < s {
        assert(s * s > n) by (nonlinear_arith)
            requires
                r < s,
                n < (r + 1) * (r + 1),
                r >= 0,
                s >= 0,
        ;
    }
    if s < r {
        assert(r * r > n) by (nonlinear_arith)
            requires
                s < r,
                n < (s + 1) * (s + 1),
                r >= 0,
                s >= 0,
        ;
    }
}

/// `isqrt` is monotone.
pub proof fn lemma_isqrt_ordered(m: nat, n: nat)
    requires
        m <= n,
    ensures
        isqrt(m) <= isqrt(n),
{
    lemma_isqrt_bounds(m);
    lemma_isqrt_bounds(n);
    let a = isqrt(m);
    let b = isqrt(n);
    if b < a {
        assert(false) by (nonlinear_arith)
            requires
                a * a <= m,
                n < (b + 1) * (b + 1),
                m <= n,
                b < a,
                a >= 0,
                b >= 0,
        ;
    }
}

/// Truncating division shrinks magnitudes: a bound on the dividend gives a
/// bound on the quotient.
pub proof fn lemma_tdiv_bound(a: int, b: int, m: int)
    requires
        b > 0,
        -m <= a <= m,
        0 <= m,
    ensures
        -(m / b) <= tdiv(a, b) <= m / b,
        absi(tdiv(a, b)) <= absi(a),
{
    vstd::arithmetic::div_mod::lemma_div_is_ordered(absi(a), m, b);
    vstd::arithmetic::div_mod::lemma_div_pos_is_pos(absi(a), b);
    vstd::arithmetic::div_mod::lemma_div_nonincreasing(absi(a), b);
}

/// Truncating division is monotone on nonnegative dividends.
pub proof fn lemma_tdiv_ordered(a: int, b: int, d: int)
    requires
        d > 0,
        0 <= a <= b,
    ensures
        0 <= tdiv(a, d) <= tdiv(b, d),
{
    vstd::arithmetic::div_mod::lemma_div_is_ordered(a, b, d);
    vstd::arithmetic::div_mod::lemma_div_pos_is_pos(a, d);
}

/// Exact division: when the dividend is a multiple of the divisor the
/// truncating quotient is that multiple.
pub proof fn lemma_tdiv_exact(k: int, d: int)
    requires
        d > 0,
        k >= 0,
    ensures
        tdiv(k * d, d) == k,
{
    vstd::arithmetic::div_mod::lemma_div_by_multiple(k, d);
}

/// Truncating division leaves a remainder smaller than the divisor, on
/// the dividend's side of zero.
pub proof fn lemma_tdiv_remainder(a: int, d: int)
    requires
        d > 0,
    ensures
        absi(tdiv(a, d)) * d <= absi(a),
        absi(tdiv(a, d)) * d > absi(a) - d,
        absi(tdiv(a, d)) == absi(a) / d,
        absi(a - d * tdiv(a, d)) < d,
{
    vstd::arithmetic::div_mod::lemma_fundamental_div_mod(absi(a), d);
    vstd::arithmetic::div_mod::lemma_mod_division_less_than_divisor(absi(a), d);
    vstd::arithmetic::div_mod::lemma_div_pos_is_pos(absi(a), d);
    assert((absi(a) / d) * d == d * (absi(a) / d)) by (nonlinear_arith);
    let q = absi(a) / d;
    if a >= 0 {
        assert(a - d * tdiv(a, d) == absi(a) - d * q);
    } else {
        assert(d * -q == -(d * q)) by (nonlinear_arith);
        assert(a - d * tdiv(a, d) == -(absi(a) - d * q));
    }
}

/// Multiplying by the fixed-point unit is exact.
pub proof fn lemma_fxmul_one(c: int)
    ensures
        fxmul(65536, c) == c,
{
    vstd::arithmetic::div_mod::lemma_div_by_multiple(absi(c), 65536);
    assert(absi(65536 * c) == absi(c) * 65536);
}

/// Executable truncating division of an `i128` by a positive divisor.
pub fn tdiv_i128(a: i128, b: i128) -> (r: i128)
    requires
        b > 0,
        a > i128::MIN,
    ensures
        r == tdiv(a as int, b as int),
{
    proof {
        vstd::arithmetic::div_mod::lemma_div_nonincreasing(absi(a as int), b as int);
        vstd::arithmetic::div_mod::lemma_div_pos_is_pos(absi(a as int), b as int);
    }
    if a >= 0 {
        ((a as u128) / (b as u128)) as i128
    } else {
        let m = (-a) as u128;
        -((m / (b as u128)) as i128)
    }
}

/// Executable fixed-point multiply. The full product is taken in `i128`, so
/// the only demand is that the truncated result fit an `i64`.
pub fn fx_mul(a: i64, b: i64) -> (r: i64)
    requires
        -0x7fff_ffff_ffff_ffff <= fxmul(a as int, b as int) <= 0x7fff_ffff_ffff_ffff,
    ensures
        r == fxmul(a as int, b as int),
{
    proof {
        assert((a as i128) * (b as i128) == (a as int) * (b as int)) by (nonlinear_arith);
        assert(-0x4000_0000_0000_0000_0000_0000_0000_0000 <= (a as int) * (b as int)
            <= 0x4000_0000_0000_0000_0000_0000_0000_0000) by (nonlinear_arith)
            requires
                -0x8000_0000_0000_0000 <= (a as int) && (a as int) < 0x8000_0000_0000_0000,
                -0x8000_0000_0000_0000 <= (b as int) && (b as int) < 0x8000_0000_0000_0000,
        ;
    }
    let p: i128 = (a as i128) * (b as i128);
    let q = tdiv_i128(p, 65536);
    q as i64
}

/// Executable fixed-point divide.
pub fn fx_div(a: i64, b: i64) -> (r: i64)
    requires
        b != 0,
        -0x7fff_ffff_ffff_ffff <= fxdiv(a as int, b as int) <= 0x7fff_ffff_ffff_ffff,
    ensures
        r == fxdiv(a as int, b as int),
{
    let p: i128 = (a as i128) * 65536;
    if b > 0 {
        tdiv_i128(p, b as i128) as i64
    } else {
        proof {
            assert(tdiv(p as int, -(b as int)) == -tdiv(p as int, b as int));
        }
        let q = tdiv_i128(p, -(b as i128));
        (-q) as i64
    }
}

/// Executable integer square root by bisection.
pub fn isqrt_u128(n: u128) -> (r: u128)
    ensures
        r == isqrt(n as nat),
        r < 0x1_0000_0000_0000_0000,
{
    let mut lo: u128 = 0;
    let mut hi: u128 = 0x1_0000_0000_0000_0000;
    proof {
        assert((hi as int) * (hi as int) > n as int) by (nonlinear_arith)
            requires
                hi == 0x1_0000_0000_0000_0000,
                n <= 0xffff_ffff_ffff_ffff_ffff_ffff_ffff_ffff,
        ;
    }
    while lo + 1 < hi
        invariant
            0 <= lo < hi <= 0x1_0000_0000_0000_0000,
            (lo as int) * (lo as int) <= n as int,
            (n as int) < (hi as int) * (hi as int),
        decreases hi - lo,
    {
        let mid = lo + (hi - lo) / 2;
        proof {
            assert((mid as int) * (mid as int) < 0x1_0000_0000_0000_0000_0000_0000_0000_0000)
                by (nonlinear_arith)
                requires
                    0 <= (mid as int) && (mid as int) < 0x1_0000_0000_0000_0000,
            ;
        }
        if mid * mid <= n {
            lo = mid;
        } else {
            hi = mid;
        }
    }
    proof {
        lemma_isqrt_unique(n as nat, lo as nat);
    }
    lo
}

/// Executable square root of a nonnegative fixed-point value.
pub fn fx_sqrt(a: i64) -> (r: i64)
    requires
        a >= 0,
    ensures
        r == fxsqrt(a as int),
        r >= 0,
{
    let n: u128 = (a as u128) * 65536;
    let r = isqrt_u128(n);
    proof {
        lemma_isqrt_bounds(n as nat);
        assert((r as int) * (r as int) <= n as int);
        assert(r < 0x8000_0000_0000_0000) by (nonlinear_arith)
            requires
                (r as int) * (r as int) <= n as int,
                n as int <= 0x7fff_ffff_ffff_ffff * 0x10000,
                r >= 0,
        ;
    }
    r as i64
}

} // verus!
