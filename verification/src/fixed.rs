//! Fixed-point scalar arithmetic.
//!
//! Every geometric quantity in this crate is a signed 64-bit integer holding
//! a real number scaled by `SCALE`: the stored value `v` stands for the real
//! number `v / SCALE`. Products and quotients are computed exactly in 128-bit
//! intermediates and truncated toward zero, as Rust's integer division does.

use vstd::prelude::*;

verus! {

/// Number of fixed-point units per whole unit: four decimal digits of fraction.
pub const SCALE: i64 = 10000;

/// Magnitude of an integer.
pub open spec fn mag(a: int) -> int {
    if a < 0 {
        -a
    } else {
        a
    }
}

/// Quotient of `a` and `b` truncated toward zero: the value Rust's `/` computes.
pub open spec fn tdiv(a: int, b: int) -> int {
    if (a < 0) == (b < 0) {
        mag(a) / mag(b)
    } else {
        -(mag(a) / mag(b))
    }
}

/// Fixed-point product: the real product of the numbers `a` and `b` stand for,
/// truncated toward zero to the grid.
pub open spec fn fmul(a: int, b: int) -> int {
    tdiv(a * b, SCALE as int)
}

/// Fixed-point quotient: the real quotient, truncated toward zero to the grid.
pub open spec fn fdiv(a: int, b: int) -> int {
    tdiv(a * (SCALE as int), b)
}

/// Whether a mathematical integer fits in an `i64`.
pub open spec fn fits64(x: int) -> bool {
    i64::MIN <= x <= i64::MAX
}

/// Truncated division has the magnitude of the quotient of the magnitudes.
pub proof fn lemma_tdiv_mag(a: int, b: int)
    requires
        b != 0,
    ensures
        mag(tdiv(a, b)) == mag(a) / mag(b),
        0 <= mag(a) / mag(b) <= mag(a),
        mag(a) < mag(b) ==> tdiv(a, b) == 0,
        a >= 0 && b > 0 ==> tdiv(a, b) == a / b,
{
    let n = mag(a);
    let d = mag(b);
    assert(d >= 1);
    assert(n / d <= n && n / d >= 0) by (nonlinear_arith)
        requires
            n >= 0 && d >= 1,
    ;
    assert(n < d ==> n / d == 0) by (nonlinear_arith)
        requires
            n >= 0 && d >= 1,
    ;
}

/// The quotient shrinks when the dividend's magnitude does.
pub proof fn lemma_tdiv_mono_mag(a: int, b: int, bound: int)
    requires
        b != 0,
        mag(a) <= bound,
    ensures
        mag(tdiv(a, b)) <= bound / mag(b),
        mag(tdiv(a, b)) <= bound,
{
    lemma_tdiv_mag(a, b);
    let d = mag(b);
    assert(mag(a) / d <= bound / d && bound / d <= bound) by (nonlinear_arith)
        requires
            0 <= mag(a) <= bound && d >= 1,
    ;
}

/// Truncated division is monotone in the dividend.
pub proof fn lemma_tdiv_mono(a1: int, a2: int, b: int)
    requires
        a1 <= a2,
        b >= 1,
    ensures
        tdiv(a1, b) <= tdiv(a2, b),
{
    lemma_tdiv_mag(a1, b);
    lemma_tdiv_mag(a2, b);
    if a1 >= 0 {
        vstd::arithmetic::div_mod::lemma_div_is_ordered(a1, a2, b);
    } else if a2 < 0 {
        vstd::arithmetic::div_mod::lemma_div_is_ordered(-a2, -a1, b);
    } else {
        assert(tdiv(a1, b) <= 0);
        assert(tdiv(a2, b) >= 0);
    }
}

/// The fixed-point product is monotone in its first factor, with the order
/// following the second factor's sign.
pub proof fn lemma_fmul_mono(k1: int, k2: int, d: int)
    requires
        k1 <= k2,
    ensures
        d >= 0 ==> fmul(k1, d) <= fmul(k2, d),
        d < 0 ==> fmul(k2, d) <= fmul(k1, d),
{
    if d >= 0 {
        assert(k1 * d <= k2 * d) by (nonlinear_arith)
            requires
                k1 <= k2,
                d >= 0,
        ;
        lemma_tdiv_mono(k1 * d, k2 * d, SCALE as int);
    } else {
        assert(k2 * d <= k1 * d) by (nonlinear_arith)
            requires
                k1 <= k2,
                d < 0,
        ;
        lemma_tdiv_mono(k2 * d, k1 * d, SCALE as int);
    }
}

/// A bound on the dividend, as a multiple of the divisor, bounds the
/// quotient.
pub proof fn lemma_tdiv_le(a: int, b: int, l: int)
    requires
        b >= 1,
        mag(a) <= l * b,
    ensures
        mag(tdiv(a, b)) <= l,
{
    lemma_tdiv_mag(a, b);
    assert(mag(a) / b <= l) by (nonlinear_arith)
        requires
            b >= 1,
            0 <= mag(a) <= l * b,
    ;
}

/// A bound on both factors, as a multiple of the scale, bounds the
/// fixed-point product.
pub proof fn lemma_fmul_le(a: int, b: int, ma: int, mb: int, l: int)
    requires
        mag(a) <= ma,
        mag(b) <= mb,
        ma * mb <= l * (SCALE as int),
    ensures
        mag(fmul(a, b)) <= l,
{
    assert(mag(a * b) == mag(a) * mag(b)) by (nonlinear_arith);
    assert(mag(a) * mag(b) <= ma * mb) by (nonlinear_arith)
        requires
            0 <= mag(a) <= ma && 0 <= mag(b) <= mb,
    ;
    lemma_tdiv_le(a * b, SCALE as int, l);
}

/// Exact division: when `b` divides `a` evenly the truncated quotient is exact.
pub proof fn lemma_tdiv_exact(q: int, b: int)
    requires
        b > 0,
    ensures
        tdiv(q * b, b) == q,
{
    assert(mag(q * b) == mag(q) * b) by (nonlinear_arith)
        requires
            b > 0,
    ;
    assert((q * b < 0) <==> (q < 0)) by (nonlinear_arith)
        requires
            b > 0,
    ;
    assert(mag(q) * b / b == mag(q)) by (nonlinear_arith)
        requires
            b > 0,
    ;
}

/// A bound on both factors bounds the fixed-point product.
pub proof fn lemma_fmul_bound(a: int, b: int, abound: int, bbound: int)
    requires
        mag(a) <= abound,
        mag(b) <= bbound,
    ensures
        mag(fmul(a, b)) <= abound * bbound / (SCALE as int),
        mag(fmul(a, b)) <= abound * bbound,
{
    assert(mag(a * b) == mag(a) * mag(b)) by (nonlinear_arith);
    assert(mag(a) * mag(b) <= abound * bbound) by (nonlinear_arith)
        requires
            0 <= mag(a) <= abound && 0 <= mag(b) <= bbound,
    ;
    lemma_tdiv_mono_mag(a * b, SCALE as int, abound * bbound);
    assert(abound * bbound / (SCALE as int) <= abound * bbound) by (nonlinear_arith)
        requires
            abound * bbound >= 0,
    ;
}

/// Multiplying by a number in `[0, 1]` cannot grow a nonnegative number.
pub proof fn lemma_fmul_unit_interval(a: int, b: int)
    requires
        0 <= a,
        0 <= b <= SCALE as int,
    ensures
        0 <= fmul(a, b) <= a,
{
    assert(0 <= a * b <= a * (SCALE as int)) by (nonlinear_arith)
        requires
            0 <= a && 0 <= b <= SCALE as int,
    ;
    lemma_tdiv_mag(a * b, SCALE as int);
    assert(a * b / (SCALE as int) <= a * (SCALE as int) / (SCALE as int)) by (nonlinear_arith)
        requires
            0 <= a * b <= a * (SCALE as int),
    ;
    lemma_tdiv_exact(a, SCALE as int);
    assert(mag(a * b) == a * b);
}

/// One is the unit of the fixed-point product.
pub proof fn lemma_fmul_one(b: int)
    ensures
        fmul(SCALE as int, b) == b,
        fmul(b, SCALE as int) == b,
        fmul(0, b) == 0,
        fmul(b, 0) == 0,
{
    lemma_tdiv_exact(b, SCALE as int);
    assert((SCALE as int) * b == b * (SCALE as int)) by (nonlinear_arith);
    assert(0 * (SCALE as int) == 0) by (nonlinear_arith);
    lemma_tdiv_exact(0, SCALE as int);
    assert(b * 0 == 0) by (nonlinear_arith);
}

/// Floor division by a positive divisor: the Euclidean quotient, which
/// rounds toward negative infinity.
pub fn floor_div(a: i64, b: i64) -> (r: i64)
    requires
        b > 0,
        a > i64::MIN,
    ensures
        r == (a as int) / (b as int),
        mag(r as int) <= mag(a as int) + 1,
{
    if a >= 0 {
        let q: i64 = a / b;
        proof {
            assert((a as int) / (b as int) <= a && (a as int) / (b as int) >= 0)
                by (nonlinear_arith)
                requires
                    a >= 0 && b >= 1,
            ;
        }
        q
    } else {
        let n: i64 = -a;
        let q: i64 = n / b;
        let rem: i64 = n % b;
        proof {
            assert((n as int) / (b as int) <= n && (n as int) / (b as int) >= 0)
                by (nonlinear_arith)
                requires
                    n >= 0 && b >= 1,
            ;
        }
        if rem == 0 {
            proof {
                vstd::arithmetic::div_mod::lemma_fundamental_div_mod(n as int, b as int);
                assert(a == (0 - (q as int)) * (b as int) + 0) by (nonlinear_arith)
                    requires
                        n == (q as int) * (b as int),
                        a == -(n as int),
                ;
                vstd::arithmetic::div_mod::lemma_fundamental_div_mod_converse(
                    a as int,
                    b as int,
                    0 - (q as int),
                    0,
                );
            }
            -q
        } else {
            proof {
                vstd::arithmetic::div_mod::lemma_fundamental_div_mod(n as int, b as int);
                assert(a == (0 - (q as int) - 1) * (b as int) + ((b as int) - (rem as int)))
                    by (nonlinear_arith)
                    requires
                        n == (q as int) * (b as int) + (rem as int),
                        a == -(n as int),
                ;
                vstd::arithmetic::div_mod::lemma_fundamental_div_mod_converse(
                    a as int,
                    b as int,
                    0 - (q as int) - 1,
                    (b as int) - (rem as int),
                );
            }
            -q - 1
        }
    }
}

/// The full product of two `i64` values, computed without loss in an `i128`.
pub fn wide_mul(a: i64, b: i64) -> (r: i128)
    ensures
        r == a * b,
{
    proof {
        assert(i128::MIN <= (a as int) * (b as int) <= i128::MAX) by (nonlinear_arith)
            requires
                i64::MIN <= a <= i64::MAX,
                i64::MIN <= b <= i64::MAX,
        ;
    }
    (a as i128) * (b as i128)
}

/// Truncated quotient of two `i128` values: the quotient of the magnitudes,
/// negated when exactly one operand is negative.
pub fn div_trunc(a: i128, b: i128) -> (r: i128)
    requires
        b != 0,
        a > i128::MIN,
        b > i128::MIN,
    ensures
        r == tdiv(a as int, b as int),
{
    let na: u128 = if a < 0 {
        (-a) as u128
    } else {
        a as u128
    };
    let nb: u128 = if b < 0 {
        (-b) as u128
    } else {
        b as u128
    };
    let q: u128 = na / nb;
    proof {
        assert(na == mag(a as int));
        assert(nb == mag(b as int));
        lemma_tdiv_mag(a as int, b as int);
    }
    if (a < 0) == (b < 0) {
        q as i128
    } else {
        -(q as i128)
    }
}

/// Fixed-point product of two scalars.
pub fn mul_fp(a: i64, b: i64) -> (r: i64)
    requires
        fits64(fmul(a as int, b as int)),
    ensures
        r == fmul(a as int, b as int),
{
    let p: i128 = wide_mul(a, b);
    proof {
        assert(p > i128::MIN) by (nonlinear_arith)
            requires
                p == (a as int) * (b as int),
                i64::MIN <= a <= i64::MAX,
                i64::MIN <= b <= i64::MAX,
        ;
        lemma_tdiv_mag(p as int, SCALE as int);
    }
    let q: i128 = div_trunc(p, SCALE as i128);
    q as i64
}

/// Fixed-point quotient of two scalars.
pub fn div_fp(a: i64, b: i64) -> (r: i64)
    requires
        b != 0,
        fits64(fdiv(a as int, b as int)),
    ensures
        r == fdiv(a as int, b as int),
{
    let p: i128 = wide_mul(a, SCALE);
    proof {
        lemma_tdiv_mag(p as int, b as int);
        assert(mag(tdiv(p as int, b as int)) <= mag(p as int)) by {
            lemma_tdiv_mono_mag(p as int, b as int, mag(p as int));
        }
    }
    let q: i128 = div_trunc(p, b as i128);
    q as i64
}

/// Integer square root: the greatest `r` with `r * r <= n`.
pub fn isqrt(n: u128) -> (r: u64)
    requires
        n < 0x1000000000000000000000000000000,
    ensures
        (r as int) * (r as int) <= n,
        n < (r as int + 1) * (r as int + 1),
{
    let mut lo: u128 = 0;
    let mut hi: u128 = 0x1000000000000000;
    proof {
        assert((hi as int) * (hi as int) > n) by (nonlinear_arith)
            requires
                hi == 0x1000000000000000 && n < 0x1000000000000000000000000000000,
        ;
    }
    while lo + 1 < hi
        invariant
            0 <= lo < hi <= 0x1000000000000000,
            (lo as int) * (lo as int) <= n,
            n < (hi as int) * (hi as int),
        decreases hi - lo,
    {
        let mid: u128 = lo + (hi - lo) / 2;
        proof {
            assert((mid as int) * (mid as int) <= 0x1000000000000000000000000000000)
                by (nonlinear_arith)
                requires
                    0 <= mid <= 0x1000000000000000,
            ;
        }
        if mid * mid <= n {
            lo = mid;
        } else {
            hi = mid;
        }
    }
    proof {
        assert(lo + 1 == hi);
        assert(lo < 0x10000000000000000);
    }
    lo as u64
}

/// Fixed-point square root of a nonnegative scalar: `sqrt` of the real number
/// it stands for, rounded down to the grid.
pub fn sqrt_fp(a: i64) -> (r: i64)
    requires
        0 <= a,
    ensures
        0 <= r,
        (r as int) * (r as int) <= (a as int) * (SCALE as int),
        (a as int) * (SCALE as int) < (r as int + 1) * (r as int + 1),
{
    let p: i128 = wide_mul(a, SCALE);
    proof {
        assert((a as int) * (SCALE as int) < 0x1000000000000000000000000000000) by (nonlinear_arith)
            requires
                0 <= a <= i64::MAX,
        ;
    }
    let root: u64 = isqrt(p as u128);
    proof {
        assert((root as int) * (root as int) <= (a as int) * (SCALE as int));
        assert((root as int) * (root as int) >= 0) by (nonlinear_arith);
        assert(root < 0x8000000000000000) by {
            assert(0x8000000000000000int * 0x8000000000000000int > (a as int) * (SCALE as int))
                by (nonlinear_arith)
                requires
                    0 <= a <= i64::MAX,
            ;
            assert(root >= 0x8000000000000000 ==> (root as int) * (root as int)
                >= 0x8000000000000000int * 0x8000000000000000int) by (nonlinear_arith);
        }
    }
    root as i64
}

} // verus!
