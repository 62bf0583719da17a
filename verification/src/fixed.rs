//! Fixed-point scalars and their arithmetic.
//!
//! A scalar is a raw `i64` counting millionths: `SCALE` (1_000_000) stands for
//! the real value 1.0. Multiplication and division round toward negative
//! infinity (floor); `fdiv` is the floor quotient for a positive divisor and
//! everything else is stated in terms of it.

use vstd::prelude::*;
use vstd::arithmetic::div_mod::{lemma_fundamental_div_mod, lemma_mod_division_less_than_divisor};

verus! {

/// The raw representation of 1.0: scalars count millionths.
pub const SCALE: i64 = 1_000_000;

/// Floor quotient of `a` by a positive `b`, written over Euclidean `/` so that
/// both sign cases are explicit.
pub open spec fn fdiv(a: int, b: int) -> int
    recommends
        b > 0,
{
    if a >= 0 {
        a / b
    } else {
        -(((-a) + b - 1) / b)
    }
}

/// Fixed-point product: floor of the real product of two scalars.
pub open spec fn fmul(a: int, b: int) -> int {
    fdiv(a * b, SCALE as int)
}

/// Fixed-point quotient: floor of the real quotient of two scalars, for any
/// nonzero divisor (the signs are moved so the floor divisor is positive).
pub open spec fn fxdiv(a: int, b: int) -> int
    recommends
        b != 0,
{
    if b > 0 {
        fdiv(a * (SCALE as int), b)
    } else {
        fdiv(-(a * (SCALE as int)), -b)
    }
}

/// Magnitude of an integer.
pub open spec fn absi(a: int) -> int {
    if a >= 0 {
        a
    } else {
        -a
    }
}

/// `fdiv` is the floor quotient: the unique `q` with `b*q <= a < b*q + b`.
pub proof fn lemma_fdiv_floor(a: int, b: int)
    requires
        b > 0,
    ensures
        b * fdiv(a, b) <= a,
        a < b * fdiv(a, b) + b,
{
    if a >= 0 {
        lemma_fundamental_div_mod(a, b);
        lemma_mod_division_less_than_divisor(a, b);
    } else {
        let n = -a;
        let w = n + b - 1;
        lemma_fundamental_div_mod(w, b);
        lemma_mod_division_less_than_divisor(w, b);
        let q = w / b;
        assert(b * q == w - w % b);
        assert(b * q >= n);
        assert(b * q <= w);
        assert(fdiv(a, b) == -q);
        assert(b * -q == -(b * q)) by (nonlinear_arith);
    }
}

/// Any `q` with `b*q <= a < b*q + b` is the floor quotient.
pub proof fn lemma_fdiv_unique(a: int, b: int, q: int)
    requires
        b > 0,
        b * q <= a,
        a < b * q + b,
    ensures
        fdiv(a, b) == q,
{
    lemma_fdiv_floor(a, b);
    let f = fdiv(a, b);
    if f < q {
        assert(b * q >= b * f + b) by (nonlinear_arith)
            requires
                b > 0,
                q >= f + 1,
        ;
    }
    if q < f {
        assert(b * f >= b * q + b) by (nonlinear_arith)
            requires
                b > 0,
                f >= q + 1,
        ;
    }
}

/// The floor quotient lies between 0 and the dividend.
pub proof fn lemma_fdiv_range(a: int, b: int)
    requires
        b >= 1,
    ensures
        a >= 0 ==> 0 <= fdiv(a, b) <= a,
        a < 0 ==> a <= fdiv(a, b) <= 0,
{
    lemma_fdiv_floor(a, b);
    let f = fdiv(a, b);
    if a >= 0 {
        if f < 0 {
            assert(b * f + b <= 0) by (nonlinear_arith)
                requires
                    b >= 1,
                    f <= -1,
            ;
        }
        assert(f <= b * f) by (nonlinear_arith)
            requires
                b >= 1,
                f >= 0,
        ;
    } else {
        if f > 0 {
            assert(b * f >= 1) by (nonlinear_arith)
                requires
                    b >= 1,
                    f >= 1,
            ;
        }
        assert(b * (f + 1) <= f + 1) by (nonlinear_arith)
            requires
                b >= 1,
                f + 1 <= 0,
        ;
        assert(b * (f + 1) == b * f + b) by (nonlinear_arith);
    }
}

/// Scaling by 1.0 is the identity.
pub proof fn lemma_fmul_scale(x: int)
    ensures
        fmul(x, SCALE as int) == x,
{
    assert((SCALE as int) * x <= x * (SCALE as int)) by (nonlinear_arith);
    assert(x * (SCALE as int) <= (SCALE as int) * x) by (nonlinear_arith);
    lemma_fdiv_unique(x * (SCALE as int), SCALE as int, x);
}

/// A product with a scalar of magnitude at most 1.0 keeps the other factor's
/// magnitude bound.
pub proof fn lemma_fmul_unit_bound(x: int, c: int, m: int)
    requires
        -m <= x <= m,
        -(SCALE as int) <= c <= SCALE as int,
    ensures
        -m <= fmul(x, c) <= m,
{
    let s = SCALE as int;
    assert(-(m * s) <= x * c <= m * s) by (nonlinear_arith)
        requires
            -m <= x <= m,
            -s <= c <= s,
            s > 0,
    ;
    lemma_fdiv_floor(x * c, s);
    let f = fmul(x, c);
    assert(s * f <= m * s);
    assert(m * s == s * m) by (nonlinear_arith);
    if f > m {
        assert(s * f >= s * m + s) by (nonlinear_arith)
            requires
                s > 0,
                f >= m + 1,
        ;
    }
    if f < -m {
        assert(s * f + s <= s * -m) by (nonlinear_arith)
            requires
                s > 0,
                f + 1 <= -m,
        ;
        assert(s * -m == -(m * s)) by (nonlinear_arith);
    }
}

/// A product with a scalar of magnitude at most `k` (in whole units) grows the
/// other factor's magnitude by at most that factor.
pub proof fn lemma_fmul_ratio_bound(c: int, d: int, k: int)
    requires
        k >= 0,
        -(k * (SCALE as int)) <= c <= k * (SCALE as int),
    ensures
        -(k * absi(d)) <= fmul(c, d) <= k * absi(d),
{
    let s = SCALE as int;
    let m = k * absi(d);
    assert(-(m * s) <= c * d <= m * s) by (nonlinear_arith)
        requires
            -(k * s) <= c <= k * s,
            s > 0,
            k >= 0,
            m == k * absi(d),
            absi(d) == if d >= 0 { d } else { -d },
    ;
    lemma_fdiv_floor(c * d, s);
    let f = fmul(c, d);
    assert(m * s == s * m) by (nonlinear_arith);
    if f > m {
        assert(s * f >= s * m + s) by (nonlinear_arith)
            requires
                s > 0,
                f >= m + 1,
        ;
    }
    if f < -m {
        assert(s * f + s <= s * -m) by (nonlinear_arith)
            requires
                s > 0,
                f + 1 <= -m,
        ;
        assert(s * -m == -(m * s)) by (nonlinear_arith);
    }
}

/// A fixed-point square is nonnegative and bounded by the square of a bound on
/// its argument.
pub proof fn lemma_fmul_square_bound(x: int, m: int)
    requires
        -m <= x <= m,
    ensures
        0 <= fmul(x, x),
        (SCALE as int) * fmul(x, x) <= m * m,
{
    let s = SCALE as int;
    assert(0 <= x * x <= m * m) by (nonlinear_arith)
        requires
            -m <= x <= m,
    ;
    lemma_fdiv_range(x * x, s);
    lemma_fdiv_floor(x * x, s);
}

/// Exec floor division of an `i128` by a positive `i128`.
pub(crate) fn fdiv128(a: i128, b: i128) -> (q: i128)
    requires
        b > 0,
        a > i128::MIN,
    ensures
        q == fdiv(a as int, b as int),
{
    if a >= 0 {
        let qu: u128 = (a as u128) / (b as u128);
        proof {
            lemma_fdiv_range(a as int, b as int);
        }
        qu as i128
    } else {
        let n: u128 = (-a) as u128;
        let bu: u128 = b as u128;
        let qu: u128 = (n + bu - 1) / bu;
        proof {
            let w = n as int + bu as int - 1;
            lemma_fundamental_div_mod(w, bu as int);
            lemma_mod_division_less_than_divisor(w, bu as int);
            if (qu as int) > (n as int) {
                assert((bu as int) * (qu as int) >= (bu as int) * (n as int + 1)) by (nonlinear_arith)
                    requires
                        bu as int >= 1,
                        qu as int >= n as int + 1,
                ;
                assert((bu as int) * (n as int + 1) >= n as int + bu as int) by (nonlinear_arith)
                    requires
                        bu as int >= 1,
                        n as int >= 0,
                ;
            }
        }
        -(qu as i128)
    }
}

/// Exec fixed-point product.
pub(crate) fn fx_mul(a: i64, b: i64) -> (r: i64)
    requires
        i64::MIN <= fmul(a as int, b as int) <= i64::MAX,
    ensures
        r == fmul(a as int, b as int),
{
    let p: i128 = (a as i128) * (b as i128);
    let q: i128 = fdiv128(p, 1_000_000);
    q as i64
}

/// Exec fixed-point quotient.
pub(crate) fn fx_div(a: i64, b: i64) -> (r: i64)
    requires
        b != 0,
        i64::MIN <= fxdiv(a as int, b as int) <= i64::MAX,
    ensures
        r == fxdiv(a as int, b as int),
{
    let num: i128 = (a as i128) * 1_000_000;
    if b > 0 {
        let q: i128 = fdiv128(num, b as i128);
        q as i64
    } else {
        let q: i128 = fdiv128(-num, -(b as i128));
        q as i64
    }
}

/// `r` is the integer square root of `n`.
pub open spec fn is_isqrt(n: int, r: int) -> bool {
    0 <= r && r * r <= n && n < (r + 1) * (r + 1)
}

/// The integer square root, as a value.
pub open spec fn sqrt_floor(n: int) -> int {
    choose|r: int| is_isqrt(n, r)
}

/// The integer square root is unique.
pub proof fn lemma_isqrt_unique(n: int, r1: int, r2: int)
    requires
        is_isqrt(n, r1),
        is_isqrt(n, r2),
    ensures
        r1 == r2,
{
    if r1 < r2 {
        assert((r1 + 1) * (r1 + 1) <= r2 * r2) by (nonlinear_arith)
            requires
                0 <= r1,
                r1 + 1 <= r2,
        ;
    }
    if r2 < r1 {
        assert((r2 + 1) * (r2 + 1) <= r1 * r1) by (nonlinear_arith)
            requires
                0 <= r2,
                r2 + 1 <= r1,
        ;
    }
}

/// Exec integer square root by bisection.
pub(crate) fn isqrt64(n: u64) -> (r: u64)
    ensures
        is_isqrt(n as int, r as int),
        r as int == sqrt_floor(n as int),
{
    let mut lo: u64 = 0;
    let mut hi: u64 = 0x1_0000_0000;
    proof {
        assert((hi as int) * (hi as int) > n as int) by (nonlinear_arith)
            requires
                hi as int == 0x1_0000_0000,
                (n as int) < 0x1_0000_0000_0000_0000,
        ;
    }
    while lo + 1 < hi
        invariant
            lo < hi <= 0x1_0000_0000,
            (lo as int) * (lo as int) <= n as int,
            (n as int) < (hi as int) * (hi as int),
        decreases hi - lo,
    {
        let mid: u64 = lo + (hi - lo) / 2;
        proof {
            assert((mid as int) * (mid as int) <= 0x1_0000_0000_0000_0000) by (nonlinear_arith)
                requires
                    0 <= (mid as int) <= 0x1_0000_0000,
            ;
        }
        if (mid as u128) * (mid as u128) <= n as u128 {
            lo = mid;
        } else {
            hi = mid;
        }
    }
    proof {
        assert(is_isqrt(n as int, lo as int));
        assert(exists|q: int| is_isqrt(n as int, q)) by {
            assert(is_isqrt(n as int, lo as int));
        }
        lemma_isqrt_unique(n as int, lo as int, sqrt_floor(n as int));
    }
    lo
}

/// Exec square root of a nonnegative scalar: the floor of the real square
/// root, as a scalar (the radicand is rescaled so the result stays in
/// millionths).
pub(crate) fn fx_sqrt(a: i64) -> (r: i64)
    requires
        0 <= a,
        (a as int) * (SCALE as int) <= u64::MAX as int,
    ensures
        r == sqrt_floor((a as int) * (SCALE as int)),
        is_isqrt((a as int) * (SCALE as int), r as int),
        0 <= r,
{
    proof {
        assert((a as int) * (SCALE as int) == (a as int) * 1_000_000);
    }
    let n: u64 = (a as u64) * 1_000_000;
    let r: u64 = isqrt64(n);
    proof {
        if (r as int) > 0x1_0000_0000 {
            assert((r as int) * (r as int) > u64::MAX as int) by (nonlinear_arith)
                requires
                    (r as int) > 0x1_0000_0000,
            ;
        }
    }
    r as i64
}

} // verus!
