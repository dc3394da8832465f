use vstd::arithmetic::div_mod::{lemma_fundamental_div_mod, lemma_mod_pos_bound};
use vstd::math::abs;
use vstd::prelude::*;

verus! {

/// Fixed-point scale: one pixel is `SCALE` length units.
pub const SCALE: i64 = 256;

/// Division rounding toward zero, as Rust's `/` does on signed integers.
pub open spec fn trunc_div(n: int, d: int) -> int {
    if n >= 0 {
        n / d
    } else {
        -((-n) / d)
    }
}

/// `v` saturated into `[-lim, lim]`.
pub open spec fn saturate(v: int, lim: int) -> int {
    if v > lim {
        lim
    } else if v < -lim {
        -lim
    } else {
        v
    }
}

/// The integer square root: the largest `r` with `r * r <= n`.
pub open spec fn isqrt(n: nat) -> nat
    decreases n,
{
    if n == 0 {
        0
    } else if n < 4 {
        1
    } else {
        let s = 2 * isqrt(n / 4);
        if (s + 1) * (s + 1) <= n {
            (s + 1) as nat
        } else {
            s
        }
    }
}

/// The smallest `r` with `n <= r * r`.
pub open spec fn ceil_sqrt(n: nat) -> nat {
    if isqrt(n) * isqrt(n) == n {
        isqrt(n)
    } else {
        isqrt(n) + 1
    }
}

pub proof fn lemma_isqrt(n: nat)
    ensures
        isqrt(n) * isqrt(n) <= n,
        n < (isqrt(n) + 1) * (isqrt(n) + 1),
    decreases n,
{
    let r = isqrt(n);
    if n == 0 {
        assert(r == 0);
        assert(r * r <= n && n < (r + 1) * (r + 1)) by (nonlinear_arith)
            requires
                r == 0,
                n == 0,
        {
        }
    } else if n < 4 {
        assert(r == 1);
        assert(r * r <= n && n < (r + 1) * (r + 1)) by (nonlinear_arith)
            requires
                r == 1,
                1 <= n < 4,
        {
        }
    } else {
        let q = n / 4;
        lemma_isqrt(q);
        let k = isqrt(q);
        let s = 2 * k;
        assert(s * s <= n && n < (s + 2) * (s + 2)) by (nonlinear_arith)
            requires
                k * k <= q,
                q < (k + 1) * (k + 1),
                s == 2 * k,
                q == n / 4,
                n >= 4,
        {
        }
        if (s + 1) * (s + 1) <= n {
            assert(r == s + 1);
            assert((s + 2) * (s + 2) == (r + 1) * (r + 1));
        } else {
            assert(r == s);
        }
    }
}

pub proof fn lemma_ceil_sqrt(n: nat)
    ensures
        n <= ceil_sqrt(n) * ceil_sqrt(n),
        n > 0 ==> (ceil_sqrt(n) - 1) * (ceil_sqrt(n) - 1) < n,
        n > 0 ==> ceil_sqrt(n) >= 1,
        ceil_sqrt(n) <= n,
{
    lemma_isqrt(n);
    let r = isqrt(n);
    if n > 0 {
        assert(r <= n) by (nonlinear_arith)
            requires
                r * r <= n,
                n > 0,
        {
        }
        if r * r != n {
            assert(r + 1 <= n) by (nonlinear_arith)
                requires
                    r * r < n,
                    n > 0,
            {
            }
            assert(ceil_sqrt(n) == r + 1);
        } else {
            assert(ceil_sqrt(n) == r);
            assert(r != 0) by (nonlinear_arith)
                requires
                    r * r == n,
                    n > 0,
            {
            }
            assert((r - 1) * (r - 1) < r * r) by (nonlinear_arith)
                requires
                    r >= 1,
            {
            }
        }
    }
}

/// A product of two bounded factors is bounded by the product of the bounds.
pub proof fn lemma_mul_bound(a: int, b: int, x: int, y: int)
    requires
        -x <= a <= x,
        -y <= b <= y,
    ensures
        -(x * y) <= a * b <= x * y,
{
    assert(-(x * y) <= a * b <= x * y) by (nonlinear_arith)
        requires
            -x <= a <= x,
            -y <= b <= y,
    {
    }
}

/// A product of two positive integers is positive.
pub proof fn lemma_mul_pos(a: int, b: int)
    requires
        a >= 1,
        b >= 1,
    ensures
        a * b >= 1,
{
    assert(a * b >= 1) by (nonlinear_arith)
        requires
            a >= 1,
            b >= 1,
    {
    }
}

/// Dividing by a positive number never grows the magnitude.
pub proof fn lemma_trunc_div_bound(n: int, d: int, m: int)
    requires
        d >= 1,
        -m <= n <= m,
    ensures
        -m <= trunc_div(n, d) <= m,
        n >= 0 ==> trunc_div(n, d) >= 0,
        n <= 0 ==> trunc_div(n, d) <= 0,
{
    if n >= 0 {
        assert(0 <= n / d <= n) by (nonlinear_arith)
            requires
                d >= 1,
                n >= 0,
        {
        }
    } else {
        assert(0 <= (-n) / d <= -n) by (nonlinear_arith)
            requires
                d >= 1,
                n < 0,
        {
        }
    }
}

/// The magnitude of a quotient rounded toward zero is the floor of the
/// magnitude of the exact quotient.
pub proof fn lemma_trunc_div_abs(n: int, d: int)
    requires
        d >= 1,
    ensures
        abs(trunc_div(n, d)) * d <= abs(n),
        abs(n) < (abs(trunc_div(n, d)) + 1) * d,
        n >= 0 ==> trunc_div(n, d) >= 0,
        n <= 0 ==> trunc_div(n, d) <= 0,
{
    let m = abs(n) as int;
    lemma_fundamental_div_mod(m, d);
    lemma_mod_pos_bound(m, d);
    let q = m / d;
    assert(q >= 0 && q * d <= m && m < (q + 1) * d) by (nonlinear_arith)
        requires
            m == d * q + m % d,
            0 <= m % d < d,
            m >= 0,
            d >= 1,
    {
    }
    assert(abs(trunc_div(n, d)) == q);
}

/// A quotient rounded toward zero, multiplied back, misses the dividend by
/// less than the divisor.
pub proof fn lemma_trunc_div_residual(n: int, d: int)
    requires
        d >= 1,
    ensures
        -d < n - d * trunc_div(n, d) < d,
{
    lemma_trunc_div_abs(n, d);
    let q = trunc_div(n, d);
    let e = abs(q) as int;
    if n >= 0 {
        assert(q == e);
        assert(-d < n - d * q < d) by (nonlinear_arith)
            requires
                e * d <= n < (e + 1) * d,
                q == e,
        {
        }
    } else {
        assert(q == -e);
        assert(-d < n - d * q < d) by (nonlinear_arith)
            requires
                e * d <= -n < (e + 1) * d,
                q == -e,
        {
        }
    }
}

/// Rounding toward zero commutes with negation.
pub proof fn lemma_trunc_div_neg(n: int, d: int)
    requires
        d >= 1,
    ensures
        trunc_div(-n, d) == -trunc_div(n, d),
{
    if n == 0 {
        assert(0int / d == 0) by (nonlinear_arith)
            requires
                d >= 1,
        {
        }
    }
}

/// Bound on the arguments of the executable square roots: `2^126`.
pub const SQRT_ARG_MAX: u128 = 0x4000_0000_0000_0000_0000_0000_0000_0000;

/// The integer square root of `n`.
pub fn isqrt_exec(n: u128) -> (r: u128)
    requires
        n <= SQRT_ARG_MAX,
    ensures
        r == isqrt(n as nat),
        r * r <= n,
        n < (r + 1) * (r + 1),
        r <= 0x8000_0000_0000_0000,
    decreases n,
{
    proof {
        lemma_isqrt(n as nat);
        let r = isqrt(n as nat);
        assert(r <= 0x8000_0000_0000_0000) by (nonlinear_arith)
            requires
                r * r <= n,
                n <= 0x4000_0000_0000_0000_0000_0000_0000_0000,
        {
        }
    }
    if n == 0 {
        0
    } else if n < 4 {
        1
    } else {
        let k = isqrt_exec(n / 4);
        assert(k <= 0x4000_0000_0000_0000) by (nonlinear_arith)
            requires
                k * k <= n / 4,
                n <= 0x4000_0000_0000_0000_0000_0000_0000_0000,
        {
        }
        let s: u128 = 2 * k;
        let s1: u128 = s + 1;
        assert(s1 * s1 <= 0x4000_0000_0000_0001_0000_0000_0000_0001) by (nonlinear_arith)
            requires
                s1 <= 0x8000_0000_0000_0001,
        {
        }
        if s1 * s1 <= n {
            s1
        } else {
            s
        }
    }
}

/// The smallest `r` with `n <= r * r`.
pub fn ceil_sqrt_exec(n: u128) -> (r: u128)
    requires
        n <= SQRT_ARG_MAX,
    ensures
        r == ceil_sqrt(n as nat),
{
    let r = isqrt_exec(n);
    if r * r == n {
        r
    } else {
        r + 1
    }
}

/// `n / d` rounded toward zero.
pub fn div_trunc(n: i128, d: i128) -> (r: i128)
    requires
        d > 0,
        n > i128::MIN,
    ensures
        r == trunc_div(n as int, d as int),
{
    if n >= 0 {
        ((n as u128) / (d as u128)) as i128
    } else {
        let m: u128 = (-n) as u128;
        -((m / (d as u128)) as i128)
    }
}

/// `v` saturated into `[-lim, lim]`.
pub fn saturate_exec(v: i128, lim: i64) -> (r: i64)
    requires
        lim >= 0,
    ensures
        r == saturate(v as int, lim as int),
{
    if v > lim as i128 {
        lim
    } else if v < -(lim as i128) {
        -lim
    } else {
        v as i64
    }
}

} // verus!
