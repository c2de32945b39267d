//! Exact integer arithmetic that the axis computations share: division that
//! rounds in a stated direction, on wide signed integers.

use vstd::arithmetic::div_mod::{
    lemma_div_is_ordered, lemma_fundamental_div_mod, lemma_fundamental_div_mod_converse,
};
use vstd::prelude::*;

verus! {

/// The largest magnitude that the signed helpers accept: 2^120.
pub open spec fn wide_limit() -> int {
    0x100_0000_0000_0000_0000_0000_0000_0000
}

/// `a / d` rounded up, for a positive `d`.
pub open spec fn ceil_div_spec(a: int, d: int) -> int
    recommends
        d > 0,
{
    -((-a) / d)
}

/// `a / d` rounded to the nearest whole number, halves upward, for a positive `d`.
pub open spec fn round_div_spec(a: int, d: int) -> int
    recommends
        d > 0,
{
    (2 * a + d) / (2 * d)
}

/// Rounding up never lands below the exact quotient, and by less than one.
pub proof fn lemma_ceil_div_bounds(a: int, d: int)
    requires
        d > 0,
    ensures
        a <= ceil_div_spec(a, d) * d < a + d,
        a / d <= ceil_div_spec(a, d) <= a / d + 1,
{
    let f = (-a) / d;
    lemma_fundamental_div_mod(-a, d);
    lemma_fundamental_div_mod(a, d);
    assert(-a == d * f + (-a) % d);
    assert(a == d * (a / d) + a % d);
    assert(ceil_div_spec(a, d) * d == -(d * f)) by (nonlinear_arith)
        requires
            ceil_div_spec(a, d) == -f,
    ;
    assert(a / d <= -f <= a / d + 1) by (nonlinear_arith)
        requires
            d > 0,
            -a == d * f + (-a) % d,
            a == d * (a / d) + a % d,
            0 <= (-a) % d < d,
            0 <= a % d < d,
    ;
}

/// Rounding down never lands above the exact quotient, and by less than one.
pub proof fn lemma_floor_div_bounds(a: int, d: int)
    requires
        d > 0,
    ensures
        a - d < (a / d) * d <= a,
{
    lemma_fundamental_div_mod(a, d);
    assert((a / d) * d == d * (a / d)) by (nonlinear_arith);
}

/// Rounding to the nearest keeps a quotient between two whole bounds that
/// enclose the exact quotient.
pub proof fn lemma_round_div_between(a: int, d: int, lo: int, hi: int)
    requires
        d > 0,
        lo * d <= a <= hi * d,
    ensures
        lo <= round_div_spec(a, d) <= hi,
{
    let dd = 2 * d;
    assert(2 * a + d >= lo * dd) by (nonlinear_arith)
        requires
            lo * d <= a,
            d > 0,
            dd == 2 * d,
    ;
    assert(2 * a + d <= hi * dd + d) by (nonlinear_arith)
        requires
            a <= hi * d,
            d > 0,
            dd == 2 * d,
    ;
    lemma_div_is_ordered(lo * dd, 2 * a + d, dd);
    lemma_div_is_ordered(2 * a + d, hi * dd + d, dd);
    lemma_fundamental_div_mod_converse(lo * dd, dd, lo, 0);
    lemma_fundamental_div_mod_converse(hi * dd + d, dd, hi, d);
}

/// `a / d` rounded down.
pub fn floor_div(a: i128, d: i128) -> (q: i128)
    requires
        0 < d <= wide_limit(),
        -wide_limit() <= a <= wide_limit(),
    ensures
        q == a / d,
        a >= 0 ==> 0 <= q <= a,
        a < 0 ==> a <= q < 0,
{
    if a >= 0 {
        let q: i128 = a / d;
        proof {
            lemma_fundamental_div_mod(a as int, d as int);
            let r = a as int % d as int;
            assert(0 <= q <= a) by (nonlinear_arith)
                requires
                    a as int == d * q + r,
                    0 <= r,
                    r < d,
                    a >= 0,
                    d >= 1,
            ;
        }
        q
    } else {
        let m: i128 = -a;
        let t: i128 = m + (d - 1);
        let c: i128 = t / d;
        proof {
            let ti = t as int;
            let di = d as int;
            let tr = ti % di;
            lemma_fundamental_div_mod(ti, di);
            let r = (di - 1) - tr;
            assert(a as int == (-c) * di + r) by (nonlinear_arith)
                requires
                    ti == di * c + tr,
                    ti == -a + (di - 1),
                    r == (di - 1) - tr,
            ;
            lemma_fundamental_div_mod_converse(a as int, di, -c as int, r);
            assert(a <= -c < 0) by (nonlinear_arith)
                requires
                    a as int == (-c) * di + r,
                    0 <= r,
                    r < di,
                    a < 0,
                    di >= 1,
            ;
        }
        -c
    }
}

/// `a / d` rounded up.
pub fn ceil_div(a: i128, d: i128) -> (q: i128)
    requires
        0 < d <= wide_limit(),
        -wide_limit() <= a <= wide_limit(),
    ensures
        q == ceil_div_spec(a as int, d as int),
        a > 0 ==> 0 < q <= a,
        a <= 0 ==> a <= q <= 0,
{
    let f: i128 = floor_div(-a, d);
    proof {
        let ai = a as int;
        let di = d as int;
        let q = ai / di;
        let r = ai % di;
        lemma_ceil_div_bounds(ai, di);
        lemma_fundamental_div_mod(ai, di);
        assert(-wide_limit() <= -f <= wide_limit() + 1) by (nonlinear_arith)
            requires
                q <= -f <= q + 1,
                ai == di * q + r,
                0 <= r,
                r < di,
                -wide_limit() <= ai <= wide_limit(),
        ;
    }
    -f
}

/// `a / d` rounded to the nearest whole number, halves upward.
pub fn round_div(a: i128, d: i128) -> (q: i128)
    requires
        0 < d <= wide_limit() / 4,
        -wide_limit() / 4 <= a <= wide_limit() / 4,
    ensures
        q == round_div_spec(a as int, d as int),
{
    floor_div(2 * a + d, 2 * d)
}

/// A whole number of divisors that fits under a bound is at most the
/// bound's quotient.
pub proof fn lemma_quotient_at_least(q: int, d: int, total: int)
    requires
        d > 0,
        q * d <= total,
    ensures
        q <= total / d,
{
    lemma_div_is_ordered(q * d, total, d);
    lemma_fundamental_div_mod_converse(q * d, d, q, 0);
}

/// A value below a multiple of the divisor has a quotient below the factor.
pub proof fn lemma_quotient_below(x: int, d: int, bound: int)
    requires
        d > 0,
        x < bound * d,
    ensures
        x / d < bound,
{
    lemma_fundamental_div_mod(x, d);
    let q = x / d;
    let r = x % d;
    assert(q < bound) by (nonlinear_arith)
        requires
            x == d * q + r,
            0 <= r,
            x < bound * d,
            d > 0,
    ;
}

/// Dividing `q * d + r` by `c * d` is dividing `q` by `c`, whatever part of
/// one `d` the rest `r` is.
pub proof fn lemma_div_scaled(q: int, r: int, d: int, c: int)
    requires
        d > 0,
        c > 0,
        0 <= r < d,
    ensures
        (q * d + r) / (c * d) == q / c,
{
    lemma_fundamental_div_mod(q, c);
    let t = q / c;
    let s = q % c;
    assert(q * d + r == t * (c * d) + (s * d + r) && 0 <= s * d + r < c * d && c * d > 0)
        by (nonlinear_arith)
        requires
            q == c * t + s,
            0 <= s < c,
            0 <= r < d,
            d > 0,
    ;
    lemma_fundamental_div_mod_converse(q * d + r, c * d, t, s * d + r);
}

/// The quotient and the remainder of the product `a * b` by `d`, where the
/// product itself may not fit any machine integer.
pub fn mul_div(a: u128, b: u64, d: u128) -> (r: (u128, u128))
    requires
        d > 0,
        (a * b) / (d as int) <= u128::MAX,
    ensures
        r.0 == (a * b) / (d as int),
        r.1 == (a * b) % (d as int),
{
    // The product is taken by doubling and adding, bit by bit of `b`.
    // `q * d + rem` is the part of the product that is taken already, and
    // `cq * d + cr` is `a` times the power of two that the lowest bit of
    // `n` stands for; neither quotient ever passes the quotient of the whole.
    let ghost total: int = a * b;
    let mut q: u128 = 0;
    let mut rem: u128 = 0;
    let mut cq: u128 = a / d;
    let mut cr: u128 = a % d;
    let mut n: u64 = b;
    proof {
        lemma_fundamental_div_mod(a as int, d as int);
        assert((0 * d + 0) + (cq * d + cr) * n == total) by (nonlinear_arith)
            requires
                a as int == d * cq + cr,
                total == a * b,
                n == b,
        ;
    }
    while n > 0
        invariant
            d > 0,
            total / (d as int) <= u128::MAX,
            rem < d,
            cr < d,
            (q * d + rem) + (cq * d + cr) * n == total,
        decreases n,
    {
        let ghost acc: int = q * d + rem;
        let ghost cur: int = cq * d + cr;
        if n % 2 == 1 {
            let carry: u128 = if cr >= d - rem {
                1
            } else {
                0
            };
            proof {
                assert((q + cq + carry) * d <= total) by (nonlinear_arith)
                    requires
                        acc + cur * n == total,
                        acc == q * d + rem,
                        cur == cq * d + cr,
                        n >= 1,
                        carry == 1 ==> rem + cr >= d,
                        carry == 0 || carry == 1,
                        d > 0,
                        cur >= 0,
                ;
                lemma_quotient_at_least(q + cq + carry, d as int, total);
            }
            let ghost old_q = q;
            let ghost old_rem = rem;
            if carry == 1 {
                rem = cr - (d - rem);
            } else {
                rem = rem + cr;
            }
            q = q + cq + carry;
            assert(q * d + rem == acc + cur) by (nonlinear_arith)
                requires
                    acc == old_q * d + old_rem,
                    cur == cq * d + cr,
                    q == old_q + cq + carry,
                    rem == old_rem + cr - carry * d,
            ;
        }
        let ghost acc2: int = q * d + rem;
        let half: u64 = n / 2;
        assert(acc2 + cur * (2 * half) == total) by (nonlinear_arith)
            requires
                acc + cur * n == total,
                n % 2 == 1 ==> acc2 == acc + cur,
                n % 2 != 1 ==> acc2 == acc,
                n == 2 * half + (n % 2),
                n % 2 == 0 || n % 2 == 1,
        ;
        n = half;
        if n > 0 {
            let carry: u128 = if cr >= d - cr {
                1
            } else {
                0
            };
            proof {
                assert((2 * cq + carry) * d <= total) by (nonlinear_arith)
                    requires
                        acc2 + cur * (2 * n) == total,
                        acc2 >= 0,
                        cur == cq * d + cr,
                        n >= 1,
                        carry == 1 ==> 2 * cr >= d,
                        carry == 0 || carry == 1,
                        d > 0,
                        cur >= 0,
                ;
                lemma_quotient_at_least(2 * cq + carry, d as int, total);
            }
            let ghost old_cq = cq;
            let ghost old_cr = cr;
            if carry == 1 {
                cr = cr - (d - cr);
            } else {
                cr = cr + cr;
            }
            cq = cq + cq + carry;
            assert((cq * d + cr) * n == cur * (2 * n)) by (nonlinear_arith)
                requires
                    cur == old_cq * d + old_cr,
                    cq == 2 * old_cq + carry,
                    cr == 2 * old_cr - carry * d,
            ;
        } else {
            assert((cq * d + cr) * n == 0) by (nonlinear_arith)
                requires
                    n == 0,
            ;
            assert(cur * (2 * n) == 0) by (nonlinear_arith)
                requires
                    n == 0,
            ;
        }
    }
    proof {
        assert((cq * d + cr) * n == 0) by (nonlinear_arith)
            requires
                n == 0,
        ;
        lemma_fundamental_div_mod_converse(total, d as int, q as int, rem as int);
    }
    (q, rem)
}

} // verus!
