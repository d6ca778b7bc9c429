//! Fixed-point scalar arithmetic for the simulation core.
//!
//! Every scalar quantity (position, velocity, acceleration, rest length)
//! is an `i64` holding a real value scaled by `UNIT`: the raw value `1500`
//! stands for `1.5` world units. All intermediate arithmetic is carried
//! out in `i128`, where the bounded operands can never overflow, and each
//! stored result is clipped back into `[-LIMIT, LIMIT]`.

use vstd::prelude::*;

verus! {

/// Scale factor: one world unit is `UNIT` raw units.
pub const UNIT: i64 = 1000;

/// Saturation bound for every stored coordinate, in raw units
/// (one million world units in either direction).
pub const LIMIT: i64 = 1_000_000_000;

/// Mathematical saturation of a value into `[-LIMIT, LIMIT]`.
pub open spec fn clip(v: int) -> int {
    if v > LIMIT {
        LIMIT as int
    } else if v < -(LIMIT as int) {
        -(LIMIT as int)
    } else {
        v
    }
}

/// Truncated division (round toward zero) for a positive divisor,
/// matching hardware signed division.
pub open spec fn tdiv(a: int, b: int) -> int {
    if a >= 0 {
        a / b
    } else {
        -((-a) / b)
    }
}

/// Absolute value.
pub open spec fn abs_s(x: int) -> int {
    if x >= 0 {
        x
    } else {
        -x
    }
}

/// Scaling by a fraction `t / l` with `0 <= t <= l` never increases the
/// magnitude of `p`: `|tdiv(p * t, l)| <= |p|`.
pub proof fn lemma_tdiv_scale_bound(p: int, t: int, l: int)
    requires
        l > 0,
        0 <= t <= l,
    ensures
        p >= 0 ==> 0 <= tdiv(p * t, l) <= p,
        p < 0 ==> p <= tdiv(p * t, l) <= 0,
        abs_s(tdiv(p * t, l)) <= abs_s(p),
{
    if p >= 0 {
        assert(0 <= p * t && p * t <= p * l) by (nonlinear_arith)
            requires
                p >= 0 && 0 <= t <= l;
        vstd::arithmetic::div_mod::lemma_div_pos_is_pos(p * t, l);
        vstd::arithmetic::div_mod::lemma_div_is_ordered(p * t, p * l, l);
        vstd::arithmetic::div_mod::lemma_div_multiples_vanish(p, l);
        assert(p * l == l * p) by (nonlinear_arith);
    } else {
        let m = -p;
        assert(m * t == -(p * t) && 0 <= m * t && m * t <= m * l) by (nonlinear_arith)
            requires
                p < 0 && m == -p && 0 <= t <= l;
        vstd::arithmetic::div_mod::lemma_div_pos_is_pos(m * t, l);
        vstd::arithmetic::div_mod::lemma_div_is_ordered(m * t, m * l, l);
        vstd::arithmetic::div_mod::lemma_div_multiples_vanish(m, l);
        assert(m * l == l * m) by (nonlinear_arith);
        assert(tdiv(p * t, l) == -((m * t) / l));
    }
}

/// The same bound with the scaled factor on the left and of either sign:
/// `|tdiv(t * p, l)| <= |p|` whenever `|t| <= l`.
pub proof fn lemma_tdiv_scale_bound_gen(p: int, t: int, l: int)
    requires
        l > 0,
        -l <= t <= l,
    ensures
        abs_s(tdiv(t * p, l)) <= abs_s(p),
{
    if t >= 0 {
        lemma_tdiv_scale_bound(p, t, l);
        assert(t * p == p * t) by (nonlinear_arith);
    } else {
        lemma_tdiv_scale_bound(-p, -t, l);
        assert(t * p == (-p) * (-t)) by (nonlinear_arith);
        assert(abs_s(-p) == abs_s(p));
    }
}

/// Saturate a wide intermediate result back into a storable coordinate.
pub fn clip_i128(v: i128) -> (r: i64)
    ensures
        r == clip(v as int),
{
    if v > LIMIT as i128 {
        LIMIT
    } else if v < -(LIMIT as i128) {
        -LIMIT
    } else {
        v as i64
    }
}

/// Whether `r` is the integer square root (rounded down) of `n`.
pub open spec fn is_sqrt(n: int, r: int) -> bool {
    0 <= r && r * r <= n && n < (r + 1) * (r + 1)
}

/// The integer square root of `n`, rounded down.
pub open spec fn sqrt_s(n: int) -> int {
    choose|r: int| is_sqrt(n, r)
}

/// Every non-negative integer has an integer square root.
pub proof fn lemma_sqrt_exists(n: int)
    requires
        n >= 0,
    ensures
        is_sqrt(n, sqrt_s(n)),
    decreases n,
{
    if n == 0 {
        assert(is_sqrt(0, 0));
    } else {
        lemma_sqrt_exists(n - 1);
        let r = sqrt_s(n - 1);
        if n < (r + 1) * (r + 1) {
            assert(is_sqrt(n, r));
        } else {
            assert(n == (r + 1) * (r + 1));
            assert((r + 1) * (r + 1) < (r + 2) * (r + 2)) by (nonlinear_arith)
                requires
                    r >= 0;
            assert(is_sqrt(n, r + 1));
        }
    }
    let w = choose|w: int| is_sqrt(n, w);
    assert(is_sqrt(n, w));
}

/// The integer square root is unique.
pub proof fn lemma_sqrt_unique(n: int, r1: int, r2: int)
    requires
        is_sqrt(n, r1),
        is_sqrt(n, r2),
    ensures
        r1 == r2,
{
    if r1 < r2 {
        assert((r1 + 1) * (r1 + 1) <= r2 * r2) by (nonlinear_arith)
            requires
                0 <= r1 && r1 < r2;
    }
    if r2 < r1 {
        assert((r2 + 1) * (r2 + 1) <= r1 * r1) by (nonlinear_arith)
            requires
                0 <= r2 && r2 < r1;
    }
}

/// A square root bound transfers down to each component: if `x * x <= n`
/// then `x <= sqrt_s(n)`.
pub proof fn lemma_sqrt_component(n: int, x: int)
    requires
        n >= 0,
        0 <= x,
        x * x <= n,
    ensures
        x <= sqrt_s(n),
{
    lemma_sqrt_exists(n);
    let r = sqrt_s(n);
    if r < x {
        assert((r + 1) * (r + 1) <= x * x) by (nonlinear_arith)
            requires
                0 <= r && r < x;
    }
}

/// The integer square root of a perfect square.
pub proof fn lemma_sqrt_square(l: int)
    requires
        l >= 0,
    ensures
        sqrt_s(l * l) == l,
{
    assert(l * l < (l + 1) * (l + 1)) by (nonlinear_arith)
        requires
            l >= 0;
    assert(is_sqrt(l * l, l));
    lemma_sqrt_exists(l * l);
    lemma_sqrt_unique(l * l, l, sqrt_s(l * l));
}

/// Integer square root by bisection.
pub fn isqrt_u128(n: u128) -> (r: u128)
    ensures
        is_sqrt(n as int, r as int),
        r == sqrt_s(n as int),
{
    let mut lo: u128 = 0;
    let mut hi: u128 = 18446744073709551616u128;
    proof {
        assert(n < 18446744073709551616int * 18446744073709551616int) by (nonlinear_arith)
            requires
                n <= u128::MAX;
    }
    while lo + 1 < hi
        invariant
            0 <= lo < hi,
            hi <= 18446744073709551616u128,
            lo * lo <= n,
            n < (hi as int) * (hi as int),
        decreases hi - lo,
    {
        let mid: u128 = lo + (hi - lo) / 2;
        proof {
            assert(mid * mid < u128::MAX) by (nonlinear_arith)
                requires
                    mid < 18446744073709551616u128;
        }
        if mid * mid <= n {
            lo = mid;
        } else {
            hi = mid;
        }
    }
    proof {
        assert(hi == lo + 1);
        lemma_sqrt_exists(n as int);
        lemma_sqrt_unique(n as int, lo as int, sqrt_s(n as int));
    }
    lo
}

/// Truncated division on wide intermediates; divisor must be positive.
pub fn tdiv_i128(a: i128, b: i128) -> (r: i128)
    requires
        b > 0,
        a > i128::MIN,
    ensures
        r == tdiv(a as int, b as int),
{
    if a >= 0 {
        let q: u128 = (a as u128) / (b as u128);
        q as i128
    } else {
        let q: u128 = ((-a) as u128) / (b as u128);
        -(q as i128)
    }
}

} // verus!
