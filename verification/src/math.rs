//! Scalar helpers shared by every solver pass: truncating division,
//! saturation into the coordinate range, and an integer square root.

use vstd::prelude::*;

verus! {

/// Every stored position and velocity component is kept within
/// `[-COORD_LIMIT, COORD_LIMIT]` by saturation, which leaves ample headroom
/// for `i128` intermediates.
pub const COORD_LIMIT: i64 = 1_000_000_000_000_000_000;

/// Truncating (round-toward-zero) division, the behaviour of `/` on the
/// machine integers the solver stores.
pub open spec fn tdiv(a: int, b: int) -> int
    recommends
        b > 0,
{
    if a >= 0 {
        a / b
    } else {
        -((-a) / b)
    }
}

/// Saturation of an exact intermediate result into the stored coordinate
/// range.
pub open spec fn sat(x: int) -> int {
    if x > COORD_LIMIT {
        COORD_LIMIT as int
    } else if x < -(COORD_LIMIT as int) {
        -(COORD_LIMIT as int)
    } else {
        x
    }
}

/// The integer square root: the largest `r` with `r * r <= n` (and `0` for
/// negative arguments).
pub open spec fn sqrt_floor(n: int) -> int
    decreases n,
{
    if n <= 0 {
        0
    } else if (sqrt_floor(n - 1) + 1) * (sqrt_floor(n - 1) + 1) <= n {
        sqrt_floor(n - 1) + 1
    } else {
        sqrt_floor(n - 1)
    }
}

pub proof fn lemma_sqrt_floor(n: int)
    requires
        n >= 0,
    ensures
        sqrt_floor(n) >= 0,
        sqrt_floor(n) * sqrt_floor(n) <= n,
        n < (sqrt_floor(n) + 1) * (sqrt_floor(n) + 1),
    decreases n,
{
    if n > 0 {
        lemma_sqrt_floor(n - 1);
        let r = sqrt_floor(n - 1);
        if (r + 1) * (r + 1) <= n {
            assert((r + 1) * (r + 1) < (r + 2) * (r + 2)) by (nonlinear_arith)
                requires
                    r >= 0,
            ;
        }
    }
}

pub proof fn lemma_sqrt_floor_unique(n: int, r: int)
    requires
        n >= 0,
        r >= 0,
        r * r <= n,
        n < (r + 1) * (r + 1),
    ensures
        r == sqrt_floor(n),
{
    lemma_sqrt_floor(n);
    let s = sqrt_floor(n);
    if r < s {
        assert((r + 1) * (r + 1) <= s * s) by (nonlinear_arith)
            requires
                0 <= r < s,
        ;
    } else if s < r {
        assert((s + 1) * (s + 1) <= r * r) by (nonlinear_arith)
            requires
                0 <= s < r,
        ;
    }
}

/// The square root is monotone; in particular the root of `a*a + b*b` is at
/// least `|a|`.
pub proof fn lemma_sqrt_floor_ordered(m: int, n: int)
    requires
        0 <= m <= n,
    ensures
        sqrt_floor(m) <= sqrt_floor(n),
    decreases n,
{
    if m < n {
        lemma_sqrt_floor_ordered(m, n - 1);
    }
}

/// A product of values bounded in magnitude is bounded by the product of the
/// bounds.
pub proof fn lemma_mul_abs_bound(a: int, b: int, aa: int, bb: int)
    by (nonlinear_arith)
    requires
        -aa <= a <= aa,
        -bb <= b <= bb,
    ensures
        -(aa * bb) <= a * b <= aa * bb,
{
}

/// A square of a bounded value is non-negative and bounded.
pub proof fn lemma_square_bound(a: int, aa: int)
    by (nonlinear_arith)
    requires
        -aa <= a <= aa,
    ensures
        0 <= a * a <= aa * aa,
{
}

/// Truncating division by a positive divisor shrinks magnitude and keeps
/// sign.
pub proof fn lemma_tdiv_bound(a: int, b: int)
    requires
        b >= 1,
    ensures
        a >= 0 ==> 0 <= tdiv(a, b) <= a,
        a < 0 ==> a <= tdiv(a, b) <= 0,
        -b < a < b ==> tdiv(a, b) == 0,
{
    if a >= 0 {
        vstd::arithmetic::div_mod::lemma_div_pos_is_pos(a, b);
        vstd::arithmetic::div_mod::lemma_div_nonincreasing(a, b);
        if a < b {
            vstd::arithmetic::div_mod::lemma_basic_div(a, b);
        }
    } else {
        vstd::arithmetic::div_mod::lemma_div_pos_is_pos(-a, b);
        vstd::arithmetic::div_mod::lemma_div_nonincreasing(-a, b);
        if -a < b {
            vstd::arithmetic::div_mod::lemma_basic_div(-a, b);
        }
    }
}

/// The square root of a perfect square.
pub proof fn lemma_sqrt_floor_square(x: int)
    requires
        x >= 0,
    ensures
        sqrt_floor(x * x) == x,
{
    assert(0 <= x * x && x * x < (x + 1) * (x + 1)) by (nonlinear_arith)
        requires
            x >= 0,
    ;
    lemma_sqrt_floor_unique(x * x, x);
}

/// Truncating division of a value bounded by `b * c` is bounded by `c`.
pub proof fn lemma_tdiv_abs_le(a: int, b: int, c: int)
    requires
        b >= 1,
        c >= 0,
        -(b * c) <= a <= b * c,
    ensures
        -c <= tdiv(a, b) <= c,
{
    if a >= 0 {
        vstd::arithmetic::div_mod::lemma_multiply_divide_le(a, b, c);
        vstd::arithmetic::div_mod::lemma_div_pos_is_pos(a, b);
    } else {
        vstd::arithmetic::div_mod::lemma_multiply_divide_le(-a, b, c);
        vstd::arithmetic::div_mod::lemma_div_pos_is_pos(-a, b);
    }
}

/// A common factor in dividend and positive divisor cancels under truncating
/// division.
pub proof fn lemma_tdiv_cancel(a: int, b: int, k: int)
    requires
        b >= 1,
        k >= 1,
    ensures
        tdiv(a * k, b * k) == tdiv(a, b),
{
    assert(b * k >= 1) by (nonlinear_arith)
        requires
            b >= 1,
            k >= 1,
    ;
    let m = if a >= 0 {
        a
    } else {
        -a
    };
    let n = m * k;
    assert(m * k >= 0) by (nonlinear_arith)
        requires
            m >= 0,
            k >= 1,
    ;
    vstd::arithmetic::div_mod::lemma_div_denominator(n, k, b);
    vstd::arithmetic::mul::lemma_mul_is_commutative(m, k);
    vstd::arithmetic::div_mod::lemma_div_multiples_vanish(m, k);
    assert(n / k == m);
    vstd::arithmetic::mul::lemma_mul_is_commutative(k, b);
    assert(n / (b * k) == m / b);
    if a < 0 {
        assert(-(a * k) == (-a) * k) by (nonlinear_arith);
    }
}

/// Dividing an exact multiple recovers the factor.
pub proof fn lemma_tdiv_mul_exact(a: int, k: int)
    requires
        k >= 1,
    ensures
        tdiv(a * k, k) == a,
{
    lemma_tdiv_cancel(a, 1, k);
    vstd::arithmetic::div_mod::lemma_div_basics(a);
    vstd::arithmetic::div_mod::lemma_div_basics(-a);
}

/// Multiplying a truncated quotient back lands within one divisor of the
/// dividend.
pub proof fn lemma_tdiv_times_close(a: int, b: int)
    requires
        b >= 1,
    ensures
        a >= 0 ==> a - b < tdiv(a, b) * b <= a,
        a < 0 ==> a <= tdiv(a, b) * b < a + b,
{
    let m = if a >= 0 {
        a
    } else {
        -a
    };
    vstd::arithmetic::div_mod::lemma_fundamental_div_mod(m, b);
    vstd::arithmetic::div_mod::lemma_mod_division_less_than_divisor(m, b);
    vstd::arithmetic::mul::lemma_mul_is_commutative(b, m / b);
    if a < 0 {
        assert((-(m / b)) * b == -((m / b) * b)) by (nonlinear_arith);
    }
}

/// Truncating division, computed on machine integers.
pub fn tdiv_i128(a: i128, b: i128) -> (r: i128)
    requires
        b > 0,
        a > i128::MIN,
    ensures
        r == tdiv(a as int, b as int),
{
    if a >= 0 {
        let q = (a as u128) / (b as u128);
        q as i128
    } else {
        let q = ((-a) as u128) / (b as u128);
        proof {
            vstd::arithmetic::div_mod::lemma_div_nonincreasing((-a) as int, b as int);
            vstd::arithmetic::div_mod::lemma_div_pos_is_pos((-a) as int, b as int);
        }
        -(q as i128)
    }
}

/// Saturation into the stored coordinate range, computed on machine
/// integers.
pub fn sat_i128(x: i128) -> (r: i64)
    ensures
        r == sat(x as int),
{
    if x > COORD_LIMIT as i128 {
        COORD_LIMIT
    } else if x < -(COORD_LIMIT as i128) {
        -COORD_LIMIT
    } else {
        x as i64
    }
}

/// The integer square root, by bisection.
pub fn isqrt_u128(n: u128) -> (r: u128)
    ensures
        r == sqrt_floor(n as int),
        r < 0x1_0000_0000_0000_0000,
{
    let mut lo: u128 = 0;
    let mut hi: u128 = 0x1_0000_0000_0000_0000;
    while hi - lo > 1
        invariant
            lo < hi,
            hi <= 0x1_0000_0000_0000_0000,
            lo * lo <= n,
            (n as int) < hi * hi,
        decreases hi - lo,
    {
        let mid = lo + (hi - lo) / 2;
        proof {
            assert(mid * mid < 0x1_0000_0000_0000_0000 * 0x1_0000_0000_0000_0000)
                by (nonlinear_arith)
                requires
                    0 <= mid < 0x1_0000_0000_0000_0000,
            ;
        }
        if mid * mid <= n {
            lo = mid;
        } else {
            hi = mid;
        }
    }
    proof {
        lemma_sqrt_floor_unique(n as int, lo as int);
    }
    lo
}

} // verus!
