use vstd::prelude::*;

verus! {

use vstd::arithmetic::div_mod::lemma_fundamental_div_mod;
use vstd::arithmetic::div_mod::lemma_mod_division_less_than_divisor;

/// Fixed-point scale of the reward-per-share accumulator. The mantissa 2520
/// is the least common multiple of 1..=10, so dividing the scale by the small
/// factors that percentages and tier multipliers introduce stays exact.
pub const PRECISION: i128 = 2_520_000_000_000;

/// Quotient of two non-negative 128-bit integers, flooring toward zero
/// (identical to Euclidean division for non-negative operands).
pub fn div_floor(a: i128, b: i128) -> (q: i128)
    requires
        0 <= a,
        0 < b,
    ensures
        q == a as int / b as int,
{
    a / b
}

/// The integer square root, rounded down: the largest `r` with `r * r <= n`
/// (and `0` for negative arguments).
pub open spec fn sqrt_floor(n: int) -> int
    decreases n,
{
    if n < 1 {
        0
    } else if (sqrt_floor(n - 1) + 1) * (sqrt_floor(n - 1) + 1) <= n {
        sqrt_floor(n - 1) + 1
    } else {
        sqrt_floor(n - 1)
    }
}

/// `sqrt_floor(n)` is the floor of the square root: it squares to at most
/// `n`, and the next integer squares to more.
pub proof fn lemma_sqrt_floor_bounds(n: int)
    requires
        n >= 0,
    ensures
        0 <= sqrt_floor(n),
        sqrt_floor(n) * sqrt_floor(n) <= n,
        n < (sqrt_floor(n) + 1) * (sqrt_floor(n) + 1),
    decreases n,
{
    if n >= 1 {
        lemma_sqrt_floor_bounds(n - 1);
        let r0 = sqrt_floor(n - 1);
        if (r0 + 1) * (r0 + 1) <= n {
            assert(n <= (r0 + 1) * (r0 + 1)) by {
                assert(n - 1 < (r0 + 1) * (r0 + 1));
            }
            assert((r0 + 1 + 1) * (r0 + 1 + 1) > (r0 + 1) * (r0 + 1)) by (nonlinear_arith)
                requires r0 >= 0;
        }
    }
}

/// Only one integer sits between the two square bounds, so anything that
/// satisfies them equals `sqrt_floor(n)`.
pub proof fn lemma_sqrt_floor_unique(n: int, r: int)
    requires
        n >= 0,
        r >= 0,
        r * r <= n,
        n < (r + 1) * (r + 1),
    ensures
        r == sqrt_floor(n),
{
    lemma_sqrt_floor_bounds(n);
    let s = sqrt_floor(n);
    if r < s {
        assert((r + 1) * (r + 1) <= s * s) by (nonlinear_arith)
            requires 0 <= r, r + 1 <= s;
        assert(false);
    }
    if s < r {
        assert((s + 1) * (s + 1) <= r * r) by (nonlinear_arith)
            requires 0 <= s, s + 1 <= r;
        assert(false);
    }
}

/// Integer square root by binary search on the root, comparing through a
/// division so no intermediate square is ever materialized.
pub fn isqrt(n: i128) -> (r: i128)
    requires
        0 <= n,
    ensures
        r == sqrt_floor(n as int),
        0 <= r,
        r * r <= n,
{
    let mut lo: i128 = 0;
    let mut hi: i128 = n / 2 + 1;
    proof {
        lemma_fundamental_div_mod(n as int, 2);
        lemma_mod_division_less_than_divisor(n as int, 2);
        assert(n < (n as int / 2 + 1 + 1) * (n as int / 2 + 1 + 1)) by (nonlinear_arith)
            requires n >= 0, n as int / 2 >= 0, 2 * (n as int / 2) >= n - 1;
    }
    while lo < hi
        invariant
            0 <= lo <= hi,
            hi <= i128::MAX / 2 + 1,
            lo * lo <= n,
            n < (hi + 1) * (hi + 1),
            n <= i128::MAX,
        decreases hi - lo,
    {
        proof {
            lemma_fundamental_div_mod(hi - lo + 1, 2);
            lemma_mod_division_less_than_divisor(hi - lo + 1, 2);
        }
        let mid = lo + (hi - lo + 1) / 2;
        let q = n / mid;
        proof {
            lemma_fundamental_div_mod(n as int, mid as int);
            lemma_mod_division_less_than_divisor(n as int, mid as int);
        }
        if mid <= q {
            proof {
                assert(mid * mid <= n) by (nonlinear_arith)
                    requires
                        0 < mid,
                        mid <= n as int / mid as int,
                        n == mid * (n as int / mid as int) + n as int % mid as int,
                        n as int % mid as int >= 0;
            }
            lo = mid;
        } else {
            proof {
                assert(n < mid * mid) by (nonlinear_arith)
                    requires
                        0 < mid,
                        (n as int / mid as int) < mid,
                        n == mid * (n as int / mid as int) + n as int % mid as int,
                        (n as int % mid as int) < mid;
            }
            hi = mid - 1;
        }
    }
    proof {
        lemma_sqrt_floor_unique(n as int, lo as int);
    }
    lo
}

/// The floor square root never exceeds its argument.
pub proof fn lemma_sqrt_floor_le(n: int)
    requires
        n >= 0,
    ensures
        sqrt_floor(n) <= n,
{
    lemma_sqrt_floor_bounds(n);
    let r = sqrt_floor(n);
    if r > n {
        assert(r * r >= r) by (nonlinear_arith)
            requires r >= 1;
        assert(false);
    }
}

/// When the divisor divides the dividend exactly, multiplying the quotient
/// back recovers the dividend.
pub proof fn lemma_div_exact(a: int, b: int)
    requires
        b > 0,
        a % b == 0,
    ensures
        (a / b) * b == a,
{
    lemma_fundamental_div_mod(a, b);
    assert((a / b) * b == b * (a / b)) by (nonlinear_arith);
}

/// Flooring division of a bounded numerator never overshoots: if `a <= c * b`
/// then `a / b <= c`.
pub proof fn lemma_div_le_mul_bound(a: int, b: int, c: int)
    requires
        0 <= a,
        0 < b,
        0 <= c,
        a <= c * b,
    ensures
        a / b <= c,
{
    lemma_fundamental_div_mod(a, b);
    lemma_mod_division_less_than_divisor(a, b);
    assert(a / b <= c) by (nonlinear_arith)
        requires
            0 < b,
            0 <= c,
            a == b * (a / b) + a % b,
            a % b >= 0,
            a <= c * b;
}

} // verus!
