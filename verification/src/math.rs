//! Exact integer arithmetic: ceiling division and the floor integer
//! square root, with the facts the pricing and liquidity rules need.

use vstd::prelude::*;

verus! {

use vstd::arithmetic::div_mod::lemma_div_pos_is_pos;
use vstd::arithmetic::div_mod::lemma_fundamental_div_mod;
use vstd::arithmetic::div_mod::lemma_hoist_over_denominator;
use vstd::arithmetic::div_mod::lemma_mod_division_less_than_divisor;
use vstd::arithmetic::div_mod::lemma_mod_multiples_vanish;
use vstd::arithmetic::mul::lemma_mul_inequality_converse;
use vstd::arithmetic::mul::lemma_mul_is_commutative;
use vstd::arithmetic::mul::lemma_mul_is_distributive_add_other_way;
use vstd::arithmetic::mul::lemma_mul_strict_inequality_converse;
use vstd::arithmetic::mul::lemma_mul_upper_bound;

/// Ceiling of `a / b`: the least integer at or above the exact quotient.
pub open spec fn ceil_div(a: int, b: int) -> int
    recommends
        a >= 0,
        b > 0,
{
    if a % b == 0 {
        a / b
    } else {
        a / b + 1
    }
}

/// Rounding up never loses anything: `b` copies of the ceiling cover `a`.
pub proof fn lemma_ceil_div_covers(a: int, b: int)
    requires
        a >= 0,
        b > 0,
    ensures
        ceil_div(a, b) * b >= a,
        ceil_div(a, b) >= 0,
{
    lemma_fundamental_div_mod(a, b);
    lemma_mod_division_less_than_divisor(a, b);
    lemma_div_pos_is_pos(a, b);
    lemma_mul_is_commutative(a / b, b);
    if a % b != 0 {
        lemma_mul_is_distributive_add_other_way(b, a / b, 1);
    }
}

/// The ceiling of `a / b` stays at or below any `c` whose `b`-fold covers `a`.
pub proof fn lemma_ceil_div_le(a: int, b: int, c: int)
    requires
        a >= 0,
        b > 0,
        a <= b * c,
    ensures
        ceil_div(a, b) <= c,
{
    lemma_fundamental_div_mod(a, b);
    lemma_mod_division_less_than_divisor(a, b);
    lemma_mul_is_commutative(a / b, b);
    lemma_mul_is_commutative(c, b);
    if a % b == 0 {
        assert((a / b) * b <= c * b);
        lemma_mul_inequality_converse(a / b, c, b);
    } else {
        assert((a / b) * b < c * b);
        lemma_mul_strict_inequality_converse(a / b, c, b);
    }
}

/// A positive numerator keeps the ceiling at one or above.
pub proof fn lemma_ceil_div_pos(a: int, b: int)
    requires
        a >= 1,
        b > 0,
    ensures
        ceil_div(a, b) >= 1,
{
    lemma_fundamental_div_mod(a, b);
    lemma_mod_division_less_than_divisor(a, b);
    lemma_div_pos_is_pos(a, b);
    if a % b == 0 && a / b == 0 {
        assert(a == b * (a / b));
        assert(b * 0 == 0);
    }
}

/// Splitting the numerator at a multiple of the denominator splits the
/// ceiling: `ceil((b * q + r) / b) == q + ceil(r / b)`.
pub proof fn lemma_ceil_div_split(q: int, r: int, b: int)
    requires
        q >= 0,
        r >= 0,
        b > 0,
    ensures
        ceil_div(b * q + r, b) == q + ceil_div(r, b),
{
    lemma_mod_multiples_vanish(q, r, b);
    lemma_hoist_over_denominator(r, q, b as nat);
    lemma_mul_is_commutative(q, b);
}

/// Floor of the square root, defined by counting up.
pub open spec fn sqrt_floor(n: nat) -> nat
    decreases n,
{
    if n == 0 {
        0
    } else {
        let r = sqrt_floor((n - 1) as nat);
        if (r + 1) * (r + 1) <= n {
            (r + 1) as nat
        } else {
            r
        }
    }
}

/// `sqrt_floor(n)` sits between the consecutive squares around `n`.
pub proof fn lemma_sqrt_floor_bounds(n: nat)
    ensures
        sqrt_floor(n) * sqrt_floor(n) <= n,
        n < (sqrt_floor(n) + 1) * (sqrt_floor(n) + 1),
    decreases n,
{
    if n == 0 {
        assert(sqrt_floor(0) == 0);
        vstd::arithmetic::mul::lemma_mul_basics(1);
    } else {
        lemma_sqrt_floor_bounds((n - 1) as nat);
        let r = sqrt_floor((n - 1) as nat);
        if (r + 1) * (r + 1) <= n {
            assert(sqrt_floor(n) == r + 1);
            assert(n <= (r + 1) * (r + 1));
            assert((r + 1) * (r + 1) < (r + 2) * (r + 2)) by (nonlinear_arith);
        } else {
            assert(sqrt_floor(n) == r);
        }
    }
}

/// Any `r` bracketing `n` between consecutive squares is the root.
pub proof fn lemma_sqrt_floor_unique(n: nat, r: nat)
    requires
        r * r <= n,
        n < (r + 1) * (r + 1),
    ensures
        r == sqrt_floor(n),
{
    let s = sqrt_floor(n);
    lemma_sqrt_floor_bounds(n);
    if r < s {
        assert((r + 1) * (r + 1) <= s * s) by (nonlinear_arith)
            requires
                r < s,
        ;
    }
    if s < r {
        assert((s + 1) * (s + 1) <= r * r) by (nonlinear_arith)
            requires
                s < r,
        ;
    }
}

/// The root never decreases when the radicand grows.
pub proof fn lemma_sqrt_floor_monotonic(a: nat, b: nat)
    requires
        a <= b,
    ensures
        sqrt_floor(a) <= sqrt_floor(b),
{
    lemma_sqrt_floor_bounds(a);
    lemma_sqrt_floor_bounds(b);
    if sqrt_floor(b) < sqrt_floor(a) {
        assert((sqrt_floor(b) + 1) * (sqrt_floor(b) + 1) <= sqrt_floor(a) * sqrt_floor(a))
            by (nonlinear_arith)
            requires
                sqrt_floor(b) < sqrt_floor(a),
        ;
    }
}

/// Floor integer square root by binary search over the root.
pub fn integer_sqrt(x: u128) -> (r: u128)
    ensures
        r == sqrt_floor(x as nat),
        r * r <= x,
        x < (r + 1) * (r + 1),
{
    let mut lo: u128 = 0;
    let mut hi: u128 = 0xFFFF_FFFF_FFFF_FFFF;
    proof {
        assert(x < 0x1_0000_0000_0000_0000int * 0x1_0000_0000_0000_0000int);
    }
    while lo < hi
        invariant
            lo <= hi <= 0xFFFF_FFFF_FFFF_FFFF,
            lo * lo <= x,
            x < (hi + 1) * (hi + 1),
        decreases hi - lo,
    {
        let mid: u128 = lo + (hi - lo + 1) / 2;
        proof {
            lemma_mul_upper_bound(
                mid as int,
                0xFFFF_FFFF_FFFF_FFFFint,
                mid as int,
                0xFFFF_FFFF_FFFF_FFFFint,
            );
        }
        if mid * mid <= x {
            lo = mid;
        } else {
            hi = mid - 1;
        }
    }
    proof {
        lemma_sqrt_floor_unique(x as nat, lo as nat);
    }
    lo
}

} // verus!
