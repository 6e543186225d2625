//! Fixed-point scalar arithmetic.
//!
//! A scalar is an `i128` holding `SCALE` times its real value. Divisions
//! round toward zero (the semantics of the executable `/`, pinned by the
//! spec function `tdiv`) and square roots round down (`sqrt_floor`).

use vstd::prelude::*;

verus! {

/// Fixed-point unit: a raw value of `SCALE` stands for the real number 1.
pub const SCALE: i128 = 0x1_0000;

/// Division rounding toward zero, over mathematical integers, for a
/// positive divisor: the semantics of the executable `/`.
pub open spec fn tdiv(a: int, b: int) -> int
    recommends
        b > 0,
{
    if a >= 0 {
        a / b
    } else {
        -((-a) / b)
    }
}

/// `tdiv` never rounds away from zero: its magnitude is at most the
/// magnitude of the exact quotient.
pub proof fn lemma_tdiv_bound(a: int, b: int, m: int)
    requires
        b > 0,
        -(m * b) <= a <= m * b,
        0 <= m,
    ensures
        -m <= tdiv(a, b) <= m,
{
    vstd::arithmetic::div_mod::lemma_fundamental_div_mod_converse(m * b, b, m, 0);
    if a >= 0 {
        vstd::arithmetic::div_mod::lemma_div_is_ordered(a, m * b, b);
        vstd::arithmetic::div_mod::lemma_div_pos_is_pos(a, b);
    } else {
        vstd::arithmetic::div_mod::lemma_div_is_ordered(-a, m * b, b);
        vstd::arithmetic::div_mod::lemma_div_pos_is_pos(-a, b);
    }
}

/// `tdiv` is monotone in its dividend.
pub proof fn lemma_tdiv_ordered(a1: int, a2: int, b: int)
    requires
        b > 0,
        a1 <= a2,
    ensures
        tdiv(a1, b) <= tdiv(a2, b),
{
    if a1 >= 0 {
        vstd::arithmetic::div_mod::lemma_div_is_ordered(a1, a2, b);
    } else if a2 < 0 {
        vstd::arithmetic::div_mod::lemma_div_is_ordered(-a2, -a1, b);
    } else {
        vstd::arithmetic::div_mod::lemma_div_pos_is_pos(-a1, b);
        vstd::arithmetic::div_mod::lemma_div_pos_is_pos(a2, b);
    }
}

/// An exact multiple divides back out of `tdiv`.
pub proof fn lemma_tdiv_exact(m: int, b: int)
    requires
        b > 0,
    ensures
        tdiv(m * b, b) == m,
{
    vstd::arithmetic::div_mod::lemma_fundamental_div_mod_converse(m * b, b, m, 0);
    if m * b < 0 {
        assert(-(m * b) == (-m) * b) by (nonlinear_arith);
        vstd::arithmetic::div_mod::lemma_fundamental_div_mod_converse(-(m * b), b, -m, 0);
    }
}

/// Division by at least one never grows a value's magnitude.
pub proof fn lemma_tdiv_shrinks(a: int, b: int)
    requires
        b >= 1,
    ensures
        a >= 0 ==> 0 <= tdiv(a, b) <= a,
        a < 0 ==> a <= tdiv(a, b) <= 0,
{
    if a >= 0 {
        vstd::arithmetic::div_mod::lemma_div_is_ordered_by_denominator(a, 1, b);
        vstd::arithmetic::div_mod::lemma_fundamental_div_mod_converse(a, 1, a, 0);
        vstd::arithmetic::div_mod::lemma_div_pos_is_pos(a, b);
    } else {
        vstd::arithmetic::div_mod::lemma_div_is_ordered_by_denominator(-a, 1, b);
        vstd::arithmetic::div_mod::lemma_fundamental_div_mod_converse(-a, 1, -a, 0);
        vstd::arithmetic::div_mod::lemma_div_pos_is_pos(-a, b);
    }
}

/// Truncating division is odd in its dividend: negating the dividend
/// negates the quotient.
pub proof fn lemma_tdiv_neg(a: int, b: int)
    requires
        b > 0,
    ensures
        tdiv(-a, b) == -tdiv(a, b),
{
}

/// The remainder a truncating division leaves is within `b - 1` of zero,
/// on the dividend's side.
pub proof fn lemma_tdiv_rem(a: int, b: int)
    requires
        b > 0,
    ensures
        a >= 0 ==> 0 <= a - b * tdiv(a, b) <= b - 1,
        a < 0 ==> -(b - 1) <= a - b * tdiv(a, b) <= 0,
{
    if a >= 0 {
        vstd::arithmetic::div_mod::lemma_fundamental_div_mod(a, b);
        vstd::arithmetic::div_mod::lemma_mod_bound(a, b);
    } else {
        vstd::arithmetic::div_mod::lemma_fundamental_div_mod(-a, b);
        vstd::arithmetic::div_mod::lemma_mod_bound(-a, b);
        assert(b * -((-a) / b) == -(b * ((-a) / b))) by (nonlinear_arith);
    }
}

/// Bounds on two factors bound their product.
pub proof fn lemma_mul_bound(x: int, y: int, mx: int, my: int)
    requires
        -mx <= x <= mx,
        -my <= y <= my,
        0 <= mx,
        0 <= my,
    ensures
        -(mx * my) <= x * y <= mx * my,
{
    assert(-(mx * my) <= x * y <= mx * my) by (nonlinear_arith)
        requires
            -mx <= x <= mx,
            -my <= y <= my,
            0 <= mx,
            0 <= my,
    ;
}

/// The executable division, related exactly to `tdiv`.
pub fn div_t(a: i128, b: i128) -> (r: i128)
    requires
        b > 0,
        a > i128::MIN,
    ensures
        r == tdiv(a as int, b as int),
{
    a / b
}

/// Division rounding toward zero for any non-zero divisor.
pub open spec fn tdiv_s(a: int, b: int) -> int
    recommends
        b != 0,
{
    if b > 0 {
        tdiv(a, b)
    } else {
        tdiv(-a, -b)
    }
}

/// The executable division for a divisor of either sign, related exactly
/// to `tdiv_s`.
pub fn div_t_s(a: i128, b: i128) -> (r: i128)
    requires
        b != 0,
        a > i128::MIN,
        b > i128::MIN,
    ensures
        r == tdiv_s(a as int, b as int),
{
    if b > 0 {
        a / b
    } else {
        (-a) / (-b)
    }
}

/// The integer square root, rounded down: the unique `r` with
/// `r * r <= n < (r + 1) * (r + 1)`.
pub open spec fn sqrt_floor(n: nat) -> nat
    decreases n,
{
    if n == 0 {
        0
    } else {
        let r = sqrt_floor((n - 1) as nat);
        if (r + 1) * (r + 1) <= n {
            r + 1
        } else {
            r
        }
    }
}

/// `sqrt_floor(n)` squares to at most `n`, and is the largest such value.
pub proof fn lemma_sqrt_floor_bounds(n: nat)
    ensures
        sqrt_floor(n) * sqrt_floor(n) <= n,
        n < (sqrt_floor(n) + 1) * (sqrt_floor(n) + 1),
    decreases n,
{
    if n == 0 {
        assert(sqrt_floor(0) == 0);
        assert(n < (sqrt_floor(n) + 1) * (sqrt_floor(n) + 1)) by (nonlinear_arith)
            requires
                n == 0nat,
                sqrt_floor(n) == 0nat,
        ;
    } else {
        lemma_sqrt_floor_bounds((n - 1) as nat);
        let r = sqrt_floor((n - 1) as nat);
        assert(r * r <= n - 1 < (r + 1) * (r + 1));
        if (r + 1) * (r + 1) <= n {
            assert(sqrt_floor(n) == r + 1);
            assert(n == (r + 1) * (r + 1));
            assert((r + 1) * (r + 1) < (r + 2) * (r + 2)) by (nonlinear_arith);
            assert(n < (sqrt_floor(n) + 1) * (sqrt_floor(n) + 1));
        } else {
            assert(sqrt_floor(n) == r);
        }
    }
}


/// Any `r` that satisfies the square-root bracketing is `sqrt_floor(n)`.
pub proof fn lemma_sqrt_floor_unique(n: nat, r: nat)
    requires
        r * r <= n,
        n < (r + 1) * (r + 1),
    ensures
        sqrt_floor(n) == r,
{
    let s = sqrt_floor(n);
    lemma_sqrt_floor_bounds(n);
    if s < r {
        assert((s + 1) * (s + 1) <= r * r) by (nonlinear_arith)
            requires
                s + 1 <= r,
                0 <= s,
        ;
    }
    if r < s {
        assert((r + 1) * (r + 1) <= s * s) by (nonlinear_arith)
            requires
                r + 1 <= s,
                0 <= r,
        ;
    }
}

/// Integer square root by bisection on `[0, 2^64]`.
pub fn isqrt(n: u128) -> (r: u128)
    ensures
        r as nat == sqrt_floor(n as nat),
        r * r <= n < (r + 1) * (r + 1),
{
    let mut lo: u128 = 0;
    let mut hi: u128 = if n >= 0xFFFF_FFFF_FFFF_FFFF {
        0x1_0000_0000_0000_0000
    } else {
        n + 1
    };
    proof {
        if n < 0xFFFF_FFFF_FFFF_FFFF {
            assert(n < (n + 1) * (n + 1)) by (nonlinear_arith);
        }
    }
    while lo + 1 < hi
        invariant
            lo < hi,
            hi <= 0x1_0000_0000_0000_0000,
            lo * lo <= n,
            n < hi * hi,
        decreases hi - lo,
    {
        let mid = lo + (hi - lo) / 2;
        proof {
            assert(mid * mid < 0xFFFF_FFFF_FFFF_FFFF_FFFF_FFFF_FFFF_FFFFu128) by (nonlinear_arith)
                requires
                    mid < 0x1_0000_0000_0000_0000u128,
            ;
        }
        if mid * mid <= n {
            lo = mid;
        } else {
            hi = mid;
        }
    }
    proof {
        lemma_sqrt_floor_unique(n as nat, lo as nat);
    }
    lo
}

/// Integer square root of a non-negative signed value.
pub fn isqrt_i(n: i128) -> (r: i128)
    requires
        n >= 0,
    ensures
        r >= 0,
        r as nat == sqrt_floor(n as nat),
        r * r <= n < (r + 1) * (r + 1),
{
    let r = isqrt(n as u128);
    proof {
        assert(r < 0x1_0000_0000_0000_0000u128) by (nonlinear_arith)
            requires
                r * r < 0x8000_0000_0000_0000_0000_0000_0000_0000u128,
        ;
    }
    r as i128
}

} // verus!
