//! Fixed-point scalar arithmetic.
//!
//! Every physical quantity in this crate is an `i128` holding a fixed-point
//! value: `SCALE` units stand for one simulation unit of length, mass or
//! time.  All arithmetic is exact integer arithmetic, so every contract in
//! the crate can pin its result down to the last unit.

use vstd::prelude::*;

verus! {

/// Fixed-point units per simulation unit (length, mass and time alike).
pub const SCALE: i128 = 1_000_000;

/// Largest magnitude allowed for a position or velocity component of a
/// valid particle, and for a bounding-volume center component or half width.
pub const POS_LIMIT: i128 = 10_000_000_000;

/// Largest mass of a valid particle (ten simulation mass units).  Together
/// with `N_LIMIT` this bounds the total mass of a system, which keeps the
/// aggregate force arithmetic inside `i128`.
pub const MASS_LIMIT: i128 = 10_000_000;

/// Largest time step accepted by the integrator.
pub const DT_LIMIT: i128 = 1_000_000_000;

/// Largest force component the integrator accepts; the simulation step
/// reports an error instead of integrating a larger one.
pub const FORCE_LIMIT: i128 = 10_000_000_000_000_000_000;

/// Largest number of particles in a valid simulation state.
pub const N_LIMIT: usize = 100_000;

/// Truncating (round-toward-zero) quotient, the rounding used by Rust's
/// integer division.  Only called with positive divisors.
pub open spec fn tdiv(a: int, b: int) -> int
    recommends
        b > 0,
{
    if a >= 0 {
        a / b
    } else {
        -((-a) / b)
    }
}

/// `r` is the floor of the square root of `n`.
pub open spec fn is_sqrt(n: int, r: int) -> bool {
    0 <= r && r * r <= n && n < (r + 1) * (r + 1)
}

/// Floor of the square root of a nonnegative integer.
pub open spec fn sqrt_floor(n: int) -> int {
    choose|r: int| is_sqrt(n, r)
}

/// The floor square root exists for every nonnegative integer.
pub proof fn lemma_sqrt_exists(n: int)
    requires
        n >= 0,
    ensures
        is_sqrt(n, sqrt_floor(n)),
    decreases n,
{
    if n == 0 {
        assert(is_sqrt(0, 0));
    } else {
        lemma_sqrt_exists(n - 1);
        let r = sqrt_floor(n - 1);
        if (r + 1) * (r + 1) <= n {
            assert(n - 1 < (r + 1) * (r + 1));
            assert((r + 1) * (r + 1) < (r + 2) * (r + 2)) by (nonlinear_arith)
                requires r >= 0;
            assert(is_sqrt(n, r + 1));
        } else {
            assert(is_sqrt(n, r));
        }
    }
}

/// The floor square root is unique.
pub proof fn lemma_sqrt_unique(n: int, r: int)
    requires
        is_sqrt(n, r),
    ensures
        sqrt_floor(n) == r,
{
    let s = sqrt_floor(n);
    assert(is_sqrt(n, s));
    assert(r == s) by (nonlinear_arith)
        requires
            0 <= r && r * r <= n && n < (r + 1) * (r + 1),
            0 <= s && s * s <= n && n < (s + 1) * (s + 1);
}

/// Truncating division of fixed-point scalars.
pub fn div_trunc(a: i128, b: i128) -> (r: i128)
    requires
        b > 0,
        a > i128::MIN,
    ensures
        r == tdiv(a as int, b as int),
{
    proof {
        lemma_tdiv_magnitude(a as int, b as int);
    }
    let q = a.checked_div(b);
    match q {
        Some(r) => r,
        None => {
            proof {
                assert(false);
            }
            0
        },
    }
}

/// The magnitude of a truncating quotient never exceeds the magnitude of
/// the dividend.
pub proof fn lemma_tdiv_magnitude(a: int, b: int)
    requires
        b > 0,
    ensures
        a >= 0 ==> 0 <= tdiv(a, b) <= a,
        a < 0 ==> a <= tdiv(a, b) <= 0,
{
    if a >= 0 {
        vstd::arithmetic::div_mod::lemma_div_pos_is_pos(a, b);
        vstd::arithmetic::div_mod::lemma_div_nonincreasing(a, b);
    } else {
        vstd::arithmetic::div_mod::lemma_div_pos_is_pos(-a, b);
        vstd::arithmetic::div_mod::lemma_div_nonincreasing(-a, b);
    }
}

/// A bound on the dividend gives the same bound on the truncating quotient:
/// if `|a| <= c * b` then `|tdiv(a, b)| <= c`.
pub proof fn lemma_tdiv_bound(a: int, b: int, c: int)
    requires
        b > 0,
        c >= 0,
        -(c * b) <= a <= c * b,
    ensures
        -c <= tdiv(a, b) <= c,
{
    if a >= 0 {
        assert(a / b <= c) by {
            vstd::arithmetic::div_mod::lemma_div_by_multiple(c, b);
            vstd::arithmetic::div_mod::lemma_div_is_ordered(a, c * b, b);
        }
        vstd::arithmetic::div_mod::lemma_div_pos_is_pos(a, b);
    } else {
        assert((-a) / b <= c) by {
            vstd::arithmetic::div_mod::lemma_div_by_multiple(c, b);
            vstd::arithmetic::div_mod::lemma_div_is_ordered(-a, c * b, b);
        }
        vstd::arithmetic::div_mod::lemma_div_pos_is_pos(-a, b);
    }
}

/// Floor square root, by binary search over the unsigned range.
pub fn isqrt(n: i128) -> (r: i128)
    requires
        n >= 0,
    ensures
        is_sqrt(n as int, r as int),
        r == sqrt_floor(n as int),
{
    let nu: u128 = n as u128;
    let mut lo: u128 = 0;
    let mut hi: u128 = if nu < 0xFFFF_FFFF_FFFF_FFFF {
        nu
    } else {
        0xFFFF_FFFF_FFFF_FFFF
    };
    proof {
        assert((hi + 1) * (hi + 1) > nu) by (nonlinear_arith)
            requires
                hi >= 0,
                nu <= hi || hi == 0xFFFF_FFFF_FFFF_FFFFu128,
                nu < 0x1_0000_0000_0000_0000_0000_0000_0000_0000;
    }
    while lo < hi
        invariant
            0 <= lo <= hi <= 0xFFFF_FFFF_FFFF_FFFF,
            lo * lo <= nu,
            nu < (hi + 1) * (hi + 1),
        decreases hi - lo,
    {
        let mid: u128 = lo + (hi - lo + 1) / 2;
        proof {
            assert(mid * mid <= 0xFFFF_FFFF_FFFF_FFFFu128 * 0xFFFF_FFFF_FFFF_FFFFu128)
                by (nonlinear_arith)
                requires 0 <= mid <= 0xFFFF_FFFF_FFFF_FFFFu128;
        }
        if mid * mid <= nu {
            lo = mid;
        } else {
            hi = mid - 1;
        }
    }
    proof {
        assert(is_sqrt(n as int, lo as int));
        lemma_sqrt_unique(n as int, lo as int);
    }
    lo as i128
}

} // verus!
