//! Verified numeric helpers: Euclidean (floor) division and remainder on the
//! machine integers, an integer square root, and symmetric clamping.

use vstd::prelude::*;
use vstd::arithmetic::div_mod::lemma_fundamental_div_mod;
use vstd::arithmetic::div_mod::lemma_mod_division_less_than_divisor;

verus! {

/// `r` is the integer square root of `n`.
pub open spec fn is_sqrt_of(n: int, r: int) -> bool {
    0 <= r && r * r <= n && n < (r + 1) * (r + 1)
}

/// The integer square root of `n` (meaningful for `n >= 0`).
pub open spec fn sqrt_of(n: int) -> int {
    choose|r: int| is_sqrt_of(n, r)
}

/// Every nonnegative integer has an integer square root.
pub proof fn lemma_sqrt_exists(n: int)
    requires
        0 <= n,
    ensures
        is_sqrt_of(n, sqrt_of(n)),
    decreases n,
{
    if n == 0 {
        assert(is_sqrt_of(0, 0)) by (nonlinear_arith);
    } else {
        lemma_sqrt_exists(n - 1);
        let r = sqrt_of(n - 1);
        if n < (r + 1) * (r + 1) {
            assert(is_sqrt_of(n, r));
        } else {
            assert(is_sqrt_of(n, r + 1)) by (nonlinear_arith)
                requires
                    is_sqrt_of(n - 1, r),
                    (r + 1) * (r + 1) <= n,
            ;
        }
    }
}

/// The integer square root is unique.
pub proof fn lemma_sqrt_unique(n: int, r: int)
    requires
        0 <= n,
        is_sqrt_of(n, r),
    ensures
        r == sqrt_of(n),
{
    lemma_sqrt_exists(n);
    let s = sqrt_of(n);
    assert(r == s) by (nonlinear_arith)
        requires
            is_sqrt_of(n, r),
            is_sqrt_of(n, s),
    ;
}

/// The integer square root of `n`, by binary search.
pub fn isqrt(n: u64) -> (r: u64)
    ensures
        is_sqrt_of(n as int, r as int),
        r as int == sqrt_of(n as int),
{
    let mut lo: u64 = 0;
    let mut hi: u64 = 4294967296;
    proof {
        assert((4294967296int) * (4294967296int) == 0x10000000000000000int) by (nonlinear_arith);
    }
    while lo + 1 < hi
        invariant
            lo < hi <= 4294967296,
            (lo as int) * (lo as int) <= n as int,
            (n as int) < (hi as int) * (hi as int),
        decreases hi - lo,
    {
        let mid = lo + (hi - lo) / 2;
        proof {
            assert((mid as int) * (mid as int) <= (4294967296int) * (4294967296int))
                by (nonlinear_arith)
                requires
                    0 <= mid <= 4294967296,
            ;
        }
        let sq: u128 = (mid as u128) * (mid as u128);
        if sq <= n as u128 {
            lo = mid;
        } else {
            hi = mid;
        }
    }
    proof {
        lemma_sqrt_unique(n as int, lo as int);
    }
    lo
}

/// `v` clamped to the symmetric interval `[-lim, lim]`.
pub open spec fn clamp_spec(v: int, lim: int) -> int {
    if v > lim {
        lim
    } else if v < -lim {
        -lim
    } else {
        v
    }
}

/// Clamp a wide intermediate value into `[-lim, lim]`.
pub fn clamp_i128(v: i128, lim: i64) -> (r: i64)
    requires
        0 < lim,
    ensures
        r as int == clamp_spec(v as int, lim as int),
{
    if v > lim as i128 {
        lim
    } else if v < -(lim as i128) {
        -lim
    } else {
        v as i64
    }
}

/// The product of two values within the given magnitude bounds is within the
/// product of the bounds.
pub proof fn lemma_mul_bound(a: int, ab: int, b: int, bb: int)
    requires
        -ab <= a <= ab,
        -bb <= b <= bb,
        0 <= ab,
        0 <= bb,
    ensures
        -(ab * bb) <= a * b <= ab * bb,
{
    assert(-(ab * bb) <= a * b <= ab * bb) by (nonlinear_arith)
        requires
            -ab <= a <= ab,
            -bb <= b <= bb,
            0 <= ab,
            0 <= bb,
    ;
}

/// A quotient whose dividend is within `b * lim` in magnitude is within
/// `lim`.
pub proof fn lemma_div_bounded(a: int, b: int, lim: int)
    requires
        1 <= b,
        0 <= lim,
        -(b * lim) <= a <= b * lim,
    ensures
        -lim <= a / b <= lim,
{
    assert(-(b * lim) == b * (-lim)) by (nonlinear_arith);
    vstd::arithmetic::div_mod::lemma_div_is_ordered(b * (-lim), a, b);
    vstd::arithmetic::div_mod::lemma_div_is_ordered(a, b * lim, b);
    vstd::arithmetic::div_mod::lemma_div_multiples_vanish(lim, b);
    vstd::arithmetic::div_mod::lemma_div_multiples_vanish(-lim, b);
}

/// Floor division by a positive divisor keeps the quotient between the
/// dividend and zero.
pub proof fn lemma_div_in_range(a: int, b: int)
    requires
        1 <= b,
    ensures
        a >= 0 ==> 0 <= a / b <= a,
        a < 0 ==> a <= a / b <= 0,
{
    lemma_fundamental_div_mod(a, b);
    lemma_mod_division_less_than_divisor(a, b);
    let q = a / b;
    let r = a % b;
    assert((a >= 0 ==> 0 <= q <= a) && (a < 0 ==> a <= q <= 0)) by (nonlinear_arith)
        requires
            1 <= b,
            0 <= r < b,
            a == b * q + r,
    ;
}

/// Euclidean division of `a` by the positive divisor `b`; the result is the
/// floor of the exact quotient, exactly the `/` of the specification world.
pub fn div_floor_i128(a: i128, b: i128) -> (q: i128)
    requires
        1 <= b,
    ensures
        q as int == a as int / b as int,
{
    proof {
        lemma_div_in_range(a as int, b as int);
    }
    a.checked_div_euclid(b).unwrap()
}

/// Euclidean division on `i64`, as `div_floor_i128`.
pub fn div_floor_i64(a: i64, b: i64) -> (q: i64)
    requires
        1 <= b,
    ensures
        q as int == a as int / b as int,
{
    proof {
        lemma_div_in_range(a as int, b as int);
    }
    a.checked_div_euclid(b).unwrap()
}

/// Euclidean remainder of `a` modulo the positive modulus `m`: the unique
/// representative in `[0, m)`, exactly the `%` of the specification world.
pub fn mod_floor_i64(a: i64, m: i64) -> (r: i64)
    requires
        1 <= m,
    ensures
        r as int == a as int % m as int,
        0 <= r < m,
{
    proof {
        lemma_mod_division_less_than_divisor(a as int, m as int);
    }
    a.checked_rem_euclid(m).unwrap()
}

} // verus!
