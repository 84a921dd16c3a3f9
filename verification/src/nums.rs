//! Integer helpers for the engine: floor division and remainder on signed
//! values (grid snapping must round toward negative infinity) and an integer
//! square root (ray lengths are compared exactly via squared distances and
//! reported as floor square roots).

use vstd::prelude::*;

verus! {

use vstd::arithmetic::div_mod::{
    lemma_fundamental_div_mod, lemma_fundamental_div_mod_converse,
};

/// The mathematical floor square root of `n`: the unique `r >= 0` with
/// `r * r <= n < (r + 1) * (r + 1)`.
pub open spec fn sqrt_floor(n: int) -> int {
    choose|r: int| 0 <= r && #[trigger] (r * r) <= n && n < (r + 1) * (r + 1)
}

/// Any `r >= 0` whose square brackets `n` is the floor square root of `n`.
pub proof fn lemma_sqrt_floor_is(n: int, r: int)
    requires
        0 <= r,
        r * r <= n,
        n < (r + 1) * (r + 1),
    ensures
        sqrt_floor(n) == r,
{
    assert(exists|s: int| 0 <= s && #[trigger] (s * s) <= n && n < (s + 1) * (s + 1)) by {
        assert(0 <= r && r * r <= n && n < (r + 1) * (r + 1));
    }
    let s = sqrt_floor(n);
    assert(0 <= s && s * s <= n && n < (s + 1) * (s + 1));
    assert(s == r) by (nonlinear_arith)
        requires
            0 <= r,
            r * r <= n,
            n < (r + 1) * (r + 1),
            0 <= s,
            s * s <= n,
            n < (s + 1) * (s + 1),
    ;
}

/// Every natural number has a floor square root.
proof fn lemma_sqrt_floor_exists(n: nat)
    ensures
        exists|r: int| 0 <= r && #[trigger] (r * r) <= n && n < (r + 1) * (r + 1),
    decreases n,
{
    if n == 0 {
        assert(0 <= 0int && 0int * 0int <= n && n < (0int + 1) * (0int + 1));
    } else {
        lemma_sqrt_floor_exists((n - 1) as nat);
        let r = choose|r: int| 0 <= r && #[trigger] (r * r) <= n - 1 && n - 1 < (r + 1) * (r + 1);
        if n == (r + 1) * (r + 1) {
            assert((r + 1) * (r + 1) <= n && n < (r + 1 + 1) * (r + 1 + 1)) by (nonlinear_arith)
                requires
                    0 <= r,
                    n == (r + 1) * (r + 1),
            ;
            assert(0 <= r + 1 && (r + 1) * (r + 1) <= n && n < (r + 1 + 1) * (r + 1 + 1));
        } else {
            assert(0 <= r && r * r <= n && n < (r + 1) * (r + 1));
        }
    }
}

/// The floor square root of a nonnegative number is nonnegative and its
/// square brackets the number.
pub proof fn lemma_sqrt_floor_props(n: int)
    requires
        0 <= n,
    ensures
        0 <= sqrt_floor(n),
        sqrt_floor(n) * sqrt_floor(n) <= n,
        n < (sqrt_floor(n) + 1) * (sqrt_floor(n) + 1),
{
    lemma_sqrt_floor_exists(n as nat);
    let s = sqrt_floor(n);
    assert(0 <= s && s * s <= n && n < (s + 1) * (s + 1));
}

/// Quotient of `a` by `b`, rounded toward negative infinity, which for a
/// positive divisor agrees with the Euclidean quotient `a / b` of the
/// specification arithmetic.
pub fn floor_div(a: i128, b: i128) -> (q: i128)
    requires
        0 < b,
        i128::MIN < a,
    ensures
        q == a as int / b as int,
{
    if a >= 0 {
        let q = (a as u128) / (b as u128);
        proof {
            lemma_fundamental_div_mod(a as int, b as int);
            assert(a as int / b as int <= a) by (nonlinear_arith)
                requires
                    0 <= a,
                    0 < b,
            ;
        }
        q as i128
    } else {
        let na = (-a) as u128;
        let bu = b as u128;
        let ceil = (na + (bu - 1)) / bu;
        proof {
            let nai = -(a as int);
            let bi = b as int;
            lemma_fundamental_div_mod(nai + bi - 1, bi);
            let q0 = (nai + bi - 1) / bi;
            let r0 = (nai + bi - 1) % bi;
            // nai + bi - 1 == q0 * bi + r0 with 0 <= r0 < bi, hence
            // a == (-q0) * bi + (bi - 1 - r0) with the remainder in range.
            assert(a as int == (-q0) * bi + (bi - 1 - r0)) by (nonlinear_arith)
                requires
                    nai == -(a as int),
                    nai + bi - 1 == q0 * bi + r0,
            ;
            lemma_fundamental_div_mod_converse(a as int, bi, -q0, bi - 1 - r0);
            assert(0 <= q0 <= nai) by (nonlinear_arith)
                requires
                    0 < bi,
                    0 < nai,
                    nai + bi - 1 == q0 * bi + r0,
                    0 <= r0 < bi,
            ;
        }
        -(ceil as i128)
    }
}

/// Remainder of `a` modulo `b` in `[0, b)`, which for a positive divisor
/// agrees with the Euclidean remainder `a % b` of the specification
/// arithmetic.
pub fn floor_mod(a: i128, b: i128) -> (r: i128)
    requires
        0 < b,
        i128::MIN < a,
    ensures
        r == a as int % b as int,
        0 <= r < b,
{
    proof {
        lemma_fundamental_div_mod(a as int, b as int);
    }
    if a >= 0 {
        ((a as u128) % (b as u128)) as i128
    } else {
        let na = (-a) as u128;
        let bu = b as u128;
        let m = na % bu;
        proof {
            let nai = -(a as int);
            let bi = b as int;
            lemma_fundamental_div_mod(nai, bi);
            let q0 = nai / bi;
            let r0 = nai % bi;
            if r0 == 0 {
                assert(a as int == (-q0) * bi + 0) by (nonlinear_arith)
                    requires
                        nai == -(a as int),
                        nai == q0 * bi + r0,
                        r0 == 0,
                ;
                lemma_fundamental_div_mod_converse(a as int, bi, -q0, 0);
            } else {
                assert(a as int == (-q0 - 1) * bi + (bi - r0)) by (nonlinear_arith)
                    requires
                        nai == -(a as int),
                        nai == q0 * bi + r0,
                ;
                lemma_fundamental_div_mod_converse(a as int, bi, -q0 - 1, bi - r0);
            }
        }
        if m == 0 {
            0
        } else {
            b - (m as i128)
        }
    }
}

/// Floor square root of `n`: the returned `r` satisfies
/// `r * r <= n < (r + 1) * (r + 1)`, so `r == sqrt_floor(n)`.
pub fn isqrt(n: u128) -> (r: u64)
    ensures
        r == sqrt_floor(n as int),
        r * r <= n,
        n < (r + 1) * (r + 1),
{
    let mut lo: u128 = 0;
    let mut hi: u128 = 0x1_0000_0000_0000_0000;
    proof {
        assert((0x1_0000_0000_0000_0000 as int) * (0x1_0000_0000_0000_0000 as int) > n)
            by (nonlinear_arith)
            requires
                n <= u128::MAX,
        ;
    }
    while lo + 1 < hi
        invariant
            lo < hi <= 0x1_0000_0000_0000_0000,
            (lo as int) * (lo as int) <= n,
            (n as int) < (hi as int) * (hi as int),
        decreases hi - lo,
    {
        let mid = lo + (hi - lo) / 2;
        proof {
            assert((mid as int) * (mid as int) < 0x1_0000_0000_0000_0000_0000_0000_0000_0000)
                by (nonlinear_arith)
                requires
                    mid < 0x1_0000_0000_0000_0000,
            ;
        }
        if mid * mid <= n {
            lo = mid;
        } else {
            hi = mid;
        }
    }
    proof {
        lemma_sqrt_floor_is(n as int, lo as int);
    }
    lo as u64
}

} // verus!
