//! Integer square roots.

use vstd::prelude::*;

verus! {

/// `r` is the square root of `x` rounded down: `r² <= x < (r + 1)²`.
pub open spec fn is_floor_sqrt(r: nat, x: nat) -> bool {
    r * r <= x < (r + 1) * (r + 1)
}

/// The square root of `x`, rounded down.
pub open spec fn floor_sqrt(x: nat) -> nat {
    choose|r: nat| is_floor_sqrt(r, x)
}

/// At most one number is the rounded-down square root of `x`.
pub proof fn lemma_floor_sqrt_unique(x: nat, r: nat)
    requires
        is_floor_sqrt(r, x),
    ensures
        floor_sqrt(x) == r,
{
    let s = floor_sqrt(x);
    assert(is_floor_sqrt(s, x));
    assert(s == r) by (nonlinear_arith)
        requires
            r * r <= x < (r + 1) * (r + 1),
            s * s <= x < (s + 1) * (s + 1),
    ;
}

/// Every number has a rounded-down square root.
pub proof fn lemma_floor_sqrt_exists(x: nat)
    ensures
        is_floor_sqrt(floor_sqrt(x), x),
    decreases x,
{
    if x == 0 {
        assert(is_floor_sqrt(0, 0)) by (nonlinear_arith);
    } else {
        let below = (x - 1) as nat;
        lemma_floor_sqrt_exists(below);
        let r = floor_sqrt(below);
        if (r + 1) * (r + 1) <= x {
            assert(is_floor_sqrt(r + 1, x)) by (nonlinear_arith)
                requires
                    r * r <= x - 1 < (r + 1) * (r + 1),
                    (r + 1) * (r + 1) <= x,
            ;
        } else {
            assert(is_floor_sqrt(r, x));
        }
    }
}

/// Computes the square root of `x`, rounded down, by bisection.
pub fn isqrt(x: u128) -> (r: u64)
    ensures
        r == floor_sqrt(x as nat),
        is_floor_sqrt(r as nat, x as nat),
{
    let mut lo: u128 = 0;
    let mut hi: u128 = 0x1_0000_0000_0000_0000;
    assert(x < hi * hi) by (nonlinear_arith)
        requires
            hi == 0x1_0000_0000_0000_0000,
            x <= u128::MAX,
    ;
    while hi - lo > 1
        invariant
            lo < hi <= 0x1_0000_0000_0000_0000,
            lo * lo <= x < hi * hi,
        decreases hi - lo,
    {
        let mid: u128 = lo + (hi - lo) / 2;
        assert(mid * mid <= u128::MAX) by (nonlinear_arith)
            requires
                mid < 0x1_0000_0000_0000_0000,
        ;
        if mid * mid <= x {
            lo = mid;
        } else {
            hi = mid;
        }
    }
    proof {
        lemma_floor_sqrt_unique(x as nat, lo as nat);
    }
    lo as u64
}

} // verus!
