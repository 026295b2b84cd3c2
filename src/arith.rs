//! Integer helpers: division rounded toward zero and the floor square root.
use vstd::prelude::*;

verus! {

/// Quotient of `a` by a positive `b`, rounded toward zero.
pub open spec fn tdiv(a: int, b: int) -> int {
    if a >= 0 {
        a / b
    } else {
        -((-a) / b)
    }
}

/// `r` is the floor of the square root of `s`.
pub open spec fn is_floor_sqrt(s: int, r: int) -> bool {
    0 <= r && r * r <= s && s < (r + 1) * (r + 1)
}

/// The floor of the square root of a non-negative `s`.
pub open spec fn floor_sqrt(s: int) -> int {
    choose|r: int| is_floor_sqrt(s, r)
}

pub proof fn lemma_tdiv_bound(a: int, b: int)
    requires
        b > 0,
    ensures
        a >= 0 ==> 0 <= tdiv(a, b) && tdiv(a, b) * b <= a,
        a < 0 ==> tdiv(a, b) <= 0 && -tdiv(a, b) * b <= -a,
{
    if a >= 0 {
        assert((a / b) * b <= a) by (nonlinear_arith)
            requires
                a >= 0,
                b > 0,
        {
            vstd::arithmetic::div_mod::lemma_fundamental_div_mod(a, b);
        }
        assert(a / b >= 0) by (nonlinear_arith)
            requires
                a >= 0,
                b > 0,
        {
        }
    } else {
        let na = -a;
        assert((na / b) * b <= na && na / b >= 0) by (nonlinear_arith)
            requires
                na >= 0,
                b > 0,
        {
            vstd::arithmetic::div_mod::lemma_fundamental_div_mod(na, b);
        }
    }
}

pub proof fn lemma_floor_sqrt_unique(s: int, r1: int, r2: int)
    requires
        is_floor_sqrt(s, r1),
        is_floor_sqrt(s, r2),
    ensures
        r1 == r2,
{
    if r1 < r2 {
        assert((r1 + 1) * (r1 + 1) <= r2 * r2) by (nonlinear_arith)
            requires
                0 <= r1 + 1 <= r2,
        {
        }
    } else if r2 < r1 {
        assert((r2 + 1) * (r2 + 1) <= r1 * r1) by (nonlinear_arith)
            requires
                0 <= r2 + 1 <= r1,
        {
        }
    }
}

/// Quotient of `a` by `b`, rounded toward zero.
pub fn div_toward_zero(a: i128, b: i128) -> (r: i128)
    requires
        b > 0,
        a > i128::MIN,
    ensures
        r == tdiv(a as int, b as int),
{
    if a >= 0 {
        a / b
    } else {
        let na: i128 = -a;
        let q: i128 = na / b;
        proof {
            lemma_tdiv_bound(a as int, b as int);
        }
        -q
    }
}

/// Floor of the square root of `s`, for `s` below 2^86.
pub fn sqrt_floor(s: u128) -> (r: u64)
    requires
        s < 0x4000000000000000000000,
    ensures
        is_floor_sqrt(s as int, r as int),
        r as int == floor_sqrt(s as int),
        r < 0x80000000000,
{
    let mut lo: u128 = 0;
    let mut hi: u128 = 0x80000000000;
    assert(hi * hi == 0x4000000000000000000000u128) by (nonlinear_arith)
        requires
            hi == 0x80000000000u128,
    {
    }
    while hi - lo > 1
        invariant
            lo < hi <= 0x80000000000,
            lo * lo <= s,
            s < hi * hi,
        decreases hi - lo,
    {
        let mid: u128 = lo + (hi - lo) / 2;
        assert(mid * mid <= 0x80000000000u128 * 0x80000000000u128) by (nonlinear_arith)
            requires
                mid <= 0x80000000000u128,
        {
        }
        if mid * mid <= s {
            lo = mid;
        } else {
            hi = mid;
        }
    }
    assert(hi == lo + 1);
    proof {
        let r = lo as int;
        assert(is_floor_sqrt(s as int, r));
        assert(exists|q: int| is_floor_sqrt(s as int, q));
        lemma_floor_sqrt_unique(s as int, r, floor_sqrt(s as int));
    }
    lo as u64
}

} // verus!
