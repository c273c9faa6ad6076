//! Integer square roots of 256-bit products.

use vstd::prelude::*;
use crate::wide::{mul_wide, wide_value};

verus! {

/// `r` is the integer square root of `x`: the largest `r >= 0` with
/// `r * r <= x`.
pub open spec fn is_floor_sqrt(x: int, r: int) -> bool {
    0 <= r && r * r <= x && x < (r + 1) * (r + 1)
}

/// The integer square root of `x`, the floor of its real square root.
/// Meaningful for `x >= 0`.
pub open spec fn floor_sqrt(x: int) -> int {
    choose|r: int| is_floor_sqrt(x, r)
}

/// At most one number is the integer square root of `x`.
pub proof fn lemma_floor_sqrt_unique(x: int, r1: int, r2: int)
    requires
        is_floor_sqrt(x, r1),
        is_floor_sqrt(x, r2),
    ensures
        r1 == r2,
{
    if r1 < r2 {
        assert((r1 + 1) * (r1 + 1) <= r2 * r2) by (nonlinear_arith)
            requires
                0 <= r1,
                r1 + 1 <= r2,
        ;
    }
    if r2 < r1 {
        assert((r2 + 1) * (r2 + 1) <= r1 * r1) by (nonlinear_arith)
            requires
                0 <= r2,
                r2 + 1 <= r1,
        ;
    }
}

/// Whatever satisfies [`is_floor_sqrt`] is the value of [`floor_sqrt`].
pub proof fn lemma_floor_sqrt_is(x: int, r: int)
    requires
        is_floor_sqrt(x, r),
    ensures
        floor_sqrt(x) == r,
{
    lemma_floor_sqrt_unique(x, r, floor_sqrt(x));
}

/// The integer square root of a perfect square is its root.
pub proof fn lemma_floor_sqrt_of_square(r: int)
    requires
        0 <= r,
    ensures
        floor_sqrt(r * r) == r,
{
    assert(r * r < (r + 1) * (r + 1)) by (nonlinear_arith)
        requires
            0 <= r,
    ;
    lemma_floor_sqrt_is(r * r, r);
}

/// The integer square root of the product `a * b`, exact although the
/// product itself may need 254 bits.
pub fn sqrt_of_product(a: i128, b: i128) -> (r: i128)
    requires
        0 <= a,
        0 <= b,
    ensures
        r == floor_sqrt(a * b),
        is_floor_sqrt(a * b, r as int),
{
    let ghost x: int = a * b;
    let (xh, xl) = mul_wide(a as u128, b as u128);
    let mut lo: u128 = 0;
    let mut hi: u128 = 0x8000_0000_0000_0000_0000_0000_0000_0000;
    assert(0 <= x < hi * hi) by (nonlinear_arith)
        requires
            x == a * b,
            0 <= a < hi,
            0 <= b < hi,
    ;
    while hi - lo > 1
        invariant
            lo < hi <= 0x8000_0000_0000_0000_0000_0000_0000_0000,
            lo * lo <= x < hi * hi,
            wide_value(xh, xl) == x,
        decreases hi - lo,
    {
        let mid = lo + (hi - lo) / 2;
        let (mh, ml) = mul_wide(mid, mid);
        if mh < xh || (mh == xh && ml <= xl) {
            lo = mid;
        } else {
            hi = mid;
        }
    }
    proof {
        assert(hi == lo + 1);
        lemma_floor_sqrt_is(x, lo as int);
    }
    lo as i128
}

} // verus!
