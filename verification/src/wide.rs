//! Products of 128-bit numbers, held in 256 bits.

use vstd::prelude::*;

verus! {

/// The value of a 256-bit number given as two 128-bit halves.
pub open spec fn wide_value(hi: u128, lo: u128) -> int {
    hi * 0x1_0000_0000_0000_0000_0000_0000_0000_0000int + lo
}

/// The full 256-bit product of two 128-bit numbers, as (high, low) halves.
pub fn mul_wide(x: u128, y: u128) -> (r: (u128, u128))
    ensures
        wide_value(r.0, r.1) == x * y,
{
    let b: u128 = 0x1_0000_0000_0000_0000;
    let x0 = x % b;
    let x1 = x / b;
    let y0 = y % b;
    let y1 = y / b;
    assert(x0 * y0 <= (b - 1) * (b - 1) && x0 * y1 <= (b - 1) * (b - 1) && x1 * y0 <= (b - 1) * (b
        - 1) && x1 * y1 <= (b - 1) * (b - 1)) by (nonlinear_arith)
        requires
            x0 <= b - 1,
            x1 <= b - 1,
            y0 <= b - 1,
            y1 <= b - 1,
            b >= 1,
    ;
    assert((b - 1) * (b - 1) == 0xffff_ffff_ffff_fffe_0000_0000_0000_0001int) by (nonlinear_arith)
        requires
            b == 0x1_0000_0000_0000_0000int,
    ;
    let p00 = x0 * y0;
    let p01 = x0 * y1;
    let p10 = x1 * y0;
    let p11 = x1 * y1;
    let t = p00 / b + p01 % b + p10 % b;
    let lo = (t % b) * b + p00 % b;
    let hi = p11 + p01 / b + p10 / b + t / b;
    assert(x * y == p11 * (b * b) + (p01 + p10) * b + p00) by (nonlinear_arith)
        requires
            x == x1 * b + x0,
            y == y1 * b + y0,
            p00 == x0 * y0,
            p01 == x0 * y1,
            p10 == x1 * y0,
            p11 == x1 * y1,
    ;
    assert(b * b == 0x1_0000_0000_0000_0000_0000_0000_0000_0000int) by (nonlinear_arith)
        requires
            b == 0x1_0000_0000_0000_0000int,
    ;
    (hi, lo)
}

} // verus!
