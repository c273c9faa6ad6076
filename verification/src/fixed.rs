//! Fixed-point arithmetic: the rounding, saturating primitives that every
//! formula of the crate is built from.

use vstd::arithmetic::div_mod::lemma_fundamental_div_mod_converse;
use vstd::prelude::*;
use crate::wide::{mul_wide, wide_value};

verus! {

/// Raw units per whole unit: a raw value `r` stands for `r / 1_000_000`.
pub const SCALE: i64 = 1_000_000;

/// The fixed-point representation of `100.0`, used to convert between
/// fractions and percentages.
pub const HUNDRED: i64 = 100_000_000;

/// `x` saturated into the range of `i64`.
pub open spec fn clamp64(x: int) -> int {
    if x < i64::MIN {
        i64::MIN as int
    } else if x > i64::MAX {
        i64::MAX as int
    } else {
        x
    }
}

/// `x` saturated into the range of `i128`.
pub open spec fn clamp128(x: int) -> int {
    if x < i128::MIN {
        i128::MIN as int
    } else if x > i128::MAX {
        i128::MAX as int
    } else {
        x
    }
}

/// The absolute value of `x`.
pub open spec fn magnitude(x: int) -> int {
    if x < 0 {
        -x
    } else {
        x
    }
}

/// The quotient `a / b` rounded to the nearest integer, ties away from zero.
pub open spec fn round_div(a: int, b: int) -> int
    recommends
        b != 0,
{
    let n = magnitude(a);
    let d = magnitude(b);
    let q = n / d + if 2 * (n % d) >= d {
        1int
    } else {
        0int
    };
    if (a < 0) != (b < 0) {
        -q
    } else {
        q
    }
}

/// The value that stands for a quotient whose divisor is zero: the largest
/// or smallest representable number by the sign of the dividend, and zero
/// for `0 / 0`.
pub open spec fn signed_limit(p: int) -> int {
    if p > 0 {
        i64::MAX as int
    } else if p < 0 {
        i64::MIN as int
    } else {
        0
    }
}

/// `a * b / c`, rounded half away from zero and saturated into `i64`. The
/// product is exact, however large. A zero divisor yields [`signed_limit`].
///
/// With `b == SCALE` this is fixed-point division of `a` by `c`; with
/// `c == SCALE` it is fixed-point multiplication of `a` by `b`.
pub open spec fn mul_div(a: int, b: int, c: int) -> int {
    if c == 0 {
        signed_limit(a * b)
    } else {
        clamp64(round_div(a * b, c))
    }
}

/// The magnitude of a rounded quotient `n / d`, capped at `2^63`, from
/// where on the quotient saturates whatever its sign.
pub open spec fn capped_quotient(n: int, d: int) -> int {
    let q = n / d + if 2 * (n % d) >= d {
        1int
    } else {
        0int
    };
    if q > 0x8000_0000_0000_0000 {
        0x8000_0000_0000_0000
    } else {
        q
    }
}

/// The sign rule for products: the product is positive exactly when both
/// factors are non-zero and of the same sign.
pub proof fn lemma_product_sign(a: int, b: int)
    ensures
        (a > 0 && b > 0) || (a < 0 && b < 0) ==> a * b > 0,
        (a > 0 && b < 0) || (a < 0 && b > 0) ==> a * b < 0,
        a == 0 || b == 0 ==> a * b == 0,
{
    assert((a > 0 && b > 0) || (a < 0 && b < 0) ==> a * b > 0) by (nonlinear_arith);
    assert((a > 0 && b < 0) || (a < 0 && b > 0) ==> a * b < 0) by (nonlinear_arith);
    assert(a == 0 || b == 0 ==> a * b == 0) by (nonlinear_arith);
}

/// A product is bounded by the product of the bounds of its factors.
pub proof fn lemma_product_bound(a: int, b: int, la: int, lb: int)
    requires
        -la <= a <= la,
        -lb <= b <= lb,
    ensures
        -(la * lb) <= a * b <= la * lb,
{
    assert(-(la * lb) <= a * b <= la * lb) by (nonlinear_arith)
        requires
            -la <= a <= la,
            -lb <= b <= lb,
    ;
}

/// Recognises a rounded quotient by a positive divisor: `q` is
/// `round_div(a, b)` when it lies within half a unit of the exact quotient,
/// a tie going away from zero.
pub proof fn lemma_round_div_is(a: int, b: int, q: int)
    requires
        b > 0,
        a >= 0 ==> q >= 0 && -b <= 2 * (a - q * b) < b,
        a < 0 ==> q <= 0 && -b < 2 * (a - q * b) <= b,
    ensures
        round_div(a, b) == q,
{
    let n = magnitude(a);
    let m = magnitude(q);
    let k = n / b;
    let r = n % b;
    assert(n == b * k + r && 0 <= r < b) by (nonlinear_arith)
        requires
            k == n / b,
            r == n % b,
            b > 0,
    ;
    assert(n - m * b == if a < 0 {
        -(a - q * b)
    } else {
        a - q * b
    }) by (nonlinear_arith)
        requires
            n == magnitude(a),
            m == magnitude(q),
            a >= 0 ==> q >= 0,
            a < 0 ==> q <= 0,
    ;
    assert(if 2 * r >= b {
        m == k + 1
    } else {
        m == k
    }) by (nonlinear_arith)
        requires
            n == b * k + r,
            0 <= r < b,
            -b <= 2 * (n - m * b) < b,
    ;
}

/// Rounding recovers an exact quotient: `(k * c) / c` rounds to `k`.
pub proof fn lemma_round_div_exact(k: int, c: int)
    requires
        c != 0,
    ensures
        round_div(k * c, c) == k,
{
    let n = magnitude(k * c);
    let d = magnitude(c);
    let m = magnitude(k);
    assert(n == m * d) by (nonlinear_arith)
        requires
            n == magnitude(k * c),
            d == magnitude(c),
            m == magnitude(k),
    ;
    assert(n / d == m && n % d == 0) by (nonlinear_arith)
        requires
            n == m * d,
            d > 0,
    ;
    lemma_product_sign(k, c);
}

/// A rounded quotient is within half a unit of the exact one:
/// `|c * round_div(a, c) - a| <= c / 2`, stated without fractions.
pub proof fn lemma_round_div_error(a: int, c: int)
    requires
        c > 0,
    ensures
        -c <= 2 * (c * round_div(a, c)) - 2 * a <= c,
{
    let n = magnitude(a);
    let q = n / c;
    let r = n % c;
    assert(n == c * q + r && 0 <= r < c) by (nonlinear_arith)
        requires
            q == n / c,
            r == n % c,
            c > 0,
    ;
    let up = if 2 * r >= c {
        1int
    } else {
        0int
    };
    assert(c * (q + up) == c * q + c * up) by (nonlinear_arith);
    assert(c * (-(q + up)) == -(c * (q + up))) by (nonlinear_arith);
}

/// Rounded division is monotone in the dividend for a positive divisor.
pub proof fn lemma_round_div_monotone(a1: int, a2: int, c: int)
    requires
        c > 0,
        a1 <= a2,
    ensures
        round_div(a1, c) <= round_div(a2, c),
{
    lemma_round_div_error(a1, c);
    lemma_round_div_error(a2, c);
    let q1 = round_div(a1, c);
    let q2 = round_div(a2, c);
    if q1 > q2 {
        // c*q1 - a1 >= -c/2 and c*q2 - a2 <= c/2 give c*(q1-q2) <= c + (a1-a2),
        // so q1 == q2 + 1 with both at a tie, which rounds the same way.
        assert(c * q1 - c * q2 >= c) by (nonlinear_arith)
            requires
                q1 >= q2 + 1,
                c > 0,
        ;
        assert(2 * (c * q1) - 2 * a1 <= c);
        assert(2 * (c * q2) - 2 * a2 >= -c);
        assert(a1 == a2);
    }
}

/// Saturating a dividend into 128 bits first does not change a rounded
/// quotient that is afterwards saturated into 64 bits, as long as the
/// divisor is positive and below `2^64`.
pub proof fn lemma_clamp_absorbed(x: int, c: int)
    requires
        0 < c < 0x1_0000_0000_0000_0000,
    ensures
        clamp64(round_div(clamp128(x), c)) == clamp64(round_div(x, c)),
{
    let top: int = 0x8000_0000_0000_0000;
    assert(top * c <= i128::MAX && -top * c >= i128::MIN) by (nonlinear_arith)
        requires
            0 < c < 0x1_0000_0000_0000_0000,
            top == 0x8000_0000_0000_0000,
    ;
    lemma_round_div_exact(top, c);
    lemma_round_div_exact(-top, c);
    if x > i128::MAX {
        lemma_round_div_monotone(top * c, i128::MAX as int, c);
        lemma_round_div_monotone(top * c, x, c);
    } else if x < i128::MIN {
        lemma_round_div_monotone(i128::MIN as int, -top * c, c);
        lemma_round_div_monotone(x, -top * c, c);
    }
}

/// The absolute value of a 128-bit integer, which always fits in `u128`.
fn magnitude_of(a: i128) -> (m: u128)
    ensures
        m == magnitude(a as int),
{
    if a >= 0 {
        a as u128
    } else if a == i128::MIN {
        0x8000_0000_0000_0000_0000_0000_0000_0000u128
    } else {
        (-a) as u128
    }
}

/// `a * b` saturated into `i128`.
pub fn sat_mul(a: i128, b: i128) -> (r: i128)
    ensures
        r == clamp128(a * b),
{
    proof {
        lemma_product_sign(a as int, b as int);
    }
    match a.checked_mul(b) {
        Some(p) => p,
        None => {
            if (a < 0) != (b < 0) {
                i128::MIN
            } else {
                i128::MAX
            }
        },
    }
}

/// `a + b` saturated into `i128`.
pub fn sat_add(a: i128, b: i128) -> (r: i128)
    ensures
        r == clamp128(a + b),
{
    match a.checked_add(b) {
        Some(s) => s,
        None => {
            if a < 0 {
                i128::MIN
            } else {
                i128::MAX
            }
        },
    }
}

/// `a - b` saturated into `i128`.
pub fn sat_sub(a: i128, b: i128) -> (r: i128)
    ensures
        r == clamp128(a - b),
{
    match a.checked_sub(b) {
        Some(s) => s,
        None => {
            if a < 0 {
                i128::MIN
            } else {
                i128::MAX
            }
        },
    }
}

/// `x` saturated into `i64`.
pub fn narrow(x: i128) -> (r: i64)
    ensures
        r == clamp64(x as int),
{
    if x < -0x8000_0000_0000_0000i128 {
        i64::MIN
    } else if x > 0x7fff_ffff_ffff_ffffi128 {
        i64::MAX
    } else {
        x as i64
    }
}

/// `a / b` rounded half away from zero and saturated into `i64`.
pub fn div_round(a: i128, b: i128) -> (r: i64)
    requires
        b != 0,
    ensures
        r == clamp64(round_div(a as int, b as int)),
{
    let n = magnitude_of(a);
    let d = magnitude_of(b);
    let q = n / d;
    let rem = n % d;
    assert(q <= n) by (nonlinear_arith)
        requires
            q == n / d,
            d >= 1,
            n >= 0,
    ;
    let m: u128 = if rem >= d - rem {
        q + 1
    } else {
        q
    };
    if (a < 0) != (b < 0) {
        if m >= 0x8000_0000_0000_0000u128 {
            i64::MIN
        } else {
            -(m as i64)
        }
    } else {
        if m > 0x7fff_ffff_ffff_ffffu128 {
            i64::MAX
        } else {
            m as i64
        }
    }
}

/// The magnitude of a product is the product of the magnitudes.
pub proof fn lemma_product_magnitude(a: int, b: int)
    ensures
        magnitude(a * b) == magnitude(a) * magnitude(b),
{
    assert(magnitude(a * b) == magnitude(a) * magnitude(b)) by (nonlinear_arith);
}

/// Computes [`capped_quotient`] of the 256-bit product `x * y` by `d`.
fn wide_quotient(x: u128, y: u128, d: u128) -> (m: u128)
    requires
        d > 0,
    ensures
        m == capped_quotient(x * y, d as int),
{
    let ghost n: int = x * y;
    let cap: u128 = 0x8000_0000_0000_0000;
    let (nh, nl) = mul_wide(x, y);
    let mut lo: u128 = 0;
    let mut hi: u128 = cap + 1;
    assert(0 * d == 0);
    assert(0 <= n) by (nonlinear_arith)
        requires
            n == x * y,
    ;
    while hi - lo > 1
        invariant
            lo < hi <= cap + 1,
            cap == 0x8000_0000_0000_0000,
            d > 0,
            wide_value(nh, nl) == n,
            lo * d <= n,
            hi <= cap ==> n < hi * d,
        decreases hi - lo,
    {
        let mid = lo + (hi - lo) / 2;
        let (ph, pl) = mul_wide(mid, d);
        if ph < nh || (ph == nh && pl <= nl) {
            lo = mid;
        } else {
            hi = mid;
        }
    }
    if lo == cap {
        proof {
            let q = n / (d as int);
            assert(q >= cap) by (nonlinear_arith)
                requires
                    q == n / (d as int),
                    n >= cap * d,
                    d > 0,
            ;
        }
        return cap;
    }
    let (ph, pl) = mul_wide(lo, d);
    let ghost r: int = n - lo * d;
    assert(r < d) by (nonlinear_arith)
        requires
            r == n - lo * d,
            n < (lo + 1) * d,
    ;
    let rest: u128 = if nh == ph {
        nl - pl
    } else {
        (u128::MAX - pl) + nl + 1
    };
    proof {
        assert(n == lo * d + r);
        lemma_fundamental_div_mod_converse(n, d as int, lo as int, r);
    }
    if rest >= d - rest {
        lo + 1
    } else {
        lo
    }
}

/// Computes [`mul_div`]: `a * b / c`, rounded and saturated, never failing.
pub fn scaled_mul_div(a: i128, b: i128, c: i128) -> (r: i64)
    ensures
        r == mul_div(a as int, b as int, c as int),
{
    proof {
        lemma_product_sign(a as int, b as int);
        lemma_product_magnitude(a as int, b as int);
    }
    if c == 0 {
        if a == 0 || b == 0 {
            0
        } else if (a < 0) != (b < 0) {
            i64::MIN
        } else {
            i64::MAX
        }
    } else {
        match a.checked_mul(b) {
            Some(product) => div_round(product, c),
            None => {
                let m = wide_quotient(magnitude_of(a), magnitude_of(b), magnitude_of(c));
                if ((a < 0) != (b < 0)) != (c < 0) {
                    if m >= 0x8000_0000_0000_0000u128 {
                        i64::MIN
                    } else {
                        -(m as i64)
                    }
                } else {
                    if m > 0x7fff_ffff_ffff_ffffu128 {
                        i64::MAX
                    } else {
                        m as i64
                    }
                }
            },
        }
    }
}

} // verus!
