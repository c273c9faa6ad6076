//! Reductions over series: sums, means, sums of products, exponential
//! smoothing.

use vstd::prelude::*;
use crate::error::AttributionError;
use crate::fixed::{
    clamp64, div_round, lemma_clamp_absorbed, lemma_product_bound, lemma_product_sign,
    lemma_round_div_exact, lemma_round_div_monotone, narrow, round_div, sat_add, SCALE,
};

verus! {

/// The exact sum of the first `k` elements of `s`.
pub open spec fn prefix_sum(s: Seq<i64>, k: nat) -> int
    decreases k,
{
    if k == 0 {
        0
    } else {
        prefix_sum(s, (k - 1) as nat) + s[k - 1]
    }
}

/// The exact sum of all elements of `s`.
pub open spec fn seq_sum(s: Seq<i64>) -> int {
    prefix_sum(s, s.len())
}

/// The arithmetic mean of `s`, rounded to the nearest raw unit; the mean
/// of the empty series is zero.
pub open spec fn mean(s: Seq<i64>) -> int {
    if s.len() == 0 {
        0
    } else {
        round_div(seq_sum(s), s.len() as int)
    }
}

/// `x` if it is positive, else zero.
pub open spec fn positive_part(x: int) -> int {
    if x > 0 {
        x
    } else {
        0
    }
}

/// The `i`-th centred product `(a[i] - ca) * (b[i] - cb)`.
pub open spec fn product_term(a: Seq<i64>, ca: int, b: Seq<i64>, cb: int, i: int) -> int {
    (a[i] - ca) * (b[i] - cb)
}

/// The sum of the positive terms among the first `k` centred products.
pub open spec fn positive_products(a: Seq<i64>, ca: int, b: Seq<i64>, cb: int, k: nat) -> int
    decreases k,
{
    if k == 0 {
        0
    } else {
        positive_products(a, ca, b, cb, (k - 1) as nat) + positive_part(
            product_term(a, ca, b, cb, k - 1),
        )
    }
}

/// The sum of the absolute values of the negative terms among the first `k`
/// centred products.
pub open spec fn negative_products(a: Seq<i64>, ca: int, b: Seq<i64>, cb: int, k: nat) -> int
    decreases k,
{
    if k == 0 {
        0
    } else {
        negative_products(a, ca, b, cb, (k - 1) as nat) + positive_part(
            -product_term(a, ca, b, cb, k - 1),
        )
    }
}

/// The exact sum of the first `k` centred products.
pub open spec fn exact_products(a: Seq<i64>, ca: int, b: Seq<i64>, cb: int, k: nat) -> int
    decreases k,
{
    if k == 0 {
        0
    } else {
        exact_products(a, ca, b, cb, (k - 1) as nat) + product_term(a, ca, b, cb, k - 1)
    }
}

/// A non-negative total capped at the largest 128-bit integer.
pub open spec fn capped(x: int) -> int {
    if x > i128::MAX {
        i128::MAX as int
    } else {
        x
    }
}

/// The sum over `i` of `(a[i] - ca) * (b[i] - cb)` as the library computes
/// it: positive and negative terms are totalled separately and each total is
/// capped at `i128::MAX`. See [`lemma_product_sum_exact`] for when this is
/// the exact sum.
pub open spec fn product_sum(a: Seq<i64>, ca: int, b: Seq<i64>, cb: int) -> int {
    capped(positive_products(a, ca, b, cb, a.len())) - capped(
        negative_products(a, ca, b, cb, a.len()),
    )
}

/// The dot product of two raw series as a fixed-point number.
pub open spec fn dot_product(a: Seq<i64>, b: Seq<i64>) -> int {
    clamp64(round_div(product_sum(a, 0, b, 0), SCALE as int))
}

/// One smoothing step: `alpha * value + (1 - alpha) * prev`.
pub open spec fn ema_step(alpha: int, value: int, prev: int) -> int {
    clamp64(round_div(alpha * value + (SCALE - alpha) * prev, SCALE as int))
}

/// Element `i` of the exponential moving average of `values`.
pub open spec fn ema_at(values: Seq<i64>, alpha: int, i: nat) -> int
    decreases i,
{
    if i == 0 {
        values[0] as int
    } else {
        ema_step(alpha, values[i as int] as int, ema_at(values, alpha, (i - 1) as nat))
    }
}

/// A sum of `k` 64-bit numbers lies within `k` times the 64-bit range.
pub proof fn lemma_prefix_sum_bounds(s: Seq<i64>, k: nat)
    requires
        k <= s.len(),
    ensures
        k * i64::MIN <= prefix_sum(s, k) <= k * i64::MAX,
    decreases k,
{
    if k > 0 {
        lemma_prefix_sum_bounds(s, (k - 1) as nat);
    }
}

/// The mean of 64-bit numbers is a 64-bit number.
pub proof fn lemma_mean_fits(s: Seq<i64>)
    ensures
        i64::MIN <= mean(s) <= i64::MAX,
{
    if s.len() > 0 {
        let n = s.len() as int;
        let low = i64::MIN as int;
        let high = i64::MAX as int;
        lemma_prefix_sum_bounds(s, s.len());
        assert(n * low == low * n && n * high == high * n) by (nonlinear_arith);
        lemma_round_div_exact(low, n);
        lemma_round_div_exact(high, n);
        lemma_round_div_monotone(low * n, seq_sum(s), n);
        lemma_round_div_monotone(seq_sum(s), high * n, n);
    }
}

/// The totals of positive and of negative products are non-negative and
/// differ by the exact sum.
pub proof fn lemma_products_split(a: Seq<i64>, ca: int, b: Seq<i64>, cb: int, k: nat)
    ensures
        positive_products(a, ca, b, cb, k) >= 0,
        negative_products(a, ca, b, cb, k) >= 0,
        positive_products(a, ca, b, cb, k) - negative_products(a, ca, b, cb, k) == exact_products(
            a,
            ca,
            b,
            cb,
            k,
        ),
    decreases k,
{
    if k > 0 {
        lemma_products_split(a, ca, b, cb, (k - 1) as nat);
    }
}

/// While neither the positive nor the negative terms total more than
/// `i128::MAX`, [`product_sum`] is the exact sum of the centred products.
pub proof fn lemma_product_sum_exact(a: Seq<i64>, ca: int, b: Seq<i64>, cb: int)
    requires
        positive_products(a, ca, b, cb, a.len()) <= i128::MAX,
        negative_products(a, ca, b, cb, a.len()) <= i128::MAX,
    ensures
        product_sum(a, ca, b, cb) == exact_products(a, ca, b, cb, a.len()),
{
    lemma_products_split(a, ca, b, cb, a.len());
}

/// The exact sum of a series; 128 bits hold the sum of any series.
pub fn exact_sum(values: &[i64]) -> (r: i128)
    ensures
        r == seq_sum(values@),
{
    let mut acc: i128 = 0;
    let mut i: usize = 0;
    while i < values.len()
        invariant
            i <= values.len(),
            acc == prefix_sum(values@, i as nat),
            i * i64::MIN <= acc <= i * i64::MAX,
        decreases values.len() - i,
    {
        acc = acc + values[i] as i128;
        i = i + 1;
    }
    acc
}

/// The sum of a series, saturated into `i64`.
pub fn vector_sum(values: &[i64]) -> (r: i64)
    ensures
        r == clamp64(seq_sum(values@)),
{
    narrow(exact_sum(values))
}

/// The mean of a series, rounded to the nearest raw unit. The mean of the
/// empty series is zero.
pub fn vector_mean(values: &[i64]) -> (r: i64)
    ensures
        r == mean(values@),
{
    if values.len() == 0 {
        0
    } else {
        proof {
            lemma_mean_fits(values@);
        }
        div_round(exact_sum(values), values.len() as i128)
    }
}

/// Adds a non-negative term to a capped total.
fn add_capped(total: i128, term: i128, Ghost(exact): Ghost<int>) -> (r: i128)
    requires
        0 <= term,
        0 <= exact,
        total == capped(exact),
    ensures
        r == capped(exact + term),
{
    match total.checked_add(term) {
        Some(s) => s,
        None => i128::MAX,
    }
}

/// Computes [`product_sum`] for two series of equal length.
pub fn centered_product_sum(a: &[i64], ca: i64, b: &[i64], cb: i64) -> (r: i128)
    requires
        a.len() == b.len(),
    ensures
        r == product_sum(a@, ca as int, b@, cb as int),
{
    let mut pos: i128 = 0;
    let mut neg: i128 = 0;
    let mut i: usize = 0;
    while i < a.len()
        invariant
            i <= a.len(),
            a.len() == b.len(),
            0 <= pos,
            0 <= neg,
            pos == capped(positive_products(a@, ca as int, b@, cb as int, i as nat)),
            neg == capped(negative_products(a@, ca as int, b@, cb as int, i as nat)),
        decreases a.len() - i,
    {
        let da: i128 = a[i] as i128 - ca as i128;
        let db: i128 = b[i] as i128 - cb as i128;
        proof {
            lemma_products_split(a@, ca as int, b@, cb as int, i as nat);
            lemma_product_sign(da as int, db as int);
        }
        let ghost p = positive_products(a@, ca as int, b@, cb as int, i as nat);
        let ghost n = negative_products(a@, ca as int, b@, cb as int, i as nat);
        match da.checked_mul(db) {
            Some(t) => {
                if t > 0 {
                    pos = add_capped(pos, t, Ghost(p));
                } else if t == i128::MIN {
                    neg = i128::MAX;
                } else {
                    neg = add_capped(neg, -t, Ghost(n));
                }
            },
            None => {
                if (da < 0) != (db < 0) {
                    neg = i128::MAX;
                } else {
                    pos = i128::MAX;
                }
            },
        }
        i = i + 1;
    }
    pos - neg
}

/// The dot product of two index-aligned series, or `LengthMismatch` when
/// their lengths differ.
pub fn vector_dot_product(a: &[i64], b: &[i64]) -> (r: Result<i64, AttributionError>)
    ensures
        match r {
            Ok(v) => a.len() == b.len() && v == dot_product(a@, b@),
            Err(e) => a.len() != b.len() && e == AttributionError::LengthMismatch,
        },
{
    if a.len() != b.len() {
        return Err(AttributionError::LengthMismatch);
    }
    Ok(div_round(centered_product_sum(a, 0, b, 0), SCALE as i128))
}

/// The exponential moving average of `values` with smoothing weight
/// `alpha`: the first element is copied, and each later element blends the
/// new value with the previous average. The result has the length of the
/// input.
pub fn exponential_moving_average(values: &[i64], alpha: i64) -> (out: Vec<i64>)
    ensures
        out.len() == values.len(),
        forall|i: int| 0 <= i < out.len() ==> #[trigger] out[i] == ema_at(values@, alpha as int, i as nat),
{
    let mut out: Vec<i64> = Vec::new();
    if values.len() == 0 {
        return out;
    }
    out.push(values[0]);
    let mut i: usize = 1;
    while i < values.len()
        invariant
            1 <= i <= values.len(),
            out.len() == i,
            forall|j: int| 0 <= j < i ==> #[trigger] out[j] == ema_at(values@, alpha as int, j as nat),
        decreases values.len() - i,
    {
        let prev = out[i - 1];
        let next = smooth(alpha, values[i], prev);
        proof {
            let j: int = i - 1;
            assert(out[j] == ema_at(values@, alpha as int, j as nat));
            assert(next == ema_at(values@, alpha as int, i as nat));
        }
        out.push(next);
        i = i + 1;
    }
    out
}

/// Computes [`ema_step`].
fn smooth(alpha: i64, value: i64, prev: i64) -> (r: i64)
    ensures
        r == ema_step(alpha as int, value as int, prev as int),
{
    let rest: i128 = SCALE as i128 - alpha as i128;
    proof {
        lemma_product_bound(
            alpha as int,
            value as int,
            0x8000_0000_0000_0000,
            0x8000_0000_0000_0000,
        );
        lemma_product_bound(
            rest as int,
            prev as int,
            0x8000_0000_0010_0000,
            0x8000_0000_0000_0000,
        );
    }
    let fresh: i128 = alpha as i128 * value as i128;
    let kept: i128 = rest * prev as i128;
    proof {
        lemma_clamp_absorbed(fresh + kept, SCALE as int);
    }
    div_round(sat_add(fresh, kept), SCALE as i128)
}

/// A series of one element is its own moving average, whatever the weight.
pub proof fn lemma_ema_of_single(values: Seq<i64>, alpha: int)
    requires
        values.len() == 1,
    ensures
        ema_at(values, alpha, 0) == values[0],
{
}

/// With a weight of one (`SCALE`) nothing is smoothed: the moving average
/// is the series itself.
pub proof fn lemma_ema_weight_one(values: Seq<i64>, i: nat)
    requires
        i < values.len(),
    ensures
        ema_at(values, SCALE as int, i) == values[i as int],
    decreases i,
{
    if i > 0 {
        lemma_ema_weight_one(values, (i - 1) as nat);
        let v = values[i as int] as int;
        let prev = ema_at(values, SCALE as int, (i - 1) as nat);
        assert((SCALE - SCALE) * prev == 0) by (nonlinear_arith);
        assert(SCALE * v == v * SCALE) by (nonlinear_arith);
        lemma_round_div_exact(v, SCALE as int);
    }
}

} // verus!
