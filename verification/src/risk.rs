//! Risk statistics over return and value series: correlation, standard
//! deviation, beta, Sharpe ratio and maximum drawdown.
//!
//! Where a formula would divide by zero the documented policy value is
//! returned instead: `0` for correlation and the Sharpe ratio, `1` for beta.

use vstd::prelude::*;
use crate::error::AttributionError;
use crate::fixed::{
    clamp128, clamp64, lemma_round_div_exact, mul_div, narrow, sat_mul, sat_sub, scaled_mul_div,
    SCALE,
};
use crate::roots::{floor_sqrt, lemma_floor_sqrt_of_square, sqrt_of_product};
use crate::vector::{
    centered_product_sum, exact_products, exact_sum, lemma_product_sum_exact, mean,
    negative_products, positive_products, prefix_sum, product_sum, seq_sum, vector_mean,
};

verus! {

/// `count * sum(a[i] * b[i]) - sum(a) * sum(b)`, each step saturated into
/// 128 bits. For `a == b` this is `count^2` times the population variance.
pub open spec fn cross_spread(a: Seq<i64>, b: Seq<i64>) -> int {
    clamp128(
        clamp128(a.len() * product_sum(a, 0, b, 0)) - clamp128(seq_sum(a) * seq_sum(b)),
    )
}

/// The denominator of the Pearson formula: the square root of the product
/// of the two spreads.
pub open spec fn correlation_denominator(x: Seq<i64>, y: Seq<i64>) -> int {
    floor_sqrt(cross_spread(x, x) * cross_spread(y, y))
}

/// The Pearson correlation of two series by the sum-of-products formula;
/// zero when the denominator is zero.
pub open spec fn correlation(x: Seq<i64>, y: Seq<i64>) -> int {
    let den = correlation_denominator(x, y);
    if den == 0 {
        0
    } else {
        mul_div(cross_spread(x, y), SCALE as int, den)
    }
}

/// The sum of squared deviations of `x` from its rounded mean.
pub open spec fn squared_deviations(x: Seq<i64>) -> int {
    product_sum(x, mean(x), x, mean(x))
}

/// The population standard deviation of a non-empty series: the integer
/// square root of the mean squared deviation.
pub open spec fn standard_deviation(x: Seq<i64>) -> int {
    clamp64(floor_sqrt(squared_deviations(x) / (x.len() as int)))
}

/// Covariance over benchmark variance; one when the benchmark does not vary.
pub open spec fn beta(portfolio: Seq<i64>, benchmark: Seq<i64>) -> int {
    let covariance = product_sum(portfolio, mean(portfolio), benchmark, mean(benchmark));
    let variance = squared_deviations(benchmark);
    if variance == 0 {
        SCALE as int
    } else {
        mul_div(covariance, SCALE as int, variance)
    }
}

/// Mean excess return over the standard deviation; zero when the series
/// does not vary.
pub open spec fn sharpe_ratio(series: Seq<i64>, risk_free_rate: int) -> int {
    let deviation = standard_deviation(series);
    if deviation == 0 {
        0
    } else {
        mul_div(mean(series) - risk_free_rate, SCALE as int, deviation)
    }
}

/// The highest value among `values[0..=t]`.
pub open spec fn running_peak(values: Seq<i64>, t: nat) -> int
    decreases t,
{
    if t == 0 {
        values[0] as int
    } else {
        let before = running_peak(values, (t - 1) as nat);
        if values[t as int] > before {
            values[t as int] as int
        } else {
            before
        }
    }
}

/// The decline at time `t` from the running peak, as a fraction of the peak.
pub open spec fn drawdown_at(values: Seq<i64>, t: nat) -> int {
    let peak = running_peak(values, t);
    mul_div(peak - values[t as int], SCALE as int, peak)
}

/// The largest drawdown over times `1..=t`, and zero if none is positive.
pub open spec fn max_drawdown_upto(values: Seq<i64>, t: nat) -> int
    decreases t,
{
    if t == 0 {
        0
    } else {
        let before = max_drawdown_upto(values, (t - 1) as nat);
        let here = drawdown_at(values, t);
        if here > before {
            here
        } else {
            before
        }
    }
}

/// The maximum drawdown of a non-empty value series.
pub open spec fn max_drawdown(values: Seq<i64>) -> int {
    max_drawdown_upto(values, (values.len() - 1) as nat)
}

/// Squares are never negative, so a series paired with itself has no
/// negative products.
pub proof fn lemma_squares_have_no_negative_part(x: Seq<i64>, c: int, k: nat)
    ensures
        negative_products(x, c, x, c, k) == 0,
        positive_products(x, c, x, c, k) >= 0,
    decreases k,
{
    if k > 0 {
        lemma_squares_have_no_negative_part(x, c, (k - 1) as nat);
        let d = x[k - 1] - c;
        assert(d * d >= 0) by (nonlinear_arith);
    }
}

/// The sum of squared deviations is never negative.
pub proof fn lemma_squared_deviations_nonnegative(x: Seq<i64>)
    ensures
        0 <= squared_deviations(x) <= i128::MAX,
{
    lemma_squares_have_no_negative_part(x, mean(x), x.len());
}

/// The squared deviations from any centre `c`, expanded:
/// `sum((x - c)^2) == sum(x^2) - 2 * c * sum(x) + k * c^2`.
pub proof fn lemma_squared_deviations_expanded(x: Seq<i64>, c: int, k: nat)
    requires
        k <= x.len(),
    ensures
        positive_products(x, c, x, c, k) == positive_products(x, 0, x, 0, k) - 2 * (c
            * prefix_sum(x, k)) + k * (c * c),
    decreases k,
{
    if k > 0 {
        let km = (k - 1) as nat;
        lemma_squared_deviations_expanded(x, c, km);
        let v = x[k - 1] as int;
        let q = positive_products(x, 0, x, 0, km);
        let s = prefix_sum(x, km);
        assert((v - c) * (v - c) >= 0) by (nonlinear_arith);
        assert((v - 0) * (v - 0) >= 0) by (nonlinear_arith);
        assert(q - 2 * (c * s) + km * (c * c) + (v - c) * (v - c) == q + (v - 0) * (v - 0) - 2 * (c
            * (s + v)) + k * (c * c)) by (nonlinear_arith)
            requires
                k == km + 1,
        ;
        assert(positive_products(x, c, x, c, k) == positive_products(x, c, x, c, km) + (v - c) * (v
            - c));
        assert(positive_products(x, 0, x, 0, k) == q + (v - 0) * (v - 0));
        assert(prefix_sum(x, k) == s + v);
    } else {
        assert(c * 0 == 0 && 0 * (c * c) == 0) by (nonlinear_arith);
    }
}

/// The Cauchy-Schwarz inequality for sums: the square of a sum of `k`
/// numbers is at most `k` times the sum of their squares.
pub proof fn lemma_square_of_sum(x: Seq<i64>, k: nat)
    requires
        k <= x.len(),
    ensures
        prefix_sum(x, k) * prefix_sum(x, k) <= k * positive_products(x, 0, x, 0, k),
    decreases k,
{
    if k > 0 {
        let km = (k - 1) as nat;
        lemma_square_of_sum(x, km);
        let v = x[k - 1] as int;
        let q = positive_products(x, 0, x, 0, km);
        let s = prefix_sum(x, km);
        lemma_squared_deviations_expanded(x, v, km);
        lemma_squares_have_no_negative_part(x, v, km);
        assert((v - 0) * (v - 0) == v * v && v * v >= 0) by (nonlinear_arith);
        assert((s + v) * (s + v) <= k * (q + v * v)) by (nonlinear_arith)
            requires
                k == km + 1,
                s * s <= km * q,
                q - 2 * (v * s) + km * (v * v) >= 0,
        ;
    } else {
        assert(0int * 0int == 0);
    }
}

/// The spread of a series against itself is never negative.
pub proof fn lemma_spread_nonnegative(x: Seq<i64>)
    ensures
        0 <= cross_spread(x, x),
{
    let n = x.len();
    let q = positive_products(x, 0, x, 0, n);
    let s = seq_sum(x);
    lemma_squares_have_no_negative_part(x, 0, n);
    lemma_square_of_sum(x, n);
    if q > i128::MAX {
        assert(n * (i128::MAX as int) >= i128::MAX) by (nonlinear_arith)
            requires
                n >= 1,
        ;
    }
}

/// While every intermediate value fits in 128 bits, the spread is the
/// exact value of `count * sum(a[i] * b[i]) - sum(a) * sum(b)`.
pub proof fn lemma_cross_spread_exact(a: Seq<i64>, b: Seq<i64>)
    requires
        positive_products(a, 0, b, 0, a.len()) <= i128::MAX,
        negative_products(a, 0, b, 0, a.len()) <= i128::MAX,
        i128::MIN <= a.len() * exact_products(a, 0, b, 0, a.len()) <= i128::MAX,
        i128::MIN <= seq_sum(a) * seq_sum(b) <= i128::MAX,
        i128::MIN <= a.len() * exact_products(a, 0, b, 0, a.len()) - seq_sum(a) * seq_sum(b)
            <= i128::MAX,
    ensures
        cross_spread(a, b) == a.len() * exact_products(a, 0, b, 0, a.len()) - seq_sum(a) * seq_sum(
            b,
        ),
{
    lemma_product_sum_exact(a, 0, b, 0);
}

/// Computes [`cross_spread`] from the sums it is made of.
fn spread_from_sums(count: usize, products: i128, sum_a: i128, sum_b: i128) -> (r: i128)
    ensures
        r == clamp128(clamp128(count * products) - clamp128(sum_a * sum_b)),
{
    sat_sub(sat_mul(count as i128, products), sat_mul(sum_a, sum_b))
}

/// The Pearson correlation coefficient of two index-aligned series, or
/// `LengthMismatch` when their lengths differ. Series without spread
/// (constant or empty) have correlation zero.
pub fn calculate_correlation(returns1: &[i64], returns2: &[i64]) -> (r: Result<
    i64,
    AttributionError,
>)
    ensures
        match r {
            Ok(v) => returns1.len() == returns2.len() && v == correlation(returns1@, returns2@),
            Err(e) => returns1.len() != returns2.len() && e == AttributionError::LengthMismatch,
        },
{
    if returns1.len() != returns2.len() {
        return Err(AttributionError::LengthMismatch);
    }
    let n = returns1.len();
    let sum1 = exact_sum(returns1);
    let sum2 = exact_sum(returns2);
    let numerator = spread_from_sums(n, centered_product_sum(returns1, 0, returns2, 0), sum1, sum2);
    let spread1 = spread_from_sums(n, centered_product_sum(returns1, 0, returns1, 0), sum1, sum1);
    let spread2 = spread_from_sums(n, centered_product_sum(returns2, 0, returns2, 0), sum2, sum2);
    proof {
        lemma_spread_nonnegative(returns1@);
        lemma_spread_nonnegative(returns2@);
    }
    let denominator = sqrt_of_product(spread1, spread2);
    if denominator == 0 {
        return Ok(0);
    }
    Ok(scaled_mul_div(numerator, SCALE as i128, denominator))
}

/// Computes [`standard_deviation`] of a non-empty series.
fn deviation_of(series: &[i64]) -> (r: i64)
    requires
        series.len() > 0,
    ensures
        r == standard_deviation(series@),
{
    let center = vector_mean(series);
    let squares = centered_product_sum(series, center, series, center);
    proof {
        lemma_squared_deviations_nonnegative(series@);
    }
    let variance = squares / (series.len() as i128);
    assert(variance >= 0) by (nonlinear_arith)
        requires
            variance == squares as int / (series.len() as int),
            squares >= 0,
            series.len() > 0,
    ;
    assert(variance * 1 == variance);
    narrow(sqrt_of_product(variance, 1))
}

/// The population standard deviation of a series (no Bessel correction),
/// or `EmptySeries` when there is nothing to measure.
pub fn calculate_standard_deviation(series: &[i64]) -> (r: Result<i64, AttributionError>)
    ensures
        match r {
            Ok(v) => series.len() > 0 && v == standard_deviation(series@),
            Err(e) => series.len() == 0 && e == AttributionError::EmptySeries,
        },
{
    if series.len() == 0 {
        return Err(AttributionError::EmptySeries);
    }
    Ok(deviation_of(series))
}

/// The beta of a portfolio against a benchmark: covariance over benchmark
/// variance, `LengthMismatch` when the series differ in length, and exactly
/// one when the benchmark has no variance.
pub fn calculate_beta(portfolio_returns: &[i64], benchmark_returns: &[i64]) -> (r: Result<
    i64,
    AttributionError,
>)
    ensures
        match r {
            Ok(v) => portfolio_returns.len() == benchmark_returns.len() && v == beta(
                portfolio_returns@,
                benchmark_returns@,
            ),
            Err(e) => portfolio_returns.len() != benchmark_returns.len() && e
                == AttributionError::LengthMismatch,
        },
{
    if portfolio_returns.len() != benchmark_returns.len() {
        return Err(AttributionError::LengthMismatch);
    }
    let portfolio_mean = vector_mean(portfolio_returns);
    let benchmark_mean = vector_mean(benchmark_returns);
    let covariance = centered_product_sum(
        portfolio_returns,
        portfolio_mean,
        benchmark_returns,
        benchmark_mean,
    );
    let variance = centered_product_sum(
        benchmark_returns,
        benchmark_mean,
        benchmark_returns,
        benchmark_mean,
    );
    if variance == 0 {
        return Ok(SCALE);
    }
    Ok(scaled_mul_div(covariance, SCALE as i128, variance))
}

/// The Sharpe ratio of a return series against a risk-free rate, zero when
/// the series do not vary, or `EmptySeries` for an empty series.
pub fn calculate_sharpe_ratio(series: &[i64], risk_free_rate: i64) -> (r: Result<
    i64,
    AttributionError,
>)
    ensures
        match r {
            Ok(v) => series.len() > 0 && v == sharpe_ratio(series@, risk_free_rate as int),
            Err(e) => series.len() == 0 && e == AttributionError::EmptySeries,
        },
{
    if series.len() == 0 {
        return Err(AttributionError::EmptySeries);
    }
    let deviation = deviation_of(series);
    if deviation == 0 {
        return Ok(0);
    }
    let excess: i128 = vector_mean(series) as i128 - risk_free_rate as i128;
    Ok(scaled_mul_div(excess, SCALE as i128, deviation as i128))
}

/// The maximum drawdown of a value series: the largest decline from a
/// running peak, as a fraction of that peak, in one forward pass.
/// `EmptySeries` when there is no first value to start from.
pub fn calculate_max_drawdown(values: &[i64]) -> (r: Result<i64, AttributionError>)
    ensures
        match r {
            Ok(v) => values.len() > 0 && v == max_drawdown(values@),
            Err(e) => values.len() == 0 && e == AttributionError::EmptySeries,
        },
{
    if values.len() == 0 {
        return Err(AttributionError::EmptySeries);
    }
    let mut peak: i64 = values[0];
    let mut worst: i64 = 0;
    let mut i: usize = 1;
    while i < values.len()
        invariant
            1 <= i <= values.len(),
            peak == running_peak(values@, (i - 1) as nat),
            worst == max_drawdown_upto(values@, (i - 1) as nat),
        decreases values.len() - i,
    {
        let current = values[i];
        if current > peak {
            peak = current;
        }
        let drawdown = scaled_mul_div(peak as i128 - current as i128, SCALE as i128, peak as i128);
        assert(drawdown == drawdown_at(values@, i as nat));
        if drawdown > worst {
            worst = drawdown;
        }
        i = i + 1;
    }
    Ok(worst)
}

/// The running peak is the maximum of the values seen so far.
pub proof fn lemma_running_peak_is_maximum(values: Seq<i64>, t: nat)
    requires
        t < values.len(),
    ensures
        forall|s: int| 0 <= s <= t ==> #[trigger] values[s] <= running_peak(values, t),
        exists|s: int| 0 <= s <= t && #[trigger] values[s] == running_peak(values, t),
    decreases t,
{
    if t > 0 {
        lemma_running_peak_is_maximum(values, (t - 1) as nat);
        let before = running_peak(values, (t - 1) as nat);
        let s0 = choose|s: int| 0 <= s <= t - 1 && #[trigger] values[s] == before;
        if values[t as int] > before {
            assert(values[t as int] == running_peak(values, t));
        } else {
            assert(values[s0] == running_peak(values, t));
        }
    } else {
        assert(values[0] == running_peak(values, 0));
    }
}

/// The maximum drawdown is never negative, no drawdown exceeds it, and
/// unless it is zero it is the drawdown at some time.
pub proof fn lemma_max_drawdown_is_maximum(values: Seq<i64>, t: nat)
    requires
        t < values.len(),
    ensures
        0 <= max_drawdown_upto(values, t),
        forall|s: nat| 1 <= s <= t ==> #[trigger] drawdown_at(values, s) <= max_drawdown_upto(values, t),
        max_drawdown_upto(values, t) == 0 || exists|s: nat|
            1 <= s <= t && #[trigger] drawdown_at(values, s) == max_drawdown_upto(values, t),
    decreases t,
{
    if t > 0 {
        lemma_max_drawdown_is_maximum(values, (t - 1) as nat);
        let before = max_drawdown_upto(values, (t - 1) as nat);
        if drawdown_at(values, t) > before {
            assert(drawdown_at(values, t) == max_drawdown_upto(values, t));
        } else if before != 0 {
            let s0 = choose|s: nat|
                1 <= s <= t - 1 && #[trigger] drawdown_at(values, s) == before;
            assert(drawdown_at(values, s0) == max_drawdown_upto(values, t));
        }
    }
}

/// A series that never falls has no drawdown.
pub proof fn lemma_rising_series_has_no_drawdown(values: Seq<i64>)
    requires
        values.len() > 0,
        forall|i: int, j: int| 0 <= i <= j < values.len() ==> values[i] <= values[j],
    ensures
        max_drawdown(values) == 0,
{
    lemma_no_drawdown_upto(values, (values.len() - 1) as nat);
}

/// In a series that never falls, the running peak is the current value and
/// no drawdown has been seen up to time `t`.
pub proof fn lemma_no_drawdown_upto(values: Seq<i64>, t: nat)
    requires
        t < values.len(),
        forall|i: int, j: int| 0 <= i <= j < values.len() ==> values[i] <= values[j],
    ensures
        running_peak(values, t) == values[t as int],
        max_drawdown_upto(values, t) == 0,
    decreases t,
{
    if t > 0 {
        lemma_no_drawdown_upto(values, (t - 1) as nat);
        let peak = values[t as int] as int;
        assert(values[t - 1] <= values[t as int]);
        assert(running_peak(values, t) == peak);
        assert(0 * (SCALE as int) == 0);
        if peak != 0 {
            lemma_round_div_exact(0, peak);
            assert(0 * peak == 0);
        }
        assert(drawdown_at(values, t) == 0);
    }
}

/// The sum of `k` copies of `c` is `k * c`, and a constant series has no
/// deviation from `c`.
pub proof fn lemma_constant_prefix(x: Seq<i64>, c: int, k: nat)
    requires
        k <= x.len(),
        forall|i: int| 0 <= i < x.len() ==> x[i] == c,
    ensures
        prefix_sum(x, k) == k * c,
        positive_products(x, c, x, c, k) == 0,
        negative_products(x, c, x, c, k) == 0,
    decreases k,
{
    if k > 0 {
        lemma_constant_prefix(x, c, (k - 1) as nat);
        assert(prefix_sum(x, k) == (k - 1) * c + c);
        assert((k - 1) * c + c == k * c) by (nonlinear_arith);
        assert((x[k - 1] - c) * (x[k - 1] - c) == 0) by (nonlinear_arith)
            requires
                x[k - 1] - c == 0,
        ;
    }
}

/// A constant series has standard deviation zero, and so its Sharpe ratio
/// is zero against every risk-free rate.
pub proof fn lemma_constant_series_has_no_deviation(x: Seq<i64>, risk_free_rate: int)
    requires
        x.len() > 0,
        forall|i: int| 0 <= i < x.len() ==> #[trigger] x[i] == x[0],
    ensures
        mean(x) == x[0],
        standard_deviation(x) == 0,
        sharpe_ratio(x, risk_free_rate) == 0,
{
    let c = x[0] as int;
    let n = x.len() as int;
    lemma_constant_prefix(x, c, x.len());
    assert(n * c == c * n) by (nonlinear_arith);
    lemma_round_div_exact(c, n);
    assert(mean(x) == c);
    assert(squared_deviations(x) == 0);
    assert(0int / n == 0) by (nonlinear_arith)
        requires
            n > 0,
    ;
    lemma_floor_sqrt_of_square(0);
    assert(0int * 0int == 0);
}

/// A series with spread correlates perfectly with itself.
pub proof fn lemma_correlation_of_self(x: Seq<i64>)
    requires
        cross_spread(x, x) != 0,
    ensures
        correlation(x, x) == SCALE,
{
    let spread = cross_spread(x, x);
    lemma_spread_nonnegative(x);
    lemma_floor_sqrt_of_square(spread);
    assert(spread * SCALE == SCALE * spread) by (nonlinear_arith);
    lemma_round_div_exact(SCALE as int, spread);
}

/// A series measured against itself has beta one.
pub proof fn lemma_beta_of_self(x: Seq<i64>)
    ensures
        beta(x, x) == SCALE,
{
    let v = squared_deviations(x);
    if v != 0 {
        assert(v * SCALE == SCALE * v) by (nonlinear_arith);
        lemma_round_div_exact(SCALE as int, v);
    }
}

} // verus!
