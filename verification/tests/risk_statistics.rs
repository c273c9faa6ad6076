use attribution::{
    calculate_beta, calculate_correlation, calculate_max_drawdown, calculate_sharpe_ratio,
    calculate_standard_deviation, AttributionError, SCALE,
};

fn units(values: &[f64]) -> Vec<i64> {
    values.iter().map(|v| (v * SCALE as f64).round() as i64).collect()
}

#[test]
fn max_drawdown_of_rising_series_is_zero() {
    assert_eq!(calculate_max_drawdown(&units(&[1.0, 2.0, 3.0])), Ok(0));
    assert_eq!(calculate_max_drawdown(&units(&[5.0, 5.0, 5.0, 8.0])), Ok(0));
    assert_eq!(calculate_max_drawdown(&[i64::MIN, -3, 0, 0, 7, i64::MAX]), Ok(0));
    assert_eq!(calculate_max_drawdown(&units(&[42.0])), Ok(0));
}

#[test]
fn max_drawdown_of_a_halving_is_one_half() {
    assert_eq!(calculate_max_drawdown(&units(&[100.0, 50.0])), Ok(500_000));
}

#[test]
fn max_drawdown_tracks_the_running_peak() {
    // Peak 150, trough 75: a decline of one half; the earlier 120 -> 90 is a quarter.
    assert_eq!(
        calculate_max_drawdown(&units(&[100.0, 120.0, 90.0, 150.0, 75.0])),
        Ok(500_000)
    );
    assert_eq!(
        calculate_max_drawdown(&units(&[100.0, 120.0, 90.0, 150.0, 140.0])),
        Ok(250_000)
    );
}

#[test]
fn max_drawdown_rejects_empty_series() {
    assert_eq!(calculate_max_drawdown(&[]), Err(AttributionError::EmptySeries));
}

#[test]
fn max_drawdown_from_a_zero_peak_saturates() {
    assert_eq!(calculate_max_drawdown(&units(&[0.0, -5.0])), Ok(i64::MAX));
    assert_eq!(calculate_max_drawdown(&units(&[0.0, 0.0])), Ok(0));
}

#[test]
fn max_drawdown_below_a_negative_peak_is_not_counted() {
    assert_eq!(calculate_max_drawdown(&units(&[-10.0, -20.0])), Ok(0));
}

#[test]
fn standard_deviation_of_constant_series_is_zero() {
    assert_eq!(calculate_standard_deviation(&units(&[5.0, 5.0, 5.0, 5.0])), Ok(0));
    assert_eq!(calculate_standard_deviation(&[i64::MAX, i64::MAX]), Ok(0));
    assert_eq!(calculate_standard_deviation(&[-3]), Ok(0));
}

#[test]
fn standard_deviation_is_the_population_formula() {
    // Mean 5, squared deviations sum to 32, variance 4.
    assert_eq!(
        calculate_standard_deviation(&units(&[2.0, 4.0, 4.0, 4.0, 5.0, 5.0, 7.0, 9.0])),
        Ok(2_000_000)
    );
    // Population, not sample: sqrt(0.25), not sqrt(0.5).
    assert_eq!(calculate_standard_deviation(&units(&[1.0, 2.0])), Ok(500_000));
    assert_eq!(
        calculate_standard_deviation(&units(&[0.01, 0.02, -0.01])),
        Ok(12_472)
    );
}

#[test]
fn standard_deviation_rejects_empty_series() {
    assert_eq!(
        calculate_standard_deviation(&[]),
        Err(AttributionError::EmptySeries)
    );
}

#[test]
fn sharpe_ratio_of_constant_series_is_zero() {
    let series = units(&[5.0, 5.0, 5.0, 5.0]);
    for rate in [0, SCALE, -SCALE, 5 * SCALE, 123_456_789, i64::MAX, i64::MIN] {
        assert_eq!(calculate_sharpe_ratio(&series, rate), Ok(0));
    }
}

#[test]
fn sharpe_ratio_is_excess_mean_over_deviation() {
    // (5 - 1) / 2
    assert_eq!(
        calculate_sharpe_ratio(&units(&[2.0, 4.0, 4.0, 4.0, 5.0, 5.0, 7.0, 9.0]), SCALE),
        Ok(2_000_000)
    );
    // (0.02 - 0.005) / 0.01
    assert_eq!(
        calculate_sharpe_ratio(&units(&[0.01, 0.03]), 5_000),
        Ok(1_500_000)
    );
    // (5 - 7) / 2
    assert_eq!(
        calculate_sharpe_ratio(&units(&[2.0, 4.0, 4.0, 4.0, 5.0, 5.0, 7.0, 9.0]), 7 * SCALE),
        Ok(-1_000_000)
    );
}

#[test]
fn sharpe_ratio_rejects_empty_series() {
    assert_eq!(
        calculate_sharpe_ratio(&[], 0),
        Err(AttributionError::EmptySeries)
    );
}

#[test]
fn beta_of_a_series_against_itself_is_one() {
    assert_eq!(
        calculate_beta(&units(&[1.0, 2.0, 3.0, 4.0]), &units(&[1.0, 2.0, 3.0, 4.0])),
        Ok(SCALE)
    );
    let series = units(&[0.013, -0.02, 0.007, 0.031, -0.004]);
    assert_eq!(calculate_beta(&series, &series), Ok(SCALE));
    let wide = vec![-4_000_000_000_000_000, 4_000_000_000_000_000, 17];
    assert_eq!(calculate_beta(&wide, &wide), Ok(SCALE));
}

#[test]
fn beta_is_covariance_over_benchmark_variance() {
    assert_eq!(
        calculate_beta(&units(&[2.0, 4.0, 6.0, 8.0]), &units(&[1.0, 2.0, 3.0, 4.0])),
        Ok(2_000_000)
    );
    assert_eq!(
        calculate_beta(&units(&[3.0, 1.0, 2.0]), &units(&[1.0, 2.0, 3.0])),
        Ok(-500_000)
    );
}

#[test]
fn beta_against_a_constant_benchmark_is_one() {
    assert_eq!(
        calculate_beta(&units(&[1.0, 2.0, 3.0]), &units(&[5.0, 5.0, 5.0])),
        Ok(SCALE)
    );
    assert_eq!(calculate_beta(&[], &[]), Ok(SCALE));
}

#[test]
fn beta_rejects_unequal_lengths() {
    assert_eq!(
        calculate_beta(&[1, 2, 3], &[1, 2]),
        Err(AttributionError::LengthMismatch)
    );
}

#[test]
fn correlation_of_proportional_series_is_one() {
    assert_eq!(
        calculate_correlation(
            &units(&[1.0, 2.0, 3.0, 4.0, 5.0]),
            &units(&[2.0, 4.0, 6.0, 8.0, 10.0])
        ),
        Ok(SCALE)
    );
    let series = units(&[0.013, -0.02, 0.007, 0.031, -0.004]);
    assert_eq!(calculate_correlation(&series, &series), Ok(SCALE));
    assert_eq!(calculate_correlation(&[0, 1, 1], &[0, 1, 1]), Ok(SCALE));
}

#[test]
fn correlation_of_opposed_series_is_minus_one() {
    assert_eq!(
        calculate_correlation(&units(&[1.0, 2.0, 3.0]), &units(&[3.0, 2.0, 1.0])),
        Ok(-SCALE)
    );
}

#[test]
fn correlation_by_the_sum_of_products_formula() {
    // n = 4: numerator 16, both spreads 20, so 16 / 20.
    assert_eq!(
        calculate_correlation(&units(&[1.0, 2.0, 3.0, 4.0]), &units(&[1.0, 3.0, 2.0, 4.0])),
        Ok(800_000)
    );
    assert_eq!(
        calculate_correlation(
            &units(&[0.01, 0.02, 0.015, -0.01]),
            &units(&[0.02, 0.01, 0.03, -0.02])
        ),
        Ok(821_401)
    );
}

#[test]
fn correlation_with_a_constant_series_is_zero() {
    assert_eq!(
        calculate_correlation(&units(&[1.0, 2.0, 3.0]), &units(&[7.0, 7.0, 7.0])),
        Ok(0)
    );
    assert_eq!(calculate_correlation(&[], &[]), Ok(0));
    assert_eq!(calculate_correlation(&[5], &[9]), Ok(0));
}

#[test]
fn correlation_rejects_unequal_lengths() {
    assert_eq!(
        calculate_correlation(&[1, 2, 3], &[1, 2]),
        Err(AttributionError::LengthMismatch)
    );
}

#[test]
fn statistics_of_extreme_values() {
    let wide = [i64::MIN, i64::MAX];
    assert_eq!(calculate_beta(&wide, &wide), Ok(SCALE));
    assert_eq!(calculate_correlation(&wide, &wide), Ok(SCALE));
    assert_eq!(
        calculate_beta(&[i64::MIN, i64::MAX, 0], &[i64::MAX, i64::MIN, 0]),
        Ok(-SCALE)
    );
    assert_eq!(
        calculate_correlation(&[i64::MIN, i64::MAX, 0], &[i64::MAX, i64::MIN, 0]),
        Ok(-SCALE)
    );
    assert_eq!(calculate_standard_deviation(&wide), Ok(i64::MAX));
    assert_eq!(calculate_sharpe_ratio(&wide, 0), Ok(0));
}
