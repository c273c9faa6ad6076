use attribution::brinson::{HUNDREDTH, PRODUCT_HUNDREDTH};
use attribution::holdings::RECORD_FIELDS;
use attribution::{
    calculate_brinson_fachler, calculate_holding_attribution, calculate_sector_attribution,
    AttributionError, BrinsonFachler, ALLOCATION_SCALING, HUNDRED, SCALE,
};

fn units(values: &[f64]) -> Vec<i64> {
    values.iter().map(|v| (v * SCALE as f64).round() as i64).collect()
}

fn as_float(raw: i64) -> f64 {
    raw as f64 / SCALE as f64
}

#[test]
fn two_holdings_end_to_end() {
    let out = calculate_holding_attribution(
        &units(&[600.0, 400.0]),
        &units(&[100.0, 100.0]),
        &units(&[120.0, 90.0]),
        5 * SCALE,
    )
    .unwrap();
    assert_eq!(
        out,
        vec![
            60_000_000, 20_000_000, 12_000_000, 240_000_000, 500_000_000, 600_000_000,
            40_000_000, -10_000_000, -4_000_000, -80_000_000, 444_444_444, 400_000_000,
        ]
    );
    assert_eq!(as_float(out[0]), 60.0);
    assert_eq!(as_float(out[1]), 20.0);
    assert_eq!(as_float(out[2]), 12.0);
    assert_eq!(as_float(out[4]), 500.0);
    assert_eq!(as_float(out[6]), 40.0);
    assert_eq!(as_float(out[7]), -10.0);
    assert_eq!(as_float(out[8]), -4.0);
    assert!((as_float(out[10]) - 444.44).abs() < 0.005);
}

#[test]
fn no_holdings_give_an_empty_result() {
    assert_eq!(calculate_holding_attribution(&[], &[], &[], SCALE), Ok(vec![]));
}

#[test]
fn holdings_result_has_six_fields_per_holding() {
    assert_eq!(RECORD_FIELDS, 6);
    for n in 0..20usize {
        let values: Vec<i64> = (0..n as i64).map(|i| (i + 1) * SCALE).collect();
        let out = calculate_holding_attribution(&values, &values, &values, SCALE).unwrap();
        assert_eq!(out.len(), RECORD_FIELDS * n);
    }
}

#[test]
fn holdings_reject_unequal_lengths() {
    assert_eq!(
        calculate_holding_attribution(&[1, 2], &[1], &[1, 2], SCALE),
        Err(AttributionError::LengthMismatch)
    );
    assert_eq!(
        calculate_holding_attribution(&[1, 2], &[1, 2], &[1, 2, 3], SCALE),
        Err(AttributionError::LengthMismatch)
    );
    assert_eq!(
        calculate_holding_attribution(&[], &[1], &[1], SCALE),
        Err(AttributionError::LengthMismatch)
    );
}

#[test]
fn weights_sum_to_one_hundred_within_rounding() {
    let out = calculate_holding_attribution(
        &units(&[1.0, 1.0, 1.0]),
        &units(&[1.0, 1.0, 1.0]),
        &units(&[1.0, 1.0, 1.0]),
        SCALE,
    )
    .unwrap();
    let weights: Vec<i64> = out.iter().step_by(6).copied().collect();
    assert_eq!(weights, vec![33_333_333, 33_333_333, 33_333_333]);
    let total: i64 = weights.iter().sum();
    assert!(2 * (total - HUNDRED).abs() <= 3);

    let values = units(&[12.5, 0.0, 7_431.19, 0.000001, 999_999.0, 3.0, 3.0]);
    let out = calculate_holding_attribution(&values, &values, &values, SCALE).unwrap();
    let total: i64 = out.iter().step_by(6).sum();
    assert!(2 * (total - HUNDRED).abs() <= values.len() as i64);
    assert!((as_float(total) - 100.0).abs() / 100.0 < 1e-7);
}

#[test]
fn weights_are_zero_without_positive_total() {
    let out = calculate_holding_attribution(&[0, 0], &[1, 1], &[2, 2], SCALE).unwrap();
    assert_eq!(out, vec![0, 100_000_000, 0, 0, 0, 0, 0, 100_000_000, 0, 0, 0, 0]);
    let out = calculate_holding_attribution(&[-5, 2], &[1, 1], &[1, 1], SCALE).unwrap();
    assert_eq!(out[0], 0);
    assert_eq!(out[6], 0);
}

#[test]
fn return_is_zero_without_positive_cost() {
    let out = calculate_holding_attribution(&units(&[10.0]), &[0], &units(&[3.0]), SCALE).unwrap();
    assert_eq!(out[1], 0);
    let out = calculate_holding_attribution(&units(&[10.0]), &[-1], &units(&[3.0]), SCALE).unwrap();
    assert_eq!(out[1], 0);
}

#[test]
fn share_is_zero_when_period_return_is_zero() {
    let out = calculate_holding_attribution(
        &units(&[100.0]),
        &units(&[50.0]),
        &units(&[75.0]),
        0,
    )
    .unwrap();
    assert_eq!(out, vec![100_000_000, 50_000_000, 50_000_000, 0, 66_666_667, 100_000_000]);
}

#[test]
fn starting_value_saturates_at_total_loss() {
    // A price of zero is a return of -100%: the divisor of the starting value is zero.
    let out = calculate_holding_attribution(
        &units(&[100.0, 0.0]),
        &units(&[50.0, 10.0]),
        &units(&[0.0, 0.0]),
        0,
    )
    .unwrap();
    assert_eq!(
        out,
        vec![
            100_000_000, -100_000_000, -100_000_000, 0, i64::MAX, 100_000_000,
            0, -100_000_000, 0, 0, 0, 0,
        ]
    );
}

#[test]
fn negative_values_are_carried_through() {
    let out = calculate_holding_attribution(
        &[-5 * SCALE, 10 * SCALE],
        &[SCALE, SCALE],
        &[SCALE, SCALE],
        SCALE,
    )
    .unwrap();
    assert_eq!(
        out,
        vec![
            -100_000_000, 0, 0, 0, -5_000_000, -5_000_000,
            200_000_000, 0, 0, 0, 10_000_000, 10_000_000,
        ]
    );
}

fn three_holdings() -> Vec<i64> {
    calculate_holding_attribution(
        &units(&[600.0, 400.0, 1000.0]),
        &units(&[100.0, 100.0, 50.0]),
        &units(&[120.0, 90.0, 75.0]),
        5 * SCALE,
    )
    .unwrap()
}

#[test]
fn sectors_aggregate_their_holdings() {
    assert_eq!(ALLOCATION_SCALING, SCALE / 10);
    let holdings = three_holdings();
    assert_eq!(
        holdings,
        vec![
            30_000_000, 20_000_000, 6_000_000, 120_000_000, 500_000_000, 600_000_000,
            20_000_000, -10_000_000, -2_000_000, -40_000_000, 444_444_444, 400_000_000,
            50_000_000, 50_000_000, 25_000_000, 500_000_000, 666_666_667, 1_000_000_000,
        ]
    );
    // Sector 0 holds the first two holdings, sector 1 the third.
    let out = calculate_sector_attribution(&holdings, &[0, 12], 10 * SCALE).unwrap();
    assert_eq!(
        out,
        vec![
            // weight 50, contribution 4, return 4 / 0.5 = 8,
            // allocation (50 - 10) * 8 * 0.1 = 32, selection 4 - 32
            50_000_000, 8_000_000, 4_000_000, 32_000_000, -28_000_000, 4_000_000,
            // weight 50, contribution 25, return 50, allocation 200, selection -175
            50_000_000, 50_000_000, 25_000_000, 200_000_000, -175_000_000, 25_000_000,
        ]
    );
}

#[test]
fn sector_result_has_six_fields_per_sector() {
    let holdings = three_holdings();
    assert_eq!(calculate_sector_attribution(&holdings, &[], 0), Ok(vec![]));
    assert_eq!(calculate_sector_attribution(&holdings, &[0], 0).unwrap().len(), 6);
    assert_eq!(calculate_sector_attribution(&holdings, &[0, 6], 0).unwrap().len(), 12);
    assert_eq!(calculate_sector_attribution(&holdings, &[0, 6, 12], 0).unwrap().len(), 18);
    assert_eq!(calculate_sector_attribution(&[], &[0, 0, 0, 0], 0).unwrap().len(), 24);
}

#[test]
fn empty_sectors_are_all_zero() {
    let holdings = three_holdings();
    let out = calculate_sector_attribution(&holdings, &[0, 0, 18], 10 * SCALE).unwrap();
    assert_eq!(
        out,
        vec![
            0, 0, 0, 0, 0, 0,
            100_000_000, 29_000_000, 29_000_000, 261_000_000, -232_000_000, 29_000_000,
            0, 0, 0, 0, 0, 0,
        ]
    );
}

#[test]
fn sector_benchmark_weight_is_an_input() {
    let holdings = three_holdings();
    let at_ten = calculate_sector_attribution(&holdings, &[0, 12], 10 * SCALE).unwrap();
    let at_fifty = calculate_sector_attribution(&holdings, &[0, 12], 50 * SCALE).unwrap();
    assert_eq!(at_ten[3], 32_000_000);
    // A sector at its benchmark weight has no allocation effect.
    assert_eq!(at_fifty[3], 0);
    assert_eq!(at_fifty[4], at_fifty[2]);
    assert_eq!(at_fifty[0], at_ten[0]);
}

#[test]
fn sector_layout_must_follow_the_records() {
    let holdings = three_holdings();
    let invalid = Err(AttributionError::InvalidSectorLayout);
    // An offset inside a record.
    assert_eq!(calculate_sector_attribution(&holdings, &[0, 7], 0), invalid);
    assert_eq!(calculate_sector_attribution(&holdings, &[2], 0), invalid);
    // An offset beyond the end.
    assert_eq!(calculate_sector_attribution(&holdings, &[0, 24], 0), invalid);
    // Decreasing offsets.
    assert_eq!(calculate_sector_attribution(&holdings, &[12, 6], 0), invalid);
    // Holdings that are not whole records.
    assert_eq!(calculate_sector_attribution(&holdings[..17], &[0], 0), invalid);
    assert_eq!(calculate_sector_attribution(&[1], &[], 0), invalid);
    // The end itself is a valid start, of an empty sector.
    assert!(calculate_sector_attribution(&holdings, &[0, 18], 0).is_ok());
}

#[test]
fn brinson_fachler_on_fractions() {
    assert_eq!(HUNDREDTH as i128 * SCALE as i128, PRODUCT_HUNDREDTH);
    // weights 0.6 / 0.5, returns 0.08 / 0.05
    let r = calculate_brinson_fachler(600_000, 500_000, 80_000, 50_000);
    assert_eq!(
        r,
        BrinsonFachler {
            // 0.1 * 0.05 = 0.005, a tie that rounds away from zero
            allocation: 10_000,
            // 0.6 * 0.03 = 0.018
            selection: 20_000,
            // 0.1 * 0.03 = 0.003
            interaction: 0,
            // 0.026, rounded from the exact sum and not from the rounded parts
            total: 30_000,
        }
    );
    assert_eq!(as_float(r.allocation), 0.01);
    assert_eq!(as_float(r.selection), 0.02);
    assert_eq!(as_float(r.interaction), 0.0);
    assert_eq!(as_float(r.total), 0.03);
}

#[test]
fn brinson_fachler_on_percentages() {
    let r = calculate_brinson_fachler(60 * SCALE, 50 * SCALE, 8 * SCALE, 5 * SCALE);
    assert_eq!(
        r,
        BrinsonFachler {
            allocation: 50_000_000,
            selection: 180_000_000,
            interaction: 30_000_000,
            total: 260_000_000,
        }
    );
}

#[test]
fn brinson_fachler_rounds_negative_ties_away_from_zero() {
    // weights 0.4 / 0.5, returns 0.02 / 0.05: -0.005, -0.012, 0.003, -0.014
    let r = calculate_brinson_fachler(400_000, 500_000, 20_000, 50_000);
    assert_eq!(
        r,
        BrinsonFachler { allocation: -10_000, selection: -10_000, interaction: 0, total: -10_000 }
    );
}

#[test]
fn brinson_fachler_total_is_excess_return_when_weights_agree() {
    // Equal weights: no allocation and no interaction, total = 0.5 * (0.08 - 0.05).
    let r = calculate_brinson_fachler(500_000, 500_000, 80_000, 50_000);
    assert_eq!(
        r,
        BrinsonFachler { allocation: 0, selection: 20_000, interaction: 0, total: 20_000 }
    );
    // Equal returns: total = (0.7 - 0.2) * 0.5.
    let r = calculate_brinson_fachler(700_000, 200_000, 500_000, 500_000);
    assert_eq!(
        r,
        BrinsonFachler { allocation: 250_000, selection: 0, interaction: 0, total: 250_000 }
    );
}

#[test]
fn brinson_fachler_saturates() {
    let r = calculate_brinson_fachler(i64::MAX, i64::MIN, i64::MAX, i64::MIN);
    assert_eq!(r.allocation, i64::MIN);
    assert_eq!(r.selection, i64::MAX);
    assert_eq!(r.interaction, i64::MAX);
    assert_eq!(r.total, i64::MAX);
    let r = calculate_brinson_fachler(i64::MIN, i64::MAX, i64::MAX, i64::MIN);
    assert_eq!(r.interaction, i64::MIN);
    assert_eq!(r.total, i64::MIN);
}
