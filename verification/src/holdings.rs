//! Per-holding attribution: weight, return, contribution and the value
//! implied at the start of the period.

use vstd::prelude::*;
use crate::error::AttributionError;
use crate::fixed::{
    lemma_product_bound, lemma_round_div_error, lemma_round_div_exact, lemma_round_div_monotone,
    mul_div, round_div, scaled_mul_div, HUNDRED,
};
use crate::vector::{exact_sum, prefix_sum, seq_sum};

verus! {

/// Number of fields in one attribution record.
pub const RECORD_FIELDS: usize = 6;

/// The holding's share of the portfolio in percent; zero when the portfolio
/// has no positive total value.
pub open spec fn holding_weight(value: int, total: int) -> int {
    if total > 0 {
        mul_div(value, HUNDRED as int, total)
    } else {
        0
    }
}

/// The price return since cost basis in percent; zero without a positive
/// cost basis.
pub open spec fn holding_return(cost: int, price: int) -> int {
    if cost > 0 {
        mul_div(price - cost, HUNDRED as int, cost)
    } else {
        0
    }
}

/// The weight-weighted return, in percentage points.
pub open spec fn holding_contribution(weight: int, return_pct: int) -> int {
    mul_div(weight, return_pct, HUNDRED as int)
}

/// The share of the period return that the contribution explains, in
/// percent; zero when the period return is zero.
pub open spec fn contribution_share(contribution: int, period_return: int) -> int {
    if period_return != 0 {
        mul_div(contribution, HUNDRED as int, period_return)
    } else {
        0
    }
}

/// The value at the start of the period implied by the current value and
/// the return: `value / (1 + return_pct / 100)`.
///
/// At a return of exactly -100% the divisor is zero and the result is the
/// saturated value of [`crate::fixed::signed_limit`]: `i64::MAX` for a
/// positive current value, `i64::MIN` for a negative one, zero for zero.
pub open spec fn starting_value(value: int, return_pct: int) -> int {
    mul_div(value, HUNDRED as int, HUNDRED + return_pct)
}

/// `out` holds, at record `i`, the attribution of holding `i`.
pub open spec fn holding_record_at(
    out: Seq<i64>,
    i: int,
    values: Seq<i64>,
    costs: Seq<i64>,
    prices: Seq<i64>,
    period_return: int,
) -> bool {
    let weight = holding_weight(values[i] as int, seq_sum(values));
    let return_pct = holding_return(costs[i] as int, prices[i] as int);
    let contribution = holding_contribution(weight, return_pct);
    &&& out[6 * i] == weight
    &&& out[6 * i + 1] == return_pct
    &&& out[6 * i + 2] == contribution
    &&& out[6 * i + 3] == contribution_share(contribution, period_return)
    &&& out[6 * i + 4] == starting_value(values[i] as int, return_pct)
    &&& out[6 * i + 5] == values[i]
}

/// The sum of the weights of the first `k` holdings against a given total.
pub open spec fn weight_sum(values: Seq<i64>, total: int, k: nat) -> int
    decreases k,
{
    if k == 0 {
        0
    } else {
        weight_sum(values, total, (k - 1) as nat) + holding_weight(values[k - 1] as int, total)
    }
}

/// The attribution of every holding, as one flat sequence of six-field
/// records in input order: weight, return, contribution, share of the
/// period return, starting value, ending value.
///
/// The three inputs are index-aligned; `LengthMismatch` is returned when
/// their lengths differ. No holdings give an empty result.
pub fn calculate_holding_attribution(
    current_values: &[i64],
    avg_costs: &[i64],
    current_prices: &[i64],
    period_return: i64,
) -> (r: Result<Vec<i64>, AttributionError>)
    ensures
        match r {
            Ok(out) => {
                &&& current_values.len() == avg_costs.len()
                &&& current_values.len() == current_prices.len()
                &&& out.len() == 6 * current_values.len()
                &&& forall|i: int|
                    0 <= i < current_values.len() ==> #[trigger] holding_record_at(
                        out@,
                        i,
                        current_values@,
                        avg_costs@,
                        current_prices@,
                        period_return as int,
                    )
            },
            Err(e) => {
                &&& current_values.len() != avg_costs.len() || current_values.len()
                    != current_prices.len()
                &&& e == AttributionError::LengthMismatch
            },
        },
{
    let n = current_values.len();
    if avg_costs.len() != n || current_prices.len() != n {
        return Err(AttributionError::LengthMismatch);
    }
    let total = exact_sum(current_values);
    let mut out: Vec<i64> = Vec::new();
    let mut i: usize = 0;
    while i < n
        invariant
            i <= n,
            n == current_values.len(),
            n == avg_costs.len(),
            n == current_prices.len(),
            total == seq_sum(current_values@),
            out.len() == 6 * i,
            forall|j: int|
                0 <= j < i ==> #[trigger] holding_record_at(
                    out@,
                    j,
                    current_values@,
                    avg_costs@,
                    current_prices@,
                    period_return as int,
                ),
        decreases n - i,
    {
        let value = current_values[i];
        let cost = avg_costs[i];
        let price = current_prices[i];
        let weight = if total > 0 {
            scaled_mul_div(value as i128, HUNDRED as i128, total)
        } else {
            0
        };
        let return_pct = if cost > 0 {
            scaled_mul_div(price as i128 - cost as i128, HUNDRED as i128, cost as i128)
        } else {
            0
        };
        let contribution = scaled_mul_div(weight as i128, return_pct as i128, HUNDRED as i128);
        let share = if period_return != 0 {
            scaled_mul_div(contribution as i128, HUNDRED as i128, period_return as i128)
        } else {
            0
        };
        let value_start = scaled_mul_div(
            value as i128,
            HUNDRED as i128,
            HUNDRED as i128 + return_pct as i128,
        );
        let ghost before = out@;
        out.push(weight);
        out.push(return_pct);
        out.push(contribution);
        out.push(share);
        out.push(value_start);
        out.push(value);
        proof {
            assert forall|j: int| 0 <= j < i + 1 implies #[trigger] holding_record_at(
                out@,
                j,
                current_values@,
                avg_costs@,
                current_prices@,
                period_return as int,
            ) by {
                if j < i {
                    assert(holding_record_at(
                        before,
                        j,
                        current_values@,
                        avg_costs@,
                        current_prices@,
                        period_return as int,
                    ));
                }
            }
        }
        i = i + 1;
    }
    Ok(out)
}

/// In a series without negative values every prefix sum is non-negative,
/// prefix sums grow with the prefix, and every element is at most the sum
/// of a prefix that includes it.
pub proof fn lemma_nonnegative_prefix(s: Seq<i64>, i: int, k: nat)
    requires
        0 <= i < k <= s.len(),
        forall|j: int| 0 <= j < s.len() ==> s[j] >= 0,
    ensures
        s[i] <= prefix_sum(s, k),
        0 <= prefix_sum(s, (k - 1) as nat),
    decreases k,
{
    if k - 1 > i {
        lemma_nonnegative_prefix(s, i, (k - 1) as nat);
    } else if i > 0 {
        lemma_nonnegative_prefix(s, i - 1, (k - 1) as nat);
        assert(0 <= prefix_sum(s, (k - 2) as nat));
    }
}

/// A holding worth between nothing and the whole portfolio has a weight
/// between 0 and 100 percent, and that weight is the exact percentage
/// rounded to the nearest raw unit.
pub proof fn lemma_weight_of_part(value: int, total: int)
    requires
        0 <= value <= total,
        0 < total,
        value <= i64::MAX,
    ensures
        holding_weight(value, total) == round_div(value * HUNDRED, total),
        0 <= holding_weight(value, total) <= HUNDRED,
        -total <= 2 * (total * holding_weight(value, total)) - 2 * (value * HUNDRED) <= total,
{
    let h = HUNDRED as int;
    lemma_product_bound(value, h, 0x8000_0000_0000_0000, h);
    assert(0 <= value * h <= total * h) by (nonlinear_arith)
        requires
            0 <= value <= total,
            h > 0,
    ;
    assert(0 * total == 0);
    assert(total * h == h * total) by (nonlinear_arith);
    lemma_round_div_exact(0, total);
    lemma_round_div_exact(h, total);
    lemma_round_div_monotone(0, value * h, total);
    lemma_round_div_monotone(value * h, h * total, total);
    lemma_round_div_error(value * h, total);
}

/// The weights of the first `k` holdings add up to the percentage that
/// their values make of the total, within half a raw unit per holding.
pub proof fn lemma_weight_sum_error(values: Seq<i64>, total: int, k: nat)
    requires
        k <= values.len(),
        forall|j: int| 0 <= j < values.len() ==> 0 <= #[trigger] values[j] <= total,
        0 < total,
    ensures
        -k * total <= 2 * (total * weight_sum(values, total, k)) - 2 * (prefix_sum(values, k)
            * HUNDRED) <= k * total,
    decreases k,
{
    if k > 0 {
        let km = (k - 1) as nat;
        lemma_weight_sum_error(values, total, km);
        let v = values[k - 1] as int;
        let w = holding_weight(v, total);
        let ws = weight_sum(values, total, km);
        let ps = prefix_sum(values, km);
        lemma_weight_of_part(v, total);
        assert(total * (ws + w) == total * ws + total * w) by (nonlinear_arith);
        assert((ps + v) * HUNDRED == ps * HUNDRED + v * HUNDRED) by (nonlinear_arith);
        assert(k * total == km * total + total) by (nonlinear_arith)
            requires
                k == km + 1,
        ;
        assert(-k * total == -km * total - total) by (nonlinear_arith)
            requires
                k == km + 1,
        ;
    }
}

/// The weights of a portfolio with a positive total value and no negative
/// holding add up to 100 percent, within half a raw unit for each holding.
pub proof fn lemma_weights_sum_to_hundred(values: Seq<i64>)
    requires
        forall|j: int| 0 <= j < values.len() ==> values[j] >= 0,
        seq_sum(values) > 0,
    ensures
        -values.len() <= 2 * (weight_sum(values, seq_sum(values), values.len()) - HUNDRED)
            <= values.len(),
{
    let total = seq_sum(values);
    let n = values.len();
    assert forall|j: int| 0 <= j < values.len() implies 0 <= #[trigger] values[j] <= total by {
        lemma_nonnegative_prefix(values, j, n);
    }
    lemma_weight_sum_error(values, total, n);
    let w = weight_sum(values, total, n);
    let h = HUNDRED as int;
    assert(-n <= 2 * (w - h) <= n) by (nonlinear_arith)
        requires
            total > 0,
            -n * total <= 2 * (total * w) - 2 * (total * h) <= n * total,
    ;
}

} // verus!
