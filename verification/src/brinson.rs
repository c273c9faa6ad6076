//! The Brinson-Fachler decomposition of excess return into allocation,
//! selection and interaction effects.

use vstd::prelude::*;
use crate::fixed::{
    clamp128, clamp64, div_round, lemma_clamp_absorbed, lemma_product_bound,
    lemma_round_div_error, lemma_round_div_exact, lemma_round_div_monotone, narrow, round_div,
    sat_mul, sat_sub, SCALE,
};

verus! {

/// One hundredth as a raw fixed-point value.
pub const HUNDREDTH: i64 = 10_000;

/// One hundredth at the scale of a product of two raw values.
pub const PRODUCT_HUNDREDTH: i128 = 10_000_000_000;

/// The four effects of the decomposition, each rounded to two decimals.
#[derive(Debug, Clone, Copy, PartialEq, Eq, Structural)]
pub struct BrinsonFachler {
    /// The effect of weighting the segment differently from the benchmark.
    pub allocation: i64,
    /// The effect of the segment returning differently from the benchmark.
    pub selection: i64,
    /// The cross term of the two differences.
    pub interaction: i64,
    /// The sum of the three effects before rounding.
    pub total: i64,
}

/// The exact allocation effect `(pw - bw) * br`, at the scale of a product.
pub open spec fn allocation_effect(pw: int, bw: int, pr: int, br: int) -> int {
    (pw - bw) * br
}

/// The exact selection effect `pw * (pr - br)`, at the scale of a product.
pub open spec fn selection_effect(pw: int, bw: int, pr: int, br: int) -> int {
    pw * (pr - br)
}

/// The exact interaction effect `(pw - bw) * (pr - br)`, at the scale of a
/// product.
pub open spec fn interaction_effect(pw: int, bw: int, pr: int, br: int) -> int {
    (pw - bw) * (pr - br)
}

/// The exact total effect: the sum of the three exact effects.
pub open spec fn total_effect(pw: int, bw: int, pr: int, br: int) -> int {
    allocation_effect(pw, bw, pr, br) + selection_effect(pw, bw, pr, br) + interaction_effect(
        pw,
        bw,
        pr,
        br,
    )
}

/// The excess return of the portfolio over the benchmark,
/// `pw * pr - bw * br`, at the scale of a product.
pub open spec fn excess_return(pw: int, bw: int, pr: int, br: int) -> int {
    pw * pr - bw * br
}

/// From here on a product-scale amount rounds to a saturated result.
spec fn rounding_limit() -> int {
    0x8000_0000_0000_0000 * PRODUCT_HUNDREDTH
}

/// `amount` stands for `exact`: it is `exact` saturated into 128 bits, or
/// both lie beyond [`rounding_limit`] on the same side.
spec fn stands_for(amount: int, exact: int) -> bool {
    ||| amount == clamp128(exact)
    ||| amount >= rounding_limit() && exact >= rounding_limit()
    ||| amount <= -rounding_limit() && exact <= -rounding_limit()
}

/// An exact product-scale amount as a raw value rounded to two decimals,
/// ties away from zero, saturated into `i64`.
pub open spec fn round_hundredths(exact: int) -> int {
    clamp64(round_div(exact, PRODUCT_HUNDREDTH as int) * HUNDREDTH)
}

/// Computes [`round_hundredths`] of `exact` from an amount that stands for
/// it.
fn to_hundredths(amount: i128, Ghost(exact): Ghost<int>) -> (r: i64)
    requires
        stands_for(amount as int, exact),
    ensures
        r == round_hundredths(exact),
{
    proof {
        let c = PRODUCT_HUNDREDTH as int;
        let top: int = 0x8000_0000_0000_0000;
        lemma_clamp_absorbed(exact, c);
        lemma_round_div_exact(top, c);
        lemma_round_div_exact(-top, c);
        if amount != clamp128(exact) {
            if amount >= rounding_limit() {
                lemma_round_div_monotone(top * c, amount as int, c);
                lemma_round_div_monotone(top * c, exact, c);
            } else {
                lemma_round_div_monotone(amount as int, -top * c, c);
                lemma_round_div_monotone(exact, -top * c, c);
            }
        }
    }
    let quotient = div_round(amount, PRODUCT_HUNDREDTH);
    let step = HUNDREDTH as i128;
    assert(step == 10_000);
    narrow(quotient as i128 * step)
}

/// The Brinson-Fachler effects of a portfolio against a benchmark, from
/// their weights and returns. The total is rounded from the exact sum of
/// the three effects, not from their rounded values.
pub fn calculate_brinson_fachler(
    portfolio_weight: i64,
    benchmark_weight: i64,
    portfolio_return: i64,
    benchmark_return: i64,
) -> (r: BrinsonFachler)
    ensures
        r.allocation == round_hundredths(
            allocation_effect(
                portfolio_weight as int,
                benchmark_weight as int,
                portfolio_return as int,
                benchmark_return as int,
            ),
        ),
        r.selection == round_hundredths(
            selection_effect(
                portfolio_weight as int,
                benchmark_weight as int,
                portfolio_return as int,
                benchmark_return as int,
            ),
        ),
        r.interaction == round_hundredths(
            interaction_effect(
                portfolio_weight as int,
                benchmark_weight as int,
                portfolio_return as int,
                benchmark_return as int,
            ),
        ),
        r.total == round_hundredths(
            total_effect(
                portfolio_weight as int,
                benchmark_weight as int,
                portfolio_return as int,
                benchmark_return as int,
            ),
        ),
{
    let pw = portfolio_weight as i128;
    let bw = benchmark_weight as i128;
    let pr = portfolio_return as i128;
    let br = benchmark_return as i128;
    let weight_diff = pw - bw;
    let return_diff = pr - br;
    let allocation = sat_mul(weight_diff, br);
    let selection = sat_mul(pw, return_diff);
    let interaction = sat_mul(weight_diff, return_diff);
    // allocation + selection + interaction == pw * (2 * pr - br) - bw * pr
    let doubled = sat_mul(pw, 2 * pr - br);
    proof {
        lemma_product_bound(bw as int, pr as int, 0x8000_0000_0000_0000, 0x8000_0000_0000_0000);
        lemma_total_effect_expanded(pw as int, bw as int, pr as int, br as int);
    }
    let total = sat_sub(doubled, bw * pr);
    BrinsonFachler {
        allocation: to_hundredths(
            allocation,
            Ghost(allocation_effect(pw as int, bw as int, pr as int, br as int)),
        ),
        selection: to_hundredths(
            selection,
            Ghost(selection_effect(pw as int, bw as int, pr as int, br as int)),
        ),
        interaction: to_hundredths(
            interaction,
            Ghost(interaction_effect(pw as int, bw as int, pr as int, br as int)),
        ),
        total: to_hundredths(total, Ghost(total_effect(pw as int, bw as int, pr as int, br as int))),
    }
}

/// The total effect in expanded form.
pub proof fn lemma_total_effect_expanded(pw: int, bw: int, pr: int, br: int)
    ensures
        total_effect(pw, bw, pr, br) == pw * (2 * pr - br) - bw * pr,
{
    assert((pw - bw) * br + pw * (pr - br) + (pw - bw) * (pr - br) == pw * (2 * pr - br) - bw * pr)
        by (nonlinear_arith);
}

/// The three effects add up to the excess return plus the interaction
/// effect, which the selection effect, taken at the portfolio weight,
/// already contains.
pub proof fn lemma_effects_sum(pw: int, bw: int, pr: int, br: int)
    ensures
        total_effect(pw, bw, pr, br) == excess_return(pw, bw, pr, br) + interaction_effect(
            pw,
            bw,
            pr,
            br,
        ),
{
    assert((pw - bw) * br + pw * (pr - br) + (pw - bw) * (pr - br) == (pw * pr - bw * br) + (pw
        - bw) * (pr - br)) by (nonlinear_arith);
}

/// The Brinson-Fachler identity: where the weights or the returns agree,
/// allocation, selection and interaction add up exactly to the excess
/// return `pw * pr - bw * br`.
pub proof fn lemma_effects_sum_to_excess_return(pw: int, bw: int, pr: int, br: int)
    requires
        pw == bw || pr == br,
    ensures
        total_effect(pw, bw, pr, br) == excess_return(pw, bw, pr, br),
{
    lemma_effects_sum(pw, bw, pr, br);
    assert((pw - bw) * (pr - br) == 0) by (nonlinear_arith)
        requires
            pw == bw || pr == br,
    ;
}

/// A rounded amount that did not saturate is within half a hundredth of
/// the exact amount. Both sides are at the scale of a product.
pub proof fn lemma_round_hundredths_error(exact: int)
    requires
        i64::MIN <= round_div(exact, PRODUCT_HUNDREDTH as int) * HUNDREDTH <= i64::MAX,
    ensures
        -PRODUCT_HUNDREDTH <= 2 * (round_hundredths(exact) * SCALE) - 2 * exact
            <= PRODUCT_HUNDREDTH,
{
    lemma_round_div_error(exact, PRODUCT_HUNDREDTH as int);
}

/// Where the weights or the returns agree and no effect saturates, the
/// three rounded effects add up to the excess return within one and a half
/// hundredths, and the rounded total is within half a hundredth of it.
pub proof fn lemma_rounded_effects_near_excess_return(pw: int, bw: int, pr: int, br: int)
    requires
        pw == bw || pr == br,
        i64::MIN <= round_div(allocation_effect(pw, bw, pr, br), PRODUCT_HUNDREDTH as int)
            * HUNDREDTH <= i64::MAX,
        i64::MIN <= round_div(selection_effect(pw, bw, pr, br), PRODUCT_HUNDREDTH as int)
            * HUNDREDTH <= i64::MAX,
        i64::MIN <= round_div(interaction_effect(pw, bw, pr, br), PRODUCT_HUNDREDTH as int)
            * HUNDREDTH <= i64::MAX,
        i64::MIN <= round_div(total_effect(pw, bw, pr, br), PRODUCT_HUNDREDTH as int) * HUNDREDTH
            <= i64::MAX,
    ensures
        ({
            let parts = round_hundredths(allocation_effect(pw, bw, pr, br)) + round_hundredths(
                selection_effect(pw, bw, pr, br),
            ) + round_hundredths(interaction_effect(pw, bw, pr, br));
            -3 * PRODUCT_HUNDREDTH <= 2 * (parts * SCALE) - 2 * excess_return(pw, bw, pr, br) <= 3
                * PRODUCT_HUNDREDTH
        }),
        -PRODUCT_HUNDREDTH <= 2 * (round_hundredths(total_effect(pw, bw, pr, br)) * SCALE) - 2
            * excess_return(pw, bw, pr, br) <= PRODUCT_HUNDREDTH,
{
    lemma_effects_sum_to_excess_return(pw, bw, pr, br);
    lemma_round_hundredths_error(allocation_effect(pw, bw, pr, br));
    lemma_round_hundredths_error(selection_effect(pw, bw, pr, br));
    lemma_round_hundredths_error(interaction_effect(pw, bw, pr, br));
    lemma_round_hundredths_error(total_effect(pw, bw, pr, br));
}

} // verus!
