//! Sector-level aggregation of holding attribution records.

use vstd::prelude::*;
use crate::error::AttributionError;
use crate::fixed::{clamp64, mul_div, narrow, scaled_mul_div, HUNDRED, SCALE};

verus! {

/// The share of the weight difference that is credited to allocation:
/// one tenth, as a raw fixed-point value.
pub const ALLOCATION_SCALING: i64 = 100_000;

/// The offsets describe sectors of whole holding records: the holding
/// sequence is a whole number of six-field records, and every offset is the
/// start of a record (or the end of the sequence, for an empty sector) and
/// not less than the offset before it.
pub open spec fn valid_sector_layout(holdings_len: int, offsets: Seq<usize>) -> bool {
    &&& holdings_len % 6 == 0
    &&& forall|i: int|
        0 <= i < offsets.len() ==> (#[trigger] offsets[i]) % 6 == 0 && offsets[i] <= holdings_len
    &&& forall|i: int| 0 <= i < offsets.len() - 1 ==> (#[trigger] offsets[i]) <= offsets[i + 1]
}

/// Where sector `i` ends: at the start of the next sector, or at the end of
/// the holdings for the last sector.
pub open spec fn sector_end(holdings_len: int, offsets: Seq<usize>, i: int) -> int {
    if i + 1 < offsets.len() {
        offsets[i + 1] as int
    } else {
        holdings_len
    }
}

/// The sum of one field over the records that lie in `[start, end)`, the
/// first of them starting at `start`.
pub open spec fn field_sum(records: Seq<i64>, field: int, start: int, end: int) -> int
    decreases end - start,
{
    if end < start + 6 {
        0
    } else {
        field_sum(records, field, start, end - 6) + records[end - 6 + field]
    }
}

/// The sector's return: its contribution over its weight as a fraction;
/// zero for a sector without positive weight.
pub open spec fn sector_return(weight: int, contribution: int) -> int {
    if weight > 0 {
        mul_div(contribution, HUNDRED as int, weight)
    } else {
        0
    }
}

/// The allocation effect of a sector:
/// `(weight - benchmark_weight) * sector_return * ALLOCATION_SCALING`.
pub open spec fn sector_allocation(weight: int, benchmark_weight: int, sector_return: int) -> int {
    mul_div(
        mul_div(weight - benchmark_weight, sector_return, SCALE as int),
        ALLOCATION_SCALING as int,
        SCALE as int,
    )
}

/// `out` holds, at record `i`, the aggregate of sector `i`.
pub open spec fn sector_record_at(
    out: Seq<i64>,
    i: int,
    holdings: Seq<i64>,
    offsets: Seq<usize>,
    benchmark_weight: int,
) -> bool {
    let start = offsets[i] as int;
    let end = sector_end(holdings.len() as int, offsets, i);
    let weight = clamp64(field_sum(holdings, 0, start, end));
    let contribution = clamp64(field_sum(holdings, 2, start, end));
    let ret = sector_return(weight, contribution);
    let allocation = sector_allocation(weight, benchmark_weight, ret);
    &&& out[6 * i] == weight
    &&& out[6 * i + 1] == ret
    &&& out[6 * i + 2] == contribution
    &&& out[6 * i + 3] == allocation
    &&& out[6 * i + 4] == clamp64(contribution - allocation)
    &&& out[6 * i + 5] == contribution
}

/// Decides [`valid_sector_layout`].
fn check_sector_layout(holdings_len: usize, offsets: &[usize]) -> (ok: bool)
    ensures
        ok == valid_sector_layout(holdings_len as int, offsets@),
{
    if holdings_len % 6 != 0 {
        return false;
    }
    let mut i: usize = 0;
    while i < offsets.len()
        invariant
            i <= offsets.len(),
            holdings_len % 6 == 0,
            forall|j: int|
                0 <= j < i ==> (#[trigger] offsets[j]) % 6 == 0 && offsets[j] <= holdings_len,
            forall|j: int| 0 <= j < i - 1 ==> (#[trigger] offsets[j]) <= offsets[j + 1],
        decreases offsets.len() - i,
    {
        let offset = offsets[i];
        if offset % 6 != 0 || offset > holdings_len {
            return false;
        }
        if i > 0 && offsets[i - 1] > offset {
            assert(!(offsets[i - 1] <= offsets[(i - 1) + 1]));
            return false;
        }
        i = i + 1;
    }
    true
}

/// The sums of the weight and contribution fields over the records in
/// `[start, end)`.
fn sum_sector_fields(holdings: &[i64], start: usize, end: usize) -> (r: (i128, i128))
    requires
        start <= end <= holdings.len(),
        start % 6 == 0,
        end % 6 == 0,
    ensures
        r.0 == field_sum(holdings@, 0, start as int, end as int),
        r.1 == field_sum(holdings@, 2, start as int, end as int),
{
    let mut weight: i128 = 0;
    let mut contribution: i128 = 0;
    let mut j: usize = start;
    while j < end
        invariant
            start <= j <= end <= holdings.len(),
            start % 6 == 0,
            j % 6 == 0,
            end % 6 == 0,
            weight == field_sum(holdings@, 0, start as int, j as int),
            contribution == field_sum(holdings@, 2, start as int, j as int),
            (j - start) * i64::MIN <= weight <= (j - start) * i64::MAX,
            (j - start) * i64::MIN <= contribution <= (j - start) * i64::MAX,
        decreases end - j,
    {
        weight = weight + holdings[j] as i128;
        contribution = contribution + holdings[j + 2] as i128;
        j = j + 6;
    }
    (weight, contribution)
}

/// The aggregate of every sector, as one flat sequence of six-field
/// records: weight, return, contribution, allocation effect, selection
/// effect, total effect.
///
/// `holdings_attribution` is a sequence of holding records as
/// [`crate::holdings::calculate_holding_attribution`] returns it, grouped
/// by sector. `holdings_per_sector[i]` is the offset at which the records of
/// sector `i` start; they end where the next sector starts, the last sector
/// at the end of the sequence. `benchmark_sector_weight` is the weight, in
/// percent, that the allocation effect compares each sector with.
///
/// `InvalidSectorLayout` is returned when [`valid_sector_layout`] fails.
pub fn calculate_sector_attribution(
    holdings_attribution: &[i64],
    holdings_per_sector: &[usize],
    benchmark_sector_weight: i64,
) -> (r: Result<Vec<i64>, AttributionError>)
    ensures
        match r {
            Ok(out) => {
                &&& valid_sector_layout(holdings_attribution.len() as int, holdings_per_sector@)
                &&& out.len() == 6 * holdings_per_sector.len()
                &&& forall|i: int|
                    0 <= i < holdings_per_sector.len() ==> #[trigger] sector_record_at(
                        out@,
                        i,
                        holdings_attribution@,
                        holdings_per_sector@,
                        benchmark_sector_weight as int,
                    )
            },
            Err(e) => {
                &&& !valid_sector_layout(holdings_attribution.len() as int, holdings_per_sector@)
                &&& e == AttributionError::InvalidSectorLayout
            },
        },
{
    if !check_sector_layout(holdings_attribution.len(), holdings_per_sector) {
        return Err(AttributionError::InvalidSectorLayout);
    }
    let sector_count = holdings_per_sector.len();
    let mut out: Vec<i64> = Vec::new();
    let mut i: usize = 0;
    while i < sector_count
        invariant
            i <= sector_count,
            sector_count == holdings_per_sector.len(),
            valid_sector_layout(holdings_attribution.len() as int, holdings_per_sector@),
            out.len() == 6 * i,
            forall|j: int|
                0 <= j < i ==> #[trigger] sector_record_at(
                    out@,
                    j,
                    holdings_attribution@,
                    holdings_per_sector@,
                    benchmark_sector_weight as int,
                ),
        decreases sector_count - i,
    {
        let start = holdings_per_sector[i];
        let end = if i + 1 < sector_count {
            holdings_per_sector[i + 1]
        } else {
            holdings_attribution.len()
        };
        let (weight_sum, contribution_sum) = sum_sector_fields(holdings_attribution, start, end);
        let weight = narrow(weight_sum);
        let contribution = narrow(contribution_sum);
        let sector_return = if weight > 0 {
            scaled_mul_div(contribution as i128, HUNDRED as i128, weight as i128)
        } else {
            0
        };
        let active = scaled_mul_div(
            weight as i128 - benchmark_sector_weight as i128,
            sector_return as i128,
            SCALE as i128,
        );
        let allocation = scaled_mul_div(active as i128, ALLOCATION_SCALING as i128, SCALE as i128);
        let selection = narrow(contribution as i128 - allocation as i128);
        let ghost before = out@;
        out.push(weight);
        out.push(sector_return);
        out.push(contribution);
        out.push(allocation);
        out.push(selection);
        out.push(contribution);
        proof {
            assert forall|j: int| 0 <= j < i + 1 implies #[trigger] sector_record_at(
                out@,
                j,
                holdings_attribution@,
                holdings_per_sector@,
                benchmark_sector_weight as int,
            ) by {
                if j < i {
                    assert(sector_record_at(
                        before,
                        j,
                        holdings_attribution@,
                        holdings_per_sector@,
                        benchmark_sector_weight as int,
                    ));
                }
            }
        }
        i = i + 1;
    }
    Ok(out)
}

} // verus!
