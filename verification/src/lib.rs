//! Performance attribution and risk statistics on fixed-point decimals.
//!
//! Every quantity is an `i64` count of millionths (see [`fixed::SCALE`]):
//! `1_500_000` stands for `1.5`, and a percentage of `60` is `60_000_000`.
//! Series are slices of such numbers.
//!
//! Every function is total. A quotient is rounded to the nearest raw unit,
//! ties away from zero, and a result that does not fit is saturated to
//! `i64::MAX` or `i64::MIN`. Products of two numbers are exact; sums of
//! products are capped at 128 bits (see [`vector::product_sum`]). Where a
//! formula would divide by zero, the function returns the value that its
//! documentation names. Inputs that cannot be made sense of, such as series
//! of unequal length, are refused with an [`AttributionError`].
//!
//! The contracts state each result as a formula over mathematical integers,
//! and the proof functions named `lemma_*` state what holds of those
//! formulas in general.

pub mod brinson;
pub mod buffer;
pub mod error;
pub mod fixed;
pub mod holdings;
pub mod risk;
pub mod roots;
pub mod sectors;
pub mod vector;
pub mod wide;

pub use crate::brinson::{calculate_brinson_fachler, BrinsonFachler};
pub use crate::buffer::{free_memory, BufferPool};
pub use crate::error::AttributionError;
pub use crate::fixed::{HUNDRED, SCALE};
pub use crate::holdings::calculate_holding_attribution;
pub use crate::risk::{
    calculate_beta, calculate_correlation, calculate_max_drawdown, calculate_sharpe_ratio,
    calculate_standard_deviation,
};
pub use crate::sectors::{calculate_sector_attribution, ALLOCATION_SCALING};
pub use crate::vector::{
    exponential_moving_average, vector_dot_product, vector_mean, vector_sum,
};
