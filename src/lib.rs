//! Ranking of liquidity-pool trading pairs by their fee-to-liquidity ("geek") ratio.
//!
//! The library works on rows that a caller has read from the analytical store and
//! computes, without side effects, the ordered list of opportunities: the latest
//! snapshot of each pair quoted against a reference asset, above a liquidity floor,
//! ranked by geek ratio. Decimal quantities are fixed-point integers with
//! [`decimal::FRACTION_DIGITS`] fractional digits.

pub mod decimal;
pub mod store;
pub mod opportunity;
pub mod ranking;
pub mod engine;
pub mod laws;
pub mod error;
