//! Amounts: fixed-precision decimals.

pub mod fixed_decimal;
