//! Commodities and commodity amounts as they appear in a journal.

pub mod commodity;

pub use crate::transaction::commodity_value::CommodityValue;
