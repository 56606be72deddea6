//! The journal data model: accounts, commodities, postings, the helpers that
//! read journal lines, and the journal itself.

pub mod account;
pub mod commodity_value;
pub mod transaction;
pub mod utils;

use vstd::prelude::*;
use crate::price::{PriceDirective, PriceView};
use crate::transaction::Transaction;
use crate::transaction::posting::PostingView;

verus! {

/// The abstract transaction: date, description, postings.
pub type TransactionView = ((int, int, int), Seq<char>, Seq<PostingView>);

pub open spec fn transaction_views(v: Seq<Transaction>) -> Seq<TransactionView> {
    v.map_values(|t: Transaction| t@)
}

pub open spec fn price_views(v: Seq<PriceDirective>) -> Seq<PriceView> {
    v.map_values(|p: PriceDirective| p@)
}

/// A journal: its transactions and its price directives, each in file order.
pub struct Journal {
    pub transactions: Vec<Transaction>,
    pub prices: Vec<PriceDirective>,
}

impl View for Journal {
    type V = (Seq<TransactionView>, Seq<PriceView>);

    open spec fn view(&self) -> (Seq<TransactionView>, Seq<PriceView>) {
        (transaction_views(self.transactions@), price_views(self.prices@))
    }
}

} // verus!
