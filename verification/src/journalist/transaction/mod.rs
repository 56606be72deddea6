//! A two-posting journal entry whose amounts keep their written precision.

pub mod commodity_value;

use vstd::prelude::*;
use crate::commodity_value::fixed_decimal::displayable;
use self::commodity_value::{CommodityValue, raw_commodity_value_str};

verus! {

/// The abstract entry: date, description, and each account with its amount.
pub type EntryView = (Seq<char>, Seq<char>, Seq<char>, ((int, nat), Seq<char>), Seq<char>, ((int, nat), Seq<char>));

/// `"<date> <description>\n\t<account 1> <amount 1>\n\t<account 2> <amount 2>\n\n"`.
pub open spec fn entry_str(e: EntryView) -> Seq<char> {
    e.0 + seq![' '] + e.1 + seq!['\n', '\t'] + e.2 + seq![' '] + raw_commodity_value_str(e.3.0, e.3.1)
        + seq!['\n', '\t'] + e.4 + seq![' '] + raw_commodity_value_str(e.5.0, e.5.1) + seq!['\n', '\n']
}

/// A transaction between exactly two accounts.
pub struct DoubleEntry {
    date: String,
    description: String,
    account_1: String,
    amount_1: CommodityValue,
    account_2: String,
    amount_2: CommodityValue,
}

impl View for DoubleEntry {
    type V = EntryView;

    closed spec fn view(&self) -> EntryView {
        (self.date@, self.description@, self.account_1@, self.amount_1@, self.account_2@, self.amount_2@)
    }
}

impl DoubleEntry {
    pub fn new(
        date: String,
        description: String,
        account_1: String,
        amount_1: CommodityValue,
        account_2: String,
        amount_2: CommodityValue,
    ) -> (r: Self)
        ensures
            r@ == (date@, description@, account_1@, amount_1@, account_2@, amount_2@),
    {
        DoubleEntry { date, description, account_1, amount_1, account_2, amount_2 }
    }

    /// The journal text of the entry.
    pub fn to_string(&self) -> (r: String)
        requires
            displayable(self@.3.0),
            displayable(self@.5.0),
        ensures
            r@ == entry_str(self@),
    {
        let mut s = self.date.clone();
        s.push(' ');
        s.append(self.description.as_str());
        s.push('\n');
        s.push('\t');
        s.append(self.account_1.as_str());
        s.push(' ');
        let a1 = self.amount_1.to_string();
        s.append(a1.as_str());
        s.push('\n');
        s.push('\t');
        s.append(self.account_2.as_str());
        s.push(' ');
        let a2 = self.amount_2.to_string();
        s.append(a2.as_str());
        s.push('\n');
        s.push('\n');
        assert(s@ =~= entry_str(self@));
        s
    }
}

} // verus!
