//! A posting: one line of a transaction, an account with an optional amount.

use vstd::prelude::*;
use crate::commodity_value::fixed_decimal::displayable;
use crate::transaction::commodity_value::{CommodityValue, commodity_value_journal_str};

verus! {

/// The abstract posting: the account name and, unless it is an auto-balancing
/// posting, the amount's scaled value and commodity name.
pub type PostingView = (Seq<char>, Option<((int, nat), Seq<char>)>);

/// The journal line of a posting (without indentation): the account, two
/// spaces and the amount, or the account alone for an auto-balancing posting.
pub open spec fn posting_str(p: PostingView) -> Seq<char> {
    match p.1 {
        Some(v) => p.0 + seq![' ', ' '] + commodity_value_journal_str(v.0, v.1),
        None => p.0,
    }
}

/// The posting's amount, if any, can be displayed.
pub open spec fn posting_displayable(p: PostingView) -> bool {
    match p.1 {
        Some(v) => displayable(v.0),
        None => true,
    }
}

/// One line of a transaction: an account and an optional amount. A `None`
/// amount marks the auto-balancing posting whose value is inferred.
#[derive(Debug, Hash)]
pub struct Posting {
    account: String,
    amount: Option<CommodityValue>,
}

impl View for Posting {
    type V = PostingView;

    closed spec fn view(&self) -> PostingView {
        (self.account@, match self.amount {
            Some(a) => Some(a@),
            None => None,
        })
    }
}

impl Clone for Posting {
    fn clone(&self) -> (r: Self)
        ensures
            r@ == self@,
    {
        let amount = match &self.amount {
            Some(a) => Some(a.clone()),
            None => None,
        };
        Posting { account: self.account.clone(), amount }
    }
}

impl Posting {
    /// A posting of `amount` to `account`; `None` makes it auto-balancing.
    pub fn new(account: String, amount: Option<CommodityValue>) -> (r: Self)
        ensures
            r@.0 == account@,
            r@.1 == match amount {
                Some(a) => Some(a@),
                None => None::<((int, nat), Seq<char>)>,
            },
    {
        Posting { account, amount }
    }

    /// The amount, or `None` for an auto-balancing posting.
    pub fn get_amount(&self) -> (r: Option<&CommodityValue>)
        ensures
            match r {
                Some(a) => self@.1 == Some(a@),
                None => self@.1 is None,
            },
    {
        match &self.amount {
            Some(a) => Some(a),
            None => None,
        }
    }

    /// The account name.
    pub fn get_account(&self) -> (r: &str)
        ensures
            r@ == self@.0,
    {
        self.account.as_str()
    }

    /// The journal line, e.g. `"expenses:food  50 SEK"` or `"assets:bank"`.
    pub fn to_string(&self) -> (r: String)
        requires
            posting_displayable(self@),
        ensures
            r@ == posting_str(self@),
    {
        match &self.amount {
            Some(a) => {
                let mut s = self.account.clone();
                s.push(' ');
                s.push(' ');
                let t = a.to_journal_string();
                s.append(t.as_str());
                s
            },
            None => self.account.clone(),
        }
    }
}

} // verus!
