//! What is appended to a journal file for each kind of entry.

use vstd::prelude::*;
use crate::date::Date;
use crate::error::RsledgerError;
use crate::price::{PriceDirective, price_str};
use crate::commodity_value::fixed_decimal::displayable;
use crate::transaction::{Transaction, is_balanced, none_count, posting_views, totals_fit, transaction_str};
use crate::transaction::posting::{Posting, PostingView, posting_displayable};

verus! {

/// The text appended for a transaction: a blank line, the transaction, a
/// newline; an unbalanced transaction is refused and nothing is written.
pub fn transaction_entry_text(transaction: &Transaction) -> (r: Result<String, RsledgerError>)
    requires
        none_count(transaction@.2) == 0 ==> totals_fit(transaction@.2),
        forall|k: int| 0 <= k < transaction@.2.len() ==> posting_displayable(#[trigger] transaction@.2[k]),
    ensures
        is_balanced(transaction@.2) ==> (r matches Ok(s)
            && s@ == seq!['\n'] + transaction_str(transaction@.0, transaction@.1, transaction@.2) + seq!['\n']),
        !is_balanced(transaction@.2) ==> (r matches Err(RsledgerError::ValidationError(item, why))
            && item@ == "Invalid Transaction"@ && why@ == "Transaction is not balanced."@),
{
    if !transaction.validate() {
        return Err(RsledgerError::ValidationError("Invalid Transaction".to_owned(), "Transaction is not balanced.".to_owned()));
    }
    let mut s = String::new();
    s.push('\n');
    let t = transaction.to_string();
    s.append(t.as_str());
    s.push('\n');
    assert(s@ =~= seq!['\n'] + transaction_str(transaction@.0, transaction@.1, transaction@.2) + seq!['\n']);
    Ok(s)
}

/// The text appended for a price directive: the directive and a newline.
pub fn price_entry_text(price: &PriceDirective) -> (r: String)
    requires
        displayable(price@.2.0),
    ensures
        r@ == price_str(price@) + seq!['\n'],
{
    let mut s = price.to_string();
    s.push('\n');
    s
}

/// The opening transaction of a new journal: the given postings followed by
/// `equity:opening-balance`, which balances them, described as `Opening balance`.
pub fn opening_transaction(date: Date, postings: Vec<Posting>) -> (r: Transaction)
    ensures
        r@ == (date@, "Opening balance"@,
            posting_views(postings@).push(("equity:opening-balance"@, None::<((int, nat), Seq<char>)>))),
{
    let mut postings = postings;
    let ghost before = posting_views(postings@);
    postings.push(Posting::new("equity:opening-balance".to_owned(), None));
    assert(posting_views(postings@) =~= before.push(postings@.last()@));
    Transaction::new(date, "Opening balance".to_owned(), postings)
}

} // verus!
