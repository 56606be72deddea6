//! What the interactive prompts make of each line the user types.

use vstd::prelude::*;
use crate::journal::account::{Account, AccountView, account_parse};
use crate::journal::transaction::posting::{JournalPostingView, Posting};
use crate::text::{join_from, split_whitespace, str_is_empty, string_from, views, ws_tokens, join};
use crate::transaction::commodity_value::CommodityValue;
use crate::transaction::commodity_value::commodity_value_parse;
use crate::commodity_value::fixed_decimal::normalize;

verus! {

pub open spec fn invalid_account_msg(input: Seq<char>) -> Seq<char> {
    "Invalid account '"@ + input
        + "'. Root must be one of: assets, liabilities, equity, income, expenses (e.g. 'assets:bank')."@
}

/// The account prompt's answer to a (trimmed) line: the account, or the
/// message shown before asking again.
pub fn account_input_step(input: &str) -> (r: Result<Account, String>)
    ensures
        input@.len() == 0 ==> (r matches Err(m)
            && m@ == "Account name cannot be empty. Please enter a valid account name (e.g. 'assets:bank')."@),
        input@.len() > 0 ==> match account_parse(input@) {
            Ok(a) => r matches Ok(x) && x@ == a,
            Err(_) => r matches Err(m) && m@ == invalid_account_msg(input@),
        },
{
    if str_is_empty(input) {
        return Err("Account name cannot be empty. Please enter a valid account name (e.g. 'assets:bank').".to_owned());
    }
    match Account::from_str(input) {
        Ok(a) => Ok(a),
        Err(_) => {
            let mut m = "Invalid account '".to_owned();
            m.append(input);
            m.append("'. Root must be one of: assets, liabilities, equity, income, expenses (e.g. 'assets:bank').");
            Err(m)
        },
    }
}

/// The value prompt's answer to a (trimmed) line: the value, or the message
/// shown before asking again.
pub fn value_input_step(input: &str) -> (r: Result<CommodityValue, String>)
    ensures
        match commodity_value_parse(input@) {
            Some(p) => r matches Ok(v) && v@ == (normalize(p.0.0, p.0.1), p.1),
            None => r matches Err(m)
                && m@ == "Invalid commodity value format. Please enter a valid commodity value (e.g. '500.00 SEK')."@,
        },
{
    match CommodityValue::from_str(input) {
        Ok(v) => Ok(v),
        Err(_) => Err("Invalid commodity value format. Please enter a valid commodity value (e.g. '500.00 SEK').".to_owned()),
    }
}

/// What the postings prompt makes of a line.
#[derive(Debug)]
pub enum PostingInput {
    /// An empty line: the postings are complete.
    Finished,
    /// A posting to add.
    Entered(Posting),
    /// A line that is refused, with the message shown before asking again.
    Invalid(String),
}

pub open spec fn invalid_posting_account_msg(a: Seq<char>) -> Seq<char> {
    "Invalid account name '"@ + a
        + "'. Root must be one of: assets, liabilities, equity, income, expenses (e.g. 'assets:bank')."@
}

/// The postings prompt's answer to a (trimmed) line: an empty line ends the
/// postings; `<account>` is an auto-balancing posting and
/// `<account> <amount> <commodity>` one with an amount; anything else, an
/// invalid account or an invalid amount is refused with a message.
pub fn posting_input_step(input: &str) -> (r: PostingInput)
    ensures
        ({
            let toks = ws_tokens(input@);
            if input@.len() == 0 {
                r is Finished
            } else if toks.len() != 1 && toks.len() != 3 {
                r matches PostingInput::Invalid(m) && m@ == "Invalid posting format. Please enter in the format '<account>' or '<account> <amount> <commodity>' (e.g. 'assets:bank 500.00 SEK')."@
            } else {
                match account_parse(toks[0]) {
                    Err(_) => r matches PostingInput::Invalid(m) && m@ == invalid_posting_account_msg(toks[0]),
                    Ok(a) => if toks.len() == 1 {
                        r matches PostingInput::Entered(p) && p@ == (a, None::<((int, nat), Seq<char>)>)
                    } else {
                        match commodity_value_parse(join(toks.skip(1), seq![' '])) {
                            Some(v) => r matches PostingInput::Entered(p) && p@ == (a, Some((normalize(v.0.0, v.0.1), v.1))),
                            None => r matches PostingInput::Invalid(m) && m@ == "Invalid amount format. Please enter a valid commodity amount (e.g. '500.00 SEK')."@,
                        }
                    },
                }
            }
        }),
{
    if str_is_empty(input) {
        return PostingInput::Finished;
    }
    let cs = crate::text::chars_of(input);
    let parts = split_whitespace(&cs);
    if parts.len() != 1 && parts.len() != 3 {
        return PostingInput::Invalid("Invalid posting format. Please enter in the format '<account>' or '<account> <amount> <commodity>' (e.g. 'assets:bank 500.00 SEK').".to_owned());
    }
    assert(views(parts@)[0] == parts@[0]@);
    let account_text = string_from(&parts[0]);
    let account = match Account::from_str(account_text.as_str()) {
        Ok(a) => a,
        Err(_) => {
            let mut m = "Invalid account name '".to_owned();
            m.append(account_text.as_str());
            m.append("'. Root must be one of: assets, liabilities, equity, income, expenses (e.g. 'assets:bank').");
            return PostingInput::Invalid(m);
        },
    };
    if parts.len() == 1 {
        return PostingInput::Entered(Posting::new(account, None));
    }
    let mut sep: Vec<char> = Vec::new();
    sep.push(' ');
    assert(sep@ =~= seq![' ']);
    let amount_text = string_from(&join_from(&parts, 1, &sep));
    match CommodityValue::from_str(amount_text.as_str()) {
        Ok(v) => PostingInput::Entered(Posting::new(account, Some(v))),
        Err(_) => PostingInput::Invalid("Invalid amount format. Please enter a valid commodity amount (e.g. '500.00 SEK').".to_owned()),
    }
}

} // verus!
