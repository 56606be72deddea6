//! Importing bank and broker CSV exports into transactions, and deciding
//! which of them the journal still lacks.

pub mod avanza_parser;
pub mod hsbc_parser;
pub mod rules;
pub mod seb_parser;
pub mod volksbank_parser;

pub use crate::csv_importer::ImportCandidate;

use vstd::prelude::*;
use crate::commodity_value::fixed_decimal::normalize;
use crate::csv_importer::generic_importer::{ProtoTransaction, ProtoView, classify_by, classify_by_rules};
use crate::csv_importer::rules::{RegexRule, RuleView, rule_views};
use crate::date::{Date, chrono_parse_date};
use crate::cli::utils::{account_input_step, invalid_account_msg};
use crate::journal::account::{account_parse, account_str};
use crate::journal::{TransactionView, transaction_views};
use crate::text::str_is_empty;
use crate::transaction::commodity_value::{CommodityValue, commodity_value_parse};
use crate::transaction::{Transaction, functional_hash_of, partial_hash_of, posting_views};
use crate::transaction::posting::{Posting, PostingView};

verus! {

/// A transaction of the journal with its two fingerprints.
#[derive(Debug)]
pub struct HashedTransaction {
    pub functional_hash: u64,
    pub partial_hash: u64,
    pub transaction: Transaction,
}

impl View for HashedTransaction {
    type V = (u64, u64, TransactionView);

    open spec fn view(&self) -> (u64, u64, TransactionView) {
        (self.functional_hash, self.partial_hash, self.transaction@)
    }
}

/// Each transaction with its functional and partial fingerprints, in order.
pub fn hash_transactions(transactions: Vec<Transaction>) -> (r: Vec<HashedTransaction>)
    ensures
        r@.len() == transactions@.len(),
        forall|i: int| 0 <= i < r@.len() ==> {
            &&& (#[trigger] r@[i]).transaction@ == transactions@[i]@
            &&& r@[i].functional_hash == functional_hash_of(transactions@[i]@)
            &&& r@[i].partial_hash == partial_hash_of(transactions@[i]@)
        },
{
    let ghost tv = transaction_views(transactions@);
    let mut rest = transactions;
    let mut out: Vec<HashedTransaction> = Vec::new();
    let n = rest.len();
    let mut i: usize = 0;
    while i < n
        invariant
            i <= n,
            n == tv.len(),
            transaction_views(rest@) == tv.skip(i as int),
            out@.len() == i,
            forall|k: int| 0 <= k < i ==> {
                &&& (#[trigger] out@[k]).transaction@ == tv[k]
                &&& out@[k].functional_hash == functional_hash_of(tv[k])
                &&& out@[k].partial_hash == partial_hash_of(tv[k])
            },
        decreases n - i,
    {
        assert(transaction_views(rest@).len() == rest@.len());
        assert(transaction_views(rest@)[0] == rest@[0]@);
        let t = rest.remove(0);
        assert(tv.skip(i + 1) =~= tv.skip(i as int).drop_first());
        let functional_hash = t.functional_hash();
        let partial_hash = t.partial_hash();
        out.push(HashedTransaction { functional_hash, partial_hash, transaction: t });
        i = i + 1;
    }
    out
}

/// A classified candidate is already in the journal when a transaction there
/// has the same functional fingerprint (same date and postings).
pub fn is_already_imported(existing: &Vec<HashedTransaction>, candidate: &Transaction) -> (r: bool)
    ensures
        r == exists|i: int| 0 <= i < existing@.len()
            && (#[trigger] existing@[i]).functional_hash == functional_hash_of(candidate@),
{
    let h = candidate.functional_hash();
    let mut i: usize = 0;
    while i < existing.len()
        invariant
            i <= existing@.len(),
            h == functional_hash_of(candidate@),
            forall|k: int| 0 <= k < i ==> (#[trigger] existing@[k]).functional_hash != h,
        decreases existing.len() - i,
    {
        if existing[i].functional_hash == h {
            return true;
        }
        i = i + 1;
    }
    false
}

/// The positions, in journal order, of the transactions whose partial
/// fingerprint (date and first posting) equals the candidate's: the possible
/// matches of an unclassified candidate, offered to the user in this order.
pub fn partial_matches(existing: &Vec<HashedTransaction>, candidate: &Transaction) -> (r: Vec<usize>)
    ensures
        forall|k: int| 0 <= k < r@.len() ==> (#[trigger] r@[k]) < existing@.len()
            && existing@[r@[k] as int].partial_hash == partial_hash_of(candidate@),
        forall|k: int, l: int| 0 <= k < l < r@.len() ==> r@[k] < r@[l],
        forall|i: int| 0 <= i < existing@.len() && (#[trigger] existing@[i]).partial_hash == partial_hash_of(candidate@)
            ==> r@.contains(i as usize),
{
    let h = candidate.partial_hash();
    let mut out: Vec<usize> = Vec::new();
    let mut i: usize = 0;
    while i < existing.len()
        invariant
            i <= existing@.len(),
            h == partial_hash_of(candidate@),
            forall|k: int| 0 <= k < out@.len() ==> (#[trigger] out@[k]) < i
                && existing@[out@[k] as int].partial_hash == h,
            forall|k: int, l: int| 0 <= k < l < out@.len() ==> out@[k] < out@[l],
            forall|j: int| 0 <= j < i && (#[trigger] existing@[j]).partial_hash == h ==> out@.contains(j as usize),
        decreases existing.len() - i,
    {
        if existing[i].partial_hash == h {
            let ghost old = out@;
            out.push(i);
            assert forall|j: int| 0 <= j < i + 1 && (#[trigger] existing@[j]).partial_hash == h implies out@.contains(j as usize) by {
                if j < i {
                    assert(old.contains(j as usize));
                    let w = choose|w: int| 0 <= w < old.len() && old[w] == j as usize;
                    assert(out@[w] == j as usize);
                } else {
                    assert(out@[out@.len() - 1] == j as usize);
                }
            }
        }
        i = i + 1;
    }
    out
}

/// The user's answer accepts a match: `y` in either case.
pub fn is_yes(answer: &str) -> (r: bool)
    ensures
        r == (answer@ == seq!['y'] || answer@ == seq!['Y']),
{
    let cs = crate::text::chars_of(answer);
    let r = cs.len() == 1 && (cs[0] == 'y' || cs[0] == 'Y');
    proof {
        if cs@.len() == 1 {
            if cs@[0] == 'y' {
                assert(cs@ =~= seq!['y']);
            }
            if cs@[0] == 'Y' {
                assert(cs@ =~= seq!['Y']);
            }
        }
    }
    r
}

/// An unclassified candidate completed with the account the user gave: its
/// first posting, then the account as the auto-balancing posting.
pub fn complete_unclassified(candidate: &Transaction, account: String) -> (r: Transaction)
    requires
        candidate@.2.len() > 0,
    ensures
        r@ == (candidate@.0, candidate@.1, seq![candidate@.2[0], (account@, None::<((int, nat), Seq<char>)>)]),
{
    let first = candidate.get_postings()[0].clone();
    let second = Posting::new(account, None);
    let ps = vec![first, second];
    assert(posting_views(ps@) =~= seq![ps@[0]@, ps@[1]@]);
    Transaction::new(*candidate.get_date(), candidate.get_description().clone(), ps)
}

/// What the import does next with a candidate while weighing it against
/// the journal.
#[derive(Debug)]
pub enum DedupStep {
    /// Show the journal's transaction at this position as a possible match
    /// and ask whether the candidate is that transaction.
    AskMatch(usize),
    /// Ask for the account that balances the candidate.
    AskAccount,
    /// Leave the candidate out.
    Skip,
    /// Add this transaction to the journal.
    Add(Transaction),
    /// Show this message and ask for the account again.
    Reask(String),
}

/// The position of the first transaction at or after `i` whose partial
/// fingerprint is `h`.
pub open spec fn next_partial_match(existing: Seq<HashedTransaction>, h: u64, i: int) -> Option<int>
    decreases existing.len() - i,
{
    if i < 0 || i >= existing.len() {
        None
    } else if existing[i].partial_hash == h {
        Some(i)
    } else {
        next_partial_match(existing, h, i + 1)
    }
}

/// The first possible match at or after `i` (see `next_partial_match`).
fn find_partial_match(existing: &Vec<HashedTransaction>, h: u64, i: usize) -> (r: Option<usize>)
    requires
        i <= existing@.len(),
    ensures
        match next_partial_match(existing@, h, i as int) {
            Some(j) => r == Some(j as usize),
            None => r is None,
        },
{
    let mut k = i;
    while k < existing.len()
        invariant
            i <= k <= existing@.len(),
            next_partial_match(existing@, h, i as int) == next_partial_match(existing@, h, k as int),
        decreases existing.len() - k,
    {
        if existing[k].partial_hash == h {
            return Some(k);
        }
        k = k + 1;
    }
    None
}

/// The first step for a candidate: a classified one is left out when the
/// journal already holds it (see `is_already_imported`) and added otherwise;
/// an unclassified one is shown its first possible match (same partial
/// fingerprint), or, without one, an account is asked for.
pub fn candidate_step(existing: &Vec<HashedTransaction>, c: &ImportCandidate<Transaction>) -> (r: DedupStep)
    ensures
        match c {
            ImportCandidate::Classified(t) => if exists|i: int| 0 <= i < existing@.len()
                && (#[trigger] existing@[i]).functional_hash == functional_hash_of(t@) {
                r is Skip
            } else {
                r matches DedupStep::Add(x) && x@ == t@
            },
            ImportCandidate::Unclassified(t) => match next_partial_match(existing@, partial_hash_of(t@), 0) {
                Some(j) => r == DedupStep::AskMatch(j as usize),
                None => r is AskAccount,
            },
        },
{
    match c {
        ImportCandidate::Classified(t) => {
            if is_already_imported(existing, t) {
                DedupStep::Skip
            } else {
                DedupStep::Add(t.duplicate())
            }
        },
        ImportCandidate::Unclassified(t) => {
            match find_partial_match(existing, t.partial_hash(), 0) {
                Some(j) => DedupStep::AskMatch(j),
                None => DedupStep::AskAccount,
            }
        },
    }
}

/// The step after the user answered about the possible match at `at`: a
/// yes (`y` or `Y`) leaves the candidate out; otherwise the next possible
/// match is shown, or, without one, an account is asked for.
pub fn match_answer_step(existing: &Vec<HashedTransaction>, c: &Transaction, at: usize, answer: &str) -> (r: DedupStep)
    requires
        at < existing@.len(),
    ensures
        (answer@ == seq!['y'] || answer@ == seq!['Y']) ==> r is Skip,
        !(answer@ == seq!['y'] || answer@ == seq!['Y']) ==> match next_partial_match(existing@, partial_hash_of(c@), at + 1) {
            Some(j) => r == DedupStep::AskMatch(j as usize),
            None => r is AskAccount,
        },
{
    if is_yes(answer) {
        return DedupStep::Skip;
    }
    let n = existing.len();
    assert(at < n);
    match find_partial_match(existing, c.partial_hash(), at + 1) {
        Some(j) => DedupStep::AskMatch(j),
        None => DedupStep::AskAccount,
    }
}

/// The step after the user answered with an account for an unclassified
/// candidate: an empty answer leaves the candidate out; a valid account
/// completes it (see `complete_unclassified`); anything else is refused
/// with the message shown before asking again.
pub fn account_answer_step(c: &Transaction, input: &str) -> (r: DedupStep)
    requires
        c@.2.len() > 0,
    ensures
        input@.len() == 0 ==> r is Skip,
        input@.len() > 0 ==> match account_parse(input@) {
            Ok(a) => r matches DedupStep::Add(t)
                && t@ == (c@.0, c@.1, seq![c@.2[0], (account_str(a), None::<((int, nat), Seq<char>)>)]),
            Err(_) => r matches DedupStep::Reask(m) && m@ == invalid_account_msg(input@),
        },
{
    if str_is_empty(input) {
        return DedupStep::Skip;
    }
    match account_input_step(input) {
        Ok(a) => DedupStep::Add(complete_unclassified(c, a.to_string())),
        Err(m) => DedupStep::Reask(m),
    }
}

/// Importing a transaction again is recognised: when the journal holds a
/// transaction (hashed as `hash_transactions` does) with the same date and the
/// same postings in any order, whatever its description, a classified
/// candidate is reported as already imported, so importing the same export
/// twice adds its transactions once.
pub proof fn law_reimport_is_recognized(existing: Seq<HashedTransaction>, i: int, candidate: TransactionView)
    requires
        0 <= i < existing.len(),
        existing[i].functional_hash == functional_hash_of(existing[i].transaction@),
        existing[i].transaction@.0 == candidate.0,
        existing[i].transaction@.2.to_multiset() == candidate.2.to_multiset(),
    ensures
        exists|j: int| 0 <= j < existing.len() && (#[trigger] existing[j]).functional_hash == functional_hash_of(candidate),
{
    crate::transaction::lemma_functional_hash_views(existing[i].transaction@, candidate);
    assert(existing[i].functional_hash == functional_hash_of(candidate));
}


/// Importers of bank and broker CSV exports: each reads the records of an
/// export (each a list of fields) into import candidates.
pub trait CSVImporter {
    fn import_records(&self, records: &Vec<Vec<String>>) -> Vec<ImportCandidate<Transaction>>;

    /// The candidates of the export's text: the CSV reader splits it into
    /// records as the bank's export needs, and records it cannot read are
    /// skipped.
    fn import_text(&self, text: &[u8]) -> Vec<ImportCandidate<Transaction>>;
}

/// The date format the bank parsers bring their dates to.
pub open spec fn iso_date_format() -> Seq<char> {
    "%Y-%m-%d"@
}

/// A bank row brought to a date text (`YYYY-MM-DD`), a description and an
/// amount text (`<amount> <commodity>`), read before classification: `None`
/// when the date or the amount does not parse.
pub open spec fn bank_proto(date_text: Seq<char>, description: Seq<char>, amount_text: Seq<char>) -> Option<ProtoView> {
    match chrono_parse_date(date_text, iso_date_format()) {
        Err(_) => None,
        Ok(d) => match commodity_value_parse(amount_text) {
            None => None,
            Some(p) => Some(((d.0 as int, d.1 as int, d.2 as int), description, (normalize(p.0.0, p.0.1), p.1))),
        },
    }
}

/// A bank row read and classified by `rules` for `account` (see
/// `classify_by_rules`); a row that does not read is skipped.
pub open spec fn bank_candidate(
    rules: Seq<RuleView>,
    account: Seq<char>,
    date_text: Seq<char>,
    description: Seq<char>,
    amount_text: Seq<char>,
) -> Option<(bool, TransactionView)> {
    match bank_proto(date_text, description, amount_text) {
        Some(p) => classify_by_rules(rules, account, p),
        None => None,
    }
}

/// Reads and classifies a bank row (see `bank_candidate`).
pub fn bank_candidate_of(
    rules: &Vec<RegexRule>,
    account: &str,
    date_text: &str,
    description: String,
    amount_text: &str,
) -> (r: Option<ImportCandidate<Transaction>>)
    ensures
        match bank_candidate(rule_views(rules@), account@, date_text@, description@, amount_text@) {
            Some(c) => r matches Some(x) && x@ == c,
            None => r is None,
        },
{
    let fmt = "%Y-%m-%d";
    assert(fmt@ == iso_date_format());
    let date = match Date::parse_from_str(date_text, fmt) {
        Ok(d) => d,
        Err(_) => return None,
    };
    let amount = match CommodityValue::from_str(amount_text) {
        Ok(v) => v,
        Err(_) => return None,
    };
    let proto = ProtoTransaction { date, description, amount };
    classify_by(rules, account, proto)
}

/// The candidates that `row` gives for the first `n` records, in order,
/// skipped records left out.
pub open spec fn rows_kept(
    row: spec_fn(Seq<Seq<char>>) -> Option<(bool, TransactionView)>,
    recs: Seq<Seq<Seq<char>>>,
    n: int,
) -> Seq<(bool, TransactionView)>
    decreases n,
{
    if n <= 0 || n > recs.len() {
        Seq::empty()
    } else {
        let prev = rows_kept(row, recs, n - 1);
        match row(recs[n - 1]) {
            Some(c) => prev.push(c),
            None => prev,
        }
    }
}

} // verus!
