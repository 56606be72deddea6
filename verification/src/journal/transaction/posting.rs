//! A journal posting line: an account and, unless it balances the
//! transaction automatically, an amount separated from it by two or more
//! whitespace characters.

use vstd::prelude::*;
use crate::commodity_value::fixed_decimal::{
    abs_int, decimal_str, displayable, is_canonical, lemma_decimal_str_no_ws, normalize,
};
use crate::error::{RsledgerError, error_str};
use crate::journal::account::{Account, AccountView, account_parse, account_str, well_formed_account};
use crate::text::{
    char_utf8_len, char_utf8_width, chars_of, is_whitespace, is_ws, lemma_trim_id, lemma_trim_start_skip,
    pow10, single_spaced, string_from, subvec, trim, trim_chars, trim_end, trim_start, ws_tokens,
};
use crate::transaction::commodity_value::{
    CommodityValue, bad_amount_msg, commodity_value_journal_str, commodity_value_parse,
    law_journal_display_then_parse, missing_commodity_msg, well_formed_name,
};

verus! {

/// The abstract posting: the account and the optional amount (scaled value
/// and commodity name).
pub type JournalPostingView = (AccountView, Option<((int, nat), Seq<char>)>);

/// Two whitespace characters in a row start at position `k` of `s`.
pub open spec fn double_ws_at(s: Seq<char>, k: int) -> bool {
    0 <= k && k + 1 < s.len() && is_ws(s[k]) && is_ws(s[k + 1])
}

/// The first position at or after `i` where two whitespace characters start,
/// or `s.len()` when there is none.
pub open spec fn double_ws_from(s: Seq<char>, i: int) -> int
    decreases s.len() - i,
{
    if i < 0 || i + 1 >= s.len() {
        s.len() as int
    } else if is_ws(s[i]) && is_ws(s[i + 1]) {
        i
    } else {
        double_ws_from(s, i + 1)
    }
}

/// Where the account ends: the first double whitespace, or `s.len()`.
pub open spec fn account_end(s: Seq<char>) -> int {
    double_ws_from(s, 0)
}

/// The scan for the account's end reads each whitespace character it meets
/// as a single byte; a multi-byte whitespace character there (such as a
/// no-break space) would split a character, which `str` slicing refuses.
pub open spec fn posting_scannable(s: Seq<char>) -> bool {
    forall|j: int| 0 <= j < s.len() && j <= account_end(s) && is_ws(#[trigger] s[j])
        ==> char_utf8_len(s[j]) == 1
}

/// The message of a refused amount, as `CommodityValue::from_str` words it.
pub open spec fn amount_error(t: Seq<char>) -> Seq<char> {
    if ws_tokens(t).len() < 2 {
        missing_commodity_msg(t)
    } else {
        bad_amount_msg(ws_tokens(t)[0])
    }
}

pub open spec fn account_error(item: Seq<char>, reason: Seq<char>) -> Seq<char> {
    "Failed to parse account: "@ + "Could not parse "@ + item + ": "@ + reason
}

/// What `Posting::from_str` yields for `s`: the posting, or the reason
/// (reported with the whole line as the item).
pub open spec fn posting_parse(s: Seq<char>) -> Result<JournalPostingView, Seq<char>> {
    let k = account_end(s);
    if k == 0 || k >= s.len() {
        match account_parse(trim(s)) {
            Ok(a) => Ok((a, None)),
            Err(r) => Err(account_error(trim(s), r)),
        }
    } else {
        match account_parse(s.take(k)) {
            Err(r) => Err(account_error(s.take(k), r)),
            Ok(a) => {
                let t = trim(s.skip(k));
                match commodity_value_parse(t) {
                    Some(p) => Ok((a, Some((normalize(p.0.0, p.0.1), p.1)))),
                    None => Err("Failed to parse amount: "@ + amount_error(t)),
                }
            },
        }
    }
}

/// The line of a posting: the account, two spaces and the amount, or the
/// account alone.
pub open spec fn journal_posting_str(p: JournalPostingView) -> Seq<char> {
    match p.1 {
        Some(v) => account_str(p.0) + seq![' ', ' '] + commodity_value_journal_str(v.0, v.1),
        None => account_str(p.0),
    }
}

proof fn lemma_double_ws_from(s: Seq<char>, i: int, k: int)
    requires
        0 <= i <= k,
        k == s.len() || double_ws_at(s, k),
        forall|j: int| i <= j < k ==> !double_ws_at(s, j),
    ensures
        double_ws_from(s, i) == k,
    decreases k - i,
{
    if i < k {
        assert(!double_ws_at(s, i));
        if i + 1 < s.len() {
            lemma_double_ws_from(s, i + 1, k);
        }
    }
}

/// A line of a journal transaction.
#[derive(Debug, Hash)]
pub struct Posting {
    account: Account,
    amount: Option<CommodityValue>,
}

impl View for Posting {
    type V = JournalPostingView;

    closed spec fn view(&self) -> JournalPostingView {
        (self.account@, match self.amount {
            Some(a) => Some(a@),
            None => None,
        })
    }
}

impl Clone for Posting {
    fn clone(&self) -> (r: Self)
        ensures
            r@ == self@,
    {
        let amount = match &self.amount {
            Some(a) => Some(a.clone()),
            None => None,
        };
        Posting { account: self.account.clone(), amount }
    }
}

impl Posting {
    /// A posting of `amount` to `account`; `None` makes it auto-balancing.
    pub fn new(account: Account, amount: Option<CommodityValue>) -> (r: Self)
        ensures
            r@.0 == account@,
            r@.1 == match amount {
                Some(a) => Some(a@),
                None => None::<((int, nat), Seq<char>)>,
            },
    {
        Posting { account, amount }
    }

    /// Parses `"<account>  <amount> <commodity>"`. The account ends at the
    /// first run of two whitespace characters, so it may itself hold single
    /// spaces; without such a run the whole (trimmed) line is the account of
    /// an auto-balancing posting.
    pub fn from_str(posting_str: &str) -> (r: Result<Posting, RsledgerError>)
        requires
            posting_scannable(posting_str@),
        ensures
            match r {
                Ok(p) => posting_parse(posting_str@) == Ok::<JournalPostingView, Seq<char>>(p@),
                Err(e) => posting_parse(posting_str@) matches Err(m)
                    && e matches RsledgerError::ParseError(item, why)
                    && item@ == posting_str@ && why@ == m,
            },
    {
        let cs = chars_of(posting_str);
        let n = cs.len();
        let mut k: usize = 0;
        let mut found = false;
        while k < n && !found
            invariant
                cs@ == posting_str@,
                n == cs@.len(),
                k <= n,
                posting_scannable(posting_str@),
                forall|j: int| 0 <= j < k ==> !double_ws_at(cs@, j),
                found ==> k < n && double_ws_at(cs@, k as int),
            decreases n - k + (if found { 0int } else { 1int }),
        {
            if is_whitespace(cs[k]) {
                if k + 1 < n && is_whitespace(cs[k + 1]) {
                    found = true;
                }
            }
            if !found {
                k = k + 1;
            }
        }
        proof {
            lemma_double_ws_from(cs@, 0, k as int);
        }
        if k == 0 || k >= n {
            let t = trim_chars(&cs);
            let ts = string_from(&t);
            match Account::from_str(ts.as_str()) {
                Ok(a) => Ok(Posting { account: a, amount: None }),
                Err(e) => {
                    let mut m = "Failed to parse account: ".to_owned();
                    let es = e.to_string();
                    m.append(es.as_str());
                    Err(RsledgerError::ParseError(posting_str.to_owned(), m))
                },
            }
        } else {
            let head = subvec(&cs, 0, k);
            let hs = string_from(&head);
            assert(head@ =~= cs@.take(k as int));
            match Account::from_str(hs.as_str()) {
                Err(e) => {
                    let mut m = "Failed to parse account: ".to_owned();
                    let es = e.to_string();
                    m.append(es.as_str());
                    Err(RsledgerError::ParseError(posting_str.to_owned(), m))
                },
                Ok(a) => {
                    let tail = subvec(&cs, k, n);
                    assert(tail@ =~= cs@.skip(k as int));
                    let t = trim_chars(&tail);
                    let ts = string_from(&t);
                    match CommodityValue::from_str(ts.as_str()) {
                        Ok(v) => Ok(Posting { account: a, amount: Some(v) }),
                        Err(e) => {
                            let mut m = "Failed to parse amount: ".to_owned();
                            m.append(e.as_str());
                            Err(RsledgerError::ParseError(posting_str.to_owned(), m))
                        },
                    }
                },
            }
        }
    }

    /// The account.
    pub fn account(&self) -> (r: &Account)
        ensures
            r@ == self@.0,
    {
        &self.account
    }

    /// The amount, or `None` for an auto-balancing posting.
    pub fn amount(&self) -> (r: Option<&CommodityValue>)
        ensures
            match r {
                Some(a) => self@.1 == Some(a@),
                None => self@.1 is None,
            },
    {
        match &self.amount {
            Some(a) => Some(a),
            None => None,
        }
    }

    /// The posting line, e.g. `"expenses:food  50 SEK"` or `"assets:bank"`.
    pub fn to_string(&self) -> (r: String)
        requires
            match self@.1 {
                Some(v) => displayable(v.0),
                None => true,
            },
        ensures
            r@ == journal_posting_str(self@),
    {
        let mut s = self.account.to_string();
        match &self.amount {
            Some(a) => {
                s.push(' ');
                s.push(' ');
                let t = a.to_journal_string();
                s.append(t.as_str());
                s
            },
            None => s,
        }
    }
}

/// Every whitespace character of `s` is a space.
pub open spec fn spaces_only(s: Seq<char>) -> bool {
    forall|i: int| 0 <= i < s.len() && is_ws(#[trigger] s[i]) ==> s[i] == ' '
}

/// Printing a posting and parsing the line gives the posting back, provided
/// its account is well formed and written with single spaces only, and its
/// amount (if any) is in canonical form, prints with its sign and names its
/// commodity in a well-formed way.
pub proof fn law_posting_display_then_parse(p: Posting)
    requires
        well_formed_account(p@.0),
        single_spaced(account_str(p@.0)),
        match p@.1 {
            Some(v) => displayable(v.0) && is_canonical(v.0)
                && !(v.0.1 > 0 && v.0.0 < 0 && abs_int(v.0.0) < pow10(v.0.1))
                && well_formed_name(v.1),
            None => true,
        },
    ensures
        posting_scannable(journal_posting_str(p@)),
        posting_parse(journal_posting_str(p@)) == Ok::<JournalPostingView, Seq<char>>(p@),
{
    let a = p@.0;
    let acc = account_str(a);
    let s = journal_posting_str(p@);
    crate::journal::account::law_account_display_then_parse(p.account);
    assert(!is_ws(acc[0]));
    assert(!is_ws(acc.last()));
    match p.amount {
        None => {
            assert(s == acc);
            assert forall|j: int| 0 <= j < s.len() implies !double_ws_at(s, j) by {
                if double_ws_at(s, j) {
                    assert(s[j] == ' ' && s[j + 1] == ' ');
                }
            }
            lemma_double_ws_from(s, 0, s.len() as int);
            lemma_trim_id(s);
        },
        Some(cv) => {
            let v = cv@;
            let c = commodity_value_journal_str(v.0, v.1);
            law_journal_display_then_parse(cv);
            lemma_decimal_str_no_ws(v.0);
            let d = decimal_str(v.0);
            let rest = if v.1.contains(' ') { seq!['"'] + v.1 + seq!['"'] } else { v.1 };
            assert(c =~= d + seq![' '] + rest);
            assert(!is_ws(c[0])) by {
                assert(c[0] == d[0]);
            }
            assert(!is_ws(c.last())) by {
                assert(c.last() == rest.last());
                if v.1.contains(' ') {
                    assert(rest.last() == '"');
                } else {
                    assert(rest.last() == v.1.last());
                }
            }
            assert(s =~= acc + seq![' ', ' '] + c);
            let k = acc.len() as int;
            assert forall|j: int| 0 <= j < k implies !double_ws_at(s, j) by {
                if double_ws_at(s, j) {
                    if j < k - 1 {
                        assert(s[j] == acc[j] && s[j + 1] == acc[j + 1]);
                        assert(acc[j] == ' ' && acc[j + 1] == ' ');
                    } else {
                        assert(s[j] == acc.last());
                    }
                }
            }
            assert(double_ws_at(s, k));
            lemma_double_ws_from(s, 0, k);
            assert(s.take(k) =~= acc);
            let tail = s.skip(k);
            assert(tail =~= seq![' ', ' '] + c);
            lemma_trim_start_skip(tail, 2);
            assert(tail.skip(2) =~= c);
            lemma_trim_id(c);
            assert(trim(tail) == trim_end(trim_start(c)));
            crate::commodity_value::fixed_decimal::lemma_normalize(v.0.0, v.0.1);
            crate::commodity_value::fixed_decimal::lemma_canonical_unique(normalize(v.0.0, v.0.1), v.0);
            assert(spaces_only(s)) by {
                assert forall|j: int| 0 <= j < s.len() && is_ws(#[trigger] s[j]) implies s[j] == ' ' by {
                    if j < k {
                        assert(s[j] == acc[j]);
                    } else if j >= k + 2 {
                        let m = j - k - 2;
                        assert(s[j] == c[m]);
                        if m < d.len() {
                            assert(c[m] == d[m]);
                        } else if m > d.len() {
                            assert(c[m] == rest[m - d.len() - 1]);
                            if v.1.contains(' ') {
                                let q = m - d.len() - 1;
                                if 0 < q < rest.len() - 1 {
                                    assert(rest[q] == v.1[q - 1]);
                                }
                            }
                        }
                    }
                }
            }
        },
    }
}

} // verus!
