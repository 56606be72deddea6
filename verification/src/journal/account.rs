//! hledger-style hierarchical accounts: one of five root accounts followed by
//! any number of colon-separated sub-accounts, e.g. `assets:bank:checking`.

use vstd::prelude::*;
use crate::error::RsledgerError;
use crate::text::{
    chars_of, join, lemma_split_on_join, split_char, split_on, str_eq, string_from, trim,
    trim_chars, views,
};

verus! {

/// The five root accounts.
#[derive(Debug, Clone, Copy, PartialEq, Eq, Hash, Structural)]
pub enum RootAccount {
    Assets,
    Liabilities,
    Equity,
    Income,
    Expenses,
}

/// The name of a root account as written in a journal.
pub open spec fn root_name(r: RootAccount) -> Seq<char> {
    match r {
        RootAccount::Assets => "assets"@,
        RootAccount::Liabilities => "liabilities"@,
        RootAccount::Equity => "equity"@,
        RootAccount::Income => "income"@,
        RootAccount::Expenses => "expenses"@,
    }
}

/// The root account a name denotes (exact, lower-case match).
pub open spec fn root_of(s: Seq<char>) -> Option<RootAccount> {
    if s == "assets"@ {
        Some(RootAccount::Assets)
    } else if s == "liabilities"@ {
        Some(RootAccount::Liabilities)
    } else if s == "equity"@ {
        Some(RootAccount::Equity)
    } else if s == "income"@ {
        Some(RootAccount::Income)
    } else if s == "expenses"@ {
        Some(RootAccount::Expenses)
    } else {
        None
    }
}

/// The abstract account: the root and the sub-account names.
pub type AccountView = (RootAccount, Seq<Seq<char>>);

/// `root:sub1:sub2...`
pub open spec fn account_str(a: AccountView) -> Seq<char> {
    join(seq![root_name(a.0)] + a.1, seq![':'])
}

/// The sub-account pieces of `s`: the text after each colon, trimmed.
pub open spec fn sub_account_parts(s: Seq<char>) -> Seq<Seq<char>> {
    split_on(s, ':').skip(1).map_values(|p: Seq<char>| trim(p))
}

/// What `Account::from_str` yields: the account, or the reason it is refused.
pub open spec fn account_parse(s: Seq<char>) -> Result<AccountView, Seq<char>> {
    let parts = split_on(s, ':');
    if parts[0].len() == 0 {
        Err("Account cannot be empty"@)
    } else {
        match root_of(parts[0]) {
            None => Err("Invalid root account"@),
            Some(r) => {
                let subs = sub_account_parts(s);
                if exists|i: int| 0 <= i < subs.len() && subs[i].len() == 0 {
                    Err("Sub-account cannot be empty"@)
                } else {
                    Ok((r, subs))
                }
            },
        }
    }
}

/// Sub-accounts that print and parse back unchanged: non-empty, without a
/// colon, and without surrounding whitespace.
pub open spec fn well_formed_account(a: AccountView) -> bool {
    forall|i: int| 0 <= i < a.1.len() ==> {
        &&& (#[trigger] a.1[i]).len() > 0
        &&& !a.1[i].contains(':')
        &&& trim(a.1[i]) == a.1[i]
    }
}

impl RootAccount {
    /// The root account's name, e.g. `"assets"`.
    pub fn to_string(&self) -> (r: String)
        ensures
            r@ == root_name(*self),
    {
        match self {
            RootAccount::Assets => "assets".to_owned(),
            RootAccount::Liabilities => "liabilities".to_owned(),
            RootAccount::Equity => "equity".to_owned(),
            RootAccount::Income => "income".to_owned(),
            RootAccount::Expenses => "expenses".to_owned(),
        }
    }
}

/// A hierarchical account.
#[derive(Debug, Hash)]
pub struct Account {
    root_account: RootAccount,
    sub_accounts: Vec<String>,
}

pub open spec fn string_views(v: Seq<String>) -> Seq<Seq<char>> {
    v.map_values(|s: String| s@)
}

impl View for Account {
    type V = AccountView;

    closed spec fn view(&self) -> AccountView {
        (self.root_account, string_views(self.sub_accounts@))
    }
}

fn clone_strings(v: &Vec<String>) -> (r: Vec<String>)
    ensures
        string_views(r@) == string_views(v@),
{
    let mut r: Vec<String> = Vec::new();
    let mut i: usize = 0;
    while i < v.len()
        invariant
            i <= v.len(),
            r@.len() == i,
            forall|k: int| 0 <= k < i ==> (#[trigger] r@[k])@ == v@[k]@,
        decreases v.len() - i,
    {
        r.push(v[i].clone());
        i = i + 1;
    }
    assert(string_views(r@) =~= string_views(v@));
    r
}

impl Clone for Account {
    fn clone(&self) -> (r: Self)
        ensures
            r@ == self@,
    {
        Account { root_account: self.root_account, sub_accounts: clone_strings(&self.sub_accounts) }
    }
}

impl Account {
    /// An account with this root and these sub-accounts.
    pub fn new(root_account: RootAccount, sub_accounts: Vec<String>) -> (r: Self)
        ensures
            r@ == (root_account, string_views(sub_accounts@)),
    {
        Account { root_account, sub_accounts }
    }

    pub fn root_account(&self) -> (r: RootAccount)
        ensures
            r == self@.0,
    {
        self.root_account
    }

    pub fn sub_accounts(&self) -> (r: &Vec<String>)
        ensures
            string_views(r@) == self@.1,
    {
        &self.sub_accounts
    }

    /// Parses `root:sub1:sub2...`. The root must be one of `assets`,
    /// `liabilities`, `equity`, `income`, `expenses` exactly; sub-accounts are
    /// trimmed and must not be empty.
    pub fn from_str(account_str: &str) -> (r: Result<Self, RsledgerError>)
        ensures
            match r {
                Ok(a) => account_parse(account_str@) == Ok::<AccountView, Seq<char>>(a@),
                Err(e) => account_parse(account_str@) matches Err(reason)
                    && e matches RsledgerError::ParseError(item, why)
                    && item@ == account_str@ && why@ == reason,
            },
    {
        let cs = chars_of(account_str);
        let parts = split_char(&cs, ':');
        let ghost pv = split_on(account_str@, ':');
        proof {
            crate::text::lemma_split_on_len(account_str@, ':');
            assert(views(parts@)[0] == parts@[0]@);
        }
        if parts[0].len() == 0 {
            return Err(RsledgerError::ParseError(account_str.to_owned(), "Account cannot be empty".to_owned()));
        }
        let first = string_from(&parts[0]);
        let root = if str_eq(first.as_str(), "assets") {
            RootAccount::Assets
        } else if str_eq(first.as_str(), "liabilities") {
            RootAccount::Liabilities
        } else if str_eq(first.as_str(), "equity") {
            RootAccount::Equity
        } else if str_eq(first.as_str(), "income") {
            RootAccount::Income
        } else if str_eq(first.as_str(), "expenses") {
            RootAccount::Expenses
        } else {
            return Err(RsledgerError::ParseError(account_str.to_owned(), "Invalid root account".to_owned()));
        };
        assert(root_of(pv[0]) == Some(root));
        let ghost subs = sub_account_parts(account_str@);
        let mut sub_accounts: Vec<String> = Vec::new();
        let mut i: usize = 1;
        while i < parts.len()
            invariant
                1 <= i <= parts@.len(),
                views(parts@) == pv,
                pv == split_on(account_str@, ':'),
                pv[0].len() > 0,
                root_of(pv[0]) == Some(root),
                subs == pv.skip(1).map_values(|p: Seq<char>| trim(p)),
                subs == sub_account_parts(account_str@),
                subs.len() == pv.len() - 1,
                sub_accounts@.len() == i - 1,
                forall|k: int| 0 <= k < i - 1 ==> (#[trigger] sub_accounts@[k])@ == subs[k],
                forall|k: int| 0 <= k < i - 1 ==> (#[trigger] subs[k]).len() > 0,
            decreases parts.len() - i,
        {
            let t = trim_chars(&parts[i]);
            assert(parts@[i as int]@ == pv[i as int]);
            assert(subs[i - 1] == trim(pv[i as int]));
            if t.len() == 0 {
                assert(subs[i - 1].len() == 0);
                return Err(RsledgerError::ParseError(account_str.to_owned(), "Sub-account cannot be empty".to_owned()));
            }
            sub_accounts.push(string_from(&t));
            i = i + 1;
        }
        assert(string_views(sub_accounts@) =~= subs);
        Ok(Account { root_account: root, sub_accounts })
    }

    /// The account text, `root:sub1:sub2...`.
    pub fn to_string(&self) -> (r: String)
        ensures
            r@ == account_str(self@),
    {
        let ghost parts = seq![root_name(self.root_account)] + string_views(self.sub_accounts@);
        let mut s = self.root_account.to_string();
        let mut i: usize = 0;
        assert(parts.take(1) =~= seq![root_name(self.root_account)]);
        while i < self.sub_accounts.len()
            invariant
                i <= self.sub_accounts@.len(),
                parts == seq![root_name(self.root_account)] + string_views(self.sub_accounts@),
                s@ == join(parts.take(i + 1), seq![':']),
            decreases self.sub_accounts.len() - i,
        {
            s.push(':');
            s.append(self.sub_accounts[i].as_str());
            i = i + 1;
            proof {
                let pt = parts.take(i + 1);
                assert(pt.drop_last() =~= parts.take(i as int));
                assert(pt.last() == self.sub_accounts@[i - 1]@);
            }
        }
        assert(parts.take(self.sub_accounts.len() + 1) =~= parts);
        s
    }
}

proof fn lemma_root_roundtrip(r: RootAccount)
    ensures
        root_of(root_name(r)) == Some(r),
        root_name(r).len() > 0,
{
    reveal_strlit("assets");
    reveal_strlit("liabilities");
    reveal_strlit("equity");
    reveal_strlit("income");
    reveal_strlit("expenses");
    match r {
        RootAccount::Assets => {},
        RootAccount::Liabilities => {
            assert("liabilities"@.len() != "assets"@.len());
        },
        RootAccount::Equity => {
            assert("equity"@[0] != "assets"@[0]);
            assert("equity"@.len() != "liabilities"@.len());
        },
        RootAccount::Income => {
            assert("income"@[0] != "assets"@[0]);
            assert("income"@.len() != "liabilities"@.len());
            assert("income"@[0] != "equity"@[0]);
        },
        RootAccount::Expenses => {
            assert("expenses"@.len() != "assets"@.len());
            assert("expenses"@.len() != "liabilities"@.len());
            assert("expenses"@.len() != "equity"@.len());
            assert("expenses"@.len() != "income"@.len());
        },
    }
}

/// Printing a well-formed account and parsing the text gives the account back.
pub proof fn law_account_display_then_parse(a: Account)
    requires
        well_formed_account(a@),
    ensures
        account_parse(account_str(a@)) == Ok::<AccountView, Seq<char>>(a@),
{
    let parts = seq![root_name(a@.0)] + a@.1;
    assert forall|i: int| 0 <= i < parts.len() implies !(#[trigger] parts[i]).contains(':') by {
        if i == 0 {
            assert(parts[0] == root_name(a@.0));
            reveal_strlit("assets");
            reveal_strlit("liabilities");
            reveal_strlit("equity");
            reveal_strlit("income");
            reveal_strlit("expenses");
            if root_name(a@.0).contains(':') {
                let k = choose|k: int| 0 <= k < root_name(a@.0).len() && root_name(a@.0)[k] == ':';
            }
        } else {
            assert(parts[i] == a@.1[i - 1]);
        }
    }
    lemma_split_on_join(parts, ':');
    let s = account_str(a@);
    assert(split_on(s, ':') == parts);
    lemma_root_roundtrip(a@.0);
    assert(parts[0].len() > 0);
    assert(root_of(parts[0]) == Some(a@.0));
    assert(parts.skip(1) =~= a@.1);
    assert(sub_account_parts(s) =~= a@.1);
}

} // verus!
