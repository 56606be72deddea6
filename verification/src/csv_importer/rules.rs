//! Classification rules: a regular expression matched against a
//! transaction's description, and what to do on a match.

use vstd::prelude::*;
use crate::text::{chars_of, str_eq};

verus! {

/// What `regex::Regex::new(pattern)` followed by `is_match(text)` answers:
/// whether `text` contains a match, or `None` when the pattern does not compile.
pub uninterp spec fn regex_match(pattern: Seq<char>, text: Seq<char>) -> Option<bool>;

/// Compiles `pattern` with `regex::Regex::new` and, when that succeeds, tests
/// `text` with `Regex::is_match`. The answer is named by `regex_match`;
/// whether the pattern compiles does not depend on the text (the text is not
/// seen until the compiled regex is used). Nothing is said here of which
/// texts a given pattern matches.
#[verifier::external_body]
pub(crate) fn regex_is_match(pattern: &str, text: &str) -> (r: Option<bool>)
    ensures
        r == regex_match(pattern@, text@),
        r is Some <==> regex_match(pattern@, Seq::empty()) is Some,
{
    match regex::Regex::new(pattern) {
        Ok(re) => Some(re.is_match(text)),
        Err(_) => None,
    }
}

/// The pattern compiles as a regular expression.
pub open spec fn pattern_compiles(pattern: Seq<char>) -> bool {
    regex_match(pattern, Seq::empty()) is Some
}

/// What a rule does with a matching transaction.
#[derive(Debug)]
pub enum RuleAction {
    /// Balance the transaction against this account.
    AssignAccount(String),
    /// Do not import the transaction.
    Skip,
}

impl View for RuleAction {
    /// The account to assign, or `None` to skip.
    type V = Option<Seq<char>>;

    open spec fn view(&self) -> Option<Seq<char>> {
        match self {
            RuleAction::AssignAccount(a) => Some(a@),
            RuleAction::Skip => None,
        }
    }
}

impl Clone for RuleAction {
    fn clone(&self) -> (r: Self)
        ensures
            r@ == self@,
    {
        match self {
            RuleAction::AssignAccount(a) => RuleAction::AssignAccount(a.clone()),
            RuleAction::Skip => RuleAction::Skip,
        }
    }
}

/// A classification rule: a regular expression over the description, and the
/// action taken when it matches. A pattern that does not compile matches nothing.
#[derive(Debug)]
pub struct RegexRule {
    pub pattern: String,
    pub action: RuleAction,
}

/// The abstract rule: the pattern and the action.
pub type RuleView = (Seq<char>, Option<Seq<char>>);

impl View for RegexRule {
    type V = RuleView;

    open spec fn view(&self) -> RuleView {
        (self.pattern@, self.action@)
    }
}

impl Clone for RegexRule {
    fn clone(&self) -> (r: Self)
        ensures
            r@ == self@,
    {
        RegexRule { pattern: self.pattern.clone(), action: self.action.clone() }
    }
}

pub open spec fn rule_views(rules: Seq<RegexRule>) -> Seq<RuleView> {
    rules.map_values(|r: RegexRule| r@)
}

/// The rule matches `text`.
pub open spec fn rule_matches(rule: RuleView, text: Seq<char>) -> bool {
    regex_match(rule.0, text) == Some(true)
}

/// The index of the first rule at or after `i` that matches `text`.
pub open spec fn first_match_from(rules: Seq<RuleView>, text: Seq<char>, i: int) -> Option<int>
    decreases rules.len() - i,
{
    if i < 0 || i >= rules.len() {
        None
    } else if rule_matches(rules[i], text) {
        Some(i)
    } else {
        first_match_from(rules, text, i + 1)
    }
}

/// The index of the first rule that matches `text`: rules are tried in order
/// and the first match wins.
pub open spec fn first_match(rules: Seq<RuleView>, text: Seq<char>) -> Option<int> {
    first_match_from(rules, text, 0)
}

/// The search from rule `i` on finds the first rule at or after `i` that
/// matches, and nothing when none does.
proof fn lemma_first_match_from(rules: Seq<RuleView>, text: Seq<char>, i: int)
    requires
        0 <= i <= rules.len(),
    ensures
        first_match_from(rules, text, i) matches Some(k) ==> {
            &&& i <= k < rules.len()
            &&& rule_matches(rules[k], text)
            &&& forall|j: int| i <= j < k ==> !rule_matches(#[trigger] rules[j], text)
        },
        first_match_from(rules, text, i) is None ==> forall|j: int| i <= j < rules.len() ==> !rule_matches(#[trigger] rules[j], text),
    decreases rules.len() - i,
{
    if i < rules.len() && !rule_matches(rules[i], text) {
        lemma_first_match_from(rules, text, i + 1);
    }
}

/// The first matching rule decides: the rule chosen for `text` matches it and
/// no earlier rule does, and no rule is chosen only when none matches.
pub proof fn law_first_matching_rule_wins(rules: Seq<RuleView>, text: Seq<char>)
    ensures
        first_match(rules, text) matches Some(k) ==> {
            &&& 0 <= k < rules.len()
            &&& rule_matches(rules[k], text)
            &&& forall|j: int| 0 <= j < k ==> !rule_matches(#[trigger] rules[j], text)
        },
        first_match(rules, text) is None <==> forall|j: int| 0 <= j < rules.len() ==> !rule_matches(#[trigger] rules[j], text),
{
    lemma_first_match_from(rules, text, 0);
}

/// Whether `rule` matches `text`.
pub fn rule_is_match(rule: &RegexRule, text: &str) -> (r: bool)
    ensures
        r == rule_matches(rule@, text@),
{
    match regex_is_match(rule.pattern.as_str(), text) {
        Some(b) => b,
        None => false,
    }
}

/// The index of the first rule that matches `text`.
pub fn find_first_match(rules: &Vec<RegexRule>, text: &str) -> (r: Option<usize>)
    ensures
        match r {
            Some(i) => i < rules@.len() && first_match(rule_views(rules@), text@) == Some(i as int),
            None => first_match(rule_views(rules@), text@) is None,
        },
{
    let ghost rv = rule_views(rules@);
    let mut i: usize = 0;
    while i < rules.len()
        invariant
            i <= rules.len(),
            rv == rule_views(rules@),
            first_match_from(rv, text@, 0) == first_match_from(rv, text@, i as int),
        decreases rules.len() - i,
    {
        assert(rv[i as int] == rules@[i as int]@);
        if rule_is_match(&rules[i], text) {
            return Some(i);
        }
        i = i + 1;
    }
    None
}

/// `action.to_lowercase() == "skip"`: the word `skip` in any mix of cases
/// (the Kelvin sign also lowers to `k`).
pub open spec fn is_skip_word(s: Seq<char>) -> bool {
    &&& s.len() == 4
    &&& (s[0] == 's' || s[0] == 'S')
    &&& (s[1] == 'k' || s[1] == 'K' || s[1] == '\u{212A}')
    &&& (s[2] == 'i' || s[2] == 'I')
    &&& (s[3] == 'p' || s[3] == 'P')
}

/// Whether an action name selects skipping.
pub fn is_skip_action(action: &str) -> (r: bool)
    ensures
        r == is_skip_word(action@),
{
    let cs = chars_of(action);
    cs.len() == 4 && (cs[0] == 's' || cs[0] == 'S')
        && (cs[1] == 'k' || cs[1] == 'K' || cs[1] == '\u{212A}')
        && (cs[2] == 'i' || cs[2] == 'I') && (cs[3] == 'p' || cs[3] == 'P')
}

/// A rule as written in a rule sheet: the pattern, the action's name
/// (`skip`, or anything else to assign an account) and the account.
#[derive(Debug)]
pub struct RuleEntry {
    pub pattern: String,
    pub action: String,
    pub account: Option<String>,
}

pub type RuleEntryView = (Seq<char>, Seq<char>, Option<Seq<char>>);

impl View for RuleEntry {
    type V = RuleEntryView;

    open spec fn view(&self) -> RuleEntryView {
        (self.pattern@, self.action@, match self.account {
            Some(a) => Some(a@),
            None => None,
        })
    }
}

/// The rule an entry gives: `skip` (in any case) skips, any other action
/// assigns the entry's account; an entry without the account it needs, or
/// whose pattern does not compile, gives none.
pub open spec fn rule_of_entry(e: RuleEntryView) -> Option<RuleView> {
    if !pattern_compiles(e.0) {
        None
    } else if is_skip_word(e.1) {
        Some((e.0, None))
    } else {
        match e.2 {
            Some(a) => Some((e.0, Some(a))),
            None => None,
        }
    }
}

/// The rules of the first `n` entries, in order.
pub open spec fn rules_of_entries(entries: Seq<RuleEntryView>, n: int) -> Seq<RuleView>
    decreases n,
{
    if n <= 0 || n > entries.len() {
        Seq::empty()
    } else {
        let prev = rules_of_entries(entries, n - 1);
        match rule_of_entry(entries[n - 1]) {
            Some(r) => prev.push(r),
            None => prev,
        }
    }
}

pub open spec fn entry_views(entries: Seq<RuleEntry>) -> Seq<RuleEntryView> {
    entries.map_values(|e: RuleEntry| e@)
}

/// Turns the entries of a rule sheet into rules, dropping those that give
/// none (see `rule_of_entry`).
pub fn rules_from_entries(entries: &Vec<RuleEntry>) -> (r: Vec<RegexRule>)
    ensures
        rule_views(r@) == rules_of_entries(entry_views(entries@), entries@.len() as int),
{
    let ghost ev = entry_views(entries@);
    let mut rules: Vec<RegexRule> = Vec::new();
    let mut i: usize = 0;
    while i < entries.len()
        invariant
            i <= entries.len(),
            ev == entry_views(entries@),
            rule_views(rules@) == rules_of_entries(ev, i as int),
        decreases entries.len() - i,
    {
        let e = &entries[i];
        assert(ev[i as int] == e@);
        let ghost old_rules = rules@;
        let compiles = match regex_is_match(e.pattern.as_str(), "") {
            Some(_) => true,
            None => false,
        };
        proof {
            reveal_strlit("");
            assert(""@ =~= Seq::<char>::empty());
        }
        if compiles {
            if is_skip_action(e.action.as_str()) {
                rules.push(RegexRule { pattern: e.pattern.clone(), action: RuleAction::Skip });
                assert(rule_views(rules@) =~= rule_views(old_rules).push(rules@.last()@));
            } else {
                match &e.account {
                    Some(a) => {
                        rules.push(RegexRule { pattern: e.pattern.clone(), action: RuleAction::AssignAccount(a.clone()) });
                        assert(rule_views(rules@) =~= rule_views(old_rules).push(rules@.last()@));
                    },
                    None => {},
                }
            }
        }
        i = i + 1;
    }
    rules
}

} // verus!
