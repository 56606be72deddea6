//! The classification rules of the CSV parsers.

pub use crate::csv_importer::rules::{RegexRule, RuleAction, RuleEntry, rules_from_entries};
