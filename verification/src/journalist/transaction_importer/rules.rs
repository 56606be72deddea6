//! The classification rules of the transaction importers.

pub use crate::csv_importer::rules::{RegexRule, RuleAction, RuleEntry, rules_from_entries};
