//! Importing bank transactions from CSV exports into candidates for the journal.

pub mod default_parser;
pub mod rules;

pub use crate::csv_importer::ImportCandidate;
