//! Importing entries from bank and broker CSV exports: the rows (as read by
//! the CSV reader) become import candidates, classified by rules or by the
//! importer's own logic.

pub mod avanza_prices;
pub mod avanza_transactions;
pub mod csv_text;
pub mod generic_importer;
pub mod rules;

use vstd::prelude::*;
use crate::error::RsledgerError;
use crate::journal::Journal;

verus! {

/// An entry read from a CSV with its classification: `Classified` entries are
/// complete, `Unclassified` ones need an account chosen by hand.
#[derive(Debug)]
pub enum ImportCandidate<T> {
    Classified(T),
    Unclassified(T),
}

impl<T: View> View for ImportCandidate<T> {
    /// Whether the entry is classified, and the entry.
    type V = (bool, T::V);

    open spec fn view(&self) -> (bool, T::V) {
        match self {
            ImportCandidate::Classified(t) => (true, t@),
            ImportCandidate::Unclassified(t) => (false, t@),
        }
    }
}

/// Adds imported items to a journal: not available yet, and always answers so.
pub fn import_items<T>(items: Vec<T>, existing_journal: Journal) -> (r: Result<(), RsledgerError>)
    ensures
        r matches Err(RsledgerError::CliError(m)) && m@ == "Import command is not yet implemented."@,
{
    Err(RsledgerError::CliError("Import command is not yet implemented.".to_owned()))
}

} // verus!
