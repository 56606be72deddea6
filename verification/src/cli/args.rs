//! The command-line arguments, as plain values.

use vstd::prelude::*;

verus! {

/// The CSV formats that can be imported.
#[derive(Debug, Clone, Copy, PartialEq, Eq, Structural)]
pub enum ParserOptions {
    Avanza,
    HSBCDebit,
    HSBCCredit,
    SebDebit,
    SebSavings,
    Volksbank,
}

/// The commands.
#[derive(Debug)]
pub enum Command {
    /// Create a journal, optionally with an opening transaction.
    New { open: bool },
    /// Add a transaction interactively.
    Add,
    /// Add a price directive to the exchange rates, prices or main journal.
    Price { exchange_rate: bool, price: bool },
    /// Import transactions from a CSV export.
    Import { csv_file: String, parser: ParserOptions, rule_sheet: String },
    /// Import prices from a positions CSV export.
    ImportPrices { csv_file: String },
    /// Edit the configuration.
    Config {
        config_folder: String,
        config_journal: String,
        config_stock_prices_journal: String,
        config_exchange_rates_journal: String,
    },
}

/// The parsed command line: the command and the journal path (empty for the
/// configured default).
#[derive(Debug)]
pub struct Args {
    pub command: Command,
    pub journal_path: String,
}

} // verus!
