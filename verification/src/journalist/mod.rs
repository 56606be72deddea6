//! Reading journals line by line, two-posting entries, and the amounts they use.

pub mod csv_parser;
pub mod double_entry;
pub mod parser;
pub mod transaction;
pub mod transaction_importer;
pub mod writer;

pub use crate::journal::Journal;
