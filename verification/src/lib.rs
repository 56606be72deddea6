//! A plain-text accounting library in the style of hledger: fixed-precision
//! decimal amounts, commodity values, postings, transactions, price directives
//! and the journal text format, with the import logic for bank CSV exports.

pub mod text;
pub mod cli;
pub mod commodity_value;
pub mod config;
pub mod csv_importer;
pub mod date;
pub mod error;
pub mod hashing;
pub mod journal;
pub mod journalist;
pub mod price;
pub mod transaction;
