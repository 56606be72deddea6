//! The user's configuration: where the default journals are.

use vstd::prelude::*;
use crate::error::{IoErrorKind, RsledgerError};
use crate::text::str_is_empty;

verus! {

/// The default journal folder and the journal files in it.
#[derive(Debug)]
pub struct Config {
    pub default_journal_folder: String,
    pub default_journal: String,
    pub default_stock_prices_journal: String,
    pub default_exchange_rates_journal: String,
}

/// The abstract configuration: folder, journal, stock prices journal,
/// exchange rates journal.
pub type ConfigView = (Seq<char>, Seq<char>, Seq<char>, Seq<char>);

impl View for Config {
    type V = ConfigView;

    open spec fn view(&self) -> ConfigView {
        (
            self.default_journal_folder@,
            self.default_journal@,
            self.default_stock_prices_journal@,
            self.default_exchange_rates_journal@,
        )
    }
}

/// A field of the configuration after an edit: the new value if one was
/// given (non-empty), else the old one.
pub open spec fn edited(old: Seq<char>, new: Seq<char>) -> Seq<char> {
    if new.len() > 0 { new } else { old }
}

impl Config {
    /// The configuration used when none has been saved: every field empty.
    pub fn empty() -> (r: Self)
        ensures
            r@ == (Seq::<char>::empty(), Seq::<char>::empty(), Seq::<char>::empty(), Seq::<char>::empty()),
    {
        Config {
            default_journal_folder: String::new(),
            default_journal: String::new(),
            default_stock_prices_journal: String::new(),
            default_exchange_rates_journal: String::new(),
        }
    }

    pub fn set_default_journal_folder(&mut self, folder: String)
        ensures
            final(self)@ == (folder@, old(self)@.1, old(self)@.2, old(self)@.3),
    {
        self.default_journal_folder = folder;
    }

    pub fn set_default_journal(&mut self, journal: String)
        ensures
            final(self)@ == (old(self)@.0, journal@, old(self)@.2, old(self)@.3),
    {
        self.default_journal = journal;
    }
}

/// Sets the fields that are given (non-empty); with none given it refuses and
/// leaves the configuration as it was. Saving it is up to the caller.
pub fn edit_config(
    config_folder: String,
    config_journal: String,
    config_stock_prices_journal: String,
    config_exchange_rates_journal: String,
    config: &mut Config,
) -> (r: Result<(), RsledgerError>)
    ensures
        ({
            let none_given = config_folder@.len() == 0 && config_journal@.len() == 0
                && config_stock_prices_journal@.len() == 0 && config_exchange_rates_journal@.len() == 0;
            &&& none_given ==> (r matches Err(RsledgerError::IoError(kind, m))
                && kind == IoErrorKind::InvalidInput
                && m@ == "At least one config option must be provided."@
                && final(config)@ == old(config)@)
            &&& !none_given ==> r is Ok && final(config)@ == (
                edited(old(config)@.0, config_folder@),
                edited(old(config)@.1, config_journal@),
                edited(old(config)@.2, config_stock_prices_journal@),
                edited(old(config)@.3, config_exchange_rates_journal@),
            )
        }),
{
    if str_is_empty(config_folder.as_str()) && str_is_empty(config_journal.as_str())
        && str_is_empty(config_stock_prices_journal.as_str())
        && str_is_empty(config_exchange_rates_journal.as_str()) {
        return Err(RsledgerError::IoError(IoErrorKind::InvalidInput, "At least one config option must be provided.".to_owned()));
    }
    if !str_is_empty(config_folder.as_str()) {
        config.set_default_journal_folder(config_folder);
    }
    if !str_is_empty(config_journal.as_str()) {
        config.set_default_journal(config_journal);
    }
    if !str_is_empty(config_stock_prices_journal.as_str()) {
        config.default_stock_prices_journal = config_stock_prices_journal;
    }
    if !str_is_empty(config_exchange_rates_journal.as_str()) {
        config.default_exchange_rates_journal = config_exchange_rates_journal;
    }
    Ok(())
}

} // verus!
