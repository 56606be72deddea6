//! The `config` command.

use vstd::prelude::*;
use crate::config::{Config, edit_config, edited};
use crate::error::{IoErrorKind, RsledgerError};

verus! {

/// Updates the configuration with the given (non-empty) fields; with none
/// given it refuses. Saving is up to the caller.
pub fn run_config(
    config_folder: String,
    config_journal: String,
    config_stock_prices_journal: String,
    config_exchange_rates_journal: String,
    config: &mut Config,
) -> (r: Result<(), RsledgerError>)
    ensures
        ({
            let none_given = config_folder@.len() == 0 && config_journal@.len() == 0
                && config_stock_prices_journal@.len() == 0 && config_exchange_rates_journal@.len() == 0;
            &&& none_given ==> (r matches Err(RsledgerError::IoError(kind, m))
                && kind == IoErrorKind::InvalidInput
                && m@ == "At least one config option must be provided."@
                && final(config)@ == old(config)@)
            &&& !none_given ==> r is Ok && final(config)@ == (
                edited(old(config)@.0, config_folder@),
                edited(old(config)@.1, config_journal@),
                edited(old(config)@.2, config_stock_prices_journal@),
                edited(old(config)@.3, config_exchange_rates_journal@),
            )
        }),
{
    edit_config(config_folder, config_journal, config_stock_prices_journal, config_exchange_rates_journal, config)
}

} // verus!
