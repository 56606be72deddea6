//! The commands: where each finds its journal, and what each is asked to do.

pub mod config;
pub mod import;

use vstd::prelude::*;
use crate::cli::args::{Args, Command, ParserOptions};
use crate::config::{Config, edited};
use crate::error::{IoErrorKind, RsledgerError};
use crate::text::str_is_empty;

verus! {

/// The default journals of the configuration.
#[derive(Debug, Clone, Copy, PartialEq, Eq, Structural)]
pub enum DefaultJournalType {
    Transactions,
    ExchangeRates,
    Prices,
}

/// Where a journal is: a path given on the command line, or a file in the
/// configured folder (which the caller joins into a path).
#[derive(Debug)]
pub enum JournalLocation {
    Path(String),
    InFolder(String, String),
}

/// The configured file name of a default journal.
pub open spec fn default_file(c: (Seq<char>, Seq<char>, Seq<char>, Seq<char>), t: DefaultJournalType) -> Seq<char> {
    match t {
        DefaultJournalType::Transactions => c.1,
        DefaultJournalType::ExchangeRates => c.3,
        DefaultJournalType::Prices => c.2,
    }
}

pub open spec fn missing_default_msg(t: DefaultJournalType) -> Seq<char> {
    match t {
        DefaultJournalType::Transactions => "No journal path provided and default journal not set in config."@,
        DefaultJournalType::ExchangeRates => "No journal path provided and default exchange rates journal not set in config."@,
        DefaultJournalType::Prices => "No journal path provided and default stock prices journal not set in config."@,
    }
}

/// Where the journal of a command is, as `get_journal_file_path` decides it:
/// the path argument when given; else the configured folder and file, which
/// must both be set.
pub open spec fn journal_location_ok(path_arg: Seq<char>, c: (Seq<char>, Seq<char>, Seq<char>, Seq<char>), t: DefaultJournalType, r: Result<JournalLocation, RsledgerError>) -> bool {
    if path_arg.len() > 0 {
        r matches Ok(JournalLocation::Path(p)) && p@ == path_arg
    } else if c.0.len() == 0 || default_file(c, t).len() == 0 {
        r matches Err(RsledgerError::CliError(m)) && m@ == missing_default_msg(t)
    } else {
        r matches Ok(JournalLocation::InFolder(folder, file)) && folder@ == c.0 && file@ == default_file(c, t)
    }
}

/// The journal a command works on (see `journal_location_ok`).
pub fn get_journal_file_path(path_arg: &str, config: &Config, journal_type: DefaultJournalType) -> (r: Result<JournalLocation, RsledgerError>)
    ensures
        journal_location_ok(path_arg@, config@, journal_type, r),
{
    if !str_is_empty(path_arg) {
        return Ok(JournalLocation::Path(path_arg.to_owned()));
    }
    let file: &String = match journal_type {
        DefaultJournalType::Transactions => &config.default_journal,
        DefaultJournalType::ExchangeRates => &config.default_exchange_rates_journal,
        DefaultJournalType::Prices => &config.default_stock_prices_journal,
    };
    if str_is_empty(config.default_journal_folder.as_str()) || str_is_empty(file.as_str()) {
        let m = match journal_type {
            DefaultJournalType::Transactions => "No journal path provided and default journal not set in config.",
            DefaultJournalType::ExchangeRates => "No journal path provided and default exchange rates journal not set in config.",
            DefaultJournalType::Prices => "No journal path provided and default stock prices journal not set in config.",
        };
        return Err(RsledgerError::CliError(m.to_owned()));
    }
    Ok(JournalLocation::InFolder(config.default_journal_folder.clone(), file.clone()))
}

/// The journal a command works on; the same decision as `get_journal_file_path`.
pub fn get_journal_file(path_arg: &str, config: &Config, journal_type: DefaultJournalType) -> (r: Result<JournalLocation, RsledgerError>)
    ensures
        journal_location_ok(path_arg@, config@, journal_type, r),
{
    get_journal_file_path(path_arg, config, journal_type)
}

/// What a command is to do, once its journal has been found.
#[derive(Debug)]
pub enum CommandPlan {
    New { journal: JournalLocation, open: bool },
    Add { journal: JournalLocation },
    Price { journal: JournalLocation },
    Import { journal: JournalLocation, csv_file: String, parser: ParserOptions, rule_sheet: String },
    ImportPrices { journal: JournalLocation, csv_file: String },
    /// The configuration was edited and is to be saved.
    SaveConfig,
}

/// The journal a plan works on, if it has one.
pub open spec fn plan_journal(p: CommandPlan) -> Option<JournalLocation> {
    match p {
        CommandPlan::New { journal, .. } => Some(journal),
        CommandPlan::Add { journal } => Some(journal),
        CommandPlan::Price { journal } => Some(journal),
        CommandPlan::Import { journal, .. } => Some(journal),
        CommandPlan::ImportPrices { journal, .. } => Some(journal),
        CommandPlan::SaveConfig => None,
    }
}

/// The journal found, and a plan `f` made with it.
pub open spec fn planned(
    path_arg: Seq<char>,
    c: (Seq<char>, Seq<char>, Seq<char>, Seq<char>),
    t: DefaultJournalType,
    r: Result<CommandPlan, RsledgerError>,
    f: spec_fn(CommandPlan) -> bool,
) -> bool {
    match r {
        Ok(p) => plan_journal(p) matches Some(j) && journal_location_ok(path_arg, c, t, Ok(j)) && f(p),
        Err(e) => journal_location_ok(path_arg, c, t, Err(e)),
    }
}

/// Routes the parsed arguments: finds the journal each command works on
/// (a price goes to the exchange rates journal with `exchange_rate`, the
/// prices journal with `price`, the main journal otherwise; both at once is
/// refused; imported prices go to the prices journal) and says what is to be
/// done with it. The `config` command edits the configuration here.
pub fn dispatch(args: Args, config: &mut Config) -> (r: Result<CommandPlan, RsledgerError>)
    ensures
        match args.command {
            Command::New { open } => final(config)@ == old(config)@ && planned(args.journal_path@, old(config)@,
                DefaultJournalType::Transactions, r, |p: CommandPlan| p matches CommandPlan::New { open: o, .. } && o == open),
            Command::Add => final(config)@ == old(config)@ && planned(args.journal_path@, old(config)@,
                DefaultJournalType::Transactions, r, |p: CommandPlan| p is Add),
            Command::Price { exchange_rate, price } => final(config)@ == old(config)@ && if exchange_rate && price {
                r matches Err(RsledgerError::CliError(m)) && m@ == "Cannot be both exchange rate and price at the same time."@
            } else {
                planned(args.journal_path@, old(config)@,
                    if exchange_rate { DefaultJournalType::ExchangeRates } else if price { DefaultJournalType::Prices } else { DefaultJournalType::Transactions },
                    r, |p: CommandPlan| p is Price)
            },
            Command::Import { csv_file, parser, rule_sheet } => final(config)@ == old(config)@ && planned(args.journal_path@, old(config)@,
                DefaultJournalType::Transactions, r,
                |p: CommandPlan| p matches CommandPlan::Import { csv_file: f, parser: q, rule_sheet: s, .. } && f@ == csv_file@ && q == parser && s@ == rule_sheet@),
            Command::ImportPrices { csv_file } => final(config)@ == old(config)@ && planned(args.journal_path@, old(config)@,
                DefaultJournalType::Prices, r, |p: CommandPlan| p matches CommandPlan::ImportPrices { csv_file: f, .. } && f@ == csv_file@),
            Command::Config { config_folder, config_journal, config_stock_prices_journal, config_exchange_rates_journal } => {
                let none_given = config_folder@.len() == 0 && config_journal@.len() == 0
                    && config_stock_prices_journal@.len() == 0 && config_exchange_rates_journal@.len() == 0;
                &&& none_given ==> (r matches Err(RsledgerError::IoError(kind, m))
                    && kind == IoErrorKind::InvalidInput
                    && m@ == "At least one config option must be provided."@
                    && final(config)@ == old(config)@)
                &&& !none_given ==> (r matches Ok(CommandPlan::SaveConfig) && final(config)@ == (
                    edited(old(config)@.0, config_folder@),
                    edited(old(config)@.1, config_journal@),
                    edited(old(config)@.2, config_stock_prices_journal@),
                    edited(old(config)@.3, config_exchange_rates_journal@),
                ))
            },
        },
{
    let Args { command, journal_path } = args;
    match command {
        Command::New { open } => {
            match get_journal_file_path(journal_path.as_str(), config, DefaultJournalType::Transactions) {
                Ok(journal) => Ok(CommandPlan::New { journal, open }),
                Err(e) => Err(e),
            }
        },
        Command::Add => {
            match get_journal_file_path(journal_path.as_str(), config, DefaultJournalType::Transactions) {
                Ok(journal) => Ok(CommandPlan::Add { journal }),
                Err(e) => Err(e),
            }
        },
        Command::Price { exchange_rate, price } => {
            if exchange_rate && price {
                return Err(RsledgerError::CliError("Cannot be both exchange rate and price at the same time.".to_owned()));
            }
            let journal_type = if exchange_rate {
                DefaultJournalType::ExchangeRates
            } else if price {
                DefaultJournalType::Prices
            } else {
                DefaultJournalType::Transactions
            };
            match get_journal_file_path(journal_path.as_str(), config, journal_type) {
                Ok(journal) => Ok(CommandPlan::Price { journal }),
                Err(e) => Err(e),
            }
        },
        Command::Import { csv_file, parser, rule_sheet } => {
            match get_journal_file_path(journal_path.as_str(), config, DefaultJournalType::Transactions) {
                Ok(journal) => Ok(CommandPlan::Import { journal, csv_file, parser, rule_sheet }),
                Err(e) => Err(e),
            }
        },
        Command::ImportPrices { csv_file } => {
            match get_journal_file_path(journal_path.as_str(), config, DefaultJournalType::Prices) {
                Ok(journal) => Ok(CommandPlan::ImportPrices { journal, csv_file }),
                Err(e) => Err(e),
            }
        },
        Command::Config { config_folder, config_journal, config_stock_prices_journal, config_exchange_rates_journal } => {
            match config::run_config(config_folder, config_journal, config_stock_prices_journal, config_exchange_rates_journal, config) {
                Ok(()) => Ok(CommandPlan::SaveConfig),
                Err(e) => Err(e),
            }
        },
    }
}

} // verus!
