use rsledger::cli::args::{Args, Command, ParserOptions};
use rsledger::cli::commands::{dispatch, get_journal_file_path, CommandPlan, DefaultJournalType, JournalLocation};
use rsledger::cli::commands::import::{importer_for, ImporterChoice};
use rsledger::cli::utils::{account_input_step, posting_input_step, value_input_step, PostingInput};
use rsledger::config::Config;
use rsledger::error::RsledgerError;

fn configured() -> Config {
    Config {
        default_journal_folder: "/home/me/journals".to_string(),
        default_journal: "main.journal".to_string(),
        default_stock_prices_journal: "stock_prices.journal".to_string(),
        default_exchange_rates_journal: "".to_string(),
    }
}

#[test]
fn explicit_path_wins() {
    match get_journal_file_path("/tmp/x.journal", &Config::empty(), DefaultJournalType::Prices) {
        Ok(JournalLocation::Path(p)) => assert_eq!(p, "/tmp/x.journal"),
        _ => panic!("expected the explicit path"),
    }
}

#[test]
fn default_journal_is_found_in_the_folder() {
    match get_journal_file_path("", &configured(), DefaultJournalType::Transactions) {
        Ok(JournalLocation::InFolder(folder, file)) => {
            assert_eq!(folder, "/home/me/journals");
            assert_eq!(file, "main.journal");
        },
        _ => panic!("expected the default journal"),
    }
    match get_journal_file_path("", &configured(), DefaultJournalType::ExchangeRates) {
        Err(RsledgerError::CliError(m)) => {
            assert_eq!(m, "No journal path provided and default exchange rates journal not set in config.")
        },
        _ => panic!("expected an error"),
    }
}

#[test]
fn dispatch_refuses_both_price_flags() {
    let mut cfg = configured();
    let args = Args { command: Command::Price { exchange_rate: true, price: true }, journal_path: "".to_string() };
    match dispatch(args, &mut cfg) {
        Err(RsledgerError::CliError(m)) => assert_eq!(m, "Cannot be both exchange rate and price at the same time."),
        _ => panic!("expected an error"),
    }
}

#[test]
fn dispatch_routes_prices_and_config() {
    let mut cfg = configured();
    let args = Args { command: Command::Price { exchange_rate: false, price: true }, journal_path: "".to_string() };
    match dispatch(args, &mut cfg) {
        Ok(CommandPlan::Price { journal: JournalLocation::InFolder(_, file) }) => assert_eq!(file, "stock_prices.journal"),
        _ => panic!("expected a price plan"),
    }
    let args = Args {
        command: Command::Config {
            config_folder: "".to_string(),
            config_journal: "other.journal".to_string(),
            config_stock_prices_journal: "".to_string(),
            config_exchange_rates_journal: "rates.journal".to_string(),
        },
        journal_path: "".to_string(),
    };
    assert!(matches!(dispatch(args, &mut cfg), Ok(CommandPlan::SaveConfig)));
    assert_eq!(cfg.default_journal, "other.journal");
    assert_eq!(cfg.default_exchange_rates_journal, "rates.journal");
    assert_eq!(cfg.default_journal_folder, "/home/me/journals");
}

#[test]
fn importers_per_format() {
    assert!(matches!(importer_for(ParserOptions::Avanza, Vec::new()), ImporterChoice::Avanza(_)));
    match importer_for(ParserOptions::Volksbank, Vec::new()) {
        ImporterChoice::Generic(g) => {
            assert_eq!(g.delimiter(), ';');
            assert!(g.has_headers());
        },
        _ => panic!("expected the configurable importer"),
    }
}

#[test]
fn input_steps() {
    assert_eq!(
        account_input_step("").unwrap_err(),
        "Account name cannot be empty. Please enter a valid account name (e.g. 'assets:bank')."
    );
    assert_eq!(
        account_input_step("bank").unwrap_err(),
        "Invalid account 'bank'. Root must be one of: assets, liabilities, equity, income, expenses (e.g. 'assets:bank')."
    );
    assert_eq!(account_input_step("assets:bank").unwrap().to_string(), "assets:bank");
    assert_eq!(value_input_step("500.00 SEK").unwrap().to_string(), "500 SEK");
    assert!(value_input_step("500").is_err());
    assert!(matches!(posting_input_step(""), PostingInput::Finished));
    match posting_input_step("expenses:food 50.00 SEK") {
        PostingInput::Entered(p) => assert_eq!(p.to_string(), "expenses:food  50 SEK"),
        _ => panic!("expected a posting"),
    }
    match posting_input_step("expenses:food") {
        PostingInput::Entered(p) => assert!(p.amount().is_none()),
        _ => panic!("expected a posting"),
    }
    assert!(matches!(posting_input_step("expenses:food 50"), PostingInput::Invalid(_)));
    match posting_input_step("expenses:food 5x SEK") {
        PostingInput::Invalid(m) => assert_eq!(m, "Invalid amount format. Please enter a valid commodity amount (e.g. '500.00 SEK')."),
        _ => panic!("expected a refusal"),
    }
}
