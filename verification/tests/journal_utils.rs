use rsledger::date::Date;
use rsledger::journal::utils::{DirectiveType, identify_directive_type, parse_include, parse_transaction_header, trim_comments};

#[test]
fn test_trim_comments() {
    assert_eq!(trim_comments(""), "");
    assert_eq!(
        trim_comments("This is a line; with a comment"),
        "This is a line"
    );
    assert_eq!(
        trim_comments("This is a line without a comment"),
        "This is a line without a comment"
    );
    assert_eq!(trim_comments("; This is a comment only"), "");
    assert_eq!(
        trim_comments("   This line has leading and trailing whitespace   ; and a comment"),
        "This line has leading and trailing whitespace"
    );
    assert_eq!(
        trim_comments("  surrounding whitespace no commment  "),
        "surrounding whitespace no commment"
    );
    assert_eq!(
        trim_comments("  surrounding whitespace with comment  ; and a comment"),
        "surrounding whitespace with comment"
    );
}

#[test]
fn test_identify_directive_type() {
    assert_eq!(
        identify_directive_type("include \"other.journal\""),
        DirectiveType::Include
    );
    assert_eq!(
        identify_directive_type("P 2026-01-01 EUR 11.00 SEK"),
        DirectiveType::Price
    );
    assert_eq!(
        identify_directive_type("2026-01-01 * \"Transaction\""),
        DirectiveType::Transaction
    );
    assert_eq!(
        identify_directive_type("Unrecognized directive"),
        DirectiveType::Other
    );
}

#[test]
fn test_parse_include() {
    let line = "include other.journal";
    let result = parse_include(line).unwrap();
    assert_eq!(result, "other.journal".to_string());
}

#[test]
fn test_include_with_comments() {
    let line = "include other.journal ; this is a comment";
    let result = parse_include(line).unwrap();
    assert_eq!(result, "other.journal".to_string());
}

#[test]
fn test_include_with_whitespace() {
    let line = "include    other.journal   ";
    let result = parse_include(line).unwrap();
    assert_eq!(result, "other.journal".to_string());
}

#[test]
fn test_include_with_whitespace_in_path() {
    let line = "include    other journal.journal   ";
    let result = parse_include(line).unwrap();
    assert_eq!(result, "other journal.journal".to_string());
}

#[test]
fn test_include_with_quotes() {
    let line = "include \"other.journal\"";
    let result = parse_include(line).unwrap();
    assert_eq!(result, "other.journal".to_string());
}

#[test]
fn test_parse_transaction_header() {
    let line = "2026-01-01 * \"Transaction\"";
    let result = parse_transaction_header(line).unwrap();
    let expected_date = Date::from_ymd_opt(2026, 1, 1).unwrap();
    assert_eq!(result, (expected_date, "* \"Transaction\"".to_string()));
}

#[test]
fn test_parse_transaction_header_with_comments() {
    let line = "2026-01-01 * \"Transaction\" ; this is a comment";
    let result = parse_transaction_header(line).unwrap();
    let expected_date = Date::from_ymd_opt(2026, 1, 1).unwrap();
    assert_eq!(result, (expected_date, "* \"Transaction\"".to_string()));
}

#[test]
fn test_parse_transaction_header_invalid_date() {
    let line = "2026-13-01 * \"Transaction\"";
    let result = parse_transaction_header(line);
    assert!(result.is_err());
}
