use budget_tracker_lib::domain::account::{validate_name, validate_note, AccountKind};
use budget_tracker_lib::error::AppError;

#[test]
fn parses_all_known_kinds() {
    for s in ["cash", "bank", "credit_card", "e_money", "investment"] {
        assert!(AccountKind::parse(s).is_ok(), "{s} should parse");
    }
}

#[test]
fn rejects_unknown_kind() {
    assert!(matches!(AccountKind::parse("crypto").unwrap_err(), AppError::InvalidArgument(_)));
}

#[test]
fn kind_parse_message_names_the_input() {
    let err = AccountKind::parse("crypto").unwrap_err();
    assert_eq!(
        err.detail_text().as_str(),
        "account kind must be cash|bank|credit_card|e_money|investment, got 'crypto'"
    );
}

#[test]
fn kind_round_trips_through_sql() {
    for k in [AccountKind::Cash, AccountKind::Bank, AccountKind::CreditCard, AccountKind::EMoney, AccountKind::Investment] {
        assert_eq!(AccountKind::parse(k.as_sql()).unwrap(), k);
    }
}

#[test]
fn validate_name_trims() {
    assert_eq!(validate_name("  楽天銀行  ").unwrap(), "楽天銀行");
}

#[test]
fn validate_name_rejects_empty() {
    assert!(validate_name("").is_err());
    assert!(validate_name("   ").is_err());
}

#[test]
fn validate_name_counts_characters() {
    assert!(validate_name(&"あ".repeat(40)).is_ok());
    let err = validate_name(&"あ".repeat(41)).unwrap_err();
    assert_eq!(err.detail_text().as_str(), "account name must be 40 chars or fewer");
}

#[test]
fn validate_note_accepts_empty_and_200_chars() {
    assert!(validate_note("").is_ok());
    assert!(validate_note(&"あ".repeat(200)).is_ok());
    assert!(validate_note(&"あ".repeat(201)).is_err());
}
