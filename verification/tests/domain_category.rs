use budget_tracker_lib::domain::category::{validate_color, validate_name, CategoryType};
use budget_tracker_lib::error::AppError;

#[test]
fn parses_known_types() {
    assert_eq!(CategoryType::parse("income").unwrap(), CategoryType::Income);
    assert_eq!(CategoryType::parse("expense").unwrap(), CategoryType::Expense);
}

#[test]
fn rejects_unknown_type() {
    let err = CategoryType::parse("transfer").unwrap_err();
    assert!(matches!(err, AppError::InvalidArgument(_)));
}

#[test]
fn validate_name_trims_and_accepts_jp() {
    assert_eq!(validate_name("  食費  ").unwrap(), "食費");
}

#[test]
fn validate_name_rejects_empty_and_whitespace_only() {
    assert!(validate_name("").is_err());
    assert!(validate_name("   ").is_err());
}

#[test]
fn validate_name_rejects_over_40_chars() {
    let name = "あ".repeat(41);
    assert!(validate_name(&name).is_err());
    assert!(validate_name(&"あ".repeat(40)).is_ok());
}

#[test]
fn validate_color_accepts_lower_and_uppercase() {
    assert_eq!(validate_color("#ff00aa").unwrap(), "#FF00AA");
    assert_eq!(validate_color("#FF00AA").unwrap(), "#FF00AA");
}

#[test]
fn validate_color_rejects_short_and_non_hex() {
    assert!(validate_color("#FFF").is_err());
    assert!(validate_color("FF00AA").is_err());
    assert!(validate_color("#GGGGGG").is_err());
}

#[test]
fn type_round_trips_through_sql() {
    for t in [CategoryType::Income, CategoryType::Expense] {
        assert_eq!(CategoryType::parse(t.as_sql()).unwrap(), t);
    }
}
