use budget_tracker_lib::commands::backup::{Field, ImportMode, Row};
use budget_tracker_lib::commands::import_rows::{
    account_values, budget_ref, budget_values, category_values, duplicate_budget_warning, duplicate_category,
    duplicate_rule, require_i64, rule_refs, rule_values, transaction_refs, transaction_values, ImportTally,
};
use budget_tracker_lib::error::AppError;

fn row(fields: &[(&str, Field)]) -> Row {
    Row { fields: fields.iter().map(|(k, v)| (k.to_string(), v.clone())).collect() }
}

fn text(s: &str) -> Field {
    Field::Text(s.to_string())
}

#[test]
fn an_incomplete_account_row_falls_back_to_defaults() {
    let r = row(&[("id", Field::Int(7)), ("name", text("現金")), ("initial_balance", Field::Other)]);
    let v = account_values(&r, ImportMode::Overwrite);
    assert_eq!(v.id, Some(7));
    assert_eq!(v.name, "現金");
    assert_eq!(v.kind, "cash");
    assert_eq!(v.currency, "JPY");
    assert_eq!(v.initial_balance, 0);
    assert_eq!(v.note, "");
    assert_eq!(v.archived_at, None);
    assert_eq!(v.created_at, "1970-01-01T00:00:00Z");
    assert_eq!(account_values(&r, ImportMode::Append).id, None);
}

#[test]
fn category_budget_rule_and_transaction_defaults() {
    let empty = row(&[]);
    let c = category_values(&empty, ImportMode::Append);
    assert_eq!((c.name.as_str(), c.type_.as_str(), c.display_order), ("", "expense", 0));
    let b = budget_values(&empty, ImportMode::Append, 9);
    assert_eq!((b.category_id, b.period.as_str(), b.amount, b.starts_on.as_str(), b.alert_threshold), (9, "monthly", 0, "1970-01-01", 80));
    let r = rule_values(&empty, ImportMode::Append, (3, None, Some(4)));
    assert_eq!((r.account_id, r.category_id, r.frequency.as_str(), r.active), (3, Some(4), "monthly", 1));
    let t = transaction_values(&row(&[("occurred_on", text("2026-05-25"))]), ImportMode::Append, (3, None, Some(4), None));
    assert_eq!((t.occurred_on.as_str(), t.type_.as_str(), t.account_id, t.category_id), ("2026-05-25", "expense", 3, Some(4)));
}

#[test]
fn a_row_without_its_id_stops_the_import() {
    let err = require_i64(&row(&[]), "id", "account").unwrap_err();
    assert!(matches!(err, AppError::InvalidArgument(_)));
    assert_eq!(err.detail_text().as_str(), "account missing required id");
    assert_eq!(require_i64(&row(&[("id", Field::Int(4))]), "id", "account").unwrap(), 4);
}

#[test]
fn references_are_remapped_or_the_row_is_skipped() {
    let accounts = vec![(1, 11), (2, 12)];
    let categories = vec![(5, 15)];
    let rules = vec![(8, 18)];
    let r = row(&[("account_id", Field::Int(1)), ("counter_account_id", Field::Null), ("category_id", Field::Int(5)), ("recurring_id", Field::Int(8))]);
    let mut warnings = Vec::new();
    assert_eq!(transaction_refs(&r, ImportMode::Append, &accounts, &categories, &rules, &mut warnings).unwrap(), Some((11, None, Some(15), Some(18))));
    assert!(warnings.is_empty());

    let missing = row(&[("account_id", Field::Int(1)), ("category_id", Field::Int(6))]);
    assert_eq!(rule_refs(&missing, ImportMode::Append, &accounts, &categories, &mut warnings).unwrap(), None);
    assert_eq!(warnings, vec!["skipped recurring rule category referencing missing id 6".to_string()]);
    let err = rule_refs(&missing, ImportMode::Overwrite, &accounts, &categories, &mut warnings).unwrap_err();
    assert_eq!(err.detail_text().as_str(), "skipped recurring rule category referencing missing id 6");

    let budget = row(&[("category_id", Field::Int(5))]);
    assert_eq!(budget_ref(&budget, ImportMode::Append, &categories, &mut warnings).unwrap(), Some(15));
    let err = budget_ref(&row(&[]), ImportMode::Append, &categories, &mut warnings).unwrap_err();
    assert_eq!(err.detail_text().as_str(), "budget missing required category_id");
}

#[test]
fn appended_duplicates_reuse_what_is_there() {
    let mut warnings = Vec::new();
    assert_eq!(duplicate_category("食費", Some(3), &mut warnings).unwrap(), 3);
    assert_eq!(warnings, vec!["skipped duplicate category: 食費".to_string()]);
    let err = duplicate_category("食費", None, &mut warnings).unwrap_err();
    assert_eq!(err, AppError::Conflict("duplicate category without matching row: 食費".into()));
    assert_eq!(duplicate_budget_warning(4), "skipped duplicate budget for category 4");
}

#[test]
fn a_duplicate_rule_is_always_skipped_with_a_warning() {
    let mut warnings = vec!["earlier".to_string()];
    duplicate_rule("家賃", &mut warnings);
    assert_eq!(warnings, vec!["earlier".to_string(), "skipped duplicate recurring rule: 家賃".to_string()]);
}

#[test]
fn the_tally_counts_only_inserted_rows_and_maps_every_id() {
    let mut tally = ImportTally::new();
    tally.account_written(1, 10);
    tally.category_written(5, 50, true);
    tally.category_written(6, 3, false);
    tally.rule_written(7, 70, true);
    tally.rule_written(8, 2, false);
    tally.transaction_written();
    tally.transaction_written();
    tally.budget_written();
    assert_eq!(tally.account_map, vec![(1, 10)]);
    assert_eq!(tally.category_map, vec![(5, 50), (6, 3)]);
    assert_eq!(tally.rule_map, vec![(7, 70), (8, 2)]);
    let result = tally.into_result(vec!["skipped duplicate category: 食費".to_string()]);
    assert_eq!(
        (result.accounts, result.categories, result.recurring_rules, result.transactions, result.budgets),
        (1, 1, 1, 2, 1)
    );
    assert_eq!(result.warnings, vec!["skipped duplicate category: 食費".to_string()]);
}
