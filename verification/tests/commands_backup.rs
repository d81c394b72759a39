use budget_tracker_lib::commands::backup::{
    collect_import_errors, parse_snapshot, resolve_optional, resolve_required, restorable_meta_key, Field,
    ImportMode, Row, Snapshot,
};
use budget_tracker_lib::error::{AppError, ImportRowError};
use serde_json::Value;

fn field(v: &Value) -> Field {
    match v {
        Value::Null => Field::Null,
        Value::String(s) => Field::Text(s.clone()),
        Value::Number(n) => match n.as_i64() {
            Some(i) => Field::Int(i),
            None => Field::Other,
        },
        _ => Field::Other,
    }
}

fn rows(v: &Value, key: &str) -> Vec<Row> {
    v[key]
        .as_array()
        .unwrap()
        .iter()
        .map(|o| Row { fields: o.as_object().unwrap().iter().map(|(k, x)| (k.clone(), field(x))).collect() })
        .collect()
}

/// Read a backup payload into the row model, as the importer does.
fn decode(payload: &str) -> Result<Snapshot, String> {
    let v: Value = serde_json::from_str(payload).map_err(|e| e.to_string())?;
    Ok(Snapshot {
        schema_version: v["schema_version"].as_u64().unwrap() as u32,
        exported_at: v["exported_at"].as_str().unwrap().to_string(),
        categories: rows(&v, "categories"),
        accounts: rows(&v, "accounts"),
        recurring_rules: rows(&v, "recurring_rules"),
        transactions: rows(&v, "transactions"),
        budgets: rows(&v, "budgets"),
        app_meta: rows(&v, "app_meta"),
    })
}

fn import(payload: &str, mode: &str) -> Result<(Snapshot, ImportMode), AppError> {
    parse_snapshot(payload.len(), decode(payload), mode)
}

const CASH_ACCOUNT_JSON: &str = r#"{
  "id": 1, "name": "現金", "kind": "cash", "currency": "JPY", "initial_balance": 1000,
  "display_order": 0, "note": "", "archived_at": null,
  "created_at": "2026-05-25T00:00:00Z", "updated_at": "2026-05-25T00:00:00Z"
}"#;

fn category_json(type_: &str, color: &str) -> String {
    format!(
        r#"{{ "id": 1, "name": "snapshot cat", "type": "{type_}", "color": {color},
              "icon": null, "display_order": 0, "archived_at": null }}"#
    )
}

fn expense_json(occurred_on: &str, type_: &str, category_id: &str) -> String {
    format!(
        r#"{{ "id": 1, "occurred_on": "{occurred_on}", "type": "{type_}", "amount": 100,
              "account_id": 1, "counter_account_id": null, "category_id": {category_id},
              "description": "", "recurring_id": null,
              "created_at": "2026-05-25T00:00:00Z", "updated_at": "2026-05-25T00:00:00Z" }}"#
    )
}

fn budget_json(period: &str, starts_on: &str) -> String {
    format!(
        r#"{{ "id": 1, "category_id": 1, "period": "{period}", "amount": 1000,
              "starts_on": "{starts_on}", "ends_on": null, "alert_threshold": 80 }}"#
    )
}

fn recurring_rule_json(frequency: &str, day_of_month: &str, day_of_week: &str, starts_on: &str, ends_on: &str) -> String {
    format!(
        r#"{{ "id": 1, "name": "家賃", "type": "expense", "amount": 80000, "account_id": 1,
              "counter_account_id": null, "category_id": 1, "description": "",
              "frequency": "{frequency}", "day_of_month": {day_of_month},
              "day_of_week": {day_of_week}, "starts_on": "{starts_on}", "ends_on": {ends_on},
              "last_generated_on": null, "active": 1 }}"#
    )
}

fn payload(categories: &str, accounts: &str, recurring_rules: &str, transactions: &str, budgets: &str) -> String {
    format!(
        r#"{{
      "schema_version": 1,
      "exported_at": "2026-05-25T00:00:00Z",
      "categories": [{categories}],
      "accounts": [{accounts}],
      "recurring_rules": [{recurring_rules}],
      "transactions": [{transactions}],
      "budgets": [{budgets}],
      "app_meta": []
    }}"#
    )
}

fn assert_import_rejected(payload: &str, entity_index: &str, needle: &str) {
    let err = import(payload, "append").unwrap_err();
    assert!(matches!(err, AppError::ImportValidation(_)), "expected ImportValidation, got {err:?}");
    let message = err.to_text();
    assert!(message.contains(entity_index), "{message}");
    assert!(message.contains(needle), "{message}");
}

#[test]
fn a_consistent_backup_passes_every_check() {
    let p = payload(
        &category_json("expense", "\"#FF0000\""),
        CASH_ACCOUNT_JSON,
        &recurring_rule_json("monthly", "25", "null", "2026-05-01", "null"),
        &expense_json("2026-05-25", "expense", "1"),
        &budget_json("monthly", "2026-05-01"),
    );
    let (snap, mode) = import(&p, "overwrite").unwrap();
    assert_eq!(mode, ImportMode::Overwrite);
    assert_eq!(snap.accounts.len(), 1);
    assert!(collect_import_errors(&snap).is_empty());
}

#[test]
fn import_rejects_wrong_schema_version() {
    let p = payload("", "", "", "", "").replace("\"schema_version\": 1", "\"schema_version\": 999");
    let err = import(&p, "overwrite").unwrap_err();
    assert!(err.to_text().contains("unsupported backup format version 999 (expected 1)"));
}

#[test]
fn import_rejects_backup_format_version_matching_db_schema() {
    let p = payload("", "", "", "", "").replace("\"schema_version\": 1", "\"schema_version\": 3");
    let message = import(&p, "overwrite").unwrap_err().to_text();
    assert!(
        message.contains("unsupported backup format version 3 (expected 1); this is not app_meta.schema_version"),
        "{message}"
    );
}

#[test]
fn import_rejects_unknown_mode_and_bad_json_and_huge_payloads() {
    let p = payload("", "", "", "", "");
    assert_eq!(import(&p, "merge").unwrap_err().detail_text().as_str(), "unknown mode 'merge'");
    let err = parse_snapshot(3, Err("expected value".to_string()), "append").unwrap_err();
    assert_eq!(err.detail_text().as_str(), "invalid backup JSON: expected value");
    let err = parse_snapshot(10 * 1024 * 1024 + 1, decode(&p), "append").unwrap_err();
    assert_eq!(err.detail_text().as_str(), "payload exceeds 10485760 bytes");
}

#[test]
fn import_rejects_same_account_transfer_before_commit() {
    let transfer = r#"{ "id": 1, "occurred_on": "2026-05-25", "type": "transfer", "amount": 100,
          "account_id": 1, "counter_account_id": 1, "category_id": null, "description": "self",
          "recurring_id": null, "created_at": "2026-05-25T00:00:00Z", "updated_at": "2026-05-25T00:00:00Z" }"#;
    let p = payload("", CASH_ACCOUNT_JSON, "", transfer, "");
    let message = import(&p, "append").unwrap_err().to_text();
    assert!(message.contains("transfer["), "{message}");
    assert!(message.contains("source and destination"), "{message}");
}

#[test]
fn import_rejects_empty_account_name() {
    let account = CASH_ACCOUNT_JSON.replace("\"name\": \"現金\"", "\"name\": \"\"");
    let message = import(&payload("", &account, "", "", ""), "append").unwrap_err().to_text();
    assert!(message.contains("account["), "{message}");
    assert!(message.contains("empty"), "{message}");
}

#[test]
fn import_rejects_non_canonical_transaction_date() {
    let p = payload(&category_json("expense", "null"), CASH_ACCOUNT_JSON, "", &expense_json("2026-5-25", "expense", "1"), "");
    assert_import_rejected(&p, "transaction[0]", "YYYY-MM-DD");
}

#[test]
fn import_rejects_transaction_whose_category_type_mismatches() {
    let p = payload(&category_json("income", "null"), CASH_ACCOUNT_JSON, "", &expense_json("2026-05-25", "expense", "1"), "");
    assert_import_rejected(&p, "transaction[0]", "type does not match");
}

#[test]
fn import_rejects_transfer_with_category() {
    let transfer = r#"{ "id": 1, "occurred_on": "2026-05-25", "type": "transfer", "amount": 100,
          "account_id": 1, "counter_account_id": 2, "category_id": 1, "description": "",
          "recurring_id": null, "created_at": "2026-05-25T00:00:00Z",
          "updated_at": "2026-05-25T00:00:00Z" }"#;
    let bank = CASH_ACCOUNT_JSON.replace("\"id\": 1", "\"id\": 2").replace("現金", "銀行");
    let accounts = format!("{CASH_ACCOUNT_JSON},{bank}");
    let p = payload(&category_json("expense", "null"), &accounts, "", transfer, "");
    assert_import_rejected(&p, "transfer[0]", "category");
}

#[test]
fn import_rejects_budget_with_non_monthly_period() {
    let p = payload(&category_json("expense", "null"), CASH_ACCOUNT_JSON, "", "", &budget_json("yearly", "2026-05-01"));
    assert_import_rejected(&p, "budget[0]", "monthly");
}

#[test]
fn import_rejects_budget_not_starting_on_first_of_month() {
    let p = payload(&category_json("expense", "null"), CASH_ACCOUNT_JSON, "", "", &budget_json("monthly", "2026-05-15"));
    assert_import_rejected(&p, "budget[0]", "first day");
}

#[test]
fn import_rejects_budget_with_non_canonical_starts_on() {
    let p = payload(&category_json("expense", "null"), CASH_ACCOUNT_JSON, "", "", &budget_json("monthly", "2026-5-1"));
    assert_import_rejected(&p, "budget[0]", "YYYY-MM-DD");
}

#[test]
fn import_rejects_budget_on_income_category() {
    let p = payload(&category_json("income", "null"), CASH_ACCOUNT_JSON, "", "", &budget_json("monthly", "2026-05-01"));
    assert_import_rejected(&p, "budget[0]", "not an expense category");
}

#[test]
fn import_rejects_account_note_over_limit() {
    let long_note = "あ".repeat(201);
    let account = CASH_ACCOUNT_JSON.replace("\"note\": \"\"", &format!("\"note\": \"{long_note}\""));
    assert_import_rejected(&payload("", &account, "", "", ""), "account[0]", "note must be 200 chars or fewer");
}

#[test]
fn import_rejects_category_with_invalid_color() {
    let p = payload(&category_json("expense", "\"red;background:url(x)\""), "", "", "", "");
    assert_import_rejected(&p, "category[0]", "#RRGGBB");
}

#[test]
fn import_rejects_recurring_rule_with_invalid_frequency() {
    let p = payload(&category_json("expense", "null"), CASH_ACCOUNT_JSON, &recurring_rule_json("daily", "25", "null", "2026-05-01", "null"), "", "");
    assert_import_rejected(&p, "recurring_rule[0]", "frequency");
}

#[test]
fn import_rejects_recurring_rule_with_day_of_month_out_of_range() {
    let p = payload(&category_json("expense", "null"), CASH_ACCOUNT_JSON, &recurring_rule_json("monthly", "32", "null", "2026-05-01", "null"), "", "");
    assert_import_rejected(&p, "recurring_rule[0]", "day_of_month");
}

#[test]
fn import_rejects_recurring_rule_with_day_of_week_out_of_range() {
    let p = payload(&category_json("expense", "null"), CASH_ACCOUNT_JSON, &recurring_rule_json("weekly", "null", "7", "2026-05-01", "null"), "", "");
    assert_import_rejected(&p, "recurring_rule[0]", "day_of_week");
}

#[test]
fn import_rejects_recurring_rule_with_non_canonical_starts_on() {
    let p = payload(&category_json("expense", "null"), CASH_ACCOUNT_JSON, &recurring_rule_json("monthly", "25", "null", "2026-5-1", "null"), "", "");
    assert_import_rejected(&p, "recurring_rule[0]", "starts_on");
}

#[test]
fn import_rejects_recurring_rule_with_ends_on_before_starts_on() {
    let p = payload(&category_json("expense", "null"), CASH_ACCOUNT_JSON, &recurring_rule_json("monthly", "25", "null", "2026-05-01", "\"2026-04-30\""), "", "");
    assert_import_rejected(&p, "recurring_rule[0]", "ends_on");
}

#[test]
fn import_rejects_recurring_rule_with_non_positive_amount() {
    let rule = recurring_rule_json("monthly", "25", "null", "2026-05-01", "null").replace("\"amount\": 80000", "\"amount\": 0");
    let p = payload(&category_json("expense", "null"), CASH_ACCOUNT_JSON, &rule, "", "");
    assert_import_rejected(&p, "recurring_rule[0]", "amount");
}

#[test]
fn every_bad_row_is_reported_in_order() {
    let bad_account = CASH_ACCOUNT_JSON.replace("\"name\": \"現金\"", "\"name\": \"\"");
    let p = payload(&category_json("expense", "\"blue\""), &bad_account, "", "", "");
    let errors = collect_import_errors(&decode(&p).unwrap());
    let entities: Vec<&str> = errors.iter().map(|e| e.entity.as_str()).collect();
    assert_eq!(entities, vec!["account", "category"]);
    let message = import(&p, "append").unwrap_err().to_text();
    assert_eq!(message, format!("import validation failed: {}", ImportRowError::join_all(&errors)));
}

#[test]
fn missing_references_are_skipped_on_append_and_fatal_on_overwrite() {
    let map = vec![(1, 10), (2, 20), (1, 11)];
    let mut warnings = Vec::new();
    assert_eq!(resolve_required(&map, 1, "transaction", ImportMode::Append, &mut warnings).unwrap(), Some(11));
    assert!(warnings.is_empty());
    assert_eq!(resolve_required(&map, 3, "transaction", ImportMode::Append, &mut warnings).unwrap(), None);
    assert_eq!(warnings, vec!["skipped transaction referencing missing id 3".to_string()]);
    let err = resolve_required(&map, 3, "budget", ImportMode::Overwrite, &mut warnings).unwrap_err();
    assert_eq!(err.detail_text().as_str(), "skipped budget referencing missing id 3");
    assert_eq!(warnings.len(), 1);
    assert_eq!(resolve_optional(&map, None, "x", ImportMode::Overwrite, &mut warnings).unwrap(), Some(None));
    assert_eq!(resolve_optional(&map, Some(2), "x", ImportMode::Overwrite, &mut warnings).unwrap(), Some(Some(20)));
}

#[test]
fn installation_meta_is_not_restored() {
    assert!(restorable_meta_key("categories_seeded"));
    assert!(!restorable_meta_key("schema_version"));
    assert!(!restorable_meta_key("last_backup_at"));
    assert!(!restorable_meta_key(""));
}
