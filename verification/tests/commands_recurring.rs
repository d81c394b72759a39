use budget_tracker_lib::commands::recurring::{
    due_dates, preview_for_input, rule_expansion, skip_reason, RecurringRuleInput, SkipReason,
};
use budget_tracker_lib::domain::account::{Account, AccountKind};
use budget_tracker_lib::domain::calendar::Date;
use budget_tracker_lib::domain::category::{Category, CategoryType};
use budget_tracker_lib::domain::ledger::TxType;
use budget_tracker_lib::domain::recurring::{Frequency, RecurringRule};

fn date(y: i32, m: u32, d: u32) -> Date {
    Date::from_ymd_opt(y, m, d).unwrap()
}

fn input_expense(account_id: i64, category_id: i64) -> RecurringRuleInput {
    RecurringRuleInput {
        name: "家賃".into(),
        type_: "expense".into(),
        amount: 85_000,
        account_id,
        counter_account_id: None,
        category_id: Some(category_id),
        description: "毎月の家賃".into(),
        frequency: "monthly".into(),
        day_of_month: Some(27),
        day_of_week: None,
        starts_on: "2026-01-27".into(),
        ends_on: None,
    }
}

#[test]
fn preview_counts_the_backfill_a_past_starts_on_would_create() {
    let preview = preview_for_input(&input_expense(1, 2), date(2026, 5, 1), 100).unwrap();
    assert_eq!(preview.backfill_total, 4);
    assert_eq!(preview.backfill, vec!["2026-01-27", "2026-02-27", "2026-03-27", "2026-04-27"]);
    assert!(!preview.truncated);
    assert_eq!(preview.backfill_last.as_deref(), Some("2026-04-27"));
}

#[test]
fn preview_truncates_the_backfill_at_the_limit_but_keeps_the_total() {
    let preview = preview_for_input(&input_expense(1, 2), date(2026, 5, 1), 2).unwrap();
    assert_eq!(preview.backfill_total, 4);
    assert_eq!(preview.backfill, vec!["2026-01-27", "2026-02-27"]);
    assert!(preview.truncated);
}

#[test]
fn preview_lists_the_next_three_upcoming_dates() {
    let preview = preview_for_input(&input_expense(1, 2), date(2026, 5, 1), 100).unwrap();
    assert_eq!(preview.upcoming, vec!["2026-05-27", "2026-06-27", "2026-07-27"]);
}

#[test]
fn preview_of_a_future_rule_has_no_backfill() {
    let future = RecurringRuleInput { starts_on: "2026-09-27".into(), ..input_expense(1, 2) };
    let preview = preview_for_input(&future, date(2026, 5, 1), 100).unwrap();
    assert_eq!(preview.backfill_total, 0);
    assert!(preview.backfill.is_empty());
    assert_eq!(preview.backfill_last, None);
    assert_eq!(preview.upcoming.first().map(String::as_str), Some("2026-09-27"));
}

#[test]
fn preview_rejects_a_malformed_rule_without_touching_the_database() {
    let broken = RecurringRuleInput { frequency: "daily".into(), ..input_expense(1, 2) };
    assert!(preview_for_input(&broken, date(2026, 5, 1), 100).is_err());
}

#[test]
fn preview_stops_upcoming_at_ends_on() {
    let ending = RecurringRuleInput { ends_on: Some("2026-06-30".into()), ..input_expense(1, 2) };
    let preview = preview_for_input(&ending, date(2026, 5, 1), 100).unwrap();
    assert_eq!(preview.upcoming, vec!["2026-05-27", "2026-06-27"]);
}

fn rule(last_generated_on: Option<&str>) -> RecurringRule {
    RecurringRule {
        id: 1,
        name: "家賃".into(),
        type_: TxType::Expense,
        amount: 85_000,
        account_id: 1,
        counter_account_id: None,
        category_id: Some(1),
        description: String::new(),
        frequency: Frequency::Monthly,
        day_of_month: Some(25),
        day_of_week: None,
        starts_on: "2026-01-25".into(),
        ends_on: None,
        last_generated_on: last_generated_on.map(str::to_string),
        active: true,
    }
}

#[test]
fn due_dates_start_after_the_last_generated_date() {
    let dates = due_dates(&rule(Some("2026-04-25")), date(2026, 8, 1)).unwrap();
    assert_eq!(dates, vec![date(2026, 5, 25), date(2026, 6, 25), date(2026, 7, 25)]);
    let again = due_dates(&rule(Some("2026-07-25")), date(2026, 8, 1)).unwrap();
    assert!(again.is_empty());
    let all = due_dates(&rule(None), date(2026, 3, 25)).unwrap();
    assert_eq!(all, vec![date(2026, 1, 25), date(2026, 2, 25), date(2026, 3, 25)]);
}

#[test]
fn due_dates_refuse_an_unreadable_stored_date() {
    let err = due_dates(&rule(Some("2026-4-25")), date(2026, 8, 1)).unwrap_err();
    assert_eq!(err.detail_text().as_str(), "last_generated_on must be YYYY-MM-DD, got '2026-4-25'");
}

#[test]
fn an_expansion_records_the_last_date_written() {
    let r = rule(None);
    assert!(rule_expansion(&r, &[]).is_none());
    let x = rule_expansion(&r, &[date(2026, 5, 25), date(2026, 6, 25)]).unwrap();
    assert_eq!((x.rule_id, x.generated, x.last_generated_on.as_str()), (1, 2, "2026-06-25"));
}

fn account(id: i64, archived: bool) -> Account {
    Account {
        id,
        name: "現金".into(),
        kind: AccountKind::Cash,
        currency: "JPY".into(),
        initial_balance: 0,
        display_order: 0,
        note: String::new(),
        archived_at: archived.then(|| "2026-01-01T00:00:00Z".to_string()),
        created_at: String::new(),
        updated_at: String::new(),
    }
}

fn category(archived: bool) -> Category {
    Category {
        id: 1,
        name: "家賃".into(),
        type_: CategoryType::Expense,
        color: None,
        icon: None,
        display_order: 0,
        archived_at: archived.then(|| "2026-01-01T00:00:00Z".to_string()),
    }
}

#[test]
fn archived_references_skip_a_rule_in_order() {
    assert_eq!(skip_reason(&account(1, false), None, Some(&category(false))), None);
    assert_eq!(skip_reason(&account(1, true), Some(&account(2, true)), None), Some(SkipReason::ArchivedAccount));
    assert_eq!(skip_reason(&account(1, false), Some(&account(2, true)), None), Some(SkipReason::ArchivedCounterAccount));
    assert_eq!(skip_reason(&account(1, false), None, Some(&category(true))), Some(SkipReason::ArchivedCategory));
}
