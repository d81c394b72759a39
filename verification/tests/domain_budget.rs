use budget_tracker_lib::domain::budget::{
    evaluate_status, month_bounds, parse_year_month, select_top_statuses, validate_set_budget_input,
    BudgetStatusInput, RawSetBudgetInput,
};
use budget_tracker_lib::domain::calendar::Date;
use budget_tracker_lib::error::AppError;

fn day(y: i32, m: u32, d: u32) -> Date {
    Date::from_ymd_opt(y, m, d).unwrap()
}

#[test]
fn parse_year_month_accepts_canonical_key() {
    let ym = parse_year_month("2026-05").unwrap();
    assert_eq!(ym.year, 2026);
    assert_eq!(ym.month, 5);
    assert_eq!(ym.key(), "2026-05");
}

#[test]
fn parse_year_month_rejects_non_canonical_input() {
    assert!(parse_year_month("2026/05").is_err());
    assert!(parse_year_month("2026-5").is_err());
    assert!(parse_year_month("2026-13").is_err());
    assert!(parse_year_month("abcd-05").is_err());
}

#[test]
fn month_bounds_returns_start_next_start_and_days() {
    let bounds = month_bounds(parse_year_month("2026-02").unwrap()).unwrap();
    assert_eq!(bounds.starts_on.iso_string(), "2026-02-01");
    assert_eq!(bounds.next_starts_on.iso_string(), "2026-03-01");
    assert_eq!(bounds.days_in_month, 28);
}

#[test]
fn month_bounds_handles_leap_year_and_december() {
    let leap = month_bounds(parse_year_month("2024-02").unwrap()).unwrap();
    let december = month_bounds(parse_year_month("2026-12").unwrap()).unwrap();
    assert_eq!(leap.days_in_month, 29);
    assert_eq!(december.starts_on.iso_string(), "2026-12-01");
    assert_eq!(december.next_starts_on.iso_string(), "2027-01-01");
    assert_eq!(december.days_in_month, 31);
}

#[test]
fn validate_set_budget_input_accepts_valid_payload() {
    let validated = validate_set_budget_input(&RawSetBudgetInput {
        category_id: 1,
        year_month: "2026-05",
        amount: 50_000,
        alert_threshold: 80,
    })
    .unwrap();
    assert_eq!(validated.category_id, 1);
    assert_eq!(validated.year_month.key(), "2026-05");
    assert_eq!(validated.amount, 50_000);
    assert_eq!(validated.alert_threshold, 80);
}

#[test]
fn validate_set_budget_input_rejects_invalid_values() {
    assert!(validate_set_budget_input(&RawSetBudgetInput { category_id: 0, year_month: "2026-05", amount: 1, alert_threshold: 80 }).is_err());
    assert!(validate_set_budget_input(&RawSetBudgetInput { category_id: 1, year_month: "2026-13", amount: 1, alert_threshold: 80 }).is_err());
    assert!(validate_set_budget_input(&RawSetBudgetInput { category_id: 1, year_month: "2026-05", amount: -1, alert_threshold: 80 }).is_err());
    assert!(validate_set_budget_input(&RawSetBudgetInput { category_id: 1, year_month: "2026-05", amount: 1, alert_threshold: 201 }).is_err());
}

#[test]
fn validate_set_budget_input_accepts_the_edges() {
    let zero = validate_set_budget_input(&RawSetBudgetInput { category_id: 1, year_month: "2026-05", amount: 0, alert_threshold: 0 }).unwrap();
    assert_eq!((zero.amount, zero.alert_threshold), (0, 0));
    let top = validate_set_budget_input(&RawSetBudgetInput { category_id: 1, year_month: "2026-05", amount: 1, alert_threshold: 200 }).unwrap();
    assert_eq!(top.alert_threshold, 200);
    let err = validate_set_budget_input(&RawSetBudgetInput { category_id: 1, year_month: "2026-05", amount: 1, alert_threshold: -1 }).unwrap_err();
    assert!(matches!(err, AppError::InvalidArgument(_)));
}

#[test]
fn evaluate_status_calculates_progress_and_projection_for_current_month() {
    let status = evaluate_status(
        BudgetStatusInput {
            category_id: 7,
            category_name: "食費".into(),
            category_color: Some("#FFAA00".into()),
            category_icon: Some("utensils".into()),
            budget_id: Some(3),
            budgeted: 60_000,
            spent: 30_000,
            alert_threshold: 80,
        },
        parse_year_month("2026-05").unwrap(),
        day(2026, 5, 15),
    )
    .unwrap();
    assert_eq!(status.percent, 50);
    assert_eq!(status.progress_percent, 50);
    assert_eq!(status.days_left, 17);
    assert_eq!(status.projected, 62_000);
    assert!(!status.threshold_reached);
    assert!(status.projected_over_budget);
}

#[test]
fn evaluate_status_handles_zero_budget() {
    let no_spend = evaluate_status(BudgetStatusInput::minimal(1, 0, 0), parse_year_month("2026-05").unwrap(), day(2026, 5, 15)).unwrap();
    let with_spend = evaluate_status(BudgetStatusInput::minimal(1, 0, 1), parse_year_month("2026-05").unwrap(), day(2026, 5, 15)).unwrap();
    assert_eq!(no_spend.percent, 0);
    assert_eq!(with_spend.percent, 200);
    assert_eq!(with_spend.progress_percent, 100);
    assert!(!with_spend.threshold_reached);
    assert!(!with_spend.projected_over_budget);
}

#[test]
fn evaluate_status_marks_threshold_reached() {
    let status = evaluate_status(BudgetStatusInput::minimal(1, 10_000, 8_000), parse_year_month("2026-05").unwrap(), day(2026, 5, 20)).unwrap();
    assert_eq!(status.percent, 80);
    assert!(status.threshold_reached);
}

#[test]
fn evaluate_status_uses_past_and_future_month_rules() {
    let past = evaluate_status(BudgetStatusInput::minimal(1, 30_000, 12_000), parse_year_month("2026-04").unwrap(), day(2026, 5, 15)).unwrap();
    let future = evaluate_status(BudgetStatusInput::minimal(1, 30_000, 12_000), parse_year_month("2026-06").unwrap(), day(2026, 5, 15)).unwrap();
    assert_eq!(past.days_left, 0);
    assert_eq!(past.projected, 12_000);
    assert_eq!(future.days_left, 30);
    assert_eq!(future.projected, 0);
}

#[test]
fn evaluate_status_does_not_panic_or_overflow_progress() {
    let amounts = [0i64, 1, 7, 10_000, 1 << 40, i64::MAX / 3, i64::MAX - 1, i64::MAX];
    for &budgeted in &amounts {
        for &spent in &amounts {
            for threshold in [0i64, 1, 80, 100, 200] {
                let status = evaluate_status(
                    BudgetStatusInput { alert_threshold: threshold, ..BudgetStatusInput::minimal(1, budgeted, spent) },
                    parse_year_month("2026-05").unwrap(),
                    day(2026, 5, 15),
                )
                .unwrap();
                assert!(status.progress_percent >= 0);
                assert!(status.progress_percent <= 100);
            }
        }
    }
}

#[test]
fn select_top_statuses_ranks_by_percent_and_keeps_ties_in_order() {
    let month = parse_year_month("2026-05").unwrap();
    let today = day(2026, 5, 15);
    let all: Vec<_> = [(1, 100, 50), (2, 100, 90), (3, 100, 50), (4, 100, 10)]
        .iter()
        .map(|&(id, b, s)| evaluate_status(BudgetStatusInput::minimal(id, b, s), month, today).unwrap())
        .collect();
    let top = select_top_statuses(all.clone(), 3);
    let ids: Vec<i64> = top.iter().map(|s| s.category_id).collect();
    assert_eq!(ids, vec![2, 1, 3]);
    assert_eq!(select_top_statuses(all, 10).len(), 4);
}
