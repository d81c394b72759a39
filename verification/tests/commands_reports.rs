use budget_tracker_lib::commands::reports::{
    build_yearly_report, comparison_months, range_months, series_window, validate_month, validate_year,
};
use budget_tracker_lib::domain::calendar::Date;
use budget_tracker_lib::domain::report::MonthlyBucket;
use budget_tracker_lib::domain::year_month::YearMonth;
use budget_tracker_lib::error::AppError;

#[test]
fn validate_year_rejects_out_of_range() {
    let err = validate_year(999).unwrap_err();
    assert!(matches!(err, AppError::InvalidArgument(_)));
    let err = validate_year(10_000).unwrap_err();
    assert!(matches!(err, AppError::InvalidArgument(_)));
}

#[test]
fn validate_year_accepts_in_range() {
    assert!(validate_year(2026).is_ok());
    assert!(validate_year(1000).is_ok());
    assert!(validate_year(9999).is_ok());
}

#[test]
fn validate_month_rejects_out_of_range() {
    let err = validate_month(0).unwrap_err();
    assert!(matches!(err, AppError::InvalidArgument(_)));
    let err = validate_month(13).unwrap_err();
    assert!(matches!(err, AppError::InvalidArgument(_)));
}

#[test]
fn validate_month_accepts_in_range() {
    assert!(validate_month(1).is_ok());
    assert!(validate_month(12).is_ok());
}

#[test]
fn comparison_months_are_the_month_before_and_a_year_before() {
    let (prev_month, prev_year) = comparison_months(2026, 1);
    assert_eq!(prev_month, YearMonth { year: 2025, month: 12 });
    assert_eq!(prev_year, YearMonth { year: 2025, month: 1 });
}

#[test]
fn range_months_lists_every_month_inclusive() {
    assert_eq!(range_months("2025-11", "2026-02").unwrap(), vec!["2025-11", "2025-12", "2026-01", "2026-02"]);
    assert!(range_months("2026-02", "2025-11").is_err());
    assert!(range_months("2026-2", "2026-03").is_err());
}

#[test]
fn series_window_ends_this_month() {
    let (start, end) = series_window(12, Date::from_ymd_opt(2026, 6, 15).unwrap()).unwrap();
    assert_eq!(end, YearMonth { year: 2026, month: 6 });
    assert_eq!(start, YearMonth { year: 2025, month: 7 });
}

#[test]
fn yearly_report_fills_twelve_months() {
    let raw = vec![MonthlyBucket { year_month: "2026-03".into(), income: 10, expense: 4 }];
    let report = build_yearly_report(&raw, 2026).unwrap();
    assert_eq!(report.months.len(), 12);
    assert_eq!(report.months[2].income, 10);
    assert_eq!(report.total_income, 10);
    assert_eq!(report.net, 6);
    assert_eq!(report.max_expense_month, Some("2026-03".to_string()));
}
