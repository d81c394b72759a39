use budget_tracker_lib::domain::calendar::Date;
use budget_tracker_lib::domain::year_month::{year_month_from_date, YearMonth};

#[test]
fn key_round_trips() {
    let ym = YearMonth { year: 2026, month: 5 };
    assert_eq!(ym.key(), "2026-05");
    assert_eq!(YearMonth::parse_key("2026-05").unwrap(), ym);
}

#[test]
fn parse_rejects_bad_inputs() {
    assert!(YearMonth::parse_key("2026/05").is_err());
    assert!(YearMonth::parse_key("2026-13").is_err());
    assert!(YearMonth::parse_key("2026-0").is_err());
}

#[test]
fn step_back_within_year() {
    assert_eq!(YearMonth { year: 2026, month: 5 }.step_back(2), YearMonth { year: 2026, month: 3 });
}

#[test]
fn step_back_crosses_year() {
    assert_eq!(YearMonth { year: 2026, month: 2 }.step_back(3), YearMonth { year: 2025, month: 11 });
}

#[test]
fn year_month_from_date_uses_the_naive_calendar_date() {
    let d = Date::from_ymd_opt(2026, 6, 1).unwrap();
    let ym = year_month_from_date(d);
    assert_eq!(ym.key(), "2026-06");
}

#[test]
fn months_since_counts_forward_and_backward() {
    let may = YearMonth { year: 2026, month: 5 };
    let mar = YearMonth { year: 2026, month: 3 };
    let last_nov = YearMonth { year: 2025, month: 11 };
    assert_eq!(may.months_since(mar), 2);
    assert_eq!(mar.months_since(may), -2);
    assert_eq!(may.months_since(last_nov), 6);
    assert_eq!(may.months_since(may), 0);
}

#[test]
fn step_back_then_months_since_gives_the_step() {
    let start = YearMonth { year: 2026, month: 5 };
    for n in 0..40u32 {
        assert_eq!(start.months_since(start.step_back(n)), n as i64);
    }
}

#[test]
fn parse_key_accepts_what_key_writes() {
    for month in 1..=12u32 {
        let ym = YearMonth { year: 1999, month };
        assert_eq!(YearMonth::parse_key(&ym.key()).unwrap(), ym);
    }
}
