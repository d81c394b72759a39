use budget_tracker_lib::domain::calendar::Date;
use budget_tracker_lib::domain::ledger::TxType;
use budget_tracker_lib::domain::recurring::{
    next_occurrence, occurrences_between, validate_rule_input, Frequency, RawRuleInput, Schedule,
};
use chrono::{Datelike, Days, NaiveDate};

fn d(y: i32, m: u32, day: u32) -> Date {
    Date::from_ymd_opt(y, m, day).unwrap()
}

fn monthly(day: u32, starts_on: Date, ends_on: Option<Date>) -> Schedule {
    Schedule { frequency: Frequency::Monthly, day_of_month: Some(day), day_of_week: None, starts_on, ends_on }
}

#[test]
fn monthly_day_31_clamps_to_the_last_day_of_short_months() {
    let s = monthly(31, d(2026, 1, 1), None);
    assert_eq!(
        occurrences_between(&s, None, d(2026, 4, 30)),
        vec![d(2026, 1, 31), d(2026, 2, 28), d(2026, 3, 31), d(2026, 4, 30)]
    );
}

#[test]
fn monthly_day_31_hits_february_29_in_a_leap_year() {
    let s = monthly(31, d(2024, 2, 1), None);
    assert_eq!(occurrences_between(&s, None, d(2024, 2, 29)), vec![d(2024, 2, 29)]);
}

#[test]
fn yearly_takes_its_month_from_starts_on_and_clamps_leap_day() {
    let s = Schedule {
        frequency: Frequency::Yearly,
        day_of_month: Some(29),
        day_of_week: None,
        starts_on: d(2024, 2, 29),
        ends_on: None,
    };
    assert_eq!(
        occurrences_between(&s, None, d(2026, 12, 31)),
        vec![d(2024, 2, 29), d(2025, 2, 28), d(2026, 2, 28)]
    );
}

#[test]
fn weekly_starts_at_the_first_matching_weekday_on_or_after_the_window() {
    let s = Schedule {
        frequency: Frequency::Weekly,
        day_of_month: None,
        day_of_week: Some(1),
        starts_on: d(2026, 1, 1),
        ends_on: None,
    };
    assert_eq!(
        occurrences_between(&s, None, d(2026, 1, 26)),
        vec![d(2026, 1, 5), d(2026, 1, 12), d(2026, 1, 19), d(2026, 1, 26)]
    );
}

#[test]
fn the_window_is_open_on_the_left_and_closed_on_the_right() {
    let s = monthly(10, d(2026, 1, 1), None);
    assert_eq!(occurrences_between(&s, Some(d(2026, 2, 10)), d(2026, 3, 10)), vec![d(2026, 3, 10)]);
}

#[test]
fn ends_on_cuts_the_series_off() {
    let s = monthly(10, d(2026, 1, 1), Some(d(2026, 2, 15)));
    assert_eq!(occurrences_between(&s, None, d(2026, 12, 31)), vec![d(2026, 1, 10), d(2026, 2, 10)]);
}

#[test]
fn nothing_is_generated_before_starts_on() {
    let s = monthly(10, d(2026, 3, 1), None);
    assert_eq!(occurrences_between(&s, None, d(2026, 3, 31)), vec![d(2026, 3, 10)]);
}

#[test]
fn next_occurrence_looks_past_the_end_of_the_window() {
    let s = monthly(31, d(2026, 1, 1), None);
    assert_eq!(next_occurrence(&s, d(2026, 1, 31)), Some(d(2026, 2, 28)));
}

#[test]
fn next_occurrence_is_none_after_ends_on() {
    let s = monthly(10, d(2026, 1, 1), Some(d(2026, 2, 15)));
    assert_eq!(next_occurrence(&s, d(2026, 2, 10)), None);
}

#[test]
fn frequency_parses_and_rejects_unknown_values() {
    assert_eq!(Frequency::parse("monthly").unwrap(), Frequency::Monthly);
    assert_eq!(Frequency::parse("weekly").unwrap(), Frequency::Weekly);
    assert_eq!(Frequency::parse("yearly").unwrap(), Frequency::Yearly);
    assert!(Frequency::parse("daily").is_err());
}

fn raw_expense() -> RawRuleInput<'static> {
    RawRuleInput {
        name: "家賃",
        type_: "expense",
        amount: 85_000,
        account_id: 1,
        counter_account_id: None,
        category_id: Some(2),
        description: "",
        frequency: "monthly",
        day_of_month: Some(27),
        day_of_week: None,
        starts_on: "2026-01-27",
        ends_on: None,
    }
}

#[test]
fn a_well_formed_monthly_expense_validates() {
    let v = validate_rule_input(&raw_expense()).unwrap();
    assert_eq!(v.type_, TxType::Expense);
    assert_eq!(v.frequency, Frequency::Monthly);
    assert_eq!(v.starts_on, d(2026, 1, 27));
    assert_eq!(v.starts_on_key(), "2026-01-27");
    assert_eq!(v.ends_on_key(), None);
}

#[test]
fn name_must_not_be_blank() {
    let raw = RawRuleInput { name: "   ", ..raw_expense() };
    assert!(validate_rule_input(&raw).is_err());
}

#[test]
fn amount_must_be_positive() {
    for amount in [0, -1] {
        let raw = RawRuleInput { amount, ..raw_expense() };
        assert!(validate_rule_input(&raw).is_err(), "amount {amount}");
    }
}

#[test]
fn monthly_requires_day_of_month_in_range_and_no_weekday() {
    let missing = RawRuleInput { day_of_month: None, ..raw_expense() };
    assert!(validate_rule_input(&missing).is_err());
    let out_of_range = RawRuleInput { day_of_month: Some(32), ..raw_expense() };
    assert!(validate_rule_input(&out_of_range).is_err());
    let stray_weekday = RawRuleInput { day_of_week: Some(3), ..raw_expense() };
    assert!(validate_rule_input(&stray_weekday).is_err());
}

#[test]
fn weekly_requires_day_of_week_in_range_and_no_day_of_month() {
    let base = RawRuleInput { frequency: "weekly", day_of_month: None, ..raw_expense() };
    assert!(validate_rule_input(&RawRuleInput { day_of_week: None, ..base }).is_err());
    assert!(validate_rule_input(&RawRuleInput { day_of_week: Some(7), ..base }).is_err());
    assert!(validate_rule_input(&RawRuleInput { day_of_week: Some(1), day_of_month: Some(5), ..base }).is_err());
    assert!(validate_rule_input(&RawRuleInput { day_of_week: Some(1), ..base }).is_ok());
}

#[test]
fn income_and_expense_require_a_category_and_reject_a_counter_account() {
    let no_category = RawRuleInput { category_id: None, ..raw_expense() };
    assert!(validate_rule_input(&no_category).is_err());
    let with_counter = RawRuleInput { counter_account_id: Some(3), ..raw_expense() };
    assert!(validate_rule_input(&with_counter).is_err());
}

#[test]
fn transfer_requires_a_distinct_counter_account_and_no_category() {
    let base = RawRuleInput { type_: "transfer", category_id: None, ..raw_expense() };
    assert!(validate_rule_input(&RawRuleInput { counter_account_id: None, ..base }).is_err());
    assert!(validate_rule_input(&RawRuleInput { counter_account_id: Some(1), ..base }).is_err());
    assert!(validate_rule_input(&RawRuleInput { counter_account_id: Some(3), category_id: Some(2), ..base }).is_err());
    assert!(validate_rule_input(&RawRuleInput { counter_account_id: Some(3), ..base }).is_ok());
}

#[test]
fn ends_on_must_not_precede_starts_on() {
    let raw = RawRuleInput { ends_on: Some("2026-01-26"), ..raw_expense() };
    assert!(validate_rule_input(&raw).is_err());
    let same_day = RawRuleInput { ends_on: Some("2026-01-27"), ..raw_expense() };
    assert!(validate_rule_input(&same_day).is_ok());
}

#[test]
fn dates_must_be_canonical_iso() {
    let raw = RawRuleInput { starts_on: "2026-1-27", ..raw_expense() };
    assert!(validate_rule_input(&raw).is_err());
}

fn plus(base: Date, days: u64) -> Date {
    let n = NaiveDate::from_ymd_opt(base.year, base.month, base.day).unwrap();
    let m = n.checked_add_days(Days::new(days)).unwrap();
    d(m.year(), m.month(), m.day())
}

fn schedules() -> Vec<Schedule> {
    let epoch = d(2020, 1, 1);
    let mut out = Vec::new();
    let freqs = [Frequency::Monthly, Frequency::Weekly, Frequency::Yearly];
    for i in 0..36u64 {
        let starts_on = plus(epoch, (i * 337) % 2000);
        let span = if i % 3 == 0 { None } else { Some((i * 211) % 2000) };
        out.push(Schedule {
            frequency: freqs[(i % 3) as usize],
            day_of_month: Some((i as u32 * 7) % 31 + 1),
            day_of_week: Some((i as u32 * 5) % 7),
            starts_on,
            ends_on: span.map(|s| plus(starts_on, s)),
        });
    }
    out
}

#[test]
fn splitting_the_window_yields_the_same_dates() {
    let epoch = d(2020, 1, 1);
    for (k, schedule) in schedules().iter().enumerate() {
        let k = k as u64;
        let a = plus(epoch, (k * 97) % 3000);
        let b = plus(a, (k * 131) % 1500);
        let c = plus(b, (k * 173) % 1500);
        let whole = occurrences_between(schedule, Some(a), c);
        let mut split = occurrences_between(schedule, Some(a), b);
        split.extend(occurrences_between(schedule, Some(b), c));
        assert_eq!(whole, split);
    }
}

#[test]
fn an_empty_window_yields_nothing() {
    let epoch = d(2020, 1, 1);
    for (k, schedule) in schedules().iter().enumerate() {
        let day = plus(epoch, (k as u64 * 83) % 3000);
        assert!(occurrences_between(schedule, Some(day), day).is_empty());
    }
}

#[test]
fn every_date_is_inside_the_window_and_strictly_increasing() {
    let epoch = d(2020, 1, 1);
    for (k, schedule) in schedules().iter().enumerate() {
        let k = k as u64;
        let after = plus(epoch, (k * 59) % 3000);
        let through = plus(after, (k * 113) % 2000);
        let dates = occurrences_between(schedule, Some(after), through);
        for pair in dates.windows(2) {
            assert!(pair[0] < pair[1]);
        }
        for date in &dates {
            assert!(*date > after);
            assert!(*date <= through);
            assert!(*date >= schedule.starts_on);
            if let Some(end) = schedule.ends_on {
                assert!(*date <= end);
            }
        }
    }
}

#[test]
fn next_occurrence_agrees_with_a_wide_window() {
    let epoch = d(2020, 1, 1);
    for (k, schedule) in schedules().iter().enumerate() {
        let after = plus(epoch, (k as u64 * 71) % 3000);
        let start = if schedule.starts_on > after { schedule.starts_on } else { after };
        let wide = plus(start, 1200);
        let expected = occurrences_between(schedule, Some(after), wide).into_iter().next();
        assert_eq!(next_occurrence(schedule, after), expected);
    }
}

#[test]
fn no_next_date_means_nothing_later_even_far_ahead() {
    let s = monthly(15, d(2026, 1, 1), Some(d(2026, 3, 20)));
    assert_eq!(next_occurrence(&s, d(2026, 3, 15)), None);
    assert!(occurrences_between(&s, Some(d(2026, 3, 15)), d(2030, 12, 31)).is_empty());
    let yearly = Schedule {
        frequency: Frequency::Yearly,
        day_of_month: Some(31),
        day_of_week: None,
        starts_on: d(2020, 12, 31),
        ends_on: None,
    };
    assert_eq!(next_occurrence(&yearly, d(2026, 12, 31)), Some(d(2027, 12, 31)));
}
