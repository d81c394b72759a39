use budget_tracker_lib::domain::calendar::Date;
use budget_tracker_lib::domain::report::{
    accumulate_net_worth, align_to_months, compare, fill_monthly_series, moving_average,
    pivot_category_series, top_n, yearly_stats, CategoryAggregate, CategoryMonthAmount,
    MonthlyBucket, PeriodTotals,
};
use budget_tracker_lib::domain::year_month::{year_month_from_date, YearMonth};

fn bucket(ym: &str, income: i64, expense: i64) -> MonthlyBucket {
    MonthlyBucket { year_month: ym.into(), income, expense }
}

fn amount(ym: &str, id: i64, name: &str, type_: &str, amount: i64) -> CategoryMonthAmount {
    CategoryMonthAmount {
        year_month: ym.into(),
        category_id: id,
        name: name.into(),
        type_: type_.into(),
        amount,
    }
}

#[test]
fn fill_pads_with_zero_buckets() {
    let series = fill_monthly_series(
        &[MonthlyBucket { year_month: "2026-05".into(), income: 1_000, expense: 500 }],
        YearMonth { year: 2026, month: 5 },
        3,
    )
    .unwrap();

    assert_eq!(
        series,
        vec![
            MonthlyBucket { year_month: "2026-03".into(), income: 0, expense: 0 },
            MonthlyBucket { year_month: "2026-04".into(), income: 0, expense: 0 },
            MonthlyBucket { year_month: "2026-05".into(), income: 1_000, expense: 500 },
        ]
    );
}

#[test]
fn fill_zero_months_returns_empty() {
    let r = fill_monthly_series(&[], YearMonth { year: 2026, month: 5 }, 0).unwrap();
    assert!(r.is_empty());
}

#[test]
fn fill_drops_buckets_outside_window() {
    let buckets = vec![bucket("2025-01", 1, 0), bucket("2026-05", 2, 0)];
    let series = fill_monthly_series(&buckets, YearMonth { year: 2026, month: 5 }, 3).unwrap();
    assert_eq!(series.len(), 3);
    assert!(series.iter().all(|b| b.year_month != "2025-01"));
}

#[test]
fn fill_monthly_series_ends_on_year_month_from_date() {
    let end = year_month_from_date(Date::from_ymd_opt(2026, 6, 1).unwrap());
    let series = fill_monthly_series(&[], end, 12).unwrap();
    assert_eq!(series.len(), 12);
    assert_eq!(series.last().unwrap().year_month, "2026-06");
    assert_eq!(series.first().unwrap().year_month, "2025-07");
}

#[test]
fn compare_reports_signed_diffs_and_percent() {
    let d = compare(PeriodTotals::new(300, 200), PeriodTotals::new(250, 160));
    assert_eq!(d.income_diff, 50);
    assert_eq!(d.expense_diff, 40);
    assert_eq!(d.net_diff, 10);
    assert_eq!(d.expense_percent, Some(25));
}

#[test]
fn compare_returns_none_percent_when_previous_expense_is_zero() {
    let d = compare(PeriodTotals::new(300, 200), PeriodTotals::new(300, 0));
    assert_eq!(d.expense_percent, None);
}

#[test]
fn compare_truncates_percent_toward_zero() {
    let d = compare(PeriodTotals::new(0, 200), PeriodTotals::new(0, 300));
    assert_eq!(d.expense_percent, Some(-33));
}

#[test]
fn yearly_stats_divides_by_the_slice_length() {
    let months = vec![bucket("2026-01", 100, 50), bucket("2026-02", 200, 150)];
    let stats = yearly_stats(&months);
    assert_eq!(stats.total_income, 300);
    assert_eq!(stats.total_expense, 200);
    assert_eq!(stats.net, 100);
    assert_eq!(stats.avg_income, 150);
    assert_eq!(stats.avg_expense, 100);
}

#[test]
fn yearly_stats_picks_the_earliest_month_on_a_tie() {
    let months = vec![bucket("2026-01", 0, 500), bucket("2026-02", 0, 900), bucket("2026-03", 0, 900)];
    assert_eq!(yearly_stats(&months).max_expense_month, Some("2026-02".to_string()));
}

#[test]
fn yearly_stats_has_no_max_month_without_expense() {
    let months = vec![bucket("2026-01", 100, 0), bucket("2026-02", 100, 0)];
    let stats = yearly_stats(&months);
    assert_eq!(stats.max_expense_month, None);
    assert_eq!(stats.avg_expense, 0);
}

#[test]
fn yearly_stats_of_an_empty_slice_is_all_zero() {
    let stats = yearly_stats(&[]);
    assert_eq!(stats.total_income, 0);
    assert_eq!(stats.avg_income, 0);
    assert_eq!(stats.max_expense_month, None);
}

#[test]
fn moving_average_leaves_the_unfilled_head_empty() {
    let avg = moving_average(&[10, 20, 60, 40], 3);
    assert_eq!(avg, vec![None, None, Some(30), Some(40)]);
}

#[test]
fn moving_average_truncates_negative_sums_toward_zero() {
    assert_eq!(moving_average(&[-1, -1, -2], 3), vec![None, None, Some(-1)]);
}

#[test]
fn moving_average_of_a_short_slice_is_all_empty() {
    assert_eq!(moving_average(&[5, 5], 3), vec![None, None]);
}

#[test]
fn accumulate_net_worth_starts_from_the_opening_balance() {
    assert_eq!(accumulate_net_worth(1_000, &[100, -300, 50]), vec![1_100, 800, 850]);
}

#[test]
fn align_to_months_zero_fills_and_drops_outsiders() {
    let months = vec!["2026-01".to_string(), "2026-02".into(), "2026-03".into()];
    let rows = vec![
        ("2026-03".to_string(), 30),
        ("2025-12".to_string(), 999),
        ("2026-01".to_string(), 10),
    ];
    assert_eq!(align_to_months(&rows, &months), vec![10, 0, 30]);
}

#[test]
fn pivot_orders_by_total_desc_then_id_and_zero_fills() {
    let months = vec!["2026-01".to_string(), "2026-02".into()];
    let rows = vec![
        amount("2026-01", 1, "A", "expense", 100),
        amount("2026-02", 1, "A", "expense", 100),
        amount("2026-01", 2, "B", "expense", 500),
    ];
    let series = pivot_category_series(&rows, &months);
    assert_eq!(series.len(), 2);
    assert_eq!(series[0].category_id, 2);
    assert_eq!(series[0].points, vec![500, 0]);
    assert_eq!(series[1].category_id, 1);
    assert_eq!(series[1].points, vec![100, 100]);
}

#[test]
fn top_n_filters_by_type_and_caps_the_count() {
    let aggregates = vec![
        CategoryAggregate { category_id: 1, name: "a".into(), type_: "expense".into(), amount: 300 },
        CategoryAggregate { category_id: 2, name: "b".into(), type_: "income".into(), amount: 900 },
        CategoryAggregate { category_id: 3, name: "c".into(), type_: "expense".into(), amount: 200 },
    ];
    let top = top_n(&aggregates, "expense", 1);
    assert_eq!(top.len(), 1);
    assert_eq!(top[0].category_id, 1);
    assert_eq!(top_n(&aggregates, "income", 5).len(), 1);
}

#[test]
fn moving_average_keeps_the_length() {
    let values: Vec<i64> = (0..40).map(|i| (i * 7919 % 2001) - 1000).collect();
    for n in 0..values.len() {
        let avg = moving_average(&values[..n], 3);
        assert_eq!(avg.len(), n);
        for (i, point) in avg.iter().enumerate() {
            assert_eq!(point.is_some(), i + 1 >= 3);
        }
    }
}

#[test]
fn accumulate_ends_at_opening_plus_sum() {
    let deltas: Vec<i64> = (1..40).map(|i| (i * 104_729 % 200_001) - 100_000).collect();
    for opening in [-1_000_000i64, -7, 0, 999_999] {
        let series = accumulate_net_worth(opening, &deltas);
        let expected = deltas.iter().fold(opening, |a, d| a + d);
        assert_eq!(*series.last().unwrap(), expected);
    }
}
