//! Report requests: the checks on years, months and ranges, and the reports
//! assembled from what the database returns.

use vstd::prelude::*;
use crate::domain::arith::clamp_i64;
use crate::domain::calendar::Date;
use crate::domain::report::{
    CategoryAggregate, CategoryMonthAmount, CategorySeries, Delta, MonthlyBucket, PeriodTotals,
    accumulate_net_worth, align_to_months, comparable, compare, delta, fill_monthly_series,
    moving_average, of_type, period_totals, pivot_category_series, series_key, top_n, yearly_stats,
};
use crate::domain::year_month::{YearMonth, month_ordinal, year_month_parse};
use crate::error::{AppError, AppResult, invalid_argument, invalid_number};
use crate::infra::repo::report_repo::MonthlySummary;
use crate::text::{concat, decimal, owned, str_equal};

verus! {

broadcast use vstd::string::group_string_axioms;

/// The most months a series or a range may span.
pub const MAX_RANGE_MONTHS: u32 = 60;

/// The window of the moving average of the monthly net.
pub const MOVING_AVERAGE_WINDOW: usize = 3;

/// How many categories the monthly report ranks.
pub const TOP_CATEGORY_COUNT: usize = 5;

/// Years of four digits, since keys are written `YYYY`.
pub fn validate_year(year: i32) -> (r: AppResult<()>)
    ensures
        1000 <= year <= 9999 ==> r is Ok,
        !(1000 <= year <= 9999) ==> (r matches Err(e) && invalid_argument(e, "year out of range: "@ + decimal(year as int))),
{
    if !(1000 <= year && year <= 9999) {
        return Err(invalid_number("year out of range: ", year as i64));
    }
    Ok(())
}

/// Months 1 to 12.
pub fn validate_month(month: u32) -> (r: AppResult<()>)
    ensures
        1 <= month <= 12 ==> r is Ok,
        !(1 <= month <= 12) ==> (r matches Err(e) && invalid_argument(e, "month out of range: "@ + decimal(month as int))),
{
    if !(1 <= month && month <= 12) {
        return Err(invalid_number("month out of range: ", month as i64));
    }
    Ok(())
}

/// The first and last month of a monthly series of `months` months ending
/// with the month of `today`.
pub fn series_window(months: u32, today: Date) -> (r: AppResult<(YearMonth, YearMonth)>)
    requires
        today.valid(),
    ensures
        (months == 0 || months > MAX_RANGE_MONTHS) ==> (r matches Err(e) && invalid_argument(
            e,
            "months must be between 1 and 60, got "@ + decimal(months as int),
        )),
        !(months == 0 || months > MAX_RANGE_MONTHS) ==> (r matches Ok((start, end)) && end.year == today.year
            && end.month == today.month && start.year == ((month_ordinal(today.year as int, today.month as int) - (months - 1)) / 12) as i32
            && start.month == (month_ordinal(today.year as int, today.month as int) - (months - 1)) % 12 + 1),
{
    if months == 0 || months > MAX_RANGE_MONTHS {
        return Err(invalid_number("months must be between 1 and 60, got ", months as i64));
    }
    let end = crate::domain::year_month::year_month_from_date(today);
    let start = end.step_back(months - 1);
    Ok((start, end))
}

/// The month before and the same month a year before `year-month`.
pub fn comparison_months(year: i32, month: u32) -> (r: (YearMonth, YearMonth))
    requires
        1 <= month <= 12,
    ensures
        r.0.year == ((month_ordinal(year as int, month as int) - 1) / 12) as i32,
        r.0.month == (month_ordinal(year as int, month as int) - 1) % 12 + 1,
        r.1.year == ((month_ordinal(year as int, month as int) - 12) / 12) as i32,
        r.1.month == (month_ordinal(year as int, month as int) - 12) % 12 + 1,
{
    let this = YearMonth { year, month };
    (this.step_back(1), this.step_back(12))
}

/// The monthly tab: the month's totals compared with the month before and
/// the same month a year before, and its top five categories of each kind.
#[derive(Debug, Clone)]
pub struct MonthlyReport {
    pub current: PeriodTotals,
    pub prev_month: PeriodTotals,
    pub prev_year: PeriodTotals,
    pub mom: Delta,
    pub yoy: Delta,
    pub top_expense: Vec<CategoryAggregate>,
    pub top_income: Vec<CategoryAggregate>,
}

/// The totals of a monthly summary.
pub fn totals_of(summary: &MonthlySummary) -> (r: PeriodTotals)
    ensures
        r == period_totals(summary.income, summary.expense),
{
    PeriodTotals::new(summary.income, summary.expense)
}

pub open spec fn top_len(n: int, len: int) -> int {
    if n < len { n } else { len }
}

/// Assemble the monthly report from the three months' summaries.
pub fn build_monthly_report(current: &MonthlySummary, prev_month: &MonthlySummary, prev_year: &MonthlySummary) -> (r: MonthlyReport)
    requires
        comparable(period_totals(current.income, current.expense), period_totals(prev_month.income, prev_month.expense)),
        comparable(period_totals(current.income, current.expense), period_totals(prev_year.income, prev_year.expense)),
    ensures
        r.current == period_totals(current.income, current.expense),
        r.prev_month == period_totals(prev_month.income, prev_month.expense),
        r.prev_year == period_totals(prev_year.income, prev_year.expense),
        r.mom == delta(r.current, r.prev_month),
        r.yoy == delta(r.current, r.prev_year),
        r.top_expense@ == of_type(current.by_category@, "expense"@).take(
            top_len(5, of_type(current.by_category@, "expense"@).len() as int),
        ),
        r.top_income@ == of_type(current.by_category@, "income"@).take(
            top_len(5, of_type(current.by_category@, "income"@).len() as int),
        ),
{
    let this = totals_of(current);
    let last_month = totals_of(prev_month);
    let last_year = totals_of(prev_year);
    MonthlyReport {
        current: this,
        prev_month: last_month,
        prev_year: last_year,
        mom: compare(this, last_month),
        yoy: compare(this, last_year),
        top_expense: top_n(current.by_category.as_slice(), "expense", TOP_CATEGORY_COUNT),
        top_income: top_n(current.by_category.as_slice(), "income", TOP_CATEGORY_COUNT),
    }
}

/// The yearly tab: January to December and their statistics.
#[derive(Debug, Clone)]
pub struct YearlyReport {
    pub year: i32,
    pub months: Vec<MonthlyBucket>,
    pub total_income: i64,
    pub total_expense: i64,
    pub net: i64,
    pub avg_income: i64,
    pub avg_expense: i64,
    pub max_expense_month: Option<String>,
}

/// Assemble the yearly report: always twelve months, averaged over twelve.
pub fn build_yearly_report(raw: &[MonthlyBucket], year: i32) -> (r: AppResult<YearlyReport>)
    ensures
        r matches Ok(rep) && rep.year == year && rep.months.len() == 12 && {
            let end = YearMonth { year, month: 12 };
            &&& forall|j: int| 0 <= j < 12 ==> {
                &&& (#[trigger] rep.months@[j]).year_month@ == series_key(end, 12, j)
                &&& (rep.months@[j].income as int, rep.months@[j].expense as int)
                    == crate::domain::report::series_entry(raw@, end, 12, j)
            }
            &&& rep.total_income == crate::domain::report::sat_fold(crate::domain::report::incomes(rep.months@), 0)
            &&& rep.total_expense == crate::domain::report::sat_fold(crate::domain::report::expenses(rep.months@), 0)
            &&& rep.net == clamp_i64(rep.total_income - rep.total_expense)
            &&& rep.avg_income == crate::domain::arith::trunc_div(rep.total_income as int, 12)
            &&& rep.avg_expense == crate::domain::arith::trunc_div(rep.total_expense as int, 12)
            &&& match crate::domain::report::max_expense_index(rep.months@) {
                Some(i) => rep.max_expense_month matches Some(m) && m@ == rep.months@[i].year_month@,
                None => rep.max_expense_month is None,
            }
        },
{
    let end = YearMonth { year, month: 12 };
    let months = match fill_monthly_series(raw, end, 12) {
        Ok(m) => m,
        Err(e) => {
            return Err(e);
        },
    };
    let stats = yearly_stats(months.as_slice());
    Ok(YearlyReport {
        year,
        months,
        total_income: stats.total_income,
        total_expense: stats.total_expense,
        net: stats.net,
        avg_income: stats.avg_income,
        avg_expense: stats.avg_expense,
        max_expense_month: stats.max_expense_month,
    })
}

/// The span of a range of months, first to last inclusive.
pub open spec fn range_span(start: (int, int), end: (int, int)) -> int {
    (end.0 * 12 + end.1) - (start.0 * 12 + start.1) + 1
}

/// The keys of the months from `from_year_month` to `to_year_month`, both
/// included, in order. A range that runs backwards or spans more than 60
/// months is refused.
pub fn range_months(from_year_month: &str, to_year_month: &str) -> (r: AppResult<Vec<String>>)
    ensures
        match year_month_parse(from_year_month@) {
            Err(m) => r matches Err(e) && invalid_argument(e, m),
            Ok(start) => match year_month_parse(to_year_month@) {
                Err(m) => r matches Err(e) && invalid_argument(e, m),
                Ok(end) => {
                    let span = range_span(start, end);
                    if span < 1 {
                        r matches Err(e) && invalid_argument(
                            e,
                            "range must not run backwards: "@ + from_year_month@ + ".."@ + to_year_month@,
                        )
                    } else if span > 60 {
                        r matches Err(e) && invalid_argument(e, "range must be at most 60 months, got "@ + decimal(span))
                    } else {
                        r matches Ok(keys) && keys.len() == span && forall|j: int|
                            0 <= j < span ==> (#[trigger] keys@[j])@ == series_key(
                                YearMonth { year: end.0 as i32, month: end.1 as u32 },
                                span,
                                j,
                            )
                    }
                },
            },
        },
{
    let start = YearMonth::parse_key(from_year_month)?;
    let end = YearMonth::parse_key(to_year_month)?;
    let span = end.months_since(start) + 1;
    if span < 1 {
        let mut s = concat(owned("range must not run backwards: "), from_year_month);
        s = concat(s, "..");
        s = concat(s, to_year_month);
        return Err(AppError::InvalidArgument(s));
    }
    if span > MAX_RANGE_MONTHS as i64 {
        return Err(invalid_number("range must be at most 60 months, got ", span));
    }
    let span = span as u32;
    let mut keys: Vec<String> = Vec::new();
    let mut offset: u32 = 0;
    while offset < span
        invariant
            0 <= offset <= span <= 60,
            end.month >= 1,
            keys.len() == offset,
            forall|j: int| 0 <= j < offset ==> (#[trigger] keys@[j])@ == series_key(end, span as int, j),
        decreases span - offset,
    {
        let ym = end.step_back(span - 1 - offset);
        keys.push(ym.key());
        offset += 1;
    }
    Ok(keys)
}

/// The category tab: the months of the range, each category's total, and
/// each category's amounts month by month.
#[derive(Debug, Clone)]
pub struct CategoryReport {
    pub months: Vec<String>,
    pub income: Vec<CategoryAggregate>,
    pub expense: Vec<CategoryAggregate>,
    pub series: Vec<CategorySeries>,
}

/// Assemble the category report for the range `months` from the period's
/// totals and its per-month rows; every category of the period is included.
pub fn build_category_report(months: Vec<String>, totals: &[CategoryAggregate], rows: &[CategoryMonthAmount]) -> (r: CategoryReport)
    ensures
        r.months@ == months@,
        r.income@ == of_type(totals@, "income"@),
        r.expense@ == of_type(totals@, "expense"@),
        forall|k: int| 0 <= k < r.series.len() ==> crate::domain::report::is_category_series(#[trigger] r.series@[k], rows@, months@),
        forall|c: i64| #[trigger] crate::domain::report::first_row_of(rows@, months@, c) is Some ==> exists|k: int|
            0 <= k < r.series.len() && r.series@[k].category_id == c,
        forall|k: int, l: int| 0 <= k < l < r.series.len() ==> crate::domain::report::ranks_before(r.series@[k], r.series@[l]),
{
    let income = top_n(totals, "income", totals.len());
    let expense = top_n(totals, "expense", totals.len());
    proof {
        lemma_of_type_len(totals@, "income"@);
        lemma_of_type_len(totals@, "expense"@);
        assert(of_type(totals@, "income"@).take(of_type(totals@, "income"@).len() as int) =~= of_type(totals@, "income"@));
        assert(of_type(totals@, "expense"@).take(of_type(totals@, "expense"@).len() as int) =~= of_type(totals@, "expense"@));
    }
    let month_slice = months.as_slice();
    let series = pivot_category_series(rows, month_slice);
    let ghost month_view = months@;
    let rep = CategoryReport { months, income, expense, series };
    proof {
        assert(month_slice@ == month_view);
        assert forall|c: i64| #[trigger] crate::domain::report::first_row_of(rows@, month_view, c) is Some implies exists|k: int|
            0 <= k < rep.series.len() && rep.series@[k].category_id == c by {
            assert(crate::domain::report::first_row_of(rows@, month_slice@, c) is Some);
            let k = choose|k: int| 0 <= k < series.len() && series@[k].category_id == c;
            assert(rep.series@[k].category_id == c);
        }
    }
    rep
}

proof fn lemma_of_type_len(aggs: Seq<CategoryAggregate>, t: Seq<char>)
    ensures
        of_type(aggs, t).len() <= aggs.len(),
{
    reveal(Seq::filter);
    aggs.lemma_filter_len(|a: CategoryAggregate| a.type_@ == t);
}

/// One month of the net worth chart.
#[derive(Debug, Clone, PartialEq, Eq)]
pub struct NetWorthPoint {
    pub year_month: String,
    /// Net worth at the end of the month (both legs of transfers, accounts not archived).
    pub net_worth: i64,
    /// The month's income less expense (transfers excluded).
    pub net: i64,
    /// The three-month moving average of `net`; empty for the first two points.
    pub net_moving_avg: Option<i64>,
}

#[derive(Debug, Clone)]
pub struct NetWorthReport {
    pub points: Vec<NetWorthPoint>,
}

/// Each bucket's month with its income less expense (saturating).
pub open spec fn bucket_nets(buckets: Seq<MonthlyBucket>) -> Seq<(String, i64)> {
    buckets.map_values(|b: MonthlyBucket| (b.year_month, clamp_i64(b.income - b.expense) as i64))
}

/// The values of `rows` laid onto `months`.
pub open spec fn aligned(rows: Seq<(String, i64)>, months: Seq<String>) -> Seq<i64> {
    Seq::new(months.len(), |i: int| crate::domain::report::aligned_value(rows, months, i) as i64)
}

/// Assemble the net worth chart for the range `months` from the opening net
/// worth, the monthly net worth changes and the monthly buckets.
pub fn build_net_worth_report(months: Vec<String>, opening: i64, deltas: &[(String, i64)], buckets: &[MonthlyBucket]) -> (r: NetWorthReport)
    requires
        months.len() <= i64::MAX,
    ensures
        r.points.len() == months.len(),
        forall|i: int| 0 <= i < months.len() ==> {
            let p = #[trigger] r.points@[i];
            &&& p.year_month@ == months@[i]@
            &&& p.net_worth == crate::domain::report::sat_fold(aligned(deltas@, months@).subrange(0, i + 1), opening as int)
            &&& p.net == aligned(bucket_nets(buckets@), months@)[i]
            &&& p.net_moving_avg == crate::domain::report::average_point(aligned(bucket_nets(buckets@), months@), 3, i)
        },
{
    let changes = align_to_months(deltas, months.as_slice());
    assert(changes@ =~= aligned(deltas@, months@));
    let net_worth = accumulate_net_worth(opening, changes.as_slice());
    let mut pairs: Vec<(String, i64)> = Vec::new();
    let mut k: usize = 0;
    while k < buckets.len()
        invariant
            0 <= k <= buckets.len(),
            pairs@ == bucket_nets(buckets@).subrange(0, k as int),
        decreases buckets.len() - k,
    {
        let b = &buckets[k];
        let net = crate::domain::arith::sat_sub(b.income, b.expense);
        pairs.push((b.year_month.clone(), net));
        assert(pairs@ =~= bucket_nets(buckets@).subrange(0, k + 1));
        k += 1;
    }
    assert(pairs@ =~= bucket_nets(buckets@));
    let nets = align_to_months(pairs.as_slice(), months.as_slice());
    assert(nets@ =~= aligned(bucket_nets(buckets@), months@));
    let averages = moving_average(nets.as_slice(), MOVING_AVERAGE_WINDOW);
    let mut points: Vec<NetWorthPoint> = Vec::new();
    let mut i: usize = 0;
    while i < months.len()
        invariant
            0 <= i <= months.len(),
            net_worth.len() == months.len(),
            nets.len() == months.len(),
            averages.len() == months.len(),
            changes@ == aligned(deltas@, months@),
            nets@ == aligned(bucket_nets(buckets@), months@),
            forall|j: int| 0 <= j < changes.len() ==> #[trigger] net_worth@[j] == crate::domain::report::sat_fold(changes@.subrange(0, j + 1), opening as int),
            forall|j: int| 0 <= j < nets.len() ==> #[trigger] averages@[j] == crate::domain::report::average_point(nets@, 3, j),
            points.len() == i,
            forall|j: int| 0 <= j < i ==> {
                let p = #[trigger] points@[j];
                &&& p.year_month@ == months@[j]@
                &&& p.net_worth == crate::domain::report::sat_fold(aligned(deltas@, months@).subrange(0, j + 1), opening as int)
                &&& p.net == aligned(bucket_nets(buckets@), months@)[j]
                &&& p.net_moving_avg == crate::domain::report::average_point(aligned(bucket_nets(buckets@), months@), 3, j)
            },
        decreases months.len() - i,
    {
        points.push(NetWorthPoint {
            year_month: months[i].clone(),
            net_worth: net_worth[i],
            net: nets[i],
            net_moving_avg: averages[i],
        });
        i += 1;
    }
    NetWorthReport { points }
}

} // verus!
