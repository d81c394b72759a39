//! Report arithmetic: monthly series, period comparisons, yearly statistics,
//! moving averages, running balances and per-category series.

use vstd::prelude::*;
use crate::domain::arith::{clamp_i64, lemma_trunc_div_fits, sat_add, sat_div, sat_mul, sat_sub, trunc_div};
use crate::domain::year_month::{YearMonth, month_key, month_ordinal};
use crate::error::AppResult;
use crate::text::str_equal;

verus! {

broadcast use vstd::string::group_string_axioms;

/// One month's income and expense.
#[derive(Debug, Clone, PartialEq, Eq)]
pub struct MonthlyBucket {
    pub year_month: String,
    pub income: i64,
    pub expense: i64,
}

/// One category's total over a period; `type_` is `"income"` or `"expense"`.
#[derive(Debug, Clone, PartialEq, Eq)]
pub struct CategoryAggregate {
    pub category_id: i64,
    pub name: String,
    pub type_: String,
    pub amount: i64,
}

// ---------------------------------------------------------------------------
// Saturating sums
// ---------------------------------------------------------------------------

/// `s` folded from the left onto `start` with saturating addition.
pub open spec fn sat_fold(s: Seq<i64>, start: int) -> int
    decreases s.len(),
{
    if s.len() == 0 {
        start
    } else {
        clamp_i64(sat_fold(s.drop_last(), start) + s.last())
    }
}

/// The plain (unbounded) sum of `s`.
pub open spec fn plain_sum(s: Seq<i64>) -> int
    decreases s.len(),
{
    if s.len() == 0 {
        0
    } else {
        plain_sum(s.drop_last()) + s.last()
    }
}

pub proof fn lemma_sat_fold_in_range(s: Seq<i64>, start: int)
    requires
        i64::MIN <= start <= i64::MAX,
    ensures
        i64::MIN <= sat_fold(s, start) <= i64::MAX,
    decreases s.len(),
{
    if s.len() > 0 {
        lemma_sat_fold_in_range(s.drop_last(), start);
    }
}

/// The saturating sum of a slice, starting from `start`.
fn sum_from(values: &[i64], start: i64) -> (r: i64)
    ensures
        r == sat_fold(values@, start as int),
{
    let mut acc = start;
    let mut i: usize = 0;
    while i < values.len()
        invariant
            0 <= i <= values.len(),
            acc == sat_fold(values@.subrange(0, i as int), start as int),
        decreases values.len() - i,
    {
        assert(values@.subrange(0, i + 1).drop_last() =~= values@.subrange(0, i as int));
        acc = sat_add(acc, values[i]);
        i += 1;
    }
    assert(values@.subrange(0, values.len() as int) =~= values@);
    acc
}

/// The incomes of a list of buckets, in order.
pub open spec fn incomes(s: Seq<MonthlyBucket>) -> Seq<i64> {
    s.map_values(|b: MonthlyBucket| b.income)
}

/// The expenses of a list of buckets, in order.
pub open spec fn expenses(s: Seq<MonthlyBucket>) -> Seq<i64> {
    s.map_values(|b: MonthlyBucket| b.expense)
}

// ---------------------------------------------------------------------------
// Monthly series
// ---------------------------------------------------------------------------

/// The month `k` months before `end`, as `YearMonth::step_back` computes it.
pub open spec fn months_back(end: YearMonth, k: int) -> (int, int) {
    let t = month_ordinal(end.year as int, end.month as int) - k;
    ((t / 12) as i32 as int, t % 12 + 1)
}

/// The key of the `j`-th month of a `months`-long series ending at `end`.
pub open spec fn series_key(end: YearMonth, months: int, j: int) -> Seq<char> {
    let (y, m) = months_back(end, months - 1 - j);
    month_key(y, m)
}

/// The last bucket whose key is `key`.
pub open spec fn last_with_key(buckets: Seq<MonthlyBucket>, key: Seq<char>) -> Option<int>
    decreases buckets.len(),
{
    if buckets.len() == 0 {
        None
    } else if buckets.last().year_month@ == key {
        Some(buckets.len() - 1)
    } else {
        last_with_key(buckets.drop_last(), key)
    }
}

/// The `j`-th bucket of the series: the last bucket stored under its key,
/// unless an earlier month of the series already took that key; otherwise an
/// empty bucket.
pub open spec fn series_entry(buckets: Seq<MonthlyBucket>, end: YearMonth, months: int, j: int) -> (
    int,
    int,
) {
    let key = series_key(end, months, j);
    if exists|k: int| 0 <= k < j && series_key(end, months, k) == key {
        (0, 0)
    } else {
        match last_with_key(buckets, key) {
            Some(i) => (buckets[i].income as int, buckets[i].expense as int),
            None => (0, 0),
        }
    }
}

proof fn lemma_last_with_key(buckets: Seq<MonthlyBucket>, key: Seq<char>)
    ensures
        match last_with_key(buckets, key) {
            Some(i) => 0 <= i < buckets.len() && buckets[i].year_month@ == key && forall|j: int|
                i < j < buckets.len() ==> buckets[j].year_month@ != key,
            None => forall|j: int| 0 <= j < buckets.len() ==> buckets[j].year_month@ != key,
        },
    decreases buckets.len(),
{
    if buckets.len() > 0 {
        lemma_last_with_key(buckets.drop_last(), key);
        assert forall|j: int| 0 <= j < buckets.len() - 1 implies buckets.drop_last()[j] == buckets[j] by {}
    }
}

/// Index of the last bucket whose key is `key`.
fn find_last_key(buckets: &[MonthlyBucket], key: &str) -> (r: Option<usize>)
    ensures
        r matches Some(i) ==> i < buckets.len() && last_with_key(buckets@, key@) == Some(i as int),
        r is None ==> last_with_key(buckets@, key@) is None,
{
    proof {
        lemma_last_with_key(buckets@, key@);
    }
    let mut i = buckets.len();
    while i > 0
        invariant
            0 <= i <= buckets.len(),
            forall|j: int| i <= j < buckets.len() ==> buckets@[j].year_month@ != key@,
            match last_with_key(buckets@, key@) {
                Some(l) => 0 <= l < buckets.len() && buckets@[l].year_month@ == key@ && forall|j: int|
                    l < j < buckets.len() ==> buckets@[j].year_month@ != key@,
                None => forall|j: int| 0 <= j < buckets.len() ==> buckets@[j].year_month@ != key@,
            },
        decreases i,
    {
        if str_equal(buckets[i - 1].year_month.as_str(), key) {
            return Some(i - 1);
        }
        i -= 1;
    }
    None
}

/// The `months` months ending at `end`, oldest first, each holding the stored
/// bucket for that month or zeros where none was stored.
pub fn fill_monthly_series(buckets: &[MonthlyBucket], end: YearMonth, months: u32) -> (r: AppResult<
    Vec<MonthlyBucket>,
>)
    requires
        months > 0 ==> end.month >= 1,
    ensures
        r matches Ok(series) && series.len() == months && forall|j: int|
            0 <= j < months ==> {
                &&& (#[trigger] series@[j]).year_month@ == series_key(end, months as int, j)
                &&& (series@[j].income as int, series@[j].expense as int) == series_entry(
                    buckets@,
                    end,
                    months as int,
                    j,
                )
            },
{
    let mut series: Vec<MonthlyBucket> = Vec::new();
    let mut keys: Vec<String> = Vec::new();
    let mut j: u32 = 0;
    while j < months
        invariant
            0 <= j <= months,
            months > 0 ==> end.month >= 1,
            series.len() == j,
            keys.len() == j,
            forall|k: int| 0 <= k < j ==> (#[trigger] keys@[k])@ == series_key(end, months as int, k),
            forall|k: int|
                0 <= k < j ==> {
                    &&& (#[trigger] series@[k]).year_month@ == series_key(end, months as int, k)
                    &&& (series@[k].income as int, series@[k].expense as int) == series_entry(
                        buckets@,
                        end,
                        months as int,
                        k,
                    )
                },
        decreases months - j,
    {
        let ym = end.step_back(months - 1 - j);
        let key = ym.key();
        assert(key@ == series_key(end, months as int, j as int));
        let mut taken = false;
        let mut k: usize = 0;
        while k < keys.len()
            invariant
                0 <= k <= keys.len(),
                keys.len() == j,
                taken <==> exists|q: int| 0 <= q < k && (#[trigger] keys@[q])@ == key@,
            decreases keys.len() - k,
        {
            if str_equal(keys[k].as_str(), key.as_str()) {
                taken = true;
            }
            k += 1;
        }
        proof {
            if taken {
                let q = choose|q: int| 0 <= q < j && (#[trigger] keys@[q])@ == key@;
                assert(series_key(end, months as int, q) == key@);
            } else {
                assert forall|q: int| 0 <= q < j implies series_key(end, months as int, q) != key@ by {
                    assert(keys@[q]@ == series_key(end, months as int, q));
                }
            }
        }
        let (income, expense) = if taken {
            (0i64, 0i64)
        } else {
            match find_last_key(buckets, key.as_str()) {
                Some(i) => (buckets[i].income, buckets[i].expense),
                None => (0i64, 0i64),
            }
        };
        let key_copy = key.clone();
        series.push(MonthlyBucket { year_month: key, income, expense });
        keys.push(key_copy);
        j += 1;
    }
    Ok(series)
}

// ---------------------------------------------------------------------------
// Period comparison
// ---------------------------------------------------------------------------

/// A period's income, expense, and their (saturating) difference.
#[derive(Debug, Clone, Copy, PartialEq, Eq)]
pub struct PeriodTotals {
    pub income: i64,
    pub expense: i64,
    pub net: i64,
}

impl PeriodTotals {
    pub fn new(income: i64, expense: i64) -> (r: Self)
        ensures
            r.income == income,
            r.expense == expense,
            r.net == clamp_i64(income - expense),
    {
        PeriodTotals { income, expense, net: sat_sub(income, expense) }
    }
}

/// The change from one period to the next. `expense_percent` is `None` when
/// the earlier expense is zero.
#[derive(Debug, Clone, Copy, PartialEq, Eq)]
pub struct Delta {
    pub income_diff: i64,
    pub expense_diff: i64,
    pub net_diff: i64,
    pub expense_percent: Option<i64>,
}

/// The saturating expense change scaled by 100, the dividend of `expense_percent`.
pub open spec fn scaled_expense_diff(current: PeriodTotals, previous: PeriodTotals) -> int {
    clamp_i64(clamp_i64(current.expense - previous.expense) * 100)
}

/// The totals `PeriodTotals::new` builds.
pub open spec fn period_totals(income: i64, expense: i64) -> PeriodTotals {
    PeriodTotals { income, expense, net: clamp_i64(income - expense) as i64 }
}

/// `compare` does not divide `i64::MIN` by -1.
pub open spec fn comparable(current: PeriodTotals, previous: PeriodTotals) -> bool {
    !(previous.expense == -1 && scaled_expense_diff(current, previous) == i64::MIN)
}

/// The delta `compare` returns.
pub open spec fn delta(current: PeriodTotals, previous: PeriodTotals) -> Delta {
    Delta {
        income_diff: clamp_i64(current.income - previous.income) as i64,
        expense_diff: clamp_i64(current.expense - previous.expense) as i64,
        net_diff: clamp_i64(current.net - previous.net) as i64,
        expense_percent: if previous.expense != 0 {
            Some(trunc_div(scaled_expense_diff(current, previous), previous.expense as int) as i64)
        } else {
            None
        },
    }
}

/// Compare `current` with `previous`: differences saturate, and the expense
/// change as a percentage of the earlier expense is rounded toward zero.
pub fn compare(current: PeriodTotals, previous: PeriodTotals) -> (r: Delta)
    requires
        !(previous.expense == -1 && scaled_expense_diff(current, previous) == i64::MIN),
    ensures
        r.income_diff == clamp_i64(current.income - previous.income),
        r.expense_diff == clamp_i64(current.expense - previous.expense),
        r.net_diff == clamp_i64(current.net - previous.net),
        r.expense_percent == (if previous.expense != 0 {
            Some(trunc_div(scaled_expense_diff(current, previous), previous.expense as int) as i64)
        } else {
            None
        }),
{
    let expense_diff = sat_sub(current.expense, previous.expense);
    let expense_percent = if previous.expense != 0 {
        let scaled = sat_mul(expense_diff, 100);
        proof {
            lemma_trunc_div_fits(scaled as int, previous.expense as int);
        }
        Some(sat_div(scaled, previous.expense))
    } else {
        None
    };
    Delta {
        income_diff: sat_sub(current.income, previous.income),
        expense_diff,
        net_diff: sat_sub(current.net, previous.net),
        expense_percent,
    }
}

// ---------------------------------------------------------------------------
// Yearly statistics
// ---------------------------------------------------------------------------

/// Totals, averages and the month of highest spending over a list of months.
#[derive(Debug, Clone, PartialEq, Eq)]
pub struct YearlyStats {
    pub total_income: i64,
    pub total_expense: i64,
    pub net: i64,
    pub avg_income: i64,
    pub avg_expense: i64,
    pub max_expense_month: Option<String>,
}

/// The month with the greatest positive expense, the earliest of equals; the
/// scan replaces its choice only on a strictly greater expense.
pub open spec fn max_expense_index(months: Seq<MonthlyBucket>) -> Option<int>
    decreases months.len(),
{
    if months.len() == 0 {
        None
    } else {
        let prev = max_expense_index(months.drop_last());
        let last = months.len() - 1;
        if months[last].expense <= 0 {
            prev
        } else {
            match prev {
                None => Some(last),
                Some(p) => if months[last].expense > months[p].expense {
                    Some(last)
                } else {
                    prev
                },
            }
        }
    }
}

/// The divisor of the averages: the number of months, at least one.
pub open spec fn month_divisor(n: int) -> int {
    if n > 1 {
        n
    } else {
        1
    }
}

proof fn lemma_max_expense_index_bounds(months: Seq<MonthlyBucket>)
    ensures
        max_expense_index(months) matches Some(i) ==> 0 <= i < months.len(),
    decreases months.len(),
{
    if months.len() > 0 {
        lemma_max_expense_index_bounds(months.drop_last());
    }
}

/// Sum incomes and expenses, average them over the slice length (at least one),
/// and find the month of highest spending.
pub fn yearly_stats(months: &[MonthlyBucket]) -> (r: YearlyStats)
    requires
        months.len() <= i64::MAX,
    ensures
        r.total_income == sat_fold(incomes(months@), 0),
        r.total_expense == sat_fold(expenses(months@), 0),
        r.net == clamp_i64(r.total_income - r.total_expense),
        r.avg_income == trunc_div(r.total_income as int, month_divisor(months.len() as int)),
        r.avg_expense == trunc_div(r.total_expense as int, month_divisor(months.len() as int)),
        match max_expense_index(months@) {
            Some(i) => r.max_expense_month matches Some(m) && m@ == months@[i].year_month@,
            None => r.max_expense_month is None,
        },
{
    let mut total_income: i64 = 0;
    let mut total_expense: i64 = 0;
    let mut max: Option<usize> = None;
    let mut i: usize = 0;
    while i < months.len()
        invariant
            0 <= i <= months.len(),
            total_income == sat_fold(incomes(months@.subrange(0, i as int)), 0),
            total_expense == sat_fold(expenses(months@.subrange(0, i as int)), 0),
            max_expense_index(months@.subrange(0, i as int)) == (match max {
                Some(k) => Some(k as int),
                None => None::<int>,
            }),
            max matches Some(k) ==> k < i,
        decreases months.len() - i,
    {
        let ghost prefix = months@.subrange(0, i as int);
        let ghost next = months@.subrange(0, i + 1);
        assert(next.drop_last() =~= prefix);
        assert(incomes(next).drop_last() =~= incomes(prefix));
        assert(expenses(next).drop_last() =~= expenses(prefix));
        let b = &months[i];
        total_income = sat_add(total_income, b.income);
        total_expense = sat_add(total_expense, b.expense);
        if b.expense > 0 {
            let replace = match max {
                None => true,
                Some(k) => b.expense > months[k].expense,
            };
            if replace {
                max = Some(i);
            }
        }
        i += 1;
    }
    assert(months@.subrange(0, months.len() as int) =~= months@);
    let divisor: i64 = if months.len() > 1 {
        months.len() as i64
    } else {
        1
    };
    proof {
        lemma_trunc_div_fits(total_income as int, divisor as int);
        lemma_trunc_div_fits(total_expense as int, divisor as int);
    }
    let max_expense_month = match max {
        Some(k) => Some(months[k].year_month.clone()),
        None => None,
    };
    YearlyStats {
        total_income,
        total_expense,
        net: sat_sub(total_income, total_expense),
        avg_income: sat_div(total_income, divisor),
        avg_expense: sat_div(total_expense, divisor),
        max_expense_month,
    }
}

/// The month `yearly_stats` reports has the greatest expense of all, a
/// positive one, and every earlier month spent strictly less: on a tie the
/// earliest month wins. With no positive expense there is no such month.
pub proof fn law_max_expense_month_is_earliest_maximum(months: Seq<MonthlyBucket>)
    ensures
        match max_expense_index(months) {
            Some(i) => {
                &&& 0 <= i < months.len()
                &&& months[i].expense > 0
                &&& forall|j: int| 0 <= j < months.len() ==> months[j].expense <= months[i].expense
                &&& forall|j: int| 0 <= j < i ==> months[j].expense < months[i].expense
            },
            None => forall|j: int| 0 <= j < months.len() ==> months[j].expense <= 0,
        },
    decreases months.len(),
{
    if months.len() > 0 {
        let rest = months.drop_last();
        law_max_expense_month_is_earliest_maximum(rest);
        assert forall|j: int| 0 <= j < rest.len() implies rest[j] == months[j] by {}
    }
}

// ---------------------------------------------------------------------------
// Moving average and running balance
// ---------------------------------------------------------------------------

/// The point at `i` of a trailing moving average over `window` values: empty
/// until the window fills, then the saturating sum of the window divided by
/// its width, rounded toward zero.
pub open spec fn average_point(values: Seq<i64>, window: int, i: int) -> Option<i64> {
    if window == 0 || i + 1 < window {
        None
    } else {
        Some(trunc_div(sat_fold(values.subrange(i + 1 - window, i + 1), 0), window) as i64)
    }
}

/// The trailing moving average of `values` over `window` points.
pub fn moving_average(values: &[i64], window: usize) -> (r: Vec<Option<i64>>)
    requires
        values.len() <= i64::MAX,
    ensures
        r.len() == values.len(),
        forall|i: int| 0 <= i < values.len() ==> #[trigger] r@[i] == average_point(values@, window as int, i),
{
    let mut out: Vec<Option<i64>> = Vec::new();
    let mut i: usize = 0;
    while i < values.len()
        invariant
            0 <= i <= values.len(),
            out.len() == i,
            values.len() <= i64::MAX,
            forall|k: int| 0 <= k < i ==> #[trigger] out@[k] == average_point(values@, window as int, k),
        decreases values.len() - i,
    {
        if window == 0 || i + 1 < window {
            out.push(None);
        } else {
            let start = i + 1 - window;
            let part = &values[start..i + 1];
            assert(part@ =~= values@.subrange(start as int, i + 1));
            let sum = sum_from(part, 0);
            proof {
                lemma_sat_fold_in_range(part@, 0);
                lemma_trunc_div_fits(sum as int, window as int);
            }
            let divisor = window as i64;
            out.push(Some(sat_div(sum, divisor)));
        }
        i += 1;
    }
    out
}

/// The balance after each month: the opening balance plus every change so
/// far, added with saturation.
pub fn accumulate_net_worth(opening: i64, deltas: &[i64]) -> (r: Vec<i64>)
    ensures
        r.len() == deltas.len(),
        forall|i: int| 0 <= i < deltas.len() ==> #[trigger] r@[i] == sat_fold(deltas@.subrange(0, i + 1), opening as int),
{
    let mut out: Vec<i64> = Vec::new();
    let mut running = opening;
    let mut i: usize = 0;
    while i < deltas.len()
        invariant
            0 <= i <= deltas.len(),
            out.len() == i,
            running == sat_fold(deltas@.subrange(0, i as int), opening as int),
            forall|k: int| 0 <= k < i ==> #[trigger] out@[k] == sat_fold(deltas@.subrange(0, k + 1), opening as int),
        decreases deltas.len() - i,
    {
        assert(deltas@.subrange(0, i + 1).drop_last() =~= deltas@.subrange(0, i as int));
        running = sat_add(running, deltas[i]);
        out.push(running);
        i += 1;
    }
    out
}

/// When no running total leaves the `i64` range, the last balance is the
/// opening balance plus the sum of all changes.
pub proof fn law_accumulate_ends_at_opening_plus_sum(opening: int, deltas: Seq<i64>)
    requires
        forall|k: int| 0 <= k <= deltas.len() ==> i64::MIN <= opening + #[trigger] plain_sum(deltas.subrange(0, k)) <= i64::MAX,
    ensures
        sat_fold(deltas, opening) == opening + plain_sum(deltas),
    decreases deltas.len(),
{
    if deltas.len() > 0 {
        let rest = deltas.drop_last();
        assert forall|k: int| 0 <= k <= rest.len() implies i64::MIN <= opening + #[trigger] plain_sum(rest.subrange(0, k)) <= i64::MAX by {
            assert(rest.subrange(0, k) =~= deltas.subrange(0, k));
        }
        law_accumulate_ends_at_opening_plus_sum(opening, rest);
        assert(deltas.subrange(0, deltas.len() as int) =~= deltas);
    }
}

// ---------------------------------------------------------------------------
// Aligning rows to months
// ---------------------------------------------------------------------------

/// The position of `key` in `months`; with repeated months, the last one.
pub open spec fn month_slot(months: Seq<String>, key: Seq<char>) -> Option<int>
    decreases months.len(),
{
    if months.len() == 0 {
        None
    } else if months.last()@ == key {
        Some(months.len() - 1)
    } else {
        month_slot(months.drop_last(), key)
    }
}

proof fn lemma_month_slot(months: Seq<String>, key: Seq<char>)
    ensures
        match month_slot(months, key) {
            Some(i) => 0 <= i < months.len() && months[i]@ == key && forall|j: int|
                i < j < months.len() ==> months[j]@ != key,
            None => forall|j: int| 0 <= j < months.len() ==> months[j]@ != key,
        },
    decreases months.len(),
{
    if months.len() > 0 {
        lemma_month_slot(months.drop_last(), key);
        assert forall|j: int| 0 <= j < months.len() - 1 implies months.drop_last()[j] == months[j] by {}
    }
}

/// Where `key` lands in `months`.
fn find_slot(months: &[String], key: &str) -> (r: Option<usize>)
    ensures
        r matches Some(i) ==> i < months.len() && month_slot(months@, key@) == Some(i as int),
        r is None ==> month_slot(months@, key@) is None,
{
    proof {
        lemma_month_slot(months@, key@);
    }
    let mut i = months.len();
    while i > 0
        invariant
            0 <= i <= months.len(),
            forall|j: int| i <= j < months.len() ==> months@[j]@ != key@,
            match month_slot(months@, key@) {
                Some(l) => 0 <= l < months.len() && months@[l]@ == key@ && forall|j: int|
                    l < j < months.len() ==> months@[j]@ != key@,
                None => forall|j: int| 0 <= j < months.len() ==> months@[j]@ != key@,
            },
        decreases i,
    {
        if str_equal(months[i - 1].as_str(), key) {
            return Some(i - 1);
        }
        i -= 1;
    }
    None
}

/// The saturating sum, in row order, of the values of the rows that land on slot `i`.
pub open spec fn aligned_value(rows: Seq<(String, i64)>, months: Seq<String>, i: int) -> int
    decreases rows.len(),
{
    if rows.len() == 0 {
        0
    } else {
        let prev = aligned_value(rows.drop_last(), months, i);
        if month_slot(months, rows.last().0@) == Some(i) {
            clamp_i64(prev + rows.last().1)
        } else {
            prev
        }
    }
}

/// Lay `(year_month, value)` rows onto the order of `months`: months without a
/// row get 0, and rows of other months are dropped.
pub fn align_to_months(rows: &[(String, i64)], months: &[String]) -> (r: Vec<i64>)
    ensures
        r.len() == months.len(),
        forall|i: int| 0 <= i < months.len() ==> #[trigger] r@[i] == aligned_value(rows@, months@, i),
{
    let mut out: Vec<i64> = Vec::new();
    let mut i: usize = 0;
    while i < months.len()
        invariant
            0 <= i <= months.len(),
            out.len() == i,
            forall|k: int| 0 <= k < i ==> #[trigger] out@[k] == 0,
        decreases months.len() - i,
    {
        out.push(0);
        i += 1;
    }
    let mut k: usize = 0;
    while k < rows.len()
        invariant
            0 <= k <= rows.len(),
            out.len() == months.len(),
            forall|j: int| 0 <= j < months.len() ==> #[trigger] out@[j] == aligned_value(rows@.subrange(0, k as int), months@, j),
        decreases rows.len() - k,
    {
        let ghost before = out@;
        assert(rows@.subrange(0, k + 1).drop_last() =~= rows@.subrange(0, k as int));
        let (year_month, value) = &rows[k];
        match find_slot(months, year_month.as_str()) {
            Some(slot) => {
                let updated = sat_add(out[slot], *value);
                out.set(slot, updated);
            },
            None => {},
        }
        k += 1;
    }
    assert(rows@.subrange(0, rows.len() as int) =~= rows@);
    out
}

// ---------------------------------------------------------------------------
// Top categories
// ---------------------------------------------------------------------------

/// The aggregates of type `type_`, in their order.
pub open spec fn of_type(aggregates: Seq<CategoryAggregate>, type_: Seq<char>) -> Seq<CategoryAggregate> {
    aggregates.filter(|a: CategoryAggregate| a.type_@ == type_)
}

/// The first `n` aggregates of type `type_` (the caller passes them sorted by
/// amount, largest first).
pub fn top_n(aggregates: &[CategoryAggregate], type_: &str, n: usize) -> (r: Vec<CategoryAggregate>)
    ensures
        r@ == of_type(aggregates@, type_@).take(
            if n < of_type(aggregates@, type_@).len() { n as int } else { of_type(aggregates@, type_@).len() as int },
        ),
{
    let mut out: Vec<CategoryAggregate> = Vec::new();
    let mut i: usize = 0;
    while i < aggregates.len() && out.len() < n
        invariant
            0 <= i <= aggregates.len(),
            out.len() <= n,
            out@ == of_type(aggregates@.subrange(0, i as int), type_@),
        decreases aggregates.len() - i,
    {
        proof {
            reveal(Seq::filter);
            assert(aggregates@.subrange(0, i + 1).drop_last() =~= aggregates@.subrange(0, i as int));
        }
        let a = &aggregates[i];
        if str_equal(a.type_.as_str(), type_) {
            out.push(CategoryAggregate {
                category_id: a.category_id,
                name: a.name.clone(),
                type_: a.type_.clone(),
                amount: a.amount,
            });
        }
        i += 1;
    }
    proof {
        lemma_of_type_prefix(aggregates@, type_@, i as int);
        if i == aggregates.len() {
            assert(aggregates@.subrange(0, i as int) =~= aggregates@);
        }
    }
    out
}

/// The matches among the first `i` aggregates are a prefix of all matches.
proof fn lemma_of_type_prefix(aggregates: Seq<CategoryAggregate>, type_: Seq<char>, i: int)
    requires
        0 <= i <= aggregates.len(),
    ensures
        of_type(aggregates.subrange(0, i), type_).len() <= of_type(aggregates, type_).len(),
        of_type(aggregates, type_).take(of_type(aggregates.subrange(0, i), type_).len() as int)
            == of_type(aggregates.subrange(0, i), type_),
    decreases aggregates.len() - i,
{
    reveal(Seq::filter);
    if i == aggregates.len() {
        assert(aggregates.subrange(0, i) =~= aggregates);
        assert(of_type(aggregates, type_).take(of_type(aggregates, type_).len() as int) =~= of_type(aggregates, type_));
    } else {
        lemma_of_type_prefix(aggregates, type_, i + 1);
        let small = of_type(aggregates.subrange(0, i), type_);
        let big = of_type(aggregates.subrange(0, i + 1), type_);
        assert(aggregates.subrange(0, i + 1).drop_last() =~= aggregates.subrange(0, i));
        assert(big == small || big == small.push(aggregates[i]));
        let all = of_type(aggregates, type_);
        assert(all.take(big.len() as int) == big);
        assert forall|j: int| 0 <= j < small.len() implies all.take(small.len() as int)[j] == small[j] by {
            assert(all.take(big.len() as int)[j] == big[j]);
        }
        assert(all.take(small.len() as int) =~= small);
    }
}

// ---------------------------------------------------------------------------
// Per-category series
// ---------------------------------------------------------------------------

/// One `(month, category, amount)` row of the repository.
#[derive(Debug, Clone, PartialEq, Eq)]
pub struct CategoryMonthAmount {
    pub year_month: String,
    pub category_id: i64,
    pub name: String,
    pub type_: String,
    pub amount: i64,
}

/// One category's amounts month by month; `points` runs parallel to the months.
#[derive(Debug, Clone, PartialEq, Eq)]
pub struct CategorySeries {
    pub category_id: i64,
    pub name: String,
    pub type_: String,
    pub points: Vec<i64>,
}

/// The first row of category `c` whose month is among `months`.
pub open spec fn first_row_of(rows: Seq<CategoryMonthAmount>, months: Seq<String>, c: i64) -> Option<int>
    decreases rows.len(),
{
    if rows.len() == 0 {
        None
    } else {
        match first_row_of(rows.drop_last(), months, c) {
            Some(k) => Some(k),
            None => if rows.last().category_id == c && month_slot(months, rows.last().year_month@) is Some {
                Some(rows.len() - 1)
            } else {
                None
            },
        }
    }
}

/// Category `c`'s amount at slot `i`: the saturating sum, in row order, of its
/// rows whose month lands there.
pub open spec fn category_point(rows: Seq<CategoryMonthAmount>, months: Seq<String>, c: i64, i: int) -> int
    decreases rows.len(),
{
    if rows.len() == 0 {
        0
    } else {
        let prev = category_point(rows.drop_last(), months, c, i);
        let r = rows.last();
        if r.category_id == c && month_slot(months, r.year_month@) == Some(i) {
            clamp_i64(prev + r.amount)
        } else {
            prev
        }
    }
}

/// A series' total over the period, summed with saturation.
pub open spec fn series_total(points: Seq<i64>) -> int {
    sat_fold(points, 0)
}

/// `a` comes before `b`: a larger total first, then the smaller category id.
pub open spec fn ranks_before(a: CategorySeries, b: CategorySeries) -> bool {
    let (ta, tb) = (series_total(a.points@), series_total(b.points@));
    ta > tb || (ta == tb && a.category_id < b.category_id)
}

/// `s` is the series of its category: named and typed after the category's
/// first row within the months, with one point per month.
pub open spec fn is_category_series(s: CategorySeries, rows: Seq<CategoryMonthAmount>, months: Seq<String>) -> bool {
    &&& first_row_of(rows, months, s.category_id) matches Some(f)
    &&& s.name@ == rows[f].name@
    &&& s.type_@ == rows[f].type_@
    &&& s.points@.len() == months.len()
    &&& forall|i: int| 0 <= i < months.len() ==> #[trigger] s.points@[i] == category_point(rows, months, s.category_id, i)
}

proof fn lemma_first_row_of(rows: Seq<CategoryMonthAmount>, months: Seq<String>, c: i64)
    ensures
        first_row_of(rows, months, c) matches Some(f) ==> 0 <= f < rows.len() && rows[f].category_id == c,
    decreases rows.len(),
{
    if rows.len() > 0 {
        lemma_first_row_of(rows.drop_last(), months, c);
    }
}

/// The categories that occur within the months, in order of first occurrence,
/// each with the index of its first row.
fn categories_in_order(rows: &[CategoryMonthAmount], months: &[String]) -> (r: (Vec<i64>, Vec<usize>))
    ensures
        r.0.len() == r.1.len(),
        forall|g: int, h: int| 0 <= g < h < r.0.len() ==> r.0@[g] != r.0@[h],
        forall|g: int| 0 <= g < r.0.len() ==> first_row_of(rows@, months@, #[trigger] r.0@[g]) == Some(r.1@[g] as int),
        forall|c: i64| #[trigger] first_row_of(rows@, months@, c) is Some ==> r.0@.contains(c),
{
    let mut ids: Vec<i64> = Vec::new();
    let mut firsts: Vec<usize> = Vec::new();
    let mut k: usize = 0;
    while k < rows.len()
        invariant
            0 <= k <= rows.len(),
            ids.len() == firsts.len(),
            forall|g: int, h: int| 0 <= g < h < ids.len() ==> ids@[g] != ids@[h],
            forall|g: int| 0 <= g < ids.len() ==> first_row_of(rows@.subrange(0, k as int), months@, #[trigger] ids@[g]) == Some(firsts@[g] as int),
            forall|c: i64| #[trigger] first_row_of(rows@.subrange(0, k as int), months@, c) is Some ==> ids@.contains(c),
        decreases rows.len() - k,
    {
        let ghost prefix = rows@.subrange(0, k as int);
        let ghost next = rows@.subrange(0, k + 1);
        assert(next.drop_last() =~= prefix);
        let row = &rows[k];
        let lands = find_slot(months, row.year_month.as_str()).is_some();
        let mut seen = false;
        let mut g: usize = 0;
        while g < ids.len()
            invariant
                0 <= g <= ids.len(),
                seen <==> exists|q: int| 0 <= q < g && ids@[q] == row.category_id,
            decreases ids.len() - g,
        {
            if ids[g] == row.category_id {
                seen = true;
            }
            g += 1;
        }
        let ghost old_ids = ids@;
        if lands && !seen {
            proof {
                assert(!ids@.contains(row.category_id));
                assert(first_row_of(prefix, months@, row.category_id) is None);
            }
            ids.push(row.category_id);
            firsts.push(k);
        }
        proof {
            assert forall|c: i64| #[trigger] first_row_of(next, months@, c) is Some implies ids@.contains(c) by {
                if first_row_of(prefix, months@, c) is Some {
                    assert(old_ids.contains(c));
                    let q = choose|q: int| 0 <= q < old_ids.len() && old_ids[q] == c;
                    assert(ids@[q] == c);
                } else {
                    assert(c == row.category_id);
                    if seen {
                        let q = choose|q: int| 0 <= q < ids.len() && ids@[q] == row.category_id;
                        assert(ids@[q] == c);
                    } else {
                        assert(ids@[ids.len() - 1] == c);
                    }
                }
            }
        }
        k += 1;
    }
    assert(rows@.subrange(0, rows.len() as int) =~= rows@);
    (ids, firsts)
}

/// Category `c`'s points over the months.
fn category_points(rows: &[CategoryMonthAmount], months: &[String], c: i64) -> (r: Vec<i64>)
    ensures
        r.len() == months.len(),
        forall|i: int| 0 <= i < months.len() ==> #[trigger] r@[i] == category_point(rows@, months@, c, i),
{
    let mut out: Vec<i64> = Vec::new();
    let mut i: usize = 0;
    while i < months.len()
        invariant
            0 <= i <= months.len(),
            out.len() == i,
            forall|k: int| 0 <= k < i ==> #[trigger] out@[k] == 0,
        decreases months.len() - i,
    {
        out.push(0);
        i += 1;
    }
    let mut k: usize = 0;
    while k < rows.len()
        invariant
            0 <= k <= rows.len(),
            out.len() == months.len(),
            forall|j: int| 0 <= j < months.len() ==> #[trigger] out@[j] == category_point(rows@.subrange(0, k as int), months@, c, j),
        decreases rows.len() - k,
    {
        assert(rows@.subrange(0, k + 1).drop_last() =~= rows@.subrange(0, k as int));
        let row = &rows[k];
        if row.category_id == c {
            match find_slot(months, row.year_month.as_str()) {
                Some(slot) => {
                    let updated = sat_add(out[slot], row.amount);
                    out.set(slot, updated);
                },
                None => {},
            }
        }
        k += 1;
    }
    assert(rows@.subrange(0, rows.len() as int) =~= rows@);
    out
}

/// Whether `a` ranks before `b`.
fn ranks_ahead(a: &CategorySeries, b: &CategorySeries) -> (r: bool)
    ensures
        r == ranks_before(*a, *b),
{
    let ta = sum_from(a.points.as_slice(), 0);
    let tb = sum_from(b.points.as_slice(), 0);
    ta > tb || (ta == tb && a.category_id < b.category_id)
}

/// Fold the rows into one series per category, each with a point per month
/// (zero where the category has no row), ordered by period total, largest
/// first, then by category id. Rows of other months are dropped.
pub fn pivot_category_series(rows: &[CategoryMonthAmount], months: &[String]) -> (r: Vec<CategorySeries>)
    ensures
        forall|k: int| 0 <= k < r.len() ==> is_category_series(#[trigger] r@[k], rows@, months@),
        forall|c: i64| #[trigger] first_row_of(rows@, months@, c) is Some ==> exists|k: int| 0 <= k < r.len() && r@[k].category_id == c,
        forall|k: int, l: int| 0 <= k < l < r.len() ==> ranks_before(r@[k], r@[l]),
        forall|k: int, l: int| 0 <= k < l < r.len() ==> r@[k].category_id != r@[l].category_id,
{
    let (ids, firsts) = categories_in_order(rows, months);
    let mut pool: Vec<CategorySeries> = Vec::new();
    let mut g: usize = 0;
    while g < ids.len()
        invariant
            0 <= g <= ids.len(),
            ids.len() == firsts.len(),
            pool.len() == g,
            forall|a: int, b: int| 0 <= a < b < ids.len() ==> ids@[a] != ids@[b],
            forall|a: int| 0 <= a < ids.len() ==> first_row_of(rows@, months@, #[trigger] ids@[a]) == Some(firsts@[a] as int),
            forall|a: int| 0 <= a < g ==> (#[trigger] pool@[a]).category_id == ids@[a],
            forall|a: int| 0 <= a < g ==> is_category_series(#[trigger] pool@[a], rows@, months@),
        decreases ids.len() - g,
    {
        let c = ids[g];
        let f = firsts[g];
        proof {
            lemma_first_row_of(rows@, months@, c);
        }
        let points = category_points(rows, months, c);
        pool.push(CategorySeries {
            category_id: c,
            name: rows[f].name.clone(),
            type_: rows[f].type_.clone(),
            points,
        });
        g += 1;
    }
    let mut out: Vec<CategorySeries> = Vec::new();
    proof {
        assert forall|c: i64| #[trigger] first_row_of(rows@, months@, c) is Some implies exists|p: int| 0 <= p < pool.len() && pool@[p].category_id == c by {
            let q = choose|q: int| 0 <= q < ids.len() && ids@[q] == c;
            assert(pool@[q].category_id == c);
        }
    }
    while pool.len() > 0
        invariant
            forall|k: int| 0 <= k < out.len() ==> is_category_series(#[trigger] out@[k], rows@, months@),
            forall|p: int| 0 <= p < pool.len() ==> is_category_series(#[trigger] pool@[p], rows@, months@),
            forall|k: int, l: int| 0 <= k < l < out.len() ==> out@[k].category_id != out@[l].category_id,
            forall|p: int, q: int| 0 <= p < q < pool.len() ==> pool@[p].category_id != pool@[q].category_id,
            forall|k: int, p: int| 0 <= k < out.len() && 0 <= p < pool.len() ==> out@[k].category_id != pool@[p].category_id,
            forall|c: i64| #[trigger] first_row_of(rows@, months@, c) is Some ==> (exists|k: int| 0 <= k < out.len() && out@[k].category_id == c)
                || (exists|p: int| 0 <= p < pool.len() && pool@[p].category_id == c),
            forall|k: int, l: int| 0 <= k < l < out.len() ==> ranks_before(out@[k], out@[l]),
            forall|k: int, p: int| 0 <= k < out.len() && 0 <= p < pool.len() ==> ranks_before(out@[k], pool@[p]),
        decreases pool.len(),
    {
        let mut best: usize = 0;
        let mut q: usize = 1;
        while q < pool.len()
            invariant
                0 <= best < pool.len(),
                1 <= q <= pool.len(),
                best < q,
                forall|p: int, t: int| 0 <= p < t < pool.len() ==> pool@[p].category_id != pool@[t].category_id,
                forall|p: int| 0 <= p < q && p != best ==> ranks_before(pool@[best as int], #[trigger] pool@[p]),
            decreases pool.len() - q,
        {
            if ranks_ahead(&pool[q], &pool[best]) {
                best = q;
            } else {
                assert(pool@[q as int].category_id != pool@[best as int].category_id);
            }
            q += 1;
        }
        let ghost old_pool = pool@;
        let ghost old_out = out@;
        let chosen = pool.remove(best);
        out.push(chosen);
        proof {
            assert(out@ == old_out.push(old_pool[best as int]));
            assert(pool@ == old_pool.remove(best as int));
            assert forall|p: int| 0 <= p < pool.len() implies #[trigger] pool@[p] == old_pool[if p < best { p } else { p + 1 }] by {}
            assert forall|c: i64| #[trigger] first_row_of(rows@, months@, c) is Some implies (exists|k: int| 0 <= k < out.len() && out@[k].category_id == c)
                || (exists|p: int| 0 <= p < pool.len() && pool@[p].category_id == c) by {
                if exists|k: int| 0 <= k < old_out.len() && old_out[k].category_id == c {
                    let k = choose|k: int| 0 <= k < old_out.len() && old_out[k].category_id == c;
                    assert(out@[k].category_id == c);
                } else {
                    let p = choose|p: int| 0 <= p < old_pool.len() && old_pool[p].category_id == c;
                    if p == best {
                        assert(out@[old_out.len() as int].category_id == c);
                    } else if p < best {
                        assert(pool@[p].category_id == c);
                    } else {
                        assert(pool@[p - 1].category_id == c);
                    }
                }
            }
        }
    }
    out
}

} // verus!
