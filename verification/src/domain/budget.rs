//! Monthly budgets per category: the month a budget covers, the checks a new
//! budget must pass, and how far the month's spending has come.

use vstd::prelude::*;
use crate::domain::arith::{clamp_i64, sat_div, sat_mul, trunc_div};
use crate::domain::calendar::{Date, day_number, days_in_month, lemma_month_length, lemma_order_by_number, valid_ymd};
use crate::domain::year_month::{month_key, parse_year_month_parts, year_month_parse};
use crate::error::{AppError, AppResult, invalid_argument};
use crate::text::{concat, decimal, owned, push_char, push_zero_padded};

verus! {

broadcast use vstd::string::group_string_axioms;

/// The month a budget applies to.
#[derive(Debug, Clone, Copy, PartialEq, Eq)]
pub struct YearMonth {
    pub year: i32,
    pub month: u32,
}

impl YearMonth {
    /// The key `YYYY-MM` (`{:04}-{:02}`).
    pub fn key(self) -> (r: String)
        ensures
            r@ == month_key(self.year as int, self.month as int),
    {
        let mut s = String::new();
        push_zero_padded(&mut s, self.year as i64, 4);
        push_char(&mut s, '-');
        push_zero_padded(&mut s, self.month as i64, 2);
        assert(s@ =~= month_key(self.year as int, self.month as int));
        s
    }
}

/// The first day of a month, the first day of the next, and the days between.
#[derive(Debug, Clone, Copy, PartialEq, Eq)]
pub struct MonthBounds {
    pub starts_on: Date,
    pub next_starts_on: Date,
    pub days_in_month: i64,
}

#[derive(Debug, Clone, Copy, PartialEq, Eq)]
pub struct RawSetBudgetInput<'a> {
    pub category_id: i64,
    pub year_month: &'a str,
    pub amount: i64,
    pub alert_threshold: i64,
}

#[derive(Debug, Clone, Copy, PartialEq, Eq)]
pub struct ValidatedSetBudgetInput {
    pub category_id: i64,
    pub year_month: YearMonth,
    pub amount: i64,
    pub alert_threshold: i64,
}

/// A stored budget row.
#[derive(Debug, Clone, PartialEq, Eq)]
pub struct Budget {
    pub id: i64,
    pub category_id: i64,
    pub period: String,
    pub amount: i64,
    pub starts_on: String,
    pub ends_on: Option<String>,
    pub alert_threshold: i64,
}

/// What the database knows of one category's budget and spending in a month.
#[derive(Debug, Clone, PartialEq, Eq)]
pub struct BudgetStatusInput {
    pub category_id: i64,
    pub category_name: String,
    pub category_color: Option<String>,
    pub category_icon: Option<String>,
    pub budget_id: Option<i64>,
    pub budgeted: i64,
    pub spent: i64,
    pub alert_threshold: i64,
}

impl BudgetStatusInput {
    /// A food-category input with budget id 1 and the usual 80% threshold.
    pub fn minimal(category_id: i64, budgeted: i64, spent: i64) -> (r: Self)
        ensures
            r.category_id == category_id,
            r.category_name@ == "食費"@,
            r.category_color is None,
            r.category_icon is None,
            r.budget_id == Some(1i64),
            r.budgeted == budgeted,
            r.spent == spent,
            r.alert_threshold == 80,
    {
        BudgetStatusInput {
            category_id,
            category_name: owned("食費"),
            category_color: None,
            category_icon: None,
            budget_id: Some(1),
            budgeted,
            spent,
            alert_threshold: 80,
        }
    }
}

/// The progress of one category's budget in a month.
#[derive(Debug, Clone, PartialEq, Eq)]
pub struct BudgetStatus {
    pub category_id: i64,
    pub category_name: String,
    pub category_color: Option<String>,
    pub category_icon: Option<String>,
    pub budget_id: Option<i64>,
    pub budgeted: i64,
    pub spent: i64,
    pub percent: i64,
    pub progress_percent: i64,
    pub days_left: i64,
    pub projected: i64,
    pub alert_threshold: i64,
    pub threshold_reached: bool,
    pub projected_over_budget: bool,
}

/// Parse a `YYYY-MM` key.
pub fn parse_year_month(raw: &str) -> (r: AppResult<YearMonth>)
    ensures
        match year_month_parse(raw@) {
            Ok((y, m)) => r matches Ok(ym) && ym.year == y && ym.month == m,
            Err(msg) => r matches Err(e) && invalid_argument(e, msg),
        },
{
    let (year, month) = parse_year_month_parts(raw)?;
    Ok(YearMonth { year, month })
}

/// The month after `y-m`: the same year's next month, or January of the next year.
pub open spec fn next_month(y: int, m: int) -> (int, int) {
    if m == 12 {
        (y + 1, 1)
    } else {
        (y, m + 1)
    }
}

pub open spec fn quoted_key(prefix: Seq<char>, ym: YearMonth) -> Seq<char> {
    prefix + month_key(ym.year as int, ym.month as int) + seq!['\'']
}

/// The first day of `ym` and of the month after it, and the days in `ym`.
pub fn month_bounds(year_month: YearMonth) -> (r: AppResult<MonthBounds>)
    ensures
        ({
            let y = year_month.year as int;
            let m = year_month.month as int;
            let (ny, nm) = next_month(y, m);
            if !valid_ymd(y, m, 1) {
                r matches Err(e) && invalid_argument(e, quoted_key("invalid year_month '"@, year_month))
            } else if !valid_ymd(ny, nm, 1) {
                r matches Err(e) && invalid_argument(
                    e,
                    quoted_key("invalid next month for '"@, year_month),
                )
            } else {
                r matches Ok(b) && b.starts_on == (Date { year: y as i32, month: m as u32, day: 1 })
                    && b.next_starts_on == (Date { year: ny as i32, month: nm as u32, day: 1 })
                    && b.days_in_month == days_in_month(y, m)
            }
        }),
{
    let starts_on = match Date::from_ymd_opt(year_month.year, year_month.month, 1) {
        Some(d) => d,
        None => {
            let mut s = concat(owned("invalid year_month '"), year_month.key().as_str());
            push_char(&mut s, '\'');
            assert(s@ =~= quoted_key("invalid year_month '"@, year_month));
            return Err(AppError::InvalidArgument(s));
        },
    };
    let (next_year, next_month) = if year_month.month == 12 {
        (year_month.year + 1, 1u32)
    } else {
        (year_month.year, year_month.month + 1)
    };
    let next_starts_on = match Date::from_ymd_opt(next_year, next_month, 1) {
        Some(d) => d,
        None => {
            let mut s = concat(owned("invalid next month for '"), year_month.key().as_str());
            push_char(&mut s, '\'');
            assert(s@ =~= quoted_key("invalid next month for '"@, year_month));
            return Err(AppError::InvalidArgument(s));
        },
    };
    proof {
        lemma_month_length(year_month.year as int, year_month.month as int);
    }
    let days = crate::domain::calendar::chrono_days_between(next_starts_on, starts_on);
    Ok(MonthBounds { starts_on, next_starts_on, days_in_month: days })
}

/// What is wrong with a budget's numbers, checked in this order; `None` when
/// all three are acceptable.
pub open spec fn budget_numbers_problem(category_id: i64, amount: i64, alert_threshold: i64) -> Option<Seq<char>> {
    if category_id <= 0 {
        Some("category_id must be positive, got "@ + decimal(category_id as int))
    } else if amount < 0 {
        Some("amount must be zero or positive, got "@ + decimal(amount as int))
    } else if !(0 <= alert_threshold <= 200) {
        Some("alert_threshold must be 0..=200, got "@ + decimal(alert_threshold as int))
    } else {
        None
    }
}

pub open spec fn budget_number_problem(raw: RawSetBudgetInput) -> Option<Seq<char>> {
    budget_numbers_problem(raw.category_id, raw.amount, raw.alert_threshold)
}

/// What `validate_set_budget_input` reports for these parts; `None` when it accepts them.
pub open spec fn set_budget_problem(category_id: i64, year_month: Seq<char>, amount: i64, alert_threshold: i64) -> Option<Seq<char>> {
    match budget_numbers_problem(category_id, amount, alert_threshold) {
        Some(m) => Some(m),
        None => match year_month_parse(year_month) {
            Err(m) => Some(m),
            Ok(_) => None,
        },
    }
}

/// Check a request to set a category's budget for a month.
pub fn validate_set_budget_input(raw: &RawSetBudgetInput<'_>) -> (r: AppResult<ValidatedSetBudgetInput>)
    ensures
        match budget_number_problem(*raw) {
            Some(msg) => r matches Err(e) && invalid_argument(e, msg),
            None => match year_month_parse(raw.year_month@) {
                Err(msg) => r matches Err(e) && invalid_argument(e, msg),
                Ok((y, m)) => r matches Ok(v) && v.category_id == raw.category_id
                    && v.year_month.year == y && v.year_month.month == m && v.amount == raw.amount
                    && v.alert_threshold == raw.alert_threshold,
            },
        },
{
    if raw.category_id <= 0 {
        return Err(crate::error::invalid_number("category_id must be positive, got ", raw.category_id));
    }
    if raw.amount < 0 {
        return Err(crate::error::invalid_number("amount must be zero or positive, got ", raw.amount));
    }
    if !(0 <= raw.alert_threshold && raw.alert_threshold <= 200) {
        return Err(
            crate::error::invalid_number("alert_threshold must be 0..=200, got ", raw.alert_threshold),
        );
    }
    let year_month = parse_year_month(raw.year_month)?;
    Ok(ValidatedSetBudgetInput {
        category_id: raw.category_id,
        year_month,
        amount: raw.amount,
        alert_threshold: raw.alert_threshold,
    })
}

/// Spending as a percentage of the budget, rounded toward zero; 200 when
/// something was spent against no budget.
pub open spec fn spent_percent(budgeted: int, spent: int) -> int {
    if budgeted > 0 {
        clamp_i64(trunc_div(clamp_i64(spent * 100), budgeted))
    } else if spent > 0 {
        200
    } else {
        0
    }
}

/// `p` clamped to `0..=100`.
pub open spec fn progress_of(p: int) -> int {
    if p < 0 {
        0
    } else if p > 100 {
        100
    } else {
        p
    }
}

/// Where the budget's month lies relative to today's month.
pub open spec fn month_before(y: int, m: int, ty: int, tm: int) -> bool {
    y < ty || (y == ty && m < tm)
}

/// Days left in the month, counting today: none for a past month, all of them
/// for a future month.
pub open spec fn days_left_in(ym: YearMonth, today: Date) -> int {
    let (y, m) = (ym.year as int, ym.month as int);
    if month_before(y, m, today.y(), today.m()) {
        0
    } else if month_before(today.y(), today.m(), y, m) {
        days_in_month(y, m)
    } else {
        1 + days_in_month(y, m) - today.d()
    }
}

/// The month's spending projected at today's pace: what was spent for a past
/// month, nothing for a future one.
pub open spec fn projected_spend(ym: YearMonth, today: Date, spent: int) -> int {
    let (y, m) = (ym.year as int, ym.month as int);
    if month_before(y, m, today.y(), today.m()) {
        spent
    } else if month_before(today.y(), today.m(), y, m) {
        0
    } else {
        let elapsed = if today.d() >= 1 { today.d() } else { 1 };
        clamp_i64(trunc_div(clamp_i64(spent * days_in_month(y, m)), elapsed))
    }
}

/// Where the budget's month lies relative to today is read off the calendar:
/// a month that ended before today has no days left and projects what was
/// spent; a month that starts after today has all its days left and projects
/// nothing; the month holding today has today and the days after it left.
pub proof fn law_month_position_follows_the_calendar(ym: YearMonth, today: Date, spent: int)
    requires
        today.valid(),
        valid_ymd(ym.year as int, ym.month as int, 1),
    ensures
        ({
            let (y, m) = (ym.year as int, ym.month as int);
            let first = day_number(y, m, 1);
            let last = day_number(y, m, days_in_month(y, m));
            &&& last < today.num() ==> days_left_in(ym, today) == 0 && projected_spend(ym, today, spent)
                == spent
            &&& today.num() < first ==> days_left_in(ym, today) == days_in_month(y, m) && projected_spend(
                ym,
                today,
                spent,
            ) == 0
            &&& first <= today.num() <= last ==> days_left_in(ym, today) == last - today.num() + 1
        }),
{
    let (y, m) = (ym.year as int, ym.month as int);
    let d1 = Date { year: ym.year, month: ym.month, day: 1 };
    let dn = Date { year: ym.year, month: ym.month, day: days_in_month(y, m) as u32 };
    lemma_order_by_number(d1, today);
    lemma_order_by_number(dn, today);
    lemma_order_by_number(today, d1);
    lemma_order_by_number(today, dn);
}

/// Evaluate one category's budget for the month `year_month` as of `today`.
pub fn evaluate_status(input: BudgetStatusInput, year_month: YearMonth, today: Date) -> (r: AppResult<BudgetStatus>)
    ensures
        ({
            let y = year_month.year as int;
            let m = year_month.month as int;
            let (ny, nm) = next_month(y, m);
            if !valid_ymd(y, m, 1) {
                r matches Err(e) && invalid_argument(e, quoted_key("invalid year_month '"@, year_month))
            } else if !valid_ymd(ny, nm, 1) {
                r matches Err(e) && invalid_argument(
                    e,
                    quoted_key("invalid next month for '"@, year_month),
                )
            } else {
                r matches Ok(s) && {
                    let percent = spent_percent(input.budgeted as int, input.spent as int);
                    let projected = projected_spend(year_month, today, input.spent as int);
                    &&& s.category_id == input.category_id
                    &&& s.category_name == input.category_name
                    &&& s.category_color == input.category_color
                    &&& s.category_icon == input.category_icon
                    &&& s.budget_id == input.budget_id
                    &&& s.budgeted == input.budgeted
                    &&& s.spent == input.spent
                    &&& s.percent == percent
                    &&& s.progress_percent == progress_of(percent)
                    &&& s.days_left == days_left_in(year_month, today)
                    &&& s.projected == projected
                    &&& s.alert_threshold == input.alert_threshold
                    &&& s.threshold_reached == (input.budgeted > 0 && percent
                        >= input.alert_threshold)
                    &&& s.projected_over_budget == (input.budgeted > 0 && projected
                        > input.budgeted)
                }
            }
        }),
        r matches Ok(s) ==> 0 <= s.progress_percent <= 100,
{
    let bounds = month_bounds(year_month)?;
    let percent: i64 = if input.budgeted > 0 {
        sat_div(sat_mul(input.spent, 100), input.budgeted)
    } else if input.spent > 0 {
        200
    } else {
        0
    };
    let progress_percent: i64 = if percent < 0 {
        0
    } else if percent > 100 {
        100
    } else {
        percent
    };
    let before = year_month.year < today.year || (year_month.year == today.year
        && year_month.month < today.month);
    let after = today.year < year_month.year || (today.year == year_month.year && today.month
        < year_month.month);
    let days_left: i64 = if before {
        0
    } else if after {
        bounds.days_in_month
    } else {
        (bounds.next_starts_on.day as i64) + bounds.days_in_month - (today.day as i64)
    };
    let projected: i64 = if before {
        input.spent
    } else if after {
        0
    } else {
        let elapsed_days: i64 = if (today.day as i64) >= 1 {
            today.day as i64
        } else {
            1
        };
        sat_div(sat_mul(input.spent, bounds.days_in_month), elapsed_days)
    };
    let threshold_reached = input.budgeted > 0 && percent >= input.alert_threshold;
    let projected_over_budget = input.budgeted > 0 && projected > input.budgeted;
    Ok(BudgetStatus {
        category_id: input.category_id,
        category_name: input.category_name,
        category_color: input.category_color,
        category_icon: input.category_icon,
        budget_id: input.budget_id,
        budgeted: input.budgeted,
        spent: input.spent,
        percent,
        progress_percent,
        days_left,
        projected,
        alert_threshold: input.alert_threshold,
        threshold_reached,
        projected_over_budget,
    })
}

/// Where a status goes in a list ranked by percent, highest first: after
/// every status with at least its percent, so that equals keep their order.
pub open spec fn rank_position(ranked: Seq<BudgetStatus>, x: BudgetStatus) -> int
    decreases ranked.len(),
{
    if ranked.len() == 0 {
        0
    } else if ranked.last().percent < x.percent {
        rank_position(ranked.drop_last(), x)
    } else {
        ranked.len() as int
    }
}

/// The statuses ranked by percent, highest first; equal percents keep their order.
pub open spec fn ranked_by_percent(all: Seq<BudgetStatus>) -> Seq<BudgetStatus>
    decreases all.len(),
{
    if all.len() == 0 {
        seq![]
    } else {
        let ranked = ranked_by_percent(all.drop_last());
        ranked.insert(rank_position(ranked, all.last()), all.last())
    }
}

proof fn lemma_rank_position(ranked: Seq<BudgetStatus>, x: BudgetStatus)
    ensures
        0 <= rank_position(ranked, x) <= ranked.len(),
        forall|k: int| rank_position(ranked, x) <= k < ranked.len() ==> #[trigger] ranked[k].percent < x.percent,
        rank_position(ranked, x) > 0 ==> ranked[rank_position(ranked, x) - 1].percent >= x.percent,
    decreases ranked.len(),
{
    if ranked.len() > 0 {
        lemma_rank_position(ranked.drop_last(), x);
        assert forall|k: int| 0 <= k < ranked.len() - 1 implies ranked.drop_last()[k] == ranked[k] by {}
    }
}

pub proof fn lemma_ranked_len(all: Seq<BudgetStatus>)
    ensures
        ranked_by_percent(all).len() == all.len(),
    decreases all.len(),
{
    if all.len() > 0 {
        lemma_ranked_len(all.drop_last());
        lemma_rank_position(ranked_by_percent(all.drop_last()), all.last());
    }
}

/// The `limit` statuses with the highest percent, highest first; statuses
/// with equal percent keep their order.
pub fn select_top_statuses(all: Vec<BudgetStatus>, limit: usize) -> (r: Vec<BudgetStatus>)
    ensures
        r@ == ranked_by_percent(all@).take(if limit < all@.len() { limit as int } else { all@.len() as int }),
{
    let ghost everything = all@;
    let total = all.len();
    let mut rest = all;
    let mut reversed: Vec<BudgetStatus> = Vec::new();
    while rest.len() > 0
        invariant
            reversed@.len() + rest@.len() == everything.len(),
            everything.len() == total,
            forall|k: int| 0 <= k < rest@.len() ==> rest@[k] == everything[k],
            forall|k: int| 0 <= k < reversed@.len() ==> reversed@[k] == everything[everything.len() - 1 - k],
        decreases rest.len(),
    {
        let x = rest.pop().unwrap();
        reversed.push(x);
    }
    let mut ranked: Vec<BudgetStatus> = Vec::new();
    let mut consumed: usize = 0;
    while reversed.len() > 0
        invariant
            consumed + reversed@.len() == everything.len(),
            everything.len() == total,
            forall|k: int| 0 <= k < reversed@.len() ==> reversed@[k] == everything[everything.len() - 1 - k],
            ranked@ == ranked_by_percent(everything.subrange(0, consumed as int)),
        decreases reversed.len(),
    {
        let x = reversed.pop().unwrap();
        let ghost sorted = ranked@;
        let mut pos = ranked.len();
        assert(sorted.subrange(0, pos as int) =~= sorted);
        while pos > 0 && ranked[pos - 1].percent < x.percent
            invariant
                0 <= pos <= ranked.len(),
                ranked@ == sorted,
                rank_position(sorted, x) == rank_position(sorted.subrange(0, pos as int), x),
            decreases pos,
        {
            assert(sorted.subrange(0, pos as int).drop_last() =~= sorted.subrange(0, pos - 1));
            pos -= 1;
        }
        ranked.insert(pos, x);
        proof {
            let pre = everything.subrange(0, consumed + 1);
            assert(pre.drop_last() =~= everything.subrange(0, consumed as int));
        }
        consumed += 1;
    }
    assert(everything.subrange(0, everything.len() as int) =~= everything);
    proof {
        lemma_ranked_len(everything);
    }
    let ghost full = ranked@;
    let keep = if limit < ranked.len() { limit } else { ranked.len() };
    ranked.truncate(keep);
    assert(ranked@ =~= full.take(keep as int));
    ranked
}

/// The top statuses are ranked by percent, highest first.
pub proof fn law_top_statuses_ranked(all: Seq<BudgetStatus>)
    ensures
        forall|k: int, l: int| 0 <= k < l < ranked_by_percent(all).len() ==> (#[trigger] ranked_by_percent(all)[k]).percent
            >= (#[trigger] ranked_by_percent(all)[l]).percent,
    decreases all.len(),
{
    if all.len() > 0 {
        let rest = all.drop_last();
        let x = all.last();
        law_top_statuses_ranked(rest);
        let sorted = ranked_by_percent(rest);
        let p = rank_position(sorted, x);
        lemma_rank_position(sorted, x);
        let out = sorted.insert(p, x);
        assert forall|k: int, l: int| 0 <= k < l < out.len() implies (#[trigger] out[k]).percent >= (#[trigger] out[l]).percent by {
            if l < p {
                assert(out[k] == sorted[k] && out[l] == sorted[l]);
                assert(sorted[k].percent >= sorted[l].percent);
            } else if l == p {
                assert(out[k] == sorted[k]);
                if k < p - 1 {
                    assert(sorted[k].percent >= sorted[p - 1].percent);
                }
            } else if k < p {
                assert(out[k] == sorted[k] && out[l] == sorted[l - 1]);
                assert(sorted[k].percent >= sorted[l - 1].percent);
            } else if k == p {
                assert(out[l] == sorted[l - 1]);
            } else {
                assert(out[k] == sorted[k - 1] && out[l] == sorted[l - 1]);
                assert(sorted[k - 1].percent >= sorted[l - 1].percent);
            }
        }
    }
}

} // verus!
