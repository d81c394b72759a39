//! Recurring rules and the dates they fall on.
//!
//! Only pure functions live here: no clock, no database. How far to generate
//! is passed in by the caller as `through`.
//!
//! The window is open on the left and closed on the right, `(after, through]`,
//! with `after` being `recurring_rules.last_generated_on`. Splitting a window
//! therefore never generates a date twice (see `law_split_window`).

use vstd::prelude::*;
use crate::domain::calendar::{
    Date, MAX_YEAR, MIN_YEAR, chrono_add_days, chrono_pred, chrono_weekday_from_sunday, date_le,
    date_lt, day_number, days_in_month, lemma_month_length, lemma_order_by_number, max_day_number,
    min_day_number, next_month_first_number, valid_ymd,
};
use crate::domain::calendar::{
    days_before_month, days_before_year, days_in_year, iso_text, lemma_days_before_next_year,
    lemma_month_bound, lemma_next_day_number,
};
use crate::domain::date::{iso_date, iso_date_message, parse_iso_date};
use crate::domain::ledger::TxType;
use crate::error::{AppError, AppResult, invalid, invalid_argument, invalid_number};
use crate::text::{concat, decimal, owned, push_char, str_equal, trim_chars, trimmed, string_from_chars};

verus! {

broadcast use vstd::string::group_string_axioms;

#[derive(Debug, Clone, Copy, PartialEq, Eq, Hash)]
pub enum Frequency {
    Monthly,
    Weekly,
    Yearly,
}

impl Frequency {
    pub open spec fn sql(self) -> Seq<char> {
        match self {
            Frequency::Monthly => "monthly"@,
            Frequency::Weekly => "weekly"@,
            Frequency::Yearly => "yearly"@,
        }
    }

    /// The text stored in the `frequency` column.
    pub fn as_sql(self) -> (r: &'static str)
        ensures
            r@ == self.sql(),
    {
        match self {
            Frequency::Monthly => "monthly",
            Frequency::Weekly => "weekly",
            Frequency::Yearly => "yearly",
        }
    }

    pub open spec fn from_sql(raw: Seq<char>) -> Option<Frequency> {
        if raw == "monthly"@ {
            Some(Frequency::Monthly)
        } else if raw == "weekly"@ {
            Some(Frequency::Weekly)
        } else if raw == "yearly"@ {
            Some(Frequency::Yearly)
        } else {
            None
        }
    }

    pub open spec fn parse_message(raw: Seq<char>) -> Seq<char> {
        "frequency must be monthly|weekly|yearly, got '"@ + raw + seq!['\'']
    }

    pub fn parse(raw: &str) -> (r: AppResult<Frequency>)
        ensures
            match Frequency::from_sql(raw@) {
                Some(f) => r == Ok::<Frequency, AppError>(f),
                None => r matches Err(e) && invalid_argument(e, Frequency::parse_message(raw@)),
            },
    {
        if str_equal(raw, "monthly") {
            Ok(Frequency::Monthly)
        } else if str_equal(raw, "weekly") {
            Ok(Frequency::Weekly)
        } else if str_equal(raw, "yearly") {
            Ok(Frequency::Yearly)
        } else {
            let mut s = concat(owned("frequency must be monthly|weekly|yearly, got '"), raw);
            push_char(&mut s, '\'');
            assert(s@ =~= Frequency::parse_message(raw@));
            Err(AppError::InvalidArgument(s))
        }
    }
}

/// What enumerating dates needs of a rule; amounts and accounts are not part of it.
#[derive(Debug, Clone, Copy, PartialEq, Eq)]
pub struct Schedule {
    pub frequency: Frequency,
    pub day_of_month: Option<u32>,
    pub day_of_week: Option<u32>,
    pub starts_on: Date,
    pub ends_on: Option<Date>,
}

impl Schedule {
    /// The dates in the schedule exist.
    pub open spec fn wf(self) -> bool {
        &&& self.starts_on.valid()
        &&& self.ends_on matches Some(e) ==> e.valid()
    }
}

// ---------------------------------------------------------------------------
// Which dates a schedule falls on
// ---------------------------------------------------------------------------

/// Weekday (0 = Sunday) a weekly schedule falls on; without `day_of_week` it
/// is the weekday of `starts_on`.
pub open spec fn target_weekday(s: Schedule) -> int {
    (match s.day_of_week {
        Some(w) => w as int,
        None => s.starts_on.num() % 7,
    }) % 7
}

/// Day of the month a monthly or yearly schedule asks for; without
/// `day_of_month` it is the day of `starts_on`.
pub open spec fn target_day(s: Schedule) -> int {
    match s.day_of_month {
        Some(d) => d as int,
        None => s.starts_on.d(),
    }
}

/// The requested day moved into the month: a day the month lacks becomes its
/// last day (31 falls on February 28/29 and on April 30).
pub open spec fn clamped_day(day: int, y: int, m: int) -> int {
    if day < 1 {
        1
    } else if day > days_in_month(y, m) {
        days_in_month(y, m)
    } else {
        day
    }
}

/// chrono can name the first day of the month after `y-m` (needed to find the
/// month's last day); only December of the last representable year lacks it.
pub open spec fn month_has_end(y: int, m: int) -> bool {
    !(m == 12 && y == MAX_YEAR)
}

/// `d` has the shape the schedule repeats, ignoring `starts_on` and `ends_on`.
pub open spec fn follows_pattern(s: Schedule, d: Date) -> bool {
    match s.frequency {
        Frequency::Weekly => d.num() % 7 == target_weekday(s),
        Frequency::Monthly => month_has_end(d.y(), d.m()) && d.d() == clamped_day(
            target_day(s),
            d.y(),
            d.m(),
        ),
        Frequency::Yearly => d.m() == s.starts_on.m() && month_has_end(d.y(), d.m()) && d.d()
            == clamped_day(target_day(s), d.y(), d.m()),
    }
}

/// `d` is a date the schedule falls on.
pub open spec fn is_occurrence(s: Schedule, d: Date) -> bool {
    &&& d.valid()
    &&& date_le(s.starts_on, d)
    &&& s.ends_on matches Some(e) ==> date_le(d, e)
    &&& follows_pattern(s, d)
}

/// `d` lies in the window `(after, through]`; without `after` the window has no left end.
pub open spec fn in_window(after: Option<Date>, through: Date, d: Date) -> bool {
    &&& after matches Some(a) ==> date_lt(a, d)
    &&& date_le(d, through)
}

pub open spec fn occurs_in(s: Schedule, after: Option<Date>, through: Date, d: Date) -> bool {
    is_occurrence(s, d) && in_window(after, through, d)
}

pub open spec fn strictly_increasing(dates: Seq<Date>) -> bool {
    forall|i: int, j: int| 0 <= i < j < dates.len() ==> date_lt(#[trigger] dates[i], #[trigger] dates[j])
}

/// `out` lists, in increasing order, exactly the dates of the schedule in `(after, through]`.
pub open spec fn lists_occurrences(s: Schedule, after: Option<Date>, through: Date, out: Seq<Date>) -> bool {
    &&& strictly_increasing(out)
    &&& forall|i: int| 0 <= i < out.len() ==> occurs_in(s, after, through, #[trigger] out[i])
    &&& forall|d: Date| #[trigger] occurs_in(s, after, through, d) ==> out.contains(d)
}

// ---------------------------------------------------------------------------
// Internal enumeration between two inclusive bounds
// ---------------------------------------------------------------------------

spec fn in_range(from: Date, last: Date, d: Date) -> bool {
    date_le(from, d) && date_le(d, last)
}

spec fn hit(s: Schedule, from: Date, last: Date, d: Date) -> bool {
    d.valid() && in_range(from, last, d) && follows_pattern(s, d)
}

spec fn lists_in_range(s: Schedule, from: Date, last: Date, out: Seq<Date>) -> bool {
    &&& strictly_increasing(out)
    &&& forall|i: int| 0 <= i < out.len() ==> hit(s, from, last, #[trigger] out[i])
    &&& forall|d: Date| #[trigger] hit(s, from, last, d) ==> out.contains(d)
}

/// Every valid date has a day number inside chrono's range.
pub proof fn lemma_num_bounds(d: Date)
    requires
        d.valid(),
    ensures
        min_day_number() <= d.num() <= max_day_number(),
{
    let lo = Date { year: MIN_YEAR, month: 1, day: 1 };
    let hi = Date { year: MAX_YEAR, month: 12, day: 31 };
    lemma_order_by_number(lo, d);
    lemma_order_by_number(d, hi);
}

/// The last day of `year-month`, when chrono can name the first day of the next month.
fn last_day_of_month(year: i32, month: u32) -> (r: Option<u32>)
    requires
        MIN_YEAR <= year <= MAX_YEAR,
        1 <= month <= 12,
    ensures
        r == (if month_has_end(year as int, month as int) {
            Some(days_in_month(year as int, month as int) as u32)
        } else {
            None::<u32>
        }),
{
    let (next_year, next_month) = if month == 12 {
        (year + 1, 1)
    } else {
        (year, month + 1)
    };
    let first = match Date::from_ymd_opt(next_year, next_month, 1) {
        Some(f) => f,
        None => {
            return None;
        },
    };
    proof {
        lemma_month_length(year as int, month as int);
        assert(first.num() == next_month_first_number(year as int, month as int));
        let this_first = Date { year, month, day: 1 };
        lemma_num_bounds(this_first);
    }
    match chrono_pred(first) {
        Some(prev) => {
            proof {
                let cand = Date {
                    year,
                    month,
                    day: days_in_month(year as int, month as int) as u32,
                };
                assert(cand.num() == prev.num());
                lemma_order_by_number(prev, cand);
            }
            Some(prev.day)
        },
        None => None,
    }
}

/// The day `day` of `year-month`, moved to the month's last day when the month is shorter.
fn clamp_day(year: i32, month: u32, day: u32) -> (r: Option<Date>)
    requires
        MIN_YEAR <= year <= MAX_YEAR,
        1 <= month <= 12,
    ensures
        r == (if month_has_end(year as int, month as int) {
            Some(
                Date {
                    year,
                    month,
                    day: clamped_day(day as int, year as int, month as int) as u32,
                },
            )
        } else {
            None::<Date>
        }),
{
    let last = match last_day_of_month(year, month) {
        Some(l) => l,
        None => {
            return None;
        },
    };
    let d = if day < 1 {
        1
    } else if day > last {
        last
    } else {
        day
    };
    Date::from_ymd_opt(year, month, d)
}

proof fn lemma_mod7_offset(f: int, t: int)
    requires
        0 <= t < 7,
    ensures
        0 <= (t + 7 - f % 7) % 7 < 7,
        (f + (t + 7 - f % 7) % 7) % 7 == t,
        forall|x: int| f <= x < f + (t + 7 - f % 7) % 7 ==> #[trigger] (x % 7) != t,
{
    let q = f / 7;
    let c = f % 7;
    vstd::arithmetic::div_mod::lemma_fundamental_div_mod(f, 7);
    assert(0 <= c < 7);
    let off = (t + 7 - c) % 7;
    if t >= c {
        vstd::arithmetic::div_mod::lemma_fundamental_div_mod_converse(t + 7 - c, 7, 1, t - c);
        assert(off == t - c);
        vstd::arithmetic::div_mod::lemma_fundamental_div_mod_converse(f + off, 7, q, t);
        assert forall|x: int| f <= x < f + off implies #[trigger] (x % 7) != t by {
            vstd::arithmetic::div_mod::lemma_fundamental_div_mod_converse(x, 7, q, c + (x - f));
        }
    } else {
        vstd::arithmetic::div_mod::lemma_fundamental_div_mod_converse(t + 7 - c, 7, 0, t + 7 - c);
        assert(off == t + 7 - c);
        vstd::arithmetic::div_mod::lemma_fundamental_div_mod_converse(f + off, 7, q + 1, t);
        assert forall|x: int| f <= x < f + off implies #[trigger] (x % 7) != t by {
            if c + (x - f) < 7 {
                vstd::arithmetic::div_mod::lemma_fundamental_div_mod_converse(
                    x,
                    7,
                    q,
                    c + (x - f),
                );
            } else {
                vstd::arithmetic::div_mod::lemma_fundamental_div_mod_converse(
                    x,
                    7,
                    q + 1,
                    c + (x - f) - 7,
                );
            }
        }
    }
}

proof fn lemma_mod7_gap(a: int, x: int)
    requires
        a < x < a + 7,
    ensures
        x % 7 != a % 7,
{
    let q = a / 7;
    let c = a % 7;
    vstd::arithmetic::div_mod::lemma_fundamental_div_mod(a, 7);
    if c + (x - a) < 7 {
        vstd::arithmetic::div_mod::lemma_fundamental_div_mod_converse(x, 7, q, c + (x - a));
    } else {
        vstd::arithmetic::div_mod::lemma_fundamental_div_mod_converse(x, 7, q + 1, c + (x - a) - 7);
    }
}

fn weekly_dates(s: &Schedule, from: Date, last: Date) -> (out: Vec<Date>)
    requires
        date_le(from, last),
        s.wf(),
        s.frequency == Frequency::Weekly,
        from.valid(),
        last.valid(),
    ensures
        lists_in_range(*s, from, last, out@),
{
    let target = (match s.day_of_week {
        Some(w) => w,
        None => chrono_weekday_from_sunday(s.starts_on),
    }) % 7;
    let current = chrono_weekday_from_sunday(from);
    let offset = ((target + 7 - current) % 7) as u64;
    let mut out: Vec<Date> = Vec::new();
    proof {
        lemma_mod7_offset(from.num(), target as int);
        assert(target as int == target_weekday(*s));
    }
    let mut date = match chrono_add_days(from, offset) {
        Some(d) => d,
        None => {
            proof {
                assert forall|d: Date| #[trigger] hit(*s, from, last, d) implies out@.contains(
                    d,
                ) by {
                    lemma_order_by_number(from, d);
                    lemma_num_bounds(d);
                    assert(d.num() % 7 == target);
                }
            }
            return out;
        },
    };
    proof {
        lemma_order_by_number(from, date);
    }
    while date.le(&last)
        invariant
            s.wf(),
            s.frequency == Frequency::Weekly,
            from.valid(),
            last.valid(),
            date.valid(),
            target as int == target_weekday(*s),
            date.num() % 7 == target,
            from.num() <= date.num(),
            strictly_increasing(out@),
            forall|i: int|
                0 <= i < out@.len() ==> hit(*s, from, last, #[trigger] out@[i]) && out@[i].num()
                    < date.num(),
            forall|d: Date|
                #[trigger] hit(*s, from, last, d) && d.num() < date.num() ==> out@.contains(d),
        decreases last.num() + 7 - date.num(),
    {
        proof {
            lemma_order_by_number(from, date);
            lemma_order_by_number(date, last);
            assert forall|i: int| 0 <= i < out@.len() implies date_lt(out@[i], date) by {
                lemma_order_by_number(out@[i], date);
            }
        }
        let ghost prev = out@;
        out.push(date);
        proof {
            assert(hit(*s, from, last, date));
            assert(out@[out@.len() - 1] == date);
            assert forall|d: Date|
                #[trigger] hit(*s, from, last, d) && d.num() < date.num() + 1 implies out@.contains(
                d,
            ) by {
                if d.num() < date.num() {
                    assert(prev.contains(d));
                    let k = choose|k: int| 0 <= k < prev.len() && prev[k] == d;
                    assert(out@[k] == d);
                } else {
                    lemma_order_by_number(d, date);
                    assert(out@[out@.len() - 1] == d);
                }
            }
        }
        match chrono_add_days(date, 7) {
            Some(next) => {
                proof {
                    assert forall|d: Date|
                        #[trigger] hit(*s, from, last, d) && d.num() < next.num() implies out@.contains(
                        d,
                    ) by {
                        if d.num() > date.num() {
                            lemma_mod7_gap(date.num(), d.num());
                        }
                    }
                    assert(next.num() % 7 == target) by {
                        vstd::arithmetic::div_mod::lemma_fundamental_div_mod(date.num(), 7);
                        vstd::arithmetic::div_mod::lemma_fundamental_div_mod_converse(
                            next.num(),
                            7,
                            date.num() / 7 + 1,
                            date.num() % 7,
                        );
                    }
                }
                date = next;
            },
            None => {
                proof {
                    assert forall|d: Date| #[trigger] hit(*s, from, last, d) implies out@.contains(
                        d,
                    ) by {
                        lemma_num_bounds(d);
                        if d.num() > date.num() {
                            lemma_mod7_gap(date.num(), d.num());
                        }
                    }
                }
                return out;
            },
        }
    }
    proof {
        assert forall|d: Date| #[trigger] hit(*s, from, last, d) implies out@.contains(d) by {
            lemma_order_by_number(d, last);
            lemma_order_by_number(last, date);
        }
    }
    out
}

spec fn month_index(y: int, m: int) -> int {
    y * 12 + m
}

fn monthly_dates(s: &Schedule, from: Date, last: Date) -> (out: Vec<Date>)
    requires
        date_le(from, last),
        s.wf(),
        s.frequency == Frequency::Monthly,
        from.valid(),
        last.valid(),
    ensures
        lists_in_range(*s, from, last, out@),
{
    let day = match s.day_of_month {
        Some(d) => d,
        None => s.starts_on.day,
    };
    let mut out: Vec<Date> = Vec::new();
    let mut year = from.year;
    let mut month = from.month;
    while year < last.year || (year == last.year && month <= last.month)
        invariant
            s.wf(),
            s.frequency == Frequency::Monthly,
            from.valid(),
            last.valid(),
            day as int == target_day(*s),
            1 <= month <= 12,
            from.year <= year <= MAX_YEAR + 1,
            month_index(from.y(), from.m()) <= month_index(year as int, month as int),
            month_index(year as int, month as int) <= month_index(last.y(), last.m()) + 1,
            strictly_increasing(out@),
            forall|i: int|
                0 <= i < out@.len() ==> hit(*s, from, last, #[trigger] out@[i]) && month_index(
                    out@[i].y(),
                    out@[i].m(),
                ) < month_index(year as int, month as int),
            forall|d: Date|
                #[trigger] hit(*s, from, last, d) && month_index(d.y(), d.m()) < month_index(
                    year as int,
                    month as int,
                ) ==> out@.contains(d),
        decreases month_index(last.y(), last.m()) + 1 - month_index(year as int, month as int),
    {
        let ghost prev = out@;
        match clamp_day(year, month, day) {
            Some(date) => {
                if from.le(&date) && date.le(&last) {
                    out.push(date);
                    proof {
                        assert(hit(*s, from, last, date));
                        assert forall|i: int, j: int|
                            0 <= i < j < out@.len() implies date_lt(out@[i], out@[j]) by {
                            if j == out@.len() - 1 {
                                assert(month_index(out@[i].y(), out@[i].m()) < month_index(
                                    year as int,
                                    month as int,
                                ));
                            } else {
                                assert(out@[i] == prev[i] && out@[j] == prev[j]);
                            }
                        }
                    }
                }
            },
            None => {},
        }
        proof {
            assert forall|d: Date|
                #[trigger] hit(*s, from, last, d) && month_index(d.y(), d.m()) <= month_index(
                    year as int,
                    month as int,
                ) implies out@.contains(d) by {
                if month_index(d.y(), d.m()) < month_index(year as int, month as int) {
                    assert(prev.contains(d));
                    let k = choose|k: int| 0 <= k < prev.len() && prev[k] == d;
                    assert(out@[k] == d);
                } else {
                    assert(d.y() == year as int && d.m() == month as int) by (nonlinear_arith)
                        requires
                            month_index(d.y(), d.m()) == month_index(year as int, month as int),
                            1 <= d.m() <= 12,
                            1 <= month <= 12,
                    ;
                    assert(out@.last() == d);
                }
            }
        }
        if month == 12 {
            year = year + 1;
            month = 1;
        } else {
            month = month + 1;
        }
    }
    proof {
        assert forall|d: Date| #[trigger] hit(*s, from, last, d) implies out@.contains(d) by {
            assert(month_index(d.y(), d.m()) <= month_index(last.y(), last.m()));
        }
    }
    out
}

fn yearly_dates(s: &Schedule, from: Date, last: Date) -> (out: Vec<Date>)
    requires
        date_le(from, last),
        s.wf(),
        s.frequency == Frequency::Yearly,
        from.valid(),
        last.valid(),
    ensures
        lists_in_range(*s, from, last, out@),
{
    let day = match s.day_of_month {
        Some(d) => d,
        None => s.starts_on.day,
    };
    let month = s.starts_on.month;
    let mut out: Vec<Date> = Vec::new();
    let mut year = from.year;
    while year <= last.year
        invariant
            s.wf(),
            s.frequency == Frequency::Yearly,
            from.valid(),
            last.valid(),
            day as int == target_day(*s),
            month == s.starts_on.month,
            from.year <= year <= last.year + 1,
            strictly_increasing(out@),
            forall|i: int|
                0 <= i < out@.len() ==> hit(*s, from, last, #[trigger] out@[i]) && out@[i].year
                    < year,
            forall|d: Date| #[trigger] hit(*s, from, last, d) && d.year < year ==> out@.contains(d),
        decreases last.year - year + 1,
    {
        let ghost prev = out@;
        match clamp_day(year, month, day) {
            Some(date) => {
                if from.le(&date) && date.le(&last) {
                    out.push(date);
                    proof {
                        assert(hit(*s, from, last, date));
                        assert forall|i: int, j: int|
                            0 <= i < j < out@.len() implies date_lt(out@[i], out@[j]) by {
                            if j < out@.len() - 1 {
                                assert(out@[i] == prev[i] && out@[j] == prev[j]);
                            }
                        }
                    }
                }
            },
            None => {},
        }
        proof {
            assert forall|d: Date|
                #[trigger] hit(*s, from, last, d) && d.year <= year implies out@.contains(d) by {
                if d.year < year {
                    assert(prev.contains(d));
                    let k = choose|k: int| 0 <= k < prev.len() && prev[k] == d;
                    assert(out@[k] == d);
                } else {
                    assert(out@.last() == d);
                }
            }
        }
        year = year + 1;
    }
    out
}

/// The first date of the window `(after, ..]` that the schedule may fall on:
/// the later of `starts_on` and the day after `after`. `None` when there is no
/// day after `after`.
fn window_start(schedule: &Schedule, after: Option<Date>) -> (r: Option<Date>)
    requires
        schedule.wf(),
        after matches Some(a) ==> a.valid(),
    ensures
        after is None ==> r == Some(schedule.starts_on),
        after matches Some(a) ==> (r is Some <==> a.num() + 1 <= max_day_number()),
        after matches Some(a) ==> (r matches Some(f) ==> f.valid() && (f.num() == if a.num()
            + 1 <= schedule.starts_on.num() {
            schedule.starts_on.num()
        } else {
            a.num() + 1
        })),
{
    match after {
        Some(a) => {
            match chrono_add_days(a, 1) {
                Some(next) => {
                    proof {
                        lemma_order_by_number(schedule.starts_on, next);
                    }
                    Some(schedule.starts_on.later_of(next))
                },
                None => None,
            }
        },
        None => Some(schedule.starts_on),
    }
}

/// The dates of `schedule` in the window `(after, through]`, in increasing
/// order. Without `after` the series is listed from `starts_on`.
pub fn occurrences_between(schedule: &Schedule, after: Option<Date>, through: Date) -> (out: Vec<Date>)
    requires
        schedule.wf(),
        after matches Some(a) ==> a.valid(),
        through.valid(),
    ensures
        lists_occurrences(*schedule, after, through, out@),
{
    let out: Vec<Date> = Vec::new();
    let from = match window_start(schedule, after) {
        Some(f) => f,
        None => {
            proof {
                assert forall|d: Date| #[trigger] occurs_in(*schedule, after, through, d) implies out@.contains(
                    d,
                ) by {
                    let a = after->0;
                    lemma_num_bounds(d);
                    lemma_order_by_number(a, d);
                }
            }
            return out;
        },
    };
    let last = match schedule.ends_on {
        Some(end) => through.earlier_of(end),
        None => through,
    };
    proof {
        // A date of the window is exactly a date between `from` and `last` that follows the pattern.
        assert forall|d: Date| d.valid() implies (#[trigger] occurs_in(*schedule, after, through, d)
            <==> hit(*schedule, from, last, d)) by {
            lemma_order_by_number(from, d);
            lemma_order_by_number(schedule.starts_on, d);
            if let Some(a) = after {
                lemma_order_by_number(a, d);
            }
        }
    }
    if last.lt(&from) {
        proof {
            assert forall|d: Date| #[trigger] occurs_in(*schedule, after, through, d) implies out@.contains(
                d,
            ) by {
                assert(hit(*schedule, from, last, d));
            }
        }
        return out;
    }
    let listed = match schedule.frequency {
        Frequency::Weekly => weekly_dates(schedule, from, last),
        Frequency::Monthly => monthly_dates(schedule, from, last),
        Frequency::Yearly => yearly_dates(schedule, from, last),
    };
    proof {
        assert forall|i: int| 0 <= i < listed@.len() implies occurs_in(
            *schedule,
            after,
            through,
            #[trigger] listed@[i],
        ) by {
            assert(hit(*schedule, from, last, listed@[i]));
        }
        assert forall|d: Date| #[trigger] occurs_in(*schedule, after, through, d) implies listed@.contains(
            d,
        ) by {
            assert(hit(*schedule, from, last, d));
        }
    }
    listed
}


/// How far ahead `next_occurrence` looks, in days, so that one step of the
/// schedule always fits.
pub open spec fn horizon_days(f: Frequency) -> int {
    match f {
        Frequency::Weekly => 14,
        Frequency::Monthly => 70,
        Frequency::Yearly => 800,
    }
}

/// The later of `starts_on` and `after`.
pub open spec fn lookahead_base(s: Schedule, after: Date) -> Date {
    if date_lt(s.starts_on, after) { after } else { s.starts_on }
}

/// Day number of the last day `next_occurrence` looks at.
pub open spec fn lookahead_end(s: Schedule, after: Date) -> int {
    lookahead_base(s, after).num() + horizon_days(s.frequency)
}

/// `d` is a date of the schedule after `after`, no later than day number `end`.
pub open spec fn upcoming(s: Schedule, after: Date, end: int, d: Date) -> bool {
    is_occurrence(s, d) && date_lt(after, d) && d.num() <= end
}

/// The first date of the schedule after `after`, for the "next" column of the
/// rule list; nothing is generated. `None` once `ends_on` has passed.
pub fn next_occurrence(schedule: &Schedule, after: Date) -> (r: Option<Date>)
    requires
        schedule.wf(),
        after.valid(),
    ensures
        lookahead_end(*schedule, after) > max_day_number() ==> r is None,
        lookahead_end(*schedule, after) <= max_day_number() ==> match r {
            Some(d) => upcoming(*schedule, after, lookahead_end(*schedule, after), d) && forall|
                d2: Date,
            |
                #[trigger] upcoming(*schedule, after, lookahead_end(*schedule, after), d2)
                    ==> date_le(d, d2),
            None => forall|d2: Date|
                !#[trigger] upcoming(*schedule, after, lookahead_end(*schedule, after), d2),
        },
{
    let horizon: u64 = match schedule.frequency {
        Frequency::Weekly => 14,
        Frequency::Monthly => 70,
        Frequency::Yearly => 800,
    };
    let base = schedule.starts_on.later_of(after);
    let through = match chrono_add_days(base, horizon) {
        Some(t) => t,
        None => {
            return None;
        },
    };
    let dates = occurrences_between(schedule, Some(after), through);
    proof {
        let end = lookahead_end(*schedule, after);
        assert forall|d: Date| d.valid() implies (#[trigger] upcoming(*schedule, after, end, d)
            <==> occurs_in(*schedule, Some(after), through, d)) by {
            lemma_order_by_number(d, through);
        }
    }
    if dates.len() > 0 {
        proof {
            let end = lookahead_end(*schedule, after);
            assert(occurs_in(*schedule, Some(after), through, dates@[0]));
            assert forall|d2: Date| #[trigger] upcoming(*schedule, after, end, d2) implies date_le(
                dates@[0],
                d2,
            ) by {
                assert(dates@.contains(d2));
                let k = choose|k: int| 0 <= k < dates@.len() && dates@[k] == d2;
                if k > 0 {
                    assert(date_lt(dates@[0], dates@[k]));
                }
            }
        }
        Some(dates[0])
    } else {
        proof {
            let end = lookahead_end(*schedule, after);
            assert forall|d2: Date| !#[trigger] upcoming(*schedule, after, end, d2) by {
                if upcoming(*schedule, after, end, d2) {
                    assert(dates@.contains(d2));
                }
            }
        }
        None
    }
}

// ---------------------------------------------------------------------------
// Every look-ahead window holds a full step of the schedule
// ---------------------------------------------------------------------------

/// The calendar day after `e`.
spec fn next_day(e: Date) -> Date {
    if e.d() < days_in_month(e.y(), e.m()) {
        Date { year: e.year, month: e.month, day: (e.d() + 1) as u32 }
    } else if e.m() < 12 {
        Date { year: e.year, month: (e.m() + 1) as u32, day: 1 }
    } else {
        Date { year: (e.y() + 1) as i32, month: 1, day: 1 }
    }
}

proof fn lemma_next_day(e: Date)
    requires
        e.valid(),
        e.num() < max_day_number(),
    ensures
        next_day(e).valid(),
        next_day(e).num() == e.num() + 1,
{
    lemma_next_day_number(e.y(), e.m(), e.d());
}

/// The date `k` days after `b`.
spec fn day_after(b: Date, k: nat) -> Date
    decreases k,
{
    if k == 0 {
        b
    } else {
        next_day(day_after(b, (k - 1) as nat))
    }
}

proof fn lemma_day_after(b: Date, k: nat)
    requires
        b.valid(),
        b.num() + k <= max_day_number(),
    ensures
        day_after(b, k).valid(),
        day_after(b, k).num() == b.num() + k,
    decreases k,
{
    if k > 0 {
        lemma_day_after(b, (k - 1) as nat);
        lemma_next_day(day_after(b, (k - 1) as nat));
    }
}

/// A date of the schedule's pattern falls within `horizon_days` after `b`.
proof fn lemma_pattern_within_horizon(s: Schedule, b: Date) -> (p: Date)
    requires
        s.wf(),
        b.valid(),
        b.num() + horizon_days(s.frequency) <= max_day_number(),
    ensures
        p.valid(),
        follows_pattern(s, p),
        b.num() < p.num() <= b.num() + horizon_days(s.frequency),
{
    let last_dec = day_number(MAX_YEAR as int, 12, 1);
    let last_nov = day_number(MAX_YEAR as int, 11, 1);
    let last_jan = day_number(MAX_YEAR as int, 1, 1);
    assert(max_day_number() == last_dec + 30);
    assert(max_day_number() == last_nov + 60);
    assert(max_day_number() == last_jan + 364);
    assert(b.num() >= day_number(b.y(), b.m(), 1));
    match s.frequency {
        Frequency::Weekly => {
            let t = target_weekday(s);
            let k = (t - b.num() - 1) % 7 + 1;
            assert(1 <= k <= 7);
            assert((b.num() + k) % 7 == t) by {
                let q = (t - b.num() - 1) / 7;
                assert(t - b.num() - 1 == 7 * q + (t - b.num() - 1) % 7);
                assert(b.num() + k == 7 * (-q) + t);
                vstd::arithmetic::div_mod::lemma_mod_multiples_vanish(-q, t, 7);
                vstd::arithmetic::div_mod::lemma_small_mod(t as nat, 7);
            }
            lemma_day_after(b, k as nat);
            day_after(b, k as nat)
        },
        Frequency::Monthly => {
            let y2 = if b.m() == 12 { b.y() + 1 } else { b.y() };
            let m2 = if b.m() == 12 { 1 } else { b.m() + 1 };
            let c = clamped_day(target_day(s), y2, m2);
            let p = Date { year: y2 as i32, month: m2 as u32, day: c as u32 };
            if b.y() == MAX_YEAR && b.m() >= 11 {
                assert(b.num() >= last_nov);
            }
            lemma_month_length(b.y(), b.m());
            assert(day_number(y2, m2, 1) == next_month_first_number(b.y(), b.m()));
            assert(p.num() == day_number(y2, m2, 1) + c - 1);
            p
        },
        Frequency::Yearly => {
            let mo = s.starts_on.m();
            if b.y() == MAX_YEAR {
                assert(b.num() >= last_jan);
            }
            let c1 = clamped_day(target_day(s), b.y(), mo);
            let p1 = Date { year: b.year, month: mo as u32, day: c1 as u32 };
            lemma_days_before_next_year(b.y());
            if date_lt(b, p1) {
                lemma_order_by_number(b, p1);
                lemma_month_bound(b.y(), mo, c1);
                p1
            } else {
                let c2 = clamped_day(target_day(s), b.y() + 1, mo);
                let p2 = Date { year: (b.y() + 1) as i32, month: mo as u32, day: c2 as u32 };
                if mo == 12 && b.y() + 1 == MAX_YEAR {
                    lemma_days_before_next_year(b.y());
                    assert(b.num() >= day_number(b.y(), 12, 1));
                    assert(max_day_number() == day_number(b.y(), 12, 1) + 395);
                }
                lemma_order_by_number(b, p2);
                lemma_month_bound(b.y() + 1, mo, c2);
                lemma_days_before_next_year(b.y() + 1);
                p2
            }
        },
    }
}

/// When the look-ahead window holds no date of the schedule, the schedule has
/// no date after `after` at all: `next_occurrence` answers `None` only once
/// the rule has run out.
pub proof fn law_empty_lookahead_means_no_later_date(s: Schedule, after: Date, x: Date)
    requires
        s.wf(),
        after.valid(),
        lookahead_end(s, after) <= max_day_number(),
        forall|d2: Date| !#[trigger] upcoming(s, after, lookahead_end(s, after), d2),
    ensures
        !(is_occurrence(s, x) && date_lt(after, x)),
{
    if is_occurrence(s, x) && date_lt(after, x) {
        let end = lookahead_end(s, after);
        let b = lookahead_base(s, after);
        if x.num() <= end {
            assert(upcoming(s, after, end, x));
        } else {
            let p = lemma_pattern_within_horizon(s, b);
            lemma_order_by_number(b, p);
            lemma_order_by_number(p, x);
            lemma_order_by_number(after, b);
            lemma_order_by_number(s.starts_on, b);
            if let Some(e) = s.ends_on {
                lemma_order_by_number(p, e);
                lemma_order_by_number(x, e);
            }
            assert(upcoming(s, after, end, p));
        }
    }
}

// ---------------------------------------------------------------------------
// Laws
// ---------------------------------------------------------------------------

/// The day of the month a monthly or yearly schedule asks for: its
/// `day_of_month` when given, else the day of `starts_on`.
pub open spec fn requested_day(s: Schedule) -> int {
    match s.day_of_month {
        Some(k) => k as int,
        None => s.starts_on.d(),
    }
}

/// The date a listing holds in month `y-m` of a monthly or yearly schedule:
/// the requested day, raised to the 1st when below it and lowered to the
/// month's last day past it.
pub open spec fn day_in_month(s: Schedule, y: int, m: int) -> int {
    let k = requested_day(s);
    let last = days_in_month(y, m);
    if k < 1 {
        1
    } else if k > last {
        last
    } else {
        k
    }
}

/// What the listing of a schedule holds, read off the schedule's fields: a
/// weekly schedule falls on its `day_of_week` (else the weekday of
/// `starts_on`), a monthly one on its day in every month, a yearly one on its
/// day in the month of `starts_on` only. Every listed date is of that shape,
/// and every date of that shape inside the window and the schedule's span is
/// listed (chrono names no last day for December of its last year, so
/// nothing falls in that month).
pub proof fn law_listing_follows_the_schedule(s: Schedule, after: Option<Date>, through: Date, out: Seq<Date>, d: Date)
    requires
        lists_occurrences(s, after, through, out),
    ensures
        out.contains(d) <==> {
            &&& d.valid()
            &&& after matches Some(a) ==> date_lt(a, d)
            &&& date_le(d, through)
            &&& date_le(s.starts_on, d)
            &&& s.ends_on matches Some(e) ==> date_le(d, e)
            &&& match s.frequency {
                Frequency::Weekly => d.num() % 7 == (match s.day_of_week {
                    Some(w) => w as int,
                    None => s.starts_on.num() % 7,
                }) % 7,
                Frequency::Monthly => !(d.m() == 12 && d.y() == MAX_YEAR) && d.d() == day_in_month(
                    s,
                    d.y(),
                    d.m(),
                ),
                Frequency::Yearly => d.m() == s.starts_on.m() && !(d.m() == 12 && d.y() == MAX_YEAR)
                    && d.d() == day_in_month(s, d.y(), s.starts_on.m()),
            }
        },
{
    assert(follows_pattern(s, d) <==> match s.frequency {
        Frequency::Weekly => d.num() % 7 == (match s.day_of_week {
            Some(w) => w as int,
            None => s.starts_on.num() % 7,
        }) % 7,
        Frequency::Monthly => !(d.m() == 12 && d.y() == MAX_YEAR) && d.d() == day_in_month(s, d.y(), d.m()),
        Frequency::Yearly => d.m() == s.starts_on.m() && !(d.m() == 12 && d.y() == MAX_YEAR) && d.d()
            == day_in_month(s, d.y(), s.starts_on.m()),
    });
    if out.contains(d) {
        let k = choose|k: int| 0 <= k < out.len() && out[k] == d;
        assert(occurs_in(s, after, through, out[k]));
    }
    if occurs_in(s, after, through, d) {
        assert(out.contains(d));
    }
}

/// Two increasing date lists with the same members are the same list.
pub proof fn lemma_increasing_lists_equal(x: Seq<Date>, y: Seq<Date>)
    requires
        strictly_increasing(x),
        strictly_increasing(y),
        forall|d: Date| x.contains(d) <==> y.contains(d),
    ensures
        x == y,
    decreases x.len(),
{
    if x.len() == 0 {
        if y.len() > 0 {
            assert(y.contains(y[0]));
        }
        assert(x =~= y);
    } else {
        assert(x.contains(x[0]));
        assert(y.contains(x[0]));
        assert(y.len() > 0);
        assert(y.contains(y[0]));
        assert(x.contains(y[0]));
        let j = choose|j: int| 0 <= j < y.len() && y[j] == x[0];
        let k = choose|k: int| 0 <= k < x.len() && x[k] == y[0];
        if j > 0 && k > 0 {
            assert(date_lt(y[0], y[j]));
            assert(date_lt(x[0], x[k]));
        }
        assert(x[0] == y[0]);
        let xs = x.drop_first();
        let ys = y.drop_first();
        assert forall|d: Date| xs.contains(d) <==> ys.contains(d) by {
            if xs.contains(d) {
                let i = choose|i: int| 0 <= i < xs.len() && xs[i] == d;
                assert(x[i + 1] == d);
                assert(date_lt(x[0], x[i + 1]));
                assert(y.contains(d));
                let i2 = choose|i2: int| 0 <= i2 < y.len() && y[i2] == d;
                assert(i2 != 0);
                assert(ys[i2 - 1] == d);
            }
            if ys.contains(d) {
                let i = choose|i: int| 0 <= i < ys.len() && ys[i] == d;
                assert(y[i + 1] == d);
                assert(date_lt(y[0], y[i + 1]));
                assert(x.contains(d));
                let i2 = choose|i2: int| 0 <= i2 < x.len() && x[i2] == d;
                assert(i2 != 0);
                assert(xs[i2 - 1] == d);
            }
        }
        lemma_increasing_lists_equal(xs, ys);
        assert(x =~= seq![x[0]] + xs);
        assert(y =~= seq![y[0]] + ys);
    }
}

/// For one window there is only one list of its dates: enumeration is deterministic.
pub proof fn law_listing_is_unique(
    s: Schedule,
    after: Option<Date>,
    through: Date,
    x: Seq<Date>,
    y: Seq<Date>,
)
    requires
        lists_occurrences(s, after, through, x),
        lists_occurrences(s, after, through, y),
    ensures
        x == y,
{
    assert forall|d: Date| x.contains(d) <==> y.contains(d) by {
        if x.contains(d) {
            let i = choose|i: int| 0 <= i < x.len() && x[i] == d;
            assert(occurs_in(s, after, through, x[i]));
        }
        if y.contains(d) {
            let i = choose|i: int| 0 <= i < y.len() && y[i] == d;
            assert(occurs_in(s, after, through, y[i]));
        }
    }
    lemma_increasing_lists_equal(x, y);
}

/// Splitting a window yields the same dates as taking it whole: the dates of
/// `(a, c]` are the dates of `(a, b]` followed by those of `(b, c]`. This is why
/// launching the app repeatedly never generates a transaction twice.
pub proof fn law_split_window(
    s: Schedule,
    a: Date,
    b: Date,
    c: Date,
    first: Seq<Date>,
    second: Seq<Date>,
    whole: Seq<Date>,
)
    requires
        date_le(a, b),
        date_le(b, c),
        lists_occurrences(s, Some(a), b, first),
        lists_occurrences(s, Some(b), c, second),
        lists_occurrences(s, Some(a), c, whole),
    ensures
        whole == first + second,
{
    let joined = first + second;
    assert forall|i: int, j: int| 0 <= i < j < joined.len() implies date_lt(
        #[trigger] joined[i],
        #[trigger] joined[j],
    ) by {
        if j < first.len() {
            assert(joined[i] == first[i] && joined[j] == first[j]);
        } else if i >= first.len() {
            assert(joined[i] == second[i - first.len()] && joined[j] == second[j - first.len()]);
        } else {
            assert(joined[i] == first[i]);
            assert(joined[j] == second[j - first.len()]);
            assert(occurs_in(s, Some(a), b, first[i]));
            assert(occurs_in(s, Some(b), c, second[j - first.len()]));
        }
    }
    assert forall|d: Date| whole.contains(d) <==> joined.contains(d) by {
        if whole.contains(d) {
            let i = choose|i: int| 0 <= i < whole.len() && whole[i] == d;
            assert(occurs_in(s, Some(a), c, whole[i]));
            if date_le(d, b) {
                assert(occurs_in(s, Some(a), b, d));
                assert(first.contains(d));
                let k = choose|k: int| 0 <= k < first.len() && first[k] == d;
                assert(joined[k] == d);
            } else {
                assert(occurs_in(s, Some(b), c, d));
                assert(second.contains(d));
                let k = choose|k: int| 0 <= k < second.len() && second[k] == d;
                assert(joined[first.len() + k] == d);
            }
        }
        if joined.contains(d) {
            let i = choose|i: int| 0 <= i < joined.len() && joined[i] == d;
            if i < first.len() {
                assert(first[i] == d);
                assert(occurs_in(s, Some(a), b, first[i]));
            } else {
                assert(second[i - first.len()] == d);
                assert(occurs_in(s, Some(b), c, second[i - first.len()]));
            }
            assert(occurs_in(s, Some(a), c, d));
        }
    }
    lemma_increasing_lists_equal(whole, joined);
}

/// Expanding the same day twice produces nothing the second time: the
/// window `(d, d]` is empty.
pub proof fn law_empty_window(s: Schedule, d: Date, out: Seq<Date>)
    requires
        lists_occurrences(s, Some(d), d, out),
    ensures
        out.len() == 0,
{
    if out.len() > 0 {
        assert(occurs_in(s, Some(d), d, out[0]));
    }
}

/// Every listed date lies in the window, on or after `starts_on`, on or before
/// `ends_on`, and the list strictly increases.
pub proof fn law_dates_inside_window(s: Schedule, after: Date, through: Date, out: Seq<Date>)
    requires
        lists_occurrences(s, Some(after), through, out),
    ensures
        forall|i: int, j: int| 0 <= i < j < out.len() ==> date_lt(#[trigger] out[i], #[trigger] out[j]),
        forall|i: int|
            0 <= i < out.len() ==> {
                &&& date_lt(after, #[trigger] out[i])
                &&& date_le(out[i], through)
                &&& date_le(s.starts_on, out[i])
                &&& s.ends_on matches Some(e) ==> date_le(out[i], e)
            },
{
    assert forall|i: int| 0 <= i < out.len() implies {
        &&& date_lt(after, #[trigger] out[i])
        &&& date_le(out[i], through)
        &&& date_le(s.starts_on, out[i])
        &&& s.ends_on matches Some(e) ==> date_le(out[i], e)
    } by {
        assert(occurs_in(s, Some(after), through, out[i]));
    }
}


// ---------------------------------------------------------------------------
// Rules
// ---------------------------------------------------------------------------

/// One row of `recurring_rules`, as returned to the frontend.
#[derive(Debug, Clone)]
pub struct RecurringRule {
    pub id: i64,
    pub name: String,
    pub type_: TxType,
    pub amount: i64,
    pub account_id: i64,
    pub counter_account_id: Option<i64>,
    pub category_id: Option<i64>,
    pub description: String,
    pub frequency: Frequency,
    pub day_of_month: Option<u32>,
    pub day_of_week: Option<u32>,
    pub starts_on: String,
    pub ends_on: Option<String>,
    pub last_generated_on: Option<String>,
    pub active: bool,
}

impl RecurringRule {
    /// The schedule of the stored rule, its ISO dates parsed.
    pub fn schedule(&self) -> (r: AppResult<Schedule>)
        ensures
            match iso_date(self.starts_on@) {
                None => r matches Err(e) && invalid_argument(
                    e,
                    iso_date_message("starts_on"@, self.starts_on@),
                ),
                Some(start) => match self.ends_on {
                    Some(raw) => match iso_date(raw@) {
                        None => r matches Err(e) && invalid_argument(
                            e,
                            iso_date_message("ends_on"@, raw@),
                        ),
                        Some(end) => r == Ok::<Schedule, AppError>(
                            Schedule {
                                frequency: self.frequency,
                                day_of_month: self.day_of_month,
                                day_of_week: self.day_of_week,
                                starts_on: start,
                                ends_on: Some(end),
                            },
                        ),
                    },
                    None => r == Ok::<Schedule, AppError>(
                        Schedule {
                            frequency: self.frequency,
                            day_of_month: self.day_of_month,
                            day_of_week: self.day_of_week,
                            starts_on: start,
                            ends_on: None,
                        },
                    ),
                },
            },
            r matches Ok(sch) ==> sch.wf(),
    {
        let starts_on = parse_iso_date("starts_on", self.starts_on.as_str())?;
        let ends_on = match &self.ends_on {
            Some(raw) => Some(parse_iso_date("ends_on", raw.as_str())?),
            None => None,
        };
        Ok(
            Schedule {
                frequency: self.frequency,
                day_of_month: self.day_of_month,
                day_of_week: self.day_of_week,
                starts_on,
                ends_on,
            },
        )
    }

    /// `last_generated_on` read as the (exclusive) left end of the next window;
    /// `None` when the rule has never generated anything.
    pub fn generated_through(&self) -> (r: AppResult<Option<Date>>)
        ensures
            match self.last_generated_on {
                None => r == Ok::<Option<Date>, AppError>(None),
                Some(raw) => match iso_date(raw@) {
                    Some(d) => r == Ok::<Option<Date>, AppError>(Some(d)),
                    None => r matches Err(e) && invalid_argument(
                        e,
                        iso_date_message("last_generated_on"@, raw@),
                    ),
                },
            },
    {
        match &self.last_generated_on {
            Some(raw) => Ok(Some(parse_iso_date("last_generated_on", raw.as_str())?)),
            None => Ok(None),
        }
    }
}

pub const MAX_NAME_LEN: usize = 100;

pub const MAX_DESCRIPTION_LEN: usize = 200;

/// A rule as the frontend sends it, before any check.
#[derive(Debug, Clone, Copy)]
pub struct RawRuleInput<'a> {
    pub name: &'a str,
    pub type_: &'a str,
    pub amount: i64,
    pub account_id: i64,
    pub counter_account_id: Option<i64>,
    pub category_id: Option<i64>,
    pub description: &'a str,
    pub frequency: &'a str,
    pub day_of_month: Option<u32>,
    pub day_of_week: Option<u32>,
    pub starts_on: &'a str,
    pub ends_on: Option<&'a str>,
}

/// A rule whose shape has been checked.
#[derive(Debug, Clone)]
pub struct ValidatedRule {
    pub name: String,
    pub type_: TxType,
    pub amount: i64,
    pub account_id: i64,
    pub counter_account_id: Option<i64>,
    pub category_id: Option<i64>,
    pub description: String,
    pub frequency: Frequency,
    pub day_of_month: Option<u32>,
    pub day_of_week: Option<u32>,
    pub starts_on: Date,
    pub ends_on: Option<Date>,
}

impl ValidatedRule {
    pub open spec fn schedule_of(self) -> Schedule {
        Schedule {
            frequency: self.frequency,
            day_of_month: self.day_of_month,
            day_of_week: self.day_of_week,
            starts_on: self.starts_on,
            ends_on: self.ends_on,
        }
    }

    pub fn schedule(&self) -> (r: Schedule)
        ensures
            r == self.schedule_of(),
    {
        Schedule {
            frequency: self.frequency,
            day_of_month: self.day_of_month,
            day_of_week: self.day_of_week,
            starts_on: self.starts_on,
            ends_on: self.ends_on,
        }
    }

    /// `starts_on` as stored: `YYYY-MM-DD`.
    pub fn starts_on_key(&self) -> (r: String)
        ensures
            r@ == iso_text(self.starts_on),
    {
        self.starts_on.iso_string()
    }

    /// `ends_on` as stored, when the rule has one.
    pub fn ends_on_key(&self) -> (r: Option<String>)
        ensures
            match self.ends_on {
                Some(e) => r matches Some(t) && t@ == iso_text(e),
                None => r is None,
            },
    {
        match self.ends_on {
            Some(e) => Some(e.iso_string()),
            None => None,
        }
    }
}

/// The first problem `validate_rule_input` finds with the start and end dates.
pub open spec fn rule_dates_problem(raw: RawRuleInput) -> Option<Seq<char>> {
    match iso_date(raw.starts_on@) {
        None => Some(iso_date_message("starts_on"@, raw.starts_on@)),
        Some(start) => match raw.ends_on {
            None => None,
            Some(e) => match iso_date(e@) {
                None => Some(iso_date_message("ends_on"@, e@)),
                Some(end) => if date_lt(end, start) {
                    Some("ends_on must not precede starts_on"@)
                } else {
                    None
                },
            },
        },
    }
}

/// The first problem with the frequency and its day fields, or with the dates.
pub open spec fn rule_schedule_problem(raw: RawRuleInput) -> Option<Seq<char>> {
    match Frequency::from_sql(raw.frequency@) {
        None => Some(Frequency::parse_message(raw.frequency@)),
        Some(Frequency::Weekly) => match raw.day_of_week {
            None => Some("weekly rules require a day_of_week"@),
            Some(day) => if day > 6 {
                Some("day_of_week must be 0..=6 (0 = Sunday), got "@ + decimal(day as int))
            } else if raw.day_of_month is Some {
                Some("weekly rules must not carry a day_of_month"@)
            } else {
                rule_dates_problem(raw)
            },
        },
        Some(f) => match raw.day_of_month {
            None => Some(f.sql() + " rules require a day_of_month"@),
            Some(day) => if !(1 <= day <= 31) {
                Some("day_of_month must be 1..=31, got "@ + decimal(day as int))
            } else if raw.day_of_week is Some {
                Some(f.sql() + " rules must not carry a day_of_week"@)
            } else {
                rule_dates_problem(raw)
            },
        },
    }
}

/// The first problem `validate_rule_input` reports, in the order it checks.
pub open spec fn rule_input_problem(raw: RawRuleInput) -> Option<Seq<char>> {
    let name = trimmed(raw.name@);
    if name.len() == 0 {
        Some("name must not be blank"@)
    } else if name.len() > MAX_NAME_LEN {
        Some("name must be 100 chars or fewer"@)
    } else if raw.description@.len() > MAX_DESCRIPTION_LEN {
        Some("description must be 200 chars or fewer"@)
    } else if raw.amount <= 0 {
        Some("amount must be positive, got "@ + decimal(raw.amount as int))
    } else {
        match TxType::from_sql(raw.type_@) {
            None => Some(TxType::parse_message(raw.type_@)),
            Some(TxType::Transfer) => match raw.counter_account_id {
                None => Some("transfer rules require a counter_account_id"@),
                Some(counter) => if counter == raw.account_id {
                    Some("transfer rules require two different accounts"@)
                } else if raw.category_id is Some {
                    Some("transfer rules must not carry a category_id"@)
                } else {
                    rule_schedule_problem(raw)
                },
            },
            Some(_) => if raw.category_id is None {
                Some("income/expense rules require a category_id"@)
            } else if raw.counter_account_id is Some {
                Some("income/expense rules must not carry a counter_account_id"@)
            } else {
                rule_schedule_problem(raw)
            },
        }
    }
}

/// `v` is the rule `raw` describes: the name trimmed, the type, frequency
/// and dates parsed, everything else as given.
pub open spec fn validated_from(v: ValidatedRule, raw: RawRuleInput) -> bool {
    &&& v.name@ == trimmed(raw.name@)
    &&& Some(v.type_) == TxType::from_sql(raw.type_@)
    &&& v.amount == raw.amount
    &&& v.account_id == raw.account_id
    &&& v.counter_account_id == raw.counter_account_id
    &&& v.category_id == raw.category_id
    &&& v.description@ == raw.description@
    &&& Some(v.frequency) == Frequency::from_sql(raw.frequency@)
    &&& v.day_of_month == raw.day_of_month
    &&& v.day_of_week == raw.day_of_week
    &&& Some(v.starts_on) == iso_date(raw.starts_on@)
    &&& v.ends_on == match raw.ends_on {
        Some(e) => iso_date(e@),
        None => None,
    }
    &&& v.schedule_of().wf()
}

/// Check the shape of a rule. Whether its accounts and category exist (and
/// are not archived) needs the database and is checked by the caller.
pub fn validate_rule_input(raw: &RawRuleInput) -> (r: AppResult<ValidatedRule>)
    ensures
        match rule_input_problem(*raw) {
            Some(msg) => r matches Err(e) && invalid_argument(e, msg),
            None => r matches Ok(v) && validated_from(v, *raw),
        },
{
    let name_chars = trim_chars(raw.name);
    if name_chars.len() == 0 {
        return Err(invalid("name must not be blank"));
    }
    if name_chars.len() > MAX_NAME_LEN {
        return Err(invalid("name must be 100 chars or fewer"));
    }
    if crate::text::chars_of(raw.description).len() > MAX_DESCRIPTION_LEN {
        return Err(invalid("description must be 200 chars or fewer"));
    }
    if raw.amount <= 0 {
        return Err(invalid_number("amount must be positive, got ", raw.amount));
    }
    let type_ = TxType::parse(raw.type_)?;
    match type_ {
        TxType::Transfer => {
            let counter = match raw.counter_account_id {
                Some(c) => c,
                None => {
                    return Err(invalid("transfer rules require a counter_account_id"));
                },
            };
            if counter == raw.account_id {
                return Err(invalid("transfer rules require two different accounts"));
            }
            if raw.category_id.is_some() {
                return Err(invalid("transfer rules must not carry a category_id"));
            }
        },
        _ => {
            if raw.category_id.is_none() {
                return Err(invalid("income/expense rules require a category_id"));
            }
            if raw.counter_account_id.is_some() {
                return Err(invalid("income/expense rules must not carry a counter_account_id"));
            }
        },
    }
    let frequency = Frequency::parse(raw.frequency)?;
    match frequency {
        Frequency::Monthly | Frequency::Yearly => {
            let day = match raw.day_of_month {
                Some(d) => d,
                None => {
                    let msg = concat(owned(frequency.as_sql()), " rules require a day_of_month");
                    return Err(AppError::InvalidArgument(msg));
                },
            };
            if !(1 <= day && day <= 31) {
                return Err(invalid_number("day_of_month must be 1..=31, got ", day as i64));
            }
            if raw.day_of_week.is_some() {
                let msg = concat(owned(frequency.as_sql()), " rules must not carry a day_of_week");
                return Err(AppError::InvalidArgument(msg));
            }
        },
        Frequency::Weekly => {
            let day = match raw.day_of_week {
                Some(d) => d,
                None => {
                    return Err(invalid("weekly rules require a day_of_week"));
                },
            };
            if day > 6 {
                return Err(
                    invalid_number("day_of_week must be 0..=6 (0 = Sunday), got ", day as i64),
                );
            }
            if raw.day_of_month.is_some() {
                return Err(invalid("weekly rules must not carry a day_of_month"));
            }
        },
    }
    let starts_on = parse_iso_date("starts_on", raw.starts_on)?;
    let ends_on = match raw.ends_on {
        Some(value) => Some(parse_iso_date("ends_on", value)?),
        None => None,
    };
    if let Some(end) = ends_on {
        if end.lt(&starts_on) {
            return Err(invalid("ends_on must not precede starts_on"));
        }
    }
    Ok(
        ValidatedRule {
            name: string_from_chars(name_chars.as_slice()),
            type_,
            amount: raw.amount,
            account_id: raw.account_id,
            counter_account_id: raw.counter_account_id,
            category_id: raw.category_id,
            description: owned(raw.description),
            frequency,
            day_of_month: raw.day_of_month,
            day_of_week: raw.day_of_week,
            starts_on,
            ends_on,
        },
    )
}

} // verus!
