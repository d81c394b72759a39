//! Proleptic Gregorian calendar dates.
//!
//! `Date` holds a calendar day as plain values (year, month, day) that always
//! name an existing day inside chrono's supported range. The arithmetic the
//! ledger needs (adding days, the previous day, the weekday, the distance in
//! days) is done by chrono; the wrappers below state what it returns in terms
//! of `day_number`, the count of days with January 1 of year 1 as day 1
//! (chrono's `num_days_from_ce`).

use chrono::Datelike;
use vstd::prelude::*;
use vstd::arithmetic::div_mod::lemma_fundamental_div_mod_converse;
use crate::text::{decimal_digits, pad_zeros, push_char, push_zero_padded, zero_padded};

verus! {

/// Smallest year chrono's `NaiveDate` represents.
pub const MIN_YEAR: i32 = -262143;

/// Largest year chrono's `NaiveDate` represents.
pub const MAX_YEAR: i32 = 262142;

pub open spec fn is_leap_year(y: int) -> bool {
    y % 4 == 0 && (y % 100 != 0 || y % 400 == 0)
}

pub open spec fn days_in_month(y: int, m: int) -> int {
    if m == 2 {
        if is_leap_year(y) { 29 } else { 28 }
    } else if m == 4 || m == 6 || m == 9 || m == 11 {
        30
    } else {
        31
    }
}

pub open spec fn days_in_year(y: int) -> int {
    if is_leap_year(y) { 366 } else { 365 }
}

/// Days of the months before `m` (1-based) in year `y`; `m == 13` gives the whole year.
pub open spec fn days_before_month(y: int, m: int) -> int {
    let leap: int = if is_leap_year(y) { 1 } else { 0 };
    if m <= 1 { 0 }
    else if m == 2 { 31 }
    else if m == 3 { 59 + leap }
    else if m == 4 { 90 + leap }
    else if m == 5 { 120 + leap }
    else if m == 6 { 151 + leap }
    else if m == 7 { 181 + leap }
    else if m == 8 { 212 + leap }
    else if m == 9 { 243 + leap }
    else if m == 10 { 273 + leap }
    else if m == 11 { 304 + leap }
    else if m == 12 { 334 + leap }
    else { 365 + leap }
}

/// Days of all years before `y`, counted from the start of year 1.
pub open spec fn days_before_year(y: int) -> int {
    365 * (y - 1) + (y - 1) / 4 - (y - 1) / 100 + (y - 1) / 400
}

/// Day number of a calendar date: January 1 of year 1 is day 1.
pub open spec fn day_number(y: int, m: int, d: int) -> int {
    days_before_year(y) + days_before_month(y, m) + d
}

/// The date exists in the proleptic Gregorian calendar and chrono can hold it.
pub open spec fn valid_ymd(y: int, m: int, d: int) -> bool {
    &&& MIN_YEAR <= y <= MAX_YEAR
    &&& 1 <= m <= 12
    &&& 1 <= d <= days_in_month(y, m)
}

/// Day number of the last date chrono represents.
pub open spec fn max_day_number() -> int {
    day_number(MAX_YEAR as int, 12, 31)
}

/// Day number of the first date chrono represents.
pub open spec fn min_day_number() -> int {
    day_number(MIN_YEAR as int, 1, 1)
}

/// A calendar date as plain values. The library only builds dates that
/// exist and lie in chrono's range (`valid`); functions that compute with a
/// date ask for that in their `requires`.
#[derive(Debug, Clone, Copy, PartialEq, Eq, PartialOrd, Ord, Hash)]
pub struct Date {
    pub year: i32,
    pub month: u32,
    pub day: u32,
}

impl Date {

    pub open spec fn y(self) -> int {
        self.year as int
    }

    pub open spec fn m(self) -> int {
        self.month as int
    }

    pub open spec fn d(self) -> int {
        self.day as int
    }

    /// The fields name an existing date in range (always true of an executable `Date`).
    pub open spec fn valid(self) -> bool {
        valid_ymd(self.y(), self.m(), self.d())
    }

    pub open spec fn num(self) -> int {
        day_number(self.y(), self.m(), self.d())
    }


    /// The date `y-m-d`, when it exists in chrono's range (`NaiveDate::from_ymd_opt`).
    pub fn from_ymd_opt(y: i32, m: u32, d: u32) -> (r: Option<Date>)
        ensures
            r is Some <==> valid_ymd(y as int, m as int, d as int),
            r matches Some(x) ==> x.year == y && x.month == m && x.day == d,
    {
        chrono_from_ymd(y, m, d)
    }

    /// `self < other` in calendar order.
    pub fn lt(&self, other: &Date) -> (r: bool)
        ensures
            r == date_lt(*self, *other),
    {
        self.year < other.year || (self.year == other.year && (self.month < other.month || (
        self.month == other.month && self.day < other.day)))
    }

    /// `self <= other` in calendar order.
    pub fn le(&self, other: &Date) -> (r: bool)
        ensures
            r == date_le(*self, *other),
    {
        !other.lt(self)
    }

    /// The later of two dates.
    pub fn later_of(self, other: Date) -> (r: Date)
        ensures
            r == (if date_lt(self, other) { other } else { self }),
    {
        if self.lt(&other) {
            other
        } else {
            self
        }
    }

    /// The earlier of two dates.
    pub fn earlier_of(self, other: Date) -> (r: Date)
        ensures
            r == (if date_lt(other, self) { other } else { self }),
    {
        if other.lt(&self) {
            other
        } else {
            self
        }
    }
}

/// Calendar order (the order of chrono's `NaiveDate`).
pub open spec fn date_lt(a: Date, b: Date) -> bool {
    a.year < b.year || (a.year == b.year && (a.month < b.month || (a.month == b.month && a.day
        < b.day)))
}

pub open spec fn date_le(a: Date, b: Date) -> bool {
    !date_lt(b, a)
}

// ---------------------------------------------------------------------------
// Arithmetic facts about the calendar
// ---------------------------------------------------------------------------

proof fn lemma_div_step(y: int, k: int)
    requires
        k > 0,
    ensures
        y / k - (y - 1) / k == (if y % k == 0 { 1int } else { 0int }),
{
    let q = (y - 1) / k;
    let r = (y - 1) % k;
    assert(y - 1 == q * k + r) by {
        vstd::arithmetic::div_mod::lemma_fundamental_div_mod(y - 1, k);
        vstd::arithmetic::mul::lemma_mul_is_commutative(k, q);
    }
    if r + 1 == k {
        assert(y == (q + 1) * k + 0) by (nonlinear_arith)
            requires
                y - 1 == q * k + r,
                r + 1 == k,
        ;
        lemma_fundamental_div_mod_converse(y, k, q + 1, 0);
    } else {
        assert(y == q * k + (r + 1));
        lemma_fundamental_div_mod_converse(y, k, q, r + 1);
    }
}

proof fn lemma_divides_chain(y: int)
    ensures
        y % 100 == 0 ==> y % 4 == 0,
        y % 400 == 0 ==> y % 100 == 0,
{
    if y % 100 == 0 {
        let q = y / 100;
        vstd::arithmetic::div_mod::lemma_fundamental_div_mod(y, 100);
        assert(y == (25 * q) * 4 + 0) by (nonlinear_arith)
            requires
                y == 100 * q + 0,
        ;
        lemma_fundamental_div_mod_converse(y, 4, 25 * q, 0);
    }
    if y % 400 == 0 {
        let q = y / 400;
        vstd::arithmetic::div_mod::lemma_fundamental_div_mod(y, 400);
        assert(y == (4 * q) * 100 + 0) by (nonlinear_arith)
            requires
                y == 400 * q + 0,
        ;
        lemma_fundamental_div_mod_converse(y, 100, 4 * q, 0);
    }
}

/// The days of year `y` are exactly those between two consecutive year starts.
pub proof fn lemma_days_before_next_year(y: int)
    ensures
        days_before_year(y + 1) == days_before_year(y) + days_in_year(y),
{
    lemma_div_step(y, 4);
    lemma_div_step(y, 100);
    lemma_div_step(y, 400);
    lemma_divides_chain(y);
}

proof fn lemma_days_before_year_monotone(a: int, b: int)
    requires
        a <= b,
    ensures
        days_before_year(a) + (b - a) * 365 <= days_before_year(b),
    decreases b - a,
{
    if a < b {
        lemma_days_before_year_monotone(a, b - 1);
        lemma_days_before_next_year(b - 1);
    }
}

/// Calendar order and day-number order agree on valid dates.
pub proof fn lemma_order_by_number(a: Date, b: Date)
    requires
        a.valid(),
        b.valid(),
    ensures
        date_lt(a, b) <==> a.num() < b.num(),
        a == b <==> a.num() == b.num(),
{
    if date_lt(a, b) {
        lemma_order_by_number_lt(a, b);
    } else if date_lt(b, a) {
        lemma_order_by_number_lt(b, a);
    } else {
        assert(a.year == b.year && a.month == b.month && a.day == b.day);
    }
}

pub(crate) proof fn lemma_month_bound(y: int, m: int, d: int)
    requires
        1 <= m <= 12,
        1 <= d <= days_in_month(y, m),
    ensures
        days_before_month(y, m) + d <= days_in_year(y),
        forall|m2: int|
            m < m2 <= 13 ==> #[trigger] days_before_month(y, m2) >= days_before_month(y, m) + d,
{
}

proof fn lemma_order_by_number_lt(a: Date, b: Date)
    requires
        a.valid(),
        b.valid(),
        date_lt(a, b),
    ensures
        a.num() < b.num(),
{
    lemma_month_bound(a.y(), a.m(), a.d());
    if a.year == b.year {
        if a.month < b.month {
            assert(days_before_month(a.y(), b.m()) >= days_before_month(a.y(), a.m()) + a.d());
        }
    } else {
        lemma_days_before_next_year(a.y());
        lemma_days_before_year_monotone(a.y() + 1, b.y());
    }
}

/// The day after a valid date, when it is still valid, has the next day number.
pub proof fn lemma_next_day_number(y: int, m: int, d: int)
    requires
        valid_ymd(y, m, d),
    ensures
        d < days_in_month(y, m) ==> day_number(y, m, d + 1) == day_number(y, m, d) + 1,
        d == days_in_month(y, m) && m < 12 ==> day_number(y, m + 1, 1) == day_number(y, m, d)
            + 1,
        d == days_in_month(y, m) && m == 12 ==> day_number(y + 1, 1, 1) == day_number(y, m, d)
            + 1,
{
    lemma_days_before_next_year(y);
}

/// The first day of the month after `y-m` (which need not be valid).
pub open spec fn next_month_first_number(y: int, m: int) -> int {
    if m == 12 { day_number(y + 1, 1, 1) } else { day_number(y, m + 1, 1) }
}

/// The first of the next month comes exactly `days_in_month` days after the first of this one.
pub proof fn lemma_month_length(y: int, m: int)
    requires
        1 <= m <= 12,
    ensures
        next_month_first_number(y, m) == day_number(y, m, 1) + days_in_month(y, m),
{
    lemma_days_before_next_year(y);
}

// ---------------------------------------------------------------------------
// chrono
// ---------------------------------------------------------------------------

/// `NaiveDate::from_ymd_opt`: chrono returns a date exactly when the fields
/// name an existing day of the proleptic Gregorian calendar with a year in
/// `MIN_YEAR..=MAX_YEAR`, and the date it returns has those fields.
#[verifier::external_body]
fn chrono_from_ymd(y: i32, m: u32, d: u32) -> (r: Option<Date>)
    ensures
        r is Some <==> valid_ymd(y as int, m as int, d as int),
        r matches Some(x) ==> x.year == y && x.month == m && x.day == d,
{
    match chrono::NaiveDate::from_ymd_opt(y, m, d) {
        Some(n) => Some(Date { year: n.year(), month: n.month(), day: n.day() }),
        None => None,
    }
}

/// `NaiveDate::checked_add_days`: the date `n` days later, or `None` when it
/// would pass the last date chrono represents (or `n` exceeds `i32::MAX`).
#[verifier::external_body]
pub(crate) fn chrono_add_days(date: Date, n: u64) -> (r: Option<Date>)
    requires
        date.valid(),
    ensures
        r is Some <==> (n <= i32::MAX && date.num() + n <= max_day_number()),
        r matches Some(x) ==> x.valid() && x.num() == date.num() + n,
{
    let naive = chrono::NaiveDate::from_ymd_opt(date.year, date.month, date.day).unwrap();
    match naive.checked_add_days(chrono::Days::new(n)) {
        Some(x) => Some(Date { year: x.year(), month: x.month(), day: x.day() }),
        None => None,
    }
}

/// `NaiveDate::pred_opt`: the previous day, or `None` before the first date
/// chrono represents.
#[verifier::external_body]
pub(crate) fn chrono_pred(date: Date) -> (r: Option<Date>)
    requires
        date.valid(),
    ensures
        r is Some <==> date.num() - 1 >= min_day_number(),
        r matches Some(x) ==> x.valid() && x.num() == date.num() - 1,
{
    let naive = chrono::NaiveDate::from_ymd_opt(date.year, date.month, date.day).unwrap();
    match naive.pred_opt() {
        Some(x) => Some(Date { year: x.year(), month: x.month(), day: x.day() }),
        None => None,
    }
}

/// `Weekday::num_days_from_sunday` of `NaiveDate::weekday`: 0 for Sunday up to
/// 6 for Saturday. January 1 of year 1 (day number 1) is a Monday, and the
/// weekdays repeat every seven days.
#[verifier::external_body]
pub(crate) fn chrono_weekday_from_sunday(date: Date) -> (r: u32)
    requires
        date.valid(),
    ensures
        r as int == date.num() % 7,
{
    let naive = chrono::NaiveDate::from_ymd_opt(date.year, date.month, date.day).unwrap();
    naive.weekday().num_days_from_sunday()
}

/// `(a - b).num_days()` on two `NaiveDate`s: the signed distance in days.
#[verifier::external_body]
pub(crate) fn chrono_days_between(a: Date, b: Date) -> (r: i64)
    requires
        a.valid(),
        b.valid(),
    ensures
        r as int == a.num() - b.num(),
{
    let na = chrono::NaiveDate::from_ymd_opt(a.year, a.month, a.day).unwrap();
    let nb = chrono::NaiveDate::from_ymd_opt(b.year, b.month, b.day).unwrap();
    (na - nb).num_days()
}


// ---------------------------------------------------------------------------
// Text
// ---------------------------------------------------------------------------

/// chrono's `%Y`: four zero-padded digits for years 0 through 9999; other
/// years carry an explicit sign before at least four digits.
pub open spec fn year_text(y: int) -> Seq<char> {
    if 0 <= y <= 9999 {
        pad_zeros(decimal_digits(y as nat), 4)
    } else if y < 0 {
        seq!['-'] + pad_zeros(decimal_digits((-y) as nat), 4)
    } else {
        seq!['+'] + pad_zeros(decimal_digits(y as nat), 4)
    }
}

/// chrono's `%Y-%m-%d` rendering of a date.
pub open spec fn iso_text(d: Date) -> Seq<char> {
    year_text(d.y()) + seq!['-'] + zero_padded(d.m(), 2) + seq!['-'] + zero_padded(d.d(), 2)
}

impl Date {
    /// The date as `YYYY-MM-DD` (`format("%Y-%m-%d")`).
    pub fn iso_string(&self) -> (r: String)
        ensures
            r@ == iso_text(*self),
    {
        let mut s = String::new();
        if 0 <= self.year && self.year <= 9999 {
            push_zero_padded(&mut s, self.year as i64, 4);
        } else {
            if self.year < 0 {
                push_char(&mut s, '-');
                let ghost before = s@;
                push_zero_padded(&mut s, -(self.year as i64), 4);
            } else {
                push_char(&mut s, '+');
                push_zero_padded(&mut s, self.year as i64, 4);
            }
        }
        let ghost after_year = s@;
        assert(after_year =~= year_text(self.y()));
        push_char(&mut s, '-');
        push_zero_padded(&mut s, self.month as i64, 2);
        push_char(&mut s, '-');
        push_zero_padded(&mut s, self.day as i64, 2);
        assert(s@ =~= iso_text(*self));
        s
    }
}

} // verus!
