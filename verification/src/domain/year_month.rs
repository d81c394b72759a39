//! Calendar months (`YYYY-MM`): their text form, parsing, and month arithmetic.

use vstd::prelude::*;
use crate::domain::calendar::{Date, year_text};
use crate::domain::date::{digit_value, is_ascii_digit, lemma_digit_char, lemma_four_digits, lemma_two_digits};
use crate::error::{AppError, AppResult, invalid_argument};
use crate::text::{chars_of, concat, decimal, digit_char, owned, push_char, push_zero_padded, zero_padded};

verus! {

broadcast use vstd::string::group_string_axioms;

// ---------------------------------------------------------------------------
// What std's `str::len` and integer `parse` do, for the short texts here
// ---------------------------------------------------------------------------

/// Bytes UTF-8 uses for one character.
pub open spec fn utf8_width(c: char) -> int {
    let u = c as u32;
    if u < 0x80 {
        1
    } else if u < 0x800 {
        2
    } else if u < 0x10000 {
        3
    } else {
        4
    }
}

/// Byte length of the UTF-8 encoding (`str::len`).
pub open spec fn utf8_len(s: Seq<char>) -> int
    decreases s.len(),
{
    if s.len() == 0 {
        0
    } else {
        utf8_len(s.drop_last()) + utf8_width(s.last())
    }
}

/// The number a string of ASCII digits spells.
pub open spec fn digits_value(s: Seq<char>) -> int
    decreases s.len(),
{
    if s.len() == 0 {
        0
    } else {
        digits_value(s.drop_last()) * 10 + digit_value(s.last())
    }
}

pub open spec fn all_digits(s: Seq<char>) -> bool {
    s.len() > 0 && forall|i: int| 0 <= i < s.len() ==> is_ascii_digit(#[trigger] s[i])
}

/// What `str::parse::<i32>` accepts, for texts too short to overflow: an
/// optional sign and at least one digit.
pub open spec fn parse_signed(s: Seq<char>) -> Option<int> {
    if s.len() > 0 && s[0] == '-' {
        if all_digits(s.drop_first()) {
            Some(-digits_value(s.drop_first()))
        } else {
            None
        }
    } else if s.len() > 0 && s[0] == '+' {
        if all_digits(s.drop_first()) {
            Some(digits_value(s.drop_first()))
        } else {
            None
        }
    } else if all_digits(s) {
        Some(digits_value(s))
    } else {
        None
    }
}

/// What `str::parse::<u32>` accepts, for texts too short to overflow: an
/// optional `+` and at least one digit.
pub open spec fn parse_unsigned(s: Seq<char>) -> Option<int> {
    if s.len() > 0 && s[0] == '+' {
        if all_digits(s.drop_first()) {
            Some(digits_value(s.drop_first()))
        } else {
            None
        }
    } else if all_digits(s) {
        Some(digits_value(s))
    } else {
        None
    }
}

spec fn pow10(n: nat) -> int
    decreases n,
{
    if n == 0 {
        1
    } else {
        10 * pow10((n - 1) as nat)
    }
}

proof fn lemma_pow10_small(n: nat)
    requires
        n <= 9,
    ensures
        1 <= pow10(n) <= 1_000_000_000,
{
    reveal_with_fuel(pow10, 10);
    if n == 0 {
    } else if n == 1 {
    } else if n == 2 {
    } else if n == 3 {
    } else if n == 4 {
    } else if n == 5 {
    } else if n == 6 {
    } else if n == 7 {
    } else if n == 8 {
    } else {
    }
}

proof fn lemma_digits_value_pow(s: Seq<char>)
    requires
        forall|i: int| 0 <= i < s.len() ==> is_ascii_digit(#[trigger] s[i]),
    ensures
        0 <= digits_value(s) < pow10(s.len()),
    decreases s.len(),
{
    if s.len() > 0 {
        lemma_digits_value_pow(s.drop_last());
        assert(is_ascii_digit(s[s.len() - 1]));
        assert(pow10(s.len()) == 10 * pow10(s.drop_last().len()));
    }
}

proof fn lemma_digits_value_bound(s: Seq<char>)
    requires
        forall|i: int| 0 <= i < s.len() ==> is_ascii_digit(#[trigger] s[i]),
    ensures
        0 <= digits_value(s),
        s.len() <= 9 ==> digits_value(s) < 1_000_000_000,
{
    lemma_digits_value_pow(s);
    if s.len() <= 9 {
        lemma_pow10_small(s.len());
    }
}

/// Byte length of `v` in UTF-8.
pub fn utf8_length(v: &[char]) -> (r: usize)
    requires
        v@.len() < 0x1000_0000,
    ensures
        r as int == utf8_len(v@),
{
    let mut total: usize = 0;
    let mut i: usize = 0;
    while i < v.len()
        invariant
            0 <= i <= v.len(),
            v@.len() < 0x1000_0000,
            total as int == utf8_len(v@.subrange(0, i as int)),
            total <= 4 * i,
        decreases v.len() - i,
    {
        let u = v[i] as u32;
        let w: usize = if u < 0x80 {
            1
        } else if u < 0x800 {
            2
        } else if u < 0x10000 {
            3
        } else {
            4
        };
        assert(v@.subrange(0, i + 1).drop_last() =~= v@.subrange(0, i as int));
        total = total + w;
        i += 1;
    }
    assert(v@.subrange(0, v.len() as int) =~= v@);
    total
}

fn digits_number(v: &[char], start: usize) -> (r: Option<i64>)
    requires
        start <= v@.len(),
        v@.len() - start <= 9,
    ensures
        r == (if all_digits(v@.subrange(start as int, v@.len() as int)) {
            Some(digits_value(v@.subrange(start as int, v@.len() as int)) as i64)
        } else {
            None::<i64>
        }),
{
    if start == v.len() {
        return None;
    }
    let mut value: i64 = 0;
    let mut i: usize = start;
    while i < v.len()
        invariant
            start <= i <= v@.len(),
            v@.len() - start <= 9,
            start < v@.len(),
            forall|k: int| start <= k < i ==> is_ascii_digit(#[trigger] v@[k]),
            value as int == digits_value(v@.subrange(start as int, i as int)),
            0 <= value < 1_000_000_000,
        decreases v.len() - i,
    {
        let c = v[i];
        if !('0' <= c && c <= '9') {
            proof {
                let sub = v@.subrange(start as int, v@.len() as int);
                assert(sub[i - start] == c);
            }
            return None;
        }
        let d = (c as u32 - '0' as u32) as i64;
        proof {
            let pre = v@.subrange(start as int, i as int);
            let next = v@.subrange(start as int, i + 1);
            assert(next.drop_last() =~= pre);
            assert(next.last() == c);
            assert forall|k: int| 0 <= k < next.len() implies is_ascii_digit(#[trigger] next[k]) by {
                assert(next[k] == v@[start + k]);
            }
            lemma_digits_value_bound(next);
            assert(i + 1 - start <= 9);
        }
        value = value * 10 + d;
        i += 1;
    }
    proof {
        let sub = v@.subrange(start as int, v@.len() as int);
        assert forall|k: int| 0 <= k < sub.len() implies is_ascii_digit(#[trigger] sub[k]) by {
            assert(sub[k] == v@[start + k]);
        }
    }
    Some(value)
}

/// `str::parse::<i32>` on at most nine characters.
pub fn parse_small_signed(v: &[char]) -> (r: Option<i64>)
    requires
        v@.len() <= 9,
    ensures
        r == (match parse_signed(v@) {
            Some(n) => Some(n as i64),
            None => None::<i64>,
        }),
        r matches Some(n) ==> -1_000_000_000 < n < 1_000_000_000,
        parse_signed(v@) matches Some(n) ==> -1_000_000_000 < n < 1_000_000_000,
{
    if v.len() > 0 && (v[0] == '-' || v[0] == '+') {
        assert(v@.subrange(1, v@.len() as int) =~= v@.drop_first());
        match digits_number(v, 1) {
            Some(n) => {
                proof {
                    lemma_digits_value_bound(v@.drop_first());
                }
                if v[0] == '-' {
                    Some(-n)
                } else {
                    Some(n)
                }
            },
            None => None,
        }
    } else {
        assert(v@.subrange(0, v@.len() as int) =~= v@);
        let r = digits_number(v, 0);
        proof {
            if all_digits(v@) {
                lemma_digits_value_bound(v@);
            }
        }
        r
    }
}

/// `str::parse::<u32>` on at most nine characters.
pub fn parse_small_unsigned(v: &[char]) -> (r: Option<i64>)
    requires
        v@.len() <= 9,
    ensures
        r == (match parse_unsigned(v@) {
            Some(n) => Some(n as i64),
            None => None::<i64>,
        }),
        r matches Some(n) ==> 0 <= n < 1_000_000_000,
        parse_unsigned(v@) matches Some(n) ==> 0 <= n < 1_000_000_000,
{
    if v.len() > 0 && v[0] == '+' {
        assert(v@.subrange(1, v@.len() as int) =~= v@.drop_first());
        let r = digits_number(v, 1);
        proof {
            if all_digits(v@.drop_first()) {
                lemma_digits_value_bound(v@.drop_first());
            }
        }
        r
    } else {
        assert(v@.subrange(0, v@.len() as int) =~= v@);
        let r = digits_number(v, 0);
        proof {
            if all_digits(v@) {
                lemma_digits_value_bound(v@);
            }
        }
        r
    }
}

// ---------------------------------------------------------------------------
// `YYYY-MM`
// ---------------------------------------------------------------------------

/// Index of the first `-` in `s`, if any (`str::split_once('-')`).
pub open spec fn first_hyphen(s: Seq<char>) -> Option<int> {
    if exists|i: int| 0 <= i < s.len() && s[i] == '-' {
        Some(choose|i: int| 0 <= i < s.len() && s[i] == '-' && forall|j: int| 0 <= j < i ==> s[j] != '-')
    } else {
        None
    }
}

pub open spec fn shape_message(raw: Seq<char>) -> Seq<char> {
    "year_month must be YYYY-MM, got '"@ + raw + seq!['\'']
}

/// The outcome of parsing a `YYYY-MM` key: the year and month, or the error text.
pub open spec fn year_month_parse(raw: Seq<char>) -> Result<(int, int), Seq<char>> {
    match first_hyphen(raw) {
        None => Err(shape_message(raw)),
        Some(p) => {
            let year_raw = raw.subrange(0, p);
            let month_raw = raw.subrange(p + 1, raw.len() as int);
            if utf8_len(year_raw) != 4 || utf8_len(month_raw) != 2 {
                Err(shape_message(raw))
            } else {
                match parse_signed(year_raw) {
                    None => Err("bad year in '"@ + raw + seq!['\'']),
                    Some(year) => match parse_unsigned(month_raw) {
                        None => Err("bad month in '"@ + raw + seq!['\'']),
                        Some(month) => if 1 <= month <= 12 {
                            Ok((year, month))
                        } else {
                            Err("month out of range: "@ + decimal(month))
                        },
                    },
                }
            }
        },
    }
}

proof fn lemma_utf8_len_bounds(s: Seq<char>)
    ensures
        s.len() <= utf8_len(s) <= 4 * s.len(),
    decreases s.len(),
{
    if s.len() > 0 {
        lemma_utf8_len_bounds(s.drop_last());
    }
}

/// Parse a `YYYY-MM` key into its year and month.
pub fn parse_year_month_parts(raw: &str) -> (r: AppResult<(i32, u32)>)
    ensures
        match year_month_parse(raw@) {
            Ok((y, m)) => r matches Ok((ry, rm)) && ry == y && rm == m,
            Err(msg) => r matches Err(e) && invalid_argument(e, msg),
        },
{
    let v = chars_of(raw);
    let mut p: usize = 0;
    while p < v.len() && v[p] != '-'
        invariant
            0 <= p <= v@.len(),
            v@ == raw@,
            forall|j: int| 0 <= j < p ==> v@[j] != '-',
        decreases v.len() - p,
    {
        p += 1;
    }
    if p == v.len() {
        let mut s = concat(owned("year_month must be YYYY-MM, got '"), raw);
        push_char(&mut s, '\'');
        proof {
            assert(!exists|i: int| 0 <= i < raw@.len() && raw@[i] == '-');
            assert(s@ =~= shape_message(raw@));
        }
        return Err(AppError::InvalidArgument(s));
    }
    proof {
        assert(raw@[p as int] == '-');
        let q = choose|i: int|
            0 <= i < raw@.len() && raw@[i] == '-' && forall|j: int| 0 <= j < i ==> raw@[j] != '-';
        assert(first_hyphen(raw@) == Some(q));
        if q < p {
            assert(raw@[q] != '-');
        }
        if p < q {
            assert(raw@[p as int] != '-');
        }
        assert(q == p);
    }
    let year_chars = &v[0..p];
    let month_chars = &v[p + 1..v.len()];
    assert(year_chars@ =~= raw@.subrange(0, p as int));
    assert(month_chars@ =~= raw@.subrange(p + 1, raw@.len() as int));
    let ok_shape = if year_chars.len() > 4 || month_chars.len() > 2 {
        proof {
            lemma_utf8_len_bounds(year_chars@);
            lemma_utf8_len_bounds(month_chars@);
        }
        false
    } else {
        utf8_length(year_chars) == 4 && utf8_length(month_chars) == 2
    };
    if !ok_shape {
        let mut s = concat(owned("year_month must be YYYY-MM, got '"), raw);
        push_char(&mut s, '\'');
        assert(s@ =~= shape_message(raw@));
        return Err(AppError::InvalidArgument(s));
    }
    let year = match parse_small_signed(year_chars) {
        Some(y) => y,
        None => {
            let mut s = concat(owned("bad year in '"), raw);
            push_char(&mut s, '\'');
            assert(s@ =~= "bad year in '"@ + raw@ + seq!['\'']);
            return Err(AppError::InvalidArgument(s));
        },
    };
    let month = match parse_small_unsigned(month_chars) {
        Some(m) => m,
        None => {
            let mut s = concat(owned("bad month in '"), raw);
            push_char(&mut s, '\'');
            assert(s@ =~= "bad month in '"@ + raw@ + seq!['\'']);
            return Err(AppError::InvalidArgument(s));
        },
    };
    proof {
        let year_raw = raw@.subrange(0, p as int);
        let month_raw = raw@.subrange(p + 1, raw@.len() as int);
        assert(utf8_len(year_raw) == 4 && utf8_len(month_raw) == 2);
        assert(parse_signed(year_raw) == Some(year as int));
        assert(parse_unsigned(month_raw) == Some(month as int));
    }
    if !(1 <= month && month <= 12) {
        return Err(crate::error::invalid_number("month out of range: ", month));
    }
    Ok((year as i32, month as u32))
}

/// A calendar month.
#[derive(Debug, Clone, Copy, PartialEq, Eq, Hash)]
pub struct YearMonth {
    pub year: i32,
    pub month: u32,
}

/// `{:04}-{:02}` of a year and month.
pub open spec fn month_key(year: int, month: int) -> Seq<char> {
    zero_padded(year, 4) + seq!['-'] + zero_padded(month, 2)
}

/// Months counted from year 0: `year * 12 + (month - 1)`.
pub open spec fn month_ordinal(year: int, month: int) -> int {
    year * 12 + month - 1
}

/// The month `n` months before `ym` (its year wraps as `as i32` does).
pub open spec fn stepped_back(ym: YearMonth, n: int) -> YearMonth {
    YearMonth {
        year: ((month_ordinal(ym.year as int, ym.month as int) - n) / 12) as i32,
        month: ((month_ordinal(ym.year as int, ym.month as int) - n) % 12 + 1) as u32,
    }
}

/// Months from `earlier` to `later` (negative when `later` is earlier).
pub open spec fn months_between(later: YearMonth, earlier: YearMonth) -> int {
    (later.year * 12 + later.month) - (earlier.year * 12 + earlier.month)
}

/// Counting the months since the month `n` months back gives `n`, as long as
/// that month's year fits in an `i32`.
pub proof fn law_months_since_undoes_step_back(ym: YearMonth, n: u32)
    requires
        1 <= ym.month <= 12,
        i32::MIN <= (month_ordinal(ym.year as int, ym.month as int) - n) / 12,
    ensures
        months_between(ym, stepped_back(ym, n as int)) == n,
{
    let t = month_ordinal(ym.year as int, ym.month as int) - n;
    assert(t == 12 * (t / 12) + t % 12);
    assert(t / 12 <= ym.year);
}

/// The key of a month of the years 0 to 9999 parses back to that month.
pub proof fn law_key_round_trips(ym: YearMonth)
    requires
        0 <= ym.year <= 9999,
        1 <= ym.month <= 12,
    ensures
        year_month_parse(month_key(ym.year as int, ym.month as int)) == Ok::<(int, int), Seq<char>>(
            (ym.year as int, ym.month as int),
        ),
{
    let y = ym.year as int;
    let m = ym.month as int;
    lemma_four_digits(y);
    lemma_two_digits(m);
    assert(zero_padded(y, 4) == year_text(y));
    lemma_digit_char(y / 1000);
    lemma_digit_char((y / 100) % 10);
    lemma_digit_char((y / 10) % 10);
    lemma_digit_char(y % 10);
    lemma_digit_char(m / 10);
    lemma_digit_char(m % 10);
    let ys = seq![digit_char(y / 1000), digit_char((y / 100) % 10), digit_char((y / 10) % 10), digit_char(y % 10)];
    let ms = seq![digit_char(m / 10), digit_char(m % 10)];
    let s = month_key(y, m);
    assert(s =~= ys + seq!['-'] + ms);
    assert(s[4] == '-');
    let q = choose|i: int| 0 <= i < s.len() && s[i] == '-' && forall|j: int| 0 <= j < i ==> s[j] != '-';
    assert(forall|j: int| 0 <= j < 4 ==> s[j] != '-');
    assert(first_hyphen(s) == Some(q));
    if q < 4 {
        assert(s[q] != '-');
    }
    if 4 < q {
        assert(s[4] != '-');
    }
    assert(q == 4);
    assert(s.subrange(0, 4) =~= ys);
    assert(s.subrange(5, s.len() as int) =~= ms);
    assert(ys.drop_last() =~= seq![digit_char(y / 1000), digit_char((y / 100) % 10), digit_char((y / 10) % 10)]);
    assert(ys.drop_last().drop_last() =~= seq![digit_char(y / 1000), digit_char((y / 100) % 10)]);
    assert(ys.drop_last().drop_last().drop_last() =~= seq![digit_char(y / 1000)]);
    assert(ms.drop_last() =~= seq![digit_char(m / 10)]);
    reveal_with_fuel(utf8_len, 5);
    reveal_with_fuel(digits_value, 5);
    assert(utf8_len(ys) == 4);
    assert(utf8_len(ms) == 2);
    assert(all_digits(ys));
    assert(all_digits(ms));
    assert(digits_value(ys) == y);
    assert(digits_value(ms) == m);
}

impl YearMonth {
    /// The key `YYYY-MM`.
    pub fn key(self) -> (r: String)
        ensures
            r@ == month_key(self.year as int, self.month as int),
    {
        let mut s = String::new();
        push_zero_padded(&mut s, self.year as i64, 4);
        push_char(&mut s, '-');
        push_zero_padded(&mut s, self.month as i64, 2);
        assert(s@ =~= month_key(self.year as int, self.month as int));
        s
    }

    /// Parse a `YYYY-MM` key.
    pub fn parse_key(raw: &str) -> (r: AppResult<YearMonth>)
        ensures
            match year_month_parse(raw@) {
                Ok((y, m)) => r matches Ok(ym) && ym.year == y && ym.month == m,
                Err(msg) => r matches Err(e) && invalid_argument(e, msg),
            },
    {
        let (year, month) = parse_year_month_parts(raw)?;
        Ok(YearMonth { year, month })
    }

    /// The month `months` months earlier. A year beyond `i32` wraps, as `as i32` does.
    pub fn step_back(self, months: u32) -> (r: YearMonth)
        requires
            self.month >= 1,
        ensures
            r == stepped_back(self, months as int),
    {
        let total: i64 = (self.year as i64) * 12 + ((self.month - 1) as i64) - (months as i64);
        let q = match total.checked_div_euclid(12) {
            Some(q) => q,
            None => 0,
        };
        let m = match total.checked_rem_euclid(12) {
            Some(m) => m,
            None => 0,
        };
        let year = q as i32;
        let month = (m + 1) as u32;
        YearMonth { year, month }
    }

    /// Months elapsed since `earlier` (positive when `self` is later).
    pub fn months_since(self, earlier: YearMonth) -> (r: i64)
        ensures
            r == months_between(self, earlier),
    {
        ((self.year as i64) * 12 + (self.month as i64)) - ((earlier.year as i64) * 12
            + (earlier.month as i64))
    }
}

/// The month a date lies in.
pub fn year_month_from_date(date: Date) -> (r: YearMonth)
    ensures
        r.year == date.year,
        r.month == date.month,
{
    YearMonth { year: date.year, month: date.month }
}

} // verus!
