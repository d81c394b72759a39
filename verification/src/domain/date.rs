//! Canonical ISO-8601 calendar dates.
//!
//! Every date column is TEXT compared lexically in SQL, so a stored date must
//! have the exact shape `YYYY-MM-DD`. chrono's `%Y-%m-%d` alone is lenient,
//! so the byte shape is checked first and only then does chrono decide
//! whether the calendar date exists.

use chrono::Datelike;
use vstd::prelude::*;
use crate::domain::calendar::{Date, iso_text, valid_ymd, year_text};
use crate::error::{AppError, AppResult, invalid_argument};
use crate::text::{concat, decimal_digits, digit_char, owned, push_char, repeat_char, zero_padded};

verus! {

broadcast use vstd::string::group_string_axioms;

pub const ISO_DATE_LEN: usize = 10;

pub open spec fn is_ascii_digit(c: char) -> bool {
    '0' <= c <= '9'
}

pub open spec fn digit_value(c: char) -> int {
    c as int - '0' as int
}

/// `DDDD-DD-DD`: exactly ten characters, digits everywhere except the two
/// hyphens at offsets 4 and 7.
pub open spec fn iso_shape(s: Seq<char>) -> bool {
    &&& s.len() == 10
    &&& forall|i: int|
        0 <= i < 10 ==> if i == 4 || i == 7 {
            s[i] == '-'
        } else {
            is_ascii_digit(#[trigger] s[i])
        }
}

pub open spec fn iso_year(s: Seq<char>) -> int {
    1000 * digit_value(s[0]) + 100 * digit_value(s[1]) + 10 * digit_value(s[2]) + digit_value(
        s[3],
    )
}

pub open spec fn iso_month(s: Seq<char>) -> int {
    10 * digit_value(s[5]) + digit_value(s[6])
}

pub open spec fn iso_day(s: Seq<char>) -> int {
    10 * digit_value(s[8]) + digit_value(s[9])
}

/// The date a canonical `YYYY-MM-DD` text names, when it exists.
pub open spec fn iso_date(s: Seq<char>) -> Option<Date> {
    if iso_shape(s) && valid_ymd(iso_year(s), iso_month(s), iso_day(s)) {
        Some(Date { year: iso_year(s) as i32, month: iso_month(s) as u32, day: iso_day(s) as u32 })
    } else {
        None
    }
}

/// What chrono's `NaiveDate::parse_from_str(text, "%Y-%m-%d")` returns.
pub uninterp spec fn chrono_parse_ymd(text: Seq<char>) -> Option<Date>;

/// `NaiveDate::parse_from_str(raw, "%Y-%m-%d")`. Its result is named
/// `chrono_parse_ymd`; a date it returns exists. On a text of the exact shape
/// `DDDD-DD-DD` it returns the date those digits name, or nothing when that
/// date does not exist. What it accepts beyond that shape (chrono is lenient
/// about padding and signs) is left unsaid.
#[verifier::external_body]
pub(crate) fn chrono_parse_date(raw: &str) -> (r: Option<Date>)
    ensures
        r == chrono_parse_ymd(raw@),
        r matches Some(d) ==> d.valid(),
        iso_shape(raw@) ==> r == iso_date(raw@),
{
    match chrono::NaiveDate::parse_from_str(raw, "%Y-%m-%d") {
        Ok(n) => Some(Date { year: n.year(), month: n.month(), day: n.day() }),
        Err(_) => None,
    }
}

fn is_digit_char(c: char) -> (r: bool)
    ensures
        r == is_ascii_digit(c),
{
    '0' <= c && c <= '9'
}

/// Whether `raw` has the exact shape `DDDD-DD-DD`.
pub fn has_iso_shape(raw: &str) -> (r: bool)
    ensures
        r == iso_shape(raw@),
{
    let chars = crate::text::chars_of(raw);
    if chars.len() != ISO_DATE_LEN {
        return false;
    }
    let mut i: usize = 0;
    while i < ISO_DATE_LEN
        invariant
            chars@ == raw@,
            chars@.len() == 10,
            0 <= i <= 10,
            forall|k: int|
                0 <= k < i ==> if k == 4 || k == 7 {
                    chars@[k] == '-'
                } else {
                    is_ascii_digit(#[trigger] chars@[k])
                },
        decreases 10 - i,
    {
        let ok = if i == 4 || i == 7 {
            chars[i] == '-'
        } else {
            is_digit_char(chars[i])
        };
        if !ok {
            return false;
        }
        i += 1;
    }
    true
}

/// `<field> must be YYYY-MM-DD, got '<raw>'`.
pub open spec fn iso_date_message(field: Seq<char>, raw: Seq<char>) -> Seq<char> {
    field + " must be YYYY-MM-DD, got '"@ + raw + seq!['\'']
}

/// The text of the error `parse_iso_date` reports.
pub fn iso_date_error(field: &str, raw: &str) -> (r: AppError)
    ensures
        invalid_argument(r, iso_date_message(field@, raw@)),
{
    let mut s = concat(owned(field), " must be YYYY-MM-DD, got '");
    s = concat(s, raw);
    push_char(&mut s, '\'');
    assert(s@ =~= iso_date_message(field@, raw@));
    AppError::InvalidArgument(s)
}

/// Parse `raw` as a canonical `YYYY-MM-DD` calendar date; `field` names the
/// input in the error text.
pub fn parse_iso_date(field: &str, raw: &str) -> (r: AppResult<Date>)
    ensures
        match iso_date(raw@) {
            Some(d) => r == Ok::<Date, AppError>(d),
            None => r matches Err(e) && invalid_argument(e, iso_date_message(field@, raw@)),
        },
        r matches Ok(d) ==> d.valid(),
{
    let parsed = if has_iso_shape(raw) {
        chrono_parse_date(raw)
    } else {
        None
    };
    match parsed {
        Some(d) => Ok(d),
        None => Err(iso_date_error(field, raw)),
    }
}

// ---------------------------------------------------------------------------
// The canonical text and the date name each other
// ---------------------------------------------------------------------------

pub(crate) proof fn lemma_digit_char(k: int)
    requires
        0 <= k < 10,
    ensures
        is_ascii_digit(digit_char(k)),
        digit_value(digit_char(k)) == k,
{
}

proof fn lemma_char_of_digit(c: char)
    requires
        is_ascii_digit(c),
    ensures
        digit_char(digit_value(c)) == c,
{
}

/// `{:02}` of a number below 100 is its two digits.
pub(crate) proof fn lemma_two_digits(n: int)
    requires
        0 <= n < 100,
    ensures
        zero_padded(n, 2) == seq![digit_char(n / 10), digit_char(n % 10)],
{
    if n < 10 {
        assert(decimal_digits(n as nat) == seq![digit_char(n)]);
        assert(repeat_char('0', 1) =~= seq!['0']);
        assert(zero_padded(n, 2) =~= seq![digit_char(n / 10), digit_char(n % 10)]);
    } else {
        assert(decimal_digits((n / 10) as nat) == seq![digit_char(n / 10)]);
        assert(decimal_digits(n as nat) =~= seq![digit_char(n / 10), digit_char(n % 10)]);
    }
}

/// A year of four digits or fewer is written as exactly four digits.
pub(crate) proof fn lemma_four_digits(n: int)
    requires
        0 <= n <= 9999,
    ensures
        year_text(n) == seq![digit_char(n / 1000), digit_char((n / 100) % 10), digit_char((n / 10) % 10), digit_char(n % 10)],
{
    let want = seq![digit_char(n / 1000), digit_char((n / 100) % 10), digit_char((n / 10) % 10), digit_char(n % 10)];
    if n < 10 {
        assert(decimal_digits(n as nat) == seq![digit_char(n)]);
        assert(repeat_char('0', 3) =~= seq!['0', '0', '0']);
        assert(year_text(n) =~= want);
    } else if n < 100 {
        assert(decimal_digits((n / 10) as nat) == seq![digit_char(n / 10)]);
        assert(decimal_digits(n as nat) =~= seq![digit_char(n / 10), digit_char(n % 10)]);
        assert(repeat_char('0', 2) =~= seq!['0', '0']);
        assert(year_text(n) =~= want);
    } else if n < 1000 {
        assert(decimal_digits((n / 100) as nat) == seq![digit_char(n / 100)]);
        assert((n / 10) / 10 == n / 100);
        assert(decimal_digits((n / 10) as nat) =~= seq![digit_char(n / 100), digit_char((n / 10) % 10)]);
        assert(decimal_digits(n as nat) =~= seq![digit_char(n / 100), digit_char((n / 10) % 10), digit_char(n % 10)]);
        assert(repeat_char('0', 1) =~= seq!['0']);
        assert(year_text(n) =~= want);
    } else {
        assert(decimal_digits((n / 1000) as nat) == seq![digit_char(n / 1000)]);
        assert((n / 100) / 10 == n / 1000);
        assert((n / 10) / 10 == n / 100);
        assert(decimal_digits((n / 100) as nat) =~= seq![digit_char(n / 1000), digit_char((n / 100) % 10)]);
        assert(decimal_digits((n / 10) as nat) =~= seq![
            digit_char(n / 1000),
            digit_char((n / 100) % 10),
            digit_char((n / 10) % 10),
        ]);
        assert(decimal_digits(n as nat) =~= want);
        assert(year_text(n) =~= want);
    }
}

/// A date of the years 0 to 9999 written `YYYY-MM-DD` reads back as itself.
pub proof fn law_iso_text_round_trips(d: Date)
    requires
        d.valid(),
        0 <= d.year <= 9999,
    ensures
        iso_date(iso_text(d)) == Some(d),
{
    let y = d.y();
    let m = d.m();
    let day = d.d();
    lemma_four_digits(y);
    lemma_two_digits(m);
    lemma_two_digits(day);
    lemma_digit_char(y / 1000);
    lemma_digit_char((y / 100) % 10);
    lemma_digit_char((y / 10) % 10);
    lemma_digit_char(y % 10);
    lemma_digit_char(m / 10);
    lemma_digit_char(m % 10);
    lemma_digit_char(day / 10);
    lemma_digit_char(day % 10);
    let s = iso_text(d);
    assert(s =~= seq![
        digit_char(y / 1000),
        digit_char((y / 100) % 10),
        digit_char((y / 10) % 10),
        digit_char(y % 10),
        '-',
        digit_char(m / 10),
        digit_char(m % 10),
        '-',
        digit_char(day / 10),
        digit_char(day % 10),
    ]);
    assert(iso_shape(s));
    assert(iso_year(s) == y);
    assert(iso_month(s) == m);
    assert(iso_day(s) == day);
}

proof fn lemma_split_four(a: int, b: int, c: int, d: int)
    requires
        0 <= a <= 9,
        0 <= b <= 9,
        0 <= c <= 9,
        0 <= d <= 9,
    ensures
        ({
            let y = 1000 * a + 100 * b + 10 * c + d;
            &&& 0 <= y <= 9999
            &&& y / 1000 == a
            &&& (y / 100) % 10 == b
            &&& (y / 10) % 10 == c
            &&& y % 10 == d
        }),
{
    let y = 1000 * a + 100 * b + 10 * c + d;
    assert(y / 10 == 100 * a + 10 * b + c);
    assert(y / 100 == 10 * a + b);
}

proof fn lemma_split_two(a: int, b: int)
    requires
        0 <= a <= 9,
        0 <= b <= 9,
    ensures
        (10 * a + b) / 10 == a,
        (10 * a + b) % 10 == b,
{
}

/// The only text read as a given date is that date's canonical text.
pub proof fn law_accepted_text_is_canonical(s: Seq<char>)
    requires
        iso_date(s) is Some,
    ensures
        iso_text(iso_date(s)->0) == s,
{
    let d = iso_date(s)->0;
    assert(iso_shape(s));
    let a = digit_value(s[0]);
    let b = digit_value(s[1]);
    let c = digit_value(s[2]);
    let e = digit_value(s[3]);
    assert(is_ascii_digit(s[0]) && is_ascii_digit(s[1]) && is_ascii_digit(s[2]) && is_ascii_digit(s[3]));
    assert(is_ascii_digit(s[5]) && is_ascii_digit(s[6]) && is_ascii_digit(s[8]) && is_ascii_digit(s[9]));
    assert(s[4] == '-' && s[7] == '-');
    lemma_split_four(a, b, c, e);
    lemma_split_two(digit_value(s[5]), digit_value(s[6]));
    lemma_split_two(digit_value(s[8]), digit_value(s[9]));
    let y = iso_year(s);
    assert(d.y() == y);
    lemma_four_digits(y);
    lemma_two_digits(iso_month(s));
    lemma_two_digits(iso_day(s));
    lemma_char_of_digit(s[0]);
    lemma_char_of_digit(s[1]);
    lemma_char_of_digit(s[2]);
    lemma_char_of_digit(s[3]);
    lemma_char_of_digit(s[5]);
    lemma_char_of_digit(s[6]);
    lemma_char_of_digit(s[8]);
    lemma_char_of_digit(s[9]);
    assert(iso_text(d) =~= s);
}

} // verus!
