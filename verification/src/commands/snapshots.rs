//! Safety copies of the database taken right before an overwrite import:
//! their file names (`data.db.pre-import-<UTC stamp>[-n]`), their order, and
//! which of them pruning removes. A restored copy moves the live database
//! aside as `data.db.replaced-<UTC stamp>[-n]`.

use vstd::prelude::*;
use crate::domain::calendar::{Date, day_number, lemma_order_by_number, valid_ymd, year_text};
use crate::domain::date::{digit_value, is_ascii_digit};
use crate::error::{AppError, AppResult, invalid_argument};
use crate::infra::boot::{KEYCHAIN_ACCOUNT, KEYCHAIN_SERVICE, OsKeyStore};
use crate::text::{chars_of, concat, decimal, decimal_digits, digit_char, owned, push_char, push_decimal, push_zero_padded, string_from_chars, zero_padded};

verus! {

broadcast use vstd::string::group_string_axioms;

/// Prefix of a safety copy written right before an overwrite import.
pub const PRE_IMPORT_PREFIX: &'static str = "data.db.pre-import-";

/// Prefix the live database is renamed to when a safety copy is restored.
pub const REPLACED_PREFIX: &'static str = "data.db.replaced-";

/// Suffix of the staging file a restore builds beside `data.db`.
pub const RESTORING_SUFFIX: &'static str = ".restoring";

/// The key store entry the database key is read from.
pub fn os_keys() -> (r: OsKeyStore)
    ensures
        r.service@ == KEYCHAIN_SERVICE@,
        r.account@ == KEYCHAIN_ACCOUNT@,
{
    OsKeyStore { service: owned(KEYCHAIN_SERVICE), account: owned(KEYCHAIN_ACCOUNT) }
}

/// A path with `suffix` appended to its last component, as SQLite names its
/// side files (`data.db` and `-wal` give `data.db-wal`).
pub fn with_suffix(path: &str, suffix: &str) -> (r: String)
    ensures
        r@ == path@ + suffix@,
{
    concat(owned(path), suffix)
}

/// The SQLite side files that travel with a database file: its rollback
/// journal, write-ahead log and shared-memory index, in that order.
pub fn sidecar_paths(path: &str) -> (r: Vec<String>)
    ensures
        r@.len() == 3,
        r@[0]@ == path@ + "-journal"@,
        r@[1]@ == path@ + "-wal"@,
        r@[2]@ == path@ + "-shm"@,
{
    let mut v: Vec<String> = Vec::new();
    v.push(with_suffix(path, "-journal"));
    v.push(with_suffix(path, "-wal"));
    v.push(with_suffix(path, "-shm"));
    v
}

/// How many safety copies survive pruning.
pub const KEEP_NEWEST: usize = 3;

/// A UTC moment to the second, as calendar fields (`second` may be 60 for a
/// leap second).
#[derive(Debug, Clone, Copy, PartialEq, Eq, PartialOrd, Ord, Hash)]
pub struct StampTime {
    pub year: i32,
    pub month: u32,
    pub day: u32,
    pub hour: u32,
    pub minute: u32,
    pub second: u32,
}

/// `%Y%m%dT%H%M%SZ`.
pub open spec fn stamp_text(t: StampTime) -> Seq<char> {
    year_text(t.year as int) + zero_padded(t.month as int, 2) + zero_padded(t.day as int, 2) + seq!['T']
        + zero_padded(t.hour as int, 2) + zero_padded(t.minute as int, 2) + zero_padded(t.second as int, 2)
        + seq!['Z']
}

pub(crate) fn push_year(s: &mut String, year: i32)
    ensures
        final(s)@ == old(s)@ + year_text(year as int),
{
    let ghost before = s@;
    if 0 <= year && year <= 9999 {
        push_zero_padded(s, year as i64, 4);
    } else if year < 0 {
        push_char(s, '-');
        push_zero_padded(s, -(year as i64), 4);
    } else {
        push_char(s, '+');
        push_zero_padded(s, year as i64, 4);
    }
    assert(s@ =~= before + year_text(year as int));
}

/// The compact UTC stamp in a safety copy's name, such as `20260829T033045Z`.
pub fn stamp(now: StampTime) -> (r: String)
    ensures
        r@ == stamp_text(now),
{
    let mut s = String::new();
    push_year(&mut s, now.year);
    push_zero_padded(&mut s, now.month as i64, 2);
    push_zero_padded(&mut s, now.day as i64, 2);
    push_char(&mut s, 'T');
    push_zero_padded(&mut s, now.hour as i64, 2);
    push_zero_padded(&mut s, now.minute as i64, 2);
    push_zero_padded(&mut s, now.second as i64, 2);
    push_char(&mut s, 'Z');
    assert(s@ =~= stamp_text(now));
    s
}

/// RFC 3339 in UTC to the second: `YYYY-MM-DDTHH:MM:SSZ`.
pub open spec fn rfc3339_text(t: StampTime) -> Seq<char> {
    year_text(t.year as int) + seq!['-'] + zero_padded(t.month as int, 2) + seq!['-'] + zero_padded(t.day as int, 2)
        + seq!['T'] + zero_padded(t.hour as int, 2) + seq![':'] + zero_padded(t.minute as int, 2) + seq![':']
        + zero_padded(t.second as int, 2) + seq!['Z']
}

/// The moment as RFC 3339 in UTC with whole seconds.
pub fn rfc3339(t: StampTime) -> (r: String)
    ensures
        r@ == rfc3339_text(t),
{
    let mut s = String::new();
    push_year(&mut s, t.year);
    push_char(&mut s, '-');
    push_zero_padded(&mut s, t.month as i64, 2);
    push_char(&mut s, '-');
    push_zero_padded(&mut s, t.day as i64, 2);
    push_char(&mut s, 'T');
    push_zero_padded(&mut s, t.hour as i64, 2);
    push_char(&mut s, ':');
    push_zero_padded(&mut s, t.minute as i64, 2);
    push_char(&mut s, ':');
    push_zero_padded(&mut s, t.second as i64, 2);
    push_char(&mut s, 'Z');
    assert(s@ =~= rfc3339_text(t));
    s
}

/// `DDDDDDDDTDDDDDDZ`: sixteen characters, digits but for the `T` and the `Z`.
pub open spec fn is_stamp_shape(s: Seq<char>) -> bool {
    &&& s.len() == 16
    &&& forall|i: int| 0 <= i < 16 ==> if i == 8 {
        s[i] == 'T'
    } else if i == 15 {
        s[i] == 'Z'
    } else {
        is_ascii_digit(#[trigger] s[i])
    }
}

/// The number the digits `s[from..to]` spell.
pub open spec fn digits_at(s: Seq<char>, from: int, to: int) -> int
    decreases to - from,
{
    if to <= from {
        0
    } else {
        digits_at(s, from, to - 1) * 10 + digit_value(s[to - 1])
    }
}

/// The moment a stamp-shaped text spells.
pub open spec fn stamp_time(s: Seq<char>) -> StampTime {
    StampTime {
        year: digits_at(s, 0, 4) as i32,
        month: digits_at(s, 4, 6) as u32,
        day: digits_at(s, 6, 8) as u32,
        hour: digits_at(s, 9, 11) as u32,
        minute: digits_at(s, 11, 13) as u32,
        second: digits_at(s, 13, 15) as u32,
    }
}

/// The spelled moment exists: a real date, an hour below 24, a minute below
/// 60, and a second up to 60 (a leap second).
pub open spec fn stamp_fields_valid(s: Seq<char>) -> bool {
    &&& valid_ymd(digits_at(s, 0, 4), digits_at(s, 4, 6), digits_at(s, 6, 8))
    &&& digits_at(s, 9, 11) <= 23
    &&& digits_at(s, 11, 13) <= 59
    &&& digits_at(s, 13, 15) <= 60
}

/// Whether `s` is a stamp's shape (the `is_stamp` check).
pub fn is_stamp(s: &str) -> (r: bool)
    ensures
        r == is_stamp_shape(s@),
{
    let v = chars_of(s);
    if v.len() != 16 {
        return false;
    }
    let mut i: usize = 0;
    while i < 16
        invariant
            v@ == s@,
            v@.len() == 16,
            0 <= i <= 16,
            forall|k: int| 0 <= k < i ==> if k == 8 {
                v@[k] == 'T'
            } else if k == 15 {
                v@[k] == 'Z'
            } else {
                is_ascii_digit(#[trigger] v@[k])
            },
        decreases 16 - i,
    {
        let c = v[i];
        let ok = if i == 8 {
            c == 'T'
        } else if i == 15 {
            c == 'Z'
        } else {
            '0' <= c && c <= '9'
        };
        if !ok {
            return false;
        }
        i += 1;
    }
    true
}

/// `NaiveDateTime::parse_from_str(stamp, "%Y%m%dT%H%M%SZ").is_ok()` on a
/// stamp-shaped text. chrono reads the year from the first four digits and
/// two digits each for month, day, hour, minute and second, and accepts the
/// text exactly when the date exists, the hour is at most 23, the minute at
/// most 59 and the second at most 60 (60 being a leap second).
#[verifier::external_body]
fn chrono_accepts_stamp(stamp: &str) -> (r: bool)
    requires
        is_stamp_shape(stamp@),
    ensures
        r == stamp_fields_valid(stamp@),
{
    chrono::NaiveDateTime::parse_from_str(stamp, "%Y%m%dT%H%M%SZ").is_ok()
}

/// When a safety copy was taken, and its collision ordinal (`1` for the plain
/// name, `n` for the `-n` suffix).
#[derive(Debug, Clone, Copy, PartialEq, Eq, PartialOrd, Ord, Hash)]
pub struct SnapshotName {
    pub created_at: StampTime,
    pub ordinal: u32,
}

/// The number a text of decimal digits spells.
pub open spec fn digits_number(s: Seq<char>) -> int {
    digits_at(s, 0, s.len() as int)
}

/// The ordinal the text after a stamp encodes: nothing is `1`, `-n` is `n`
/// (at least 2, no leading zero, within `u32`). Anything else, such as a
/// SQLite side file's `-journal`, is none.
pub open spec fn ordinal_of(rest: Seq<char>) -> Option<u32> {
    if rest.len() == 0 {
        Some(1)
    } else if rest[0] != '-' {
        None
    } else {
        let digits = rest.subrange(1, rest.len() as int);
        if digits.len() == 0 || digits[0] == '0' || !(forall|i: int| 0 <= i < digits.len() ==> is_ascii_digit(#[trigger] digits[i])) {
            None
        } else if digits_number(digits) > u32::MAX || digits_number(digits) < 2 {
            None
        } else {
            Some(digits_number(digits) as u32)
        }
    }
}

proof fn lemma_digits_at_step(s: Seq<char>, from: int, to: int)
    requires
        from <= to,
    ensures
        digits_at(s, from, to + 1) == digits_at(s, from, to) * 10 + digit_value(s[to]),
{
}

proof fn lemma_digits_at_nonneg(s: Seq<char>, from: int, to: int)
    requires
        forall|i: int| from <= i < to ==> is_ascii_digit(#[trigger] s[i]),
    ensures
        digits_at(s, from, to) >= 0,
    decreases to - from,
{
    if to > from {
        lemma_digits_at_nonneg(s, from, to - 1);
    }
}

/// Parse the text after a stamp into its ordinal.
pub fn parse_ordinal(rest: &str) -> (r: Option<u32>)
    ensures
        r == ordinal_of(rest@),
{
    let v = chars_of(rest);
    if v.len() == 0 {
        return Some(1);
    }
    if v[0] != '-' {
        return None;
    }
    let ghost digits = rest@.subrange(1, rest@.len() as int);
    if v.len() == 1 || v[1] == '0' {
        return None;
    }
    let mut value: u64 = 0;
    let mut i: usize = 1;
    while i < v.len()
        invariant
            v@ == rest@,
            1 <= i <= v.len(),
            digits == rest@.subrange(1, rest@.len() as int),
            forall|k: int| 0 <= k < i - 1 ==> is_ascii_digit(#[trigger] digits[k]),
            value == digits_at(digits, 0, i - 1),
            value <= u32::MAX,
        decreases v.len() - i,
    {
        let c = v[i];
        if !('0' <= c && c <= '9') {
            assert(!is_ascii_digit(digits[i - 1]));
            return None;
        }
        proof {
            lemma_digits_at_step(digits, 0, i - 1);
        }
        let next = value * 10 + ((c as u32 - '0' as u32) as u64);
        if next > u32::MAX as u64 {
            proof {
                if forall|k: int| 0 <= k < digits.len() ==> is_ascii_digit(#[trigger] digits[k]) {
                    lemma_digits_at_bound(digits, i as int, digits.len() as int);
                }
            }
            return None;
        }
        value = next;
        i += 1;
    }
    if value < 2 {
        return None;
    }
    Some(value as u32)
}

/// Digits only grow the number they spell.
proof fn lemma_digits_at_bound(s: Seq<char>, mid: int, to: int)
    requires
        0 <= mid <= to,
        forall|k: int| 0 <= k < to ==> is_ascii_digit(#[trigger] s[k]),
    ensures
        digits_at(s, 0, to) >= digits_at(s, 0, mid),
    decreases to - mid,
{
    if mid < to {
        lemma_digits_at_bound(s, mid + 1, to);
        lemma_digits_at_nonneg(s, 0, mid);
    }
}

proof fn lemma_pow10_small(n: nat)
    requires
        n <= 4,
    ensures
        pow10_of(n) <= 10000,
{
    reveal_with_fuel(pow10_of, 5);
    if n == 0 {
    } else if n == 1 {
    } else if n == 2 {
    } else if n == 3 {
    } else {
    }
}

/// What a safety copy's file name says: `data.db.pre-import-<stamp>[-n]`.
/// Anything else, such as a name with a path separator, is none, so a name
/// that parses can be joined onto the data directory.
pub open spec fn snapshot_name_of(name: Seq<char>) -> Option<SnapshotName> {
    let prefix = PRE_IMPORT_PREFIX@;
    if name.len() < prefix.len() + 16 || name.subrange(0, prefix.len() as int) != prefix {
        None
    } else {
        let stamp = name.subrange(prefix.len() as int, prefix.len() + 16int);
        let tail = name.subrange(prefix.len() + 16int, name.len() as int);
        if !is_stamp_shape(stamp) {
            None
        } else {
            match ordinal_of(tail) {
                None => None,
                Some(ordinal) => if stamp_fields_valid(stamp) {
                    Some(SnapshotName { created_at: stamp_time(stamp), ordinal })
                } else {
                    None
                },
            }
        }
    }
}

fn digits_value(v: &[char], from: usize, to: usize) -> (r: u32)
    requires
        from <= to <= v.len(),
        to - from <= 4,
        forall|i: int| from <= i < to ==> is_ascii_digit(#[trigger] v@[i]),
    ensures
        r == digits_at(v@, from as int, to as int),
{
    let mut value: u32 = 0;
    let mut i = from;
    while i < to
        invariant
            from <= i <= to,
            to <= v.len(),
            to - from <= 4,
            forall|k: int| from <= k < to ==> is_ascii_digit(#[trigger] v@[k]),
            value == digits_at(v@, from as int, i as int),
            value < pow10_of((i - from) as nat),
        decreases to - i,
    {
        let d = (v[i] as u32) - ('0' as u32);
        proof {
            lemma_pow10_small((i + 1 - from) as nat);
        }
        assert(value * 10 + d < pow10_of((i + 1 - from) as nat)) by (nonlinear_arith)
            requires
                value < pow10_of((i - from) as nat),
                d < 10,
                pow10_of((i + 1 - from) as nat) == 10 * pow10_of((i - from) as nat);
        value = value * 10 + d;
        i += 1;
    }
    value
}

pub open spec fn pow10_of(n: nat) -> int
    decreases n,
{
    if n == 0 {
        1
    } else {
        10 * pow10_of((n - 1) as nat)
    }
}

/// Parse a safety copy's file name.
pub fn parse_snapshot_file_name(name: &str) -> (r: Option<SnapshotName>)
    ensures
        r == snapshot_name_of(name@),
{
    let v = chars_of(name);
    let prefix = chars_of(PRE_IMPORT_PREFIX);
    proof {
        reveal_strlit("data.db.pre-import-");
    }
    if v.len() < prefix.len() + 16 {
        return None;
    }
    let mut i: usize = 0;
    while i < prefix.len()
        invariant
            v@ == name@,
            prefix@ == PRE_IMPORT_PREFIX@,
            v.len() >= prefix.len() + 16,
            0 <= i <= prefix.len(),
            forall|k: int| 0 <= k < i ==> v@[k] == prefix@[k],
        decreases prefix.len() - i,
    {
        if v[i] != prefix[i] {
            assert(name@.subrange(0, prefix.len() as int)[i as int] != PRE_IMPORT_PREFIX@[i as int]);
            return None;
        }
        i += 1;
    }
    assert(name@.subrange(0, prefix.len() as int) =~= PRE_IMPORT_PREFIX@);
    let p = prefix.len();
    let stamp_chars = string_from_chars(&v.as_slice()[p..p + 16]);
    assert(stamp_chars@ =~= name@.subrange(p as int, p + 16));
    if !is_stamp(stamp_chars.as_str()) {
        return None;
    }
    let tail = string_from_chars(&v.as_slice()[p + 16..v.len()]);
    assert(tail@ =~= name@.subrange(p + 16, name@.len() as int));
    let ordinal = match parse_ordinal(tail.as_str()) {
        Some(o) => o,
        None => {
            return None;
        },
    };
    if !chrono_accepts_stamp(stamp_chars.as_str()) {
        return None;
    }
    let ghost s = stamp_chars@;
    let sv = chars_of(stamp_chars.as_str());
    proof {
        reveal_with_fuel(pow10_of, 5);
        assert(pow10_of(4) == 10000);
    }
    let year = digits_value(sv.as_slice(), 0, 4);
    let month = digits_value(sv.as_slice(), 4, 6);
    let day = digits_value(sv.as_slice(), 6, 8);
    let hour = digits_value(sv.as_slice(), 9, 11);
    let minute = digits_value(sv.as_slice(), 11, 13);
    let second = digits_value(sv.as_slice(), 13, 15);
    Some(SnapshotName {
        created_at: StampTime { year: year as i32, month, day, hour, minute, second },
        ordinal,
    })
}

// ---------------------------------------------------------------------------
// Choosing a new name
// ---------------------------------------------------------------------------

/// The ordinal of `name` as a copy named after `base`, if it is one.
pub open spec fn ordinal_after(name: Seq<char>, base: Seq<char>) -> Option<u32> {
    if name.len() >= base.len() && name.subrange(0, base.len() as int) == base {
        ordinal_of(name.subrange(base.len() as int, name.len() as int))
    } else {
        None
    }
}

/// The highest ordinal among the names after `base` (0 when there is none).
pub open spec fn highest_ordinal_of(names: Seq<String>, base: Seq<char>) -> u32
    decreases names.len(),
{
    if names.len() == 0 {
        0
    } else {
        let prev = highest_ordinal_of(names.drop_last(), base);
        match ordinal_after(names.last()@, base) {
            Some(o) => if o > prev { o } else { prev },
            None => prev,
        }
    }
}

/// `name` with the prefix `base` removed, if it starts with it.
fn strip_prefix(name: &str, base: &str) -> (r: Option<String>)
    ensures
        match r {
            Some(t) => name@.len() >= base@.len() && name@.subrange(0, base@.len() as int) == base@
                && t@ == name@.subrange(base@.len() as int, name@.len() as int),
            None => !(name@.len() >= base@.len() && name@.subrange(0, base@.len() as int) == base@),
        },
{
    let v = chars_of(name);
    let b = chars_of(base);
    if v.len() < b.len() {
        return None;
    }
    let mut i: usize = 0;
    while i < b.len()
        invariant
            v@ == name@,
            b@ == base@,
            v.len() >= b.len(),
            0 <= i <= b.len(),
            forall|k: int| 0 <= k < i ==> v@[k] == b@[k],
        decreases b.len() - i,
    {
        if v[i] != b[i] {
            assert(name@.subrange(0, base@.len() as int)[i as int] != base@[i as int]);
            return None;
        }
        i += 1;
    }
    assert(name@.subrange(0, base@.len() as int) =~= base@);
    let t = string_from_chars(&v.as_slice()[b.len()..v.len()]);
    assert(t@ =~= name@.subrange(base@.len() as int, name@.len() as int));
    Some(t)
}

/// The highest ordinal already used for `base_name` among the file names of
/// the data directory (0 when none). Pruning may have removed the plain name
/// while `-2` survives, and the next copy must still sort as the newest, so a
/// freed ordinal is never used again.
pub fn highest_ordinal(names: &[String], base_name: &str) -> (r: u32)
    ensures
        r == highest_ordinal_of(names@, base_name@),
{
    let mut best: u32 = 0;
    let mut i: usize = 0;
    while i < names.len()
        invariant
            0 <= i <= names.len(),
            best == highest_ordinal_of(names@.subrange(0, i as int), base_name@),
        decreases names.len() - i,
    {
        assert(names@.subrange(0, i + 1).drop_last() =~= names@.subrange(0, i as int));
        let found = match strip_prefix(names[i].as_str(), base_name) {
            Some(rest) => parse_ordinal(rest.as_str()),
            None => None,
        };
        match found {
            Some(o) => {
                if o > best {
                    best = o;
                }
            },
            None => {},
        }
        i += 1;
    }
    assert(names@.subrange(0, names.len() as int) =~= names@);
    best
}

/// The name for a new copy: `base` when no copy of that stamp exists, else
/// `base-n` with `n` one past the highest ordinal in use.
pub open spec fn next_name(base: Seq<char>, highest: u32) -> Seq<char> {
    if highest == 0 {
        base
    } else {
        base + seq!['-'] + decimal(if highest < u32::MAX { highest + 1 } else { highest as int })
    }
}

/// The file name of a new copy taken at `now` with `prefix`, given the names
/// already in the data directory.
pub fn unique_snapshot_name(names: &[String], prefix: &str, now: StampTime) -> (r: String)
    ensures
        r@ == next_name(prefix@ + stamp_text(now), highest_ordinal_of(names@, prefix@ + stamp_text(now))),
{
    let base = concat(owned(prefix), stamp(now).as_str());
    let highest = highest_ordinal(names, base.as_str());
    if highest == 0 {
        return base;
    }
    let n: u32 = if highest < u32::MAX {
        highest + 1
    } else {
        highest
    };
    let mut s = base;
    push_char(&mut s, '-');
    push_decimal(&mut s, n as i64);
    s
}

// ---------------------------------------------------------------------------
// Listing and pruning
// ---------------------------------------------------------------------------

/// A safety copy found in the data directory.
#[derive(Debug, Clone)]
pub struct SnapshotEntry {
    pub name: SnapshotName,
    pub file_name: String,
    pub size_bytes: u64,
}

/// A safety copy as the interface lists it.
#[derive(Debug, Clone, PartialEq, Eq)]
pub struct PreImportSnapshot {
    pub file_name: String,
    /// RFC 3339 in UTC, read from the file name's stamp.
    pub created_at: String,
    pub size_bytes: u64,
}

/// The moments in order, then the ordinal.
pub open spec fn time_before(a: StampTime, b: StampTime) -> bool {
    a.year < b.year || (a.year == b.year && (a.month < b.month || (a.month == b.month && (a.day < b.day
        || (a.day == b.day && (a.hour < b.hour || (a.hour == b.hour && (a.minute < b.minute || (a.minute
        == b.minute && a.second < b.second)))))))))
}

/// `a` was taken before `b`: an earlier stamp, or the same stamp with a lower ordinal.
pub open spec fn name_before(a: SnapshotName, b: SnapshotName) -> bool {
    time_before(a.created_at, b.created_at) || (a.created_at == b.created_at && a.ordinal < b.ordinal)
}

/// The moment exists: a real date, an hour below 24, a minute below 60 and a
/// second up to 60 (a leap second).
pub open spec fn moment_exists(t: StampTime) -> bool {
    &&& valid_ymd(t.year as int, t.month as int, t.day as int)
    &&& t.hour <= 23
    &&& t.minute <= 59
    &&& t.second <= 60
}

/// Half-seconds elapsed since the start of day 1 of the calendar. A leap
/// second (`60`) falls between second 59 and the next minute, as chrono
/// orders it.
pub open spec fn half_seconds(t: StampTime) -> int {
    let secs = day_number(t.year as int, t.month as int, t.day as int) * 86400 + t.hour * 3600 + t.minute * 60
        + if t.second >= 60 { 59int } else { t.second as int };
    secs * 2 + if t.second >= 60 { 1int } else { 0int }
}

/// Stamps are ordered by when they were taken: one stamp comes before
/// another exactly when its moment is earlier, so a later month is always
/// newer whatever the days, and a later day whatever the hours.
pub proof fn law_stamp_order_is_chronological(a: StampTime, b: StampTime)
    requires
        moment_exists(a),
        moment_exists(b),
    ensures
        time_before(a, b) <==> half_seconds(a) < half_seconds(b),
        a == b <==> half_seconds(a) == half_seconds(b),
{
    let da = Date { year: a.year, month: a.month, day: a.day };
    let db = Date { year: b.year, month: b.month, day: b.day };
    lemma_order_by_number(da, db);
    let na = day_number(a.year as int, a.month as int, a.day as int);
    let nb = day_number(b.year as int, b.month as int, b.day as int);
    assert(na == da.num() && nb == db.num());
    let ra = a.hour * 3600 + a.minute * 60 + if a.second >= 60 { 59int } else { a.second as int };
    let rb = b.hour * 3600 + b.minute * 60 + if b.second >= 60 { 59int } else { b.second as int };
    assert(0 <= ra < 86400 && 0 <= rb < 86400);
    assert(half_seconds(a) == (na * 86400 + ra) * 2 + if a.second >= 60 { 1int } else { 0int });
    assert(half_seconds(b) == (nb * 86400 + rb) * 2 + if b.second >= 60 { 1int } else { 0int });
    if na < nb {
        assert(na * 86400 + 86400 <= nb * 86400);
    } else if nb < na {
        assert(nb * 86400 + 86400 <= na * 86400);
    }
}

fn is_before(a: &SnapshotName, b: &SnapshotName) -> (r: bool)
    ensures
        r == name_before(*a, *b),
{
    let x = &a.created_at;
    let y = &b.created_at;
    let earlier = x.year < y.year || (x.year == y.year && (x.month < y.month || (x.month == y.month && (x.day
        < y.day || (x.day == y.day && (x.hour < y.hour || (x.hour == y.hour && (x.minute < y.minute || (
    x.minute == y.minute && x.second < y.second)))))))));
    let same = x.year == y.year && x.month == y.month && x.day == y.day && x.hour == y.hour && x.minute
        == y.minute && x.second == y.second;
    earlier || (same && a.ordinal < b.ordinal)
}

/// Where `x` goes in a list kept newest first: after every entry not older
/// than it, so that equal names keep their order.
pub open spec fn insert_position(sorted: Seq<SnapshotEntry>, x: SnapshotEntry) -> int
    decreases sorted.len(),
{
    if sorted.len() == 0 {
        0
    } else if name_before(sorted.last().name, x.name) {
        insert_position(sorted.drop_last(), x)
    } else {
        sorted.len() as int
    }
}

/// The entries newest first; entries with equal names keep their order.
pub open spec fn newest_first_of(entries: Seq<SnapshotEntry>) -> Seq<SnapshotEntry>
    decreases entries.len(),
{
    if entries.len() == 0 {
        seq![]
    } else {
        let sorted = newest_first_of(entries.drop_last());
        sorted.insert(insert_position(sorted, entries.last()), entries.last())
    }
}

proof fn lemma_insert_position(sorted: Seq<SnapshotEntry>, x: SnapshotEntry)
    ensures
        0 <= insert_position(sorted, x) <= sorted.len(),
    decreases sorted.len(),
{
    if sorted.len() > 0 {
        lemma_insert_position(sorted.drop_last(), x);
    }
}

/// Sort the safety copies newest first.
pub fn newest_first(entries: Vec<SnapshotEntry>) -> (r: Vec<SnapshotEntry>)
    ensures
        r@ == newest_first_of(entries@),
{
    let mut out: Vec<SnapshotEntry> = Vec::new();
    let mut rest = entries;
    let ghost all = rest@;
    let total = rest.len();
    let mut consumed: usize = 0;
    let mut reversed: Vec<SnapshotEntry> = Vec::new();
    while rest.len() > 0
        invariant
            reversed@.len() + rest@.len() == all.len(),
            all.len() == total,
            forall|k: int| 0 <= k < rest@.len() ==> rest@[k] == all[k],
            forall|k: int| 0 <= k < reversed@.len() ==> reversed@[k] == all[all.len() - 1 - k],
        decreases rest.len(),
    {
        let x = rest.pop().unwrap();
        reversed.push(x);
    }
    while reversed.len() > 0
        invariant
            consumed + reversed@.len() == all.len(),
            all.len() == total,
            forall|k: int| 0 <= k < reversed@.len() ==> reversed@[k] == all[all.len() - 1 - k],
            out@ == newest_first_of(all.subrange(0, consumed as int)),
        decreases reversed.len(),
    {
        let x = reversed.pop().unwrap();
        assert(x == all[consumed as int]);
        let ghost sorted = out@;
        let mut pos = out.len();
        assert(sorted.subrange(0, pos as int) =~= sorted);
        while pos > 0 && is_before(&out[pos - 1].name, &x.name)
            invariant
                0 <= pos <= out.len(),
                out@ == sorted,
                insert_position(sorted, x) == insert_position(sorted.subrange(0, pos as int), x),
            decreases pos,
        {
            assert(sorted.subrange(0, pos as int).drop_last() =~= sorted.subrange(0, pos - 1));
            pos -= 1;
        }
        proof {
            assert(sorted.subrange(0, out@.len() as int) =~= sorted);
        }
        out.insert(pos, x);
        proof {
            let pre = all.subrange(0, consumed + 1);
            assert(pre.drop_last() =~= all.subrange(0, consumed as int));
            assert(pre.last() == x);
        }
        consumed += 1;
    }
    assert(all.subrange(0, all.len() as int) =~= all);
    out
}

/// How the interface shows a safety copy.
pub fn describe(entry: &SnapshotEntry) -> (r: PreImportSnapshot)
    ensures
        r.file_name@ == entry.file_name@,
        r.created_at@ == rfc3339_text(entry.name.created_at),
        r.size_bytes == entry.size_bytes,
{
    PreImportSnapshot {
        file_name: owned(entry.file_name.as_str()),
        created_at: rfc3339(entry.name.created_at),
        size_bytes: entry.size_bytes,
    }
}

/// The safety copies listed newest first.
pub fn list_snapshots(entries: Vec<SnapshotEntry>) -> (r: Vec<PreImportSnapshot>)
    ensures
        r.len() == entries.len(),
        forall|k: int| 0 <= k < r.len() ==> {
            let e = #[trigger] newest_first_of(entries@)[k];
            &&& r@[k].file_name@ == e.file_name@
            &&& r@[k].created_at@ == rfc3339_text(e.name.created_at)
            &&& r@[k].size_bytes == e.size_bytes
        },
{
    let ghost n = entries@.len();
    let sorted = newest_first(entries);
    proof {
        lemma_newest_first_len(entries@);
    }
    let mut out: Vec<PreImportSnapshot> = Vec::new();
    let mut i: usize = 0;
    while i < sorted.len()
        invariant
            0 <= i <= sorted.len(),
            out.len() == i,
            forall|k: int| 0 <= k < i ==> {
                let e = #[trigger] sorted@[k];
                &&& out@[k].file_name@ == e.file_name@
                &&& out@[k].created_at@ == rfc3339_text(e.name.created_at)
                &&& out@[k].size_bytes == e.size_bytes
            },
        decreases sorted.len() - i,
    {
        out.push(describe(&sorted[i]));
        i += 1;
    }
    out
}

proof fn lemma_newest_first_len(entries: Seq<SnapshotEntry>)
    ensures
        newest_first_of(entries).len() == entries.len(),
    decreases entries.len(),
{
    if entries.len() > 0 {
        lemma_newest_first_len(entries.drop_last());
        lemma_insert_position(newest_first_of(entries.drop_last()), entries.last());
    }
}

/// The file names pruning removes: every copy but the newest `keep`.
pub fn pruned_names(entries: Vec<SnapshotEntry>, keep: usize) -> (r: Vec<String>)
    ensures
        r@.len() == (if entries@.len() > keep { entries@.len() - keep } else { 0 }),
        forall|k: int| 0 <= k < r@.len() ==> (#[trigger] r@[k])@ == newest_first_of(entries@)[keep + k].file_name@,
{
    let sorted = newest_first(entries);
    proof {
        lemma_newest_first_len(entries@);
    }
    let mut out: Vec<String> = Vec::new();
    let mut i: usize = keep;
    while i < sorted.len()
        invariant
            keep <= i <= (if sorted.len() > keep { sorted.len() } else { keep }),
            out.len() == i - keep,
            forall|k: int| 0 <= k < out@.len() ==> (#[trigger] out@[k])@ == sorted@[keep + k].file_name@,
        decreases sorted.len() - i,
    {
        out.push(owned(sorted[i].file_name.as_str()));
        i += 1;
    }
    out
}

/// A restore accepts only a safety copy's name, since the name comes from the
/// interface and is joined onto the data directory.
pub fn check_restore_name(file_name: &str) -> (r: AppResult<SnapshotName>)
    ensures
        match snapshot_name_of(file_name@) {
            Some(n) => r == Ok::<SnapshotName, AppError>(n),
            None => r matches Err(e) && invalid_argument(e, seq!['\''] + file_name@ + "' is not a pre-import snapshot name"@),
        },
{
    match parse_snapshot_file_name(file_name) {
        Some(n) => Ok(n),
        None => {
            let mut s = String::new();
            push_char(&mut s, '\'');
            let s = concat(s, file_name);
            let s = concat(s, "' is not a pre-import snapshot name");
            Err(AppError::InvalidArgument(s))
        },
    }
}

/// `s` runs newest first: no entry is older than one after it.
pub open spec fn runs_newest_first(s: Seq<SnapshotEntry>) -> bool {
    forall|k: int, l: int| 0 <= k < l < s.len() ==> !name_before(#[trigger] s[k].name, #[trigger] s[l].name)
}

proof fn lemma_insert_position_facts(sorted: Seq<SnapshotEntry>, x: SnapshotEntry)
    ensures
        forall|k: int| insert_position(sorted, x) <= k < sorted.len() ==> name_before(#[trigger] sorted[k].name, x.name),
        insert_position(sorted, x) > 0 ==> !name_before(sorted[insert_position(sorted, x) - 1].name, x.name),
    decreases sorted.len(),
{
    if sorted.len() > 0 {
        let rest = sorted.drop_last();
        lemma_insert_position_facts(rest, x);
        lemma_insert_position(rest, x);
        assert forall|k: int| 0 <= k < rest.len() implies rest[k] == sorted[k] by {}
    }
}

/// The listing of safety copies runs newest first, and sorting loses no copy
/// and adds none.
pub proof fn law_newest_first_is_sorted(entries: Seq<SnapshotEntry>)
    ensures
        runs_newest_first(newest_first_of(entries)),
        newest_first_of(entries).to_multiset() == entries.to_multiset(),
    decreases entries.len(),
{
    if entries.len() > 0 {
        let rest = entries.drop_last();
        let x = entries.last();
        law_newest_first_is_sorted(rest);
        let sorted = newest_first_of(rest);
        let p = insert_position(sorted, x);
        lemma_insert_position(sorted, x);
        lemma_insert_position_facts(sorted, x);
        let out = sorted.insert(p, x);
        assert forall|k: int, l: int| 0 <= k < l < out.len() implies !name_before(#[trigger] out[k].name, #[trigger] out[l].name) by {
            if l < p {
                assert(out[k] == sorted[k] && out[l] == sorted[l]);
            } else if l == p {
                assert(out[k] == sorted[k]);
                assert(out[l] == x);
                if k < p - 1 {
                    assert(!name_before(sorted[k].name, sorted[p - 1].name));
                }
            } else if k < p {
                assert(out[k] == sorted[k] && out[l] == sorted[l - 1]);
            } else if k == p {
                assert(out[k] == x && out[l] == sorted[l - 1]);
            } else {
                assert(out[k] == sorted[k - 1] && out[l] == sorted[l - 1]);
            }
        }
        vstd::seq_lib::to_multiset_insert(sorted, p, x);
        assert(entries =~= rest.push(x));
        vstd::seq_lib::to_multiset_build(rest, x);
    } else {
        assert(entries =~= Seq::<SnapshotEntry>::empty());
        assert(newest_first_of(entries) =~= Seq::<SnapshotEntry>::empty());
    }
}

// ---------------------------------------------------------------------------
// A new copy sorts after every copy of its stamp
// ---------------------------------------------------------------------------

proof fn lemma_digits_at_prefix(s: Seq<char>, t: Seq<char>, to: int)
    requires
        0 <= to <= s.len(),
        to <= t.len(),
        forall|i: int| 0 <= i < to ==> s[i] == t[i],
    ensures
        digits_at(s, 0, to) == digits_at(t, 0, to),
    decreases to,
{
    if to > 0 {
        lemma_digits_at_prefix(s, t, to - 1);
    }
}

/// `{}` of a positive number: digits, no leading zero, spelling the number.
proof fn lemma_decimal_reads_back(n: nat)
    requires
        n >= 1,
    ensures
        decimal_digits(n).len() >= 1,
        decimal_digits(n)[0] != '0',
        forall|i: int| 0 <= i < decimal_digits(n).len() ==> is_ascii_digit(#[trigger] decimal_digits(n)[i]),
        digits_number(decimal_digits(n)) == n,
    decreases n,
{
    let s = decimal_digits(n);
    if n < 10 {
        assert(s == seq![digit_char(n as int)]);
        assert(digits_at(s, 0, 0) == 0);
    } else {
        let t = decimal_digits(n / 10);
        lemma_decimal_reads_back(n / 10);
        assert(s == t.push(digit_char((n % 10) as int)));
        lemma_digits_at_prefix(s, t, t.len() as int);
        assert(digits_at(s, 0, s.len() as int) == digits_at(s, 0, t.len() as int) * 10 + digit_value(s[t.len() as int]));
    }
}

/// Every ordinal among the names is at most the highest one.
proof fn lemma_highest_bounds(names: Seq<String>, base: Seq<char>, k: int)
    requires
        0 <= k < names.len(),
        ordinal_after(names[k]@, base) is Some,
    ensures
        ordinal_after(names[k]@, base)->0 <= highest_ordinal_of(names, base),
    decreases names.len(),
{
    if k < names.len() - 1 {
        assert(names.drop_last()[k] == names[k]);
        lemma_highest_bounds(names.drop_last(), base, k);
    }
}

/// The name a new copy gets is read back as a copy of the same stamp whose
/// ordinal is greater than that of every copy of that stamp already in the
/// directory, so it sorts as the newest even after older ones were pruned.
pub proof fn law_new_copy_sorts_newest(names: Seq<String>, base: Seq<char>)
    requires
        highest_ordinal_of(names, base) < u32::MAX,
    ensures
        ({
            let fresh = next_name(base, highest_ordinal_of(names, base));
            &&& ordinal_after(fresh, base) is Some
            &&& forall|k: int| 0 <= k < names.len() && (#[trigger] ordinal_after(names[k]@, base)) is Some
                ==> ordinal_after(names[k]@, base)->0 < ordinal_after(fresh, base)->0
        }),
{
    let h = highest_ordinal_of(names, base);
    let fresh = next_name(base, h);
    assert(fresh.subrange(0, base.len() as int) =~= base);
    if h == 0 {
        assert(fresh.subrange(base.len() as int, fresh.len() as int) =~= Seq::<char>::empty());
        assert(ordinal_after(fresh, base) == Some(1u32));
    } else {
        let n = (h + 1) as nat;
        lemma_decimal_reads_back(n);
        let rest = fresh.subrange(base.len() as int, fresh.len() as int);
        assert(rest =~= seq!['-'] + decimal_digits(n));
        assert(rest.subrange(1, rest.len() as int) =~= decimal_digits(n));
        assert(ordinal_after(fresh, base) == Some(n as u32));
    }
    assert forall|k: int| 0 <= k < names.len() && (#[trigger] ordinal_after(names[k]@, base)) is Some
        implies ordinal_after(names[k]@, base)->0 < ordinal_after(fresh, base)->0 by {
        lemma_highest_bounds(names, base, k);
        if h == 0 {
            let o = ordinal_after(names[k]@, base)->0;
            assert(o <= 0);
            let rest = names[k]@.subrange(base.len() as int, names[k]@.len() as int);
            assert(ordinal_of(rest) is Some);
            assert(o >= 1);
        }
    }
}

} // verus!
