//! Schema migrations: reading a migration's version from its file name,
//! putting them in order, the stored schema version, and the error texts.

use vstd::prelude::*;
use crate::domain::date::{digit_value, is_ascii_digit};
use crate::error::{AppError, AppResult};
use crate::text::{chars_of, concat, decimal, owned, push_char, push_zero_padded, string_from_chars, zero_padded};

verus! {

broadcast use vstd::string::group_string_axioms;

/// A migration: its version, its name, and its SQL.
#[derive(Debug, Clone)]
pub struct Migration {
    pub version: u32,
    pub name: String,
    pub sql: String,
}

/// The number a run of decimal digits spells.
pub open spec fn digits_number(s: Seq<char>) -> int
    decreases s.len(),
{
    if s.len() == 0 {
        0
    } else {
        digits_number(s.drop_last()) * 10 + digit_value(s.last())
    }
}

pub open spec fn all_digits(s: Seq<char>) -> bool {
    forall|i: int| 0 <= i < s.len() ==> is_ascii_digit(#[trigger] s[i])
}

/// What `str::parse::<u32>` accepts: an optional `+`, then at least one
/// decimal digit, with a value that fits in `u32`.
pub open spec fn u32_of(s: Seq<char>) -> Option<u32> {
    let digits = if s.len() > 0 && s[0] == '+' { s.subrange(1, s.len() as int) } else { s };
    if digits.len() > 0 && all_digits(digits) && digits_number(digits) <= u32::MAX {
        Some(digits_number(digits) as u32)
    } else {
        None
    }
}

proof fn lemma_digits_number_grows(s: Seq<char>, k: int)
    requires
        0 <= k <= s.len(),
        all_digits(s),
    ensures
        digits_number(s) >= digits_number(s.subrange(0, k)) >= 0,
    decreases s.len() - k,
{
    if k < s.len() {
        lemma_digits_number_grows(s, k + 1);
        assert(s.subrange(0, k + 1).drop_last() =~= s.subrange(0, k));
    } else {
        assert(s.subrange(0, k) =~= s);
    }
    lemma_digits_number_nonneg(s.subrange(0, k));
}

proof fn lemma_digits_number_nonneg(s: Seq<char>)
    requires
        all_digits(s),
    ensures
        digits_number(s) >= 0,
    decreases s.len(),
{
    if s.len() > 0 {
        lemma_digits_number_nonneg(s.drop_last());
    }
}

/// `s.parse::<u32>()`, as an option.
pub fn parse_u32(s: &str) -> (r: Option<u32>)
    ensures
        r == u32_of(s@),
{
    let v = chars_of(s);
    let start: usize = if v.len() > 0 && v[0] == '+' { 1 } else { 0 };
    let ghost digits = if s@.len() > 0 && s@[0] == '+' { s@.subrange(1, s@.len() as int) } else { s@ };
    assert(digits =~= s@.subrange(start as int, s@.len() as int));
    if start == v.len() {
        return None;
    }
    let mut value: u64 = 0;
    let mut i = start;
    while i < v.len()
        invariant
            v@ == s@,
            start <= i <= v.len(),
            digits =~= s@.subrange(start as int, s@.len() as int),
            digits == (if s@.len() > 0 && s@[0] == '+' { s@.subrange(1, s@.len() as int) } else { s@ }),
            all_digits(digits.subrange(0, i - start)),
            value == digits_number(digits.subrange(0, i - start)),
            value <= u32::MAX,
        decreases v.len() - i,
    {
        let c = v[i];
        if !('0' <= c && c <= '9') {
            assert(!is_ascii_digit(digits[i - start]));
            assert(!all_digits(digits));
            return None;
        }
        let ghost pre = digits.subrange(0, i - start);
        let ghost next = digits.subrange(0, i + 1 - start);
        assert(next.drop_last() =~= pre);
        let next_value = value * 10 + ((c as u32 - '0' as u32) as u64);
        assert(next.last() == c);
        assert(next_value == digits_number(next));
        if next_value > 0xffff_ffff {
            proof {
                if all_digits(digits) {
                    lemma_digits_number_grows(digits, i + 1 - start);
                }
            }
            return None;
        }
        value = next_value;
        i += 1;
    }
    assert(digits.subrange(0, v.len() - start) =~= digits);
    Some(value as u32)
}

/// The parts of a migration's file stem `V<version>__<name>`.
pub open spec fn stem_parts(stem: Seq<char>) -> Result<(u32, Seq<char>), Seq<char>> {
    if stem.len() == 0 || stem[0] != 'V' {
        Err("filename must start with V: "@ + stem)
    } else {
        let rest = stem.subrange(1, stem.len() as int);
        match first_double_underscore(rest) {
            None => Err("filename must contain __: "@ + stem),
            Some(p) => match u32_of(rest.subrange(0, p)) {
                None => Err("bad version in "@ + stem),
                Some(v) => Ok((v, rest.subrange(p + 2, rest.len() as int))),
            },
        }
    }
}

/// `s` has `__` at `i`.
pub open spec fn underscores_at(s: Seq<char>, i: int) -> bool {
    0 <= i < s.len() - 1 && s[i] == '_' && s[i + 1] == '_'
}

/// Where `__` first occurs in `s`.
pub open spec fn first_double_underscore(s: Seq<char>) -> Option<int> {
    if exists|i: int| #[trigger] underscores_at(s, i) {
        Some(choose|i: int| #[trigger] underscores_at(s, i) && forall|j: int| 0 <= j < i ==> !underscores_at(s, j))
    } else {
        None
    }
}

/// Read a migration's version and name from its file stem.
pub fn parse_migration_stem(stem: &str) -> (r: AppResult<(u32, String)>)
    ensures
        match stem_parts(stem@) {
            Ok((v, name)) => r matches Ok((rv, rn)) && rv == v && rn@ == name,
            Err(m) => r matches Err(AppError::Migration(t)) && t@ == m,
        },
{
    let v = chars_of(stem);
    if v.len() == 0 || v[0] != 'V' {
        return Err(AppError::Migration(concat(owned("filename must start with V: "), stem)));
    }
    let ghost rest = stem@.subrange(1, stem@.len() as int);
    let mut p: usize = 1;
    while p < v.len() - 1 && !(v[p] == '_' && v[p + 1] == '_')
        invariant
            v@ == stem@,
            1 <= p <= v.len(),
            rest == stem@.subrange(1, stem@.len() as int),
            forall|j: int| 0 <= j < p - 1 ==> !#[trigger] underscores_at(rest, j),
        decreases v.len() - p,
    {
        p += 1;
    }
    if p >= v.len() - 1 {
        proof {
            assert(!exists|i: int| #[trigger] underscores_at(rest, i));
        }
        return Err(AppError::Migration(concat(owned("filename must contain __: "), stem)));
    }
    proof {
        let q = (p - 1) as int;
        assert(underscores_at(rest, q));
        let c = choose|i: int| #[trigger] underscores_at(rest, i) && forall|j: int| 0 <= j < i ==> !underscores_at(rest, j);
        if c < q {
            assert(!underscores_at(rest, c));
        }
        if q < c {
            assert(!underscores_at(rest, q));
        }
        assert(first_double_underscore(rest) == Some(q as int));
    }
    let num = string_from_chars(&v.as_slice()[1..p]);
    assert(num@ =~= rest.subrange(0, p - 1));
    let version = match parse_u32(num.as_str()) {
        Some(n) => n,
        None => {
            return Err(AppError::Migration(concat(owned("bad version in "), stem)));
        },
    };
    let name = string_from_chars(&v.as_slice()[p + 2..v.len()]);
    assert(name@ =~= rest.subrange(p + 1, rest.len() as int));
    Ok((version, name))
}

/// Where a migration goes in a list ordered by version: after every
/// migration of a version not above its own, so that equals keep their order.
pub open spec fn version_position(sorted: Seq<Migration>, m: Migration) -> int
    decreases sorted.len(),
{
    if sorted.len() == 0 {
        0
    } else if sorted.last().version > m.version {
        version_position(sorted.drop_last(), m)
    } else {
        sorted.len() as int
    }
}

/// The migrations ordered by version; equal versions keep their order.
pub open spec fn by_version(ms: Seq<Migration>) -> Seq<Migration>
    decreases ms.len(),
{
    if ms.len() == 0 {
        seq![]
    } else {
        let sorted = by_version(ms.drop_last());
        sorted.insert(version_position(sorted, ms.last()), ms.last())
    }
}

proof fn lemma_version_position(sorted: Seq<Migration>, m: Migration)
    ensures
        0 <= version_position(sorted, m) <= sorted.len(),
        forall|k: int| version_position(sorted, m) <= k < sorted.len() ==> #[trigger] sorted[k].version > m.version,
        version_position(sorted, m) > 0 ==> sorted[version_position(sorted, m) - 1].version <= m.version,
    decreases sorted.len(),
{
    if sorted.len() > 0 {
        lemma_version_position(sorted.drop_last(), m);
        assert forall|k: int| 0 <= k < sorted.len() - 1 implies sorted.drop_last()[k] == sorted[k] by {}
    }
}

/// `by_version` orders by version and keeps every migration.
pub proof fn lemma_by_version(ms: Seq<Migration>)
    ensures
        by_version(ms).len() == ms.len(),
        forall|k: int, l: int| 0 <= k < l < ms.len() ==> (#[trigger] by_version(ms)[k]).version <= (#[trigger] by_version(ms)[l]).version,
        by_version(ms).to_multiset() == ms.to_multiset(),
    decreases ms.len(),
{
    if ms.len() == 0 {
        assert(by_version(ms) =~= ms);
    } else {
        let rest = ms.drop_last();
        let x = ms.last();
        lemma_by_version(rest);
        let sorted = by_version(rest);
        let p = version_position(sorted, x);
        lemma_version_position(sorted, x);
        let out = sorted.insert(p, x);
        assert forall|k: int, l: int| 0 <= k < l < out.len() implies (#[trigger] out[k]).version <= (#[trigger] out[l]).version by {
            if l < p {
                assert(out[k] == sorted[k] && out[l] == sorted[l]);
            } else if l == p {
                assert(out[k] == sorted[k]);
                if k < p - 1 {
                    assert(sorted[k].version <= sorted[p - 1].version);
                }
            } else if k < p {
                assert(out[k] == sorted[k] && out[l] == sorted[l - 1]);
            } else if k == p {
                assert(out[l] == sorted[l - 1]);
            } else {
                assert(out[k] == sorted[k - 1] && out[l] == sorted[l - 1]);
            }
        }
        vstd::seq_lib::to_multiset_insert(sorted, p, x);
        assert(ms =~= rest.push(x));
        vstd::seq_lib::to_multiset_build(rest, x);
    }
}

/// The first version two neighbouring migrations share, in order.
pub open spec fn first_duplicate(sorted: Seq<Migration>) -> Option<u32>
    decreases sorted.len(),
{
    if sorted.len() < 2 {
        None
    } else {
        match first_duplicate(sorted.drop_last()) {
            Some(v) => Some(v),
            None => if sorted[sorted.len() - 2].version == sorted.last().version {
                Some(sorted.last().version)
            } else {
                None
            },
        }
    }
}

pub open spec fn duplicate_message(v: u32) -> Seq<char> {
    "duplicate migration version: V"@ + zero_padded(v as int, 3)
}

/// Order the migrations by version and refuse two of the same version.
pub fn order_migrations(ms: Vec<Migration>) -> (r: AppResult<Vec<Migration>>)
    ensures
        match first_duplicate(by_version(ms@)) {
            Some(v) => r matches Err(AppError::Migration(t)) && t@ == duplicate_message(v),
            None => r matches Ok(sorted) && sorted@ == by_version(ms@),
        },
{
    let ghost all = ms@;
    let total = ms.len();
    let mut rest = ms;
    let mut reversed: Vec<Migration> = Vec::new();
    while rest.len() > 0
        invariant
            reversed@.len() + rest@.len() == all.len(),
            all.len() == total,
            all == ms@,
            forall|k: int| 0 <= k < rest@.len() ==> rest@[k] == all[k],
            forall|k: int| 0 <= k < reversed@.len() ==> reversed@[k] == all[all.len() - 1 - k],
        decreases rest.len(),
    {
        let x = rest.pop().unwrap();
        reversed.push(x);
    }
    let mut sorted: Vec<Migration> = Vec::new();
    let mut consumed: usize = 0;
    while reversed.len() > 0
        invariant
            consumed + reversed@.len() == all.len(),
            all.len() == total,
            all == ms@,
            forall|k: int| 0 <= k < reversed@.len() ==> reversed@[k] == all[all.len() - 1 - k],
            sorted@ == by_version(all.subrange(0, consumed as int)),
        decreases reversed.len(),
    {
        let x = reversed.pop().unwrap();
        let ghost before = sorted@;
        let mut pos = sorted.len();
        assert(before.subrange(0, pos as int) =~= before);
        while pos > 0 && sorted[pos - 1].version > x.version
            invariant
                0 <= pos <= sorted.len(),
                sorted@ == before,
                version_position(before, x) == version_position(before.subrange(0, pos as int), x),
            decreases pos,
        {
            assert(before.subrange(0, pos as int).drop_last() =~= before.subrange(0, pos - 1));
            pos -= 1;
        }
        sorted.insert(pos, x);
        proof {
            let pre = all.subrange(0, consumed + 1);
            assert(pre.drop_last() =~= all.subrange(0, consumed as int));
        }
        consumed += 1;
    }
    assert(all.subrange(0, all.len() as int) =~= all);
    if sorted.len() == 0 {
        return Ok(sorted);
    }
    let mut i: usize = 1;
    while i < sorted.len()
        invariant
            1 <= i <= sorted.len(),
            sorted@ == by_version(all),
            all == ms@,
            first_duplicate(sorted@.subrange(0, i as int)) is None,
        decreases sorted.len() - i,
    {
        let ghost pre = sorted@.subrange(0, i + 1);
        assert(pre.drop_last() =~= sorted@.subrange(0, i as int));
        if sorted[i - 1].version == sorted[i].version {
            proof {
                assert(first_duplicate(pre) == Some(sorted@[i as int].version));
                lemma_first_duplicate_extends(sorted@, i + 1);
            }
            let mut t = owned("duplicate migration version: V");
            push_zero_padded(&mut t, sorted[i].version as i64, 3);
            return Err(AppError::Migration(t));
        }
        i += 1;
    }
    assert(sorted@.subrange(0, sorted@.len() as int) =~= sorted@);
    Ok(sorted)
}

/// A duplicate found in a prefix is the first duplicate of the whole list.
proof fn lemma_first_duplicate_extends(s: Seq<Migration>, k: int)
    requires
        0 <= k <= s.len(),
        first_duplicate(s.subrange(0, k)) is Some,
    ensures
        first_duplicate(s) == first_duplicate(s.subrange(0, k)),
    decreases s.len() - k,
{
    if k < s.len() {
        assert(s.subrange(0, k + 1).drop_last() =~= s.subrange(0, k));
        lemma_first_duplicate_extends(s, k + 1);
    } else {
        assert(s.subrange(0, k) =~= s);
    }
}

/// The stored schema version: none stored is 0; anything but a `u32` is an error.
pub fn schema_version_of(value: Option<&str>) -> (r: AppResult<u32>)
    ensures
        match value {
            None => r == Ok::<u32, AppError>(0),
            Some(t) => match u32_of(t@) {
                Some(v) => r == Ok::<u32, AppError>(v),
                None => r matches Err(AppError::Migration(m)) && m@ == "schema_version is not an integer"@,
            },
        },
{
    match value {
        None => Ok(0),
        Some(t) => match parse_u32(t) {
            Some(v) => Ok(v),
            None => Err(AppError::Migration(owned("schema_version is not an integer"))),
        },
    }
}

/// The error of a migration whose SQL failed: `V<version:03> (<name>) failed: <error>`.
pub fn failure_message(version: u32, name: &str, error: &str) -> (r: String)
    ensures
        r@ == seq!['V'] + zero_padded(version as int, 3) + " ("@ + name@ + ") failed: "@ + error@,
{
    let mut s = String::new();
    push_char(&mut s, 'V');
    push_zero_padded(&mut s, version as i64, 3);
    s = concat(s, " (");
    s = concat(s, name);
    s = concat(s, ") failed: ");
    s = concat(s, error);
    s
}


// ---------------------------------------------------------------------------
// Which migrations a run applies
// ---------------------------------------------------------------------------

/// The migrations a run applies, in order, starting from schema version `v`:
/// each one whose version is above the version reached so far.
pub open spec fn pending_from(ms: Seq<Migration>, v: u32) -> Seq<Migration>
    decreases ms.len(),
{
    if ms.len() == 0 {
        seq![]
    } else if ms[0].version <= v {
        pending_from(ms.drop_first(), v)
    } else {
        seq![ms[0]] + pending_from(ms.drop_first(), ms[0].version)
    }
}

/// The schema version a run leaves: that of the last migration it applied,
/// or `current` when it applied none.
pub open spec fn version_after(applied: Seq<Migration>, current: u32) -> u32 {
    if applied.len() == 0 {
        current
    } else {
        applied.last().version
    }
}

/// The migrations to apply to a database at schema version `current`.
pub fn pending_migrations(sorted: Vec<Migration>, current: u32) -> (r: Vec<Migration>)
    ensures
        r@ == pending_from(sorted@, current),
{
    let mut rest = sorted;
    let mut out: Vec<Migration> = Vec::new();
    let mut v: u32 = current;
    while rest.len() > 0
        invariant
            out@ + pending_from(rest@, v) == pending_from(sorted@, current),
        decreases rest.len(),
    {
        let ghost before = rest@;
        let m = rest.remove(0);
        assert(rest@ =~= before.drop_first());
        if m.version > v {
            v = m.version;
            proof {
                assert(out@.push(m) + pending_from(rest@, v) =~= out@ + (seq![m] + pending_from(rest@, v)));
            }
            out.push(m);
        }
    }
    assert(out@ + pending_from(rest@, v) =~= out@);
    out
}

/// Every migration a run applies from `v` has a version above `v`, each above
/// the one before, and none of the list is above the last one applied.
proof fn lemma_pending_from(ms: Seq<Migration>, v: u32)
    ensures
        forall|k: int| 0 <= k < pending_from(ms, v).len() ==> #[trigger] pending_from(ms, v)[k].version > v,
        forall|i: int| 0 <= i < ms.len() ==> #[trigger] ms[i].version <= version_after(pending_from(ms, v), v),
    decreases ms.len(),
{
    if ms.len() > 0 {
        let rest = ms.drop_first();
        if ms[0].version <= v {
            lemma_pending_from(rest, v);
            let tail = pending_from(rest, v);
            assert(pending_from(ms, v) == tail);
            assert(version_after(tail, v) >= v) by {
                if tail.len() > 0 {
                    assert(tail[tail.len() - 1].version > v);
                }
            }
            assert forall|i: int| 0 <= i < ms.len() implies #[trigger] ms[i].version <= version_after(pending_from(ms, v), v) by {
                if i > 0 {
                    assert(ms[i] == rest[i - 1]);
                }
            }
        } else {
            let w = ms[0].version;
            lemma_pending_from(rest, w);
            let tail = pending_from(rest, w);
            let all = pending_from(ms, v);
            assert(all == seq![ms[0]] + tail);
            assert forall|k: int| 0 <= k < all.len() implies #[trigger] all[k].version > v by {
                if k > 0 {
                    assert(all[k] == tail[k - 1]);
                }
            }
            assert(version_after(tail, w) >= w) by {
                if tail.len() > 0 {
                    assert(tail[tail.len() - 1].version > w);
                }
            }
            assert(version_after(all, v) == version_after(tail, w)) by {
                if tail.len() > 0 {
                    assert(all.last() == tail.last());
                }
            }
            assert forall|i: int| 0 <= i < ms.len() implies #[trigger] ms[i].version <= version_after(pending_from(ms, v), v) by {
                if i > 0 {
                    assert(ms[i] == rest[i - 1]);
                }
            }
        }
    }
}

/// A second run, from the version the first one left, applies nothing and
/// leaves that same version.
pub proof fn law_second_run_applies_nothing(ms: Seq<Migration>, current: u32)
    ensures
        pending_from(ms, version_after(pending_from(ms, current), current)) == Seq::<Migration>::empty(),
        version_after(
            pending_from(ms, version_after(pending_from(ms, current), current)),
            version_after(pending_from(ms, current), current),
        ) == version_after(pending_from(ms, current), current),
{
    let v = version_after(pending_from(ms, current), current);
    lemma_pending_from(ms, current);
    lemma_nothing_above(ms, v);
}

/// From a version no migration of the list exceeds, a run applies nothing.
proof fn lemma_nothing_above(ms: Seq<Migration>, v: u32)
    requires
        forall|i: int| 0 <= i < ms.len() ==> #[trigger] ms[i].version <= v,
    ensures
        pending_from(ms, v) == Seq::<Migration>::empty(),
    decreases ms.len(),
{
    if ms.len() > 0 {
        let rest = ms.drop_first();
        assert forall|i: int| 0 <= i < rest.len() implies #[trigger] rest[i].version <= v by {
            assert(rest[i] == ms[i + 1]);
        }
        lemma_nothing_above(rest, v);
    }
}

} // verus!
