//! What the transaction queries are built from: the list filter, the
//! `WHERE` clause and its bound values, and the rows written.

use vstd::prelude::*;
use crate::domain::balance::touches;
use crate::domain::ledger::{Transaction, TxType};
use vstd::string::StrSliceExecFns;
use crate::text::{owned, push_char};

verus! {

broadcast use vstd::string::group_string_axioms;

/// Which transactions a listing shows; absent fields do not filter.
#[derive(Debug, Clone, Default)]
pub struct ListFilter {
    pub from: Option<String>,
    pub to: Option<String>,
    pub type_: Option<TxType>,
    pub category_id: Option<i64>,
    pub account_id: Option<i64>,
    pub search: Option<String>,
}

/// A value bound to a `?` of a query.
#[derive(Debug, Clone, PartialEq, Eq)]
pub enum SqlValue {
    Text(String),
    Int(i64),
}

/// A bound value as plain data.
pub enum BoundValue {
    Text(Seq<char>),
    Int(i64),
}

pub open spec fn bound_view(v: SqlValue) -> BoundValue {
    match v {
        SqlValue::Text(s) => BoundValue::Text(s@),
        SqlValue::Int(n) => BoundValue::Int(n),
    }
}

/// One character of a `LIKE` pattern taken literally: `\`, `%` and `_` are
/// escaped with `\`.
pub open spec fn escape_char(c: char) -> Seq<char> {
    if c == '\\' || c == '%' || c == '_' {
        seq!['\\', c]
    } else {
        seq![c]
    }
}

/// `raw` with every `LIKE` wildcard and the escape character escaped.
pub open spec fn escaped(raw: Seq<char>) -> Seq<char>
    decreases raw.len(),
{
    if raw.len() == 0 {
        seq![]
    } else {
        escaped(raw.drop_last()) + escape_char(raw.last())
    }
}

/// Escape `raw` for use inside a `LIKE … ESCAPE '\'` pattern.
pub fn escape_like(raw: &str) -> (r: String)
    ensures
        r@ == escaped(raw@),
{
    let v = crate::text::chars_of(raw);
    let mut out = String::new();
    let mut i: usize = 0;
    while i < v.len()
        invariant
            0 <= i <= v.len(),
            v@ == raw@,
            out@ == escaped(raw@.subrange(0, i as int)),
        decreases v.len() - i,
    {
        let ghost before = out@;
        assert(raw@.subrange(0, i + 1).drop_last() =~= raw@.subrange(0, i as int));
        let c = v[i];
        if c == '\\' || c == '%' || c == '_' {
            push_char(&mut out, '\\');
        }
        push_char(&mut out, c);
        assert(out@ =~= before + escape_char(c));
        i += 1;
    }
    assert(raw@.subrange(0, v.len() as int) =~= raw@);
    out
}

/// The conditions of a listing, in order, each with the values it binds.
pub open spec fn where_parts(f: ListFilter) -> Seq<(Seq<char>, Seq<BoundValue>)> {
    (match f.from {
        Some(from) => seq![("occurred_on >= ?"@, seq![BoundValue::Text(from@)])],
        None => seq![],
    }) + (match f.to {
        Some(to) => seq![("occurred_on <= ?"@, seq![BoundValue::Text(to@)])],
        None => seq![],
    }) + (match f.type_ {
        Some(t) => seq![("type = ?"@, seq![BoundValue::Text(t.sql())])],
        None => seq![],
    }) + (match f.category_id {
        Some(c) => seq![("category_id = ?"@, seq![BoundValue::Int(c)])],
        None => seq![],
    }) + (match f.account_id {
        Some(a) => seq![
            (
                "(account_id = ? OR (type = 'transfer' AND counter_account_id = ?))"@,
                seq![BoundValue::Int(a), BoundValue::Int(a)],
            ),
        ],
        None => seq![],
    }) + (match f.search {
        Some(q) => if q@.len() > 0 {
            seq![
                (
                    "description LIKE ? ESCAPE '\\'"@,
                    seq![BoundValue::Text(seq!['%'] + escaped(q@) + seq!['%'])],
                ),
            ]
        } else {
            seq![]
        },
        None => seq![],
    })
}

/// Conditions joined with ` AND `.
pub open spec fn joined_conditions(parts: Seq<(Seq<char>, Seq<BoundValue>)>) -> Seq<char>
    decreases parts.len(),
{
    if parts.len() == 0 {
        seq![]
    } else if parts.len() == 1 {
        parts[0].0
    } else {
        joined_conditions(parts.drop_last()) + " AND "@ + parts.last().0
    }
}

/// The values bound by the conditions, in order.
pub open spec fn all_binds(parts: Seq<(Seq<char>, Seq<BoundValue>)>) -> Seq<BoundValue>
    decreases parts.len(),
{
    if parts.len() == 0 {
        seq![]
    } else {
        all_binds(parts.drop_last()) + parts.last().1
    }
}

/// The `WHERE` clause text of a filter (empty when nothing filters).
pub open spec fn where_text(f: ListFilter) -> Seq<char> {
    if where_parts(f).len() == 0 {
        seq![]
    } else {
        " WHERE "@ + joined_conditions(where_parts(f))
    }
}

/// Clause texts as plain values.
pub open spec fn texts(clauses: Seq<String>) -> Seq<Seq<char>> {
    clauses.map_values(|c: String| c@)
}

/// The clause texts of `parts`.
pub open spec fn part_texts(parts: Seq<(Seq<char>, Seq<BoundValue>)>) -> Seq<Seq<char>> {
    parts.map_values(|p: (Seq<char>, Seq<BoundValue>)| p.0)
}

pub open spec fn binds_view(binds: Seq<SqlValue>) -> Seq<BoundValue> {
    binds.map_values(|v: SqlValue| bound_view(v))
}

fn text_value(s: String) -> (r: Vec<SqlValue>)
    ensures
        binds_view(r@) == seq![BoundValue::Text(s@)],
{
    let ghost sv = s@;
    let mut r: Vec<SqlValue> = Vec::new();
    r.push(SqlValue::Text(s));
    assert(binds_view(r@) =~= seq![BoundValue::Text(sv)]);
    r
}

fn int_values(n: i64, count: usize) -> (r: Vec<SqlValue>)
    requires
        count <= 2,
    ensures
        count == 1 ==> binds_view(r@) == seq![BoundValue::Int(n)],
        count == 2 ==> binds_view(r@) == seq![BoundValue::Int(n), BoundValue::Int(n)],
{
    let mut r: Vec<SqlValue> = Vec::new();
    let mut i: usize = 0;
    while i < count
        invariant
            i <= count <= 2,
            r@.len() == i,
            forall|k: int| 0 <= k < i ==> r@[k] == SqlValue::Int(n),
        decreases count - i,
    {
        r.push(SqlValue::Int(n));
        i += 1;
    }
    if count == 1 {
        assert(binds_view(r@) =~= seq![BoundValue::Int(n)]);
    } else if count == 2 {
        assert(binds_view(r@) =~= seq![BoundValue::Int(n), BoundValue::Int(n)]);
    }
    r
}

fn add_condition(
    clauses: &mut Vec<String>,
    binds: &mut Vec<SqlValue>,
    text: &str,
    values: Vec<SqlValue>,
    Ghost(parts): Ghost<Seq<(Seq<char>, Seq<BoundValue>)>>,
)
    requires
        texts(old(clauses)@) == part_texts(parts),
        binds_view(old(binds)@) == all_binds(parts),
    ensures
        texts(final(clauses)@) == part_texts(parts.push((text@, binds_view(values@)))),
        binds_view(final(binds)@) == all_binds(parts.push((text@, binds_view(values@)))),
{
    let ghost old_clauses = clauses@;
    let ghost old_binds = binds@;
    clauses.push(owned(text));
    let mut values = values;
    let ghost vs = values@;
    binds.append(&mut values);
    let ghost np = parts.push((text@, binds_view(vs)));
    assert(texts(clauses@) =~= texts(old_clauses).push(text@));
    assert(part_texts(np) =~= part_texts(parts).push(text@));
    assert(np.drop_last() =~= parts);
    assert(binds_view(binds@) =~= binds_view(old_binds) + binds_view(vs));
}

/// Join the clause texts with ` AND `.
fn join_and(clauses: &Vec<String>) -> (r: String)
    requires
        clauses.len() > 0,
    ensures
        r@ == joined_texts_of(texts(clauses@)),
{
    let mut out = owned(clauses[0].as_str());
    let mut i: usize = 1;
    assert(texts(clauses@).subrange(0, 1) =~= seq![clauses@[0]@]);
    while i < clauses.len()
        invariant
            1 <= i <= clauses.len(),
            out@ == joined_texts_of(texts(clauses@).subrange(0, i as int)),
        decreases clauses.len() - i,
    {
        out.append(" AND ");
        out.append(clauses[i].as_str());
        proof {
            reveal_strlit(" AND ");
            assert(texts(clauses@).subrange(0, i + 1).drop_last() =~= texts(clauses@).subrange(0, i as int));
        }
        i += 1;
    }
    assert(texts(clauses@).subrange(0, clauses.len() as int) =~= texts(clauses@));
    out
}

/// Texts joined with ` AND `.
pub open spec fn joined_texts_of(ts: Seq<Seq<char>>) -> Seq<char>
    decreases ts.len(),
{
    if ts.len() == 0 {
        seq![]
    } else if ts.len() == 1 {
        ts[0]
    } else {
        joined_texts_of(ts.drop_last()) + " AND "@ + ts.last()
    }
}

proof fn lemma_joined_parts(parts: Seq<(Seq<char>, Seq<BoundValue>)>)
    ensures
        joined_texts_of(part_texts(parts)) == joined_conditions(parts),
    decreases parts.len(),
{
    if parts.len() > 1 {
        lemma_joined_parts(parts.drop_last());
        assert(part_texts(parts).drop_last() =~= part_texts(parts.drop_last()));
    }
}

/// The `WHERE` clause of a listing and the values bound to its `?`s. Every
/// value is bound, never spliced into the text; a search matches the
/// description literally.
pub fn build_where(filter: &ListFilter) -> (r: (String, Vec<SqlValue>))
    ensures
        r.0@ == where_text(*filter),
        binds_view(r.1@) == all_binds(where_parts(*filter)),
{
    let mut clauses: Vec<String> = Vec::new();
    let mut binds: Vec<SqlValue> = Vec::new();
    let ghost mut parts: Seq<(Seq<char>, Seq<BoundValue>)> = seq![];
    assert(texts(clauses@) =~= part_texts(parts));
    assert(binds_view(binds@) =~= all_binds(parts));
    if let Some(from) = &filter.from {
        add_condition(&mut clauses, &mut binds, "occurred_on >= ?", text_value(owned(from.as_str())), Ghost(parts));
        proof { parts = parts.push(("occurred_on >= ?"@, seq![BoundValue::Text(from@)])); }
    }
    let ghost p1 = parts;
    if let Some(to) = &filter.to {
        add_condition(&mut clauses, &mut binds, "occurred_on <= ?", text_value(owned(to.as_str())), Ghost(parts));
        proof { parts = parts.push(("occurred_on <= ?"@, seq![BoundValue::Text(to@)])); }
    }
    let ghost p2 = parts;
    if let Some(t) = filter.type_ {
        add_condition(&mut clauses, &mut binds, "type = ?", text_value(owned(t.as_sql())), Ghost(parts));
        proof { parts = parts.push(("type = ?"@, seq![BoundValue::Text(t.sql())])); }
    }
    let ghost p3 = parts;
    if let Some(c) = filter.category_id {
        add_condition(&mut clauses, &mut binds, "category_id = ?", int_values(c, 1), Ghost(parts));
        proof { parts = parts.push(("category_id = ?"@, seq![BoundValue::Int(c)])); }
    }
    let ghost p4 = parts;
    if let Some(a) = filter.account_id {
        add_condition(
            &mut clauses,
            &mut binds,
            "(account_id = ? OR (type = 'transfer' AND counter_account_id = ?))",
            int_values(a, 2),
            Ghost(parts),
        );
        proof {
            parts = parts.push(("(account_id = ? OR (type = 'transfer' AND counter_account_id = ?))"@, seq![BoundValue::Int(a), BoundValue::Int(a)]));
        }
    }
    let ghost p5 = parts;
    if let Some(q) = &filter.search {
        if q.unicode_len() > 0 {
            let mut pattern = String::new();
            push_char(&mut pattern, '%');
            pattern.append(escape_like(q.as_str()).as_str());
            push_char(&mut pattern, '%');
            assert(pattern@ =~= seq!['%'] + escaped(q@) + seq!['%']);
            add_condition(&mut clauses, &mut binds, "description LIKE ? ESCAPE '\\'", text_value(pattern), Ghost(parts));
            proof { parts = parts.push(("description LIKE ? ESCAPE '\\'"@, seq![BoundValue::Text(seq!['%'] + escaped(q@) + seq!['%'])])); }
        }
    }
    proof {
        assert(parts =~= where_parts(*filter));
        lemma_joined_parts(parts);
    }
    let sql = if clauses.len() == 0 {
        String::new()
    } else {
        let joined = join_and(&clauses);
        let mut s = owned(" WHERE ");
        s.append(joined.as_str());
        s
    };
    (sql, binds)
}

/// What a listing condition says of a stored row's account columns, read as
/// SQLite reads it (a NULL column equals nothing); `None` for a condition on
/// other columns.
pub open spec fn account_condition(text: Seq<char>, binds: Seq<BoundValue>, tx: Transaction) -> Option<bool> {
    if text == "account_id = ?"@ && binds.len() == 1 {
        Some(column_equals(Some(tx.account_id), binds[0]))
    } else if text == "counter_account_id = ?"@ && binds.len() == 1 {
        Some(column_equals(tx.counter_account_id, binds[0]))
    } else if text == "(account_id = ? OR counter_account_id = ?)"@ && binds.len() == 2 {
        Some(column_equals(Some(tx.account_id), binds[0]) || column_equals(tx.counter_account_id, binds[1]))
    } else if text == "(account_id = ? OR (type = 'transfer' AND counter_account_id = ?))"@ && binds.len() == 2 {
        Some(column_equals(Some(tx.account_id), binds[0]) || (tx.type_ == TxType::Transfer && column_equals(
            tx.counter_account_id,
            binds[1],
        )))
    } else {
        None
    }
}

/// An integer column (`None` for NULL) equals a bound value.
pub open spec fn column_equals(column: Option<i64>, bound: BoundValue) -> bool {
    match bound {
        BoundValue::Int(n) => column == Some(n),
        BoundValue::Text(_) => false,
    }
}

/// The condition texts told apart by their first characters.
proof fn lemma_condition_texts()
    ensures
        "account_id = ?"@.len() > 0 && "account_id = ?"@[0] == 'a',
        "counter_account_id = ?"@.len() > 1 && "counter_account_id = ?"@[0] == 'c'
            && "counter_account_id = ?"@[1] == 'o',
        "(account_id = ? OR counter_account_id = ?)"@.len() > 19
            && "(account_id = ? OR counter_account_id = ?)"@[0] == '('
            && "(account_id = ? OR counter_account_id = ?)"@[19] == 'c',
        "(account_id = ? OR (type = 'transfer' AND counter_account_id = ?))"@.len() > 19
            && "(account_id = ? OR (type = 'transfer' AND counter_account_id = ?))"@[0] == '('
            && "(account_id = ? OR (type = 'transfer' AND counter_account_id = ?))"@[19] == '(',
        "occurred_on >= ?"@.len() > 0 && "occurred_on >= ?"@[0] == 'o',
        "occurred_on <= ?"@.len() > 0 && "occurred_on <= ?"@[0] == 'o',
        "type = ?"@.len() > 0 && "type = ?"@[0] == 't',
        "category_id = ?"@.len() > 1 && "category_id = ?"@[0] == 'c' && "category_id = ?"@[1] == 'a',
        "description LIKE ? ESCAPE '\\'"@.len() > 0 && "description LIKE ? ESCAPE '\\'"@[0] == 'd',
{
    reveal_strlit("account_id = ?");
    reveal_strlit("counter_account_id = ?");
    reveal_strlit("(account_id = ? OR counter_account_id = ?)");
    reveal_strlit("(account_id = ? OR (type = 'transfer' AND counter_account_id = ?))");
    reveal_strlit("occurred_on >= ?");
    reveal_strlit("occurred_on <= ?");
    reveal_strlit("type = ?");
    reveal_strlit("category_id = ?");
    reveal_strlit("description LIKE ? ESCAPE '\\'");
}

/// Every condition of `parts` that looks at the account columns keeps
/// exactly the rows touching the filtered account (and there is one only
/// when the listing filters by account).
pub open spec fn account_conditions_touch(parts: Seq<(Seq<char>, Seq<BoundValue>)>, tx: Transaction, account: Option<i64>) -> bool {
    forall|i: int|
        0 <= i < parts.len() && #[trigger] account_condition(parts[i].0, parts[i].1, tx) is Some ==> (account matches Some(
            a,
        ) && account_condition(parts[i].0, parts[i].1, tx) == Some(touches(tx, a)))
}

proof fn lemma_touch_concat(x: Seq<(Seq<char>, Seq<BoundValue>)>, y: Seq<(Seq<char>, Seq<BoundValue>)>, tx: Transaction, account: Option<i64>)
    requires
        account_conditions_touch(x, tx, account),
        account_conditions_touch(y, tx, account),
    ensures
        account_conditions_touch(x + y, tx, account),
{
    assert forall|i: int|
        0 <= i < (x + y).len() && #[trigger] account_condition((x + y)[i].0, (x + y)[i].1, tx) is Some implies (account matches Some(
            a,
        ) && account_condition((x + y)[i].0, (x + y)[i].1, tx) == Some(touches(tx, a))) by {
        if i < x.len() {
            assert((x + y)[i] == x[i]);
        } else {
            assert((x + y)[i] == y[i - x.len()]);
        }
    }
}

/// A single condition on another column.
proof fn lemma_touch_other(text: Seq<char>, binds: Seq<BoundValue>, tx: Transaction, account: Option<i64>)
    requires
        text.len() > 0,
        text[0] != 'a' && text[0] != '(' && (text[0] == 'c' ==> text.len() > 1 && text[1] != 'o'),
    ensures
        account_conditions_touch(seq![(text, binds)], tx, account),
{
    lemma_condition_texts();
    assert(account_condition(text, binds, tx) is None);
}

/// Filtering a listing by account keeps exactly the rows that touch the
/// account, as its balance counts them: those booked on it and the transfers
/// into it. Without an account filter no condition looks at the account
/// columns.
pub proof fn law_account_filter_keeps_rows_touching_the_account(f: ListFilter, tx: Transaction)
    ensures
        account_conditions_touch(where_parts(f), tx, f.account_id),
        f.account_id matches Some(a) ==> exists|i: int|
            0 <= i < where_parts(f).len() && #[trigger] account_condition(where_parts(f)[i].0, where_parts(f)[i].1, tx)
                == Some(touches(tx, a)),
{
    lemma_condition_texts();
    let acct = f.account_id;
    let p1: Seq<(Seq<char>, Seq<BoundValue>)> = match f.from {
        Some(from) => seq![("occurred_on >= ?"@, seq![BoundValue::Text(from@)])],
        None => seq![],
    };
    let p2: Seq<(Seq<char>, Seq<BoundValue>)> = match f.to {
        Some(to) => seq![("occurred_on <= ?"@, seq![BoundValue::Text(to@)])],
        None => seq![],
    };
    let p3: Seq<(Seq<char>, Seq<BoundValue>)> = match f.type_ {
        Some(t) => seq![("type = ?"@, seq![BoundValue::Text(t.sql())])],
        None => seq![],
    };
    let p4: Seq<(Seq<char>, Seq<BoundValue>)> = match f.category_id {
        Some(c) => seq![("category_id = ?"@, seq![BoundValue::Int(c)])],
        None => seq![],
    };
    let p5: Seq<(Seq<char>, Seq<BoundValue>)> = match f.account_id {
        Some(a) => seq![
            (
                "(account_id = ? OR (type = 'transfer' AND counter_account_id = ?))"@,
                seq![BoundValue::Int(a), BoundValue::Int(a)],
            ),
        ],
        None => seq![],
    };
    let p6: Seq<(Seq<char>, Seq<BoundValue>)> = match f.search {
        Some(q) => if q@.len() > 0 {
            seq![
                (
                    "description LIKE ? ESCAPE '\\'"@,
                    seq![BoundValue::Text(seq!['%'] + escaped(q@) + seq!['%'])],
                ),
            ]
        } else {
            seq![]
        },
        None => seq![],
    };
    assert(where_parts(f) == p1 + p2 + p3 + p4 + p5 + p6);
    match f.from {
        Some(from) => lemma_touch_other("occurred_on >= ?"@, seq![BoundValue::Text(from@)], tx, acct),
        None => {},
    }
    match f.to {
        Some(to) => lemma_touch_other("occurred_on <= ?"@, seq![BoundValue::Text(to@)], tx, acct),
        None => {},
    }
    match f.type_ {
        Some(t) => lemma_touch_other("type = ?"@, seq![BoundValue::Text(t.sql())], tx, acct),
        None => {},
    }
    match f.category_id {
        Some(c) => lemma_touch_other("category_id = ?"@, seq![BoundValue::Int(c)], tx, acct),
        None => {},
    }
    if p6.len() > 0 {
        lemma_touch_other(p6[0].0, p6[0].1, tx, acct);
        assert(p6 == seq![(p6[0].0, p6[0].1)]);
    }
    match f.account_id {
        Some(a) => {
            let lit = "(account_id = ? OR (type = 'transfer' AND counter_account_id = ?))"@;
            let binds = seq![BoundValue::Int(a), BoundValue::Int(a)];
            assert(account_condition(lit, binds, tx) == Some(touches(tx, a)));
            assert(p5[0] == (lit, binds));
            assert(account_conditions_touch(p5, tx, acct));
        },
        None => {},
    }
    lemma_touch_concat(p1, p2, tx, acct);
    lemma_touch_concat(p1 + p2, p3, tx, acct);
    lemma_touch_concat(p1 + p2 + p3, p4, tx, acct);
    lemma_touch_concat(p1 + p2 + p3 + p4, p5, tx, acct);
    lemma_touch_concat(p1 + p2 + p3 + p4 + p5, p6, tx, acct);
    if let Some(a) = f.account_id {
        let n4 = (p1 + p2 + p3 + p4).len() as int;
        assert(where_parts(f)[n4] == p5[0]);
        assert(account_condition(where_parts(f)[n4].0, where_parts(f)[n4].1, tx) == Some(touches(tx, a)));
    }
}

/// A new income or expense row.
pub struct InsertInput<'a> {
    pub occurred_on: &'a str,
    pub type_: TxType,
    pub amount: i64,
    pub account_id: i64,
    pub category_id: i64,
    pub description: &'a str,
    pub now: &'a str,
}

/// The new values of an income or expense row.
pub struct UpdateInput<'a> {
    pub occurred_on: &'a str,
    pub type_: TxType,
    pub amount: i64,
    pub account_id: i64,
    pub category_id: i64,
    pub description: &'a str,
    pub now: &'a str,
}

/// A new transfer row.
pub struct InsertTransferInput<'a> {
    pub occurred_on: &'a str,
    pub amount: i64,
    pub account_id: i64,
    pub counter_account_id: i64,
    pub description: &'a str,
    pub now: &'a str,
}

/// The new values of a transfer row.
pub struct UpdateTransferInput<'a> {
    pub occurred_on: &'a str,
    pub amount: i64,
    pub account_id: i64,
    pub counter_account_id: i64,
    pub description: &'a str,
    pub now: &'a str,
}

} // verus!
