//! Backups: the row model of a backup payload, the checks every row must pass
//! before an import may touch the database, and the id remapping decisions
//! an import makes.

use vstd::prelude::*;
use vstd::string::StrSliceExecFns;
use crate::domain::account::{self, AccountKind};
use crate::domain::budget::{RawSetBudgetInput, set_budget_problem, validate_set_budget_input};
use crate::domain::calendar::{Date, date_lt};
use crate::domain::category::{self, Category, CategoryType};
use crate::domain::date::{iso_date, iso_date_message, parse_iso_date};
use crate::domain::ledger::{TxType, category_mismatch_message, category_type_for, input_problem_of, transfer_problem_of};
use crate::error::{AppError, AppResult, ImportRowError, invalid_argument, joined_texts};
use crate::text::{concat, decimal, owned, push_char, str_equal, trimmed, with_decimal};

verus! {

broadcast use vstd::string::group_string_axioms;

/// The backup format this build writes and reads.
pub const BACKUP_FORMAT_VERSION: u32 = 1;

/// The largest payload an import accepts, in bytes.
pub const MAX_PAYLOAD_BYTES: usize = 10485760;

/// A value of a backup row, as far as the checks read it: JSON `null`, an
/// integer that fits in an `i64`, a string, or anything else.
#[derive(Debug, Clone, PartialEq, Eq)]
pub enum Field {
    Null,
    Int(i64),
    Text(String),
    Other,
}

/// One JSON object of a backup: its keys and values, in order.
#[derive(Debug, Clone, PartialEq, Eq)]
pub struct Row {
    pub fields: Vec<(String, Field)>,
}

/// The value stored under `key` (a later entry replaces an earlier one, as
/// when a JSON object is read into a map).
pub open spec fn lookup(fields: Seq<(String, Field)>, key: Seq<char>) -> Option<Field>
    decreases fields.len(),
{
    if fields.len() == 0 {
        None
    } else if fields.last().0@ == key {
        Some(fields.last().1)
    } else {
        lookup(fields.drop_last(), key)
    }
}

/// `row[key]` as an `i64`, if it is an integer.
pub open spec fn int_field(row: Row, key: Seq<char>) -> Option<i64> {
    match lookup(row.fields@, key) {
        Some(Field::Int(n)) => Some(n),
        _ => None,
    }
}

/// `row[key]` as text, if it is a string.
pub open spec fn text_field(row: Row, key: Seq<char>) -> Option<Seq<char>> {
    match lookup(row.fields@, key) {
        Some(Field::Text(s)) => Some(s@),
        _ => None,
    }
}

/// `row[key]` is present and not `null`.
pub open spec fn has_value(row: Row, key: Seq<char>) -> bool {
    lookup(row.fields@, key) matches Some(f) && !(f is Null)
}

fn find_field<'a>(row: &'a Row, key: &str) -> (r: Option<&'a Field>)
    ensures
        match r {
            Some(f) => lookup(row.fields@, key@) == Some(*f),
            None => lookup(row.fields@, key@) is None,
        },
{
    let mut i = row.fields.len();
    assert(row.fields@.subrange(0, i as int) =~= row.fields@);
    while i > 0
        invariant
            0 <= i <= row.fields.len(),
            lookup(row.fields@, key@) == lookup(row.fields@.subrange(0, i as int), key@),
        decreases i,
    {
        let ghost prefix = row.fields@.subrange(0, i as int);
        assert(prefix.drop_last() =~= row.fields@.subrange(0, i - 1));
        let entry = &row.fields[i - 1];
        if str_equal(entry.0.as_str(), key) {
            return Some(&entry.1);
        }
        i -= 1;
    }
    None
}

/// `row[key]` as an `i64`.
pub fn value_i64(row: &Row, key: &str) -> (r: Option<i64>)
    ensures
        r == int_field(*row, key@),
{
    match find_field(row, key) {
        Some(Field::Int(n)) => Some(*n),
        _ => None,
    }
}

/// `row[key]` as text.
pub fn value_str<'a>(row: &'a Row, key: &str) -> (r: Option<&'a str>)
    ensures
        match r {
            Some(s) => text_field(*row, key@) == Some(s@),
            None => text_field(*row, key@) is None,
        },
{
    match find_field(row, key) {
        Some(Field::Text(s)) => Some(s.as_str()),
        _ => None,
    }
}

/// `row[key]` is present and not `null`.
pub fn value_present(row: &Row, key: &str) -> (r: bool)
    ensures
        r == has_value(*row, key@),
{
    match find_field(row, key) {
        Some(Field::Null) => false,
        Some(_) => true,
        None => false,
    }
}

/// The contents of a backup file.
#[derive(Debug, Clone)]
pub struct Snapshot {
    pub schema_version: u32,
    pub exported_at: String,
    pub categories: Vec<Row>,
    pub accounts: Vec<Row>,
    pub recurring_rules: Vec<Row>,
    pub transactions: Vec<Row>,
    pub budgets: Vec<Row>,
    pub app_meta: Vec<Row>,
}

/// How an import treats the data already there.
#[derive(Debug, Clone, Copy, PartialEq, Eq)]
pub enum ImportMode {
    Overwrite,
    Append,
}

impl ImportMode {
    pub open spec fn from_text(raw: Seq<char>) -> Option<ImportMode> {
        if raw == "overwrite"@ {
            Some(ImportMode::Overwrite)
        } else if raw == "append"@ {
            Some(ImportMode::Append)
        } else {
            None
        }
    }

    pub fn parse(raw: &str) -> (r: AppResult<ImportMode>)
        ensures
            match ImportMode::from_text(raw@) {
                Some(m) => r == Ok::<ImportMode, AppError>(m),
                None => r matches Err(e) && invalid_argument(e, "unknown mode '"@ + raw@ + seq!['\'']),
            },
    {
        if str_equal(raw, "overwrite") {
            Ok(ImportMode::Overwrite)
        } else if str_equal(raw, "append") {
            Ok(ImportMode::Append)
        } else {
            let mut s = concat(owned("unknown mode '"), raw);
            push_char(&mut s, '\'');
            assert(s@ =~= "unknown mode '"@ + raw@ + seq!['\'']);
            Err(AppError::InvalidArgument(s))
        }
    }
}

/// The arguments of an import request.
#[derive(Debug, Clone)]
pub struct ImportArgs {
    pub payload: String,
    pub mode: String,
}

/// What an import inserted, and the rows it skipped.
#[derive(Debug, Clone)]
pub struct ImportResult {
    pub categories: u32,
    pub accounts: u32,
    pub recurring_rules: u32,
    pub transactions: u32,
    pub budgets: u32,
    pub warnings: Vec<String>,
}

// ---------------------------------------------------------------------------
// Row errors
// ---------------------------------------------------------------------------

/// Row errors as plain values: row index, entity, message.
pub open spec fn errs_view(s: Seq<ImportRowError>) -> Seq<(u32, Seq<char>, Seq<char>)> {
    s.map_values(|e: ImportRowError| (e.index, e.entity@, e.message@))
}

/// Messages for one row, tagged with its index and entity.
pub open spec fn tagged(index: u32, entity: Seq<char>, msgs: Seq<Seq<char>>) -> Seq<(u32, Seq<char>, Seq<char>)> {
    msgs.map_values(|m: Seq<char>| (index, entity, m))
}

/// Record one problem with row `index` of `entity`.
pub fn push_error(errors: &mut Vec<ImportRowError>, index: u32, entity: &str, message: String)
    ensures
        errs_view(final(errors)@) == errs_view(old(errors)@).push((index, entity@, message@)),
{
    let ghost before = errors@;
    errors.push(ImportRowError { index, entity: owned(entity), message });
    assert(errs_view(errors@) =~= errs_view(before).push((index, entity@, message@)));
}

/// The text a row check reports for an error: an invalid-argument error's own
/// text, or the whole text of any other error.
pub open spec fn message_of(e: AppError) -> Seq<char> {
    match e {
        AppError::InvalidArgument(m) => m@,
        _ => e.prefix() + e.detail(),
    }
}

pub fn domain_message(err: AppError) -> (r: String)
    ensures
        r@ == message_of(err),
{
    match err {
        AppError::InvalidArgument(msg) => msg,
        other => other.to_text(),
    }
}

pub open spec fn missing_message(key: Seq<char>) -> Seq<char> {
    "missing required "@ + key
}

/// `row[key]` as text; when it is missing, a problem is recorded.
pub fn required_str<'a>(row: &'a Row, key: &str, index: u32, entity: &str, errors: &mut Vec<ImportRowError>) -> (r: Option<&'a str>)
    ensures
        match r {
            Some(s) => text_field(*row, key@) == Some(s@),
            None => text_field(*row, key@) is None,
        },
        errs_view(final(errors)@) == errs_view(old(errors)@) + (if text_field(*row, key@) is None {
            tagged(index, entity@, seq![missing_message(key@)])
        } else {
            seq![]
        }),
{
    match value_str(row, key) {
        Some(v) => {
            assert(errs_view(errors@) =~= errs_view(errors@) + seq![]);
            Some(v)
        },
        None => {
            let ghost before = errors@;
            push_error(errors, index, entity, concat(owned("missing required "), key));
            assert(tagged(index, entity@, seq![missing_message(key@)]) =~= seq![(index, entity@, missing_message(key@))]);
            None
        },
    }
}

/// `row[key]` as an `i64`; when it is missing, a problem is recorded.
pub fn required_i64(row: &Row, key: &str, index: u32, entity: &str, errors: &mut Vec<ImportRowError>) -> (r: Option<i64>)
    ensures
        r == int_field(*row, key@),
        errs_view(final(errors)@) == errs_view(old(errors)@) + (if int_field(*row, key@) is None {
            tagged(index, entity@, seq![missing_message(key@)])
        } else {
            seq![]
        }),
{
    match value_i64(row, key) {
        Some(v) => {
            assert(errs_view(errors@) =~= errs_view(errors@) + seq![]);
            Some(v)
        },
        None => {
            push_error(errors, index, entity, concat(owned("missing required "), key));
            assert(tagged(index, entity@, seq![missing_message(key@)]) =~= seq![(index, entity@, missing_message(key@))]);
            None
        },
    }
}

// ---------------------------------------------------------------------------
// Account and category rows
// ---------------------------------------------------------------------------

/// The message of a problem, if there is one, as a list of at most one message.
pub open spec fn opt_msg(o: Option<Seq<char>>) -> Seq<Seq<char>> {
    match o {
        Some(m) => seq![m],
        None => seq![],
    }
}

/// `missing required <key>` when `present` is false.
pub open spec fn missing_if(present: bool, key: Seq<char>) -> Seq<Seq<char>> {
    if present {
        seq![]
    } else {
        seq![missing_message(key)]
    }
}

pub proof fn lemma_tagged_add(index: u32, entity: Seq<char>, a: Seq<Seq<char>>, b: Seq<Seq<char>>)
    ensures
        tagged(index, entity, a + b) == tagged(index, entity, a) + tagged(index, entity, b),
{
    assert(tagged(index, entity, a + b) =~= tagged(index, entity, a) + tagged(index, entity, b));
}

pub open spec fn account_name_problem(name: Seq<char>) -> Option<Seq<char>> {
    if trimmed(name).len() == 0 {
        Some("account name is empty"@)
    } else if trimmed(name).len() > account::MAX_NAME_LEN {
        Some("account name must be 40 chars or fewer"@)
    } else {
        None
    }
}

pub open spec fn category_name_problem(name: Seq<char>) -> Option<Seq<char>> {
    if trimmed(name).len() == 0 {
        Some("category name is empty"@)
    } else if trimmed(name).len() > category::MAX_NAME_LEN {
        Some("category name must be 40 chars or fewer"@)
    } else {
        None
    }
}

/// The problems of an account row, in the order they are checked.
pub open spec fn account_row_messages(row: Row) -> Seq<Seq<char>> {
    (match text_field(row, "name"@) {
        None => seq![missing_message("name"@)],
        Some(n) => opt_msg(account_name_problem(n)),
    }) + (match text_field(row, "kind"@) {
        None => seq![missing_message("kind"@)],
        Some(k) => if AccountKind::from_sql(k) is None {
            seq![AccountKind::parse_message(k)]
        } else {
            seq![]
        },
    }) + missing_if(int_field(row, "initial_balance"@) is Some, "initial_balance"@) + (match text_field(row, "note"@) {
        Some(n) => if n.len() > account::MAX_NOTE_LEN {
            seq!["note must be 200 chars or fewer"@]
        } else {
            seq![]
        },
        None => seq![],
    })
}

/// Record the error of `r`, if it failed.
fn record<T>(r: AppResult<T>, index: u32, entity: &str, errors: &mut Vec<ImportRowError>)
    ensures
        errs_view(final(errors)@) == errs_view(old(errors)@) + (match r {
            Err(e) => tagged(index, entity@, seq![message_of(e)]),
            Ok(_) => seq![],
        }),
{
    match r {
        Err(e) => {
            push_error(errors, index, entity, domain_message(e));
            assert(tagged(index, entity@, seq![message_of(e)]) =~= seq![(index, entity@, message_of(e))]);
        },
        Ok(_) => {
            assert(errs_view(errors@) =~= errs_view(errors@) + seq![]);
        },
    }
}

/// Check one account row of a backup.
#[verifier::spinoff_prover]
#[verifier::rlimit(40)]
pub fn validate_account_row(index: u32, row: &Row, errors: &mut Vec<ImportRowError>)
    ensures
        errs_view(final(errors)@) == errs_view(old(errors)@) + tagged(index, "account"@, account_row_messages(*row)),
{
    let ghost e0 = errs_view(errors@);
    let ghost name_part = match text_field(*row, "name"@) {
        None => seq![missing_message("name"@)],
        Some(n) => opt_msg(account_name_problem(n)),
    };
    let ghost kind_part = match text_field(*row, "kind"@) {
        None => seq![missing_message("kind"@)],
        Some(k) => if AccountKind::from_sql(k) is None {
            seq![AccountKind::parse_message(k)]
        } else {
            seq![]
        },
    };
    let ghost balance_part = missing_if(int_field(*row, "initial_balance"@) is Some, "initial_balance"@);
    let ghost note_part = match text_field(*row, "note"@) {
        Some(n) => if n.len() > account::MAX_NOTE_LEN {
            seq!["note must be 200 chars or fewer"@]
        } else {
            seq![]
        },
        None => seq![],
    };
    if let Some(name) = required_str(row, "name", index, "account", errors) {
        record(account::validate_name(name), index, "account", errors);
    }
    assert(errs_view(errors@) =~= e0 + tagged(index, "account"@, name_part));
    let ghost e1 = errs_view(errors@);
    if let Some(kind) = required_str(row, "kind", index, "account", errors) {
        record(AccountKind::parse(kind), index, "account", errors);
    }
    assert(errs_view(errors@) =~= e1 + tagged(index, "account"@, kind_part));
    let ghost e2 = errs_view(errors@);
    let _ = required_i64(row, "initial_balance", index, "account", errors);
    assert(errs_view(errors@) =~= e2 + tagged(index, "account"@, balance_part));
    let ghost e3 = errs_view(errors@);
    if let Some(note) = value_str(row, "note") {
        record(account::validate_note(note), index, "account", errors);
    }
    assert(errs_view(errors@) =~= e3 + tagged(index, "account"@, note_part));
    proof {
        lemma_tagged_add(index, "account"@, name_part, kind_part);
        lemma_tagged_add(index, "account"@, name_part + kind_part, balance_part);
        lemma_tagged_add(index, "account"@, name_part + kind_part + balance_part, note_part);
        assert(account_row_messages(*row) == name_part + kind_part + balance_part + note_part);
    }
}

/// The problems of a category row, in the order they are checked.
pub open spec fn category_row_messages(row: Row) -> Seq<Seq<char>> {
    (match text_field(row, "name"@) {
        None => seq![missing_message("name"@)],
        Some(n) => opt_msg(category_name_problem(n)),
    }) + (match text_field(row, "type"@) {
        None => seq![missing_message("type"@)],
        Some(t) => if CategoryType::from_sql(t) is None {
            seq![CategoryType::parse_message(t)]
        } else {
            seq![]
        },
    }) + (match text_field(row, "color"@) {
        Some(c) => if !category::is_hex_color(c) {
            seq![category::color_message(c)]
        } else {
            seq![]
        },
        None => seq![],
    })
}

/// Check one category row of a backup. The color must be a strict `#RRGGBB`,
/// as when a category is created, since the interface puts it into a style.
#[verifier::spinoff_prover]
pub fn validate_category_row(index: u32, row: &Row, errors: &mut Vec<ImportRowError>)
    ensures
        errs_view(final(errors)@) == errs_view(old(errors)@) + tagged(index, "category"@, category_row_messages(*row)),
{
    let ghost e0 = errs_view(errors@);
    let ghost name_part = match text_field(*row, "name"@) {
        None => seq![missing_message("name"@)],
        Some(n) => opt_msg(category_name_problem(n)),
    };
    let ghost type_part = match text_field(*row, "type"@) {
        None => seq![missing_message("type"@)],
        Some(t) => if CategoryType::from_sql(t) is None {
            seq![CategoryType::parse_message(t)]
        } else {
            seq![]
        },
    };
    let ghost color_part = match text_field(*row, "color"@) {
        Some(c) => if !category::is_hex_color(c) {
            seq![category::color_message(c)]
        } else {
            seq![]
        },
        None => seq![],
    };
    if let Some(name) = required_str(row, "name", index, "category", errors) {
        record(category::validate_name(name), index, "category", errors);
    }
    assert(errs_view(errors@) =~= e0 + tagged(index, "category"@, name_part));
    let ghost e1 = errs_view(errors@);
    if let Some(type_) = required_str(row, "type", index, "category", errors) {
        record(CategoryType::parse(type_), index, "category", errors);
    }
    assert(errs_view(errors@) =~= e1 + tagged(index, "category"@, type_part));
    let ghost e2 = errs_view(errors@);
    if let Some(color) = value_str(row, "color") {
        record(category::validate_color(color), index, "category", errors);
    }
    assert(errs_view(errors@) =~= e2 + tagged(index, "category"@, color_part));
    proof {
        lemma_tagged_add(index, "category"@, name_part, type_part);
        lemma_tagged_add(index, "category"@, name_part + type_part, color_part);
    }
}

// ---------------------------------------------------------------------------
// The categories a snapshot declares
// ---------------------------------------------------------------------------

/// A category as plain values: id, type, name, color, icon, display order, archived stamp.
pub type CategoryView = (i64, CategoryType, Seq<char>, Option<Seq<char>>, Option<Seq<char>>, i64, Option<Seq<char>>);

pub open spec fn category_view(c: Category) -> CategoryView {
    (
        c.id,
        c.type_,
        c.name@,
        opt_view(c.color),
        opt_view(c.icon),
        c.display_order,
        opt_view(c.archived_at),
    )
}

pub open spec fn opt_view(o: Option<String>) -> Option<Seq<char>> {
    match o {
        Some(s) => Some(s@),
        None => None,
    }
}

/// The category a snapshot row declares, when it has an id and a known type.
pub open spec fn row_category(row: Row) -> Option<CategoryView> {
    match (int_field(row, "id"@), text_field(row, "type"@)) {
        (Some(id), Some(t)) => match CategoryType::from_sql(t) {
            Some(ct) => Some(
                (
                    id,
                    ct,
                    match text_field(row, "name"@) {
                        Some(n) => n,
                        None => Seq::empty(),
                    },
                    text_field(row, "color"@),
                    text_field(row, "icon"@),
                    match int_field(row, "display_order"@) {
                        Some(d) => d,
                        None => 0,
                    },
                    text_field(row, "archived_at"@),
                ),
            ),
            None => None,
        },
        _ => None,
    }
}

/// The category declared last under `id` (a later row replaces an earlier one).
pub open spec fn last_category(cats: Seq<CategoryView>, id: i64) -> Option<CategoryView>
    decreases cats.len(),
{
    if cats.len() == 0 {
        None
    } else if cats.last().0 == id {
        Some(cats.last())
    } else {
        last_category(cats.drop_last(), id)
    }
}

fn opt_owned(o: Option<&str>) -> (r: Option<String>)
    ensures
        match o {
            Some(s) => r matches Some(t) && t@ == s@,
            None => r is None,
        },
{
    match o {
        Some(s) => Some(owned(s)),
        None => None,
    }
}

/// The categories the snapshot declares, so that transaction and budget rows
/// can be checked against the category they will be attached to before
/// anything is inserted. Rows that fail their own checks are left out (they
/// already produce a category error); a reference to an id that is absent is
/// left to the insert, which skips it with a warning or fails.
pub fn snapshot_categories(snap: &Snapshot) -> (r: Vec<Category>)
    ensures
        r@.map_values(|c: Category| category_view(c)) == snap.categories@.filter_map(|row: Row| row_category(row)),
{
    let rows = &snap.categories;
    let mut out: Vec<Category> = Vec::new();
    let mut k: usize = 0;
    while k < rows.len()
        invariant
            0 <= k <= rows.len(),
            out@.map_values(|c: Category| category_view(c)) == rows@.subrange(0, k as int).filter_map(|row: Row| row_category(row)),
        decreases rows.len() - k,
    {
        let ghost before = out@;
        assert(rows@.subrange(0, k + 1).drop_last() =~= rows@.subrange(0, k as int));
        assert(rows@.subrange(0, k + 1).last() == rows@[k as int]);
        let row = &rows[k];
        let id = value_i64(row, "id");
        let type_text = value_str(row, "type");
        if let (Some(id), Some(t)) = (id, type_text) {
            if let Ok(type_) = CategoryType::parse(t) {
                let name = match value_str(row, "name") {
                    Some(n) => owned(n),
                    None => String::new(),
                };
                let display_order = match value_i64(row, "display_order") {
                    Some(d) => d,
                    None => 0,
                };
                out.push(Category {
                    id,
                    name,
                    type_,
                    color: opt_owned(value_str(row, "color")),
                    icon: opt_owned(value_str(row, "icon")),
                    display_order,
                    archived_at: opt_owned(value_str(row, "archived_at")),
                });
                assert(out@.map_values(|c: Category| category_view(c)) =~= before.map_values(|c: Category| category_view(c)).push(category_view(out@.last())));
            }
        }
        k += 1;
    }
    assert(rows@.subrange(0, rows.len() as int) =~= rows@);
    out
}

/// The category stored last under `id`.
fn find_category(categories: &[Category], id: i64) -> (r: Option<&Category>)
    ensures
        match r {
            Some(c) => last_category(categories@.map_values(|c: Category| category_view(c)), id) == Some(category_view(*c)),
            None => last_category(categories@.map_values(|c: Category| category_view(c)), id) is None,
        },
{
    let ghost views = categories@.map_values(|c: Category| category_view(c));
    let mut i = categories.len();
    assert(views.subrange(0, i as int) =~= views);
    while i > 0
        invariant
            0 <= i <= categories.len(),
            views == categories@.map_values(|c: Category| category_view(c)),
            last_category(views, id) == last_category(views.subrange(0, i as int), id),
        decreases i,
    {
        assert(views.subrange(0, i as int).drop_last() =~= views.subrange(0, i - 1));
        if categories[i - 1].id == id {
            return Some(&categories[i - 1]);
        }
        i -= 1;
    }
    None
}

// ---------------------------------------------------------------------------
// Transaction rows
// ---------------------------------------------------------------------------

/// What an income or expense row adds once its required fields are there.
pub open spec fn income_expense_checks(type_: Seq<char>, row: Row, occurred_on: Seq<char>, amount: i64, cats: Seq<CategoryView>) -> Seq<Seq<char>> {
    let description = match text_field(row, "description"@) {
        Some(d) => d,
        None => Seq::empty(),
    };
    let category_id = int_field(row, "category_id"@);
    match input_problem_of(occurred_on, type_, amount, category_id, description) {
        Some(m) => seq![m],
        None => match (TxType::from_sql(type_), category_id) {
            (Some(t), Some(c)) => match last_category(cats, c) {
                Some(v) => if category_type_for(t) != Some(v.1) {
                    seq![category_mismatch_message(v.0)]
                } else {
                    seq![]
                },
                None => seq![],
            },
            _ => seq![],
        },
    }
}

/// The problems of an income or expense row of type `type_`.
pub open spec fn income_expense_row_messages(type_: Seq<char>, row: Row, cats: Seq<CategoryView>) -> Seq<Seq<char>> {
    let occurred_on = text_field(row, "occurred_on"@);
    let amount = int_field(row, "amount"@);
    let account_id = int_field(row, "account_id"@);
    missing_if(occurred_on is Some, "occurred_on"@) + missing_if(amount is Some, "amount"@) + missing_if(
        account_id is Some,
        "account_id"@,
    ) + match (occurred_on, amount, account_id) {
        (Some(o), Some(a), Some(_)) => income_expense_checks(type_, row, o, a, cats),
        _ => seq![],
    }
}

#[verifier::spinoff_prover]
fn validate_income_expense_row(
    index: u32,
    type_: &str,
    row: &Row,
    categories: &[Category],
    errors: &mut Vec<ImportRowError>,
)
    ensures
        errs_view(final(errors)@) == errs_view(old(errors)@) + tagged(
            index,
            "transaction"@,
            income_expense_row_messages(type_@, *row, categories@.map_values(|c: Category| category_view(c))),
        ),
{
    let ghost cats = categories@.map_values(|c: Category| category_view(c));
    let ghost e0 = errs_view(errors@);
    let occurred_on = required_str(row, "occurred_on", index, "transaction", errors);
    let amount = required_i64(row, "amount", index, "transaction", errors);
    let account_id = required_i64(row, "account_id", index, "transaction", errors);
    let ghost p0 = missing_if(occurred_on is Some, "occurred_on"@);
    let ghost p1 = missing_if(amount is Some, "amount"@);
    let ghost p2 = missing_if(account_id is Some, "account_id"@);
    proof {
        lemma_tagged_add(index, "transaction"@, p0, p1);
        lemma_tagged_add(index, "transaction"@, p0 + p1, p2);
        assert(errs_view(errors@) =~= e0 + tagged(index, "transaction"@, p0 + p1 + p2));
    }
    let ghost e1 = errs_view(errors@);
    let (occurred_on, amount, account_id) = match (occurred_on, amount, account_id) {
        (Some(o), Some(a), Some(c)) => (o, a, c),
        _ => {
            proof {
                lemma_tagged_add(index, "transaction"@, p0 + p1 + p2, seq![]);
                assert(p0 + p1 + p2 + seq![] =~= p0 + p1 + p2);
            }
            return;
        },
    };
    let description = match value_str(row, "description") {
        Some(d) => d,
        None => "",
    };
    proof {
        if text_field(*row, "description"@) is None {
            reveal_strlit("");
            assert(description@ =~= Seq::<char>::empty());
        }
    }
    let ghost checks = income_expense_checks(type_@, *row, occurred_on@, amount, cats);
    let raw = crate::domain::ledger::RawInput {
        occurred_on,
        type_,
        amount,
        account_id,
        category_id: value_i64(row, "category_id"),
        description,
    };
    match crate::domain::ledger::validate_input(&raw) {
        Err(err) => {
            record::<()>(Err(err), index, "transaction", errors);
        },
        Ok(validated) => {
            match find_category(categories, validated.category_id) {
                Some(category) => {
                    record(
                        crate::domain::ledger::assert_category_matches_tx(category, validated.type_, Some(category.id)),
                        index,
                        "transaction",
                        errors,
                    );
                },
                None => {
                    assert(errs_view(errors@) =~= errs_view(errors@) + seq![]);
                },
            }
        },
    }
    proof {
        assert(errs_view(errors@) =~= e1 + tagged(index, "transaction"@, checks));
        lemma_tagged_add(index, "transaction"@, p0 + p1 + p2, checks);
    }
}

/// What a transfer row adds once its required fields are there.
pub open spec fn transfer_checks(row: Row, occurred_on: Seq<char>, amount: i64, account_id: i64, counter_account_id: i64) -> Seq<Seq<char>> {
    let description = match text_field(row, "description"@) {
        Some(d) => d,
        None => Seq::empty(),
    };
    opt_msg(transfer_problem_of(occurred_on, amount, account_id, counter_account_id, description))
}

/// The problems of a transfer row.
pub open spec fn transfer_row_messages(row: Row) -> Seq<Seq<char>> {
    let occurred_on = text_field(row, "occurred_on"@);
    let amount = int_field(row, "amount"@);
    let account_id = int_field(row, "account_id"@);
    let counter = int_field(row, "counter_account_id"@);
    missing_if(occurred_on is Some, "occurred_on"@) + missing_if(amount is Some, "amount"@) + missing_if(
        account_id is Some,
        "account_id"@,
    ) + missing_if(counter is Some, "counter_account_id"@) + (if has_value(row, "category_id"@) {
        seq!["transfer rows must not have a category_id"@]
    } else {
        seq![]
    }) + match (occurred_on, amount, account_id, counter) {
        (Some(o), Some(a), Some(s), Some(d)) => transfer_checks(row, o, a, s, d),
        _ => seq![],
    }
}

#[verifier::spinoff_prover]
fn validate_transfer_row(index: u32, row: &Row, errors: &mut Vec<ImportRowError>)
    ensures
        errs_view(final(errors)@) == errs_view(old(errors)@) + tagged(index, "transfer"@, transfer_row_messages(*row)),
{
    let ghost e0 = errs_view(errors@);
    let occurred_on = required_str(row, "occurred_on", index, "transfer", errors);
    let amount = required_i64(row, "amount", index, "transfer", errors);
    let account_id = required_i64(row, "account_id", index, "transfer", errors);
    let counter_account_id = required_i64(row, "counter_account_id", index, "transfer", errors);
    let ghost e4 = errs_view(errors@);
    if value_present(row, "category_id") {
        push_error(errors, index, "transfer", owned("transfer rows must not have a category_id"));
    }
    let ghost p0 = missing_if(occurred_on is Some, "occurred_on"@);
    let ghost p1 = missing_if(amount is Some, "amount"@);
    let ghost p2 = missing_if(account_id is Some, "account_id"@);
    let ghost p3 = missing_if(counter_account_id is Some, "counter_account_id"@);
    let ghost p4 = if has_value(*row, "category_id"@) {
        seq!["transfer rows must not have a category_id"@]
    } else {
        seq![]
    };
    proof {
        lemma_tagged_add(index, "transfer"@, p0, p1);
        lemma_tagged_add(index, "transfer"@, p0 + p1, p2);
        lemma_tagged_add(index, "transfer"@, p0 + p1 + p2, p3);
        lemma_tagged_add(index, "transfer"@, p0 + p1 + p2 + p3, p4);
        assert(errs_view(errors@) =~= e0 + tagged(index, "transfer"@, p0 + p1 + p2 + p3 + p4));
    }
    let ghost e5 = errs_view(errors@);
    let ghost head = p0 + p1 + p2 + p3 + p4;
    match (occurred_on, amount, account_id, counter_account_id) {
        (Some(occurred_on), Some(amount), Some(account_id), Some(counter_account_id)) => {
            let description = match value_str(row, "description") {
                Some(d) => d,
                None => "",
            };
            proof {
                if text_field(*row, "description"@) is None {
                    reveal_strlit("");
                    assert(description@ =~= Seq::<char>::empty());
                }
            }
            let raw = crate::domain::ledger::RawTransferInput {
                occurred_on,
                amount,
                account_id,
                counter_account_id,
                description,
            };
            record(crate::domain::ledger::validate_transfer_input(&raw), index, "transfer", errors);
            proof {
                let checks = transfer_checks(*row, occurred_on@, amount, account_id, counter_account_id);
                assert(tagged(index, "transfer"@, checks) =~= (match transfer_problem_of(occurred_on@, amount, account_id, counter_account_id, description@) {
                    Some(m) => tagged(index, "transfer"@, seq![m]),
                    None => seq![],
                }));
                lemma_tagged_add(index, "transfer"@, head, checks);
            }
        },
        _ => {
            proof {
                lemma_tagged_add(index, "transfer"@, head, seq![]);
                assert(head + seq![] =~= head);
            }
        },
    }
}

/// The problems of a transaction row: a transfer row when its type says so,
/// otherwise an income or expense row.
pub open spec fn transaction_row_messages(row: Row, cats: Seq<CategoryView>) -> Seq<(Seq<char>, Seq<char>)> {
    match text_field(row, "type"@) {
        None => seq![("transaction"@, missing_message("type"@))],
        Some(t) => if t == "transfer"@ {
            transfer_row_messages(row).map_values(|m: Seq<char>| ("transfer"@, m))
        } else {
            income_expense_row_messages(t, row, cats).map_values(|m: Seq<char>| ("transaction"@, m))
        },
    }
}

/// Entity-tagged messages for one row.
pub open spec fn at_index(index: u32, msgs: Seq<(Seq<char>, Seq<char>)>) -> Seq<(u32, Seq<char>, Seq<char>)> {
    msgs.map_values(|p: (Seq<char>, Seq<char>)| (index, p.0, p.1))
}

#[verifier::spinoff_prover]
fn validate_transaction_row(index: u32, row: &Row, categories: &[Category], errors: &mut Vec<ImportRowError>)
    ensures
        errs_view(final(errors)@) == errs_view(old(errors)@) + at_index(
            index,
            transaction_row_messages(*row, categories@.map_values(|c: Category| category_view(c))),
        ),
{
    let ghost cats = categories@.map_values(|c: Category| category_view(c));
    let ghost e0 = errs_view(errors@);
    let type_ = match required_str(row, "type", index, "transaction", errors) {
        Some(t) => t,
        None => {
            assert(errs_view(errors@) =~= e0 + at_index(index, transaction_row_messages(*row, cats)));
            return;
        },
    };
    if str_equal(type_, "transfer") {
        validate_transfer_row(index, row, errors);
        assert(tagged(index, "transfer"@, transfer_row_messages(*row)) =~= at_index(index, transaction_row_messages(*row, cats)));
    } else {
        validate_income_expense_row(index, type_, row, categories, errors);
        assert(tagged(index, "transaction"@, income_expense_row_messages(type_@, *row, cats)) =~= at_index(index, transaction_row_messages(*row, cats)));
    }
}

// ---------------------------------------------------------------------------
// Budget rows
// ---------------------------------------------------------------------------

pub open spec fn quoted(prefix: Seq<char>, raw: Seq<char>) -> Seq<char> {
    prefix + raw + seq!['\'']
}

pub open spec fn ends_before_message(ends_on: Seq<char>, starts_on: Seq<char>) -> Seq<char> {
    "ends_on '"@ + ends_on + "' is before starts_on '"@ + starts_on + seq!['\'']
}

/// The check of an optional `ends_on` against a parsed start.
pub open spec fn ends_on_messages(row: Row, starts_on: Seq<char>, start: Date) -> Seq<Seq<char>> {
    match text_field(row, "ends_on"@) {
        Some(e) => match iso_date(e) {
            Some(end) => if date_lt(end, start) {
                seq![ends_before_message(e, starts_on)]
            } else {
                seq![]
            },
            None => seq![iso_date_message("ends_on"@, e)],
        },
        None => seq![],
    }
}

/// What a budget row adds once its required fields are there. Budgets are
/// monthly and start on the first of a month, as `set_budget` writes them, or
/// the month lookups would miss them. The category must be an expense
/// category; an archived one is allowed, since exports hold budgets of
/// categories archived later.
pub open spec fn budget_checks(
    row: Row,
    category_id: i64,
    period: Seq<char>,
    amount: i64,
    starts_on: Seq<char>,
    alert_threshold: i64,
    cats: Seq<CategoryView>,
) -> Seq<Seq<char>> {
    (if period != "monthly"@ {
        seq![quoted("period must be 'monthly', got '"@, period)]
    } else {
        seq![]
    }) + match iso_date(starts_on) {
        None => seq![iso_date_message("starts_on"@, starts_on)],
        Some(start) => (if start.day != 1 {
            seq![quoted("starts_on must be the first day of the month, got '"@, starts_on)]
        } else {
            seq![]
        }) + ends_on_messages(row, starts_on, start) + opt_msg(
            set_budget_problem(category_id, starts_on.subrange(0, 7), amount, alert_threshold),
        ) + match last_category(cats, category_id) {
            Some(v) => if v.1 != CategoryType::Expense {
                seq!["category "@ + decimal(category_id as int) + " is not an expense category"@]
            } else {
                seq![]
            },
            None => seq![],
        },
    }
}

/// The problems of a budget row.
pub open spec fn budget_row_messages(row: Row, cats: Seq<CategoryView>) -> Seq<Seq<char>> {
    let category_id = int_field(row, "category_id"@);
    let period = text_field(row, "period"@);
    let amount = int_field(row, "amount"@);
    let starts_on = text_field(row, "starts_on"@);
    let alert_threshold = int_field(row, "alert_threshold"@);
    missing_if(category_id is Some, "category_id"@) + missing_if(period is Some, "period"@) + missing_if(
        amount is Some,
        "amount"@,
    ) + missing_if(starts_on is Some, "starts_on"@) + missing_if(alert_threshold is Some, "alert_threshold"@)
        + match (category_id, period, amount, starts_on, alert_threshold) {
        (Some(c), Some(p), Some(a), Some(st), Some(t)) => budget_checks(row, c, p, a, st, t, cats),
        _ => seq![],
    }
}

fn quoted_text(prefix: &str, raw: &str) -> (r: String)
    ensures
        r@ == quoted(prefix@, raw@),
{
    let mut s = concat(owned(prefix), raw);
    push_char(&mut s, '\'');
    s
}

fn ends_before_text(ends_on: &str, starts_on: &str) -> (r: String)
    ensures
        r@ == ends_before_message(ends_on@, starts_on@),
{
    let mut s = concat(owned("ends_on '"), ends_on);
    s = concat(s, "' is before starts_on '");
    s = concat(s, starts_on);
    push_char(&mut s, '\'');
    s
}

/// Check an optional `ends_on` against the start `start` (written `starts_on`).
fn check_ends_on(index: u32, entity: &str, row: &Row, starts_on: &str, start: Date, errors: &mut Vec<ImportRowError>)
    ensures
        errs_view(final(errors)@) == errs_view(old(errors)@) + tagged(index, entity@, ends_on_messages(*row, starts_on@, start)),
{
    match value_str(row, "ends_on") {
        Some(ends_on) => match parse_iso_date("ends_on", ends_on) {
            Ok(end) => {
                if end.lt(&start) {
                    push_error(errors, index, entity, ends_before_text(ends_on, starts_on));
                    assert(tagged(index, entity@, ends_on_messages(*row, starts_on@, start)) =~= seq![(index, entity@, ends_before_message(ends_on@, starts_on@))]);
                } else {
                    assert(errs_view(errors@) =~= errs_view(errors@) + seq![]);
                }
            },
            Err(err) => {
                record::<()>(Err(err), index, entity, errors);
            },
        },
        None => {
            assert(errs_view(errors@) =~= errs_view(errors@) + seq![]);
        },
    }
}

/// The checks of a budget row that follow a readable start date.
pub open spec fn budget_start_checks(
    row: Row,
    category_id: i64,
    amount: i64,
    starts_on: Seq<char>,
    start: Date,
    alert_threshold: i64,
    cats: Seq<CategoryView>,
) -> Seq<Seq<char>> {
    (if start.day != 1 {
        seq![quoted("starts_on must be the first day of the month, got '"@, starts_on)]
    } else {
        seq![]
    }) + ends_on_messages(row, starts_on, start) + opt_msg(
        set_budget_problem(category_id, starts_on.subrange(0, 7), amount, alert_threshold),
    ) + match last_category(cats, category_id) {
        Some(v) => if v.1 != CategoryType::Expense {
            seq!["category "@ + decimal(category_id as int) + " is not an expense category"@]
        } else {
            seq![]
        },
        None => seq![],
    }
}

#[verifier::spinoff_prover]
fn check_budget_start(
    index: u32,
    row: &Row,
    category_id: i64,
    amount: i64,
    starts_on: &str,
    start: Date,
    alert_threshold: i64,
    categories: &[Category],
    errors: &mut Vec<ImportRowError>,
)
    requires
        iso_date(starts_on@) == Some(start),
    ensures
        errs_view(final(errors)@) == errs_view(old(errors)@) + tagged(
            index,
            "budget"@,
            budget_start_checks(*row, category_id, amount, starts_on@, start, alert_threshold, categories@.map_values(|c: Category| category_view(c))),
        ),
{
    let ghost cats = categories@.map_values(|c: Category| category_view(c));
    let ghost e2 = errs_view(old(errors)@);
    let ghost day_part = if start.day != 1 {
        seq![quoted("starts_on must be the first day of the month, got '"@, starts_on@)]
    } else {
        seq![]
    };
    if start.day != 1 {
        push_error(errors, index, "budget", quoted_text("starts_on must be the first day of the month, got '", starts_on));
    }
    proof {
        assert(errs_view(errors@) =~= e2 + tagged(index, "budget"@, day_part));
    }
    check_ends_on(index, "budget", row, starts_on, start, errors);
    let ghost ends_part = ends_on_messages(*row, starts_on@, start);
    let ghost e4 = errs_view(errors@);
    let year_month = starts_on.substring_char(0, 7);
    let raw = RawSetBudgetInput { category_id, year_month, amount, alert_threshold };
    record(validate_set_budget_input(&raw), index, "budget", errors);
    let ghost set_part = opt_msg(set_budget_problem(category_id, starts_on@.subrange(0, 7), amount, alert_threshold));
    proof {
        assert(errs_view(errors@) =~= e4 + tagged(index, "budget"@, set_part));
    }
    let ghost e5 = errs_view(errors@);
    let ghost cat_part = match last_category(cats, category_id) {
        Some(v) => if v.1 != CategoryType::Expense {
            seq!["category "@ + decimal(category_id as int) + " is not an expense category"@]
        } else {
            seq![]
        },
        None => seq![],
    };
    match find_category(categories, category_id) {
        Some(category) => {
            let is_expense = match category.type_ {
                CategoryType::Expense => true,
                CategoryType::Income => false,
            };
            if !is_expense {
                push_error(
                    errors,
                    index,
                    "budget",
                    concat(with_decimal("category ", category_id), " is not an expense category"),
                );
            }
        },
        None => {},
    }
    proof {
        assert(errs_view(errors@) =~= e5 + tagged(index, "budget"@, cat_part));
        lemma_tagged_add(index, "budget"@, day_part, ends_part);
        lemma_tagged_add(index, "budget"@, day_part + ends_part, set_part);
        lemma_tagged_add(index, "budget"@, day_part + ends_part + set_part, cat_part);
    }
}

#[verifier::spinoff_prover]
fn check_budget_fields(
    index: u32,
    row: &Row,
    category_id: i64,
    period: &str,
    amount: i64,
    starts_on: &str,
    alert_threshold: i64,
    categories: &[Category],
    errors: &mut Vec<ImportRowError>,
)
    ensures
        errs_view(final(errors)@) == errs_view(old(errors)@) + tagged(
            index,
            "budget"@,
            budget_checks(*row, category_id, period@, amount, starts_on@, alert_threshold, categories@.map_values(|c: Category| category_view(c))),
        ),
{
    let ghost cats = categories@.map_values(|c: Category| category_view(c));
    let ghost e1 = errs_view(old(errors)@);
    let ghost period_part = if period@ != "monthly"@ {
        seq![quoted("period must be 'monthly', got '"@, period@)]
    } else {
        seq![]
    };
    if !str_equal(period, "monthly") {
        push_error(errors, index, "budget", quoted_text("period must be 'monthly', got '", period));
    }
    proof {
        assert(errs_view(errors@) =~= e1 + tagged(index, "budget"@, period_part));
    }
    let ghost e2 = errs_view(errors@);
    match parse_iso_date("starts_on", starts_on) {
        Ok(start) => {
            check_budget_start(index, row, category_id, amount, starts_on, start, alert_threshold, categories, errors);
            proof {
                lemma_tagged_add(
                    index,
                    "budget"@,
                    period_part,
                    budget_start_checks(*row, category_id, amount, starts_on@, start, alert_threshold, cats),
                );
            }
        },
        Err(err) => {
            record::<()>(Err(err), index, "budget", errors);
            proof {
                lemma_tagged_add(index, "budget"@, period_part, seq![iso_date_message("starts_on"@, starts_on@)]);
            }
        },
    }
}

#[verifier::spinoff_prover]
fn validate_budget_row(index: u32, row: &Row, categories: &[Category], errors: &mut Vec<ImportRowError>)
    ensures
        errs_view(final(errors)@) == errs_view(old(errors)@) + tagged(
            index,
            "budget"@,
            budget_row_messages(*row, categories@.map_values(|c: Category| category_view(c))),
        ),
{
    let ghost cats = categories@.map_values(|c: Category| category_view(c));
    let ghost e0 = errs_view(errors@);
    let category_id = required_i64(row, "category_id", index, "budget", errors);
    let period = required_str(row, "period", index, "budget", errors);
    let amount = required_i64(row, "amount", index, "budget", errors);
    let starts_on = required_str(row, "starts_on", index, "budget", errors);
    let alert_threshold = required_i64(row, "alert_threshold", index, "budget", errors);
    let ghost head = missing_if(category_id is Some, "category_id"@) + missing_if(period is Some, "period"@)
        + missing_if(amount is Some, "amount"@) + missing_if(starts_on is Some, "starts_on"@) + missing_if(
        alert_threshold is Some,
        "alert_threshold"@,
    );
    proof {
        let p0 = missing_if(category_id is Some, "category_id"@);
        let p1 = missing_if(period is Some, "period"@);
        let p2 = missing_if(amount is Some, "amount"@);
        let p3 = missing_if(starts_on is Some, "starts_on"@);
        let p4 = missing_if(alert_threshold is Some, "alert_threshold"@);
        lemma_tagged_add(index, "budget"@, p0, p1);
        lemma_tagged_add(index, "budget"@, p0 + p1, p2);
        lemma_tagged_add(index, "budget"@, p0 + p1 + p2, p3);
        lemma_tagged_add(index, "budget"@, p0 + p1 + p2 + p3, p4);
        assert(errs_view(errors@) =~= e0 + tagged(index, "budget"@, head));
    }
    match (category_id, period, amount, starts_on, alert_threshold) {
        (Some(c), Some(p), Some(a), Some(st), Some(t)) => {
            check_budget_fields(index, row, c, p, a, st, t, categories, errors);
            proof {
                lemma_tagged_add(index, "budget"@, head, budget_checks(*row, c, p@, a, st@, t, cats));
            }
        },
        _ => {
            proof {
                lemma_tagged_add(index, "budget"@, head, seq![]);
                assert(head + seq![] =~= head);
            }
        },
    }
}

// ---------------------------------------------------------------------------
// Recurring rule rows
// ---------------------------------------------------------------------------

/// The first checks of a recurring rule row: type, amount, account and frequency.
pub open spec fn rule_core_messages(row: Row) -> Seq<Seq<char>> {
    rule_type_messages(row) + rule_amount_messages(row) + missing_if(int_field(row, "account_id"@) is Some, "account_id"@)
        + frequency_messages(row)
}

/// The day and active-flag checks of a recurring rule row.
pub open spec fn rule_day_messages(row: Row) -> Seq<Seq<char>> {
    (match int_field(row, "day_of_month"@) {
        Some(d) => if !(1 <= d <= 31) {
            seq!["day_of_month must be 1..=31, got "@ + decimal(d as int)]
        } else {
            seq![]
        },
        None => seq![],
    }) + (match int_field(row, "day_of_week"@) {
        Some(d) => if !(0 <= d <= 6) {
            seq!["day_of_week must be 0..=6, got "@ + decimal(d as int)]
        } else {
            seq![]
        },
        None => seq![],
    }) + (match int_field(row, "active"@) {
        Some(a) => if !(a == 0 || a == 1) {
            seq!["active must be 0 or 1, got "@ + decimal(a as int)]
        } else {
            seq![]
        },
        None => seq![],
    })
}

/// The field checks of a recurring rule row.
pub open spec fn rule_field_messages(row: Row) -> Seq<Seq<char>> {
    rule_core_messages(row) + rule_day_messages(row)
}

/// The date part of a recurring rule row's checks.
pub open spec fn rule_date_messages(row: Row) -> Seq<Seq<char>> {
    let starts = text_field(row, "starts_on"@);
    (match starts {
        None => seq![missing_message("starts_on"@)],
        Some(st) => if iso_date(st) is None {
            seq![iso_date_message("starts_on"@, st)]
        } else {
            seq![]
        },
    }) + (match text_field(row, "ends_on"@) {
        Some(e) => match iso_date(e) {
            Some(end) => match starts {
                Some(st) => match iso_date(st) {
                    Some(start) => if date_lt(end, start) {
                        seq![ends_before_message(e, st)]
                    } else {
                        seq![]
                    },
                    None => seq![],
                },
                None => seq![],
            },
            None => seq![iso_date_message("ends_on"@, e)],
        },
        None => seq![],
    }) + (match text_field(row, "last_generated_on"@) {
        Some(l) => if iso_date(l) is None {
            seq![iso_date_message("last_generated_on"@, l)]
        } else {
            seq![]
        },
        None => seq![],
    })
}

/// The problems of a recurring rule row: the database's CHECK constraints on
/// rules, reported per row instead of as a raw constraint failure.
pub open spec fn rule_row_messages(row: Row) -> Seq<Seq<char>> {
    rule_field_messages(row) + rule_date_messages(row)
}

/// Record a problem with `value` when `bad` holds.
fn flag_number(bad: bool, prefix: &str, value: i64, index: u32, errors: &mut Vec<ImportRowError>)
    ensures
        errs_view(final(errors)@) == errs_view(old(errors)@) + tagged(index, "recurring_rule"@, if bad {
            seq![prefix@ + decimal(value as int)]
        } else {
            seq![]
        }),
{
    if bad {
        push_error(errors, index, "recurring_rule", with_decimal(prefix, value));
        assert(tagged(index, "recurring_rule"@, seq![prefix@ + decimal(value as int)]) =~= seq![(index, "recurring_rule"@, prefix@ + decimal(value as int))]);
    } else {
        assert(errs_view(errors@) =~= errs_view(errors@) + seq![]);
    }
}

pub open spec fn frequency_messages(row: Row) -> Seq<Seq<char>> {
    match text_field(row, "frequency"@) {
        None => seq![missing_message("frequency"@)],
        Some(f) => if !(f == "monthly"@ || f == "weekly"@ || f == "yearly"@) {
            seq![quoted("frequency must be monthly|weekly|yearly, got '"@, f)]
        } else {
            seq![]
        },
    }
}

fn check_frequency(index: u32, row: &Row, errors: &mut Vec<ImportRowError>)
    ensures
        errs_view(final(errors)@) == errs_view(old(errors)@) + tagged(index, "recurring_rule"@, frequency_messages(*row)),
{
    let ghost e3 = errs_view(errors@);
    if let Some(frequency) = required_str(row, "frequency", index, "recurring_rule", errors) {
        if !(str_equal(frequency, "monthly") || str_equal(frequency, "weekly") || str_equal(frequency, "yearly")) {
            push_error(errors, index, "recurring_rule", quoted_text("frequency must be monthly|weekly|yearly, got '", frequency));
        }
    }
    assert(errs_view(errors@) =~= e3 + tagged(index, "recurring_rule"@, frequency_messages(*row)));
}

pub open spec fn rule_type_messages(row: Row) -> Seq<Seq<char>> {
    match text_field(row, "type"@) {
        None => seq![missing_message("type"@)],
        Some(t) => if TxType::from_sql(t) is None {
            seq![TxType::parse_message(t)]
        } else {
            seq![]
        },
    }
}

pub open spec fn rule_amount_messages(row: Row) -> Seq<Seq<char>> {
    match int_field(row, "amount"@) {
        None => seq![missing_message("amount"@)],
        Some(a) => if a <= 0 {
            seq!["amount must be positive, got "@ + decimal(a as int)]
        } else {
            seq![]
        },
    }
}

fn check_rule_type(index: u32, row: &Row, errors: &mut Vec<ImportRowError>)
    ensures
        errs_view(final(errors)@) == errs_view(old(errors)@) + tagged(index, "recurring_rule"@, rule_type_messages(*row)),
{
    let ghost e0 = errs_view(errors@);
    if let Some(type_) = required_str(row, "type", index, "recurring_rule", errors) {
        record(TxType::parse(type_), index, "recurring_rule", errors);
    }
    assert(errs_view(errors@) =~= e0 + tagged(index, "recurring_rule"@, rule_type_messages(*row)));
}

fn check_rule_amount(index: u32, row: &Row, errors: &mut Vec<ImportRowError>)
    ensures
        errs_view(final(errors)@) == errs_view(old(errors)@) + tagged(index, "recurring_rule"@, rule_amount_messages(*row)),
{
    let ghost e1 = errs_view(errors@);
    if let Some(amount) = required_i64(row, "amount", index, "recurring_rule", errors) {
        flag_number(amount <= 0, "amount must be positive, got ", amount, index, errors);
    }
    assert(errs_view(errors@) =~= e1 + tagged(index, "recurring_rule"@, rule_amount_messages(*row)));
}

fn check_rule_core(index: u32, row: &Row, errors: &mut Vec<ImportRowError>)
    ensures
        errs_view(final(errors)@) == errs_view(old(errors)@) + tagged(index, "recurring_rule"@, rule_core_messages(*row)),
{
    let ghost p0 = rule_type_messages(*row);
    let ghost p1 = rule_amount_messages(*row);
    let ghost p2 = missing_if(int_field(*row, "account_id"@) is Some, "account_id"@);
    let ghost p3 = frequency_messages(*row);
    check_rule_type(index, row, errors);
    check_rule_amount(index, row, errors);
    let _ = required_i64(row, "account_id", index, "recurring_rule", errors);
    check_frequency(index, row, errors);
    proof {
        let t = "recurring_rule"@;
        lemma_tagged_add(index, t, p0, p1);
        lemma_tagged_add(index, t, p0 + p1, p2);
        lemma_tagged_add(index, t, p0 + p1 + p2, p3);
    }
}

#[verifier::spinoff_prover]
fn check_rule_days(index: u32, row: &Row, errors: &mut Vec<ImportRowError>)
    ensures
        errs_view(final(errors)@) == errs_view(old(errors)@) + tagged(index, "recurring_rule"@, rule_day_messages(*row)),
{
    let ghost e4 = errs_view(errors@);
    let ghost p4 = match int_field(*row, "day_of_month"@) {
        Some(d) => if !(1 <= d <= 31) {
            seq!["day_of_month must be 1..=31, got "@ + decimal(d as int)]
        } else {
            seq![]
        },
        None => seq![],
    };
    match value_i64(row, "day_of_month") {
        Some(day) => flag_number(!(1 <= day && day <= 31), "day_of_month must be 1..=31, got ", day, index, errors),
        None => {},
    }
    assert(errs_view(errors@) =~= e4 + tagged(index, "recurring_rule"@, p4));
    let ghost e5 = errs_view(errors@);
    let ghost p5 = match int_field(*row, "day_of_week"@) {
        Some(d) => if !(0 <= d <= 6) {
            seq!["day_of_week must be 0..=6, got "@ + decimal(d as int)]
        } else {
            seq![]
        },
        None => seq![],
    };
    match value_i64(row, "day_of_week") {
        Some(day) => flag_number(!(0 <= day && day <= 6), "day_of_week must be 0..=6, got ", day, index, errors),
        None => {},
    }
    assert(errs_view(errors@) =~= e5 + tagged(index, "recurring_rule"@, p5));
    let ghost e6 = errs_view(errors@);
    let ghost p6 = match int_field(*row, "active"@) {
        Some(a) => if !(a == 0 || a == 1) {
            seq!["active must be 0 or 1, got "@ + decimal(a as int)]
        } else {
            seq![]
        },
        None => seq![],
    };
    match value_i64(row, "active") {
        Some(active) => flag_number(!(active == 0 || active == 1), "active must be 0 or 1, got ", active, index, errors),
        None => {},
    }
    assert(errs_view(errors@) =~= e6 + tagged(index, "recurring_rule"@, p6));
    proof {
        let t = "recurring_rule"@;
        lemma_tagged_add(index, t, p4, p5);
        lemma_tagged_add(index, t, p4 + p5, p6);
    }
}

fn check_rule_fields(index: u32, row: &Row, errors: &mut Vec<ImportRowError>)
    ensures
        errs_view(final(errors)@) == errs_view(old(errors)@) + tagged(index, "recurring_rule"@, rule_field_messages(*row)),
{
    check_rule_core(index, row, errors);
    check_rule_days(index, row, errors);
    proof {
        lemma_tagged_add(index, "recurring_rule"@, rule_core_messages(*row), rule_day_messages(*row));
    }
}

#[verifier::spinoff_prover]
fn check_rule_dates(index: u32, row: &Row, errors: &mut Vec<ImportRowError>)
    ensures
        errs_view(final(errors)@) == errs_view(old(errors)@) + tagged(index, "recurring_rule"@, rule_date_messages(*row)),
{
    let ghost e0 = errs_view(errors@);
    let ghost p0 = match text_field(*row, "starts_on"@) {
        None => seq![missing_message("starts_on"@)],
        Some(st) => if iso_date(st) is None {
            seq![iso_date_message("starts_on"@, st)]
        } else {
            seq![]
        },
    };
    let start: Option<(&str, Date)> = match required_str(row, "starts_on", index, "recurring_rule", errors) {
        Some(raw) => match parse_iso_date("starts_on", raw) {
            Ok(date) => {
                assert(errs_view(errors@) =~= errs_view(errors@) + seq![]);
                Some((raw, date))
            },
            Err(err) => {
                record::<()>(Err(err), index, "recurring_rule", errors);
                None
            },
        },
        None => None,
    };
    assert(errs_view(errors@) =~= e0 + tagged(index, "recurring_rule"@, p0));
    let ghost e1 = errs_view(errors@);
    let ghost p1 = match text_field(*row, "ends_on"@) {
        Some(e) => match iso_date(e) {
            Some(end) => match text_field(*row, "starts_on"@) {
                Some(st) => match iso_date(st) {
                    Some(sd) => if date_lt(end, sd) {
                        seq![ends_before_message(e, st)]
                    } else {
                        seq![]
                    },
                    None => seq![],
                },
                None => seq![],
            },
            None => seq![iso_date_message("ends_on"@, e)],
        },
        None => seq![],
    };
    match value_str(row, "ends_on") {
        Some(raw_ends_on) => match parse_iso_date("ends_on", raw_ends_on) {
            Ok(ends_on) => {
                match start {
                    Some((raw_starts_on, starts_on)) => {
                        if ends_on.lt(&starts_on) {
                            push_error(errors, index, "recurring_rule", ends_before_text(raw_ends_on, raw_starts_on));
                        }
                    },
                    None => {},
                }
            },
            Err(err) => {
                record::<()>(Err(err), index, "recurring_rule", errors);
            },
        },
        None => {},
    }
    assert(errs_view(errors@) =~= e1 + tagged(index, "recurring_rule"@, p1));
    let ghost e2 = errs_view(errors@);
    let ghost p2 = match text_field(*row, "last_generated_on"@) {
        Some(l) => if iso_date(l) is None {
            seq![iso_date_message("last_generated_on"@, l)]
        } else {
            seq![]
        },
        None => seq![],
    };
    match value_str(row, "last_generated_on") {
        Some(last) => {
            record(parse_iso_date("last_generated_on", last), index, "recurring_rule", errors);
        },
        None => {},
    }
    assert(errs_view(errors@) =~= e2 + tagged(index, "recurring_rule"@, p2));
    proof {
        let t = "recurring_rule"@;
        lemma_tagged_add(index, t, p0, p1);
        lemma_tagged_add(index, t, p0 + p1, p2);
    }
}

#[verifier::spinoff_prover]
fn validate_recurring_rule_row(index: u32, row: &Row, errors: &mut Vec<ImportRowError>)
    ensures
        errs_view(final(errors)@) == errs_view(old(errors)@) + tagged(index, "recurring_rule"@, rule_row_messages(*row)),
{
    check_rule_fields(index, row, errors);
    check_rule_dates(index, row, errors);
    proof {
        lemma_tagged_add(index, "recurring_rule"@, rule_field_messages(*row), rule_date_messages(*row));
    }
}

// ---------------------------------------------------------------------------
// The whole snapshot
// ---------------------------------------------------------------------------

pub open spec fn account_errors(rows: Seq<Row>) -> Seq<(u32, Seq<char>, Seq<char>)>
    decreases rows.len(),
{
    if rows.len() == 0 {
        seq![]
    } else {
        account_errors(rows.drop_last()) + tagged((rows.len() - 1) as u32, "account"@, account_row_messages(rows.last()))
    }
}

pub open spec fn category_errors(rows: Seq<Row>) -> Seq<(u32, Seq<char>, Seq<char>)>
    decreases rows.len(),
{
    if rows.len() == 0 {
        seq![]
    } else {
        category_errors(rows.drop_last()) + tagged((rows.len() - 1) as u32, "category"@, category_row_messages(rows.last()))
    }
}

pub open spec fn rule_errors(rows: Seq<Row>) -> Seq<(u32, Seq<char>, Seq<char>)>
    decreases rows.len(),
{
    if rows.len() == 0 {
        seq![]
    } else {
        rule_errors(rows.drop_last()) + tagged((rows.len() - 1) as u32, "recurring_rule"@, rule_row_messages(rows.last()))
    }
}

pub open spec fn transaction_errors(rows: Seq<Row>, cats: Seq<CategoryView>) -> Seq<(u32, Seq<char>, Seq<char>)>
    decreases rows.len(),
{
    if rows.len() == 0 {
        seq![]
    } else {
        transaction_errors(rows.drop_last(), cats) + at_index((rows.len() - 1) as u32, transaction_row_messages(rows.last(), cats))
    }
}

pub open spec fn budget_errors(rows: Seq<Row>, cats: Seq<CategoryView>) -> Seq<(u32, Seq<char>, Seq<char>)>
    decreases rows.len(),
{
    if rows.len() == 0 {
        seq![]
    } else {
        budget_errors(rows.drop_last(), cats) + tagged((rows.len() - 1) as u32, "budget"@, budget_row_messages(rows.last(), cats))
    }
}

/// Every problem of a snapshot: accounts, categories, recurring rules,
/// transactions, then budgets, each in row order.
pub open spec fn snapshot_errors(snap: Snapshot) -> Seq<(u32, Seq<char>, Seq<char>)> {
    let cats = snap.categories@.filter_map(|row: Row| row_category(row));
    account_errors(snap.accounts@) + category_errors(snap.categories@) + rule_errors(snap.recurring_rules@)
        + transaction_errors(snap.transactions@, cats) + budget_errors(snap.budgets@, cats)
}

/// Check every row of a snapshot without touching the database.
#[verifier::spinoff_prover]
pub fn collect_import_errors(snap: &Snapshot) -> (r: Vec<ImportRowError>)
    ensures
        errs_view(r@) == snapshot_errors(*snap),
{
    let mut errors: Vec<ImportRowError> = Vec::new();
    let categories = snapshot_categories(snap);
    let ghost cats = snap.categories@.filter_map(|row: Row| row_category(row));
    assert(errs_view(errors@) =~= seq![]);
    let mut k: usize = 0;
    while k < snap.accounts.len()
        invariant
            0 <= k <= snap.accounts.len(),
            errs_view(errors@) == account_errors(snap.accounts@.subrange(0, k as int)),
        decreases snap.accounts.len() - k,
    {
        assert(snap.accounts@.subrange(0, k + 1).drop_last() =~= snap.accounts@.subrange(0, k as int));
        validate_account_row(k as u32, &snap.accounts[k], &mut errors);
        k += 1;
    }
    assert(snap.accounts@.subrange(0, snap.accounts.len() as int) =~= snap.accounts@);
    let ghost after_accounts = errs_view(errors@);
    let mut k: usize = 0;
    while k < snap.categories.len()
        invariant
            0 <= k <= snap.categories.len(),
            errs_view(errors@) == after_accounts + category_errors(snap.categories@.subrange(0, k as int)),
        decreases snap.categories.len() - k,
    {
        assert(snap.categories@.subrange(0, k + 1).drop_last() =~= snap.categories@.subrange(0, k as int));
        validate_category_row(k as u32, &snap.categories[k], &mut errors);
        k += 1;
    }
    assert(snap.categories@.subrange(0, snap.categories.len() as int) =~= snap.categories@);
    let ghost after_categories = errs_view(errors@);
    let mut k: usize = 0;
    while k < snap.recurring_rules.len()
        invariant
            0 <= k <= snap.recurring_rules.len(),
            errs_view(errors@) == after_categories + rule_errors(snap.recurring_rules@.subrange(0, k as int)),
        decreases snap.recurring_rules.len() - k,
    {
        assert(snap.recurring_rules@.subrange(0, k + 1).drop_last() =~= snap.recurring_rules@.subrange(0, k as int));
        validate_recurring_rule_row(k as u32, &snap.recurring_rules[k], &mut errors);
        k += 1;
    }
    assert(snap.recurring_rules@.subrange(0, snap.recurring_rules.len() as int) =~= snap.recurring_rules@);
    let ghost after_rules = errs_view(errors@);
    let mut k: usize = 0;
    while k < snap.transactions.len()
        invariant
            0 <= k <= snap.transactions.len(),
            categories@.map_values(|c: Category| category_view(c)) == cats,
            errs_view(errors@) == after_rules + transaction_errors(snap.transactions@.subrange(0, k as int), cats),
        decreases snap.transactions.len() - k,
    {
        assert(snap.transactions@.subrange(0, k + 1).drop_last() =~= snap.transactions@.subrange(0, k as int));
        validate_transaction_row(k as u32, &snap.transactions[k], categories.as_slice(), &mut errors);
        k += 1;
    }
    assert(snap.transactions@.subrange(0, snap.transactions.len() as int) =~= snap.transactions@);
    let ghost after_transactions = errs_view(errors@);
    let mut k: usize = 0;
    while k < snap.budgets.len()
        invariant
            0 <= k <= snap.budgets.len(),
            categories@.map_values(|c: Category| category_view(c)) == cats,
            errs_view(errors@) == after_transactions + budget_errors(snap.budgets@.subrange(0, k as int), cats),
        decreases snap.budgets.len() - k,
    {
        assert(snap.budgets@.subrange(0, k + 1).drop_last() =~= snap.budgets@.subrange(0, k as int));
        validate_budget_row(k as u32, &snap.budgets[k], categories.as_slice(), &mut errors);
        k += 1;
    }
    assert(snap.budgets@.subrange(0, snap.budgets.len() as int) =~= snap.budgets@);
    errors
}

/// `entity[index]: message` of a row error given as plain values.
pub open spec fn error_text(e: (u32, Seq<char>, Seq<char>)) -> Seq<char> {
    e.1 + seq!['['] + decimal(e.0 as int) + seq![']', ':', ' '] + e.2
}

/// Row error texts joined with `"; "`.
pub open spec fn joined_view(errors: Seq<(u32, Seq<char>, Seq<char>)>) -> Seq<char>
    decreases errors.len(),
{
    if errors.len() == 0 {
        Seq::empty()
    } else if errors.len() == 1 {
        error_text(errors[0])
    } else {
        joined_view(errors.drop_last()) + seq![';', ' '] + error_text(errors.last())
    }
}

proof fn lemma_joined_view(errors: Seq<ImportRowError>)
    ensures
        joined_texts(errors) == joined_view(errs_view(errors)),
    decreases errors.len(),
{
    if errors.len() > 1 {
        lemma_joined_view(errors.drop_last());
        assert(errs_view(errors.drop_last()) =~= errs_view(errors).drop_last());
    }
}

pub open spec fn payload_too_large_message() -> Seq<char> {
    "payload exceeds 10485760 bytes"@
}

pub open spec fn version_message(v: u32) -> Seq<char> {
    "unsupported backup format version "@ + decimal(v as int)
        + " (expected 1); this is not app_meta.schema_version"@
}

/// Check a decoded backup payload before anything is written: its size in
/// bytes, that it decoded, its format version, the import mode, and every row.
/// `decoded` is the payload read as a snapshot, or the reader's error text.
pub fn parse_snapshot(payload_len: usize, decoded: Result<Snapshot, String>, mode: &str) -> (r: AppResult<(Snapshot, ImportMode)>)
    ensures
        payload_len > MAX_PAYLOAD_BYTES ==> (r matches Err(e) && invalid_argument(e, payload_too_large_message())),
        payload_len <= MAX_PAYLOAD_BYTES ==> match decoded {
            Err(t) => r matches Err(e) && invalid_argument(e, "invalid backup JSON: "@ + t@),
            Ok(snap) => if snap.schema_version != BACKUP_FORMAT_VERSION {
                r matches Err(e) && invalid_argument(e, version_message(snap.schema_version))
            } else {
                match ImportMode::from_text(mode@) {
                    None => r matches Err(e) && invalid_argument(e, "unknown mode '"@ + mode@ + seq!['\'']),
                    Some(m) => if snapshot_errors(snap).len() > 0 {
                        r matches Err(AppError::ImportValidation(t)) && t@ == joined_view(snapshot_errors(snap))
                    } else {
                        r == Ok::<(Snapshot, ImportMode), AppError>((snap, m))
                    },
                }
            },
        },
{
    if payload_len > MAX_PAYLOAD_BYTES {
        return Err(crate::error::invalid("payload exceeds 10485760 bytes"));
    }
    let snap = match decoded {
        Ok(snap) => snap,
        Err(text) => {
            return Err(AppError::InvalidArgument(concat(owned("invalid backup JSON: "), text.as_str())));
        },
    };
    if snap.schema_version != BACKUP_FORMAT_VERSION {
        let s = concat(
            with_decimal("unsupported backup format version ", snap.schema_version as i64),
            " (expected 1); this is not app_meta.schema_version",
        );
        return Err(AppError::InvalidArgument(s));
    }
    let mode = ImportMode::parse(mode)?;
    let errors = collect_import_errors(&snap);
    if errors.len() > 0 {
        proof {
            lemma_joined_view(errors@);
        }
        return Err(AppError::ImportValidation(ImportRowError::join_all(errors.as_slice())));
    }
    Ok((snap, mode))
}

// ---------------------------------------------------------------------------
// Remapping ids during an import
// ---------------------------------------------------------------------------

/// The new id an old id was given (pairs recorded later take precedence).
pub open spec fn mapped_id(map: Seq<(i64, i64)>, old_id: i64) -> Option<i64>
    decreases map.len(),
{
    if map.len() == 0 {
        None
    } else if map.last().0 == old_id {
        Some(map.last().1)
    } else {
        mapped_id(map.drop_last(), old_id)
    }
}

pub open spec fn skipped_message(label: Seq<char>, old_id: i64) -> Seq<char> {
    "skipped "@ + label + " referencing missing id "@ + decimal(old_id as int)
}

/// The new id for `old_id`. When there is none, an append import skips the
/// row with a warning and an overwrite import fails.
pub fn resolve_required(map: &[(i64, i64)], old_id: i64, label: &str, mode: ImportMode, warnings: &mut Vec<String>) -> (r: AppResult<Option<i64>>)
    ensures
        match mapped_id(map@, old_id) {
            Some(n) => r == Ok::<Option<i64>, AppError>(Some(n)) && final(warnings)@ == old(warnings)@,
            None => match mode {
                ImportMode::Append => r == Ok::<Option<i64>, AppError>(None) && final(warnings)@.len() == old(warnings)@.len() + 1
                    && final(warnings)@.drop_last() == old(warnings)@ && final(warnings)@.last()@ == skipped_message(label@, old_id),
                ImportMode::Overwrite => r matches Err(e) && invalid_argument(e, skipped_message(label@, old_id))
                    && final(warnings)@ == old(warnings)@,
            },
        },
{
    let mut i = map.len();
    assert(map@.subrange(0, i as int) =~= map@);
    while i > 0
        invariant
            0 <= i <= map.len(),
            mapped_id(map@, old_id) == mapped_id(map@.subrange(0, i as int), old_id),
        decreases i,
    {
        assert(map@.subrange(0, i as int).drop_last() =~= map@.subrange(0, i - 1));
        if map[i - 1].0 == old_id {
            return Ok(Some(map[i - 1].1));
        }
        i -= 1;
    }
    let mut message = concat(owned("skipped "), label);
    message = concat(message, " referencing missing id ");
    crate::text::push_decimal(&mut message, old_id);
    assert(message@ =~= skipped_message(label@, old_id));
    match mode {
        ImportMode::Append => {
            warnings.push(message);
            Ok(None)
        },
        ImportMode::Overwrite => Err(AppError::InvalidArgument(message)),
    }
}

/// `resolve_required` for an optional reference: no reference stays none.
pub fn resolve_optional(map: &[(i64, i64)], old_id: Option<i64>, label: &str, mode: ImportMode, warnings: &mut Vec<String>) -> (r: AppResult<Option<Option<i64>>>)
    ensures
        match old_id {
            None => r == Ok::<Option<Option<i64>>, AppError>(Some(None)) && final(warnings)@ == old(warnings)@,
            Some(id) => match mapped_id(map@, id) {
                Some(n) => r == Ok::<Option<Option<i64>>, AppError>(Some(Some(n))) && final(warnings)@ == old(warnings)@,
                None => match mode {
                    ImportMode::Append => r == Ok::<Option<Option<i64>>, AppError>(None) && final(warnings)@.len() == old(warnings)@.len() + 1
                        && final(warnings)@.drop_last() == old(warnings)@ && final(warnings)@.last()@ == skipped_message(label@, id),
                    ImportMode::Overwrite => r matches Err(e) && invalid_argument(e, skipped_message(label@, id))
                        && final(warnings)@ == old(warnings)@,
                },
            },
        },
{
    match old_id {
        Some(id) => match resolve_required(map, id, label, mode, warnings) {
            Ok(Some(n)) => Ok(Some(Some(n))),
            Ok(None) => Ok(None),
            Err(e) => Err(e),
        },
        None => Ok(Some(None)),
    }
}

/// Whether an `app_meta` entry of a backup is written back by an overwrite
/// import: not an empty key, not the schema version, and not the time of the
/// last backup (which belongs to this installation).
pub fn restorable_meta_key(key: &str) -> (r: bool)
    ensures
        r == !(key@.len() == 0 || key@ == "schema_version"@ || key@ == "last_backup_at"@),
{
    let empty = key.unicode_len() == 0;
    !(empty || str_equal(key, "schema_version") || str_equal(key, "last_backup_at"))
}

} // verus!
