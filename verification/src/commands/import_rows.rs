//! What an import writes for each row of a backup: the column values, with
//! the defaults an incomplete row falls back to, and the references
//! remapped to the ids this database gave the referenced rows.
//!
//! An overwrite import keeps the backup's ids; an append import lets the
//! database choose new ones and records which new id each old id became.

use vstd::prelude::*;
use crate::commands::backup::{
    ImportMode, ImportResult, Row, int_field, mapped_id, resolve_optional, resolve_required, skipped_message, text_field,
    value_i64, value_str,
};
use crate::error::{AppError, AppResult, invalid_argument};
use crate::text::{concat, decimal, owned, with_decimal};

verus! {

broadcast use vstd::string::group_string_axioms;

/// What an incomplete row falls back to for a creation or update time.
pub const EPOCH_STAMP: &'static str = "1970-01-01T00:00:00Z";

/// What an incomplete row falls back to for a start date.
pub const EPOCH_DATE: &'static str = "1970-01-01";

/// `row[key]` as text, or `default` when it is not a string.
pub open spec fn text_or(row: Row, key: Seq<char>, default: Seq<char>) -> Seq<char> {
    match text_field(row, key) {
        Some(s) => s,
        None => default,
    }
}

/// `row[key]` as an integer, or `default` when it is not one.
pub open spec fn int_or(row: Row, key: Seq<char>, default: i64) -> i64 {
    match int_field(row, key) {
        Some(n) => n,
        None => default,
    }
}

/// An optional text as a plain value.
pub open spec fn opt_view(o: Option<String>) -> Option<Seq<char>> {
    match o {
        Some(s) => Some(s@),
        None => None,
    }
}

/// The id written for a row: an overwrite keeps the backup's id (none when
/// the row has no integer id), an append lets the database choose.
pub open spec fn kept_id(row: Row, mode: ImportMode) -> Option<i64> {
    match mode {
        ImportMode::Overwrite => int_field(row, "id"@),
        ImportMode::Append => None,
    }
}

fn str_or(row: &Row, key: &str, default: &str) -> (r: String)
    ensures
        r@ == text_or(*row, key@, default@),
{
    match value_str(row, key) {
        Some(s) => owned(s),
        None => owned(default),
    }
}

fn opt_string(row: &Row, key: &str) -> (r: Option<String>)
    ensures
        opt_view(r) == text_field(*row, key@),
{
    match value_str(row, key) {
        Some(s) => Some(owned(s)),
        None => None,
    }
}

fn i64_or(row: &Row, key: &str, default: i64) -> (r: i64)
    ensures
        r == int_or(*row, key@, default),
{
    match value_i64(row, key) {
        Some(n) => n,
        None => default,
    }
}

fn id_for(row: &Row, mode: ImportMode) -> (r: Option<i64>)
    ensures
        r == kept_id(*row, mode),
{
    match mode {
        ImportMode::Overwrite => value_i64(row, "id"),
        ImportMode::Append => None,
    }
}

/// `row[key]` as an integer; a row without it stops the whole import.
pub fn require_i64(row: &Row, key: &str, label: &str) -> (r: AppResult<i64>)
    ensures
        match int_field(*row, key@) {
            Some(n) => r == Ok::<i64, AppError>(n),
            None => r matches Err(e) && invalid_argument(e, label@ + " missing required "@ + key@),
        },
{
    match value_i64(row, key) {
        Some(n) => Ok(n),
        None => {
            let s = concat(owned(label), " missing required ");
            Err(AppError::InvalidArgument(concat(s, key)))
        },
    }
}

// ---------------------------------------------------------------------------
// Column values
// ---------------------------------------------------------------------------

/// The columns of an imported account.
#[derive(Debug, Clone, PartialEq, Eq)]
pub struct AccountValues {
    pub id: Option<i64>,
    pub name: String,
    pub kind: String,
    pub currency: String,
    pub initial_balance: i64,
    pub display_order: i64,
    pub note: String,
    pub archived_at: Option<String>,
    pub created_at: String,
    pub updated_at: String,
}

pub fn account_values(row: &Row, mode: ImportMode) -> (r: AccountValues)
    ensures
        r.id == kept_id(*row, mode),
        r.name@ == text_or(*row, "name"@, ""@),
        r.kind@ == text_or(*row, "kind"@, "cash"@),
        r.currency@ == text_or(*row, "currency"@, "JPY"@),
        r.initial_balance == int_or(*row, "initial_balance"@, 0),
        r.display_order == int_or(*row, "display_order"@, 0),
        r.note@ == text_or(*row, "note"@, ""@),
        opt_view(r.archived_at) == text_field(*row, "archived_at"@),
        r.created_at@ == text_or(*row, "created_at"@, EPOCH_STAMP@),
        r.updated_at@ == text_or(*row, "updated_at"@, EPOCH_STAMP@),
{
    AccountValues {
        id: id_for(row, mode),
        name: str_or(row, "name", ""),
        kind: str_or(row, "kind", "cash"),
        currency: str_or(row, "currency", "JPY"),
        initial_balance: i64_or(row, "initial_balance", 0),
        display_order: i64_or(row, "display_order", 0),
        note: str_or(row, "note", ""),
        archived_at: opt_string(row, "archived_at"),
        created_at: str_or(row, "created_at", EPOCH_STAMP),
        updated_at: str_or(row, "updated_at", EPOCH_STAMP),
    }
}

/// The columns of an imported category.
#[derive(Debug, Clone, PartialEq, Eq)]
pub struct CategoryValues {
    pub id: Option<i64>,
    pub name: String,
    pub type_: String,
    pub color: Option<String>,
    pub icon: Option<String>,
    pub display_order: i64,
    pub archived_at: Option<String>,
}

pub fn category_values(row: &Row, mode: ImportMode) -> (r: CategoryValues)
    ensures
        r.id == kept_id(*row, mode),
        r.name@ == text_or(*row, "name"@, ""@),
        r.type_@ == text_or(*row, "type"@, "expense"@),
        opt_view(r.color) == text_field(*row, "color"@),
        opt_view(r.icon) == text_field(*row, "icon"@),
        r.display_order == int_or(*row, "display_order"@, 0),
        opt_view(r.archived_at) == text_field(*row, "archived_at"@),
{
    CategoryValues {
        id: id_for(row, mode),
        name: str_or(row, "name", ""),
        type_: str_or(row, "type", "expense"),
        color: opt_string(row, "color"),
        icon: opt_string(row, "icon"),
        display_order: i64_or(row, "display_order", 0),
        archived_at: opt_string(row, "archived_at"),
    }
}

/// The columns of an imported recurring rule, its references already remapped.
#[derive(Debug, Clone, PartialEq, Eq)]
pub struct RuleValues {
    pub id: Option<i64>,
    pub name: String,
    pub type_: String,
    pub amount: i64,
    pub account_id: i64,
    pub counter_account_id: Option<i64>,
    pub category_id: Option<i64>,
    pub description: String,
    pub frequency: String,
    pub day_of_month: Option<i64>,
    pub day_of_week: Option<i64>,
    pub starts_on: String,
    pub ends_on: Option<String>,
    pub last_generated_on: Option<String>,
    pub active: i64,
}

pub fn rule_values(row: &Row, mode: ImportMode, refs: (i64, Option<i64>, Option<i64>)) -> (r: RuleValues)
    ensures
        r.id == kept_id(*row, mode),
        r.name@ == text_or(*row, "name"@, ""@),
        r.type_@ == text_or(*row, "type"@, "expense"@),
        r.amount == int_or(*row, "amount"@, 0),
        r.account_id == refs.0,
        r.counter_account_id == refs.1,
        r.category_id == refs.2,
        r.description@ == text_or(*row, "description"@, ""@),
        r.frequency@ == text_or(*row, "frequency"@, "monthly"@),
        r.day_of_month == int_field(*row, "day_of_month"@),
        r.day_of_week == int_field(*row, "day_of_week"@),
        r.starts_on@ == text_or(*row, "starts_on"@, EPOCH_DATE@),
        opt_view(r.ends_on) == text_field(*row, "ends_on"@),
        opt_view(r.last_generated_on) == text_field(*row, "last_generated_on"@),
        r.active == int_or(*row, "active"@, 1),
{
    RuleValues {
        id: id_for(row, mode),
        name: str_or(row, "name", ""),
        type_: str_or(row, "type", "expense"),
        amount: i64_or(row, "amount", 0),
        account_id: refs.0,
        counter_account_id: refs.1,
        category_id: refs.2,
        description: str_or(row, "description", ""),
        frequency: str_or(row, "frequency", "monthly"),
        day_of_month: value_i64(row, "day_of_month"),
        day_of_week: value_i64(row, "day_of_week"),
        starts_on: str_or(row, "starts_on", EPOCH_DATE),
        ends_on: opt_string(row, "ends_on"),
        last_generated_on: opt_string(row, "last_generated_on"),
        active: i64_or(row, "active", 1),
    }
}

/// The columns of an imported transaction, its references already remapped.
#[derive(Debug, Clone, PartialEq, Eq)]
pub struct TransactionValues {
    pub id: Option<i64>,
    pub occurred_on: String,
    pub type_: String,
    pub amount: i64,
    pub account_id: i64,
    pub counter_account_id: Option<i64>,
    pub category_id: Option<i64>,
    pub description: String,
    pub recurring_id: Option<i64>,
    pub created_at: String,
    pub updated_at: String,
}

pub fn transaction_values(row: &Row, mode: ImportMode, refs: (i64, Option<i64>, Option<i64>, Option<i64>)) -> (r: TransactionValues)
    ensures
        r.id == kept_id(*row, mode),
        r.occurred_on@ == text_or(*row, "occurred_on"@, ""@),
        r.type_@ == text_or(*row, "type"@, "expense"@),
        r.amount == int_or(*row, "amount"@, 0),
        r.account_id == refs.0,
        r.counter_account_id == refs.1,
        r.category_id == refs.2,
        r.recurring_id == refs.3,
        r.description@ == text_or(*row, "description"@, ""@),
        r.created_at@ == text_or(*row, "created_at"@, EPOCH_STAMP@),
        r.updated_at@ == text_or(*row, "updated_at"@, EPOCH_STAMP@),
{
    TransactionValues {
        id: id_for(row, mode),
        occurred_on: str_or(row, "occurred_on", ""),
        type_: str_or(row, "type", "expense"),
        amount: i64_or(row, "amount", 0),
        account_id: refs.0,
        counter_account_id: refs.1,
        category_id: refs.2,
        description: str_or(row, "description", ""),
        recurring_id: refs.3,
        created_at: str_or(row, "created_at", EPOCH_STAMP),
        updated_at: str_or(row, "updated_at", EPOCH_STAMP),
    }
}

/// The columns of an imported budget, its category already remapped.
#[derive(Debug, Clone, PartialEq, Eq)]
pub struct BudgetValues {
    pub id: Option<i64>,
    pub category_id: i64,
    pub period: String,
    pub amount: i64,
    pub starts_on: String,
    pub ends_on: Option<String>,
    pub alert_threshold: i64,
}

pub fn budget_values(row: &Row, mode: ImportMode, category_id: i64) -> (r: BudgetValues)
    ensures
        r.id == kept_id(*row, mode),
        r.category_id == category_id,
        r.period@ == text_or(*row, "period"@, "monthly"@),
        r.amount == int_or(*row, "amount"@, 0),
        r.starts_on@ == text_or(*row, "starts_on"@, EPOCH_DATE@),
        opt_view(r.ends_on) == text_field(*row, "ends_on"@),
        r.alert_threshold == int_or(*row, "alert_threshold"@, 80),
{
    BudgetValues {
        id: id_for(row, mode),
        category_id,
        period: str_or(row, "period", "monthly"),
        amount: i64_or(row, "amount", 0),
        starts_on: str_or(row, "starts_on", EPOCH_DATE),
        ends_on: opt_string(row, "ends_on"),
        alert_threshold: i64_or(row, "alert_threshold", 80),
    }
}

// ---------------------------------------------------------------------------
// References
// ---------------------------------------------------------------------------

/// An optional reference remapped: `Some(None)` when there is none,
/// `Some(Some(new))` when its target was imported, `None` when it was not.
pub open spec fn remapped(map: Seq<(i64, i64)>, old_id: Option<i64>) -> Option<Option<i64>> {
    match old_id {
        None => Some(None),
        Some(id) => match mapped_id(map, id) {
            Some(n) => Some(Some(n)),
            None => None,
        },
    }
}

/// A row whose reference was not imported: an append import skips it and
/// records `msg` as a warning, an overwrite import fails with `msg`.
pub open spec fn skipped_or_failed<T>(
    r: AppResult<Option<T>>,
    before: Seq<String>,
    after: Seq<String>,
    mode: ImportMode,
    msg: Seq<char>,
) -> bool {
    match mode {
        ImportMode::Append => r is Ok && r->Ok_0 is None && after.len() == before.len() + 1 && after.drop_last() == before
            && after.last()@ == msg,
        ImportMode::Overwrite => r matches Err(e) && invalid_argument(e, msg) && after == before,
    }
}

/// The account, counter account and category of a recurring rule, remapped;
/// `None` when an append import skips the rule. They are resolved in that
/// order and the first one that was not imported decides.
pub fn rule_refs(
    row: &Row,
    mode: ImportMode,
    accounts: &[(i64, i64)],
    categories: &[(i64, i64)],
    warnings: &mut Vec<String>,
) -> (r: AppResult<Option<(i64, Option<i64>, Option<i64>)>>)
    ensures
        match int_field(*row, "account_id"@) {
            None => r matches Err(e) && invalid_argument(e, "recurring rule missing required account_id"@)
                && final(warnings)@ == old(warnings)@,
            Some(old_account) => {
                let counter = int_field(*row, "counter_account_id"@);
                let category = int_field(*row, "category_id"@);
                if mapped_id(accounts@, old_account) is None {
                    skipped_or_failed(r, old(warnings)@, final(warnings)@, mode,
                        skipped_message("recurring rule account"@, old_account))
                } else if remapped(accounts@, counter) is None {
                    skipped_or_failed(r, old(warnings)@, final(warnings)@, mode,
                        skipped_message("recurring rule counter account"@, counter->0))
                } else if remapped(categories@, category) is None {
                    skipped_or_failed(r, old(warnings)@, final(warnings)@, mode,
                        skipped_message("recurring rule category"@, category->0))
                } else {
                    r == Ok::<Option<(i64, Option<i64>, Option<i64>)>, AppError>(Some((
                        mapped_id(accounts@, old_account)->0,
                        remapped(accounts@, counter)->0,
                        remapped(categories@, category)->0,
                    ))) && final(warnings)@ == old(warnings)@
                }
            },
        },
{
    let old_account = match require_i64(row, "account_id", "recurring rule") {
        Ok(n) => n,
        Err(e) => {
            proof {
                reveal_strlit("recurring rule");
                reveal_strlit(" missing required ");
                reveal_strlit("account_id");
                reveal_strlit("recurring rule missing required account_id");
                assert("recurring rule"@ + " missing required "@ + "account_id"@ =~= "recurring rule missing required account_id"@);
            }
            return Err(e);
        },
    };
    let account_id = match resolve_required(accounts, old_account, "recurring rule account", mode, warnings)? {
        Some(n) => n,
        None => {
            return Ok(None);
        },
    };
    let counter_account_id = match resolve_optional(
        accounts,
        value_i64(row, "counter_account_id"),
        "recurring rule counter account",
        mode,
        warnings,
    )? {
        Some(c) => c,
        None => {
            return Ok(None);
        },
    };
    let category_id = match resolve_optional(
        categories,
        value_i64(row, "category_id"),
        "recurring rule category",
        mode,
        warnings,
    )? {
        Some(c) => c,
        None => {
            return Ok(None);
        },
    };
    Ok(Some((account_id, counter_account_id, category_id)))
}

/// The account, counter account, category and recurring rule of a
/// transaction, remapped; `None` when an append import skips it. They are
/// resolved in that order and the first one that was not imported decides.
pub fn transaction_refs(
    row: &Row,
    mode: ImportMode,
    accounts: &[(i64, i64)],
    categories: &[(i64, i64)],
    rules: &[(i64, i64)],
    warnings: &mut Vec<String>,
) -> (r: AppResult<Option<(i64, Option<i64>, Option<i64>, Option<i64>)>>)
    ensures
        match int_field(*row, "account_id"@) {
            None => r matches Err(e) && invalid_argument(e, "transaction missing required account_id"@)
                && final(warnings)@ == old(warnings)@,
            Some(old_account) => {
                let counter = int_field(*row, "counter_account_id"@);
                let category = int_field(*row, "category_id"@);
                let rule = int_field(*row, "recurring_id"@);
                if mapped_id(accounts@, old_account) is None {
                    skipped_or_failed(r, old(warnings)@, final(warnings)@, mode,
                        skipped_message("transaction account"@, old_account))
                } else if remapped(accounts@, counter) is None {
                    skipped_or_failed(r, old(warnings)@, final(warnings)@, mode,
                        skipped_message("transaction counter account"@, counter->0))
                } else if remapped(categories@, category) is None {
                    skipped_or_failed(r, old(warnings)@, final(warnings)@, mode,
                        skipped_message("transaction category"@, category->0))
                } else if remapped(rules@, rule) is None {
                    skipped_or_failed(r, old(warnings)@, final(warnings)@, mode,
                        skipped_message("transaction recurring rule"@, rule->0))
                } else {
                    r == Ok::<Option<(i64, Option<i64>, Option<i64>, Option<i64>)>, AppError>(Some((
                        mapped_id(accounts@, old_account)->0,
                        remapped(accounts@, counter)->0,
                        remapped(categories@, category)->0,
                        remapped(rules@, rule)->0,
                    ))) && final(warnings)@ == old(warnings)@
                }
            },
        },
{
    let old_account = match require_i64(row, "account_id", "transaction") {
        Ok(n) => n,
        Err(e) => {
            proof {
                reveal_strlit("transaction");
                reveal_strlit(" missing required ");
                reveal_strlit("account_id");
                reveal_strlit("transaction missing required account_id");
                assert("transaction"@ + " missing required "@ + "account_id"@ =~= "transaction missing required account_id"@);
            }
            return Err(e);
        },
    };
    let account_id = match resolve_required(accounts, old_account, "transaction account", mode, warnings)? {
        Some(n) => n,
        None => {
            return Ok(None);
        },
    };
    let counter_account_id = match resolve_optional(
        accounts,
        value_i64(row, "counter_account_id"),
        "transaction counter account",
        mode,
        warnings,
    )? {
        Some(c) => c,
        None => {
            return Ok(None);
        },
    };
    let category_id = match resolve_optional(
        categories,
        value_i64(row, "category_id"),
        "transaction category",
        mode,
        warnings,
    )? {
        Some(c) => c,
        None => {
            return Ok(None);
        },
    };
    let recurring_id = match resolve_optional(
        rules,
        value_i64(row, "recurring_id"),
        "transaction recurring rule",
        mode,
        warnings,
    )? {
        Some(c) => c,
        None => {
            return Ok(None);
        },
    };
    Ok(Some((account_id, counter_account_id, category_id, recurring_id)))
}

/// The category of a budget, remapped; `None` when an append import skips it.
pub fn budget_ref(row: &Row, mode: ImportMode, categories: &[(i64, i64)], warnings: &mut Vec<String>) -> (r: AppResult<Option<i64>>)
    ensures
        match int_field(*row, "category_id"@) {
            None => r matches Err(e) && invalid_argument(e, "budget missing required category_id"@)
                && final(warnings)@ == old(warnings)@,
            Some(old_category) => match mapped_id(categories@, old_category) {
                Some(n) => r == Ok::<Option<i64>, AppError>(Some(n)) && final(warnings)@ == old(warnings)@,
                None => skipped_or_failed(r, old(warnings)@, final(warnings)@, mode,
                    skipped_message("budget category"@, old_category)),
            },
        },
{
    let old_category = match require_i64(row, "category_id", "budget") {
        Ok(n) => n,
        Err(e) => {
            proof {
                reveal_strlit("budget");
                reveal_strlit(" missing required ");
                reveal_strlit("category_id");
                reveal_strlit("budget missing required category_id");
                assert("budget"@ + " missing required "@ + "category_id"@ =~= "budget missing required category_id"@);
            }
            return Err(e);
        },
    };
    resolve_required(categories, old_category, "budget category", mode, warnings)
}

// ---------------------------------------------------------------------------
// Rows the database already has
// ---------------------------------------------------------------------------

pub open spec fn duplicate_category_warning(name: Seq<char>) -> Seq<char> {
    "skipped duplicate category: "@ + name
}

pub open spec fn orphan_duplicate_message(name: Seq<char>) -> Seq<char> {
    "duplicate category without matching row: "@ + name
}

/// An appended category whose name and type already exist is not inserted:
/// the existing row takes its place and a warning says so. A clash without
/// such a row is a conflict.
pub fn duplicate_category(name: &str, existing: Option<i64>, warnings: &mut Vec<String>) -> (r: AppResult<i64>)
    ensures
        match existing {
            Some(id) => r == Ok::<i64, AppError>(id) && final(warnings)@.len() == old(warnings)@.len() + 1
                && final(warnings)@.drop_last() == old(warnings)@ && final(warnings)@.last()@ == duplicate_category_warning(name@),
            None => r matches Err(AppError::Conflict(m)) && m@ == orphan_duplicate_message(name@)
                && final(warnings)@ == old(warnings)@,
        },
{
    match existing {
        Some(id) => {
            warnings.push(concat(owned("skipped duplicate category: "), name));
            Ok(id)
        },
        None => Err(AppError::Conflict(concat(owned("duplicate category without matching row: "), name))),
    }
}

/// The warning for an appended budget whose category and month already have one.
pub fn duplicate_budget_warning(category_id: i64) -> (r: String)
    ensures
        r@ == "skipped duplicate budget for category "@ + decimal(category_id as int),
{
    with_decimal("skipped duplicate budget for category ", category_id)
}

/// An appended recurring rule that the database already has would generate
/// every date twice, so it is not inserted: it is skipped with a warning, as
/// a duplicate category is, and the existing rule stays as it is.
pub open spec fn skipped_rule_warning(name: Seq<char>) -> Seq<char> {
    "skipped duplicate recurring rule: "@ + name
}

/// Skip an appended rule the database already has: one warning names it.
pub fn duplicate_rule(name: &str, warnings: &mut Vec<String>)
    ensures
        final(warnings)@ == old(warnings)@.push(final(warnings)@.last()),
        final(warnings)@.last()@ == skipped_rule_warning(name@),
{
    warnings.push(concat(owned("skipped duplicate recurring rule: "), name));
}


// ---------------------------------------------------------------------------
// The running tally of an import
// ---------------------------------------------------------------------------

/// What an import has written so far: the counts its result reports and,
/// for each kind of referenced row, which new id each old id became.
pub struct ImportTally {
    pub accounts: u32,
    pub categories: u32,
    pub recurring_rules: u32,
    pub transactions: u32,
    pub budgets: u32,
    pub account_map: Vec<(i64, i64)>,
    pub category_map: Vec<(i64, i64)>,
    pub rule_map: Vec<(i64, i64)>,
}

/// An import tally as plain values.
pub struct TallyModel {
    pub accounts: nat,
    pub categories: nat,
    pub recurring_rules: nat,
    pub transactions: nat,
    pub budgets: nat,
    pub account_map: Seq<(i64, i64)>,
    pub category_map: Seq<(i64, i64)>,
    pub rule_map: Seq<(i64, i64)>,
}

impl View for ImportTally {
    type V = TallyModel;

    open spec fn view(&self) -> TallyModel {
        TallyModel {
            accounts: self.accounts as nat,
            categories: self.categories as nat,
            recurring_rules: self.recurring_rules as nat,
            transactions: self.transactions as nat,
            budgets: self.budgets as nat,
            account_map: self.account_map@,
            category_map: self.category_map@,
            rule_map: self.rule_map@,
        }
    }
}

/// One more when the row was inserted, none when an existing row stood in for it.
pub open spec fn one_if(inserted: bool) -> nat {
    if inserted { 1 } else { 0 }
}

impl ImportTally {
    /// Nothing written yet.
    pub fn new() -> (r: Self)
        ensures
            r@ == (TallyModel {
                accounts: 0,
                categories: 0,
                recurring_rules: 0,
                transactions: 0,
                budgets: 0,
                account_map: Seq::empty(),
                category_map: Seq::empty(),
                rule_map: Seq::empty(),
            }),
    {
        ImportTally {
            accounts: 0,
            categories: 0,
            recurring_rules: 0,
            transactions: 0,
            budgets: 0,
            account_map: Vec::new(),
            category_map: Vec::new(),
            rule_map: Vec::new(),
        }
    }

    /// An account row was inserted and got `new_id`: it counts, and later
    /// rows that reference `old_id` reference `new_id`.
    pub fn account_written(&mut self, old_id: i64, new_id: i64)
        requires
            old(self).accounts < u32::MAX,
        ensures
            final(self)@ == (TallyModel {
                accounts: old(self)@.accounts + 1,
                account_map: old(self)@.account_map.push((old_id, new_id)),
                ..old(self)@
            }),
            mapped_id(final(self)@.account_map, old_id) == Some(new_id),
    {
        self.accounts = self.accounts + 1;
        self.account_map.push((old_id, new_id));
    }

    /// A category row now has `new_id`, inserted or (an appended duplicate)
    /// the row already there; only an inserted one counts.
    pub fn category_written(&mut self, old_id: i64, new_id: i64, inserted: bool)
        requires
            old(self).categories < u32::MAX,
        ensures
            final(self)@ == (TallyModel {
                categories: old(self)@.categories + one_if(inserted),
                category_map: old(self)@.category_map.push((old_id, new_id)),
                ..old(self)@
            }),
            mapped_id(final(self)@.category_map, old_id) == Some(new_id),
    {
        if inserted {
            self.categories = self.categories + 1;
        }
        self.category_map.push((old_id, new_id));
    }

    /// A recurring rule row now has `new_id`, inserted or (an appended
    /// duplicate) the rule already there; only an inserted one counts.
    pub fn rule_written(&mut self, old_id: i64, new_id: i64, inserted: bool)
        requires
            old(self).recurring_rules < u32::MAX,
        ensures
            final(self)@ == (TallyModel {
                recurring_rules: old(self)@.recurring_rules + one_if(inserted),
                rule_map: old(self)@.rule_map.push((old_id, new_id)),
                ..old(self)@
            }),
            mapped_id(final(self)@.rule_map, old_id) == Some(new_id),
    {
        if inserted {
            self.recurring_rules = self.recurring_rules + 1;
        }
        self.rule_map.push((old_id, new_id));
    }

    /// A transaction row was inserted.
    pub fn transaction_written(&mut self)
        requires
            old(self).transactions < u32::MAX,
        ensures
            final(self)@ == (TallyModel { transactions: old(self)@.transactions + 1, ..old(self)@ }),
    {
        self.transactions = self.transactions + 1;
    }

    /// A budget row was inserted.
    pub fn budget_written(&mut self)
        requires
            old(self).budgets < u32::MAX,
        ensures
            final(self)@ == (TallyModel { budgets: old(self)@.budgets + 1, ..old(self)@ }),
    {
        self.budgets = self.budgets + 1;
    }

    /// The import's result: the counts, and the warnings gathered on the way.
    pub fn into_result(self, warnings: Vec<String>) -> (r: ImportResult)
        ensures
            r.accounts == self.accounts,
            r.categories == self.categories,
            r.recurring_rules == self.recurring_rules,
            r.transactions == self.transactions,
            r.budgets == self.budgets,
            r.warnings@ == warnings@,
    {
        ImportResult {
            accounts: self.accounts,
            categories: self.categories,
            recurring_rules: self.recurring_rules,
            transactions: self.transactions,
            budgets: self.budgets,
            warnings,
        }
    }
}

} // verus!
