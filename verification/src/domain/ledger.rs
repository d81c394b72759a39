//! Transactions: their types, the checks an input must pass, and monthly totals.

use vstd::prelude::*;
use vstd::string::StrSliceExecFns;
use crate::domain::account::Account;
use crate::domain::arith::{clamp_i64, sat_add};
use crate::domain::category::{Category, CategoryType};
use crate::domain::date::{chrono_parse_date, chrono_parse_ymd, iso_date, iso_date_message, parse_iso_date};
use crate::error::{AppError, AppResult, invalid, invalid_argument, invalid_number};
use crate::text::{concat, decimal, owned, push_char, str_equal, with_decimal};

verus! {

broadcast use vstd::string::group_string_axioms;

#[derive(Debug, Clone, Copy, PartialEq, Eq, Hash)]
pub enum TxType {
    Income,
    Expense,
    Transfer,
}

impl TxType {
    pub open spec fn sql(self) -> Seq<char> {
        match self {
            TxType::Income => "income"@,
            TxType::Expense => "expense"@,
            TxType::Transfer => "transfer"@,
        }
    }

    /// The text stored in the `type` column.
    pub fn as_sql(self) -> (r: &'static str)
        ensures
            r@ == self.sql(),
    {
        match self {
            TxType::Income => "income",
            TxType::Expense => "expense",
            TxType::Transfer => "transfer",
        }
    }

    /// The type a stored text names.
    pub open spec fn from_sql(raw: Seq<char>) -> Option<TxType> {
        if raw == "income"@ {
            Some(TxType::Income)
        } else if raw == "expense"@ {
            Some(TxType::Expense)
        } else if raw == "transfer"@ {
            Some(TxType::Transfer)
        } else {
            None
        }
    }

    pub open spec fn parse_message(raw: Seq<char>) -> Seq<char> {
        "transaction type must be income|expense|transfer, got '"@ + raw + seq!['\'']
    }

    pub fn parse(raw: &str) -> (r: AppResult<TxType>)
        ensures
            match TxType::from_sql(raw@) {
                Some(t) => r == Ok::<TxType, AppError>(t),
                None => r matches Err(e) && invalid_argument(e, TxType::parse_message(raw@)),
            },
    {
        if str_equal(raw, "income") {
            Ok(TxType::Income)
        } else if str_equal(raw, "expense") {
            Ok(TxType::Expense)
        } else if str_equal(raw, "transfer") {
            Ok(TxType::Transfer)
        } else {
            let mut s = concat(
                owned("transaction type must be income|expense|transfer, got '"),
                raw,
            );
            push_char(&mut s, '\'');
            assert(s@ =~= TxType::parse_message(raw@));
            Err(AppError::InvalidArgument(s))
        }
    }
}

/// A stored transaction.
#[derive(Debug, Clone)]
pub struct Transaction {
    pub id: i64,
    pub occurred_on: String,
    pub type_: TxType,
    pub amount: i64,
    pub account_id: i64,
    pub counter_account_id: Option<i64>,
    pub category_id: Option<i64>,
    pub description: String,
    pub recurring_id: Option<i64>,
    pub created_at: String,
    pub updated_at: String,
}

/// An income or expense transaction that passed `validate_input`.
#[derive(Debug, Clone)]
pub struct ValidatedInput {
    pub occurred_on: String,
    pub type_: TxType,
    pub amount: i64,
    pub account_id: i64,
    pub category_id: i64,
    pub description: String,
}

/// The longest description, in characters.
pub const MAX_DESCRIPTION_LEN: usize = 200;

pub struct RawInput<'a> {
    pub occurred_on: &'a str,
    pub type_: &'a str,
    pub amount: i64,
    pub account_id: i64,
    pub category_id: Option<i64>,
    pub description: &'a str,
}

pub open spec fn description_message() -> Seq<char> {
    "description must be 200 chars or fewer"@
}

/// What is wrong with an income/expense input given by its parts, checked in
/// the order `validate_input` checks it; `None` when nothing is.
pub open spec fn input_problem_of(
    occurred_on: Seq<char>,
    type_: Seq<char>,
    amount: i64,
    category_id: Option<i64>,
    description: Seq<char>,
) -> Option<Seq<char>> {
    if iso_date(occurred_on) is None {
        Some(iso_date_message("occurred_on"@, occurred_on))
    } else {
        match TxType::from_sql(type_) {
            None => Some(TxType::parse_message(type_)),
            Some(TxType::Transfer) => Some("transfer transactions are not supported in Phase 2"@),
            Some(_) => if amount <= 0 {
                Some("amount must be positive, got "@ + decimal(amount as int))
            } else if category_id is None {
                Some("income/expense transactions require a category_id"@)
            } else if description.len() > MAX_DESCRIPTION_LEN {
                Some(description_message())
            } else {
                None
            },
        }
    }
}

/// What is wrong with an income/expense input; `None` when nothing is.
pub open spec fn input_problem(raw: RawInput) -> Option<Seq<char>> {
    input_problem_of(raw.occurred_on@, raw.type_@, raw.amount, raw.category_id, raw.description@)
}

/// Validate an income/expense transaction input; transfers have their own
/// input and are refused here.
pub fn validate_input(raw: &RawInput<'_>) -> (r: AppResult<ValidatedInput>)
    ensures
        match input_problem(*raw) {
            Some(msg) => r matches Err(e) && invalid_argument(e, msg),
            None => r matches Ok(v) && v.occurred_on@ == raw.occurred_on@
                && Some(v.type_) == TxType::from_sql(raw.type_@) && v.amount == raw.amount
                && v.account_id == raw.account_id && Some(v.category_id) == raw.category_id
                && v.description@ == raw.description@,
        },
{
    if let Err(e) = parse_iso_date("occurred_on", raw.occurred_on) {
        return Err(e);
    }
    let type_ = TxType::parse(raw.type_)?;
    if let TxType::Transfer = type_ {
        return Err(invalid("transfer transactions are not supported in Phase 2"));
    }
    if raw.amount <= 0 {
        return Err(invalid_number("amount must be positive, got ", raw.amount));
    }
    let category_id = match raw.category_id {
        Some(c) => c,
        None => {
            return Err(invalid("income/expense transactions require a category_id"));
        },
    };
    if raw.description.unicode_len() > MAX_DESCRIPTION_LEN {
        return Err(invalid("description must be 200 chars or fewer"));
    }
    Ok(ValidatedInput {
        occurred_on: owned(raw.occurred_on),
        type_,
        amount: raw.amount,
        account_id: raw.account_id,
        category_id,
        description: owned(raw.description),
    })
}

/// Income, expense and their difference over a month.
#[derive(Debug, Clone)]
pub struct MonthlySummary {
    pub income: i64,
    pub expense: i64,
    pub net: i64,
}

/// The transaction is income or expense and chrono reads its date as lying in `year-month`.
pub open spec fn counted_in(tx: Transaction, year: int, month: int) -> bool {
    &&& tx.type_ != TxType::Transfer
    &&& chrono_parse_ymd(tx.occurred_on@) matches Some(d)
    &&& d.year == year
    &&& d.month == month
}

/// The saturating sum, in order, of the amounts of the counted transactions of type `kind`.
pub open spec fn month_total(txs: Seq<Transaction>, year: int, month: int, kind: TxType) -> int
    decreases txs.len(),
{
    if txs.len() == 0 {
        0
    } else {
        let prev = month_total(txs.drop_last(), year, month, kind);
        let t = txs.last();
        if counted_in(t, year, month) && t.type_ == kind {
            clamp_i64(prev + t.amount)
        } else {
            prev
        }
    }
}

/// The month's income and expense totals, each summed with saturation.
fn monthly_totals(txs: &[Transaction], year: i32, month: u32) -> (r: (i64, i64))
    ensures
        r.0 == month_total(txs@, year as int, month as int, TxType::Income),
        r.1 == month_total(txs@, year as int, month as int, TxType::Expense),
{
    let mut income: i64 = 0;
    let mut expense: i64 = 0;
    let mut i: usize = 0;
    while i < txs.len()
        invariant
            0 <= i <= txs.len(),
            income == month_total(txs@.subrange(0, i as int), year as int, month as int, TxType::Income),
            expense == month_total(txs@.subrange(0, i as int), year as int, month as int, TxType::Expense),
        decreases txs.len() - i,
    {
        let tx = &txs[i];
        proof {
            let next = txs@.subrange(0, i + 1);
            assert(next.drop_last() =~= txs@.subrange(0, i as int));
            assert(next.last() == txs@[i as int]);
        }
        let in_scope = match tx.type_ {
            TxType::Transfer => false,
            _ => match chrono_parse_date(tx.occurred_on.as_str()) {
                Some(d) => d.year == year && d.month == month,
                None => false,
            },
        };
        if in_scope {
            match tx.type_ {
                TxType::Income => {
                    income = sat_add(income, tx.amount);
                },
                TxType::Expense => {
                    expense = sat_add(expense, tx.amount);
                },
                TxType::Transfer => {},
            }
        }
        i += 1;
    }
    assert(txs@.subrange(0, txs.len() as int) =~= txs@);
    (income, expense)
}

/// The month's net fits in an `i64`.
pub open spec fn net_fits(txs: Seq<Transaction>, year: int, month: int) -> bool {
    let net = month_total(txs, year, month, TxType::Income) - month_total(txs, year, month, TxType::Expense);
    i64::MIN <= net <= i64::MAX
}

/// Income, expense and net of the transactions dated in `year-month`; transfers
/// and rows whose date chrono cannot read are left out.
pub fn aggregate_monthly(txs: &[Transaction], year: i32, month: u32) -> (r: MonthlySummary)
    requires
        net_fits(txs@, year as int, month as int),
    ensures
        r.income == month_total(txs@, year as int, month as int, TxType::Income),
        r.expense == month_total(txs@, year as int, month as int, TxType::Expense),
        r.net == r.income - r.expense,
{
    let (income, expense) = monthly_totals(txs, year, month);
    MonthlySummary { income, expense, net: income - expense }
}

/// `aggregate_monthly`, or `None` when the net would not fit in an `i64`.
pub fn checked_aggregate_monthly(txs: &[Transaction], year: i32, month: u32) -> (r: Option<MonthlySummary>)
    ensures
        r is Some <==> net_fits(txs@, year as int, month as int),
        r matches Some(s) ==> s.income == month_total(txs@, year as int, month as int, TxType::Income)
            && s.expense == month_total(txs@, year as int, month as int, TxType::Expense)
            && s.net == s.income - s.expense,
{
    let (income, expense) = monthly_totals(txs, year, month);
    if income.checked_sub(expense).is_none() {
        return None;
    }
    Some(aggregate_monthly(txs, year, month))
}

/// The list without its transfers.
pub open spec fn without_transfers(txs: Seq<Transaction>) -> Seq<Transaction> {
    txs.filter(|t: Transaction| t.type_ != TxType::Transfer)
}

/// Leaving transfers out of a list changes neither month total: transfers
/// never count as income or expense.
pub proof fn law_transfers_never_contribute(txs: Seq<Transaction>, year: int, month: int, kind: TxType)
    ensures
        month_total(txs, year, month, kind) == month_total(without_transfers(txs), year, month, kind),
    decreases txs.len(),
{
    reveal(Seq::filter);
    if txs.len() > 0 {
        law_transfers_never_contribute(txs.drop_last(), year, month, kind);
        let rest = without_transfers(txs.drop_last());
        if txs.last().type_ != TxType::Transfer {
            assert(without_transfers(txs) == rest.push(txs.last()));
            assert(rest.push(txs.last()).drop_last() =~= rest);
        } else {
            assert(without_transfers(txs) == rest);
        }
    }
}

/// chrono reads the transaction's date as a day of `year-month`.
pub open spec fn dated_in(tx: Transaction, year: int, month: int) -> bool {
    match chrono_parse_ymd(tx.occurred_on@) {
        Some(d) => d.year == year && d.month == month,
        None => false,
    }
}

/// Only the transactions dated in the month count: dropping every
/// transaction of another month, or of the same month of another year,
/// changes neither month total.
pub proof fn law_only_the_month_counts(txs: Seq<Transaction>, year: int, month: int, kind: TxType)
    ensures
        month_total(txs, year, month, kind) == month_total(
            txs.filter(|t: Transaction| dated_in(t, year, month)),
            year,
            month,
            kind,
        ),
    decreases txs.len(),
{
    reveal(Seq::filter);
    if txs.len() > 0 {
        law_only_the_month_counts(txs.drop_last(), year, month, kind);
        let rest = txs.drop_last().filter(|t: Transaction| dated_in(t, year, month));
        if dated_in(txs.last(), year, month) {
            assert(txs.filter(|t: Transaction| dated_in(t, year, month)) == rest.push(txs.last()));
            assert(rest.push(txs.last()).drop_last() =~= rest);
        } else {
            assert(txs.filter(|t: Transaction| dated_in(t, year, month)) == rest);
        }
    }
}

/// With no negative amounts, both month totals are nonnegative.
pub proof fn law_totals_nonnegative(txs: Seq<Transaction>, year: int, month: int, kind: TxType)
    requires
        forall|i: int| 0 <= i < txs.len() ==> #[trigger] txs[i].amount >= 0,
    ensures
        0 <= month_total(txs, year, month, kind) <= i64::MAX,
    decreases txs.len(),
{
    if txs.len() > 0 {
        assert forall|i: int| 0 <= i < txs.drop_last().len() implies #[trigger] txs.drop_last()[i].amount >= 0 by {
            assert(txs.drop_last()[i] == txs[i]);
        }
        law_totals_nonnegative(txs.drop_last(), year, month, kind);
        assert(txs.last() == txs[txs.len() - 1]);
    }
}

/// A transfer that passed `validate_transfer_input`.
#[derive(Debug, Clone)]
pub struct ValidatedTransferInput {
    pub occurred_on: String,
    pub amount: i64,
    pub account_id: i64,
    pub counter_account_id: i64,
    pub description: String,
}

pub struct RawTransferInput<'a> {
    pub occurred_on: &'a str,
    pub amount: i64,
    pub account_id: i64,
    pub counter_account_id: i64,
    pub description: &'a str,
}

/// What is wrong with a transfer input given by its parts, checked in the
/// order `validate_transfer_input` checks it; `None` when nothing is.
pub open spec fn transfer_problem_of(
    occurred_on: Seq<char>,
    amount: i64,
    account_id: i64,
    counter_account_id: i64,
    description: Seq<char>,
) -> Option<Seq<char>> {
    if iso_date(occurred_on) is None {
        Some(iso_date_message("occurred_on"@, occurred_on))
    } else if amount <= 0 {
        Some("amount must be positive, got "@ + decimal(amount as int))
    } else if account_id == counter_account_id {
        Some("transfer source and destination must differ"@)
    } else if description.len() > MAX_DESCRIPTION_LEN {
        Some(description_message())
    } else {
        None
    }
}

/// What is wrong with a transfer input; `None` when nothing is.
pub open spec fn transfer_problem(raw: RawTransferInput) -> Option<Seq<char>> {
    transfer_problem_of(raw.occurred_on@, raw.amount, raw.account_id, raw.counter_account_id, raw.description@)
}

/// Validate a transfer: a canonical `YYYY-MM-DD` date, a positive amount, two different
/// accounts (no SQL constraint catches the same account twice) and a
/// description of at most 200 characters.
pub fn validate_transfer_input(raw: &RawTransferInput<'_>) -> (r: AppResult<ValidatedTransferInput>)
    ensures
        match transfer_problem(*raw) {
            Some(msg) => r matches Err(e) && invalid_argument(e, msg),
            None => r matches Ok(v) && v.occurred_on@ == raw.occurred_on@ && v.amount == raw.amount
                && v.account_id == raw.account_id && v.counter_account_id == raw.counter_account_id
                && v.description@ == raw.description@,
        },
{
    if let Err(e) = parse_iso_date("occurred_on", raw.occurred_on) {
        return Err(e);
    }
    if raw.amount <= 0 {
        return Err(invalid_number("amount must be positive, got ", raw.amount));
    }
    if raw.account_id == raw.counter_account_id {
        return Err(invalid("transfer source and destination must differ"));
    }
    if raw.description.unicode_len() > MAX_DESCRIPTION_LEN {
        return Err(invalid("description must be 200 chars or fewer"));
    }
    Ok(ValidatedTransferInput {
        occurred_on: owned(raw.occurred_on),
        amount: raw.amount,
        account_id: raw.account_id,
        counter_account_id: raw.counter_account_id,
        description: owned(raw.description),
    })
}

// ---------------------------------------------------------------------------
// References from a transaction
// ---------------------------------------------------------------------------

/// Archived accounts and categories a write may still reference: those the
/// row being edited already referenced.
#[derive(Debug, Clone, Copy, PartialEq, Eq)]
pub struct AllowedArchivedRefs {
    pub account_id: Option<i64>,
    pub counter_account_id: Option<i64>,
    pub category_id: Option<i64>,
}

impl AllowedArchivedRefs {
    /// No archived reference is allowed (a new row).
    pub fn none() -> (r: Self)
        ensures
            r.account_id is None,
            r.counter_account_id is None,
            r.category_id is None,
    {
        AllowedArchivedRefs { account_id: None, counter_account_id: None, category_id: None }
    }
}

/// The error for a reference to an archived account.
pub open spec fn archived_account_message(id: i64) -> Seq<char> {
    "account "@ + decimal(id as int) + " is archived"@
}

/// A transaction may book on `account` unless it is archived; the one it
/// already booked on (`allow_id`) stays usable.
pub fn assert_account_writable(account: &Account, allow_id: Option<i64>) -> (r: AppResult<()>)
    ensures
        (account.archived_at is Some && allow_id != Some(account.id)) ==> (r matches Err(e)
            && invalid_argument(e, archived_account_message(account.id))),
        !(account.archived_at is Some && allow_id != Some(account.id)) ==> r is Ok,
{
    let allowed = match allow_id {
        Some(a) => a == account.id,
        None => false,
    };
    if account.archived_at.is_some() && !allowed {
        let s = concat(with_decimal("account ", account.id), " is archived");
        return Err(AppError::InvalidArgument(s));
    }
    Ok(())
}

/// The category type that books transactions of type `t` (none books transfers).
pub open spec fn category_type_for(t: TxType) -> Option<CategoryType> {
    match t {
        TxType::Income => Some(CategoryType::Income),
        TxType::Expense => Some(CategoryType::Expense),
        TxType::Transfer => None,
    }
}

pub open spec fn archived_category_message(id: i64) -> Seq<char> {
    "category "@ + decimal(id as int) + " is archived"@
}

pub open spec fn category_mismatch_message(id: i64) -> Seq<char> {
    "category "@ + decimal(id as int) + " type does not match the transaction type"@
}

/// What is wrong with booking a transaction of type `t` on `category`.
pub open spec fn category_problem(category: Category, t: TxType, allow_id: Option<i64>) -> Option<Seq<char>> {
    if category.archived_at is Some && allow_id != Some(category.id) {
        Some(archived_category_message(category.id))
    } else if category_type_for(t) != Some(category.type_) {
        Some(category_mismatch_message(category.id))
    } else {
        None
    }
}

/// A transaction of type `t` may book on `category` when the category is not
/// archived (or is the one the row already had) and its type matches.
pub fn assert_category_matches_tx(category: &Category, t: TxType, allow_id: Option<i64>) -> (r: AppResult<()>)
    ensures
        match category_problem(*category, t, allow_id) {
            Some(m) => r matches Err(e) && invalid_argument(e, m),
            None => r is Ok,
        },
{
    let allowed = match allow_id {
        Some(a) => a == category.id,
        None => false,
    };
    if category.archived_at.is_some() && !allowed {
        let s = concat(with_decimal("category ", category.id), " is archived");
        return Err(AppError::InvalidArgument(s));
    }
    let matches = match (t, category.type_) {
        (TxType::Income, CategoryType::Income) => true,
        (TxType::Expense, CategoryType::Expense) => true,
        _ => false,
    };
    if !matches {
        let s = concat(with_decimal("category ", category.id), " type does not match the transaction type");
        return Err(AppError::InvalidArgument(s));
    }
    Ok(())
}

} // verus!
