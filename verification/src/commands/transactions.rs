//! Transaction requests: the page size, the list filter, and the checks a
//! write makes against the accounts and category it references.

use vstd::prelude::*;
use crate::domain::account::Account;
use crate::domain::category::Category;
use crate::domain::date::{iso_date, iso_date_message, parse_iso_date};
use crate::domain::ledger::{
    AllowedArchivedRefs, Transaction, TxType, ValidatedInput, archived_account_message,
    assert_account_writable, assert_category_matches_tx, category_problem,
};
use crate::error::{AppError, AppResult, invalid, invalid_argument};
use crate::infra::repo::transaction_repo::ListFilter;
use crate::text::decimal;

verus! {

broadcast use vstd::string::group_string_axioms;

/// A page holds 1 to 200 transactions.
pub fn parse_page_size(page_size: u32) -> (r: AppResult<u32>)
    ensures
        1 <= page_size <= 200 ==> r == Ok::<u32, AppError>(page_size),
        !(1 <= page_size <= 200) ==> (r matches Err(e) && invalid_argument(
            e,
            "page_size must be 1..=200, got "@ + decimal(page_size as int),
        )),
{
    if !(1 <= page_size && page_size <= 200) {
        return Err(crate::error::invalid_number("page_size must be 1..=200, got ", page_size as i64));
    }
    Ok(page_size)
}

/// The list filter as the interface sends it.
#[derive(Debug, Clone, Default)]
pub struct ListTransactionFilter {
    pub from: Option<String>,
    pub to: Option<String>,
    pub type_: Option<String>,
    pub category_id: Option<i64>,
    pub account_id: Option<i64>,
    pub search: Option<String>,
}

/// One page of transactions and the number of all that match.
#[derive(Debug, Clone)]
pub struct ListTransactionResult {
    pub items: Vec<Transaction>,
    pub total: u32,
}

/// What is wrong with a list filter, checked type first, then `from`, then `to`.
pub open spec fn filter_problem(f: ListTransactionFilter) -> Option<Seq<char>> {
    match f.type_ {
        Some(t) if TxType::from_sql(t@) is None => Some(TxType::parse_message(t@)),
        _ => match f.from {
            Some(from) if iso_date(from@) is None => Some(iso_date_message("from"@, from@)),
            _ => match f.to {
                Some(to) if iso_date(to@) is None => Some(iso_date_message("to"@, to@)),
                _ => None,
            },
        },
    }
}

/// Turn the interface's filter into the query filter. `from` and `to` are
/// compared as text against stored dates, so anything but a canonical
/// `YYYY-MM-DD` is refused rather than silently mis-filtering.
pub fn build_list_filter(filter: ListTransactionFilter) -> (r: AppResult<ListFilter>)
    ensures
        match filter_problem(filter) {
            Some(m) => r matches Err(e) && invalid_argument(e, m),
            None => r matches Ok(q) && q.from == filter.from && q.to == filter.to && q.category_id
                == filter.category_id && q.account_id == filter.account_id && q.search == filter.search
                && match filter.type_ {
                Some(t) => q.type_ == TxType::from_sql(t@),
                None => q.type_ is None,
            },
        },
{
    let type_ = match &filter.type_ {
        Some(t) => Some(TxType::parse(t.as_str())?),
        None => None,
    };
    if let Some(from) = &filter.from {
        parse_iso_date("from", from.as_str())?;
    }
    if let Some(to) = &filter.to {
        parse_iso_date("to", to.as_str())?;
    }
    Ok(ListFilter {
        from: filter.from,
        to: filter.to,
        type_,
        category_id: filter.category_id,
        account_id: filter.account_id,
        search: filter.search,
    })
}

/// A new income or expense transaction as the interface sends it.
#[derive(Debug, Clone)]
pub struct CreateTransactionInput {
    pub occurred_on: String,
    pub type_: String,
    pub amount: i64,
    pub account_id: i64,
    pub category_id: Option<i64>,
    pub description: String,
}

/// The new values of an income or expense transaction.
#[derive(Debug, Clone)]
pub struct UpdateTransactionPatch {
    pub occurred_on: String,
    pub type_: String,
    pub amount: i64,
    pub account_id: i64,
    pub category_id: Option<i64>,
    pub description: String,
}

/// A new transfer as the interface sends it.
#[derive(Debug, Clone)]
pub struct CreateTransferInput {
    pub occurred_on: String,
    pub amount: i64,
    pub account_id: i64,
    pub counter_account_id: i64,
    pub description: String,
}

/// The new values of a transfer.
#[derive(Debug, Clone)]
pub struct UpdateTransferPatch {
    pub occurred_on: String,
    pub amount: i64,
    pub account_id: i64,
    pub counter_account_id: i64,
    pub description: String,
}

/// The account is writable for the reference `allow_id`.
pub open spec fn account_blocked(account: Account, allow_id: Option<i64>) -> bool {
    account.archived_at is Some && allow_id != Some(account.id)
}

/// The references of an income or expense transaction: its account must be
/// writable and its category must match its type (archived ones only where
/// the row already had them).
pub fn prepare_income_expense(account: &Account, category: &Category, validated: &ValidatedInput, allow: AllowedArchivedRefs) -> (r: AppResult<()>)
    ensures
        account_blocked(*account, allow.account_id) ==> (r matches Err(e) && invalid_argument(
            e,
            archived_account_message(account.id),
        )),
        !account_blocked(*account, allow.account_id) ==> match category_problem(*category, validated.type_, allow.category_id) {
            Some(m) => r matches Err(e) && invalid_argument(e, m),
            None => r is Ok,
        },
{
    assert_account_writable(account, allow.account_id)?;
    assert_category_matches_tx(category, validated.type_, allow.category_id)
}

/// The archived references an edit of `existing` may keep.
pub fn allowed_refs_of(existing: &Transaction) -> (r: AllowedArchivedRefs)
    ensures
        r.account_id == Some(existing.account_id),
        r.counter_account_id == existing.counter_account_id,
        r.category_id == existing.category_id,
{
    AllowedArchivedRefs {
        account_id: Some(existing.account_id),
        counter_account_id: existing.counter_account_id,
        category_id: existing.category_id,
    }
}

/// An income or expense edit may not touch a transfer row.
pub fn check_not_transfer(existing: &Transaction) -> (r: AppResult<AllowedArchivedRefs>)
    ensures
        existing.type_ == TxType::Transfer ==> (r matches Err(e) && invalid_argument(
            e,
            "use create_transfer or update_transfer for transfer rows"@,
        )),
        existing.type_ != TxType::Transfer ==> (r matches Ok(a) && a.account_id == Some(existing.account_id)
            && a.counter_account_id == existing.counter_account_id && a.category_id == existing.category_id),
{
    if let TxType::Transfer = existing.type_ {
        return Err(invalid("use create_transfer or update_transfer for transfer rows"));
    }
    Ok(allowed_refs_of(existing))
}

/// Both accounts of a transfer must be writable, the source checked first.
pub fn check_transfer_accounts(from: &Account, to: &Account, allow: AllowedArchivedRefs) -> (r: AppResult<()>)
    ensures
        account_blocked(*from, allow.account_id) ==> (r matches Err(e) && invalid_argument(e, archived_account_message(from.id))),
        !account_blocked(*from, allow.account_id) && account_blocked(*to, allow.counter_account_id) ==> (r matches Err(e)
            && invalid_argument(e, archived_account_message(to.id))),
        !account_blocked(*from, allow.account_id) && !account_blocked(*to, allow.counter_account_id) ==> r is Ok,
{
    assert_account_writable(from, allow.account_id)?;
    assert_account_writable(to, allow.counter_account_id)
}

} // verus!
