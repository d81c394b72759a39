//! Budget requests: the checks on a new budget, its category, and the limit
//! of the top list.

use vstd::prelude::*;
use crate::domain::budget::{RawSetBudgetInput, ValidatedSetBudgetInput, set_budget_problem, validate_set_budget_input};
use crate::domain::category::{Category, CategoryType};
use crate::error::{AppError, AppResult, invalid_argument, invalid_number};
use crate::text::{concat, decimal, with_decimal};

verus! {

broadcast use vstd::string::group_string_axioms;

/// A budget as the interface sends it.
#[derive(Debug, Clone)]
pub struct SetBudgetInput {
    pub category_id: i64,
    pub year_month: String,
    pub amount: i64,
    pub alert_threshold: i64,
}

/// Check the numbers and the month of a budget request.
pub fn validate_input(input: &SetBudgetInput) -> (r: AppResult<ValidatedSetBudgetInput>)
    ensures
        match set_budget_problem(input.category_id, input.year_month@, input.amount, input.alert_threshold) {
            Some(m) => r matches Err(e) && invalid_argument(e, m),
            None => r matches Ok(v) && v.category_id == input.category_id && v.amount == input.amount
                && v.alert_threshold == input.alert_threshold && crate::domain::year_month::year_month_parse(input.year_month@)
                == Ok::<(int, int), Seq<char>>((v.year_month.year as int, v.year_month.month as int)),
        },
{
    validate_set_budget_input(
        &RawSetBudgetInput {
            category_id: input.category_id,
            year_month: input.year_month.as_str(),
            amount: input.amount,
            alert_threshold: input.alert_threshold,
        },
    )
}

/// A budget belongs to an expense category that is not archived.
pub fn validate_category_for_budget(category: &Category) -> (r: AppResult<()>)
    ensures
        category.type_ != CategoryType::Expense ==> (r matches Err(e) && invalid_argument(
            e,
            "category "@ + decimal(category.id as int) + " is not an expense category"@,
        )),
        category.type_ == CategoryType::Expense && category.archived_at is Some ==> (r matches Err(e)
            && invalid_argument(e, "category "@ + decimal(category.id as int) + " is archived"@)),
        category.type_ == CategoryType::Expense && category.archived_at is None ==> r is Ok,
{
    if let CategoryType::Income = category.type_ {
        return Err(AppError::InvalidArgument(concat(with_decimal("category ", category.id), " is not an expense category")));
    }
    if category.archived_at.is_some() {
        return Err(AppError::InvalidArgument(concat(with_decimal("category ", category.id), " is archived")));
    }
    Ok(())
}

/// The top list shows 1 to 10 budgets.
pub fn check_top_limit(limit: u32) -> (r: AppResult<()>)
    ensures
        1 <= limit <= 10 ==> r is Ok,
        !(1 <= limit <= 10) ==> (r matches Err(e) && invalid_argument(e, "limit must be 1..=10, got "@ + decimal(limit as int))),
{
    if !(1 <= limit && limit <= 10) {
        return Err(invalid_number("limit must be 1..=10, got ", limit as i64));
    }
    Ok(())
}

} // verus!
