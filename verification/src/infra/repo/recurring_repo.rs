//! The rows the recurring rule queries write.

use vstd::prelude::*;
use crate::domain::ledger::TxType;
use crate::domain::recurring::Frequency;

verus! {

/// A new recurring rule.
pub struct InsertInput<'a> {
    pub name: &'a str,
    pub type_: TxType,
    pub amount: i64,
    pub account_id: i64,
    pub counter_account_id: Option<i64>,
    pub category_id: Option<i64>,
    pub description: &'a str,
    pub frequency: Frequency,
    pub day_of_month: Option<u32>,
    pub day_of_week: Option<u32>,
    pub starts_on: &'a str,
    pub ends_on: Option<&'a str>,
}

/// The new values of a recurring rule.
pub struct UpdateInput<'a> {
    pub name: &'a str,
    pub type_: TxType,
    pub amount: i64,
    pub account_id: i64,
    pub counter_account_id: Option<i64>,
    pub category_id: Option<i64>,
    pub description: &'a str,
    pub frequency: Frequency,
    pub day_of_month: Option<u32>,
    pub day_of_week: Option<u32>,
    pub starts_on: &'a str,
    pub ends_on: Option<&'a str>,
}

} // verus!
