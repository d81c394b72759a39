//! The rows the account queries write.

use vstd::prelude::*;
use crate::domain::account::AccountKind;

verus! {

/// A new account.
pub struct InsertInput<'a> {
    pub name: &'a str,
    pub kind: AccountKind,
    pub currency: &'a str,
    pub initial_balance: i64,
    pub display_order: i64,
    pub note: &'a str,
    pub now: &'a str,
}

/// The fields an account update changes; absent fields stay as they are.
pub struct UpdatePatch<'a> {
    pub name: Option<&'a str>,
    pub kind: Option<AccountKind>,
    pub initial_balance: Option<i64>,
    pub note: Option<&'a str>,
    pub display_order: Option<i64>,
}

} // verus!
