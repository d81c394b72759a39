//! One account's balance as the balance listing returns it.

use vstd::prelude::*;
use crate::domain::account::AccountKind;

verus! {

/// An account with its current balance.
#[derive(Debug, Clone)]
pub struct AccountBalance {
    pub account_id: i64,
    pub name: String,
    pub kind: AccountKind,
    pub initial_balance: i64,
    pub balance: i64,
    pub archived_at: Option<String>,
    pub display_order: i64,
}

} // verus!
