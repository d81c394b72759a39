//! The domains a `data:changed` event names.

use vstd::prelude::*;

verus! {

/// A part of the data that changed, so that the interface re-reads it.
#[derive(Debug, Clone, Copy, PartialEq, Eq)]
pub enum ChangedDomain {
    Categories,
    Accounts,
    Transactions,
    Budgets,
    Recurring,
    Meta,
}

impl ChangedDomain {
    pub open spec fn name_of(self) -> Seq<char> {
        match self {
            ChangedDomain::Categories => "categories"@,
            ChangedDomain::Accounts => "accounts"@,
            ChangedDomain::Transactions => "transactions"@,
            ChangedDomain::Budgets => "budgets"@,
            ChangedDomain::Recurring => "recurring"@,
            ChangedDomain::Meta => "meta"@,
        }
    }

    /// The name the event carries.
    pub fn name(self) -> (r: &'static str)
        ensures
            r@ == self.name_of(),
    {
        match self {
            ChangedDomain::Categories => "categories",
            ChangedDomain::Accounts => "accounts",
            ChangedDomain::Transactions => "transactions",
            ChangedDomain::Budgets => "budgets",
            ChangedDomain::Recurring => "recurring",
            ChangedDomain::Meta => "meta",
        }
    }
}

/// The channel the change events go out on.
pub const CHANGED_EVENT: &'static str = "data:changed";

} // verus!
