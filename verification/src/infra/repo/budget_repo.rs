//! Where a monthly budget is stored.

use vstd::prelude::*;
use crate::domain::budget::YearMonth;
use crate::domain::year_month::month_key;
use crate::text::concat;

verus! {

/// The `starts_on` of the budget for `ym`: the first day of the month, `YYYY-MM-01`.
pub fn budget_starts_on(ym: YearMonth) -> (r: String)
    ensures
        r@ == month_key(ym.year as int, ym.month as int) + "-01"@,
{
    concat(ym.key(), "-01")
}

} // verus!
