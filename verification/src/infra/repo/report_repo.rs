//! The month a monthly summary covers, and the summary itself.

use vstd::prelude::*;
use crate::domain::calendar::{Date, days_in_month, valid_ymd};
use crate::domain::report::CategoryAggregate;
use crate::error::{AppResult, invalid_argument, invalid_number};
use crate::text::decimal;

verus! {

/// A month's income, expense, their difference, and the per-category totals.
#[derive(Debug, Clone)]
pub struct MonthlySummary {
    pub income: i64,
    pub expense: i64,
    pub net: i64,
    pub by_category: Vec<CategoryAggregate>,
}

/// The first and last day of `year-month`, the range a monthly summary sums
/// over; a month chrono cannot place (or whose next month it cannot place)
/// is refused.
pub fn month_days(year: i32, month: u32) -> (r: AppResult<(Date, Date)>)
    ensures
        ({
            let (ny, nm) = if month == 12 { (year + 1, 1int) } else { (year as int, month + 1) };
            if valid_ymd(year as int, month as int, 1) && valid_ymd(ny, nm, 1) {
                r matches Ok((from, to)) && from == (Date { year, month, day: 1 }) && to == (Date {
                    year,
                    month,
                    day: days_in_month(year as int, month as int) as u32,
                })
            } else {
                r matches Err(e) && invalid_argument(e, "month out of range: "@ + decimal(month as int))
            }
        }),
{
    let from = match Date::from_ymd_opt(year, month, 1) {
        Some(d) => d,
        None => {
            return Err(invalid_number("month out of range: ", month as i64));
        },
    };
    let next = if month == 12 {
        Date::from_ymd_opt(year + 1, 1, 1)
    } else {
        Date::from_ymd_opt(year, month + 1, 1)
    };
    let next = match next {
        Some(d) => d,
        None => {
            return Err(invalid_number("month out of range: ", month as i64));
        },
    };
    proof {
        crate::domain::calendar::lemma_month_length(year as int, month as int);
    }
    let to = match crate::domain::calendar::chrono_pred(next) {
        Some(d) => d,
        None => {
            return Err(invalid_number("month out of range: ", month as i64));
        },
    };
    proof {
        crate::domain::calendar::lemma_order_by_number(to, Date { year, month, day: days_in_month(year as int, month as int) as u32 });
    }
    Ok((from, to))
}

} // verus!
