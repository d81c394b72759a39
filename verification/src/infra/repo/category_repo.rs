//! The filters and rows of the category queries.

use vstd::prelude::*;
use crate::domain::category::CategoryType;

verus! {

/// Which categories a listing shows.
#[derive(Debug, Clone, Copy, Default)]
pub struct ListFilter {
    pub type_: Option<CategoryType>,
    pub include_archived: bool,
}

/// A new category.
pub struct InsertInput<'a> {
    pub name: &'a str,
    pub type_: CategoryType,
    pub color: Option<&'a str>,
    pub icon: Option<&'a str>,
    pub display_order: i64,
}

/// The fields a category update changes; for color and icon, `Some(None)`
/// clears the value and `None` leaves it.
pub struct UpdatePatch<'a> {
    pub name: Option<&'a str>,
    pub color: Option<Option<&'a str>>,
    pub icon: Option<Option<&'a str>>,
    pub display_order: Option<i64>,
}

} // verus!
