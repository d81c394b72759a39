//! Category requests and the checks they pass before anything is written.

use vstd::prelude::*;
use crate::domain::category::{self, CategoryType, ascii_upper, color_message, is_hex_color};
use crate::error::{AppError, AppResult, invalid_argument};
use crate::infra::repo::category_repo::ListFilter;
use crate::text::trimmed;

verus! {

broadcast use vstd::string::group_string_axioms;

/// The list filter as the interface sends it.
#[derive(Debug, Clone)]
pub struct ListFilterInput {
    pub type_: Option<String>,
    pub include_archived: bool,
}

/// A new category as the interface sends it.
#[derive(Debug, Clone)]
pub struct CreateCategoryInput {
    pub name: String,
    pub type_: String,
    pub color: Option<String>,
    pub icon: Option<String>,
}

/// A field of a patch that may be absent (leave it), `null` (clear it) or a value.
#[derive(Debug, Clone, PartialEq, Eq)]
pub enum NullablePatch<T> {
    Missing,
    Value(Option<T>),
}

/// The fields of a category to change.
#[derive(Debug, Clone)]
pub struct UpdateCategoryPatch {
    pub name: Option<String>,
    pub color: NullablePatch<String>,
    pub icon: NullablePatch<String>,
    pub display_order: Option<i64>,
}

/// The query filter of a category listing.
pub fn list_filter(filter: &ListFilterInput) -> (r: AppResult<ListFilter>)
    ensures
        match filter.type_ {
            Some(t) => match CategoryType::from_sql(t@) {
                None => r matches Err(e) && invalid_argument(e, CategoryType::parse_message(t@)),
                Some(ct) => r matches Ok(f) && f.type_ == Some(ct) && f.include_archived == filter.include_archived,
            },
            None => r matches Ok(f) && f.type_ is None && f.include_archived == filter.include_archived,
        },
{
    let type_ = match &filter.type_ {
        Some(t) => Some(CategoryType::parse(t.as_str())?),
        None => None,
    };
    Ok(ListFilter { type_, include_archived: filter.include_archived })
}

pub open spec fn name_problem(raw: Seq<char>) -> Option<Seq<char>> {
    if trimmed(raw).len() == 0 {
        Some("category name is empty"@)
    } else if trimmed(raw).len() > category::MAX_NAME_LEN {
        Some("category name must be 40 chars or fewer"@)
    } else {
        None
    }
}

pub open spec fn upper_color(raw: Seq<char>) -> Seq<char> {
    raw.map_values(|c: char| ascii_upper(c))
}

/// The checked fields of a new category: trimmed name, type, upper-case color.
pub fn prepare_create_category(input: &CreateCategoryInput) -> (r: AppResult<(String, CategoryType, Option<String>)>)
    ensures
        match name_problem(input.name@) {
            Some(m) => r matches Err(e) && invalid_argument(e, m),
            None => match CategoryType::from_sql(input.type_@) {
                None => r matches Err(e) && invalid_argument(e, CategoryType::parse_message(input.type_@)),
                Some(t) => match input.color {
                    Some(c) if !is_hex_color(c@) => r matches Err(e) && invalid_argument(e, color_message(c@)),
                    _ => r matches Ok((n, tt, col)) && n@ == trimmed(input.name@) && tt == t && match input.color {
                        Some(c) => col matches Some(v) && v@ == upper_color(c@),
                        None => col is None,
                    },
                },
            },
        },
{
    let name = category::validate_name(input.name.as_str())?;
    let type_ = CategoryType::parse(input.type_.as_str())?;
    let color = match &input.color {
        Some(c) => Some(category::validate_color(c.as_str())?),
        None => None,
    };
    Ok((name, type_, color))
}

/// The checked fields of a category update: name when given, and the color
/// patch with a given color checked and upper-cased.
pub fn prepare_update_category(patch: &UpdateCategoryPatch) -> (r: AppResult<(Option<String>, NullablePatch<String>)>)
    ensures
        match patch.name {
            Some(n) if name_problem(n@) is Some => r matches Err(e) && invalid_argument(e, name_problem(n@)->0),
            _ => match patch.color {
                NullablePatch::Value(Some(c)) if !is_hex_color(c@) => r matches Err(e) && invalid_argument(e, color_message(c@)),
                _ => r matches Ok((n, col)) && (match patch.name {
                    Some(raw) => n matches Some(v) && v@ == trimmed(raw@),
                    None => n is None,
                }) && (match patch.color {
                    NullablePatch::Missing => col == NullablePatch::<String>::Missing,
                    NullablePatch::Value(None) => col == NullablePatch::<String>::Value(None),
                    NullablePatch::Value(Some(c)) => col matches NullablePatch::Value(Some(v)) && v@ == upper_color(c@),
                }),
            },
        },
{
    let name = match &patch.name {
        Some(n) => Some(category::validate_name(n.as_str())?),
        None => None,
    };
    let color = match &patch.color {
        NullablePatch::Value(Some(c)) => NullablePatch::Value(Some(category::validate_color(c.as_str())?)),
        NullablePatch::Value(None) => NullablePatch::Value(None),
        NullablePatch::Missing => NullablePatch::Missing,
    };
    Ok((name, color))
}

} // verus!
