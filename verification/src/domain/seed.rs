//! The categories a new database starts with.

use vstd::prelude::*;
use crate::domain::category::CategoryType;

verus! {

/// The `app_meta` key recording that the defaults were seeded.
pub const SEED_FLAG_KEY: &'static str = "categories_seeded";

/// What start-up does about default categories.
#[derive(Debug, Clone, Copy, PartialEq, Eq)]
pub enum SeedPlan {
    /// Already seeded once: do nothing, even if the user removed them all.
    Skip,
    /// The user already has categories: only record that seeding is done.
    MarkSeeded,
    /// Insert the defaults and record it.
    Seed,
}

/// Seed only when the flag is unset and there are no categories.
pub fn seed_plan(flag_set: bool, existing: usize) -> (r: SeedPlan)
    ensures
        r == (if flag_set {
            SeedPlan::Skip
        } else if existing > 0 {
            SeedPlan::MarkSeeded
        } else {
            SeedPlan::Seed
        }),
{
    if flag_set {
        SeedPlan::Skip
    } else if existing > 0 {
        SeedPlan::MarkSeeded
    } else {
        SeedPlan::Seed
    }
}

/// The default expense category names, in display order.
pub open spec fn expense_names() -> Seq<&'static str> {
    seq!["食費", "日用品", "交通費", "住居費", "水道光熱費", "通信費", "医療費", "衣服", "交際費", "趣味・娯楽", "その他"]
}

/// The default income category names, in display order.
pub open spec fn income_names() -> Seq<&'static str> {
    seq!["給与", "賞与", "副業", "その他"]
}

/// The default expense categories, in display order.
pub fn expense_defaults() -> (r: Vec<&'static str>)
    ensures
        r@ == expense_names(),
{
    vec!["食費", "日用品", "交通費", "住居費", "水道光熱費", "通信費", "医療費", "衣服", "交際費", "趣味・娯楽", "その他"]
}

/// The default income categories, in display order.
pub fn income_defaults() -> (r: Vec<&'static str>)
    ensures
        r@ == income_names(),
{
    vec!["給与", "賞与", "副業", "その他"]
}

/// The default categories as rows: name, type, display order (counted per type).
pub fn default_categories() -> (r: Vec<(&'static str, CategoryType, i64)>)
    ensures
        r.len() == 15,
        forall|k: int| 0 <= k < 11 ==> (#[trigger] r@[k]) == (expense_names()[k], CategoryType::Expense, k as i64),
        forall|k: int| 11 <= k < 15 ==> (#[trigger] r@[k]) == (income_names()[k - 11], CategoryType::Income, (k - 11) as i64),
{
    let expense = expense_defaults();
    let income = income_defaults();
    let mut out: Vec<(&'static str, CategoryType, i64)> = Vec::new();
    let mut i: usize = 0;
    while i < expense.len()
        invariant
            0 <= i <= expense.len(),
            expense@ == expense_names(),
            out.len() == i,
            forall|k: int| 0 <= k < i ==> (#[trigger] out@[k]) == (expense_names()[k], CategoryType::Expense, k as i64),
        decreases expense.len() - i,
    {
        out.push((expense[i], CategoryType::Expense, i as i64));
        i += 1;
    }
    let mut j: usize = 0;
    while j < income.len()
        invariant
            0 <= j <= income.len(),
            income@ == income_names(),
            out.len() == 11 + j,
            forall|k: int| 0 <= k < 11 ==> (#[trigger] out@[k]) == (expense_names()[k], CategoryType::Expense, k as i64),
            forall|k: int| 11 <= k < 11 + j ==> (#[trigger] out@[k]) == (income_names()[k - 11], CategoryType::Income, (k - 11) as i64),
        decreases income.len() - j,
    {
        out.push((income[j], CategoryType::Income, j as i64));
        j += 1;
    }
    out
}

} // verus!
