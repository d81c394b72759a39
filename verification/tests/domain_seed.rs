use budget_tracker_lib::domain::category::CategoryType;
use budget_tracker_lib::domain::seed::{default_categories, expense_defaults, income_defaults, seed_plan, SeedPlan};

#[test]
fn seeds_only_an_empty_unflagged_database() {
    assert_eq!(seed_plan(false, 0), SeedPlan::Seed);
    assert_eq!(seed_plan(false, 1), SeedPlan::MarkSeeded);
    assert_eq!(seed_plan(true, 0), SeedPlan::Skip);
    assert_eq!(seed_plan(true, 3), SeedPlan::Skip);
}

#[test]
fn defaults_list_every_category_once_per_type() {
    let all = default_categories();
    assert_eq!(all.len(), expense_defaults().len() + income_defaults().len());
    assert_eq!(all[0], ("食費", CategoryType::Expense, 0));
    assert_eq!(all[10], ("その他", CategoryType::Expense, 10));
    assert_eq!(all[11], ("給与", CategoryType::Income, 0));
    assert_eq!(all[14], ("その他", CategoryType::Income, 3));
}
