pub mod account_repo;
pub mod balance_repo;
pub mod budget_repo;
pub mod category_repo;
pub mod recurring_repo;
pub mod report_repo;
pub mod transaction_repo;
