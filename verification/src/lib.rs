//! Household ledger: dates, transactions, balances, budgets, recurring rules,
//! reports and the checks a backup must pass before it is imported.

pub mod commands;
pub mod domain;
pub mod error;
pub mod infra;
pub mod text;
