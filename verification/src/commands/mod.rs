pub mod backup;
pub mod import_rows;
pub mod snapshots;
pub mod transactions;
pub mod reports;
pub mod accounts;
pub mod budgets;
pub mod categories;
pub mod recurring;
pub mod meta;
pub mod recovery;
pub mod settings;
