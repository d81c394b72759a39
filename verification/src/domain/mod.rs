pub mod account;
pub mod balance;
pub mod budget;
pub mod category;
pub mod calendar;
pub mod date;
pub mod ledger;
pub mod recurring;
pub mod report;
pub mod seed;
pub mod arith;
pub mod year_month;
