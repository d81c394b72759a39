pub mod boot;
pub mod db;
pub mod events;
pub mod keychain;
pub mod migrations;
pub mod repo;
