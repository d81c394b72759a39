use budget_tracker_lib::error::AppError;
use budget_tracker_lib::infra::migrations::{
    failure_message, order_migrations, parse_migration_stem, parse_u32, pending_migrations, schema_version_of, Migration,
};

fn m(version: u32, name: &str) -> Migration {
    Migration { version, name: name.into(), sql: String::new() }
}

#[test]
fn stems_give_version_and_name() {
    assert_eq!(parse_migration_stem("V001__init").unwrap(), (1, "init".to_string()));
    assert_eq!(parse_migration_stem("V012__add__column").unwrap(), (12, "add__column".to_string()));
}

#[test]
fn bad_stems_are_migration_errors() {
    assert!(matches!(parse_migration_stem("001__init"), Err(AppError::Migration(_))));
    assert!(matches!(parse_migration_stem("V001_init"), Err(AppError::Migration(_))));
    assert!(matches!(parse_migration_stem("Vx__init"), Err(AppError::Migration(_))));
    let err = parse_migration_stem("init").unwrap_err();
    assert_eq!(err.detail_text().as_str(), "filename must start with V: init");
}

#[test]
fn migrations_are_ordered_by_version() {
    let ordered = order_migrations(vec![m(3, "c"), m(1, "a"), m(2, "b")]).unwrap();
    let versions: Vec<u32> = ordered.iter().map(|x| x.version).collect();
    assert_eq!(versions, vec![1, 2, 3]);
}

#[test]
fn duplicate_versions_are_refused() {
    let err = order_migrations(vec![m(2, "b"), m(1, "a"), m(2, "c")]).unwrap_err();
    assert_eq!(err.detail_text().as_str(), "duplicate migration version: V002");
}

#[test]
fn schema_version_defaults_to_zero_and_must_be_a_number() {
    assert_eq!(schema_version_of(None).unwrap(), 0);
    assert_eq!(schema_version_of(Some("7")).unwrap(), 7);
    assert!(matches!(schema_version_of(Some("seven")), Err(AppError::Migration(_))));
}

#[test]
fn parse_u32_matches_std() {
    for s in ["0", "+5", "4294967295", "4294967296", "", "+", "-1", "12a", "007"] {
        assert_eq!(parse_u32(s), s.parse::<u32>().ok(), "{s:?}");
    }
}

#[test]
fn failure_message_names_the_migration() {
    assert_eq!(failure_message(2, "add_budgets", "syntax error"), "V002 (add_budgets) failed: syntax error");
}

fn versions(ms: &[Migration]) -> Vec<u32> {
    ms.iter().map(|m| m.version).collect()
}

#[test]
fn only_versions_above_the_stored_one_are_pending() {
    let all = vec![m(1, "init"), m(2, "budgets"), m(3, "recurring")];
    assert_eq!(versions(&pending_migrations(all.clone(), 0)), vec![1, 2, 3]);
    assert_eq!(versions(&pending_migrations(all.clone(), 2)), vec![3]);
    assert!(pending_migrations(all, 3).is_empty());
}

#[test]
fn a_second_run_from_the_reached_version_applies_nothing() {
    let all = vec![m(1, "init"), m(2, "budgets")];
    let first = pending_migrations(all.clone(), 0);
    let reached = first.last().map(|m| m.version).unwrap_or(0);
    assert_eq!(reached, 2);
    assert!(pending_migrations(all, reached).is_empty());
}
