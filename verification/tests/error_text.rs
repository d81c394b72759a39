use budget_tracker_lib::error::{AppError, ImportRowError};

#[test]
fn migration_error_displays_message() {
    let err = AppError::Migration("V002 broken".into());
    assert_eq!(err.to_text(), "migration error: V002 broken");
}

#[test]
fn conflict_displays_message() {
    let err = AppError::Conflict("name already exists".into());
    assert_eq!(err.to_text(), "conflict: name already exists");
}

#[test]
fn not_found_displays_message() {
    let err = AppError::NotFound("category 42".into());
    assert_eq!(err.to_text(), "not found: category 42");
}

#[test]
fn unavailable_error_displays_message() {
    assert_eq!(AppError::Unavailable("recovery".into()).to_text(), "unavailable: recovery");
}

#[test]
fn import_row_errors_join_entity_index_and_message() {
    let joined = ImportRowError::join_all(&[
        ImportRowError { index: 2, entity: "transaction".into(), message: "amount must be positive".into() },
        ImportRowError { index: 4, entity: "transfer".into(), message: "source and destination must differ".into() },
    ]);
    assert_eq!(
        joined,
        "transaction[2]: amount must be positive; transfer[4]: source and destination must differ"
    );
    let err = AppError::ImportValidation(joined);
    assert!(err.to_text().contains("transaction["));
    assert_eq!(
        err.to_text(),
        "import validation failed: transaction[2]: amount must be positive; transfer[4]: source and destination must differ"
    );
}

#[test]
fn join_of_no_errors_is_empty() {
    assert_eq!(ImportRowError::join_all(&[]), "");
}

#[test]
fn every_variant_has_its_prefix() {
    let cases = [
        (AppError::Db("x".into()), "database error: x"),
        (AppError::Keychain("x".into()), "keychain error: x"),
        (AppError::Io("x".into()), "io error: x"),
        (AppError::Corrupt("x".into()), "corrupt data: x"),
        (AppError::InvalidArgument("x".into()), "invalid argument: x"),
    ];
    for (err, text) in cases {
        assert_eq!(err.to_text(), text);
    }
}
