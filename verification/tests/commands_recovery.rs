use budget_tracker_lib::commands::recovery::{
    boot_status_of, recovery_key_plan, recovery_only, unique_quarantine_name, BootState, RecoveryKeyPlan,
};
use budget_tracker_lib::commands::snapshots::{stamp, StampTime};
use budget_tracker_lib::error::AppError;
use budget_tracker_lib::infra::boot::{classify_key_lookup, KeyLookup, RecoveryReason};

fn now() -> StampTime {
    StampTime { year: 2026, month: 8, day: 29, hour: 12, minute: 30, second: 45 }
}

#[test]
fn obtain_recovery_key_does_not_replace_on_keychain_error() {
    let lookup: Result<Option<[u8; 32]>, AppError> = Err(AppError::Keychain("transient".into()));
    assert_eq!(recovery_key_plan(classify_key_lookup(&lookup)), RecoveryKeyPlan::Fail);
}

#[test]
fn obtain_recovery_key_mints_when_missing() {
    let lookup: Result<Option<[u8; 32]>, AppError> = Ok(None);
    assert_eq!(recovery_key_plan(classify_key_lookup(&lookup)), RecoveryKeyPlan::Create);
}

#[test]
fn obtain_recovery_key_preserves_corrupt_entry_before_replacing_it() {
    let lookup: Result<Option<[u8; 32]>, AppError> = Err(AppError::Corrupt("wrong length".into()));
    assert_eq!(recovery_key_plan(classify_key_lookup(&lookup)), RecoveryKeyPlan::PreserveDeleteCreate);
    let stored: Result<Option<[u8; 32]>, AppError> = Ok(Some([9u8; 32]));
    assert_eq!(recovery_key_plan(classify_key_lookup(&stored)), RecoveryKeyPlan::UseStored);
}

#[test]
fn quarantine_name_uses_utc_stamp() {
    let name = unique_quarantine_name(&[], &stamp(now()));
    assert_eq!(name, "data.db.corrupt-20260829T123045Z");
}

#[test]
fn quarantine_name_appends_suffix_when_taken() {
    let existing = vec!["data.db.corrupt-20260829T123045Z".to_string(), "data.db.corrupt-20260829T123045Z-2".to_string()];
    let name = unique_quarantine_name(&existing, &stamp(now()));
    assert_eq!(name, "data.db.corrupt-20260829T123045Z-3");
}

#[test]
fn boot_status_reports_recovery_with_its_reason() {
    let s = boot_status_of(Some(RecoveryReason::KeyMissing), "/d/data.db".into());
    assert_eq!(s.state, BootState::Recovery);
    assert_eq!(s.recovery_reason, Some(RecoveryReason::KeyMissing));
    let ready = boot_status_of(None, "/d/data.db".into());
    assert_eq!(ready.state, BootState::Ready);
    assert_eq!(ready.db_path, "/d/data.db");
}

#[test]
fn recovery_commands_are_refused_outside_recovery() {
    let err = recovery_only("recover_start_empty");
    assert!(matches!(err, AppError::InvalidArgument(_)));
    assert_eq!(err.detail_text().as_str(), "recover_start_empty is only available during recovery");
}

#[test]
fn key_lookup_of_a_found_key_is_found() {
    let lookup: Result<Option<u8>, AppError> = Ok(Some(1));
    assert_eq!(classify_key_lookup(&lookup), KeyLookup::Found);
}
