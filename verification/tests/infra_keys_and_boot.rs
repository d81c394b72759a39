use base64::Engine;
use budget_tracker_lib::error::AppError;
use budget_tracker_lib::infra::boot::{
    after_open_error, classify_key_lookup, plan_boot, BootPlan, KeyLookup, RecoveryReason,
};
use budget_tracker_lib::infra::db::{key_to_hex, looks_like_decrypt_failure, pragma_key_value};
use budget_tracker_lib::infra::keychain::{corrupt_key_account, decode_key, encode_key, new_key, KEY_LEN};

fn make_key(seed: u8) -> [u8; KEY_LEN] {
    let mut k = [0u8; KEY_LEN];
    for (i, slot) in k.iter_mut().enumerate() {
        *slot = seed.wrapping_add(i as u8);
    }
    k
}

#[test]
fn encoded_key_decodes_to_the_same_key() {
    let key = make_key(7);
    let text = encode_key(&key);
    assert!(!text.contains('='));
    assert_ne!(text.as_bytes(), &key[..]);
    assert_eq!(decode_key(&text).unwrap(), key);
}

#[test]
fn fresh_keys_differ() {
    assert_ne!(new_key(), new_key());
}

#[test]
fn wrong_length_entry_returns_corrupt_error() {
    let err = decode_key("c2hvcnQ").unwrap_err();
    assert!(matches!(err, AppError::Corrupt(_)));
    assert_eq!(err.detail_text().as_str(), "corrupt keychain entry: stored key has wrong length: 5");
}

#[test]
fn invalid_base64_entry_returns_corrupt_error() {
    assert!(matches!(decode_key("not valid base64!!!").unwrap_err(), AppError::Corrupt(_)));
}

#[test]
fn padded_standard_base64_entry_returns_corrupt_error() {
    let padded = base64::engine::general_purpose::STANDARD.encode([7u8; KEY_LEN]);
    assert!(padded.contains('='));
    assert!(matches!(decode_key(&padded).unwrap_err(), AppError::Corrupt(_)));
}

#[test]
fn corrupt_key_account_is_stamped_and_numbered() {
    assert_eq!(corrupt_key_account("db_key", "20260829T123045Z", 1), "db_key.corrupt-20260829T123045Z");
    assert_eq!(corrupt_key_account("db_key", "20260829T123045Z", 2), "db_key.corrupt-20260829T123045Z-2");
}

#[test]
fn key_hex_is_lowercase_two_digits_per_byte() {
    let mut key = [0u8; KEY_LEN];
    key[0] = 0xab;
    key[1] = 0x05;
    key[31] = 0xff;
    let hex = key_to_hex(&key);
    assert_eq!(hex.len(), 64);
    assert!(hex.starts_with("ab05"));
    assert!(hex.ends_with("ff"));
    assert_eq!(pragma_key_value(&key), format!("x'{hex}'"));
}

#[test]
fn wrong_key_errors_read_as_decrypt_failures() {
    assert!(looks_like_decrypt_failure(&AppError::Db("file is not a database".into())));
    assert!(looks_like_decrypt_failure(&AppError::Db("HMAC check failed for pgno=1".into())));
    assert!(looks_like_decrypt_failure(&AppError::Db("File Is Encrypted or is not a database".into())));
    assert!(!looks_like_decrypt_failure(&AppError::Db("disk I/O error".into())));
    assert!(!looks_like_decrypt_failure(&AppError::Migration("V002 broken".into())));
}

#[test]
fn after_open_error_recovers_only_from_decrypt_failures() {
    assert_eq!(after_open_error(&AppError::Db("file is not a database".into())), Some(RecoveryReason::DecryptFailed));
    assert_eq!(after_open_error(&AppError::Migration("V002 broken".into())), None);
}

#[test]
fn a_database_without_a_key_is_never_given_a_fresh_key() {
    assert_eq!(plan_boot(true, KeyLookup::Missing), BootPlan::Recover(RecoveryReason::KeyMissing));
    assert_eq!(plan_boot(false, KeyLookup::Missing), BootPlan::CreateKeyAndOpen);
    assert_eq!(plan_boot(true, KeyLookup::Found), BootPlan::OpenExisting);
    assert_eq!(plan_boot(false, KeyLookup::Found), BootPlan::OpenNew);
    assert_eq!(plan_boot(true, KeyLookup::Corrupt), BootPlan::Recover(RecoveryReason::KeyCorrupt));
    assert_eq!(plan_boot(false, KeyLookup::Failed), BootPlan::Recover(RecoveryReason::KeychainError));
}

#[test]
fn key_lookup_classification() {
    let found: Result<Option<u8>, AppError> = Ok(Some(1));
    let missing: Result<Option<u8>, AppError> = Ok(None);
    let corrupt: Result<Option<u8>, AppError> = Err(AppError::Corrupt("x".into()));
    let failed: Result<Option<u8>, AppError> = Err(AppError::Keychain("x".into()));
    assert_eq!(classify_key_lookup(&found), KeyLookup::Found);
    assert_eq!(classify_key_lookup(&missing), KeyLookup::Missing);
    assert_eq!(classify_key_lookup(&corrupt), KeyLookup::Corrupt);
    assert_eq!(classify_key_lookup(&failed), KeyLookup::Failed);
}

#[test]
fn recovery_reasons_have_wire_names() {
    assert_eq!(RecoveryReason::KeyMissing.label(), "KeyMissing");
    assert_eq!(RecoveryReason::DecryptFailed.label(), "DecryptFailed");
    assert_eq!(RecoveryReason::KeyCorrupt.wire(), "key_corrupt");
    assert_eq!(RecoveryReason::KeychainError.wire(), "keychain_error");
}
