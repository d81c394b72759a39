//! What the app does at start: find the key, open or create the database, or
//! fall back to recovery. The decisions are made here; opening files and
//! talking to the keychain happen around them.

use vstd::prelude::*;
use crate::error::{AppError, AppResult};
use crate::infra::db::{decrypt_failure_text, looks_like_decrypt_failure};

verus! {

pub const KEYCHAIN_SERVICE: &'static str = "jp.budget-tracker";
pub const KEYCHAIN_ACCOUNT: &'static str = "db_key";
pub const DB_FILENAME: &'static str = "data.db";

/// Why the app cannot open its database and asks the user what to do.
#[derive(Debug, Clone, Copy, PartialEq, Eq)]
pub enum RecoveryReason {
    KeyMissing,
    DecryptFailed,
    KeyCorrupt,
    KeychainError,
}

impl RecoveryReason {
    /// The reason as the interface receives it.
    pub open spec fn wire_name(self) -> Seq<char> {
        match self {
            RecoveryReason::KeyMissing => "key_missing"@,
            RecoveryReason::DecryptFailed => "decrypt_failed"@,
            RecoveryReason::KeyCorrupt => "key_corrupt"@,
            RecoveryReason::KeychainError => "keychain_error"@,
        }
    }

    pub fn wire(self) -> (r: &'static str)
        ensures
            r@ == self.wire_name(),
    {
        match self {
            RecoveryReason::KeyMissing => "key_missing",
            RecoveryReason::DecryptFailed => "decrypt_failed",
            RecoveryReason::KeyCorrupt => "key_corrupt",
            RecoveryReason::KeychainError => "keychain_error",
        }
    }

    /// The reason as error texts name it.
    pub open spec fn label_of(self) -> Seq<char> {
        match self {
            RecoveryReason::KeyMissing => "KeyMissing"@,
            RecoveryReason::DecryptFailed => "DecryptFailed"@,
            RecoveryReason::KeyCorrupt => "KeyCorrupt"@,
            RecoveryReason::KeychainError => "KeychainError"@,
        }
    }

    pub fn label(self) -> (r: &'static str)
        ensures
            r@ == self.label_of(),
    {
        match self {
            RecoveryReason::KeyMissing => "KeyMissing",
            RecoveryReason::DecryptFailed => "DecryptFailed",
            RecoveryReason::KeyCorrupt => "KeyCorrupt",
            RecoveryReason::KeychainError => "KeychainError",
        }
    }
}

/// The key store entry the app's key lives in.
#[derive(Debug, Clone)]
pub struct OsKeyStore {
    pub service: String,
    pub account: String,
}

/// What asking the keychain for the key gave.
#[derive(Debug, Clone, Copy, PartialEq, Eq)]
pub enum KeyLookup {
    /// A key was stored and decoded.
    Found,
    /// No key is stored.
    Missing,
    /// Something is stored but it is not a key.
    Corrupt,
    /// The keychain itself failed.
    Failed,
}

/// Classify the keychain's answer: an undecodable entry is `Corrupt`, any
/// other error a keychain failure.
pub fn classify_key_lookup<T>(lookup: &AppResult<Option<T>>) -> (r: KeyLookup)
    ensures
        r == (match lookup {
            Ok(Some(_)) => KeyLookup::Found,
            Ok(None) => KeyLookup::Missing,
            Err(AppError::Corrupt(_)) => KeyLookup::Corrupt,
            Err(_) => KeyLookup::Failed,
        }),
{
    match lookup {
        Ok(Some(_)) => KeyLookup::Found,
        Ok(None) => KeyLookup::Missing,
        Err(AppError::Corrupt(_)) => KeyLookup::Corrupt,
        Err(_) => KeyLookup::Failed,
    }
}

/// What start-up does next.
#[derive(Debug, Clone, Copy, PartialEq, Eq)]
pub enum BootPlan {
    /// No database and no key: mint a key, then create and prepare the database.
    CreateKeyAndOpen,
    /// No database but a key: create and prepare the database under it.
    OpenNew,
    /// A database and a key: open it; see `after_open_error` if that fails.
    OpenExisting,
    /// Ask the user.
    Recover(RecoveryReason),
}

/// Decide how to start from whether `data.db` exists and what the keychain
/// said. A database without a key is never given a fresh key.
pub fn plan_boot(db_exists: bool, key: KeyLookup) -> (r: BootPlan)
    ensures
        r == (match key {
            KeyLookup::Corrupt => BootPlan::Recover(RecoveryReason::KeyCorrupt),
            KeyLookup::Failed => BootPlan::Recover(RecoveryReason::KeychainError),
            KeyLookup::Missing => if db_exists {
                BootPlan::Recover(RecoveryReason::KeyMissing)
            } else {
                BootPlan::CreateKeyAndOpen
            },
            KeyLookup::Found => if db_exists {
                BootPlan::OpenExisting
            } else {
                BootPlan::OpenNew
            },
        }),
{
    match key {
        KeyLookup::Corrupt => BootPlan::Recover(RecoveryReason::KeyCorrupt),
        KeyLookup::Failed => BootPlan::Recover(RecoveryReason::KeychainError),
        KeyLookup::Missing => if db_exists {
            BootPlan::Recover(RecoveryReason::KeyMissing)
        } else {
            BootPlan::CreateKeyAndOpen
        },
        KeyLookup::Found => if db_exists {
            BootPlan::OpenExisting
        } else {
            BootPlan::OpenNew
        },
    }
}

/// When opening an existing database under its key fails: a failure that
/// reads like a wrong key leads to recovery; anything else is an error.
/// (Migration and seeding errors of a database that did open are errors too,
/// never recovery, so that recovery cannot move a readable database aside.)
pub fn after_open_error(err: &AppError) -> (r: Option<RecoveryReason>)
    ensures
        r is Some <==> decrypt_failure_text(err.prefix() + err.detail()),
        r matches Some(reason) ==> reason == RecoveryReason::DecryptFailed,
{
    if looks_like_decrypt_failure(err) {
        Some(RecoveryReason::DecryptFailed)
    } else {
        None
    }
}

} // verus!
