//! Recovery: the status the interface shows at start, how a recovery gets a
//! key, and where an unreadable database is moved aside.

use vstd::prelude::*;
use crate::error::{AppError, AppResult, invalid_argument};
use crate::infra::boot::{KeyLookup, RecoveryReason};
use crate::text::{concat, decimal, owned, push_char, push_decimal, str_equal};

verus! {

broadcast use vstd::string::group_string_axioms;

/// Whether the app has its database open or waits in recovery.
#[derive(Debug, Clone, Copy, PartialEq, Eq)]
pub enum BootState {
    Ready,
    Recovery,
}

/// What the interface is told at start.
#[derive(Debug, Clone)]
pub struct BootStatus {
    pub state: BootState,
    pub recovery_reason: Option<RecoveryReason>,
    pub db_path: String,
}

/// The status for a database that is open (`reason` is none) or in recovery.
pub fn boot_status_of(reason: Option<RecoveryReason>, db_path: String) -> (r: BootStatus)
    ensures
        r.recovery_reason == reason,
        r.db_path == db_path,
        r.state == (if reason is Some { BootState::Recovery } else { BootState::Ready }),
{
    match reason {
        Some(_) => BootStatus { state: BootState::Recovery, recovery_reason: reason, db_path },
        None => BootStatus { state: BootState::Ready, recovery_reason: None, db_path },
    }
}

/// How a recovery obtains the key for the new database.
#[derive(Debug, Clone, Copy, PartialEq, Eq)]
pub enum RecoveryKeyPlan {
    /// Use the stored key.
    UseStored,
    /// No key is stored: mint one.
    Create,
    /// The stored secret does not decode. It may still be the only thing
    /// that decrypts the old database, so park it first, then delete the
    /// entry and mint a new key.
    PreserveDeleteCreate,
    /// The keychain failed: give up and touch nothing.
    Fail,
}

pub fn recovery_key_plan(lookup: KeyLookup) -> (r: RecoveryKeyPlan)
    ensures
        r == (match lookup {
            KeyLookup::Found => RecoveryKeyPlan::UseStored,
            KeyLookup::Missing => RecoveryKeyPlan::Create,
            KeyLookup::Corrupt => RecoveryKeyPlan::PreserveDeleteCreate,
            KeyLookup::Failed => RecoveryKeyPlan::Fail,
        }),
{
    match lookup {
        KeyLookup::Found => RecoveryKeyPlan::UseStored,
        KeyLookup::Missing => RecoveryKeyPlan::Create,
        KeyLookup::Corrupt => RecoveryKeyPlan::PreserveDeleteCreate,
        KeyLookup::Failed => RecoveryKeyPlan::Fail,
    }
}

/// A recovery command outside recovery.
pub fn recovery_only(command: &str) -> (r: AppError)
    ensures
        invalid_argument(r, command@ + " is only available during recovery"@),
{
    AppError::InvalidArgument(concat(owned(command), " is only available during recovery"))
}

/// `data.db.corrupt-<stamp>`, with `-n` from the second candidate on.
pub open spec fn quarantine_candidate(stamp: Seq<char>, n: int) -> Seq<char> {
    if n <= 1 {
        "data.db.corrupt-"@ + stamp
    } else {
        "data.db.corrupt-"@ + stamp + seq!['-'] + decimal(n)
    }
}

/// `name` is one of the existing file names.
pub open spec fn taken(existing: Seq<String>, name: Seq<char>) -> bool {
    exists|i: int| 0 <= i < existing.len() && (#[trigger] existing[i])@ == name
}

/// The first free candidate from `n` on; the search stops at the last
/// ordinal below `u32::MAX`.
pub open spec fn free_from(existing: Seq<String>, stamp: Seq<char>, n: int) -> Seq<char>
    decreases u32::MAX - n,
{
    if n >= u32::MAX - 1 || !taken(existing, quarantine_candidate(stamp, n)) {
        quarantine_candidate(stamp, n)
    } else {
        free_from(existing, stamp, n + 1)
    }
}

/// Where an unreadable database is moved: the plain name when it is free,
/// else the first free `-n` (n from 2).
pub open spec fn quarantine_name_of(existing: Seq<String>, stamp: Seq<char>) -> Seq<char> {
    if !taken(existing, quarantine_candidate(stamp, 1)) {
        quarantine_candidate(stamp, 1)
    } else {
        free_from(existing, stamp, 2)
    }
}

fn candidate(stamp: &str, n: u32) -> (r: String)
    ensures
        r@ == quarantine_candidate(stamp@, n as int),
{
    let mut s = concat(owned("data.db.corrupt-"), stamp);
    if n > 1 {
        push_char(&mut s, '-');
        push_decimal(&mut s, n as i64);
    }
    s
}

fn is_taken(existing: &[String], name: &str) -> (r: bool)
    ensures
        r == taken(existing@, name@),
{
    let mut i: usize = 0;
    while i < existing.len()
        invariant
            0 <= i <= existing.len(),
            forall|k: int| 0 <= k < i ==> (#[trigger] existing@[k])@ != name@,
        decreases existing.len() - i,
    {
        if str_equal(existing[i].as_str(), name) {
            return true;
        }
        i += 1;
    }
    false
}

/// The file name an unreadable database is moved to, given the names in the
/// data directory; an existing file is never overwritten while a free name
/// is left.
pub fn unique_quarantine_name(existing: &[String], stamp: &str) -> (r: String)
    ensures
        r@ == quarantine_name_of(existing@, stamp@),
{
    let base = candidate(stamp, 1);
    if !is_taken(existing, base.as_str()) {
        return base;
    }
    let mut n: u32 = 2;
    while n < u32::MAX - 1
        invariant
            2 <= n <= u32::MAX - 1,
            taken(existing@, quarantine_candidate(stamp@, 1)),
            free_from(existing@, stamp@, 2) == free_from(existing@, stamp@, n as int),
        decreases u32::MAX - n,
    {
        let c = candidate(stamp, n);
        if !is_taken(existing, c.as_str()) {
            return c;
        }
        n += 1;
    }
    candidate(stamp, n)
}

} // verus!
