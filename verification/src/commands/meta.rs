//! What the app reports about itself, and the answer while in recovery.

use vstd::prelude::*;
use crate::error::AppError;
use crate::infra::boot::RecoveryReason;
use crate::infra::migrations::{parse_u32, u32_of};
use crate::text::{concat, owned, push_char};

verus! {

broadcast use vstd::string::group_string_axioms;

/// The schema version and where the database lives.
#[derive(Debug, Clone)]
pub struct AppInfo {
    pub schema_version: u32,
    pub db_path: String,
}

/// The schema version as stored, or 0 when none is stored or it does not read.
pub fn schema_version_or_zero(stored: Option<&str>) -> (r: u32)
    ensures
        r == (match stored {
            Some(t) => match u32_of(t@) {
                Some(v) => v,
                None => 0,
            },
            None => 0,
        }),
{
    match stored {
        Some(t) => match parse_u32(t) {
            Some(v) => v,
            None => 0,
        },
        None => 0,
    }
}

/// The error of a command that needs the database while the app is in recovery.
pub fn in_recovery(reason: RecoveryReason) -> (r: AppError)
    ensures
        r matches AppError::Unavailable(m) && m@ == "database is in recovery ("@ + reason.label_of() + seq![')'],
{
    let mut s = concat(owned("database is in recovery ("), reason.label());
    push_char(&mut s, ')');
    AppError::Unavailable(s)
}

} // verus!
