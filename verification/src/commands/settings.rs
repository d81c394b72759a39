//! Backups to a file: the suggested file name and the recorded time.

use vstd::prelude::*;
use crate::commands::snapshots::{StampTime, push_year, stamp, stamp_text};
use crate::domain::calendar::year_text;
use crate::text::{concat, owned, push_char, push_zero_padded, zero_padded};

verus! {

broadcast use vstd::string::group_string_axioms;

/// Where a backup was written and when.
#[derive(Debug, Clone)]
pub struct BackupFileResult {
    pub path: String,
    pub last_backup_at: String,
}

/// The suggested name of a backup file: `budget-backup-<UTC stamp>.json`.
pub fn backup_file_name(now: StampTime) -> (r: String)
    ensures
        r@ == "budget-backup-"@ + stamp_text(now) + ".json"@,
{
    let s = concat(owned("budget-backup-"), stamp(now).as_str());
    concat(s, ".json")
}

/// RFC 3339 in UTC with milliseconds: `YYYY-MM-DDTHH:MM:SS.mmmZ`.
pub open spec fn rfc3339_millis_text(t: StampTime, millis: int) -> Seq<char> {
    year_text(t.year as int) + seq!['-'] + zero_padded(t.month as int, 2) + seq!['-'] + zero_padded(t.day as int, 2)
        + seq!['T'] + zero_padded(t.hour as int, 2) + seq![':'] + zero_padded(t.minute as int, 2) + seq![':']
        + zero_padded(t.second as int, 2) + seq!['.'] + zero_padded(millis, 3) + seq!['Z']
}

/// The moment of a backup as it is recorded, to the millisecond.
pub fn rfc3339_millis(now: StampTime, millis: u32) -> (r: String)
    requires
        millis < 1000,
    ensures
        r@ == rfc3339_millis_text(now, millis as int),
{
    let mut s = String::new();
    push_year(&mut s, now.year);
    push_char(&mut s, '-');
    push_zero_padded(&mut s, now.month as i64, 2);
    push_char(&mut s, '-');
    push_zero_padded(&mut s, now.day as i64, 2);
    push_char(&mut s, 'T');
    push_zero_padded(&mut s, now.hour as i64, 2);
    push_char(&mut s, ':');
    push_zero_padded(&mut s, now.minute as i64, 2);
    push_char(&mut s, ':');
    push_zero_padded(&mut s, now.second as i64, 2);
    push_char(&mut s, '.');
    push_zero_padded(&mut s, millis as i64, 3);
    push_char(&mut s, 'Z');
    assert(s@ =~= rfc3339_millis_text(now, millis as int));
    s
}

} // verus!
