//! Account requests and the checks they pass before anything is written.

use vstd::prelude::*;
use crate::domain::account::{self, AccountKind};
use crate::error::{AppError, AppResult, invalid_argument};
use crate::text::trimmed;

verus! {

broadcast use vstd::string::group_string_axioms;

/// A new account as the interface sends it.
#[derive(Debug, Clone)]
pub struct CreateAccountInput {
    pub name: String,
    pub kind: String,
    pub initial_balance: i64,
    pub note: String,
}

/// The fields of an account to change; absent fields stay.
#[derive(Debug, Clone)]
pub struct UpdateAccountPatch {
    pub name: Option<String>,
    pub kind: Option<String>,
    pub initial_balance: Option<i64>,
    pub note: Option<String>,
    pub display_order: Option<i64>,
}

/// What is wrong with an account name; `None` when it is acceptable.
pub open spec fn name_problem(raw: Seq<char>) -> Option<Seq<char>> {
    if trimmed(raw).len() == 0 {
        Some("account name is empty"@)
    } else if trimmed(raw).len() > account::MAX_NAME_LEN {
        Some("account name must be 40 chars or fewer"@)
    } else {
        None
    }
}

pub open spec fn note_problem(raw: Seq<char>) -> Option<Seq<char>> {
    if raw.len() > account::MAX_NOTE_LEN {
        Some("note must be 200 chars or fewer"@)
    } else {
        None
    }
}

/// The checked fields of a new account: trimmed name, note, kind.
pub fn prepare_create_account(input: &CreateAccountInput) -> (r: AppResult<(String, String, AccountKind)>)
    ensures
        match name_problem(input.name@) {
            Some(m) => r matches Err(e) && invalid_argument(e, m),
            None => match note_problem(input.note@) {
                Some(m) => r matches Err(e) && invalid_argument(e, m),
                None => match AccountKind::from_sql(input.kind@) {
                    None => r matches Err(e) && invalid_argument(e, AccountKind::parse_message(input.kind@)),
                    Some(k) => r matches Ok((n, t, kk)) && n@ == trimmed(input.name@) && t@ == input.note@ && kk == k,
                },
            },
        },
{
    let name = account::validate_name(input.name.as_str())?;
    let note = account::validate_note(input.note.as_str())?;
    let kind = AccountKind::parse(input.kind.as_str())?;
    Ok((name, note, kind))
}

/// The checked fields of an account update: name, note, kind, each only when given.
pub fn prepare_update_account(patch: &UpdateAccountPatch) -> (r: AppResult<(Option<String>, Option<String>, Option<AccountKind>)>)
    ensures
        match patch.name {
            Some(n) if name_problem(n@) is Some => r matches Err(e) && invalid_argument(e, name_problem(n@)->0),
            _ => match patch.note {
                Some(t) if note_problem(t@) is Some => r matches Err(e) && invalid_argument(e, note_problem(t@)->0),
                _ => match patch.kind {
                    Some(k) if AccountKind::from_sql(k@) is None => r matches Err(e) && invalid_argument(
                        e,
                        AccountKind::parse_message(k@),
                    ),
                    _ => r matches Ok((n, t, kk)) && (match patch.name {
                        Some(raw) => n matches Some(v) && v@ == trimmed(raw@),
                        None => n is None,
                    }) && (match patch.note {
                        Some(raw) => t matches Some(v) && v@ == raw@,
                        None => t is None,
                    }) && (match patch.kind {
                        Some(raw) => kk == AccountKind::from_sql(raw@),
                        None => kk is None,
                    }),
                },
            },
        },
{
    let name = match &patch.name {
        Some(n) => Some(account::validate_name(n.as_str())?),
        None => None,
    };
    let note = match &patch.note {
        Some(t) => Some(account::validate_note(t.as_str())?),
        None => None,
    };
    let kind = match &patch.kind {
        Some(k) => Some(AccountKind::parse(k.as_str())?),
        None => None,
    };
    Ok((name, note, kind))
}

} // verus!
