//! Accounts: their kinds and the checks on their names and notes.

use vstd::prelude::*;
use vstd::string::StrSliceExecFns;
use crate::error::{AppError, AppResult, invalid, invalid_argument};
use crate::text::{concat, owned, push_char, str_equal, string_from_chars, trim_chars, trimmed};

verus! {

broadcast use vstd::string::group_string_axioms;

#[derive(Debug, Clone, Copy, PartialEq, Eq, Hash)]
pub enum AccountKind {
    Cash,
    Bank,
    CreditCard,
    EMoney,
    Investment,
}

impl AccountKind {
    pub open spec fn sql(self) -> Seq<char> {
        match self {
            AccountKind::Cash => "cash"@,
            AccountKind::Bank => "bank"@,
            AccountKind::CreditCard => "credit_card"@,
            AccountKind::EMoney => "e_money"@,
            AccountKind::Investment => "investment"@,
        }
    }

    /// The text stored in the `kind` column.
    pub fn as_sql(self) -> (r: &'static str)
        ensures
            r@ == self.sql(),
    {
        match self {
            AccountKind::Cash => "cash",
            AccountKind::Bank => "bank",
            AccountKind::CreditCard => "credit_card",
            AccountKind::EMoney => "e_money",
            AccountKind::Investment => "investment",
        }
    }

    /// The kind a stored text names.
    pub open spec fn from_sql(raw: Seq<char>) -> Option<AccountKind> {
        if raw == "cash"@ {
            Some(AccountKind::Cash)
        } else if raw == "bank"@ {
            Some(AccountKind::Bank)
        } else if raw == "credit_card"@ {
            Some(AccountKind::CreditCard)
        } else if raw == "e_money"@ {
            Some(AccountKind::EMoney)
        } else if raw == "investment"@ {
            Some(AccountKind::Investment)
        } else {
            None
        }
    }

    pub open spec fn parse_message(raw: Seq<char>) -> Seq<char> {
        "account kind must be cash|bank|credit_card|e_money|investment, got '"@ + raw + seq!['\'']
    }

    pub fn parse(raw: &str) -> (r: AppResult<AccountKind>)
        ensures
            match AccountKind::from_sql(raw@) {
                Some(k) => r == Ok::<AccountKind, AppError>(k),
                None => r matches Err(e) && invalid_argument(e, AccountKind::parse_message(raw@)),
            },
    {
        if str_equal(raw, "cash") {
            Ok(AccountKind::Cash)
        } else if str_equal(raw, "bank") {
            Ok(AccountKind::Bank)
        } else if str_equal(raw, "credit_card") {
            Ok(AccountKind::CreditCard)
        } else if str_equal(raw, "e_money") {
            Ok(AccountKind::EMoney)
        } else if str_equal(raw, "investment") {
            Ok(AccountKind::Investment)
        } else {
            let mut s = concat(
                owned("account kind must be cash|bank|credit_card|e_money|investment, got '"),
                raw,
            );
            push_char(&mut s, '\'');
            assert(s@ =~= AccountKind::parse_message(raw@));
            Err(AppError::InvalidArgument(s))
        }
    }
}

/// A stored account.
#[derive(Debug, Clone)]
pub struct Account {
    pub id: i64,
    pub name: String,
    pub kind: AccountKind,
    pub currency: String,
    pub initial_balance: i64,
    pub display_order: i64,
    pub note: String,
    pub archived_at: Option<String>,
    pub created_at: String,
    pub updated_at: String,
}

/// The longest account name, in characters.
pub const MAX_NAME_LEN: usize = 40;

/// The longest note, in characters.
pub const MAX_NOTE_LEN: usize = 200;

/// An account name: surrounding whitespace removed, not empty, at most 40 characters.
pub fn validate_name(raw: &str) -> (r: AppResult<String>)
    ensures
        trimmed(raw@).len() == 0 ==> (r matches Err(e) && invalid_argument(e, "account name is empty"@)),
        0 < trimmed(raw@).len() <= MAX_NAME_LEN ==> (r matches Ok(s) && s@ == trimmed(raw@)),
        trimmed(raw@).len() > MAX_NAME_LEN ==> (r matches Err(e) && invalid_argument(
            e,
            "account name must be 40 chars or fewer"@,
        )),
{
    let chars = trim_chars(raw);
    if chars.len() == 0 {
        return Err(invalid("account name is empty"));
    }
    if chars.len() > MAX_NAME_LEN {
        return Err(invalid("account name must be 40 chars or fewer"));
    }
    Ok(string_from_chars(chars.as_slice()))
}

/// An account note of at most 200 characters, kept as given.
pub fn validate_note(raw: &str) -> (r: AppResult<String>)
    ensures
        raw@.len() <= MAX_NOTE_LEN ==> (r matches Ok(s) && s@ == raw@),
        raw@.len() > MAX_NOTE_LEN ==> (r matches Err(e) && invalid_argument(
            e,
            "note must be 200 chars or fewer"@,
        )),
{
    if raw.unicode_len() > MAX_NOTE_LEN {
        return Err(invalid("note must be 200 chars or fewer"));
    }
    Ok(owned(raw))
}

} // verus!
