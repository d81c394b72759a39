//! Errors the ledger reports, and the row errors a rejected import collects.

use vstd::prelude::*;
use crate::text::{concat, owned, push_char, push_decimal, decimal, with_decimal};

verus! {

broadcast use vstd::string::group_string_axioms;

/// One problem found in one row of a backup payload.
#[derive(Debug, Clone, PartialEq, Eq)]
pub struct ImportRowError {
    pub index: u32,
    pub entity: String,
    pub message: String,
}

impl ImportRowError {
    /// `entity[index]: message`.
    pub open spec fn text(self) -> Seq<char> {
        self.entity@ + seq!['['] + decimal(self.index as int) + seq![']', ':', ' '] + self.message@
    }

    /// The row error as the user sees it (`entity[index]: message`).
    pub fn to_text(&self) -> (r: String)
        ensures
            r@ == self.text(),
    {
        let mut s = owned(self.entity.as_str());
        push_char(&mut s, '[');
        push_decimal(&mut s, self.index as i64);
        push_char(&mut s, ']');
        push_char(&mut s, ':');
        push_char(&mut s, ' ');
        let r = concat(s, self.message.as_str());
        assert(r@ =~= self.text());
        r
    }

    /// All row errors joined with `"; "`.
    pub fn join_all(errors: &[ImportRowError]) -> (r: String)
        ensures
            r@ == joined_texts(errors@),
    {
        let mut s = String::new();
        let mut i: usize = 0;
        while i < errors.len()
            invariant
                0 <= i <= errors.len(),
                s@ == joined_texts(errors@.subrange(0, i as int)),
            decreases errors.len() - i,
        {
            if i > 0 {
                s.append("; ");
            }
            let t = errors[i].to_text();
            s.append(t.as_str());
            proof {
                let pre = errors@.subrange(0, i as int);
                let next = errors@.subrange(0, i + 1);
                assert(next.drop_last() =~= pre);
                assert(next.last() == errors@[i as int]);
                reveal_strlit("; ");
            }
            i += 1;
        }
        assert(errors@.subrange(0, errors.len() as int) =~= errors@);
        s
    }
}

/// Row error texts joined with `"; "`.
pub open spec fn joined_texts(errors: Seq<ImportRowError>) -> Seq<char>
    decreases errors.len(),
{
    if errors.len() == 0 {
        Seq::empty()
    } else if errors.len() == 1 {
        errors[0].text()
    } else {
        joined_texts(errors.drop_last()) + seq![';', ' '] + errors.last().text()
    }
}

/// Everything that can go wrong, with the text each error carries.
#[derive(Debug, Clone, PartialEq, Eq)]
pub enum AppError {
    Db(String),
    Keychain(String),
    Base64(String),
    Io(String),
    Migration(String),
    Corrupt(String),
    NotFound(String),
    InvalidArgument(String),
    Conflict(String),
    Unavailable(String),
    ImportValidation(String),
}

pub type AppResult<T> = Result<T, AppError>;

/// `e` is an invalid-argument error whose text is `msg`.
pub open spec fn invalid_argument(e: AppError, msg: Seq<char>) -> bool {
    e matches AppError::InvalidArgument(m) && m@ == msg
}

/// `e` is a corrupt-data error whose text is `msg`.
pub open spec fn corrupt(e: AppError, msg: Seq<char>) -> bool {
    e matches AppError::Corrupt(m) && m@ == msg
}

impl AppError {
    /// The prefix shown before the error's own text.
    pub open spec fn prefix(self) -> Seq<char> {
        match self {
            AppError::Db(_) => "database error: "@,
            AppError::Keychain(_) => "keychain error: "@,
            AppError::Base64(_) => "base64 decode error: "@,
            AppError::Io(_) => "io error: "@,
            AppError::Migration(_) => "migration error: "@,
            AppError::Corrupt(_) => "corrupt data: "@,
            AppError::NotFound(_) => "not found: "@,
            AppError::InvalidArgument(_) => "invalid argument: "@,
            AppError::Conflict(_) => "conflict: "@,
            AppError::Unavailable(_) => "unavailable: "@,
            AppError::ImportValidation(_) => "import validation failed: "@,
        }
    }

    pub open spec fn detail(self) -> Seq<char> {
        match self {
            AppError::Db(m) => m@,
            AppError::Keychain(m) => m@,
            AppError::Base64(m) => m@,
            AppError::Io(m) => m@,
            AppError::Migration(m) => m@,
            AppError::Corrupt(m) => m@,
            AppError::NotFound(m) => m@,
            AppError::InvalidArgument(m) => m@,
            AppError::Conflict(m) => m@,
            AppError::Unavailable(m) => m@,
            AppError::ImportValidation(m) => m@,
        }
    }

    /// The error's own text, without the prefix.
    pub fn detail_text(&self) -> (r: &String)
        ensures
            r@ == self.detail(),
    {
        match self {
            AppError::Db(m) => m,
            AppError::Keychain(m) => m,
            AppError::Base64(m) => m,
            AppError::Io(m) => m,
            AppError::Migration(m) => m,
            AppError::Corrupt(m) => m,
            AppError::NotFound(m) => m,
            AppError::InvalidArgument(m) => m,
            AppError::Conflict(m) => m,
            AppError::Unavailable(m) => m,
            AppError::ImportValidation(m) => m,
        }
    }

    /// The full text of the error, as shown to the user and sent to the frontend.
    pub fn to_text(&self) -> (r: String)
        ensures
            r@ == self.prefix() + self.detail(),
    {
        let prefix = match self {
            AppError::Db(_) => "database error: ",
            AppError::Keychain(_) => "keychain error: ",
            AppError::Base64(_) => "base64 decode error: ",
            AppError::Io(_) => "io error: ",
            AppError::Migration(_) => "migration error: ",
            AppError::Corrupt(_) => "corrupt data: ",
            AppError::NotFound(_) => "not found: ",
            AppError::InvalidArgument(_) => "invalid argument: ",
            AppError::Conflict(_) => "conflict: ",
            AppError::Unavailable(_) => "unavailable: ",
            AppError::ImportValidation(_) => "import validation failed: ",
        };
        let d = self.detail_text();
        concat(owned(prefix), d.as_str())
    }
}


/// An invalid-argument error with the text `msg`.
pub fn invalid(msg: &str) -> (r: AppError)
    ensures
        invalid_argument(r, msg@),
{
    AppError::InvalidArgument(owned(msg))
}

/// An invalid-argument error with the text `msg` followed by the number `n`.
pub fn invalid_number(msg: &str, n: i64) -> (r: AppError)
    ensures
        invalid_argument(r, msg@ + decimal(n as int)),
{
    AppError::InvalidArgument(with_decimal(msg, n))
}

} // verus!
