//! Categories: income or expense, with checks on names and colors.

use vstd::prelude::*;
use crate::error::{AppError, AppResult, invalid, invalid_argument};
use crate::text::{chars_of, concat, owned, push_char, str_equal, string_from_chars, trim_chars, trimmed};

verus! {

broadcast use vstd::string::group_string_axioms;

#[derive(Debug, Clone, Copy, PartialEq, Eq, Hash)]
pub enum CategoryType {
    Income,
    Expense,
}

impl CategoryType {
    pub open spec fn sql(self) -> Seq<char> {
        match self {
            CategoryType::Income => "income"@,
            CategoryType::Expense => "expense"@,
        }
    }

    /// The text stored in the `type` column.
    pub fn as_sql(self) -> (r: &'static str)
        ensures
            r@ == self.sql(),
    {
        match self {
            CategoryType::Income => "income",
            CategoryType::Expense => "expense",
        }
    }

    pub open spec fn from_sql(raw: Seq<char>) -> Option<CategoryType> {
        if raw == "income"@ {
            Some(CategoryType::Income)
        } else if raw == "expense"@ {
            Some(CategoryType::Expense)
        } else {
            None
        }
    }

    pub open spec fn parse_message(raw: Seq<char>) -> Seq<char> {
        "category type must be 'income' or 'expense', got '"@ + raw + seq!['\'']
    }

    pub fn parse(raw: &str) -> (r: AppResult<CategoryType>)
        ensures
            match CategoryType::from_sql(raw@) {
                Some(t) => r == Ok::<CategoryType, AppError>(t),
                None => r matches Err(e) && invalid_argument(e, CategoryType::parse_message(raw@)),
            },
    {
        if str_equal(raw, "income") {
            Ok(CategoryType::Income)
        } else if str_equal(raw, "expense") {
            Ok(CategoryType::Expense)
        } else {
            let mut s = concat(owned("category type must be 'income' or 'expense', got '"), raw);
            push_char(&mut s, '\'');
            assert(s@ =~= CategoryType::parse_message(raw@));
            Err(AppError::InvalidArgument(s))
        }
    }
}

/// A stored category.
#[derive(Debug, Clone)]
pub struct Category {
    pub id: i64,
    pub name: String,
    pub type_: CategoryType,
    pub color: Option<String>,
    pub icon: Option<String>,
    pub display_order: i64,
    pub archived_at: Option<String>,
}

/// The longest category name, in characters.
pub const MAX_NAME_LEN: usize = 40;

/// A category name: surrounding whitespace removed, not empty, at most 40 characters.
pub fn validate_name(raw: &str) -> (r: AppResult<String>)
    ensures
        trimmed(raw@).len() == 0 ==> (r matches Err(e) && invalid_argument(e, "category name is empty"@)),
        0 < trimmed(raw@).len() <= MAX_NAME_LEN ==> (r matches Ok(s) && s@ == trimmed(raw@)),
        trimmed(raw@).len() > MAX_NAME_LEN ==> (r matches Err(e) && invalid_argument(
            e,
            "category name must be 40 chars or fewer"@,
        )),
{
    let chars = trim_chars(raw);
    if chars.len() == 0 {
        return Err(invalid("category name is empty"));
    }
    if chars.len() > MAX_NAME_LEN {
        return Err(invalid("category name must be 40 chars or fewer"));
    }
    Ok(string_from_chars(chars.as_slice()))
}

pub open spec fn is_hex_digit(c: char) -> bool {
    ('0' <= c <= '9') || ('a' <= c <= 'f') || ('A' <= c <= 'F')
}

/// `#RRGGBB`: a `#` and six hexadecimal digits.
pub open spec fn is_hex_color(s: Seq<char>) -> bool {
    &&& s.len() == 7
    &&& s[0] == '#'
    &&& forall|i: int| 1 <= i < 7 ==> is_hex_digit(#[trigger] s[i])
}

/// ASCII letters in upper case; other characters unchanged.
pub open spec fn ascii_upper(c: char) -> char {
    if 'a' <= c <= 'z' {
        ((c as u32) - 32) as char
    } else {
        c
    }
}

pub open spec fn color_message(raw: Seq<char>) -> Seq<char> {
    "color must match #RRGGBB hex, got '"@ + raw + seq!['\'']
}

fn upper(c: char) -> (r: char)
    ensures
        r == ascii_upper(c),
{
    if 'a' <= c && c <= 'z' {
        let u = (c as u32) - 32;
        assert(0x41 <= u <= 0x5a);
        let d = ((u as u8) as char);
        d
    } else {
        c
    }
}

/// A `#RRGGBB` color, in upper case.
pub fn validate_color(raw: &str) -> (r: AppResult<String>)
    ensures
        is_hex_color(raw@) ==> (r matches Ok(s) && s@ == raw@.map_values(|c: char| ascii_upper(c))),
        !is_hex_color(raw@) ==> (r matches Err(e) && invalid_argument(e, color_message(raw@))),
{
    let chars = chars_of(raw);
    let mut ok = chars.len() == 7 && chars[0] == '#';
    if ok {
        let mut i: usize = 1;
        while i < 7
            invariant
                chars@ == raw@,
                chars@.len() == 7,
                1 <= i <= 7,
                ok <==> (chars@[0] == '#' && forall|k: int| 1 <= k < i ==> is_hex_digit(#[trigger] chars@[k])),
            decreases 7 - i,
        {
            let c = chars[i];
            if !(('0' <= c && c <= '9') || ('a' <= c && c <= 'f') || ('A' <= c && c <= 'F')) {
                ok = false;
            }
            i += 1;
        }
    }
    if !ok {
        let mut s = concat(owned("color must match #RRGGBB hex, got '"), raw);
        push_char(&mut s, '\'');
        assert(s@ =~= color_message(raw@));
        return Err(AppError::InvalidArgument(s));
    }
    let mut out = String::new();
    let mut i: usize = 0;
    while i < chars.len()
        invariant
            0 <= i <= chars.len(),
            chars@ == raw@,
            out@ == raw@.subrange(0, i as int).map_values(|c: char| ascii_upper(c)),
        decreases chars.len() - i,
    {
        push_char(&mut out, upper(chars[i]));
        assert(raw@.subrange(0, i + 1).map_values(|c: char| ascii_upper(c)) =~= raw@.subrange(
            0,
            i as int,
        ).map_values(|c: char| ascii_upper(c)).push(ascii_upper(raw@[i as int])));
        i += 1;
    }
    assert(raw@.subrange(0, raw@.len() as int) =~= raw@);
    Ok(out)
}

} // verus!
