//! The database key as SQLCipher takes it, and how a failure to open reads.

use vstd::prelude::*;
use crate::error::AppError;
use crate::infra::keychain::KEY_LEN;
use crate::text::{chars_of, concat, owned, push_char};

verus! {

broadcast use vstd::string::group_string_axioms;

/// The SQLCipher file format every `data.db` is written and read with.
pub const SQLCIPHER_FORMAT_VERSION: i64 = 4;

/// A lowercase hexadecimal digit.
pub open spec fn hex_digit(n: int) -> char {
    if n < 10 {
        (('0' as int) + n) as char
    } else {
        (('a' as int) + n - 10) as char
    }
}

/// Two lowercase hexadecimal digits per byte.
pub open spec fn hex_of(bytes: Seq<u8>) -> Seq<char>
    decreases bytes.len(),
{
    if bytes.len() == 0 {
        seq![]
    } else {
        hex_of(bytes.drop_last()) + seq![hex_digit(bytes.last() as int / 16), hex_digit(bytes.last() as int % 16)]
    }
}

fn hex_char(n: u8) -> (r: char)
    requires
        n < 16,
    ensures
        r == hex_digit(n as int),
{
    if n < 10 {
        ((n + 48) as char)
    } else {
        ((n + 87) as char)
    }
}

/// The key as lowercase hex, for `PRAGMA key = "x'<hex>'"`.
pub fn key_to_hex(key: &[u8; KEY_LEN]) -> (r: String)
    ensures
        r@ == hex_of(key@),
{
    let mut s = String::new();
    let mut i: usize = 0;
    while i < KEY_LEN
        invariant
            0 <= i <= KEY_LEN,
            key@.len() == KEY_LEN,
            s@ == hex_of(key@.subrange(0, i as int)),
        decreases KEY_LEN - i,
    {
        let b = key[i];
        assert(key@.subrange(0, i + 1).drop_last() =~= key@.subrange(0, i as int));
        push_char(&mut s, hex_char(b / 16));
        push_char(&mut s, hex_char(b % 16));
        i += 1;
    }
    assert(key@.subrange(0, KEY_LEN as int) =~= key@);
    s
}

/// The value of `PRAGMA key` for a key: its raw bytes, `x'<hex>'`.
pub fn pragma_key_value(key: &[u8; KEY_LEN]) -> (r: String)
    ensures
        r@ == "x'"@ + hex_of(key@) + seq!['\''],
{
    let mut s = concat(owned("x'"), key_to_hex(key).as_str());
    push_char(&mut s, '\'');
    s
}

/// What `str::to_lowercase` returns (Unicode lowercase mapping).
pub uninterp spec fn std_lowercase(text: Seq<char>) -> Seq<char>;

/// `str::to_lowercase`: the text with every character mapped to lowercase by
/// the Unicode tables; its result is named `std_lowercase`.
#[verifier::external_body]
fn lowercase(text: &str) -> (r: String)
    ensures
        r@ == std_lowercase(text@),
{
    text.to_lowercase()
}

/// `needle` occurs in `text`.
pub open spec fn contains_text(text: Seq<char>, needle: Seq<char>) -> bool {
    exists|i: int| 0 <= i <= text.len() - needle.len() && #[trigger] text.subrange(i, i + needle.len()) == needle
}

fn contains(text: &str, needle: &str) -> (r: bool)
    ensures
        r == contains_text(text@, needle@),
{
    let t = chars_of(text);
    let n = chars_of(needle);
    if n.len() > t.len() {
        return false;
    }
    let mut i: usize = 0;
    while i <= t.len() - n.len()
        invariant
            t@ == text@,
            n@ == needle@,
            n.len() <= t.len(),
            0 <= i <= t.len() - n.len() + 1,
            forall|k: int| 0 <= k < i ==> #[trigger] text@.subrange(k, k + needle@.len()) != needle@,
        decreases t.len() - n.len() + 1 - i,
    {
        let mut j: usize = 0;
        while j < n.len() && t[i + j] == n[j]
            invariant
                0 <= j <= n.len(),
                i + n.len() <= t.len(),
                t@ == text@,
                n@ == needle@,
                forall|m: int| 0 <= m < j ==> t@[i + m] == n@[m],
            decreases n.len() - j,
        {
            j += 1;
        }
        if j == n.len() {
            assert(text@.subrange(i as int, i + needle@.len()) =~= needle@);
            return true;
        }
        assert(text@.subrange(i as int, i + needle@.len())[j as int] != needle@[j as int]);
        i += 1;
    }
    false
}

/// The lowercase text of an error reads like SQLCipher refusing the key.
pub open spec fn decrypt_failure_text(text: Seq<char>) -> bool {
    let lower = std_lowercase(text);
    contains_text(lower, "not a database"@) || contains_text(lower, "file is encrypted"@) || contains_text(
        lower,
        "hmac check failed"@,
    )
}

/// Whether an error from opening the database reads like a wrong key.
pub fn looks_like_decrypt_failure(err: &AppError) -> (r: bool)
    ensures
        r == decrypt_failure_text(err.prefix() + err.detail()),
{
    let text = lowercase(err.to_text().as_str());
    contains(text.as_str(), "not a database") || contains(text.as_str(), "file is encrypted") || contains(
        text.as_str(),
        "hmac check failed",
    )
}

} // verus!
