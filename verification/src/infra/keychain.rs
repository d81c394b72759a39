//! The database key as the keychain stores it: 32 random bytes, base64
//! without padding.

use base64::Engine;
use rand::RngCore;
use vstd::prelude::*;
use crate::error::{AppError, AppResult, corrupt};
use crate::text::{concat, decimal, owned, with_decimal};

verus! {

broadcast use vstd::string::group_string_axioms;

/// The key's length in bytes.
pub const KEY_LEN: usize = 32;

/// What the `STANDARD_NO_PAD` engine's `decode` returns for a text: the bytes,
/// or the text of its `DecodeError`.
pub uninterp spec fn base64_decoded(text: Seq<char>) -> Result<Seq<u8>, Seq<char>>;

/// What the `STANDARD_NO_PAD` engine's `encode` returns for bytes.
pub uninterp spec fn base64_encoded(bytes: Seq<u8>) -> Seq<char>;

/// base64's `STANDARD_NO_PAD.decode`; its result (or error text) is named
/// `base64_decoded`. A text the same engine encoded decodes to the bytes it
/// was made from (the crate's round-trip property of every engine).
#[verifier::external_body]
fn decode_no_pad(text: &str) -> (r: Result<Vec<u8>, String>)
    ensures
        match r {
            Ok(v) => base64_decoded(text@) == Ok::<Seq<u8>, Seq<char>>(v@),
            Err(t) => base64_decoded(text@) == Err::<Seq<u8>, Seq<char>>(t@),
        },
        match r {
            Ok(v) => forall|bytes: Seq<u8>| #[trigger] base64_encoded(bytes) == text@ ==> v@ == bytes,
            Err(_) => forall|bytes: Seq<u8>| #[trigger] base64_encoded(bytes) != text@,
        },
{
    match base64::engine::general_purpose::STANDARD_NO_PAD.decode(text.as_bytes()) {
        Ok(v) => Ok(v),
        Err(e) => Err(e.to_string()),
    }
}

/// base64's `STANDARD_NO_PAD.encode`; its result is named `base64_encoded`.
#[verifier::external_body]
fn encode_no_pad(bytes: &[u8]) -> (r: String)
    ensures
        r@ == base64_encoded(bytes@),
{
    base64::engine::general_purpose::STANDARD_NO_PAD.encode(bytes)
}

/// rand's `thread_rng().fill_bytes`: 32 bytes from the thread's
/// cryptographically secure generator. Nothing is claimed of their values.
#[verifier::external_body]
fn random_bytes() -> (r: [u8; KEY_LEN]) {
    let mut key = [0u8; KEY_LEN];
    rand::thread_rng().fill_bytes(&mut key);
    key
}

/// A freshly drawn key of `KEY_LEN` random bytes.
pub fn new_key() -> (r: [u8; KEY_LEN])
    ensures
        r@.len() == KEY_LEN,
{
    random_bytes()
}

/// What reading a stored text as a key gives: the key, or the text of the
/// corrupt-entry error.
pub open spec fn stored_key(text: Seq<char>) -> Result<Seq<u8>, Seq<char>> {
    match base64_decoded(text) {
        Err(t) => Err("corrupt keychain entry: invalid encoding: "@ + t),
        Ok(bytes) => if bytes.len() == KEY_LEN {
            Ok(bytes)
        } else {
            Err("corrupt keychain entry: stored key has wrong length: "@ + decimal(bytes.len() as int))
        },
    }
}

/// The text the keychain stores for a key.
pub fn encode_key(key: &[u8; KEY_LEN]) -> (r: String)
    ensures
        r@ == base64_encoded(key@),
{
    encode_no_pad(key.as_slice())
}

/// Read a stored key: base64 without padding, exactly 32 bytes. Anything
/// else is a corrupt entry. The text `encode_key` stores reads back as the
/// key it was made from.
pub fn decode_key(b64: &str) -> (r: AppResult<[u8; KEY_LEN]>)
    ensures
        match stored_key(b64@) {
            Ok(bytes) => r matches Ok(k) && k@ == bytes,
            Err(t) => r matches Err(e) && corrupt(e, t),
        },
        forall|key: Seq<u8>| key.len() == KEY_LEN && #[trigger] base64_encoded(key) == b64@ ==> (r matches Ok(k) && k@ == key),
{
    let raw = match decode_no_pad(b64) {
        Ok(v) => v,
        Err(t) => {
            return Err(AppError::Corrupt(concat(owned("corrupt keychain entry: invalid encoding: "), t.as_str())));
        },
    };
    if raw.len() != KEY_LEN {
        let mut t = owned("corrupt keychain entry: stored key has wrong length: ");
        crate::text::push_unsigned(&mut t, raw.len() as u64);
        return Err(AppError::Corrupt(t));
    }
    let mut key = [0u8; KEY_LEN];
    let mut i: usize = 0;
    while i < KEY_LEN
        invariant
            0 <= i <= KEY_LEN,
            raw@.len() == KEY_LEN,
            key@.len() == KEY_LEN,
            forall|k: int| 0 <= k < i ==> key@[k] == raw@[k],
        decreases KEY_LEN - i,
    {
        key[i] = raw[i];
        i += 1;
    }
    assert(key@ =~= raw@);
    Ok(key)
}

/// The keychain account an undecodable secret is parked under: the account,
/// `.corrupt-` and the stamp, with `-n` from the second attempt on.
pub fn corrupt_key_account(account: &str, stamp: &str, attempt: u32) -> (r: String)
    ensures
        attempt <= 1 ==> r@ == account@ + ".corrupt-"@ + stamp@,
        attempt > 1 ==> r@ == account@ + ".corrupt-"@ + stamp@ + seq!['-'] + decimal(attempt as int),
{
    let mut s = concat(owned(account), ".corrupt-");
    s = concat(s, stamp);
    if attempt > 1 {
        crate::text::push_char(&mut s, '-');
        crate::text::push_decimal(&mut s, attempt as i64);
    }
    s
}

} // verus!
