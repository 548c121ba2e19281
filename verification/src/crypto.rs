//! The cryptographic primitive and the clock that token handling relies
//! on. Both are outside calls; everything stated here is taken on trust
//! against the outside crate's source.

use vstd::prelude::*;

verus! {

/// What signing a message with HMAC-SHA256 under a secret returns, base64url
/// encoded: a pure function of the secret and the message alone.
pub uninterp spec fn hmac_signature(secret: Seq<char>, message: Seq<char>) -> Seq<char>;

/// Relies on `jsonwebtoken::crypto::sign` with `Algorithm::HS256` and a key
/// built by `EncodingKey::from_secret`: it returns the base64url encoding of
/// the HMAC-SHA256 of the message, a deterministic function of the secret
/// and the message alone; with an HMAC key of any length it cannot fail.
#[verifier::external_body]
pub(crate) fn hs256_signature(secret: &str, message: &str) -> (sig: String)
    ensures
        sig@ == hmac_signature(secret@, message@),
{
    let key = jsonwebtoken::EncodingKey::from_secret(secret.as_bytes());
    jsonwebtoken::crypto::sign(message.as_bytes(), &key, jsonwebtoken::Algorithm::HS256)
        .expect("HMAC signing accepts every key and message")
}

/// Relies on `std::time::SystemTime::now`: the seconds since the Unix
/// epoch, or 0 for a clock reading before the epoch. Nothing is assumed of
/// the value; callers must hold for every reading.
#[verifier::external_body]
pub(crate) fn now_unix_seconds() -> u64 {
    match std::time::SystemTime::now().duration_since(std::time::UNIX_EPOCH) {
        Ok(d) => d.as_secs(),
        Err(_) => 0,
    }
}

} // verus!
