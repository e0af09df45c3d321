//! Trusted wrappers around the cryptographic primitives the token format
//! rests on: base64 codecs, the HS256 signature of a JWT, and Ed25519
//! signature verification. Each wrapper's contract states only what the
//! wrapped crate's source shows.

use vstd::prelude::*;

verus! {

/// The RFC 4648 standard-alphabet, padded base64 text of a byte string.
pub uninterp spec fn b64_of(bytes: Seq<u8>) -> Seq<u8>;

/// The RFC 4648 URL-safe-alphabet, unpadded base64 text of a byte string.
pub uninterp spec fn b64url_of(bytes: Seq<u8>) -> Seq<u8>;

/// The base64url text of the HMAC-SHA256 tag computed with `secret` over
/// `message`; a function of the two arguments alone.
pub uninterp spec fn hs256_sig_of(secret: Seq<u8>, message: Seq<u8>) -> Seq<u8>;

/// Whether Ed25519 verification of `sig` over `message` under the public
/// key `pk` succeeds; a function of the three arguments alone.
pub uninterp spec fn ed25519_ok(pk: Seq<u8>, message: Seq<u8>, sig: Seq<u8>) -> bool;

/// Whether 32 bytes decode to a valid Ed25519 public key.
pub uninterp spec fn ed25519_valid_pk(pk: Seq<u8>) -> bool;

/// Relies on base64's `BASE64_STANDARD` engine (`Engine::encode`): standard
/// alphabet with padding, all output bytes ASCII.
#[verifier::external_body]
pub(crate) fn b64_encode(bytes: &[u8]) -> (r: Vec<u8>)
    ensures
        r@ == b64_of(bytes@),
        forall|i: int| 0 <= i < r@.len() ==> #[trigger] r@[i] < 128,
{
    base64::Engine::encode(&base64::engine::general_purpose::STANDARD, bytes).into_bytes()
}

/// Relies on base64's `BASE64_STANDARD` engine (`Engine::decode`): the
/// engine requires canonical padding and refuses set trailing bits, so it
/// succeeds exactly on the canonical encoding of some byte string and
/// inverts `b64_encode`.
#[verifier::external_body]
pub(crate) fn b64_decode(text: &[u8]) -> (r: Option<Vec<u8>>)
    ensures
        match r {
            Some(v) => text@ == b64_of(v@)
                && forall|b: Seq<u8>| b64_of(b) == text@ ==> b == v@,
            None => forall|b: Seq<u8>| b64_of(b) != text@,
        },
{
    base64::Engine::decode(&base64::engine::general_purpose::STANDARD, text).ok()
}

/// Relies on base64's `BASE64_URL_SAFE_NO_PAD` engine (`Engine::encode`):
/// URL-safe alphabet, no padding, so the output is ASCII and contains
/// neither `.` (46) nor `"` (34) nor `\` (92).
#[verifier::external_body]
pub(crate) fn b64url_encode(bytes: &[u8]) -> (r: Vec<u8>)
    ensures
        r@ == b64url_of(bytes@),
        forall|i: int| 0 <= i < r@.len()
            ==> #[trigger] r@[i] < 128 && r@[i] != 46 && r@[i] != 34 && r@[i] != 92,
{
    base64::Engine::encode(&base64::engine::general_purpose::URL_SAFE_NO_PAD, bytes)
        .into_bytes()
}

/// Relies on base64's `BASE64_URL_SAFE_NO_PAD` engine (`Engine::decode`):
/// as for `b64_decode`, success means the input is the canonical unpadded
/// URL-safe encoding of the result.
#[verifier::external_body]
pub(crate) fn b64url_decode(text: &[u8]) -> (r: Option<Vec<u8>>)
    ensures
        match r {
            Some(v) => text@ == b64url_of(v@)
                && forall|b: Seq<u8>| b64url_of(b) == text@ ==> b == v@,
            None => forall|b: Seq<u8>| b64url_of(b) != text@,
        },
{
    base64::Engine::decode(&base64::engine::general_purpose::URL_SAFE_NO_PAD, text).ok()
}

/// Relies on `jsonwebtoken::crypto::sign` with `Algorithm::HS256`, which
/// returns the base64url (URL-safe, unpadded) text of the HMAC-SHA256 tag
/// and never fails for an HMAC algorithm, as its source shows. The output
/// is base64url text, hence ASCII without `.`, `"` or `\`.
#[verifier::external_body]
pub(crate) fn hs256_sign(secret: &[u8], message: &[u8]) -> (r: Vec<u8>)
    ensures
        r@ == hs256_sig_of(secret@, message@),
        forall|i: int| 0 <= i < r@.len()
            ==> #[trigger] r@[i] < 128 && r@[i] != 46 && r@[i] != 34 && r@[i] != 92,
{
    jsonwebtoken::crypto::sign(
        message,
        &jsonwebtoken::EncodingKey::from_secret(secret),
        jsonwebtoken::Algorithm::HS256,
    )
        .expect("HMAC signing is infallible")
        .into_bytes()
}

/// Relies on `jsonwebtoken::crypto::verify` with `Algorithm::HS256`, which
/// recomputes the tag with `sign` and compares the two base64url texts
/// byte for byte, so it accepts exactly `hs256_sig_of(secret, message)`.
#[verifier::external_body]
pub(crate) fn hs256_verify(secret: &[u8], message: &[u8], sig: &[u8]) -> (r: bool)
    ensures
        r == (sig@ == hs256_sig_of(secret@, message@)),
{
    match core::str::from_utf8(sig) {
        Ok(s) => jsonwebtoken::crypto::verify(
            s,
            message,
            &jsonwebtoken::DecodingKey::from_secret(secret),
            jsonwebtoken::Algorithm::HS256,
        ).unwrap_or(false),
        Err(_) => false,
    }
}

/// Relies on `ed25519_dalek::VerifyingKey::from_bytes`: whether 32 bytes
/// decode to a valid public key point.
#[verifier::external_body]
pub(crate) fn ed25519_check_pk(pk: &[u8]) -> (r: bool)
    requires
        pk@.len() == 32,
    ensures
        r == ed25519_valid_pk(pk@),
{
    let mut arr = [0u8; 32];
    arr.copy_from_slice(pk);
    ed25519_dalek::VerifyingKey::from_bytes(&arr).is_ok()
}

/// Relies on `ed25519_dalek::VerifyingKey::from_bytes`,
/// `ed25519_dalek::Signature::from_slice` and `Verifier::verify`:
/// deterministic verification of `sig` over `message` under `pk`; false
/// when the key does not decode or the signature is not 64 bytes.
#[verifier::external_body]
pub(crate) fn ed25519_verify(pk: &[u8], message: &[u8], sig: &[u8]) -> (r: bool)
    requires
        pk@.len() == 32,
    ensures
        r == ed25519_ok(pk@, message@, sig@),
{
    let mut arr = [0u8; 32];
    arr.copy_from_slice(pk);
    match ed25519_dalek::VerifyingKey::from_bytes(&arr) {
        Ok(key) => match ed25519_dalek::Signature::from_slice(sig) {
            Ok(s) => ed25519_dalek::Verifier::verify(&key, message, &s).is_ok(),
            Err(_) => false,
        },
        Err(_) => false,
    }
}

} // verus!
