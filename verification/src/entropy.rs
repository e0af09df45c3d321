//! Trusted wrappers around the random sources: fresh bytes, alphanumeric
//! identifiers and UUIDs. Nothing is assumed of the drawn values beyond
//! their length and alphabet.

use vstd::prelude::*;

verus! {

/// ASCII letter or digit, the alphabet of generated form and submission ids.
pub open spec fn is_alphanumeric_byte(b: u8) -> bool {
    (48 <= b && b <= 57) || (65 <= b && b <= 90) || (97 <= b && b <= 122)
}

/// Lowercase hex or hyphen, the alphabet of a hyphenated UUID.
pub open spec fn is_uuid_byte(b: u8) -> bool {
    (48 <= b && b <= 57) || (97 <= b && b <= 102) || b == 45
}

/// Relies on `rand::rngs::ThreadRng` and `RngCore::fill_bytes`: fills a
/// buffer of the requested length; nothing else is assumed of the draw.
#[verifier::external_body]
pub(crate) fn random_bytes(n: usize) -> (r: Vec<u8>)
    ensures
        r@.len() == n,
{
    let mut buf = vec![0u8; n];
    rand::RngCore::fill_bytes(&mut rand::thread_rng(), &mut buf);
    buf
}

/// Relies on `rand::distributions::Alphanumeric` through
/// `DistString::sample_string`: `n` characters drawn from A-Z, a-z and
/// 0-9, returned as their ASCII bytes.
#[verifier::external_body]
pub(crate) fn random_alphanumeric(n: usize) -> (r: Vec<u8>)
    ensures
        r@.len() == n,
        forall|i: int| 0 <= i < r@.len() ==> is_alphanumeric_byte(#[trigger] r@[i]),
{
    rand::distributions::DistString::sample_string(
        &rand::distributions::Alphanumeric,
        &mut rand::thread_rng(),
        n,
    ).into_bytes()
}

/// Relies on `uuid::Uuid::new_v4` and its `Display` impl: 36 bytes in the
/// hyphenated lowercase-hex form.
#[verifier::external_body]
pub(crate) fn new_uuid_bytes() -> (r: Vec<u8>)
    ensures
        r@.len() == 36,
        forall|i: int| 0 <= i < r@.len() ==> is_uuid_byte(#[trigger] r@[i]),
{
    uuid::Uuid::new_v4().to_string().into_bytes()
}

} // verus!
