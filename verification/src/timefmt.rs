//! Trusted wrappers around chrono for the two timestamp texts that cross
//! the wire: RFC 3339 output for listed records and RFC 3339 input for a
//! form's expiry.

use vstd::prelude::*;

verus! {

/// The latest timestamp the library hands to chrono: 9999-12-31T23:59:59Z.
pub const MAX_TIMESTAMP: u64 = 253402300799;

/// The RFC 3339 text of a UTC timestamp; a function of the seconds alone.
pub uninterp spec fn rfc3339_of(secs: u64) -> Seq<char>;

/// The Unix seconds denoted by an RFC 3339 text, if it parses; a function
/// of the text alone.
pub uninterp spec fn rfc3339_secs_of(s: Seq<char>) -> Option<i64>;

/// Relies on `chrono::DateTime::<Utc>::from_timestamp` and `to_rfc3339`:
/// deterministic formatting of a timestamp that chrono can represent
/// (`from_timestamp` returns `Some` far beyond year 9999).
#[verifier::external_body]
pub(crate) fn rfc3339_utc(secs: u64) -> (r: String)
    requires
        secs <= MAX_TIMESTAMP,
    ensures
        r@ == rfc3339_of(secs),
{
    chrono::DateTime::<chrono::Utc>::from_timestamp(secs as i64, 0)
        .expect("timestamp within chrono's range")
        .to_rfc3339()
}

/// Relies on `chrono::DateTime::parse_from_rfc3339` and
/// `DateTime::timestamp`: the Unix seconds of an RFC 3339 text, `None`
/// exactly when chrono refuses the text.
#[verifier::external_body]
pub(crate) fn parse_rfc3339(s: &str) -> (r: Option<i64>)
    ensures
        r == rfc3339_secs_of(s@),
{
    match chrono::DateTime::parse_from_rfc3339(s) {
        Ok(dt) => Some(dt.timestamp()),
        Err(_) => None,
    }
}

} // verus!
