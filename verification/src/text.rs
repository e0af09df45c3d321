//! The boundary between byte strings, which the token machinery works on,
//! and Rust strings, which the callers hold.

use vstd::prelude::*;
use vstd::string::StringSliceAdditionalSpecFns;
use crate::codec::write_bytes;

verus! {

/// The UTF-8 bytes of an owned string, as a spec value.
pub open spec fn string_bytes(s: String) -> Seq<u8> {
    vstd::utf8::encode_utf8(s@)
}

/// The UTF-8 bytes of a string slice, as an owned vector.
pub fn str_bytes(s: &str) -> (r: Vec<u8>)
    ensures
        r@ == s.spec_bytes(),
{
    let mut v: Vec<u8> = Vec::new();
    write_bytes(&mut v, s.as_bytes());
    proof {
        assert(v@ =~= s.spec_bytes());
    }
    v
}

/// Copy a string, keeping its characters.
pub fn clone_string(s: &String) -> (r: String)
    ensures
        r@ == s@,
{
    s.clone()
}

/// Copy a vector of strings, keeping every element's characters.
pub fn clone_string_vec(v: &Vec<String>) -> (r: Vec<String>)
    ensures
        r.deep_view() == v.deep_view(),
{
    let mut out: Vec<String> = Vec::new();
    let n: usize = v.len();
    for i in 0..n
        invariant
            n == v@.len(),
            out@.len() == i,
            forall|k: int| 0 <= k < i ==> out@[k]@ == #[trigger] v@[k]@,
    {
        out.push(clone_string(&v[i]));
    }
    proof {
        assert(out.deep_view() =~= v.deep_view());
    }
    out
}

/// Copy a byte vector.
pub fn clone_bytes(v: &Vec<u8>) -> (r: Vec<u8>)
    ensures
        r@ == v@,
{
    let mut out: Vec<u8> = Vec::new();
    write_bytes(&mut out, v.as_slice());
    proof {
        assert(out@ =~= v@);
    }
    out
}

/// Relies on `String::from_utf8` (std): it succeeds exactly on valid UTF-8
/// and preserves the bytes; in particular it always succeeds on ASCII.
#[verifier::external_body]
pub(crate) fn bytes_to_string(v: Vec<u8>) -> (r: Option<String>)
    ensures
        match r {
            Some(s) => string_bytes(s) == v@,
            None => !(forall|i: int| 0 <= i < v@.len() ==> #[trigger] v@[i] < 128),
        },
{
    String::from_utf8(v).ok()
}

} // verus!
