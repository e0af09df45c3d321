//! Key and nonce primitives of the handshake: the client-registered
//! Ed25519 public signing key, the signature a client submits over a
//! challenge nonce, the fresh nonce itself, the ephemeral HMAC secret, and
//! the opaque key blobs the server stores without reading.

use vstd::prelude::*;
use vstd::string::StringSliceAdditionalSpecFns;
use crate::crypto::{b64_of, b64_encode, b64_decode, ed25519_ok, ed25519_valid_pk,
    ed25519_check_pk, ed25519_verify};
use crate::entropy::random_bytes;
use crate::text::{str_bytes, clone_string};

verus! {

/// A short-lived 32-byte HMAC secret, minted per challenge; it signs both
/// the challenge token and the access token that answers it.
#[derive(Debug)]
pub struct EphemeralServerKey {
    bytes: Vec<u8>,
}

impl View for EphemeralServerKey {
    type V = Seq<u8>;

    closed spec fn view(&self) -> Seq<u8> {
        self.bytes@
    }
}

impl EphemeralServerKey {
    pub const LEN: usize = 32;

    pub open spec fn wf(&self) -> bool {
        self@.len() == 32
    }

    /// Draw a fresh 32-byte secret.
    pub fn generate() -> (r: Self)
        ensures
            r.wf(),
    {
        EphemeralServerKey { bytes: random_bytes(32) }
    }

    /// Rebuild the key from the bytes the store holds.
    pub fn from_bytes(bytes: Vec<u8>) -> (r: Self)
        ensures
            r@ == bytes@,
    {
        EphemeralServerKey { bytes }
    }

    /// Borrow the secret bytes for signing.
    pub fn expose_secret(&self) -> (r: &[u8])
        ensures
            r@ == self@,
    {
        self.bytes.as_slice()
    }
}

/// The fresh random nonce embedded in a challenge; the client proves key
/// possession by signing exactly these bytes.
#[derive(Debug)]
pub struct ApiChallengeNonce {
    bytes: Vec<u8>,
}

impl View for ApiChallengeNonce {
    type V = Seq<u8>;

    closed spec fn view(&self) -> Seq<u8> {
        self.bytes@
    }
}

impl ApiChallengeNonce {
    pub const LEN: usize = 16;

    /// Draw a fresh 16-byte nonce.
    pub fn generate() -> (r: Self)
        ensures
            r@.len() == 16,
    {
        ApiChallengeNonce { bytes: random_bytes(16) }
    }

    /// The nonce as it appears inside a token: standard base64.
    pub fn to_b64(&self) -> (r: Vec<u8>)
        ensures
            r@ == b64_of(self@),
    {
        b64_encode(self.bytes.as_slice())
    }

    /// Read a nonce back from its base64 text; any decoded length is kept,
    /// as a wrong nonce fails signature verification rather than parsing.
    pub fn from_b64(text: &[u8]) -> (r: Option<Self>)
        ensures
            match r {
                Some(n) => text@ == b64_of(n@)
                    && forall|b: Seq<u8>| b64_of(b) == text@ ==> b == n@,
                None => forall|b: Seq<u8>| b64_of(b) != text@,
            },
    {
        match b64_decode(text) {
            Some(v) => Some(ApiChallengeNonce { bytes: v }),
            None => None,
        }
    }

    /// Borrow the nonce bytes.
    pub fn bytes(&self) -> (r: &[u8])
        ensures
            r@ == self@,
    {
        self.bytes.as_slice()
    }
}

/// The signature a client submits over a challenge nonce.
#[derive(Debug)]
pub struct ClientNonceSignature {
    bytes: Vec<u8>,
}

impl View for ClientNonceSignature {
    type V = Seq<u8>;

    closed spec fn view(&self) -> Seq<u8> {
        self.bytes@
    }
}

impl ClientNonceSignature {
    /// Read a signature from its base64 wire text; length is checked by
    /// Ed25519 verification, not here.
    pub fn from_b64_text(s: &str) -> (r: Option<Self>)
        ensures
            match r {
                Some(sig) => s.spec_bytes() == b64_of(sig@),
                None => forall|b: Seq<u8>| b64_of(b) != s.spec_bytes(),
            },
    {
        let text = str_bytes(s);
        match b64_decode(text.as_slice()) {
            Some(v) => Some(ClientNonceSignature { bytes: v }),
            None => None,
        }
    }

    /// Build a signature value from raw bytes.
    pub fn from_bytes(bytes: Vec<u8>) -> (r: Self)
        ensures
            r@ == bytes@,
    {
        ClientNonceSignature { bytes }
    }
}

/// A client's registered Ed25519 public signing key: 32 bytes that decode
/// to a valid curve point.
#[derive(Debug)]
pub struct PublicSigningKey {
    bytes: Vec<u8>,
}

impl View for PublicSigningKey {
    type V = Seq<u8>;

    closed spec fn view(&self) -> Seq<u8> {
        self.bytes@
    }
}

impl PublicSigningKey {
    pub open spec fn wf(&self) -> bool {
        self@.len() == 32 && ed25519_valid_pk(self@)
    }

    /// Parse a key from its base64 wire text; rejects text that is not
    /// base64, not 32 bytes, or not a valid public key.
    pub fn from_b64_text(s: &str) -> (r: Option<Self>)
        ensures
            match r {
                Some(k) => k.wf() && s.spec_bytes() == b64_of(k@),
                None => forall|b: Seq<u8>| b64_of(b) == s.spec_bytes()
                    ==> !(b.len() == 32 && ed25519_valid_pk(b)),
            },
    {
        let text = str_bytes(s);
        match b64_decode(text.as_slice()) {
            Some(v) => {
                if v.len() == 32 && ed25519_check_pk(v.as_slice()) {
                    Some(PublicSigningKey { bytes: v })
                } else {
                    None
                }
            },
            None => None,
        }
    }

    /// The key as it is listed back to clients: standard base64.
    pub fn to_b64(&self) -> (r: Vec<u8>)
        ensures
            r@ == b64_of(self@),
    {
        b64_encode(self.bytes.as_slice())
    }

    /// Verify a client's signature over a challenge nonce.
    pub fn verify(&self, nonce: &ApiChallengeNonce, signature: &ClientNonceSignature) -> (r: bool)
        requires
            self.wf(),
        ensures
            r == ed25519_ok(self@, nonce@, signature@),
    {
        ed25519_verify(self.bytes.as_slice(), nonce.bytes(), signature.bytes.as_slice())
    }

    /// Copy the key.
    pub fn clone_key(&self) -> (r: Self)
        ensures
            r@ == self@,
    {
        PublicSigningKey { bytes: crate::text::clone_bytes(&self.bytes) }
    }
}

/// The form's public encryption key: an opaque base64 blob the server
/// publishes but never decodes.
#[derive(Debug)]
pub struct PublicPrimaryKey(pub String);

impl View for PublicPrimaryKey {
    type V = Seq<char>;

    closed spec fn view(&self) -> Seq<char> {
        self.0@
    }
}

impl PublicPrimaryKey {
    pub fn clone_key(&self) -> (r: Self)
        ensures
            r@ == self@,
    {
        PublicPrimaryKey(clone_string(&self.0))
    }
}

/// One holder's copy of the form's private primary key, wrapped for that
/// holder; opaque to the server.
#[derive(Debug)]
pub struct WrappedPrivatePrimaryKey(pub String);

impl View for WrappedPrivatePrimaryKey {
    type V = Seq<char>;

    closed spec fn view(&self) -> Seq<char> {
        self.0@
    }
}

impl WrappedPrivatePrimaryKey {
    pub fn clone_key(&self) -> (r: Self)
        ensures
            r@ == self@,
    {
        WrappedPrivatePrimaryKey(clone_string(&self.0))
    }
}

} // verus!
