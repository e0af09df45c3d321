//! Identifiers and records of the form, key and submission registry.

use vstd::prelude::*;
use vstd::string::StringSliceAdditionalSpecFns;
use crate::auth::AccessRole;
use crate::codec::bytes_eq;
use crate::entropy::{random_alphanumeric, is_alphanumeric_byte, new_uuid_bytes, is_uuid_byte};
use crate::keys::{PublicSigningKey, WrappedPrivatePrimaryKey, PublicPrimaryKey};
use crate::text::{str_bytes, bytes_to_string, clone_bytes, clone_string, clone_string_vec,
    string_bytes};

verus! {

/// A form's public identifier: a random 8-character alphanumeric string,
/// treated as a public capability.
#[derive(Debug)]
pub struct FormId {
    bytes: Vec<u8>,
}

impl View for FormId {
    type V = Seq<u8>;

    closed spec fn view(&self) -> Seq<u8> {
        self.bytes@
    }
}

impl FormId {
    pub const LEN: usize = 8;

    /// Draw a fresh random id.
    pub fn new() -> (r: Self)
        ensures
            r@.len() == 8,
            forall|i: int| 0 <= i < r@.len() ==> is_alphanumeric_byte(#[trigger] r@[i]),
    {
        FormId { bytes: random_alphanumeric(8) }
    }

    /// The id as it appears in a URL path or a token subject.
    pub fn from_text(s: &str) -> (r: Self)
        ensures
            r@ == s.spec_bytes(),
    {
        FormId { bytes: str_bytes(s) }
    }

    pub fn from_bytes(bytes: Vec<u8>) -> (r: Self)
        ensures
            r@ == bytes@,
    {
        FormId { bytes }
    }

    /// The id's text, for responses; `None` only for bytes that are not
    /// UTF-8, which no generated or text-parsed id contains.
    pub fn text(&self) -> (r: Option<String>)
        ensures
            match r {
                Some(s) => string_bytes(s) == self@,
                None => true,
            },
    {
        bytes_to_string(clone_bytes(&self.bytes))
    }

    pub fn as_bytes(&self) -> (r: &[u8])
        ensures
            r@ == self@,
    {
        self.bytes.as_slice()
    }

    pub fn eq_id(&self, other: &FormId) -> (r: bool)
        ensures
            r == (self@ == other@),
    {
        bytes_eq(self.bytes.as_slice(), other.bytes.as_slice())
    }

    pub fn clone_id(&self) -> (r: Self)
        ensures
            r@ == self@,
    {
        FormId { bytes: clone_bytes(&self.bytes) }
    }
}

/// A submission's identifier, assigned by the server on insert.
#[derive(Debug)]
pub struct SubmissionId {
    bytes: Vec<u8>,
}

impl View for SubmissionId {
    type V = Seq<u8>;

    closed spec fn view(&self) -> Seq<u8> {
        self.bytes@
    }
}

impl SubmissionId {
    pub const LEN: usize = 8;

    pub fn new() -> (r: Self)
        ensures
            r@.len() == 8,
            forall|i: int| 0 <= i < r@.len() ==> is_alphanumeric_byte(#[trigger] r@[i]),
    {
        SubmissionId { bytes: random_alphanumeric(8) }
    }
}

/// The per-form auto-incrementing key index: never recycled within a form,
/// free to collide across forms.
#[derive(Debug, Clone, Copy, PartialEq, Eq, Structural)]
pub struct ClientKeyId(pub u64);

/// The id under which an ephemeral server key is stored; generated as a
/// UUID, carried in a token header's key-id field.
#[derive(Debug)]
pub struct ServerKeyId {
    bytes: Vec<u8>,
}

impl View for ServerKeyId {
    type V = Seq<u8>;

    closed spec fn view(&self) -> Seq<u8> {
        self.bytes@
    }
}

impl ServerKeyId {
    pub fn new() -> (r: Self)
        ensures
            r@.len() == 36,
            forall|i: int| 0 <= i < r@.len() ==> is_uuid_byte(#[trigger] r@[i]),
    {
        ServerKeyId { bytes: new_uuid_bytes() }
    }

    /// An id as read back from a token header; any text is accepted, an
    /// unknown id simply resolves to no key.
    pub fn from_bytes(bytes: Vec<u8>) -> (r: Self)
        ensures
            r@ == bytes@,
    {
        ServerKeyId { bytes }
    }

    pub fn as_bytes(&self) -> (r: &[u8])
        ensures
            r@ == self@,
    {
        self.bytes.as_slice()
    }

    pub fn clone_id(&self) -> (r: Self)
        ensures
            r@ == self@,
    {
        ServerKeyId { bytes: clone_bytes(&self.bytes) }
    }
}

/// The single-use marker of an issued challenge; generated as a UUID,
/// carried in the challenge token's `jti` claim.
#[derive(Debug)]
pub struct ChallengeId {
    bytes: Vec<u8>,
}

impl View for ChallengeId {
    type V = Seq<u8>;

    closed spec fn view(&self) -> Seq<u8> {
        self.bytes@
    }
}

impl ChallengeId {
    pub fn new() -> (r: Self)
        ensures
            r@.len() == 36,
            forall|i: int| 0 <= i < r@.len() ==> is_uuid_byte(#[trigger] r@[i]),
    {
        ChallengeId { bytes: new_uuid_bytes() }
    }

    pub fn from_bytes(bytes: Vec<u8>) -> (r: Self)
        ensures
            r@ == bytes@,
    {
        ChallengeId { bytes }
    }

    pub fn as_bytes(&self) -> (r: &[u8])
        ensures
            r@ == self@,
    {
        self.bytes.as_slice()
    }

    pub fn clone_id(&self) -> (r: Self)
        ensures
            r@ == self@,
    {
        ChallengeId { bytes: clone_bytes(&self.bytes) }
    }
}

/// A submission's ciphertext; opaque to the server.
#[derive(Debug)]
pub struct EncryptedSubmissionBody(pub String);

impl View for EncryptedSubmissionBody {
    type V = Seq<char>;

    closed spec fn view(&self) -> Seq<char> {
        self.0@
    }
}

impl EncryptedSubmissionBody {
    pub fn clone_body(&self) -> (r: Self)
        ensures
            r@ == self@,
    {
        EncryptedSubmissionBody(clone_string(&self.0))
    }
}

/// A key holder's comment, encrypted client-side; opaque to the server.
#[derive(Debug)]
pub struct EncryptedKeyComment(pub String);

impl View for EncryptedKeyComment {
    type V = Seq<char>;

    closed spec fn view(&self) -> Seq<char> {
        self.0@
    }
}

impl EncryptedKeyComment {
    pub fn clone_comment(&self) -> (r: Self)
        ensures
            r@ == self@,
    {
        EncryptedKeyComment(clone_string(&self.0))
    }

    pub fn empty() -> (r: Self)
        ensures
            r@ == Seq::<char>::empty(),
    {
        EncryptedKeyComment(String::new())
    }
}

/// The versioned template a form publishes: organisation name, description
/// and contact methods.
#[derive(Debug)]
pub struct FormTemplate {
    pub version: u32,
    pub org_name: String,
    pub description: String,
    pub contact_methods: Vec<String>,
}

impl FormTemplate {
    /// The template's value, for contracts.
    pub open spec fn dv(&self) -> (u32, Seq<char>, Seq<char>, Seq<Seq<char>>) {
        (self.version, self.org_name@, self.description@, self.contact_methods.deep_view())
    }

    pub fn clone_template(&self) -> (r: Self)
        ensures
            r.dv() == self.dv(),
    {
        let r = FormTemplate {
            version: self.version,
            org_name: clone_string(&self.org_name),
            description: clone_string(&self.description),
            contact_methods: clone_string_vec(&self.contact_methods),
        };
        r
    }
}

/// What `get_form_data` yields: the template, the public primary key, and
/// the optional expiry in Unix seconds.
#[derive(Debug)]
pub struct FormData {
    pub template: FormTemplate,
    pub public_primary_key: PublicPrimaryKey,
    pub expires_at: Option<i64>,
}

/// What `edit_form` consumes: the replacement template and expiry.
#[derive(Debug)]
pub struct FormUpdate {
    pub template: FormTemplate,
    pub expires_at: Option<i64>,
}

/// One stored submission: ciphertext plus the server-assigned creation
/// time in Unix seconds.
#[derive(Debug)]
pub struct Submission {
    pub encrypted_body: EncryptedSubmissionBody,
    pub created_at: u64,
}

impl Submission {
    pub open spec fn dv(&self) -> (Seq<char>, u64) {
        (self.encrypted_body@, self.created_at)
    }
}

/// One client-keys record as read back from the store, with the derived
/// `protected` flag and last-access time.
#[derive(Debug)]
pub struct ClientKeys {
    pub id: ClientKeyId,
    pub public_signing_key: PublicSigningKey,
    pub wrapped_private_primary_key: Option<WrappedPrivatePrimaryKey>,
    pub encrypted_comment: EncryptedKeyComment,
    pub role: AccessRole,
    pub protected: bool,
    pub accessed_at: Option<u64>,
}

impl ClientKeys {
    pub open spec fn dv(&self) -> (u64, Seq<u8>, Option<Seq<char>>, Seq<char>, AccessRole, bool,
        Option<u64>) {
        (
            self.id.0,
            self.public_signing_key@,
            match self.wrapped_private_primary_key {
                Some(ref w) => Some(w@),
                None => None,
            },
            self.encrypted_comment@,
            self.role,
            self.protected,
            self.accessed_at,
        )
    }
}

/// The salt a client used to derive a password key; opaque to the server.
#[derive(Debug)]
pub struct SecretLinkPasswordSalt(pub String);

impl View for SecretLinkPasswordSalt {
    type V = Seq<char>;

    closed spec fn view(&self) -> Seq<char> {
        self.0@
    }
}

/// The nonce a client used when wrapping under a password key; opaque to
/// the server.
#[derive(Debug)]
pub struct SecretLinkPasswordNonce(pub String);

impl View for SecretLinkPasswordNonce {
    type V = Seq<char>;

    closed spec fn view(&self) -> Seq<char> {
        self.0@
    }
}

/// The stored password-derivation parameters of one protected key.
#[derive(Debug)]
pub struct SecretLinkPasswordParams {
    pub salt: SecretLinkPasswordSalt,
    pub nonce: SecretLinkPasswordNonce,
}

impl SecretLinkPasswordParams {
    pub open spec fn dv(&self) -> (Seq<char>, Seq<char>) {
        (self.salt@, self.nonce@)
    }

    pub fn clone_params(&self) -> (r: Self)
        ensures
            r.dv() == self.dv(),
    {
        SecretLinkPasswordParams {
            salt: SecretLinkPasswordSalt(clone_string(&self.salt.0)),
            nonce: SecretLinkPasswordNonce(clone_string(&self.nonce.0)),
        }
    }
}

} // verus!
