//! Request and response shapes of the HTTP surface, as plain values; the
//! transport layer turns them into and out of JSON bodies.

use vstd::prelude::*;
use crate::auth::{AccessRole, SignedApiAccessToken, SignedApiChallenge};
use crate::keys::{ClientNonceSignature, PublicPrimaryKey, PublicSigningKey,
    WrappedPrivatePrimaryKey};
use crate::models::{ClientKeyId, EncryptedKeyComment, EncryptedSubmissionBody, FormId};

verus! {

/// `GET /forms/:form_id` response.
pub struct GetFormResponse {
    pub org_name: String,
    pub description: String,
    pub contact_methods: Vec<String>,
    pub public_primary_key: PublicPrimaryKey,
}

/// `POST /forms` request.
pub struct PostFormRequest {
    pub public_primary_key: PublicPrimaryKey,
    pub public_signing_key: PublicSigningKey,
    pub org_name: String,
    pub description: String,
    pub contact_methods: Vec<String>,
    pub expires_at: Option<String>,
}

/// `POST /forms` response.
pub struct PostFormResponse {
    pub form_id: FormId,
    pub client_key_id: ClientKeyId,
}

/// `POST /submissions/:form_id` request.
pub struct PostSubmissionRequest {
    pub encrypted_body: EncryptedSubmissionBody,
}

/// One element of the `GET /submissions/:form_id` response.
pub struct ListSubmissionsResponse {
    pub encrypted_body: EncryptedSubmissionBody,
    pub created_at: String,
}

/// `GET /keys/:form_id/:client_key_id` response.
pub struct GetKeyResponse {
    pub wrapped_private_primary_key: Option<WrappedPrivatePrimaryKey>,
}

/// One element of the `GET /keys/:form_id` response.
pub struct ListKeysResponse {
    pub client_key_id: ClientKeyId,
    pub encrypted_comment: EncryptedKeyComment,
    pub role: AccessRole,
    pub accessed_at: Option<String>,
}

/// `POST /keys/:form_id` request.
pub struct PostKeyRequest {
    pub public_signing_key: PublicSigningKey,
    pub wrapped_private_primary_key: WrappedPrivatePrimaryKey,
    pub encrypted_comment: EncryptedKeyComment,
    pub role: AccessRole,
}

/// `POST /keys/:form_id` response.
pub struct PostKeyResponse {
    pub client_key_id: ClientKeyId,
}

/// `PATCH /forms/:form_id` request.
pub struct PatchFormRequest {
    pub org_name: String,
    pub description: String,
    pub contact_methods: Vec<String>,
    pub expires_at: Option<String>,
}

/// `PATCH /keys/:form_id/:client_key_id` request.
pub struct PatchKeyRequest {
    pub wrapped_private_primary_key: Option<WrappedPrivatePrimaryKey>,
    pub encrypted_comment: Option<EncryptedKeyComment>,
}

/// `POST /challenges/:form_id/:client_key_id` response.
pub struct GetApiChallengeResponse {
    pub challenge: SignedApiChallenge,
}

/// `POST /tokens` request.
pub struct PostTokenRequest {
    pub signature: ClientNonceSignature,
    pub challenge: SignedApiChallenge,
}

/// `POST /tokens` response.
pub struct PostTokenResponse {
    pub token: SignedApiAccessToken,
}

} // verus!
