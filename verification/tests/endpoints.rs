use base64::Engine;
use base64::engine::general_purpose::STANDARD;
use ed25519_dalek::{Signer, SigningKey};
use formauth::api::{PatchKeyRequest, PostFormRequest, PostKeyRequest, PostSubmissionRequest,
    PostTokenRequest};
use formauth::auth::{AccessRole, SignedApiAccessToken, SignedApiChallenge};
use formauth::config;
use formauth::keys::{ClientNonceSignature, PublicPrimaryKey, PublicSigningKey,
    WrappedPrivatePrimaryKey};
use formauth::models::{ClientKeyId, EncryptedKeyComment, EncryptedSubmissionBody, FormId};
use formauth::router;
use formauth::router::{AppState, ErrorCode};
use formauth::store::{Store, UnauthenticatedStore};

const NOW: u64 = 1_700_000_000;

fn test_state() -> AppState {
    let cfg = config::init("dev", String::from("https://example.test"), "3600", "60",
        "1048576").expect("config should parse");
    AppState { store: UnauthenticatedStore::new(Store::empty()), config: cfg }
}

fn signing_key(seed: u8) -> SigningKey {
    SigningKey::from_bytes(&[seed; 32])
}

fn public_signing_key(sk: &SigningKey) -> PublicSigningKey {
    let b64 = STANDARD.encode(sk.verifying_key().to_bytes());
    PublicSigningKey::from_b64_text(&b64).expect("a generated key parses")
}

fn create_form(state: &mut AppState, sk: &SigningKey) -> (FormId, ClientKeyId) {
    let req = PostFormRequest {
        public_primary_key: PublicPrimaryKey(String::from("bm90IGEgcmVhbCBrZXk=")),
        public_signing_key: public_signing_key(sk),
        org_name: String::from("Example Org"),
        description: String::from("a test form"),
        contact_methods: vec![String::from("email")],
        expires_at: None,
    };
    let resp = router::publish_form(state, req, NOW).expect("publish succeeds");
    (resp.form_id, resp.client_key_id)
}

fn challenge_nonce_bytes(challenge: &SignedApiChallenge) -> Vec<u8> {
    // Dig the nonce's base64 text out of the challenge token's payload.
    let text = challenge.text().expect("token is ASCII");
    let mut parts = text.split('.');
    let _header = parts.next().expect("header part");
    let payload64 = parts.next().expect("payload part");
    let payload = base64::engine::general_purpose::URL_SAFE_NO_PAD
        .decode(payload64)
        .expect("payload is base64url");
    let payload_text = String::from_utf8(payload).expect("payload is JSON text");
    let marker = "\"nonce\":\"";
    let start = payload_text.find(marker).expect("payload carries a nonce") + marker.len();
    let rest = &payload_text[start..];
    let end = rest.find('"').expect("nonce text is quoted");
    STANDARD.decode(&rest[..end]).expect("nonce is base64")
}

fn authenticate(state: &mut AppState, form_id: &FormId, key_id: ClientKeyId,
    sk: &SigningKey) -> SignedApiAccessToken {
    let challenge = router::request_challenge(state, form_id, key_id, NOW).challenge;
    let nonce = challenge_nonce_bytes(&challenge);
    let signature = sk.sign(&nonce);
    let body = PostTokenRequest {
        signature: ClientNonceSignature::from_b64_text(&STANDARD.encode(signature.to_bytes()))
            .expect("signature text parses"),
        challenge,
    };
    router::request_access_token(state, body, NOW).expect("handshake succeeds").token
}

#[test]
fn happy_path_handshake_reads_submissions() {
    let mut state = test_state();
    let sk = signing_key(7);
    let (form_id, key_id) = create_form(&mut state, &sk);
    assert_eq!(form_id.text().unwrap().len(), 8);
    assert_eq!(key_id, ClientKeyId(0));
    let token = authenticate(&mut state, &form_id, key_id, &sk);
    let listed = router::list_form_submissions(&mut state, &token, &form_id, NOW)
        .expect("a fresh admin token reads submissions");
    assert_eq!(listed.len(), 0);
}

#[test]
fn valid_signature_of_wrong_nonce_is_unauthorized() {
    let mut state = test_state();
    let sk = signing_key(7);
    let (form_id, key_id) = create_form(&mut state, &sk);
    let challenge = router::request_challenge(&mut state, &form_id, key_id, NOW).challenge;
    let signature = sk.sign("invalid-nonce".as_bytes());
    let body = PostTokenRequest {
        signature: ClientNonceSignature::from_b64_text(&STANDARD.encode(signature.to_bytes()))
            .unwrap(),
        challenge,
    };
    let r = router::request_access_token(&mut state, body, NOW);
    assert!(matches!(r, Err(ErrorCode::Unauthorized)));
}

#[test]
fn not_returning_same_challenge_is_unauthorized() {
    let mut state = test_state();
    let sk = signing_key(7);
    let (form_id, key_id) = create_form(&mut state, &sk);
    let challenge = router::request_challenge(&mut state, &form_id, key_id, NOW).challenge;
    let nonce = challenge_nonce_bytes(&challenge);
    let signature = sk.sign(&nonce);
    let body = PostTokenRequest {
        signature: ClientNonceSignature::from_b64_text(&STANDARD.encode(signature.to_bytes()))
            .unwrap(),
        challenge: SignedApiChallenge::from_text("invalid-challenge"),
    };
    let r = router::request_access_token(&mut state, body, NOW);
    assert!(matches!(r, Err(ErrorCode::Unauthorized)));
}

#[test]
fn challenge_token_can_not_be_used_as_access_token() {
    let mut state = test_state();
    let sk = signing_key(7);
    let (form_id, key_id) = create_form(&mut state, &sk);
    let challenge = router::request_challenge(&mut state, &form_id, key_id, NOW).challenge;
    let as_bearer = SignedApiAccessToken::from_text(&challenge.text().unwrap());
    let r = router::delete_form(&mut state, &as_bearer, &form_id, NOW);
    assert!(matches!(r, Err(ErrorCode::Unauthorized)));
}

#[test]
fn second_use_of_challenge_is_unauthorized() {
    let mut state = test_state();
    let sk = signing_key(7);
    let (form_id, key_id) = create_form(&mut state, &sk);
    let challenge = router::request_challenge(&mut state, &form_id, key_id, NOW).challenge;
    let nonce = challenge_nonce_bytes(&challenge);
    let signature = sk.sign(&nonce);
    let sig_text = STANDARD.encode(signature.to_bytes());
    let first = PostTokenRequest {
        signature: ClientNonceSignature::from_b64_text(&sig_text).unwrap(),
        challenge: SignedApiChallenge::from_text(&challenge.text().unwrap()),
    };
    let second = PostTokenRequest {
        signature: ClientNonceSignature::from_b64_text(&sig_text).unwrap(),
        challenge,
    };
    assert!(router::request_access_token(&mut state, first, NOW).is_ok());
    let r = router::request_access_token(&mut state, second, NOW);
    assert!(matches!(r, Err(ErrorCode::Unauthorized)));
}

#[test]
fn token_for_other_form_is_forbidden() {
    let mut state = test_state();
    let sk_a = signing_key(7);
    let sk_b = signing_key(9);
    let (form_a, key_a) = create_form(&mut state, &sk_a);
    let (form_b, _key_b) = create_form(&mut state, &sk_b);
    let token_a = authenticate(&mut state, &form_a, key_a, &sk_a);
    let r = router::list_form_submissions(&mut state, &token_a, &form_b, NOW);
    assert!(matches!(r, Err(ErrorCode::Forbidden)));
}

#[test]
fn revoked_key_is_unauthorized_immediately() {
    let mut state = test_state();
    let sk = signing_key(7);
    let (form_id, key_id) = create_form(&mut state, &sk);
    let token = authenticate(&mut state, &form_id, key_id, &sk);
    let admin = authenticate(&mut state, &form_id, key_id, &sk);
    router::delete_key(&mut state, &admin, &form_id, key_id, NOW)
        .expect("an admin revokes the key");
    let r = router::list_form_submissions(&mut state, &token, &form_id, NOW);
    assert!(matches!(r, Err(ErrorCode::Unauthorized)));
}

#[test]
fn elapsed_ephemeral_key_ttl_is_unauthorized() {
    let mut state = test_state();
    let sk = signing_key(7);
    let (form_id, key_id) = create_form(&mut state, &sk);
    let token = authenticate(&mut state, &form_id, key_id, &sk);
    // The ephemeral key lives for twice the access-token lifetime.
    let later = NOW + 2 * 3600;
    let r = router::list_form_submissions(&mut state, &token, &form_id, later);
    assert!(matches!(r, Err(ErrorCode::Unauthorized)));
}

#[test]
fn read_role_is_forbidden_on_admin_endpoints() {
    let mut state = test_state();
    let sk = signing_key(7);
    let sk_read = signing_key(11);
    let (form_id, key_id) = create_form(&mut state, &sk);
    let admin = authenticate(&mut state, &form_id, key_id, &sk);
    let added = router::add_key(&mut state, &admin, &form_id, PostKeyRequest {
        public_signing_key: public_signing_key(&sk_read),
        wrapped_private_primary_key: WrappedPrivatePrimaryKey(String::from("d3JhcHBlZA==")),
        encrypted_comment: EncryptedKeyComment(String::from("Y29tbWVudA==")),
        role: AccessRole::Read,
    }, NOW).expect("admin adds a read key");
    assert_eq!(added.client_key_id, ClientKeyId(1));
    let read_token = authenticate(&mut state, &form_id, added.client_key_id, &sk_read);
    let r = router::list_keys(&mut state, &read_token, &form_id, NOW);
    assert!(matches!(r, Err(ErrorCode::Forbidden)));
    // An admin token passes read endpoints.
    let listed = router::list_form_submissions(&mut state, &admin, &form_id, NOW);
    assert!(listed.is_ok());
    // A read token passes read endpoints.
    let listed = router::list_form_submissions(&mut state, &read_token, &form_id, NOW);
    assert!(listed.is_ok());
}

#[test]
fn key_ids_increase_and_never_repeat() {
    let mut state = test_state();
    let sk = signing_key(7);
    let (form_id, key_id) = create_form(&mut state, &sk);
    let admin = authenticate(&mut state, &form_id, key_id, &sk);
    let second = router::add_key(&mut state, &admin, &form_id, PostKeyRequest {
        public_signing_key: public_signing_key(&signing_key(21)),
        wrapped_private_primary_key: WrappedPrivatePrimaryKey(String::from("YQ==")),
        encrypted_comment: EncryptedKeyComment(String::from("Yg==")),
        role: AccessRole::Admin,
    }, NOW).unwrap();
    assert_eq!(second.client_key_id, ClientKeyId(1));
    router::delete_key(&mut state, &admin, &form_id, second.client_key_id, NOW).unwrap();
    let third = router::add_key(&mut state, &admin, &form_id, PostKeyRequest {
        public_signing_key: public_signing_key(&signing_key(22)),
        wrapped_private_primary_key: WrappedPrivatePrimaryKey(String::from("Yw==")),
        encrypted_comment: EncryptedKeyComment(String::from("ZA==")),
        role: AccessRole::Read,
    }, NOW).unwrap();
    // The deleted id 1 is never handed out again.
    assert_eq!(third.client_key_id, ClientKeyId(2));
}

#[test]
fn get_form_template() {
    let mut state = test_state();
    let sk = signing_key(7);
    let (form_id, _key_id) = create_form(&mut state, &sk);
    let resp = router::get_form(&state, &form_id).expect("the form exists");
    assert_eq!(resp.org_name, "Example Org");
    assert_eq!(resp.description, "a test form");
    assert_eq!(resp.contact_methods, vec![String::from("email")]);
}

#[test]
fn forms_get_form_template() {
    let mut state = test_state();
    let sk = signing_key(7);
    let (form_id, _key_id) = create_form(&mut state, &sk);
    let resp = router::get_form(&state, &form_id).expect("the form exists");
    assert!(!resp.org_name.is_empty());
    assert!(!resp.description.is_empty());
    assert_eq!(resp.contact_methods.len(), 1);
}

#[test]
fn get_form_template_form_not_found() {
    let state = test_state();
    let r = router::get_form(&state, &FormId::from_text("invalid-form-id"));
    assert!(matches!(r, Err(ErrorCode::NotFound)));
}

#[test]
fn password_params_round_trip() {
    let mut state = test_state();
    let sk = signing_key(7);
    let (form_id, key_id) = create_form(&mut state, &sk);
    let salt = formauth::models::SecretLinkPasswordSalt(String::from("c2FsdA=="));
    let nonce = formauth::models::SecretLinkPasswordNonce(String::from("bm9uY2U="));
    assert!(state.store.0.store_password_params(&form_id, key_id, salt, nonce));
    let got = state.store.0.get_password_params(&form_id, key_id).expect("params stored");
    assert_eq!(got.salt.0, "c2FsdA==");
    assert_eq!(got.nonce.0, "bm9uY2U=");
    // A second row per key is refused, and the key now reads as protected.
    let salt2 = formauth::models::SecretLinkPasswordSalt(String::from("eA=="));
    let nonce2 = formauth::models::SecretLinkPasswordNonce(String::from("eQ=="));
    assert!(!state.store.0.store_password_params(&form_id, key_id, salt2, nonce2));
    let keys = state.store.0.get_client_keys(&form_id, key_id).expect("the key exists");
    assert!(keys.protected);
    // No params under a key that never stored any.
    assert!(state.store.0.get_password_params(&form_id, ClientKeyId(9)).is_none());
}

#[test]
fn get_form_template_not_found() {
    let state = test_state();
    let r = router::get_form(&state, &FormId::from_text("invalid-form-id"));
    assert!(matches!(r, Err(ErrorCode::NotFound)));
}

#[test]
fn delete_form() {
    let mut state = test_state();
    let sk = signing_key(7);
    let (form_id, key_id) = create_form(&mut state, &sk);
    let admin = authenticate(&mut state, &form_id, key_id, &sk);
    router::delete_form(&mut state, &admin, &form_id, NOW).expect("admin deletes the form");
    let r = router::get_form(&state, &form_id);
    assert!(matches!(r, Err(ErrorCode::NotFound)));
}

#[test]
fn post_encrypted_submission() {
    let mut state = test_state();
    let sk = signing_key(7);
    let (form_id, _key_id) = create_form(&mut state, &sk);
    let r = router::store_form_submission(&mut state, &form_id, PostSubmissionRequest {
        encrypted_body: EncryptedSubmissionBody(String::from("<encrypted_body>")),
    }, NOW);
    assert!(r.is_ok());
}

#[test]
fn post_encrypted_submission_form_not_found() {
    let mut state = test_state();
    let r = router::store_form_submission(&mut state, &FormId::from_text("invalid-form-id"),
        PostSubmissionRequest {
            encrypted_body: EncryptedSubmissionBody(String::from("<encrypted_body>")),
        }, NOW);
    assert!(matches!(r, Err(ErrorCode::NotFound)));
}

#[test]
fn get_encrypted_submission() {
    let mut state = test_state();
    let sk = signing_key(7);
    let (form_id, key_id) = create_form(&mut state, &sk);
    let token = authenticate(&mut state, &form_id, key_id, &sk);
    router::store_form_submission(&mut state, &form_id, PostSubmissionRequest {
        encrypted_body: EncryptedSubmissionBody(String::from("<encrypted_body>")),
    }, NOW).unwrap();
    let listed = router::list_form_submissions(&mut state, &token, &form_id, NOW).unwrap();
    assert_eq!(listed.len(), 1);
    assert_eq!(listed[0].encrypted_body.0, "<encrypted_body>");
    // The creation time is reported in RFC 3339.
    assert_eq!(listed[0].created_at, "2023-11-14T22:13:20+00:00");
}

#[test]
fn get_encrypted_submission_form_not_found() {
    let mut state = test_state();
    let sk = signing_key(7);
    let (form_id, key_id) = create_form(&mut state, &sk);
    router::store_form_submission(&mut state, &form_id, PostSubmissionRequest {
        encrypted_body: EncryptedSubmissionBody(String::from("<encrypted_body>")),
    }, NOW).unwrap();
    let token = authenticate(&mut state, &form_id, key_id, &sk);
    router::delete_form(&mut state, &token, &form_id, NOW).unwrap();
    let r = router::list_form_submissions(&mut state, &token, &form_id, NOW);
    assert!(matches!(r, Err(ErrorCode::Unauthorized)));
}

#[test]
fn get_encrypted_submission_when_there_are_none() {
    let mut state = test_state();
    let sk = signing_key(7);
    let (form_id, key_id) = create_form(&mut state, &sk);
    let token = authenticate(&mut state, &form_id, key_id, &sk);
    let listed = router::list_form_submissions(&mut state, &token, &form_id, NOW).unwrap();
    assert_eq!(listed.len(), 0);
}

#[test]
fn submissions_list_newest_first() {
    let mut state = test_state();
    let sk = signing_key(7);
    let (form_id, key_id) = create_form(&mut state, &sk);
    router::store_form_submission(&mut state, &form_id, PostSubmissionRequest {
        encrypted_body: EncryptedSubmissionBody(String::from("older")),
    }, NOW).unwrap();
    router::store_form_submission(&mut state, &form_id, PostSubmissionRequest {
        encrypted_body: EncryptedSubmissionBody(String::from("newer")),
    }, NOW + 5).unwrap();
    let token = authenticate(&mut state, &form_id, key_id, &sk);
    let listed = router::list_form_submissions(&mut state, &token, &form_id, NOW + 6).unwrap();
    assert_eq!(listed.len(), 2);
    assert_eq!(listed[0].encrypted_body.0, "newer");
    assert_eq!(listed[1].encrypted_body.0, "older");
}

#[test]
fn update_key_replaces_only_given_fields() {
    let mut state = test_state();
    let sk = signing_key(7);
    let (form_id, key_id) = create_form(&mut state, &sk);
    let admin = authenticate(&mut state, &form_id, key_id, &sk);
    router::update_key(&mut state, &admin, &form_id, key_id, PatchKeyRequest {
        wrapped_private_primary_key: Some(WrappedPrivatePrimaryKey(String::from("bmV3"))),
        encrypted_comment: None,
    }, NOW).expect("admin updates the key");
    let got = router::get_key(&mut state, &admin, &form_id, key_id, NOW).unwrap();
    assert_eq!(got.wrapped_private_primary_key.unwrap().0, "bmV3");
}

#[test]
fn publish_with_bad_expiry_is_internal() {
    let mut state = test_state();
    let sk = signing_key(7);
    let req = PostFormRequest {
        public_primary_key: PublicPrimaryKey(String::from("bm90IGEgcmVhbCBrZXk=")),
        public_signing_key: public_signing_key(&sk),
        org_name: String::from("Example Org"),
        description: String::from("a test form"),
        contact_methods: vec![String::from("email")],
        expires_at: Some(String::from("not a timestamp")),
    };
    let r = router::publish_form(&mut state, req, NOW);
    assert!(matches!(r, Err(ErrorCode::Internal)));
}

#[test]
fn expiry_sweep_deletes_expired_forms() {
    let mut state = test_state();
    let sk = signing_key(7);
    let req = PostFormRequest {
        public_primary_key: PublicPrimaryKey(String::from("bm90IGEgcmVhbCBrZXk=")),
        public_signing_key: public_signing_key(&sk),
        org_name: String::from("Example Org"),
        description: String::from("a short-lived form"),
        contact_methods: vec![String::from("email")],
        // NOW is 2023-11-14T22:13:20Z; this expiry is one second later.
        expires_at: Some(String::from("2023-11-14T22:13:21+00:00")),
    };
    let resp = router::publish_form(&mut state, req, NOW).expect("publish succeeds");
    state.store.0.delete_expired_forms(NOW + 1);
    assert!(router::get_form(&state, &resp.form_id).is_ok());
    state.store.0.delete_expired_forms(NOW + 2);
    assert!(matches!(router::get_form(&state, &resp.form_id), Err(ErrorCode::NotFound)));
}

#[test]
fn bearer_extraction() {
    let token = router::extract_bearer("Bearer abc.def.ghi");
    assert_eq!(token.unwrap().text().unwrap(), "abc.def.ghi");
    assert!(router::extract_bearer("Basic abc").is_none());
    assert!(router::extract_bearer("").is_none());
}

#[test]
fn auth_errors_keep_their_message_and_kind() {
    let e = formauth::auth::AuthError::unauthorized("no identity");
    assert_eq!(e.kind(), formauth::auth::AuthErrorType::Unauthorized);
    assert_eq!(e.message(), "no identity");
    let e = formauth::auth::AuthError::forbidden("not enough");
    assert_eq!(e.kind(), formauth::auth::AuthErrorType::Forbidden);
    assert_eq!(e.message(), "not enough");
}

#[test]
fn error_status_codes() {
    assert_eq!(router::status_code(ErrorCode::Unauthorized), 401);
    assert_eq!(router::status_code(ErrorCode::Forbidden), 403);
    assert_eq!(router::status_code(ErrorCode::NotFound), 404);
    assert_eq!(router::status_code(ErrorCode::Internal), 500);
}
