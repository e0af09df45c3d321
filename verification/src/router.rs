//! The request handlers: each endpoint as a function from the application
//! state and the request's plain values to a response or a status code.
//! The transport around them only parses bodies and prints responses.

use vstd::prelude::*;
use vstd::string::StringSliceAdditionalSpecFns;
use crate::api::{GetApiChallengeResponse, GetFormResponse, GetKeyResponse, ListKeysResponse,
    ListSubmissionsResponse, PatchFormRequest, PatchKeyRequest, PostFormRequest,
    PostFormResponse, PostKeyRequest, PostKeyResponse, PostSubmissionRequest, PostTokenRequest,
    PostTokenResponse};
use crate::auth::{AccessRole, ApiChallenge, ApiChallengeResponse, AuthError, AuthErrorType,
    SignedApiAccessToken, role_includes, claims_window_ok, live_canonical_access,
    live_canonical_challenge, challenge_case, logged, kv_consumed, sig_ok_for,
    authorized_bearer};
use crate::codec::{expect_lit, has_lit_at};
use crate::config::Config;
use crate::jwt::{AccessClaimsV, ChallengeClaimsV, is_canonical_access, is_canonical_challenge,
    token_wf, claims_wf_ch, claims_wf_ac, challenge_rel, kid_rel};
use crate::keys::{ApiChallengeNonce, EphemeralServerKey};
use crate::models::{ChallengeId, ClientKeyId, EncryptedKeyComment, FormId, FormTemplate,
    FormUpdate, ServerKeyId, SubmissionId};
use crate::store::{Store, UnauthenticatedStore, has_form, has_form_key, has_key, spec_form,
    spec_key, form_entry, kv_entry, kv_live, server_kv_key, challenge_kv_key, sat_add};
use crate::text::str_bytes;
use crate::timefmt::{MAX_TIMESTAMP, parse_rfc3339, rfc3339_of, rfc3339_secs_of, rfc3339_utc};

verus! {

/// The JSON template version this server writes.
pub const FORM_TEMPLATE_CURRENT_VERSION: u32 = 1;

/// The status an endpoint reports when it cannot answer.
#[derive(Debug, Clone, Copy, PartialEq, Eq, Structural)]
pub enum ErrorCode {
    Unauthorized,
    Forbidden,
    NotFound,
    Internal,
}

/// The HTTP status code of an error.
pub fn status_code(e: ErrorCode) -> (r: u16)
    ensures
        e == ErrorCode::Unauthorized ==> r == 401,
        e == ErrorCode::Forbidden ==> r == 403,
        e == ErrorCode::NotFound ==> r == 404,
        e == ErrorCode::Internal ==> r == 500,
{
    match e {
        ErrorCode::Unauthorized => 401,
        ErrorCode::Forbidden => 403,
        ErrorCode::NotFound => 404,
        ErrorCode::Internal => 500,
    }
}

/// The status an auth failure maps to.
pub open spec fn spec_auth_code(k: AuthErrorType) -> ErrorCode {
    match k {
        AuthErrorType::Unauthorized => ErrorCode::Unauthorized,
        AuthErrorType::Forbidden => ErrorCode::Forbidden,
    }
}

fn auth_err(e: &AuthError) -> (r: ErrorCode)
    ensures
        r == spec_auth_code(e.spec_kind()),
{
    match e.kind() {
        AuthErrorType::Unauthorized => ErrorCode::Unauthorized,
        AuthErrorType::Forbidden => ErrorCode::Forbidden,
    }
}

/// The application state every handler works on.
pub struct AppState {
    pub store: UnauthenticatedStore,
    pub config: Config,
}

/// The bytes of `Bearer `.
pub open spec fn lit_bearer() -> Seq<u8> {
    seq![66u8, 101u8, 97u8, 114u8, 101u8, 114u8, 32u8]
}

/// Extract the bearer token from an Authorization header value: the text
/// after the `Bearer ` prefix, or nothing when the prefix is missing.
pub fn extract_bearer(header_value: &str) -> (r: Option<SignedApiAccessToken>)
    ensures
        match r {
            Some(t) => has_lit_at(header_value.spec_bytes(), 0, lit_bearer())
                && t@ == header_value.spec_bytes().skip(7),
            None => !has_lit_at(header_value.spec_bytes(), 0, lit_bearer()),
        },
{
    let bytes = str_bytes(header_value);
    let prefix: [u8; 7] = [66u8, 101u8, 97u8, 114u8, 101u8, 114u8, 32u8];
    proof {
        assert(prefix@ =~= lit_bearer());
    }
    match expect_lit(bytes.as_slice(), 0, prefix.as_slice()) {
        Some(p) => {
            let rest = crate::codec::copy_range(bytes.as_slice(), p, bytes.len());
            proof {
                assert(bytes@.subrange(7, bytes@.len() as int) =~= bytes@.skip(7));
            }
            Some(SignedApiAccessToken::from_bytes(rest))
        },
        None => None,
    }
}

/// The refusals every protected endpoint shares, on the canonical access
/// token of claims `c`: a failed claim check is unauthorized, a token for
/// another form is forbidden, a missing or revoked client key is
/// unauthorized, an insufficient role is forbidden. `untouched` says the
/// state was left alone in those cases.
pub open spec fn gate_refusals<T>(s0: Store, r: Result<T, ErrorCode>, c: AccessClaimsV,
    form: Seq<u8>, needs: AccessRole, origin: Seq<u8>, now: u64, untouched: bool) -> bool {
    let window = claims_window_ok(c.aud, c.iss, c.iat, c.exp, origin, now);
    let have_key = has_form_key(s0.forms@, c.form_id, c.client_key_id);
    let row = spec_key(spec_form(s0.forms@, c.form_id).keys@, c.client_key_id);
    &&& (!window ==> (r matches Err(e) && e == ErrorCode::Unauthorized) && untouched)
    &&& (window && c.form_id != form
        ==> (r matches Err(e) && e == ErrorCode::Forbidden) && untouched)
    &&& (window && c.form_id == form && !have_key
        ==> (r matches Err(e) && e == ErrorCode::Unauthorized) && untouched)
    &&& (window && c.form_id == form && have_key && !role_includes(row.role, needs)
        ==> (r matches Err(e) && e == ErrorCode::Forbidden) && untouched)
}

/// The canonical access token of claims `c` passes access validation for
/// `form` with `needs`.
pub open spec fn gate_passes(s0: Store, c: AccessClaimsV, form: Seq<u8>, needs: AccessRole,
    origin: Seq<u8>, now: u64) -> bool {
    &&& claims_window_ok(c.aud, c.iss, c.iat, c.exp, origin, now)
    &&& c.form_id == form
    &&& has_form_key(s0.forms@, c.form_id, c.client_key_id)
    &&& role_includes(spec_key(spec_form(s0.forms@, c.form_id).keys@,
        c.client_key_id).role, needs)
}

/// `POST /forms`: publish a form and its first, admin, client key in one
/// act; the initial key has no wrapped primary key yet and an empty
/// comment.
pub fn publish_form(state: &mut AppState, form: PostFormRequest, now: u64) -> (r: Result<
    PostFormResponse, ErrorCode>)
    requires
        old(state).store.0.wf(),
        form.public_signing_key.wf(),
    ensures
        final(state).store.0.wf(),
        final(state).store.0.kv@ == old(state).store.0.kv@,
        final(state).config == old(state).config,
        r matches Err(e) ==> e == ErrorCode::Internal,
        // A failure writes nothing.
        r is Err ==> final(state).store.0 == old(state).store.0,
        // Failure happens only on a malformed expiry or on the drawn
        // 8-character id colliding with a stored form; in particular, with
        // a well-formed expiry and no stored form bearing an 8-byte id
        // (an empty store, say), publishing must succeed.
        r is Err ==> ((match form.expires_at {
            Some(ref s) => rfc3339_secs_of(s@) is None,
            None => false,
        }) || (exists|k: Seq<u8>| k.len() == 8
            && #[trigger] has_form(old(state).store.0.forms@, k))),
        (match form.expires_at {
            Some(ref s) => rfc3339_secs_of(s@) is None,
            None => false,
        }) ==> r matches Err(e),
        r matches Ok(resp) ==> ({
            let f = spec_form(final(state).store.0.forms@, resp.form_id@);
            &&& resp.client_key_id.0 == 0
            &&& !has_form(old(state).store.0.forms@, resp.form_id@)
            &&& has_form(final(state).store.0.forms@, resp.form_id@)
            &&& f.template.dv() == (FORM_TEMPLATE_CURRENT_VERSION, form.org_name@,
                form.description@, form.contact_methods.deep_view())
            &&& f.public_primary_key@ == form.public_primary_key@
            &&& (match form.expires_at {
                Some(ref s) => rfc3339_secs_of(s@) matches Some(e) && f.expires_at == Some(e),
                None => f.expires_at is None,
            })
            &&& f.keys@.len() == 1
            &&& f.keys@[0].id == 0
            &&& f.keys@[0].public_signing_key@ == form.public_signing_key@
            &&& f.keys@[0].role == AccessRole::Admin
            &&& f.keys@[0].wrapped_private_primary_key is None
            &&& f.next_key_id == 1
            &&& f.submissions@.len() == 0
            &&& f.access_log@.len() == 0
            &&& f.passwords@.len() == 0
            &&& resp.form_id@.len() == 8
            &&& forall|k: Seq<u8>| k != resp.form_id@
                ==> form_entry(final(state).store.0.forms@, k)
                    == form_entry(old(state).store.0.forms@, k)
        }),
{
    let expires_at: Option<i64> = match form.expires_at {
        Some(ref s) => match parse_rfc3339(s.as_str()) {
            Some(e) => Some(e),
            None => {
                return Err(ErrorCode::Internal);
            },
        },
        None => None,
    };
    let template = FormTemplate {
        version: FORM_TEMPLATE_CURRENT_VERSION,
        org_name: form.org_name,
        description: form.description,
        contact_methods: form.contact_methods,
    };
    let form_id = FormId::new();
    if !state.store.0.put_form_template(&form_id, template, form.public_primary_key,
        expires_at) {
        // A random id collided with an existing form.
        proof {
            assert(form_id@.len() == 8 && has_form(old(state).store.0.forms@, form_id@));
        }
        return Err(ErrorCode::Internal);
    }
    // The initial secret link always has admin access; the form was just
    // inserted with an empty key registry, so this allocation cannot fail.
    let client_key_id = match state.store.0.store_client_keys(&form_id,
        form.public_signing_key, None, EncryptedKeyComment::empty(), AccessRole::Admin) {
        Some(id) => id,
        None => {
            proof {
                assert(false);
            }
            return Err(ErrorCode::Internal);
        },
    };
    Ok(PostFormResponse { form_id, client_key_id })
}

/// `GET /forms/:form_id`: the public template and primary key.
pub fn get_form(state: &AppState, form_id: &FormId) -> (r: Result<GetFormResponse, ErrorCode>)
    requires
        state.store.0.wf(),
    ensures
        r is Ok <==> has_form(state.store.0.forms@, form_id@),
        r matches Err(e) ==> e == ErrorCode::NotFound,
        r matches Ok(resp) ==> ({
            let f = spec_form(state.store.0.forms@, form_id@);
            &&& resp.org_name@ == f.template.org_name@
            &&& resp.description@ == f.template.description@
            &&& resp.contact_methods.deep_view() == f.template.contact_methods.deep_view()
            &&& resp.public_primary_key@ == f.public_primary_key@
        }),
{
    let data = match state.store.without_authenticating().get_form_data(form_id) {
        Some(d) => d,
        None => {
            return Err(ErrorCode::NotFound);
        },
    };
    Ok(GetFormResponse {
        org_name: data.template.org_name,
        description: data.template.description,
        contact_methods: data.template.contact_methods,
        public_primary_key: data.public_primary_key,
    })
}

/// `POST /submissions/:form_id`: store a ciphertext; 404 exactly when the
/// form does not exist.
pub fn store_form_submission(state: &mut AppState, form_id: &FormId,
    body: PostSubmissionRequest, now: u64) -> (r: Result<(), ErrorCode>)
    requires
        old(state).store.0.wf(),
        now <= MAX_TIMESTAMP,
    ensures
        final(state).store.0.wf(),
        final(state).store.0.kv@ == old(state).store.0.kv@,
        final(state).config == old(state).config,
        r is Ok <==> has_form(old(state).store.0.forms@, form_id@),
        r matches Err(e) ==> e == ErrorCode::NotFound && final(state).store.0
            == old(state).store.0,
        r is Ok ==> ({
            let f0 = spec_form(old(state).store.0.forms@, form_id@);
            let f = spec_form(final(state).store.0.forms@, form_id@);
            &&& f.submissions@.len() == f0.submissions@.len() + 1
            &&& exists|p: int| 0 <= p < f.submissions@.len()
                && (#[trigger] f.submissions@[p]).encrypted_body@ == body.encrypted_body@
                && f.submissions@[p].created_at == now
            &&& f.keys@ == f0.keys@
            &&& forall|k: Seq<u8>| k != form_id@
                ==> form_entry(final(state).store.0.forms@, k)
                    == form_entry(old(state).store.0.forms@, k)
        }),
{
    let submission_id = SubmissionId::new();
    let ghost row = crate::store::SubmissionRow {
        submission_id,
        encrypted_body: body.encrypted_body,
        created_at: now,
    };
    if state.store.0.put_submission(form_id, submission_id, body.encrypted_body, now) {
        proof {
            let f0 = spec_form(old(state).store.0.forms@, form_id@);
            let f = spec_form(state.store.0.forms@, form_id@);
            let p = choose|p: int| 0 <= p <= f0.submissions@.len()
                && f.submissions@ == f0.submissions@.insert(p, row);
            assert(f.submissions@[p] == row);
        }
        Ok(())
    } else {
        Err(ErrorCode::NotFound)
    }
}

/// `POST /challenges/:form_id/:client_key_id`: mint an ephemeral key and a
/// single-use challenge. Deliberately, the client key's existence is not
/// checked: polling a not-yet-created key must not leak whether it exists.
pub fn request_challenge(state: &mut AppState, form_id: &FormId, client_key_id: ClientKeyId,
    now: u64) -> (r: GetApiChallengeResponse)
    requires
        old(state).store.0.wf(),
        forall|i: int| 0 <= i < form_id@.len() ==> form_id@[i] != 47,
    ensures
        final(state).store.0.wf(),
        final(state).store.0.forms@ == old(state).store.0.forms@,
        final(state).config == old(state).config,
        exists|kid: Seq<u8>, secret: Seq<u8>, c: ChallengeClaimsV|
            ({
                &&& #[trigger] is_canonical_challenge(r.challenge@, secret, kid, c)
                &&& kv_entry(final(state).store.0.kv@, server_kv_key(kid))
                    == Some((secret, sat_add(now, sat_add(sat_add(0,
                        old(state).config.spec_access_token_exp()),
                        old(state).config.spec_access_token_exp()))))
                &&& kv_entry(final(state).store.0.kv@, challenge_kv_key(c.jti))
                    == Some((Seq::<u8>::empty(), sat_add(now, sat_add(sat_add(0,
                        old(state).config.spec_challenge_token_exp()),
                        old(state).config.spec_challenge_token_exp()))))
                &&& server_kv_key(kid) != challenge_kv_key(c.jti)
                &&& c.form_id == form_id@
                &&& c.client_key_id == client_key_id.0
                &&& c.aud == old(state).config.origin_bytes()
                &&& c.iss == old(state).config.origin_bytes()
                &&& c.iat == now
                &&& c.exp == sat_add(now, old(state).config.spec_challenge_token_exp())
                &&& (exists|n: Seq<u8>| n.len() == 16
                    && c.nonce_b64 == crate::crypto::b64_of(n))
                &&& forall|k: Seq<u8>| k != server_kv_key(kid) && k != challenge_kv_key(c.jti)
                    ==> kv_entry(final(state).store.0.kv@, k)
                        == kv_entry(old(state).store.0.kv@, k)
            }),
{
    let server_key_id = ServerKeyId::new();
    let ephemeral_server_key = EphemeralServerKey::generate();
    state.store.0.store_ephemeral_server_key(&server_key_id, &ephemeral_server_key,
        state.config.server_key_ttl(), now);
    let challenge_id = ChallengeId::new();
    state.store.0.store_challenge_id(&challenge_id, state.config.challenge_ttl(), now);
    let challenge = ApiChallenge {
        server_key_id,
        form_id: form_id.clone_id(),
        client_key_id,
        challenge_id,
        nonce: ApiChallengeNonce::generate(),
        origin: state.config.origin_text(),
        exp: state.config.challenge_token_exp(),
    };
    let signed_challenge = challenge.encode(&ephemeral_server_key, now);
    let resp = GetApiChallengeResponse { challenge: signed_challenge };
    proof {
        let kid = challenge.server_key_id@;
        let secret = ephemeral_server_key@;
        let c = challenge.claims_at(now);
        crate::store::lemma_kv_namespaces(kid, challenge.challenge_id@);
        assert(claims_wf_ch(c));
        assert(is_canonical_challenge(resp.challenge@, secret, kid, c));
        assert(kv_entry(state.store.0.kv@, server_kv_key(kid))
            == Some((secret, sat_add(now, sat_add(sat_add(0,
                old(state).config.spec_access_token_exp()),
                old(state).config.spec_access_token_exp())))));
        assert(kv_entry(state.store.0.kv@, challenge_kv_key(c.jti))
            == Some((Seq::<u8>::empty(), sat_add(now, sat_add(sat_add(0,
                old(state).config.spec_challenge_token_exp()),
                old(state).config.spec_challenge_token_exp())))));
        assert(exists|n: Seq<u8>| n.len() == 16 && c.nonce_b64 == crate::crypto::b64_of(n)) by {
            assert(challenge.nonce@.len() == 16
                && c.nonce_b64 == crate::crypto::b64_of(challenge.nonce@));
        }
        assert(c.form_id == form_id@);
        assert(c.aud == old(state).config.origin_bytes());
        assert(c.iss == old(state).config.origin_bytes());
        assert(c.iat == now);
        assert(c.exp == sat_add(now, old(state).config.spec_challenge_token_exp()));
        assert(forall|k: Seq<u8>| k != server_kv_key(kid) && k != challenge_kv_key(c.jti)
            ==> kv_entry(state.store.0.kv@, k) == kv_entry(old(state).store.0.kv@, k));
        assert(exists|kid2: Seq<u8>, secret2: Seq<u8>, c2: ChallengeClaimsV|
            ({
                &&& #[trigger] is_canonical_challenge(resp.challenge@, secret2, kid2, c2)
                &&& kv_entry(state.store.0.kv@, server_kv_key(kid2))
                    == Some((secret2, sat_add(now, sat_add(sat_add(0,
                        old(state).config.spec_access_token_exp()),
                        old(state).config.spec_access_token_exp()))))
                &&& kv_entry(state.store.0.kv@, challenge_kv_key(c2.jti))
                    == Some((Seq::<u8>::empty(), sat_add(now, sat_add(sat_add(0,
                        old(state).config.spec_challenge_token_exp()),
                        old(state).config.spec_challenge_token_exp()))))
                &&& server_kv_key(kid2) != challenge_kv_key(c2.jti)
                &&& c2.form_id == form_id@
                &&& c2.client_key_id == client_key_id.0
                &&& c2.aud == old(state).config.origin_bytes()
                &&& c2.iss == old(state).config.origin_bytes()
                &&& c2.iat == now
                &&& c2.exp == sat_add(now, old(state).config.spec_challenge_token_exp())
                &&& (exists|n: Seq<u8>| n.len() == 16
                    && c2.nonce_b64 == crate::crypto::b64_of(n))
                &&& forall|k: Seq<u8>| k != server_kv_key(kid2)
                    && k != challenge_kv_key(c2.jti)
                    ==> kv_entry(state.store.0.kv@, k)
                        == kv_entry(old(state).store.0.kv@, k)
            })) by {
            assert(is_canonical_challenge(resp.challenge@, secret, kid, c));
        }
    }
    resp
}

/// `POST /tokens`: trade a consumed challenge and a valid signature for an
/// access token signed by the same ephemeral key.
pub fn request_access_token(state: &mut AppState, body: PostTokenRequest, now: u64) -> (r:
    Result<PostTokenResponse, ErrorCode>)
    requires
        old(state).store.0.wf(),
    ensures
        final(state).store.0.wf(),
        final(state).store.0.forms@ == old(state).store.0.forms@,
        final(state).config == old(state).config,
        r matches Err(e) ==> e == ErrorCode::Unauthorized,
        forall|kid: Seq<u8>, c: ChallengeClaimsV, secret: Seq<u8>|
            live_canonical_challenge(old(state).store.0, body.challenge@, now, kid, c, secret)
            ==> ({
                let window = claims_window_ok(c.aud, c.iss, c.iat, c.exp,
                    old(state).config.origin_bytes(), now);
                let live_jti = kv_live(old(state).store.0.kv@, challenge_kv_key(c.jti), now)
                    is Some;
                let have_key = has_form_key(old(state).store.0.forms@, c.form_id,
                    c.client_key_id);
                let row = spec_key(spec_form(old(state).store.0.forms@, c.form_id).keys@,
                    c.client_key_id);
                let passes = window && live_jti && have_key
                    && sig_ok_for(c.nonce_b64, row.public_signing_key@, body.signature@);
                &&& (!window || !live_jti ==> r is Err
                    && final(state).store.0 == old(state).store.0)
                &&& (window && live_jti && !passes ==> r is Err
                    && kv_consumed(old(state).store.0, final(state).store.0, c.jti))
                &&& (passes ==> (r matches Ok(resp)
                    && is_canonical_access(resp.token@, secret, kid, (AccessClaimsV {
                        role: row.role,
                        form_id: c.form_id,
                        client_key_id: c.client_key_id,
                        aud: c.iss,
                        iss: c.iss,
                        iat: now,
                        exp: sat_add(now, old(state).config.spec_access_token_exp()),
                    }))
                    && kv_consumed(old(state).store.0, final(state).store.0, c.jti)))
            }),
        forall|kid: Seq<u8>, c: AccessClaimsV, secret: Seq<u8>|
            live_canonical_access(old(state).store.0, body.challenge@, now, kid, c, secret)
            ==> r is Err && final(state).store.0 == old(state).store.0,
        // The call's whole footprint: either nothing changed, or exactly
        // the single-use marker of the jti the presented challenge itself
        // carries was consumed. Substituting any other string for a genuine
        // challenge can never consume that genuine challenge.
        final(state).store.0 == old(state).store.0 || (exists|c: ChallengeClaimsV,
            secret: Seq<u8>| #[trigger] challenge_rel(body.challenge@, secret, c)
                && kv_consumed(old(state).store.0, final(state).store.0, c.jti)),
        // A token is issued only for a well-signed challenge under a live
        // ephemeral key that passes every check.
        r is Ok ==> (exists|kid: Seq<u8>, c: ChallengeClaimsV, secret: Seq<u8>|
            #![trigger challenge_rel(body.challenge@, secret, c), server_kv_key(kid)]
            ({
                let row = spec_key(spec_form(old(state).store.0.forms@, c.form_id).keys@,
                    c.client_key_id);
                &&& kv_live(old(state).store.0.kv@, server_kv_key(kid), now) == Some(secret)
                &&& kid_rel(body.challenge@, kid)
                &&& challenge_rel(body.challenge@, secret, c)
                &&& claims_window_ok(c.aud, c.iss, c.iat, c.exp,
                    old(state).config.origin_bytes(), now)
                &&& kv_live(old(state).store.0.kv@, challenge_kv_key(c.jti), now) is Some
                &&& has_form_key(old(state).store.0.forms@, c.form_id, c.client_key_id)
                &&& sig_ok_for(c.nonce_b64, row.public_signing_key@, body.signature@)
                &&& kv_consumed(old(state).store.0, final(state).store.0, c.jti)
            })),
{
    let response = ApiChallengeResponse { signature: body.signature, challenge: body.challenge };
    let ghost s0 = old(state).store.0;
    let ghost t = response.challenge@;
    let ghost sg = response.signature@;
    let ghost origin = old(state).config.origin_bytes();
    let vres = response.validate(&mut state.store.0, &state.config, now);
    let ghost smid = state.store.0;
    let validated = match vres {
        Ok(v) => v,
        Err(_) => {
            proof {
                assert forall|kid: Seq<u8>, c: ChallengeClaimsV, secret: Seq<u8>|
                    live_canonical_challenge(s0, t, now, kid, c, secret) implies ({
                    let window = claims_window_ok(c.aud, c.iss, c.iat, c.exp, origin, now);
                    let live_jti = kv_live(s0.kv@, challenge_kv_key(c.jti), now) is Some;
                    let have_key = has_form_key(s0.forms@, c.form_id, c.client_key_id);
                    let row = spec_key(spec_form(s0.forms@, c.form_id).keys@, c.client_key_id);
                    let passes = window && live_jti && have_key
                        && sig_ok_for(c.nonce_b64, row.public_signing_key@, sg);
                    &&& (!window || !live_jti ==> smid == s0)
                    &&& (window && live_jti && !passes ==> kv_consumed(s0, smid, c.jti))
                    &&& !passes
                }) by {
                    assert(challenge_case(s0, smid, vres, kid, c, sg, origin, now));
                }
            }
            return Err(ErrorCode::Unauthorized);
        },
    };
    let server_key_id = validated.server_key_id();
    let key = match state.store.0.get_ephemeral_server_key(&server_key_id, now) {
        Some(k) => k,
        None => {
            // The consumed challenge already guards replays; the key can
            // only have expired between the two reads.
            proof {
                assert forall|kid: Seq<u8>, c: ChallengeClaimsV, secret: Seq<u8>|
                    live_canonical_challenge(s0, t, now, kid, c, secret) implies false by {
                    assert(challenge_case(s0, smid, vres, kid, c, sg, origin, now));
                    crate::store::lemma_kv_namespaces(kid, c.jti);
                    assert(kv_entry(smid.kv@, server_kv_key(kid))
                        == kv_entry(s0.kv@, server_kv_key(kid)));
                    assert(validated.challenge.server_key_id@ == kid);
                    assert(kv_live(smid.kv@, server_kv_key(kid), now) == Some(secret));
                }
                assert forall|kid: Seq<u8>, c: AccessClaimsV, secret: Seq<u8>|
                    live_canonical_access(s0, t, now, kid, c, secret) implies false by {}
            }
            return Err(ErrorCode::Unauthorized);
        },
    };
    let exp = state.config.access_token_exp();
    let token = validated.into_access_token(&key, exp, now);
    proof {
        assert forall|kid: Seq<u8>, c: ChallengeClaimsV, secret: Seq<u8>|
            live_canonical_challenge(s0, t, now, kid, c, secret) implies ({
            let window = claims_window_ok(c.aud, c.iss, c.iat, c.exp, origin, now);
            let live_jti = kv_live(s0.kv@, challenge_kv_key(c.jti), now) is Some;
            let have_key = has_form_key(s0.forms@, c.form_id, c.client_key_id);
            let row = spec_key(spec_form(s0.forms@, c.form_id).keys@, c.client_key_id);
            let passes = window && live_jti && have_key
                && sig_ok_for(c.nonce_b64, row.public_signing_key@, sg);
            &&& passes
            &&& is_canonical_access(token@, secret, kid, (AccessClaimsV {
                role: row.role,
                form_id: c.form_id,
                client_key_id: c.client_key_id,
                aud: c.iss,
                iss: c.iss,
                iat: now,
                exp: sat_add(now, old(state).config.spec_access_token_exp()),
            }))
            &&& kv_consumed(s0, smid, c.jti)
        }) by {
            let row = spec_key(spec_form(s0.forms@, c.form_id).keys@, c.client_key_id);
            assert(challenge_case(s0, smid, vres, kid, c, sg, origin, now));
            crate::store::lemma_kv_namespaces(kid, c.jti);
            assert(kv_entry(smid.kv@, server_kv_key(kid))
                == kv_entry(s0.kv@, server_kv_key(kid)));
            assert(kv_live(smid.kv@, server_kv_key(kid), now) == Some(secret));
            assert(key@ == secret);
            assert(validated.challenge.server_key_id@ == kid);
            assert(validated.access_claims_at(exp, now) == (AccessClaimsV {
                role: row.role,
                form_id: c.form_id,
                client_key_id: c.client_key_id,
                aud: c.iss,
                iss: c.iss,
                iat: now,
                exp: sat_add(now, old(state).config.spec_access_token_exp()),
            }));
            assert(claims_wf_ac(validated.access_claims_at(exp, now)));
        }
        assert forall|kid: Seq<u8>, c: AccessClaimsV, secret: Seq<u8>|
            live_canonical_access(s0, t, now, kid, c, secret) implies false by {}
    }
    Ok(PostTokenResponse { token })
}

/// The access gate every protected handler passes through first: the
/// common ensures of these handlers quantify over canonical access tokens
/// and relate the outcome to `gate_refusals` and `gate_passes`.
fn gate(state: &mut AppState, token: &SignedApiAccessToken, form_id: &FormId,
    needs_role: AccessRole, now: u64) -> (r: Result<AccessRole, ErrorCode>)
    requires
        old(state).store.0.wf(),
        now <= MAX_TIMESTAMP,
    ensures
        final(state).store.0.wf(),
        final(state).config == old(state).config,
        r is Err ==> final(state).store.0 == old(state).store.0,
        r is Ok ==> has_form(old(state).store.0.forms@, form_id@)
            && has_form(final(state).store.0.forms@, form_id@),
        r matches Ok(granted) ==> authorized_bearer(old(state).store.0, token@, form_id@,
            needs_role, granted, old(state).config.origin_bytes(), now),
        forall|kid: Seq<u8>, c: AccessClaimsV, secret: Seq<u8>|
            live_canonical_access(old(state).store.0, token@, now, kid, c, secret)
            ==> gate_refusals(old(state).store.0, r, c, form_id@, needs_role,
                old(state).config.origin_bytes(), now,
                final(state).store.0 == old(state).store.0)
                && (gate_passes(old(state).store.0, c, form_id@, needs_role,
                    old(state).config.origin_bytes(), now) ==> ((r matches Ok(role)
                    && role == spec_key(spec_form(old(state).store.0.forms@, c.form_id).keys@,
                        c.client_key_id).role)
                    && logged(old(state).store.0, final(state).store.0, c.form_id,
                        c.client_key_id, now))),
        forall|kid: Seq<u8>, c: ChallengeClaimsV, secret: Seq<u8>|
            live_canonical_challenge(old(state).store.0, token@, now, kid, c, secret)
            ==> (r matches Err(e) && e == ErrorCode::Unauthorized)
                && final(state).store.0 == old(state).store.0,
        forall|kid: Seq<u8>, payload: Seq<u8>, secret: Seq<u8>|
            token_wf(token@, kid, payload, secret)
                && kv_live(old(state).store.0.kv@, server_kv_key(kid), now) is None
            ==> (r matches Err(e) && e == ErrorCode::Unauthorized)
                && final(state).store.0 == old(state).store.0,
{
    let ghost s0 = old(state).store.0;
    let vres = token.validate(&mut state.store, &state.config, form_id, needs_role, now);
    match vres {
        Ok(role) => {
            proof {
                assert forall|kid: Seq<u8>, c: AccessClaimsV, secret: Seq<u8>|
                    live_canonical_access(s0, token@, now, kid, c, secret)
                    implies gate_refusals(s0, Ok::<AccessRole, ErrorCode>(role), c, form_id@,
                        needs_role, old(state).config.origin_bytes(), now,
                        state.store.0 == s0)
                        && (gate_passes(s0, c, form_id@, needs_role,
                            old(state).config.origin_bytes(), now) ==> ((role == spec_key(
                            spec_form(s0.forms@, c.form_id).keys@, c.client_key_id).role)
                            && logged(s0, state.store.0, c.form_id, c.client_key_id,
                                now))) by {
                    assert(crate::auth::access_case(s0, state.store.0, vres, c, form_id@,
                        needs_role, old(state).config.origin_bytes(), now));
                }
            }
            Ok(role)
        },
        Err(e) => {
            let code = auth_err(&e);
            proof {
                assert forall|kid: Seq<u8>, c: AccessClaimsV, secret: Seq<u8>|
                    live_canonical_access(s0, token@, now, kid, c, secret)
                    implies gate_refusals(s0, Err::<AccessRole, ErrorCode>(code), c, form_id@,
                        needs_role, old(state).config.origin_bytes(), now,
                        state.store.0 == s0)
                        && !gate_passes(s0, c, form_id@, needs_role,
                            old(state).config.origin_bytes(), now) by {
                    assert(crate::auth::access_case(s0, state.store.0, vres, c, form_id@,
                        needs_role, old(state).config.origin_bytes(), now));
                }
            }
            Err(code)
        },
    }
}

/// `GET /submissions/:form_id` (read role): the stored ciphertexts, newest
/// first, with their creation times in RFC 3339.
pub fn list_form_submissions(state: &mut AppState, token: &SignedApiAccessToken,
    form_id: &FormId, now: u64) -> (r: Result<Vec<ListSubmissionsResponse>, ErrorCode>)
    requires
        old(state).store.0.wf(),
        now <= MAX_TIMESTAMP,
    ensures
        final(state).store.0.wf(),
        final(state).config == old(state).config,
        r is Err ==> final(state).store.0 == old(state).store.0,
        // An accepted bearer certifies a well-signed access token under a
        // live ephemeral key passing every check.
        r is Ok ==> (exists|granted: AccessRole| authorized_bearer(
            old(state).store.0, token@, form_id@, AccessRole::Read, granted,
            old(state).config.origin_bytes(), now)),
        forall|kid: Seq<u8>, c: AccessClaimsV, secret: Seq<u8>|
            live_canonical_access(old(state).store.0, token@, now, kid, c, secret)
            ==> gate_refusals(old(state).store.0, r, c, form_id@, AccessRole::Read,
                old(state).config.origin_bytes(), now,
                final(state).store.0 == old(state).store.0)
                && (gate_passes(old(state).store.0, c, form_id@, AccessRole::Read,
                    old(state).config.origin_bytes(), now) ==> (r matches Ok(list) && ({
                    let subs = spec_form(old(state).store.0.forms@, form_id@).submissions@;
                    &&& list@.len() == subs.len()
                    &&& forall|i: int| 0 <= i < list@.len()
                        ==> (#[trigger] list@[i]).encrypted_body@
                            == subs[subs.len() - 1 - i].encrypted_body@
                            && list@[i].created_at@
                                == rfc3339_of(subs[subs.len() - 1 - i].created_at)
                }))),
        forall|kid: Seq<u8>, c: ChallengeClaimsV, secret: Seq<u8>|
            live_canonical_challenge(old(state).store.0, token@, now, kid, c, secret)
            ==> (r matches Err(e) && e == ErrorCode::Unauthorized),
        forall|kid: Seq<u8>, payload: Seq<u8>, secret: Seq<u8>|
            token_wf(token@, kid, payload, secret)
                && kv_live(old(state).store.0.kv@, server_kv_key(kid), now) is None
            ==> (r matches Err(e) && e == ErrorCode::Unauthorized),
{
    let ghost s0 = old(state).store.0;
    if let Err(e) = gate(state, token, form_id, AccessRole::Read, now) {
        return Err(e);
    }
    let submissions = state.store.0.list_submissions(form_id);
    let mut out: Vec<ListSubmissionsResponse> = Vec::new();
    let n: usize = submissions.len();
    let ghost subs = spec_form(state.store.0.forms@, form_id@).submissions@;
    proof {
        assert(has_form(state.store.0.forms@, form_id@));
        assert(state.store.0.forms@[crate::store::form_idx(state.store.0.forms@,
            form_id@)].wf());
    }
    for i in 0..n
        invariant
            n == submissions@.len(),
            n == subs.len(),
            forall|k: int| 0 <= k < n ==> (#[trigger] submissions@[k]).dv()
                == (subs[subs.len() - 1 - k].encrypted_body@,
                    subs[subs.len() - 1 - k].created_at),
            forall|k: int| 0 <= k < n
                ==> (#[trigger] subs[k]).created_at <= MAX_TIMESTAMP,
            out@.len() == i,
            forall|k: int| 0 <= k < i ==> (#[trigger] out@[k]).encrypted_body@
                == subs[subs.len() - 1 - k].encrypted_body@
                && out@[k].created_at@ == rfc3339_of(subs[subs.len() - 1 - k].created_at),
    {
        let s = &submissions[i];
        out.push(ListSubmissionsResponse {
            encrypted_body: s.encrypted_body.clone_body(),
            created_at: rfc3339_utc(s.created_at),
        });
    }
    Ok(out)
}

/// `DELETE /forms/:form_id` (admin role): delete the form and everything
/// it owns.
pub fn delete_form(state: &mut AppState, token: &SignedApiAccessToken, form_id: &FormId,
    now: u64) -> (r: Result<(), ErrorCode>)
    requires
        old(state).store.0.wf(),
        now <= MAX_TIMESTAMP,
    ensures
        final(state).store.0.wf(),
        final(state).config == old(state).config,
        r is Err ==> final(state).store.0 == old(state).store.0,
        // An accepted bearer certifies a well-signed access token under a
        // live ephemeral key passing every check.
        r is Ok ==> (exists|granted: AccessRole| authorized_bearer(
            old(state).store.0, token@, form_id@, AccessRole::Admin, granted,
            old(state).config.origin_bytes(), now)),
        forall|kid: Seq<u8>, c: AccessClaimsV, secret: Seq<u8>|
            live_canonical_access(old(state).store.0, token@, now, kid, c, secret)
            ==> gate_refusals(old(state).store.0, r, c, form_id@, AccessRole::Admin,
                old(state).config.origin_bytes(), now,
                final(state).store.0 == old(state).store.0)
                && (gate_passes(old(state).store.0, c, form_id@, AccessRole::Admin,
                    old(state).config.origin_bytes(), now) ==> (r is Ok
                    && !has_form(final(state).store.0.forms@, form_id@)
                    && final(state).store.0.kv@ == old(state).store.0.kv@
                    && (forall|k: Seq<u8>| k != form_id@
                        ==> form_entry(final(state).store.0.forms@, k)
                            == form_entry(old(state).store.0.forms@, k)))),
        forall|kid: Seq<u8>, c: ChallengeClaimsV, secret: Seq<u8>|
            live_canonical_challenge(old(state).store.0, token@, now, kid, c, secret)
            ==> (r matches Err(e) && e == ErrorCode::Unauthorized),
        forall|kid: Seq<u8>, payload: Seq<u8>, secret: Seq<u8>|
            token_wf(token@, kid, payload, secret)
                && kv_live(old(state).store.0.kv@, server_kv_key(kid), now) is None
            ==> (r matches Err(e) && e == ErrorCode::Unauthorized),
{
    if let Err(e) = gate(state, token, form_id, AccessRole::Admin, now) {
        return Err(e);
    }
    state.store.0.delete_form(form_id);
    Ok(())
}

/// `PATCH /forms/:form_id` (admin role): replace the template and expiry.
pub fn edit_form(state: &mut AppState, token: &SignedApiAccessToken, form_id: &FormId,
    body: PatchFormRequest, now: u64) -> (r: Result<(), ErrorCode>)
    requires
        old(state).store.0.wf(),
        now <= MAX_TIMESTAMP,
    ensures
        final(state).store.0.wf(),
        final(state).config == old(state).config,
        // An accepted bearer certifies a well-signed access token under a
        // live ephemeral key passing every check.
        r is Ok ==> (exists|granted: AccessRole| authorized_bearer(
            old(state).store.0, token@, form_id@, AccessRole::Admin, granted,
            old(state).config.origin_bytes(), now)),
        forall|kid: Seq<u8>, c: AccessClaimsV, secret: Seq<u8>|
            live_canonical_access(old(state).store.0, token@, now, kid, c, secret)
            ==> gate_refusals(old(state).store.0, r, c, form_id@, AccessRole::Admin,
                old(state).config.origin_bytes(), now,
                final(state).store.0 == old(state).store.0)
                && (gate_passes(old(state).store.0, c, form_id@, AccessRole::Admin,
                    old(state).config.origin_bytes(), now)
                    && (body.expires_at matches Some(s) ==> rfc3339_secs_of(s@) is Some)
                    ==> (r is Ok && has_form(final(state).store.0.forms@, form_id@) && ({
                    let f = spec_form(final(state).store.0.forms@, form_id@);
                    &&& f.template.dv() == (FORM_TEMPLATE_CURRENT_VERSION, body.org_name@,
                        body.description@, body.contact_methods.deep_view())
                    &&& (match body.expires_at {
                        Some(ref s) => rfc3339_secs_of(s@) matches Some(e)
                            && f.expires_at == Some(e),
                        None => f.expires_at is None,
                    })
                }))),
{
    if let Err(e) = gate(state, token, form_id, AccessRole::Admin, now) {
        return Err(e);
    }
    let expires_at: Option<i64> = match body.expires_at {
        Some(ref s) => match parse_rfc3339(s.as_str()) {
            Some(e) => Some(e),
            None => {
                // An unparseable expiry is surfaced as an internal
                // failure, matching how malformed timestamps were always
                // reported.
                return Err(ErrorCode::Internal);
            },
        },
        None => None,
    };
    let update = FormUpdate {
        template: FormTemplate {
            version: FORM_TEMPLATE_CURRENT_VERSION,
            org_name: body.org_name,
            description: body.description,
            contact_methods: body.contact_methods,
        },
        expires_at,
    };
    state.store.0.edit_form(form_id, update);
    Ok(())
}

/// `GET /keys/:form_id/:client_key_id` (read role): one key holder's
/// wrapped copy of the form's private primary key.
pub fn get_key(state: &mut AppState, token: &SignedApiAccessToken, form_id: &FormId,
    key_id: ClientKeyId, now: u64) -> (r: Result<GetKeyResponse, ErrorCode>)
    requires
        old(state).store.0.wf(),
        now <= MAX_TIMESTAMP,
    ensures
        final(state).store.0.wf(),
        final(state).config == old(state).config,
        // An accepted bearer certifies a well-signed access token under a
        // live ephemeral key passing every check.
        r is Ok ==> (exists|granted: AccessRole| authorized_bearer(
            old(state).store.0, token@, form_id@, AccessRole::Read, granted,
            old(state).config.origin_bytes(), now)),
        forall|kid: Seq<u8>, c: AccessClaimsV, secret: Seq<u8>|
            live_canonical_access(old(state).store.0, token@, now, kid, c, secret)
            ==> gate_refusals(old(state).store.0, r, c, form_id@, AccessRole::Read,
                old(state).config.origin_bytes(), now,
                final(state).store.0 == old(state).store.0)
                && (gate_passes(old(state).store.0, c, form_id@, AccessRole::Read,
                    old(state).config.origin_bytes(), now)
                    && has_form_key(old(state).store.0.forms@, form_id@, key_id.0)
                    ==> (r matches Ok(resp) && ({
                    let row = spec_key(spec_form(old(state).store.0.forms@, form_id@).keys@,
                        key_id.0);
                    match resp.wrapped_private_primary_key {
                        Some(w) => row.wrapped_private_primary_key matches Some(w0)
                            && w@ == w0@,
                        None => row.wrapped_private_primary_key is None,
                    }
                })))
                && (gate_passes(old(state).store.0, c, form_id@, AccessRole::Read,
                    old(state).config.origin_bytes(), now)
                    && !has_form_key(old(state).store.0.forms@, form_id@, key_id.0)
                    ==> (r matches Err(e) && e == ErrorCode::NotFound)),
        forall|kid: Seq<u8>, c: ChallengeClaimsV, secret: Seq<u8>|
            live_canonical_challenge(old(state).store.0, token@, now, kid, c, secret)
            ==> (r matches Err(e) && e == ErrorCode::Unauthorized),
{
    if let Err(e) = gate(state, token, form_id, AccessRole::Read, now) {
        return Err(e);
    }
    let keys = match state.store.0.get_client_keys(form_id, key_id) {
        Some(k) => k,
        None => {
            return Err(ErrorCode::NotFound);
        },
    };
    Ok(GetKeyResponse { wrapped_private_primary_key: keys.wrapped_private_primary_key })
}

/// One listed key matches a stored row: same key id, encrypted comment
/// and role, and the recorded last-access time formatted in RFC 3339.
pub open spec fn listed_key_matches(e: ListKeysResponse, f: crate::store::FormRow,
    i: int) -> bool {
    let row = f.keys@[i];
    &&& e.client_key_id.0 == row.id
    &&& e.encrypted_comment@ == row.encrypted_comment@
    &&& e.role == row.role
    &&& (match crate::store::spec_accessed_at(f.access_log@, row.id) {
        Some(ts) => e.accessed_at matches Some(s) && s@ == rfc3339_of(ts),
        None => e.accessed_at is None,
    })
}

/// `GET /keys/:form_id` (admin role): every key holder of the form, with
/// comments, roles, and last-access times.
pub fn list_keys(state: &mut AppState, token: &SignedApiAccessToken, form_id: &FormId,
    now: u64) -> (r: Result<Vec<ListKeysResponse>, ErrorCode>)
    requires
        old(state).store.0.wf(),
        now <= MAX_TIMESTAMP,
    ensures
        final(state).store.0.wf(),
        final(state).config == old(state).config,
        // An accepted bearer certifies a well-signed access token under a
        // live ephemeral key passing every check.
        r is Ok ==> (exists|granted: AccessRole| authorized_bearer(
            old(state).store.0, token@, form_id@, AccessRole::Admin, granted,
            old(state).config.origin_bytes(), now)),
        forall|kid: Seq<u8>, c: AccessClaimsV, secret: Seq<u8>|
            live_canonical_access(old(state).store.0, token@, now, kid, c, secret)
            ==> gate_refusals(old(state).store.0, r, c, form_id@, AccessRole::Admin,
                old(state).config.origin_bytes(), now,
                final(state).store.0 == old(state).store.0)
                && (gate_passes(old(state).store.0, c, form_id@, AccessRole::Admin,
                    old(state).config.origin_bytes(), now) ==> (r matches Ok(list) && ({
                    // The listing reflects the store after this call's own
                    // access-log append.
                    let f = spec_form(final(state).store.0.forms@, form_id@);
                    &&& list@.len() == f.keys@.len()
                    &&& f.keys@ == spec_form(old(state).store.0.forms@, form_id@).keys@
                    &&& forall|i: int| 0 <= i < list@.len()
                        ==> listed_key_matches(#[trigger] list@[i], f, i)
                }))),
        forall|kid: Seq<u8>, c: ChallengeClaimsV, secret: Seq<u8>|
            live_canonical_challenge(old(state).store.0, token@, now, kid, c, secret)
            ==> (r matches Err(e) && e == ErrorCode::Unauthorized),
{
    let ghost s0 = old(state).store.0;
    if let Err(e) = gate(state, token, form_id, AccessRole::Admin, now) {
        return Err(e);
    }
    let keys = state.store.0.list_client_keys(form_id);
    let ghost f = spec_form(state.store.0.forms@, form_id@);
    let ghost krows = f.keys@;
    proof {
        assert(has_form(state.store.0.forms@, form_id@));
        assert(state.store.0.forms@[crate::store::form_idx(state.store.0.forms@,
            form_id@)].wf());
        assert forall|k: int| 0 <= k < keys@.len()
            implies (#[trigger] keys@[k]).dv() == crate::store::client_keys_dv(f, k)
                && (match keys@[k].accessed_at {
                    Some(ts) => ts <= MAX_TIMESTAMP,
                    None => true,
                }) by {
            crate::store::lemma_accessed_at_bound(f.access_log@, f.keys@[k].id);
        }
    }
    let mut out: Vec<ListKeysResponse> = Vec::new();
    let n: usize = keys.len();
    for i in 0..n
        invariant
            n == keys@.len(),
            n == krows.len(),
            krows == f.keys@,
            forall|k: int| 0 <= k < n
                ==> (#[trigger] keys@[k]).dv() == crate::store::client_keys_dv(f, k),
            forall|k: int| 0 <= k < n
                ==> (match (#[trigger] keys@[k]).accessed_at {
                    Some(ts) => ts <= MAX_TIMESTAMP,
                    None => true,
                }),
            out@.len() == i,
            forall|k: int| 0 <= k < i ==> listed_key_matches(#[trigger] out@[k], f, k),
        decreases n - i,
    {
        let row = &keys[i];
        proof {
            assert(keys@[i as int].dv() == crate::store::client_keys_dv(f, i as int));
            assert(match keys@[i as int].accessed_at {
                Some(ts) => ts <= MAX_TIMESTAMP,
                None => true,
            });
        }
        let accessed_at: Option<String> = match row.accessed_at {
            Some(ts) => Some(rfc3339_utc(ts)),
            None => None,
        };
        out.push(ListKeysResponse {
            client_key_id: row.id,
            encrypted_comment: row.encrypted_comment.clone_comment(),
            role: row.role,
            accessed_at,
        });
    }
    Ok(out)
}

/// `POST /keys/:form_id` (admin role): register a new key holder, with
/// their public signing key and their wrapped copy of the primary key.
pub fn add_key(state: &mut AppState, token: &SignedApiAccessToken, form_id: &FormId,
    body: PostKeyRequest, now: u64) -> (r: Result<PostKeyResponse, ErrorCode>)
    requires
        old(state).store.0.wf(),
        body.public_signing_key.wf(),
        now <= MAX_TIMESTAMP,
    ensures
        final(state).store.0.wf(),
        final(state).config == old(state).config,
        // An accepted bearer certifies a well-signed access token under a
        // live ephemeral key passing every check.
        r is Ok ==> (exists|granted: AccessRole| authorized_bearer(
            old(state).store.0, token@, form_id@, AccessRole::Admin, granted,
            old(state).config.origin_bytes(), now)),
        forall|kid: Seq<u8>, c: AccessClaimsV, secret: Seq<u8>|
            live_canonical_access(old(state).store.0, token@, now, kid, c, secret)
            ==> gate_refusals(old(state).store.0, r, c, form_id@, AccessRole::Admin,
                old(state).config.origin_bytes(), now,
                final(state).store.0 == old(state).store.0)
                && (gate_passes(old(state).store.0, c, form_id@, AccessRole::Admin,
                    old(state).config.origin_bytes(), now)
                    && spec_form(old(state).store.0.forms@, form_id@).next_key_id < u64::MAX
                    ==> (r matches Ok(resp) && ({
                    let f0 = spec_form(old(state).store.0.forms@, form_id@);
                    let f = spec_form(final(state).store.0.forms@, form_id@);
                    &&& resp.client_key_id.0 == f0.next_key_id
                    &&& has_key(f.keys@, resp.client_key_id.0)
                    &&& spec_key(f.keys@, resp.client_key_id.0).public_signing_key@
                        == body.public_signing_key@
                    &&& spec_key(f.keys@, resp.client_key_id.0).role == body.role
                    &&& (spec_key(f.keys@, resp.client_key_id.0).wrapped_private_primary_key
                        matches Some(w) && w@ == body.wrapped_private_primary_key@)
                    &&& spec_key(f.keys@, resp.client_key_id.0).encrypted_comment@
                        == body.encrypted_comment@
                    &&& f.keys@.len() == f0.keys@.len() + 1
                }))),
        forall|kid: Seq<u8>, c: ChallengeClaimsV, secret: Seq<u8>|
            live_canonical_challenge(old(state).store.0, token@, now, kid, c, secret)
            ==> (r matches Err(e) && e == ErrorCode::Unauthorized),
{
    let ghost s0 = old(state).store.0;
    if let Err(e) = gate(state, token, form_id, AccessRole::Admin, now) {
        return Err(e);
    }
    let ghost smid = state.store.0;
    let ghost psk = body.public_signing_key@;
    let ghost role = body.role;
    let client_key_id = match state.store.0.store_client_keys(form_id,
        body.public_signing_key, Some(body.wrapped_private_primary_key),
        body.encrypted_comment, body.role) {
        Some(id) => id,
        None => {
            return Err(ErrorCode::NotFound);
        },
    };
    proof {
        let f1 = spec_form(smid.forms@, form_id@);
        let f = spec_form(state.store.0.forms@, form_id@);
        assert(f.keys@ == f1.keys@.push(f.keys@.last()));
        assert(f.keys@.last().id == client_key_id.0);
        crate::store::lemma_key_last(f.keys@, client_key_id.0);
    }
    Ok(PostKeyResponse { client_key_id })
}

/// `PATCH /keys/:form_id/:client_key_id` (admin role): replace the wrapped
/// primary key and/or the encrypted comment; roles never change this way.
pub fn update_key(state: &mut AppState, token: &SignedApiAccessToken, form_id: &FormId,
    key_id: ClientKeyId, body: PatchKeyRequest, now: u64) -> (r: Result<(), ErrorCode>)
    requires
        old(state).store.0.wf(),
        now <= MAX_TIMESTAMP,
    ensures
        final(state).store.0.wf(),
        final(state).config == old(state).config,
        // An accepted bearer certifies a well-signed access token under a
        // live ephemeral key passing every check.
        r is Ok ==> (exists|granted: AccessRole| authorized_bearer(
            old(state).store.0, token@, form_id@, AccessRole::Admin, granted,
            old(state).config.origin_bytes(), now)),
        forall|kid: Seq<u8>, c: AccessClaimsV, secret: Seq<u8>|
            live_canonical_access(old(state).store.0, token@, now, kid, c, secret)
            ==> gate_refusals(old(state).store.0, r, c, form_id@, AccessRole::Admin,
                old(state).config.origin_bytes(), now,
                final(state).store.0 == old(state).store.0)
                && (gate_passes(old(state).store.0, c, form_id@, AccessRole::Admin,
                    old(state).config.origin_bytes(), now)
                    && has_form_key(old(state).store.0.forms@, form_id@, key_id.0)
                    ==> (r is Ok && ({
                    let row0 = spec_key(spec_form(old(state).store.0.forms@, form_id@).keys@,
                        key_id.0);
                    let row = spec_key(spec_form(final(state).store.0.forms@, form_id@).keys@,
                        key_id.0);
                    &&& has_form_key(final(state).store.0.forms@, form_id@, key_id.0)
                    &&& (match body.wrapped_private_primary_key {
                        Some(w) => row.wrapped_private_primary_key matches Some(w1)
                            && w1@ == w@,
                        None => match row.wrapped_private_primary_key {
                            Some(w1) => row0.wrapped_private_primary_key matches Some(w0)
                                && w1@ == w0@,
                            None => row0.wrapped_private_primary_key is None,
                        },
                    })
                    &&& (match body.encrypted_comment {
                        Some(cm) => row.encrypted_comment@ == cm@,
                        None => row.encrypted_comment@ == row0.encrypted_comment@,
                    })
                    &&& row.role == row0.role
                    &&& row.public_signing_key@ == row0.public_signing_key@
                }))),
        forall|kid: Seq<u8>, c: ChallengeClaimsV, secret: Seq<u8>|
            live_canonical_challenge(old(state).store.0, token@, now, kid, c, secret)
            ==> (r matches Err(e) && e == ErrorCode::Unauthorized),
{
    let ghost s0 = old(state).store.0;
    if let Err(e) = gate(state, token, form_id, AccessRole::Admin, now) {
        return Err(e);
    }
    let ghost smid = state.store.0;
    state.store.0.update_client_keys(form_id, key_id, body.wrapped_private_primary_key,
        body.encrypted_comment);
    proof {
        if has_form_key(smid.forms@, form_id@, key_id.0) {
            let f1 = spec_form(smid.forms@, form_id@);
            let j = crate::store::key_idx(f1.keys@, key_id.0);
            let f = spec_form(state.store.0.forms@, form_id@);
            assert(f.keys@ == f1.keys@.update(j, f.keys@[j]));
            assert(f.keys@[j].id == key_id.0);
            crate::store::lemma_key_at(f.keys@, j);
            crate::store::lemma_key_at(f1.keys@, j);
        }
    }
    Ok(())
}

/// `DELETE /keys/:form_id/:client_key_id` (admin role): revoke one key
/// holder; idempotent, and effective immediately for outstanding tokens.
pub fn delete_key(state: &mut AppState, token: &SignedApiAccessToken, form_id: &FormId,
    key_id: ClientKeyId, now: u64) -> (r: Result<(), ErrorCode>)
    requires
        old(state).store.0.wf(),
        now <= MAX_TIMESTAMP,
    ensures
        final(state).store.0.wf(),
        final(state).config == old(state).config,
        // An accepted bearer certifies a well-signed access token under a
        // live ephemeral key passing every check.
        r is Ok ==> (exists|granted: AccessRole| authorized_bearer(
            old(state).store.0, token@, form_id@, AccessRole::Admin, granted,
            old(state).config.origin_bytes(), now)),
        forall|kid: Seq<u8>, c: AccessClaimsV, secret: Seq<u8>|
            live_canonical_access(old(state).store.0, token@, now, kid, c, secret)
            ==> gate_refusals(old(state).store.0, r, c, form_id@, AccessRole::Admin,
                old(state).config.origin_bytes(), now,
                final(state).store.0 == old(state).store.0)
                && (gate_passes(old(state).store.0, c, form_id@, AccessRole::Admin,
                    old(state).config.origin_bytes(), now) ==> (r is Ok
                    && has_form(final(state).store.0.forms@, form_id@)
                    && !has_key(spec_form(final(state).store.0.forms@, form_id@).keys@,
                        key_id.0)
                    && final(state).store.0.kv@ == old(state).store.0.kv@)),
        forall|kid: Seq<u8>, c: ChallengeClaimsV, secret: Seq<u8>|
            live_canonical_challenge(old(state).store.0, token@, now, kid, c, secret)
            ==> (r matches Err(e) && e == ErrorCode::Unauthorized),
{
    if let Err(e) = gate(state, token, form_id, AccessRole::Admin, now) {
        return Err(e);
    }
    state.store.0.delete_client_keys(form_id, key_id);
    Ok(())
}

} // verus!
