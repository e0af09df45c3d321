//! The auth layer: roles, the two kinds of auth failure, the challenge
//! issuer's claims, the challenge validator that turns a signed nonce into
//! an access token, and the access-token validator with its role gate.

use vstd::prelude::*;
use vstd::string::StringSliceAdditionalSpecFns;
use crate::config::Config;
use crate::crypto::{b64_of, ed25519_ok};
use crate::jwt::{ChallengeClaims, ChallengeClaimsV, AccessClaims, AccessClaimsV,
    encode_challenge, encode_access, decode_kid, decode_challenge, decode_access,
    is_canonical_challenge, is_canonical_access, claims_wf_ch, claims_wf_ac, token_wf,
    challenge_payload, access_payload, challenge_rel, access_rel, kid_rel};
use crate::keys::{ApiChallengeNonce, ClientNonceSignature, EphemeralServerKey};
use crate::models::{ChallengeId, ClientKeyId, FormId, ServerKeyId};
use crate::store::{Store, UnauthenticatedStore, sat_add, kv_live, kv_entry, server_kv_key,
    challenge_kv_key, has_form, has_form_key, spec_form, spec_key, form_entry, AccessLogRow};
use crate::text::{clone_bytes, bytes_to_string, string_bytes};
use crate::timefmt::MAX_TIMESTAMP;

verus! {

/// The two kinds of auth-layer failure: the caller could not prove an
/// identity, or proved one that lacks the required permission.
#[derive(Debug, Clone, Copy, PartialEq, Eq, Structural)]
pub enum AuthErrorType {
    Unauthorized,
    Forbidden,
}

/// An auth-layer failure: its kind decides the status code, the message is
/// for the server's own log and never reaches a client.
#[derive(Debug, Clone)]
pub struct AuthError {
    kind: AuthErrorType,
    message: String,
}

impl AuthError {
    /// The kind of this failure.
    pub closed spec fn spec_kind(&self) -> AuthErrorType {
        self.kind
    }

    /// The log message this failure carries.
    pub closed spec fn spec_message(&self) -> Seq<char> {
        self.message@
    }

    pub fn kind(&self) -> (r: AuthErrorType)
        ensures
            r == self.spec_kind(),
    {
        self.kind
    }

    /// The caller could not prove an identity.
    pub fn unauthorized(message: &str) -> (r: Self)
        ensures
            r.spec_kind() == AuthErrorType::Unauthorized,
            r.spec_message() == message@,
    {
        AuthError { kind: AuthErrorType::Unauthorized, message: message.to_owned() }
    }

    /// The caller proved an identity that lacks the required permission.
    pub fn forbidden(message: &str) -> (r: Self)
        ensures
            r.spec_kind() == AuthErrorType::Forbidden,
            r.spec_message() == message@,
    {
        AuthError { kind: AuthErrorType::Forbidden, message: message.to_owned() }
    }

    /// The log message carried by this failure, exactly as it was given to
    /// the constructor.
    pub fn message(&self) -> (r: &str)
        ensures
            r@ == self.spec_message(),
    {
        self.message.as_str()
    }
}

/// The permission level a client key holds on a form: `Admin` has full
/// control of the form, its keys and its submissions; `Read` can only
/// list submissions and fetch its own wrapped key.
#[derive(Debug, Clone, Copy, PartialEq, Eq, Structural)]
pub enum AccessRole {
    Admin,
    Read,
}

/// Whether permissions of role `a` include those of role `b`.
pub open spec fn role_includes(a: AccessRole, b: AccessRole) -> bool {
    a == AccessRole::Admin || b == AccessRole::Read
}

impl AccessRole {
    /// Whether the permissions granted by this role include the
    /// permissions granted by `other`: `Admin` includes everything,
    /// `Read` includes only `Read`.
    pub fn includes(self, other: Self) -> (r: bool)
        ensures
            r == role_includes(self, other),
    {
        match self {
            Self::Admin => true,
            Self::Read => matches!(other, Self::Read),
        }
    }
}

// ---------------------------------------------------------------------------
// Shared claim checks
// ---------------------------------------------------------------------------

/// The claim checks every bearer token must pass: audience and issuer name
/// the configured origin, the token has not expired, and it was not issued
/// after its own expiry.
pub open spec fn claims_window_ok(aud: Seq<u8>, iss: Seq<u8>, iat: u64, exp: u64,
    origin: Seq<u8>, now: u64) -> bool {
    aud == origin && iss == origin && now < exp && iat <= exp
}

/// The submitted signature verifies over the nonce the challenge carries:
/// some byte string encodes to the challenge's nonce text and the
/// signature is valid over it under `pk`.
pub open spec fn sig_ok_for(nonce_b64: Seq<u8>, pk: Seq<u8>, sig: Seq<u8>) -> bool {
    exists|n: Seq<u8>| b64_of(n) == nonce_b64 && ed25519_ok(pk, n, sig)
}

/// The caller could not prove an identity.
pub open spec fn is_unauth<T>(r: Result<T, AuthError>) -> bool {
    r matches Err(e) && e.spec_kind() == AuthErrorType::Unauthorized
}

/// The caller proved an identity that lacks the required permission.
pub open spec fn is_forbidden<T>(r: Result<T, AuthError>) -> bool {
    r matches Err(e) && e.spec_kind() == AuthErrorType::Forbidden
}

/// What an accepted bearer token certifies: some well-signed access token
/// under an ephemeral key live in `s0` carries claims that pass every
/// check for `form` with `needs`, and `granted` is that client key's role.
/// An implementation accepting any other bearer text breaks this.
pub open spec fn authorized_bearer(s0: Store, t: Seq<u8>, form: Seq<u8>, needs: AccessRole,
    granted: AccessRole, origin: Seq<u8>, now: u64) -> bool {
    exists|kid: Seq<u8>, c: AccessClaimsV, secret: Seq<u8>|
        #![trigger access_rel(t, secret, c), server_kv_key(kid)]
        ({
            let row = spec_key(spec_form(s0.forms@, c.form_id).keys@, c.client_key_id);
            &&& kv_live(s0.kv@, server_kv_key(kid), now) == Some(secret)
            &&& kid_rel(t, kid)
            &&& access_rel(t, secret, c)
            &&& claims_window_ok(c.aud, c.iss, c.iat, c.exp, origin, now)
            &&& c.form_id == form
            &&& has_form_key(s0.forms@, c.form_id, c.client_key_id)
            &&& granted == row.role
            &&& role_includes(row.role, needs)
        })
}

/// The store after consuming one challenge id: forms untouched, that
/// challenge entry gone, every other entry kept.
pub open spec fn kv_consumed(s0: Store, s1: Store, jti: Seq<u8>) -> bool {
    &&& s1.forms@ == s0.forms@
    &&& kv_entry(s1.kv@, challenge_kv_key(jti)) is None
    &&& forall|k: Seq<u8>| k != challenge_kv_key(jti)
        ==> kv_entry(s1.kv@, k) == kv_entry(s0.kv@, k)
}

/// The store after one access-log append for `(form, key)` at `now`:
/// everything else untouched.
pub open spec fn logged(s0: Store, s1: Store, form: Seq<u8>, key: u64, now: u64) -> bool {
    &&& s1.kv@ == s0.kv@
    &&& has_form(s1.forms@, form)
    &&& ({
        let f0 = spec_form(s0.forms@, form);
        let f1 = spec_form(s1.forms@, form);
        &&& f1.access_log@ == f0.access_log@.push(AccessLogRow { key_id: key, accessed_at: now })
        &&& f1.form_id@ == form
        &&& f1.keys@ == f0.keys@
        &&& f1.next_key_id == f0.next_key_id
        &&& f1.template == f0.template
        &&& f1.public_primary_key == f0.public_primary_key
        &&& f1.expires_at == f0.expires_at
        &&& f1.submissions@ == f0.submissions@
        &&& f1.passwords@ == f0.passwords@
    })
    &&& forall|k: Seq<u8>| k != form ==> form_entry(s1.forms@, k) == form_entry(s0.forms@, k)
}

// ---------------------------------------------------------------------------
// The challenge and its validation
// ---------------------------------------------------------------------------

/// A freshly minted challenge before it is signed into a token: the
/// statement "whoever holds the signing key of `(form_id, client_key_id)`
/// must sign `nonce`".
pub struct ApiChallenge {
    pub server_key_id: ServerKeyId,
    pub form_id: FormId,
    pub client_key_id: ClientKeyId,
    pub challenge_id: ChallengeId,
    pub nonce: ApiChallengeNonce,
    pub origin: Vec<u8>,
    pub exp: u64,
}

impl ApiChallenge {
    /// The claims this challenge signs into its token at time `now`.
    pub open spec fn claims_at(&self, now: u64) -> ChallengeClaimsV {
        ChallengeClaimsV {
            form_id: self.form_id@,
            client_key_id: self.client_key_id.0,
            aud: self.origin@,
            iss: self.origin@,
            iat: now,
            exp: sat_add(now, self.exp),
            jti: self.challenge_id@,
            nonce_b64: b64_of(self.nonce@),
        }
    }

    /// Sign the challenge into its token under the ephemeral key.
    pub fn encode(&self, key: &EphemeralServerKey, now: u64) -> (r: SignedApiChallenge)
        ensures
            token_wf(r@, self.server_key_id@, challenge_payload(self.claims_at(now)), key@),
            claims_wf_ch(self.claims_at(now))
                ==> is_canonical_challenge(r@, key@, self.server_key_id@, self.claims_at(now)),
    {
        let nonce_b64 = self.nonce.to_b64();
        let exp = if now <= u64::MAX - self.exp {
            now + self.exp
        } else {
            u64::MAX
        };
        let claims = ChallengeClaims {
            form_id: clone_bytes_of(self.form_id.as_bytes()),
            client_key_id: self.client_key_id.0,
            aud: clone_bytes(&self.origin),
            iss: clone_bytes(&self.origin),
            iat: now,
            exp,
            jti: clone_bytes_of(self.challenge_id.as_bytes()),
            nonce_b64,
        };
        proof {
            assert(claims@ == self.claims_at(now));
        }
        let token = encode_challenge(self.server_key_id.as_bytes(), &claims,
            key.expose_secret());
        SignedApiChallenge { bytes: token }
    }
}

/// Copy a byte slice into an owned vector.
fn clone_bytes_of(s: &[u8]) -> (r: Vec<u8>)
    ensures
        r@ == s@,
{
    let mut v: Vec<u8> = Vec::new();
    crate::codec::write_bytes(&mut v, s);
    proof {
        assert(v@ =~= s@);
    }
    v
}

/// A signed challenge token as it travels to the client and back.
pub struct SignedApiChallenge {
    bytes: Vec<u8>,
}

impl View for SignedApiChallenge {
    type V = Seq<u8>;

    closed spec fn view(&self) -> Seq<u8> {
        self.bytes@
    }
}

impl SignedApiChallenge {
    /// Borrow the token bytes.
    pub fn as_bytes(&self) -> (r: &[u8])
        ensures
            r@ == self@,
    {
        self.bytes.as_slice()
    }

    /// A challenge as submitted back by a client: any text is accepted
    /// here, validation decides.
    pub fn from_text(s: &str) -> (r: Self)
        ensures
            r@ == s.spec_bytes(),
    {
        SignedApiChallenge { bytes: crate::text::str_bytes(s) }
    }

    /// The token's text; `None` only for bytes that are not UTF-8, which
    /// no minted token contains.
    pub fn text(&self) -> (r: Option<String>)
        ensures
            r matches Some(s) ==> string_bytes(s) == self@,
    {
        bytes_to_string(clone_bytes(&self.bytes))
    }
}

/// A signed access token as it travels to the client and back.
pub struct SignedApiAccessToken {
    bytes: Vec<u8>,
}

impl View for SignedApiAccessToken {
    type V = Seq<u8>;

    closed spec fn view(&self) -> Seq<u8> {
        self.bytes@
    }
}

impl SignedApiAccessToken {
    pub fn from_text(s: &str) -> (r: Self)
        ensures
            r@ == s.spec_bytes(),
    {
        SignedApiAccessToken { bytes: crate::text::str_bytes(s) }
    }

    pub fn from_bytes(bytes: Vec<u8>) -> (r: Self)
        ensures
            r@ == bytes@,
    {
        SignedApiAccessToken { bytes }
    }

    pub fn text(&self) -> (r: Option<String>)
        ensures
            r matches Some(s) ==> string_bytes(s) == self@,
    {
        bytes_to_string(clone_bytes(&self.bytes))
    }
}

// ---------------------------------------------------------------------------
// Consuming a challenge response
// ---------------------------------------------------------------------------

/// A canonical challenge token of `(kid, c)` whose ephemeral key is live at
/// `now` with secret `secret`.
pub open spec fn live_canonical_challenge(s0: Store, t: Seq<u8>, now: u64, kid: Seq<u8>,
    c: ChallengeClaimsV, secret: Seq<u8>) -> bool {
    &&& kv_live(s0.kv@, server_kv_key(kid), now) == Some(secret)
    &&& is_canonical_challenge(t, secret, kid, c)
}

/// A canonical access token of `(kid, c)` whose ephemeral key is live at
/// `now` with secret `secret`.
pub open spec fn live_canonical_access(s0: Store, t: Seq<u8>, now: u64, kid: Seq<u8>,
    c: AccessClaimsV, secret: Seq<u8>) -> bool {
    &&& kv_live(s0.kv@, server_kv_key(kid), now) == Some(secret)
    &&& is_canonical_access(t, secret, kid, c)
}

/// What consuming the canonical challenge token of `(kid, c)` does, case
/// by case: a failed claim check or a consumed challenge id refuses
/// without touching the store; after the single-use id is spent, a missing
/// client key or a bad signature refuses with the id consumed; a good
/// signature yields the validated response with the key's role, with the
/// id consumed.
pub open spec fn challenge_case(s0: Store, s1: Store,
    r: Result<ValidatedApiChallengeResponse, AuthError>, kid: Seq<u8>, c: ChallengeClaimsV,
    sig: Seq<u8>, origin: Seq<u8>, now: u64) -> bool {
    let window = claims_window_ok(c.aud, c.iss, c.iat, c.exp, origin, now);
    let live_jti = kv_live(s0.kv@, challenge_kv_key(c.jti), now) is Some;
    let have_key = has_form_key(s0.forms@, c.form_id, c.client_key_id);
    let row = spec_key(spec_form(s0.forms@, c.form_id).keys@, c.client_key_id);
    &&& (!window ==> is_unauth(r) && s1 == s0)
    &&& (window && !live_jti ==> is_unauth(r) && s1 == s0)
    &&& (window && live_jti && !have_key ==> is_unauth(r) && kv_consumed(s0, s1, c.jti))
    &&& (window && live_jti && have_key
        && !sig_ok_for(c.nonce_b64, row.public_signing_key@, sig)
        ==> is_unauth(r) && kv_consumed(s0, s1, c.jti))
    &&& (window && live_jti && have_key
        && sig_ok_for(c.nonce_b64, row.public_signing_key@, sig) ==> (
        r matches Ok(v)
        && v.role == row.role
        && v.challenge.server_key_id@ == kid
        && v.challenge.form_id@ == c.form_id
        && v.challenge.client_key_id.0 == c.client_key_id
        && v.challenge.challenge_id@ == c.jti
        && b64_of(v.challenge.nonce@) == c.nonce_b64
        && v.challenge.origin@ == c.iss
        && v.challenge.exp == c.exp - c.iat
        && kv_consumed(s0, s1, c.jti)))
}

/// The pair a client posts to trade a challenge for an access token.
pub struct ApiChallengeResponse {
    pub signature: ClientNonceSignature,
    pub challenge: SignedApiChallenge,
}

/// A challenge that passed decoding, claim checks and single-use
/// consumption; a defensive wrapper so nothing mints an access token from
/// anything else.
pub struct ValidatedApiChallenge(pub ApiChallenge);

/// A challenge response whose signature verified; carries the role the
/// access token will grant.
pub struct ValidatedApiChallengeResponse {
    pub challenge: ApiChallenge,
    pub role: AccessRole,
}

impl ApiChallengeResponse {
    /// Consume the challenge and verify the client's signature over its
    /// nonce: the write-side of the single-use guarantee. The challenge id
    /// is deleted before any token can be issued, so a retry of the same
    /// challenge fails whatever else happens.
    pub fn validate(&self, store: &mut Store, cfg: &Config, now: u64) -> (r: Result<
        ValidatedApiChallengeResponse, AuthError>)
        requires
            old(store).wf(),
        ensures
            final(store).wf(),
            final(store).forms@ == old(store).forms@,
            r is Err ==> is_unauth(r),
            forall|kid: Seq<u8>, c: ChallengeClaimsV, secret: Seq<u8>|
                live_canonical_challenge(*old(store), self.challenge@, now, kid, c, secret)
                ==> challenge_case(*old(store), *final(store), r, kid, c, self.signature@,
                    cfg.origin_bytes(), now),
            forall|kid: Seq<u8>, c: AccessClaimsV, secret: Seq<u8>|
                live_canonical_access(*old(store), self.challenge@, now, kid, c, secret)
                ==> is_unauth(r) && *final(store) == *old(store),
            forall|kid: Seq<u8>, payload: Seq<u8>, secret: Seq<u8>|
                token_wf(self.challenge@, kid, payload, secret)
                    && kv_live(old(store).kv@, server_kv_key(kid), now) is None
                ==> is_unauth(r) && *final(store) == *old(store),
            // The call's whole footprint: either nothing changed, or exactly
            // the single-use marker of the jti the presented token itself
            // carries was consumed. Any other challenge survives this call.
            *final(store) == *old(store) || (exists|c: ChallengeClaimsV, secret: Seq<u8>|
                #[trigger] challenge_rel(self.challenge@, secret, c)
                    && kv_consumed(*old(store), *final(store), c.jti)),
            // Success is owed only to a well-signed challenge under a live
            // ephemeral key that passes every check: whatever text was
            // presented, an Ok certifies all of this of it.
            r matches Ok(v) ==> (exists|kid: Seq<u8>, c: ChallengeClaimsV, secret: Seq<u8>|
                #![trigger challenge_rel(self.challenge@, secret, c), server_kv_key(kid)]
                ({
                    let row = spec_key(spec_form(old(store).forms@, c.form_id).keys@,
                        c.client_key_id);
                    &&& kv_live(old(store).kv@, server_kv_key(kid), now) == Some(secret)
                    &&& kid_rel(self.challenge@, kid)
                    &&& challenge_rel(self.challenge@, secret, c)
                    &&& claims_window_ok(c.aud, c.iss, c.iat, c.exp, cfg.origin_bytes(), now)
                    &&& kv_live(old(store).kv@, challenge_kv_key(c.jti), now) is Some
                    &&& has_form_key(old(store).forms@, c.form_id, c.client_key_id)
                    &&& sig_ok_for(c.nonce_b64, row.public_signing_key@, self.signature@)
                    &&& v.role == row.role
                    &&& kv_consumed(*old(store), *final(store), c.jti)
                })),
    {
        let t = self.challenge.as_bytes();
        let kid_bytes = match decode_kid(t) {
            Some(k) => k,
            None => {
                proof {
                    assert forall|kid: Seq<u8>, c: ChallengeClaimsV, secret: Seq<u8>|
                        live_canonical_challenge(*old(store), self.challenge@, now, kid, c,
                            secret) implies false by {}
                }
                return Err(AuthError::unauthorized("challenge token has no readable key id"));
            },
        };
        let server_key_id = ServerKeyId::from_bytes(kid_bytes);
        let key = match store.get_ephemeral_server_key(&server_key_id, now) {
            Some(k) => k,
            None => {
                proof {
                    assert forall|kid: Seq<u8>, c: ChallengeClaimsV, secret: Seq<u8>|
                        live_canonical_challenge(*old(store), self.challenge@, now, kid, c,
                            secret) implies false by {}
                    assert forall|kid: Seq<u8>, c: AccessClaimsV, secret: Seq<u8>|
                        live_canonical_access(*old(store), self.challenge@, now, kid, c,
                            secret) implies false by {}
                }
                return Err(AuthError::unauthorized(
                    "ephemeral server key for challenge token does not exist"));
            },
        };
        let claims = match decode_challenge(t, key.expose_secret()) {
            Some(c) => c,
            None => {
                proof {
                    assert forall|kid: Seq<u8>, c: ChallengeClaimsV, secret: Seq<u8>|
                        live_canonical_challenge(*old(store), self.challenge@, now, kid, c,
                            secret) implies false by {
                        assert(key@ == secret);
                    }
                }
                return Err(AuthError::unauthorized("challenge token failed validation"));
            },
        };
        let origin = cfg.origin_text();
        let window_ok = crate::codec::bytes_eq(claims.aud.as_slice(), origin.as_slice())
            && crate::codec::bytes_eq(claims.iss.as_slice(), origin.as_slice())
            && now < claims.exp && claims.iat <= claims.exp;
        if !window_ok {
            return Err(AuthError::unauthorized("challenge token claims rejected"));
        }
        let challenge_id = ChallengeId::from_bytes(clone_bytes(&claims.jti));
        if !store.has_challenge_id(&challenge_id, now) {
            return Err(AuthError::unauthorized("this challenge token has already been used"));
        }
        // Consume the challenge before anything can be issued.
        store.delete_challenge_id(&challenge_id);
        let form_id = FormId::from_bytes(clone_bytes(&claims.form_id));
        let keys = match store.get_client_keys(&form_id, ClientKeyId(claims.client_key_id)) {
            Some(k) => k,
            None => {
                return Err(AuthError::unauthorized(
                    "client key for this challenge does not exist or has been revoked"));
            },
        };
        let nonce = match ApiChallengeNonce::from_b64(claims.nonce_b64.as_slice()) {
            Some(n) => n,
            None => {
                return Err(AuthError::unauthorized("challenge nonce is not valid base64"));
            },
        };
        proof {
            assert(spec_form(old(store).forms@, claims@.form_id).wf()) by {
                assert(old(store).forms@[crate::store::form_idx(old(store).forms@,
                    claims@.form_id)].wf());
            }
        }
        if !keys.public_signing_key.verify(&nonce, &self.signature) {
            return Err(AuthError::unauthorized("challenge signature is invalid"));
        }
        Ok(ValidatedApiChallengeResponse {
            challenge: ApiChallenge {
                server_key_id,
                form_id,
                client_key_id: ClientKeyId(claims.client_key_id),
                challenge_id,
                nonce,
                origin: claims.iss,
                exp: claims.exp - claims.iat,
            },
            role: keys.role,
        })
    }
}

impl ValidatedApiChallengeResponse {
    /// The ephemeral key id the challenge was signed under; the access
    /// token is issued under the same key.
    pub fn server_key_id(&self) -> (r: ServerKeyId)
        ensures
            r@ == self.challenge.server_key_id@,
    {
        self.challenge.server_key_id.clone_id()
    }

    /// The access claims this response mints at `now` with lifetime `exp`.
    pub open spec fn access_claims_at(&self, exp: u64, now: u64) -> AccessClaimsV {
        AccessClaimsV {
            role: self.role,
            form_id: self.challenge.form_id@,
            client_key_id: self.challenge.client_key_id.0,
            aud: self.challenge.origin@,
            iss: self.challenge.origin@,
            iat: now,
            exp: sat_add(now, exp),
        }
    }

    /// Mint the access token: same ephemeral key as the challenge, the
    /// caller's role baked in.
    pub fn into_access_token(self, key: &EphemeralServerKey, exp: u64, now: u64) -> (r:
        SignedApiAccessToken)
        ensures
            token_wf(r@, self.challenge.server_key_id@,
                access_payload(self.access_claims_at(exp, now)), key@),
            claims_wf_ac(self.access_claims_at(exp, now))
                ==> is_canonical_access(r@, key@, self.challenge.server_key_id@,
                    self.access_claims_at(exp, now)),
    {
        let exp_at = if now <= u64::MAX - exp {
            now + exp
        } else {
            u64::MAX
        };
        let claims = AccessClaims {
            role: self.role,
            form_id: clone_bytes_of(self.challenge.form_id.as_bytes()),
            client_key_id: self.challenge.client_key_id.0,
            aud: clone_bytes(&self.challenge.origin),
            iss: clone_bytes(&self.challenge.origin),
            iat: now,
            exp: exp_at,
        };
        proof {
            assert(claims@ == self.access_claims_at(exp, now));
        }
        let token = encode_access(self.challenge.server_key_id.as_bytes(), &claims,
            key.expose_secret());
        SignedApiAccessToken { bytes: token }
    }
}

// ---------------------------------------------------------------------------
// Validating an access token
// ---------------------------------------------------------------------------

/// What validating the canonical access token of `(kid, c)` against `form`
/// and `needs` does, case by case: a failed claim check refuses as
/// unauthorized; a token for another form is forbidden; a revoked or
/// never-registered client key is unauthorized; an insufficient role is
/// forbidden; otherwise the access is granted with the key's role and
/// logged.
pub open spec fn access_case(s0: Store, s1: Store, r: Result<AccessRole, AuthError>,
    c: AccessClaimsV, form: Seq<u8>, needs: AccessRole, origin: Seq<u8>, now: u64) -> bool {
    let window = claims_window_ok(c.aud, c.iss, c.iat, c.exp, origin, now);
    let have_key = has_form_key(s0.forms@, c.form_id, c.client_key_id);
    let row = spec_key(spec_form(s0.forms@, c.form_id).keys@, c.client_key_id);
    &&& (!window ==> is_unauth(r) && s1 == s0)
    &&& (window && c.form_id != form ==> is_forbidden(r) && s1 == s0)
    &&& (window && c.form_id == form && !have_key ==> is_unauth(r) && s1 == s0)
    &&& (window && c.form_id == form && have_key && !role_includes(row.role, needs)
        ==> is_forbidden(r) && s1 == s0)
    &&& (window && c.form_id == form && have_key && role_includes(row.role, needs)
        ==> (r matches Ok(granted) && granted == row.role
            && logged(s0, s1, c.form_id, c.client_key_id, now)))
}

impl SignedApiAccessToken {
    /// Validate this token as a bearer for `form_id`, requiring
    /// `needs_role`: resolve the ephemeral key named by the header,
    /// signature-check and decode the claims, refuse a challenge token,
    /// enforce form binding, re-resolve the client key so that revocation
    /// is immediate, gate on the role, and log the access.
    pub fn validate(&self, store: &mut UnauthenticatedStore, cfg: &Config, form_id: &FormId,
        needs_role: AccessRole, now: u64) -> (r: Result<AccessRole, AuthError>)
        requires
            old(store).0.wf(),
            now <= MAX_TIMESTAMP,
        ensures
            final(store).0.wf(),
            r is Err ==> final(store).0 == old(store).0,
            r is Ok ==> has_form(old(store).0.forms@, form_id@)
                && has_form(final(store).0.forms@, form_id@),
            forall|kid: Seq<u8>, c: AccessClaimsV, secret: Seq<u8>|
                live_canonical_access(old(store).0, self@, now, kid, c, secret)
                ==> access_case(old(store).0, final(store).0, r, c, form_id@, needs_role,
                    cfg.origin_bytes(), now),
            forall|kid: Seq<u8>, c: ChallengeClaimsV, secret: Seq<u8>|
                live_canonical_challenge(old(store).0, self@, now, kid, c, secret)
                ==> is_unauth(r),
            forall|kid: Seq<u8>, payload: Seq<u8>, secret: Seq<u8>|
                token_wf(self@, kid, payload, secret)
                    && kv_live(old(store).0.kv@, server_kv_key(kid), now) is None
                ==> is_unauth(r),
            // Success is owed only to a well-signed access token under a
            // live ephemeral key that passes every check: an implementation
            // accepting any other bearer text would break this clause.
            r matches Ok(granted) ==> authorized_bearer(old(store).0, self@, form_id@,
                needs_role, granted, cfg.origin_bytes(), now),
    {
        let t = self.bytes.as_slice();
        let kid_bytes = match decode_kid(t) {
            Some(k) => k,
            None => {
                proof {
                    assert forall|kid: Seq<u8>, c: AccessClaimsV, secret: Seq<u8>|
                        live_canonical_access(old(store).0, self@, now, kid, c, secret)
                        implies false by {}
                }
                return Err(AuthError::unauthorized("access token has no readable key id"));
            },
        };
        let server_key_id = ServerKeyId::from_bytes(kid_bytes);
        let key = match store.0.get_ephemeral_server_key(&server_key_id, now) {
            Some(k) => k,
            None => {
                proof {
                    assert forall|kid: Seq<u8>, c: AccessClaimsV, secret: Seq<u8>|
                        live_canonical_access(old(store).0, self@, now, kid, c, secret)
                        implies false by {}
                    assert forall|kid: Seq<u8>, c: ChallengeClaimsV, secret: Seq<u8>|
                        live_canonical_challenge(old(store).0, self@, now, kid, c, secret)
                        implies false by {}
                }
                return Err(AuthError::unauthorized(
                    "ephemeral server key for access token does not exist"));
            },
        };
        let claims = match decode_access(t, key.expose_secret()) {
            Some(c) => c,
            None => {
                proof {
                    assert forall|kid: Seq<u8>, c: AccessClaimsV, secret: Seq<u8>|
                        live_canonical_access(old(store).0, self@, now, kid, c, secret)
                        implies false by {
                        assert(key@ == secret);
                    }
                }
                return Err(AuthError::unauthorized("access token failed validation"));
            },
        };
        let origin = cfg.origin_text();
        let window_ok = crate::codec::bytes_eq(claims.aud.as_slice(), origin.as_slice())
            && crate::codec::bytes_eq(claims.iss.as_slice(), origin.as_slice())
            && now < claims.exp && claims.iat <= claims.exp;
        if !window_ok {
            return Err(AuthError::unauthorized("access token claims rejected"));
        }
        if !crate::codec::bytes_eq(claims.form_id.as_slice(), form_id.as_bytes()) {
            return Err(AuthError::forbidden(
                "form id in access token does not match the form being accessed"));
        }
        let keys = match store.0.get_client_keys(form_id, ClientKeyId(claims.client_key_id)) {
            Some(k) => k,
            None => {
                return Err(AuthError::unauthorized(
                    "client key in access token does not exist or has been revoked"));
            },
        };
        if !keys.role.includes(needs_role) {
            return Err(AuthError::forbidden(
                "this access token does not have the required permissions"));
        }
        proof {
            let c = claims@;
            let f = spec_form(old(store).0.forms@, c.form_id);
            assert(old(store).0.forms@[crate::store::form_idx(old(store).0.forms@,
                c.form_id)].wf());
            assert(keys.dv() == crate::store::client_keys_dv(f,
                crate::store::key_idx(f.keys@, c.client_key_id)));
            assert(keys.role == spec_key(f.keys@, c.client_key_id).role);
            assert(kv_live(old(store).0.kv@, server_kv_key(server_key_id@), now)
                == Some(key@));
            assert(access_rel(self@, key@, c) && kid_rel(self@, server_key_id@));
            assert(claims_window_ok(c.aud, c.iss, c.iat, c.exp, cfg.origin_bytes(), now));
        }
        store.0.log_access(form_id, ClientKeyId(claims.client_key_id), now);
        Ok(keys.role)
    }
}

} // verus!
