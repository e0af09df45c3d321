//! The guarantees the library states about whole flows, as proof
//! functions. Each one is phrased over the same spec functions the
//! executable functions' contracts use, so together with those contracts
//! it pins the behaviour of the running code.

use vstd::prelude::*;
use crate::auth::{AccessRole, claims_window_ok, kv_consumed, role_includes, sig_ok_for};
use crate::jwt::{AccessClaimsV, ChallengeClaimsV};
use crate::router::gate_passes;
use crate::store::{FormRow, Store, challenge_kv_key, has_form, has_form_key, kv_live, sat_add,
    spec_form, spec_key};

verus! {

/// A freshly issued challenge, answered with a valid signature over its
/// nonce, grants an access token that the validator accepts for the same
/// form with the client key's own role: as long as the consuming call
/// found the challenge live, the key registered, and the signature good,
/// the minted access claims pass the whole access gate at any later time
/// at which the token has not expired, the ephemeral key is still live,
/// and the client key still exists.
pub proof fn lemma_handshake_grants(s0: Store, s1: Store, c: ChallengeClaimsV, kid: Seq<u8>,
    secret: Seq<u8>, sig: Seq<u8>, origin: Seq<u8>, now: u64, now2: u64, access_exp: u64)
    requires
        claims_window_ok(c.aud, c.iss, c.iat, c.exp, origin, now),
        has_form_key(s0.forms@, c.form_id, c.client_key_id),
        sig_ok_for(c.nonce_b64, spec_key(spec_form(s0.forms@, c.form_id).keys@,
            c.client_key_id).public_signing_key@, sig),
        kv_consumed(s0, s1, c.jti),
        now2 < sat_add(now, access_exp),
        now <= now2,
        has_form_key(s1.forms@, c.form_id, c.client_key_id),
    ensures
        ({
            let role = spec_key(spec_form(s0.forms@, c.form_id).keys@, c.client_key_id).role;
            let cac = AccessClaimsV {
                role,
                form_id: c.form_id,
                client_key_id: c.client_key_id,
                aud: c.iss,
                iss: c.iss,
                iat: now,
                exp: sat_add(now, access_exp),
            };
            gate_passes(s1, cac, c.form_id, role, origin, now2)
        }),
{
    assert(sat_add(now, access_exp) >= now);
    assert(s1.forms@ == s0.forms@);
}

/// A consumed challenge can never be consumed again: after the store
/// transition that a successful (or post-consumption failed) token request
/// makes, the challenge id resolves to nothing at every later time, so a
/// second request with the same challenge is refused as unauthorized.
pub proof fn lemma_challenge_single_use(s0: Store, s1: Store, jti: Seq<u8>, now2: u64)
    requires
        kv_consumed(s0, s1, jti),
    ensures
        kv_live(s1.kv@, challenge_kv_key(jti), now2) is None,
{
}

/// Within one form, client key ids are strictly increasing in storage
/// order and all lie below the allocation counter.
pub proof fn lemma_key_ids_strictly_increasing(f: FormRow)
    requires
        f.wf(),
    ensures
        forall|i: int, j: int| 0 <= i < j < f.keys@.len()
            ==> f.keys@[i].id < f.keys@[j].id,
        forall|i: int| 0 <= i < f.keys@.len() ==> (#[trigger] f.keys@[i]).id < f.next_key_id,
{
}

/// The inductive step behind "ids never repeat across the form's
/// lifetime": every id the form has ever used lies below its allocation
/// counter — an allocation hands out the counter itself and raises it
/// (`store_client_keys`), and every other operation's contract leaves the
/// counter unchanged, so a used id stays below it forever — and the next
/// allocation therefore never returns a used id, even one whose row was
/// deleted long ago.
pub proof fn lemma_allocation_never_reuses(f: FormRow, used: u64)
    requires
        f.wf(),
        used < f.next_key_id,
    ensures
        f.next_key_id != used,
{
}

/// Deleting a form removes everything it owned: once the form id resolves
/// to nothing, no client key resolves under it either, so every
/// outstanding access token for the form dies with it, and its
/// submissions, access log and password rows are no longer reachable from
/// any store lookup.
pub proof fn lemma_cascade_on_delete(s: Store, form: Seq<u8>)
    requires
        !has_form(s.forms@, form),
    ensures
        forall|ck: u64| !has_form_key(s.forms@, form, ck),
{
}

/// The role lattice behind access validation: an admin token satisfies
/// every requirement, a read token satisfies only read. With the
/// validator's contracts this is exactly: a read-role token is forbidden on an admin
/// endpoint, while an admin-role token passes read endpoints.
pub proof fn lemma_role_gate()
    ensures
        forall|r: AccessRole| role_includes(AccessRole::Admin, r),
        role_includes(AccessRole::Read, AccessRole::Read),
        !role_includes(AccessRole::Read, AccessRole::Admin),
{
}

/// Revocation is immediate: a store in which the client key no longer
/// exists refuses access validation for every token naming that key,
/// whatever its expiry, because the key is re-resolved at validation time.
pub proof fn lemma_revocation_immediate(s: Store, c: AccessClaimsV, form: Seq<u8>,
    needs: AccessRole, origin: Seq<u8>, now: u64)
    requires
        !has_form_key(s.forms@, c.form_id, c.client_key_id),
    ensures
        !gate_passes(s, c, form, needs, origin, now),
{
}

} // verus!
