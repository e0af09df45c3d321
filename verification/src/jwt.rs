//! The token format: HS256 JWTs whose claims are written in a canonical
//! JSON shape. The server both mints and validates these tokens, so the
//! writer and the strict reader here are two sides of one format, and
//! reading back what was written is proved to return the same claims.

use vstd::prelude::*;
use crate::auth::AccessRole;
use crate::codec::{write_bytes, write_json_str, write_u64, expect_lit, read_json_str, read_u64,
    json_esc, dec_of, has_lit_at, spec_read_str, spec_read_u64, is_digit, bytes_eq,
    lemma_read_json_esc, lemma_read_dec_of, lemma_dec_of, byte_pos, find_byte, copy_range,
    lemma_byte_pos, lemma_byte_run};
use crate::crypto::{b64url_of, hs256_sig_of, b64url_encode, b64url_decode, hs256_sign,
    hs256_verify};

verus! {

// ---------------------------------------------------------------------------
// The fixed chunks of the canonical JSON
// ---------------------------------------------------------------------------

/// The bytes of `{"typ":"JWT","alg":"HS256","kid":"`.
pub open spec fn lit_hdr1() -> Seq<u8> {
    seq![123u8, 34u8, 116u8, 121u8, 112u8, 34u8, 58u8, 34u8, 74u8, 87u8, 84u8, 34u8, 44u8,
        34u8, 97u8, 108u8, 103u8, 34u8, 58u8, 34u8, 72u8, 83u8, 50u8, 53u8, 54u8, 34u8, 44u8,
        34u8, 107u8, 105u8, 100u8, 34u8, 58u8, 34u8]
}

/// The bytes of `{"type":"challenge","sub":"`.
pub open spec fn lit_ch1() -> Seq<u8> {
    seq![123u8, 34u8, 116u8, 121u8, 112u8, 101u8, 34u8, 58u8, 34u8, 99u8, 104u8, 97u8, 108u8,
        108u8, 101u8, 110u8, 103u8, 101u8, 34u8, 44u8, 34u8, 115u8, 117u8, 98u8, 34u8, 58u8,
        34u8]
}

/// The bytes of `{"type":"access","role":"`.
pub open spec fn lit_ac1() -> Seq<u8> {
    seq![123u8, 34u8, 116u8, 121u8, 112u8, 101u8, 34u8, 58u8, 34u8, 97u8, 99u8, 99u8, 101u8,
        115u8, 115u8, 34u8, 44u8, 34u8, 114u8, 111u8, 108u8, 101u8, 34u8, 58u8, 34u8]
}

/// The bytes of `,"sub":"`.
pub open spec fn lit_sub() -> Seq<u8> {
    seq![44u8, 34u8, 115u8, 117u8, 98u8, 34u8, 58u8, 34u8]
}

/// The bytes of `,"aud":"`.
pub open spec fn lit_aud() -> Seq<u8> {
    seq![44u8, 34u8, 97u8, 117u8, 100u8, 34u8, 58u8, 34u8]
}

/// The bytes of `,"iss":"`.
pub open spec fn lit_iss() -> Seq<u8> {
    seq![44u8, 34u8, 105u8, 115u8, 115u8, 34u8, 58u8, 34u8]
}

/// The bytes of `,"iat":`.
pub open spec fn lit_iat() -> Seq<u8> {
    seq![44u8, 34u8, 105u8, 97u8, 116u8, 34u8, 58u8]
}

/// The bytes of `,"exp":`.
pub open spec fn lit_exp() -> Seq<u8> {
    seq![44u8, 34u8, 101u8, 120u8, 112u8, 34u8, 58u8]
}

/// The bytes of `,"jti":"`.
pub open spec fn lit_jti() -> Seq<u8> {
    seq![44u8, 34u8, 106u8, 116u8, 105u8, 34u8, 58u8, 34u8]
}

/// The bytes of `,"nonce":"`.
pub open spec fn lit_nonce() -> Seq<u8> {
    seq![44u8, 34u8, 110u8, 111u8, 110u8, 99u8, 101u8, 34u8, 58u8, 34u8]
}

/// The bytes of `admin`.
pub open spec fn lit_admin() -> Seq<u8> {
    seq![97u8, 100u8, 109u8, 105u8, 110u8]
}

/// The bytes of `read`.
pub open spec fn lit_read() -> Seq<u8> {
    seq![114u8, 101u8, 97u8, 100u8]
}

/// A double quote.
pub open spec fn lit_q() -> Seq<u8> {
    seq![34u8]
}

/// A closing brace.
pub open spec fn lit_rb() -> Seq<u8> {
    seq![125u8]
}

fn arr_hdr1() -> (r: [u8; 34])
    ensures
        r@ == lit_hdr1(),
{
    let r: [u8; 34] = [123u8, 34u8, 116u8, 121u8, 112u8, 34u8, 58u8, 34u8, 74u8, 87u8, 84u8,
        34u8, 44u8, 34u8, 97u8, 108u8, 103u8, 34u8, 58u8, 34u8, 72u8, 83u8, 50u8, 53u8, 54u8,
        34u8, 44u8, 34u8, 107u8, 105u8, 100u8, 34u8, 58u8, 34u8];
    proof {
        assert(r@ =~= lit_hdr1());
    }
    r
}

fn arr_ch1() -> (r: [u8; 27])
    ensures
        r@ == lit_ch1(),
{
    let r: [u8; 27] = [123u8, 34u8, 116u8, 121u8, 112u8, 101u8, 34u8, 58u8, 34u8, 99u8, 104u8,
        97u8, 108u8, 108u8, 101u8, 110u8, 103u8, 101u8, 34u8, 44u8, 34u8, 115u8, 117u8, 98u8,
        34u8, 58u8, 34u8];
    proof {
        assert(r@ =~= lit_ch1());
    }
    r
}

fn arr_ac1() -> (r: [u8; 25])
    ensures
        r@ == lit_ac1(),
{
    let r: [u8; 25] = [123u8, 34u8, 116u8, 121u8, 112u8, 101u8, 34u8, 58u8, 34u8, 97u8, 99u8,
        99u8, 101u8, 115u8, 115u8, 34u8, 44u8, 34u8, 114u8, 111u8, 108u8, 101u8, 34u8, 58u8,
        34u8];
    proof {
        assert(r@ =~= lit_ac1());
    }
    r
}

fn arr_sub() -> (r: [u8; 8])
    ensures
        r@ == lit_sub(),
{
    let r: [u8; 8] = [44u8, 34u8, 115u8, 117u8, 98u8, 34u8, 58u8, 34u8];
    proof {
        assert(r@ =~= lit_sub());
    }
    r
}

fn arr_aud() -> (r: [u8; 8])
    ensures
        r@ == lit_aud(),
{
    let r: [u8; 8] = [44u8, 34u8, 97u8, 117u8, 100u8, 34u8, 58u8, 34u8];
    proof {
        assert(r@ =~= lit_aud());
    }
    r
}

fn arr_iss() -> (r: [u8; 8])
    ensures
        r@ == lit_iss(),
{
    let r: [u8; 8] = [44u8, 34u8, 105u8, 115u8, 115u8, 34u8, 58u8, 34u8];
    proof {
        assert(r@ =~= lit_iss());
    }
    r
}

fn arr_iat() -> (r: [u8; 7])
    ensures
        r@ == lit_iat(),
{
    let r: [u8; 7] = [44u8, 34u8, 105u8, 97u8, 116u8, 34u8, 58u8];
    proof {
        assert(r@ =~= lit_iat());
    }
    r
}

fn arr_exp() -> (r: [u8; 7])
    ensures
        r@ == lit_exp(),
{
    let r: [u8; 7] = [44u8, 34u8, 101u8, 120u8, 112u8, 34u8, 58u8];
    proof {
        assert(r@ =~= lit_exp());
    }
    r
}

fn arr_jti() -> (r: [u8; 8])
    ensures
        r@ == lit_jti(),
{
    let r: [u8; 8] = [44u8, 34u8, 106u8, 116u8, 105u8, 34u8, 58u8, 34u8];
    proof {
        assert(r@ =~= lit_jti());
    }
    r
}

fn arr_nonce() -> (r: [u8; 10])
    ensures
        r@ == lit_nonce(),
{
    let r: [u8; 10] = [44u8, 34u8, 110u8, 111u8, 110u8, 99u8, 101u8, 34u8, 58u8, 34u8];
    proof {
        assert(r@ =~= lit_nonce());
    }
    r
}

fn arr_admin() -> (r: [u8; 5])
    ensures
        r@ == lit_admin(),
{
    let r: [u8; 5] = [97u8, 100u8, 109u8, 105u8, 110u8];
    proof {
        assert(r@ =~= lit_admin());
    }
    r
}

fn arr_read() -> (r: [u8; 4])
    ensures
        r@ == lit_read(),
{
    let r: [u8; 4] = [114u8, 101u8, 97u8, 100u8];
    proof {
        assert(r@ =~= lit_read());
    }
    r
}

// ---------------------------------------------------------------------------
// Claims
// ---------------------------------------------------------------------------

/// The claims of a challenge token, at the spec level.
pub ghost struct ChallengeClaimsV {
    pub form_id: Seq<u8>,
    pub client_key_id: u64,
    pub aud: Seq<u8>,
    pub iss: Seq<u8>,
    pub iat: u64,
    pub exp: u64,
    pub jti: Seq<u8>,
    pub nonce_b64: Seq<u8>,
}

/// The claims of a challenge token: the subject pair, the origin as both
/// audience and issuer, the validity window, the single-use id and the
/// base64 text of the nonce to sign.
pub struct ChallengeClaims {
    pub form_id: Vec<u8>,
    pub client_key_id: u64,
    pub aud: Vec<u8>,
    pub iss: Vec<u8>,
    pub iat: u64,
    pub exp: u64,
    pub jti: Vec<u8>,
    pub nonce_b64: Vec<u8>,
}

impl View for ChallengeClaims {
    type V = ChallengeClaimsV;

    open spec fn view(&self) -> ChallengeClaimsV {
        ChallengeClaimsV {
            form_id: self.form_id@,
            client_key_id: self.client_key_id,
            aud: self.aud@,
            iss: self.iss@,
            iat: self.iat,
            exp: self.exp,
            jti: self.jti@,
            nonce_b64: self.nonce_b64@,
        }
    }
}

/// The claims of an access token, at the spec level.
pub ghost struct AccessClaimsV {
    pub role: AccessRole,
    pub form_id: Seq<u8>,
    pub client_key_id: u64,
    pub aud: Seq<u8>,
    pub iss: Seq<u8>,
    pub iat: u64,
    pub exp: u64,
}

/// The claims of an access token: the granted role, the subject pair, the
/// origin as both audience and issuer, and the validity window.
pub struct AccessClaims {
    pub role: AccessRole,
    pub form_id: Vec<u8>,
    pub client_key_id: u64,
    pub aud: Vec<u8>,
    pub iss: Vec<u8>,
    pub iat: u64,
    pub exp: u64,
}

impl View for AccessClaims {
    type V = AccessClaimsV;

    open spec fn view(&self) -> AccessClaimsV {
        AccessClaimsV {
            role: self.role,
            form_id: self.form_id@,
            client_key_id: self.client_key_id,
            aud: self.aud@,
            iss: self.iss@,
            iat: self.iat,
            exp: self.exp,
        }
    }
}

// ---------------------------------------------------------------------------
// Payload and token shapes
// ---------------------------------------------------------------------------

/// The `role` claim's text.
pub open spec fn role_bytes(role: AccessRole) -> Seq<u8> {
    if role == AccessRole::Admin {
        lit_admin()
    } else {
        lit_read()
    }
}

/// The `sub` claim's text: `<form_id>/<client_key_id>`.
pub open spec fn sub_bytes(form: Seq<u8>, ckid: u64) -> Seq<u8> {
    form + seq![47u8] + dec_of(ckid as nat)
}

/// The canonical JSON of a challenge token's claims.
pub open spec fn ch_tail8(c: ChallengeClaimsV) -> Seq<u8> {
    json_esc(c.nonce_b64) + lit_q() + lit_rb()
}

pub open spec fn ch_tail7(c: ChallengeClaimsV) -> Seq<u8> {
    lit_nonce() + ch_tail8(c)
}

pub open spec fn ch_tail6(c: ChallengeClaimsV) -> Seq<u8> {
    json_esc(c.jti) + lit_q() + ch_tail7(c)
}

pub open spec fn ch_tail5(c: ChallengeClaimsV) -> Seq<u8> {
    lit_jti() + ch_tail6(c)
}

pub open spec fn ch_tail4(c: ChallengeClaimsV) -> Seq<u8> {
    dec_of(c.exp as nat) + ch_tail5(c)
}

pub open spec fn ch_tail3(c: ChallengeClaimsV) -> Seq<u8> {
    lit_exp() + ch_tail4(c)
}

pub open spec fn ch_tail2(c: ChallengeClaimsV) -> Seq<u8> {
    dec_of(c.iat as nat) + ch_tail3(c)
}

pub open spec fn ch_tail1(c: ChallengeClaimsV) -> Seq<u8> {
    lit_iat() + ch_tail2(c)
}

pub open spec fn ch_iss_tail(c: ChallengeClaimsV) -> Seq<u8> {
    json_esc(c.iss) + lit_q() + ch_tail1(c)
}

pub open spec fn ch_iss_lit_tail(c: ChallengeClaimsV) -> Seq<u8> {
    lit_iss() + ch_iss_tail(c)
}

pub open spec fn ch_aud_tail(c: ChallengeClaimsV) -> Seq<u8> {
    json_esc(c.aud) + lit_q() + ch_iss_lit_tail(c)
}

pub open spec fn ch_aud_lit_tail(c: ChallengeClaimsV) -> Seq<u8> {
    lit_aud() + ch_aud_tail(c)
}

pub open spec fn ch_sub_tail(c: ChallengeClaimsV) -> Seq<u8> {
    json_esc(sub_bytes(c.form_id, c.client_key_id)) + lit_q() + ch_aud_lit_tail(c)
}

pub open spec fn challenge_payload(c: ChallengeClaimsV) -> Seq<u8> {
    lit_ch1() + ch_sub_tail(c)
}

/// The canonical JSON of an access token's claims.
pub open spec fn ac_tail6(c: AccessClaimsV) -> Seq<u8> {
    dec_of(c.exp as nat) + lit_rb()
}

pub open spec fn ac_tail5(c: AccessClaimsV) -> Seq<u8> {
    lit_exp() + ac_tail6(c)
}

pub open spec fn ac_tail4(c: AccessClaimsV) -> Seq<u8> {
    dec_of(c.iat as nat) + ac_tail5(c)
}

pub open spec fn ac_tail3(c: AccessClaimsV) -> Seq<u8> {
    lit_iat() + ac_tail4(c)
}

pub open spec fn ac_iss_tail(c: AccessClaimsV) -> Seq<u8> {
    json_esc(c.iss) + lit_q() + ac_tail3(c)
}

pub open spec fn ac_iss_lit_tail(c: AccessClaimsV) -> Seq<u8> {
    lit_iss() + ac_iss_tail(c)
}

pub open spec fn ac_aud_tail(c: AccessClaimsV) -> Seq<u8> {
    json_esc(c.aud) + lit_q() + ac_iss_lit_tail(c)
}

pub open spec fn ac_aud_lit_tail(c: AccessClaimsV) -> Seq<u8> {
    lit_aud() + ac_aud_tail(c)
}

pub open spec fn ac_sub_tail(c: AccessClaimsV) -> Seq<u8> {
    json_esc(sub_bytes(c.form_id, c.client_key_id)) + lit_q() + ac_aud_lit_tail(c)
}

pub open spec fn ac_sub_lit_tail(c: AccessClaimsV) -> Seq<u8> {
    lit_sub() + ac_sub_tail(c)
}

pub open spec fn ac_role_tail(c: AccessClaimsV) -> Seq<u8> {
    json_esc(role_bytes(c.role)) + lit_q() + ac_sub_lit_tail(c)
}

pub open spec fn access_payload(c: AccessClaimsV) -> Seq<u8> {
    lit_ac1() + ac_role_tail(c)
}

/// The canonical JSON of a token header carrying `kid`.
pub open spec fn header_bytes(kid: Seq<u8>) -> Seq<u8> {
    lit_hdr1() + (json_esc(kid) + lit_q() + lit_rb())
}

/// The signed part of a token: `b64url(header).b64url(payload)`.
pub open spec fn jwt_message(kid: Seq<u8>, payload: Seq<u8>) -> Seq<u8> {
    b64url_of(header_bytes(kid)) + seq![46u8] + b64url_of(payload)
}

/// A whole token: the signed part, a dot, and the HS256 signature text.
pub open spec fn jwt_bytes(kid: Seq<u8>, payload: Seq<u8>, secret: Seq<u8>) -> Seq<u8> {
    jwt_message(kid, payload) + seq![46u8] + hs256_sig_of(secret, jwt_message(kid, payload))
}

// ---------------------------------------------------------------------------
// Writers
// ---------------------------------------------------------------------------

/// Write a string field's content and its closing quote.
fn write_str_field(out: &mut Vec<u8>, s: &[u8])
    ensures
        final(out)@ == old(out)@ + json_esc(s@) + lit_q(),
{
    write_json_str(out, s);
    out.push(34);
    proof {
        assert(final(out)@ =~= old(out)@ + json_esc(s@) + lit_q());
    }
}

/// Build the `sub` claim's content.
fn build_sub(form_id: &[u8], ckid: u64) -> (r: Vec<u8>)
    ensures
        r@ == sub_bytes(form_id@, ckid),
{
    let mut v: Vec<u8> = Vec::new();
    write_bytes(&mut v, form_id);
    v.push(47);
    write_u64(&mut v, ckid);
    proof {
        assert(v@ =~= sub_bytes(form_id@, ckid));
    }
    v
}

/// Write a challenge token's claims JSON.
#[verifier::rlimit(60)]
fn write_challenge_payload(out: &mut Vec<u8>, c: &ChallengeClaims)
    ensures
        final(out)@ == old(out)@ + challenge_payload(c@),
{
    let lit1 = arr_ch1();
    write_bytes(out, lit1.as_slice());
    let sub = build_sub(c.form_id.as_slice(), c.client_key_id);
    write_str_field(out, sub.as_slice());
    let lit2 = arr_aud();
    write_bytes(out, lit2.as_slice());
    write_str_field(out, c.aud.as_slice());
    let lit3 = arr_iss();
    write_bytes(out, lit3.as_slice());
    write_str_field(out, c.iss.as_slice());
    let lit4 = arr_iat();
    write_bytes(out, lit4.as_slice());
    write_u64(out, c.iat);
    let lit5 = arr_exp();
    write_bytes(out, lit5.as_slice());
    write_u64(out, c.exp);
    let lit6 = arr_jti();
    write_bytes(out, lit6.as_slice());
    write_str_field(out, c.jti.as_slice());
    let lit7 = arr_nonce();
    write_bytes(out, lit7.as_slice());
    write_str_field(out, c.nonce_b64.as_slice());
    out.push(125);
    proof {
        assert(final(out)@ =~= old(out)@ + challenge_payload(c@));
    }
}

/// Write an access token's claims JSON.
#[verifier::rlimit(60)]
fn write_access_payload(out: &mut Vec<u8>, c: &AccessClaims)
    ensures
        final(out)@ == old(out)@ + access_payload(c@),
{
    let lit1 = arr_ac1();
    write_bytes(out, lit1.as_slice());
    write_role(out, c.role);
    let lit2 = arr_sub();
    write_bytes(out, lit2.as_slice());
    let sub = build_sub(c.form_id.as_slice(), c.client_key_id);
    write_str_field(out, sub.as_slice());
    let lit3 = arr_aud();
    write_bytes(out, lit3.as_slice());
    write_str_field(out, c.aud.as_slice());
    let lit4 = arr_iss();
    write_bytes(out, lit4.as_slice());
    write_str_field(out, c.iss.as_slice());
    let lit5 = arr_iat();
    write_bytes(out, lit5.as_slice());
    write_u64(out, c.iat);
    let lit6 = arr_exp();
    write_bytes(out, lit6.as_slice());
    write_u64(out, c.exp);
    out.push(125);
    proof {
        assert(final(out)@ =~= old(out)@ + access_payload(c@));
    }
}

/// Write the `role` claim's string and its closing quote.
fn write_role(out: &mut Vec<u8>, role: AccessRole)
    ensures
        final(out)@ == old(out)@ + json_esc(role_bytes(role)) + lit_q(),
{
    match role {
        AccessRole::Admin => {
            let a = arr_admin();
            write_str_field(out, a.as_slice());
            proof {
                lemma_json_esc_plain(lit_admin());
            }
        },
        AccessRole::Read => {
            let a = arr_read();
            write_str_field(out, a.as_slice());
            proof {
                lemma_json_esc_plain(lit_read());
            }
        },
    }
}

/// A byte that escaping leaves alone.
pub open spec fn is_plain_byte(b: u8) -> bool {
    b != 34 && b != 92 && b >= 32
}

/// Escaping is the identity on strings of plain bytes.
pub proof fn lemma_json_esc_plain(s: Seq<u8>)
    requires
        forall|i: int| 0 <= i < s.len() ==> is_plain_byte(#[trigger] s[i]),
    ensures
        json_esc(s) == s,
    decreases s.len(),
{
    if s.len() == 0 {
        assert(json_esc(s) =~= s);
    } else {
        assert(is_plain_byte(s[0]));
        lemma_json_esc_plain(s.drop_first());
        assert(json_esc(s) =~= s);
    }
}

/// Write a token header carrying `kid`.
fn write_header(out: &mut Vec<u8>, kid: &[u8])
    ensures
        final(out)@ == old(out)@ + header_bytes(kid@),
{
    let lit1 = arr_hdr1();
    write_bytes(out, lit1.as_slice());
    write_str_field(out, kid);
    out.push(125);
    proof {
        assert(final(out)@ =~= old(out)@ + header_bytes(kid@));
    }
}

/// Assemble and sign a token over a ready payload.
fn sign_token(kid: &[u8], payload: &[u8], secret: &[u8]) -> (r: Vec<u8>)
    ensures
        token_wf(r@, kid@, payload@, secret@),
{
    let mut h: Vec<u8> = Vec::new();
    write_header(&mut h, kid);
    proof {
        assert(h@ =~= header_bytes(kid@));
    }
    let h64 = b64url_encode(h.as_slice());
    let p64 = b64url_encode(payload);
    let mut msg: Vec<u8> = Vec::new();
    write_bytes(&mut msg, h64.as_slice());
    msg.push(46);
    write_bytes(&mut msg, p64.as_slice());
    proof {
        assert(msg@ =~= jwt_message(kid@, payload@));
    }
    let sig = hs256_sign(secret, msg.as_slice());
    let mut out = msg;
    out.push(46);
    write_bytes(&mut out, sig.as_slice());
    proof {
        assert(out@ =~= jwt_bytes(kid@, payload@, secret@));
    }
    out
}

// ---------------------------------------------------------------------------
// Reading a token back
// ---------------------------------------------------------------------------

/// Step over a fixed chunk: a buffer whose tail is `lit + rest` carries
/// `lit` and then `rest`.
proof fn lemma_step_lit(buf: Seq<u8>, pos: int, lit: Seq<u8>, rest: Seq<u8>)
    requires
        0 <= pos <= buf.len(),
        buf.subrange(pos, buf.len() as int) == lit + rest,
    ensures
        has_lit_at(buf, pos, lit),
        pos + lit.len() + rest.len() == buf.len(),
        buf.subrange(pos + lit.len(), buf.len() as int) == rest,
{
    let tail = buf.subrange(pos, buf.len() as int);
    assert(tail.len() == buf.len() - pos);
    assert(tail.len() == lit.len() + rest.len());
    assert(buf.subrange(pos, pos + lit.len()) =~= lit) by {
        assert forall|i: int| 0 <= i < lit.len()
            implies buf.subrange(pos, pos + lit.len())[i] == lit[i] by {
            assert(buf[pos + i] == tail[i]);
        }
    }
    assert(buf.subrange(pos + lit.len(), buf.len() as int) =~= rest) by {
        assert forall|i: int| 0 <= i < rest.len()
            implies buf.subrange(pos + lit.len(), buf.len() as int)[i] == rest[i] by {
            assert(buf[pos + lit.len() + i] == tail[lit.len() + i]);
        }
    }
}

/// Step over a written string field: the escaped text and its closing
/// quote read back as the text.
proof fn lemma_step_str(buf: Seq<u8>, pos: int, x: Seq<u8>, rest: Seq<u8>)
    requires
        0 <= pos <= buf.len(),
        buf.subrange(pos, buf.len() as int) == json_esc(x) + lit_q() + rest,
    ensures
        spec_read_str(buf, pos) == Some((x, pos + json_esc(x).len() + 1)),
        pos + json_esc(x).len() + 1 + rest.len() == buf.len(),
        buf.subrange(pos + json_esc(x).len() + 1, buf.len() as int) == rest,
{
    let tail = buf.subrange(pos, buf.len() as int);
    let l = json_esc(x).len() as int;
    assert(tail.len() == buf.len() - pos);
    assert(tail.len() == l + 1 + rest.len());
    assert(buf.subrange(pos, pos + l) =~= json_esc(x)) by {
        assert forall|i: int| 0 <= i < l
            implies buf.subrange(pos, pos + l)[i] == json_esc(x)[i] by {
            assert(buf[pos + i] == tail[i]);
            assert(tail[i] == (json_esc(x) + lit_q())[i]);
        }
    }
    assert(buf[pos + l] == tail[l]);
    assert(tail[l] == (json_esc(x) + lit_q())[l]);
    assert(buf[pos + l] == 34);
    lemma_read_json_esc(buf, pos, x);
    assert(buf.subrange(pos + l + 1, buf.len() as int) =~= rest) by {
        assert forall|i: int| 0 <= i < rest.len()
            implies buf.subrange(pos + l + 1, buf.len() as int)[i] == rest[i] by {
            assert(buf[pos + l + 1 + i] == tail[l + 1 + i]);
        }
    }
}

/// Step over a written number: its decimal digits, followed by a
/// non-digit, read back as the number.
proof fn lemma_step_u64(buf: Seq<u8>, pos: int, n: u64, rest: Seq<u8>)
    requires
        0 <= pos <= buf.len(),
        buf.subrange(pos, buf.len() as int) == dec_of(n as nat) + rest,
        rest.len() > 0 ==> !is_digit(rest[0]),
    ensures
        spec_read_u64(buf, pos) == Some((n, pos + dec_of(n as nat).len())),
        pos + dec_of(n as nat).len() + rest.len() == buf.len(),
        buf.subrange(pos + dec_of(n as nat).len(), buf.len() as int) == rest,
{
    let tail = buf.subrange(pos, buf.len() as int);
    let l = dec_of(n as nat).len() as int;
    assert(tail.len() == buf.len() - pos);
    assert(tail.len() == l + rest.len());
    assert(buf.subrange(pos, pos + l) =~= dec_of(n as nat)) by {
        assert forall|i: int| 0 <= i < l
            implies buf.subrange(pos, pos + l)[i] == dec_of(n as nat)[i] by {
            assert(buf[pos + i] == tail[i]);
        }
    }
    assert(buf.subrange(pos + l, buf.len() as int) =~= rest) by {
        assert forall|i: int| 0 <= i < rest.len()
            implies buf.subrange(pos + l, buf.len() as int)[i] == rest[i] by {
            assert(buf[pos + l + i] == tail[l + i]);
        }
    }
    if rest.len() > 0 {
        assert(buf[pos + l] == rest[0]);
    }
    lemma_read_dec_of(buf, pos, n);
}

/// Split a token at its dots into header, payload and signature parts; a
/// token has exactly three.
pub open spec fn spec_split(t: Seq<u8>) -> Option<(Seq<u8>, Seq<u8>, Seq<u8>)> {
    let d1 = byte_pos(t, 0, 46);
    let d2 = byte_pos(t, d1 + 1, 46);
    if d1 < t.len() && d2 < t.len() && byte_pos(t, d2 + 1, 46) == t.len() {
        Some((t.subrange(0, d1), t.subrange(d1 + 1, d2), t.subrange(d2 + 1, t.len() as int)))
    } else {
        None
    }
}

fn split_token(t: &[u8]) -> (r: Option<(Vec<u8>, Vec<u8>, Vec<u8>)>)
    ensures
        match r {
            Some((h, p, s)) => spec_split(t@) == Some((h@, p@, s@)),
            None => spec_split(t@) is None,
        },
{
    let d1 = find_byte(t, 0, 46);
    if d1 >= t.len() {
        return None;
    }
    let d2 = find_byte(t, d1 + 1, 46);
    if d2 >= t.len() {
        return None;
    }
    let d3 = find_byte(t, d2 + 1, 46);
    if d3 < t.len() {
        return None;
    }
    Some((copy_range(t, 0, d1), copy_range(t, d1 + 1, d2), copy_range(t, d2 + 1, t.len())))
}

/// A token segment: free of dots, as base64url text and HS256 signature
/// text are.
pub open spec fn seg_wf(s: Seq<u8>) -> bool {
    forall|i: int| 0 <= i < s.len() ==> s[i] != 46
}

/// The claims shapes whose `sub` text parses back unambiguously: the form
/// id carries no slash. Generated form ids are alphanumeric.
pub open spec fn claims_wf_ch(c: ChallengeClaimsV) -> bool {
    forall|i: int| 0 <= i < c.form_id.len() ==> c.form_id[i] != 47
}

pub open spec fn claims_wf_ac(c: AccessClaimsV) -> bool {
    forall|i: int| 0 <= i < c.form_id.len() ==> c.form_id[i] != 47
}

/// `t` is the canonical token with header id `kid` over `payload`, signed
/// with `secret`, and its three segments are dot-free (as the minting
/// wrappers guarantee of base64url and signature text).
pub open spec fn token_wf(t: Seq<u8>, kid: Seq<u8>, payload: Seq<u8>, secret: Seq<u8>) -> bool {
    &&& t == jwt_bytes(kid, payload, secret)
    &&& seg_wf(b64url_of(header_bytes(kid)))
    &&& seg_wf(b64url_of(payload))
    &&& seg_wf(hs256_sig_of(secret, jwt_message(kid, payload)))
}

/// `t` is the canonical challenge token of `(kid, c)` under `secret`.
pub open spec fn is_canonical_challenge(t: Seq<u8>, secret: Seq<u8>, kid: Seq<u8>,
    c: ChallengeClaimsV) -> bool {
    claims_wf_ch(c) && token_wf(t, kid, challenge_payload(c), secret)
}

/// `t` is the canonical access token of `(kid, c)` under `secret`.
pub open spec fn is_canonical_access(t: Seq<u8>, secret: Seq<u8>, kid: Seq<u8>,
    c: AccessClaimsV) -> bool {
    claims_wf_ac(c) && token_wf(t, kid, access_payload(c), secret)
}

/// Splitting the canonical token yields exactly its three segments.
pub proof fn lemma_split_of_token(kid: Seq<u8>, payload: Seq<u8>, secret: Seq<u8>)
    requires
        seg_wf(b64url_of(header_bytes(kid))),
        seg_wf(b64url_of(payload)),
        seg_wf(hs256_sig_of(secret, jwt_message(kid, payload))),
    ensures
        spec_split(jwt_bytes(kid, payload, secret)) == Some((b64url_of(header_bytes(kid)),
            b64url_of(payload), hs256_sig_of(secret, jwt_message(kid, payload)))),
{
    let h64 = b64url_of(header_bytes(kid));
    let p64 = b64url_of(payload);
    let sig = hs256_sig_of(secret, jwt_message(kid, payload));
    let t = jwt_bytes(kid, payload, secret);
    let hl = h64.len() as int;
    let pl = p64.len() as int;
    let sl = sig.len() as int;
    assert(t.len() == hl + 1 + pl + 1 + sl);
    assert forall|i: int| 0 <= i < hl implies t[i] == h64[i] && t[i] != 46 by {
        assert(t[i] == jwt_message(kid, payload)[i]);
    }
    assert(t[hl] == jwt_message(kid, payload)[hl]);
    assert(t[hl] == 46);
    assert forall|i: int| 0 <= i < pl
        implies t[hl + 1 + i] == p64[i] && t[hl + 1 + i] != 46 by {
        assert(t[hl + 1 + i] == jwt_message(kid, payload)[hl + 1 + i]);
    }
    assert(t[hl + 1 + pl] == 46);
    assert forall|i: int| 0 <= i < sl
        implies t[hl + 1 + pl + 1 + i] == sig[i] && t[hl + 1 + pl + 1 + i] != 46 by {
    }
    lemma_byte_run(t, 0, hl, 46);
    lemma_byte_run(t, hl + 1, hl + 1 + pl, 46);
    lemma_byte_run(t, hl + 1 + pl + 1, t.len() as int, 46);
    assert(t.subrange(0, hl) =~= h64);
    assert(t.subrange(hl + 1, hl + 1 + pl) =~= p64);
    assert(t.subrange(hl + 1 + pl + 1, t.len() as int) =~= sig);
}

/// Parse the header JSON: it must be exactly the canonical header and
/// yields the `kid` it carries.
pub open spec fn spec_parse_header(h: Seq<u8>) -> Option<Seq<u8>> {
    if has_lit_at(h, 0, lit_hdr1()) {
        match spec_read_str(h, lit_hdr1().len() as int) {
            Some((kid, p)) => if p + 1 == h.len() && h[p] == 125 {
                Some(kid)
            } else {
                None
            },
            None => None,
        }
    } else {
        None
    }
}

fn parse_header(h: &[u8]) -> (r: Option<Vec<u8>>)
    ensures
        match r {
            Some(kid) => spec_parse_header(h@) == Some(kid@),
            None => spec_parse_header(h@) is None,
        },
{
    let lit = arr_hdr1();
    let p0 = match expect_lit(h, 0, lit.as_slice()) {
        Some(p) => p,
        None => {
            return None;
        },
    };
    match read_json_str(h, p0) {
        Some((kid, p)) => {
            if p < h.len() && h[p] == 125 && p + 1 == h.len() {
                Some(kid)
            } else {
                None
            }
        },
        None => None,
    }
}

/// The canonical header reads back its `kid`.
pub proof fn lemma_header_rt(kid: Seq<u8>)
    ensures
        spec_parse_header(header_bytes(kid)) == Some(kid),
{
    let h = header_bytes(kid);
    assert(h.subrange(0, h.len() as int) =~= h);
    lemma_step_lit(h, 0, lit_hdr1(), json_esc(kid) + lit_q() + lit_rb());
    let l0 = lit_hdr1().len() as int;
    lemma_step_str(h, l0, kid, lit_rb());
    let p = l0 + json_esc(kid).len() + 1;
    assert(h[p] == h.subrange(p, h.len() as int)[0]);
    assert(h[p] == 125);
}

/// Parse the `sub` text `<form_id>/<client_key_id>`: the form id runs to
/// the first slash, the digits after it must fill the rest.
pub open spec fn spec_parse_sub(sub: Seq<u8>) -> Option<(Seq<u8>, u64)> {
    let s = byte_pos(sub, 0, 47);
    if s < sub.len() {
        match spec_read_u64(sub, s + 1) {
            Some((n, p)) => if p == sub.len() {
                Some((sub.subrange(0, s), n))
            } else {
                None
            },
            None => None,
        }
    } else {
        None
    }
}

fn parse_sub(sub: &[u8]) -> (r: Option<(Vec<u8>, u64)>)
    ensures
        match r {
            Some((f, n)) => spec_parse_sub(sub@) == Some((f@, n)),
            None => spec_parse_sub(sub@) is None,
        },
{
    let s = find_byte(sub, 0, 47);
    if s >= sub.len() {
        return None;
    }
    match read_u64(sub, s + 1) {
        Some((n, p)) => {
            if p == sub.len() {
                Some((copy_range(sub, 0, s), n))
            } else {
                None
            }
        },
        None => None,
    }
}

/// The canonical `sub` text of a slash-free form id reads back its parts.
pub proof fn lemma_parse_sub_rt(form: Seq<u8>, ckid: u64)
    requires
        forall|i: int| 0 <= i < form.len() ==> form[i] != 47,
    ensures
        spec_parse_sub(sub_bytes(form, ckid)) == Some((form, ckid)),
{
    let sub = sub_bytes(form, ckid);
    let fl = form.len() as int;
    lemma_dec_of(ckid as nat);
    assert forall|i: int| 0 <= i < fl implies sub[i] == form[i] && sub[i] != 47 by {
        assert(sub[i] == (form + seq![47u8])[i]);
    }
    assert(sub[fl] == (form + seq![47u8])[fl]);
    assert(sub[fl] == 47);
    lemma_byte_run(sub, 0, fl, 47);
    assert(sub.subrange(fl + 1, sub.len() as int) =~= dec_of(ckid as nat));
    lemma_read_dec_of(sub, fl + 1, ckid);
    assert(sub.subrange(0, fl) =~= form);
}

/// A parsed form id never contains a slash.
pub proof fn lemma_parse_sub_wf(sub: Seq<u8>)
    ensures
        spec_parse_sub(sub) matches Some((f, n))
            ==> forall|i: int| 0 <= i < f.len() ==> f[i] != 47,
{
    lemma_byte_pos(sub, 0, 47);
}

/// Parse a challenge token's claims JSON, strictly in the canonical
/// shape, one field at a time.
pub open spec fn sp_ch_nonce(p: Seq<u8>, pos: int, form: Seq<u8>, ckid: u64, aud: Seq<u8>,
    iss: Seq<u8>, iat: u64, exp: u64, jti: Seq<u8>) -> Option<ChallengeClaimsV> {
    if !has_lit_at(p, pos, lit_nonce()) {
        None
    } else {
        match spec_read_str(p, pos + lit_nonce().len()) {
            None => None,
            Some((nb, p7)) => if p7 + 1 == p.len() && p[p7] == 125 {
                Some(ChallengeClaimsV {
                    form_id: form,
                    client_key_id: ckid,
                    aud,
                    iss,
                    iat,
                    exp,
                    jti,
                    nonce_b64: nb,
                })
            } else {
                None
            },
        }
    }
}

pub open spec fn sp_ch_jti(p: Seq<u8>, pos: int, form: Seq<u8>, ckid: u64, aud: Seq<u8>,
    iss: Seq<u8>, iat: u64, exp: u64) -> Option<ChallengeClaimsV> {
    if !has_lit_at(p, pos, lit_jti()) {
        None
    } else {
        match spec_read_str(p, pos + lit_jti().len()) {
            None => None,
            Some((jti, p6)) => sp_ch_nonce(p, p6, form, ckid, aud, iss, iat, exp, jti),
        }
    }
}

pub open spec fn sp_ch_exp(p: Seq<u8>, pos: int, form: Seq<u8>, ckid: u64, aud: Seq<u8>,
    iss: Seq<u8>, iat: u64) -> Option<ChallengeClaimsV> {
    if !has_lit_at(p, pos, lit_exp()) {
        None
    } else {
        match spec_read_u64(p, pos + lit_exp().len()) {
            None => None,
            Some((exp, p5)) => sp_ch_jti(p, p5, form, ckid, aud, iss, iat, exp),
        }
    }
}

pub open spec fn sp_ch_iat(p: Seq<u8>, pos: int, form: Seq<u8>, ckid: u64, aud: Seq<u8>,
    iss: Seq<u8>) -> Option<ChallengeClaimsV> {
    if !has_lit_at(p, pos, lit_iat()) {
        None
    } else {
        match spec_read_u64(p, pos + lit_iat().len()) {
            None => None,
            Some((iat, p4)) => sp_ch_exp(p, p4, form, ckid, aud, iss, iat),
        }
    }
}

pub open spec fn sp_ch_iss(p: Seq<u8>, pos: int, form: Seq<u8>, ckid: u64, aud: Seq<u8>)
    -> Option<ChallengeClaimsV> {
    if !has_lit_at(p, pos, lit_iss()) {
        None
    } else {
        match spec_read_str(p, pos + lit_iss().len()) {
            None => None,
            Some((iss, p3)) => sp_ch_iat(p, p3, form, ckid, aud, iss),
        }
    }
}

pub open spec fn sp_ch_aud(p: Seq<u8>, pos: int, form: Seq<u8>, ckid: u64)
    -> Option<ChallengeClaimsV> {
    if !has_lit_at(p, pos, lit_aud()) {
        None
    } else {
        match spec_read_str(p, pos + lit_aud().len()) {
            None => None,
            Some((aud, p2)) => sp_ch_iss(p, p2, form, ckid, aud),
        }
    }
}

pub open spec fn spec_parse_challenge(p: Seq<u8>) -> Option<ChallengeClaimsV> {
    if !has_lit_at(p, 0, lit_ch1()) {
        None
    } else {
        match spec_read_str(p, lit_ch1().len() as int) {
            None => None,
            Some((sub, p1)) => match spec_parse_sub(sub) {
                None => None,
                Some((form, ckid)) => sp_ch_aud(p, p1, form, ckid),
            },
        }
    }
}

fn parse_challenge(p: &[u8]) -> (r: Option<ChallengeClaims>)
    ensures
        match r {
            Some(c) => spec_parse_challenge(p@) == Some(c@) && claims_wf_ch(c@),
            None => spec_parse_challenge(p@) is None,
        },
{
    let lit1 = arr_ch1();
    let p0 = match expect_lit(p, 0, lit1.as_slice()) {
        Some(x) => x,
        None => {
            return None;
        },
    };
    let (sub, p1) = match read_json_str(p, p0) {
        Some(x) => x,
        None => {
            return None;
        },
    };
    let (form, ckid) = match parse_sub(sub.as_slice()) {
        Some(x) => x,
        None => {
            return None;
        },
    };
    let lit2 = arr_aud();
    let q1 = match expect_lit(p, p1, lit2.as_slice()) {
        Some(x) => x,
        None => {
            return None;
        },
    };
    let (aud, p2) = match read_json_str(p, q1) {
        Some(x) => x,
        None => {
            return None;
        },
    };
    let lit3 = arr_iss();
    let q2 = match expect_lit(p, p2, lit3.as_slice()) {
        Some(x) => x,
        None => {
            return None;
        },
    };
    let (iss, p3) = match read_json_str(p, q2) {
        Some(x) => x,
        None => {
            return None;
        },
    };
    let lit4 = arr_iat();
    let q3 = match expect_lit(p, p3, lit4.as_slice()) {
        Some(x) => x,
        None => {
            return None;
        },
    };
    let (iat, p4) = match read_u64(p, q3) {
        Some(x) => x,
        None => {
            return None;
        },
    };
    let lit5 = arr_exp();
    let q4 = match expect_lit(p, p4, lit5.as_slice()) {
        Some(x) => x,
        None => {
            return None;
        },
    };
    let (exp, p5) = match read_u64(p, q4) {
        Some(x) => x,
        None => {
            return None;
        },
    };
    let lit6 = arr_jti();
    let q5 = match expect_lit(p, p5, lit6.as_slice()) {
        Some(x) => x,
        None => {
            return None;
        },
    };
    let (jti, p6) = match read_json_str(p, q5) {
        Some(x) => x,
        None => {
            return None;
        },
    };
    let lit7 = arr_nonce();
    let q6 = match expect_lit(p, p6, lit7.as_slice()) {
        Some(x) => x,
        None => {
            return None;
        },
    };
    let (nb, p7) = match read_json_str(p, q6) {
        Some(x) => x,
        None => {
            return None;
        },
    };
    if !(p7 < p.len() && p[p7] == 125 && p7 + 1 == p.len()) {
        return None;
    }
    proof {
        lemma_parse_sub_wf(sub@);
    }
    Some(ChallengeClaims {
        form_id: form,
        client_key_id: ckid,
        aud,
        iss,
        iat,
        exp,
        jti,
        nonce_b64: nb,
    })
}

/// Parse an access token's claims JSON, strictly in the canonical shape,
/// one field at a time.
pub open spec fn sp_ac_exp(p: Seq<u8>, pos: int, role: AccessRole, form: Seq<u8>, ckid: u64,
    aud: Seq<u8>, iss: Seq<u8>, iat: u64) -> Option<AccessClaimsV> {
    if !has_lit_at(p, pos, lit_exp()) {
        None
    } else {
        match spec_read_u64(p, pos + lit_exp().len()) {
            None => None,
            Some((exp, p6)) => if p6 + 1 == p.len() && p[p6] == 125 {
                Some(AccessClaimsV { role, form_id: form, client_key_id: ckid, aud, iss, iat, exp })
            } else {
                None
            },
        }
    }
}

pub open spec fn sp_ac_iat(p: Seq<u8>, pos: int, role: AccessRole, form: Seq<u8>, ckid: u64,
    aud: Seq<u8>, iss: Seq<u8>) -> Option<AccessClaimsV> {
    if !has_lit_at(p, pos, lit_iat()) {
        None
    } else {
        match spec_read_u64(p, pos + lit_iat().len()) {
            None => None,
            Some((iat, p5)) => sp_ac_exp(p, p5, role, form, ckid, aud, iss, iat),
        }
    }
}

pub open spec fn sp_ac_iss(p: Seq<u8>, pos: int, role: AccessRole, form: Seq<u8>, ckid: u64,
    aud: Seq<u8>) -> Option<AccessClaimsV> {
    if !has_lit_at(p, pos, lit_iss()) {
        None
    } else {
        match spec_read_str(p, pos + lit_iss().len()) {
            None => None,
            Some((iss, p4)) => sp_ac_iat(p, p4, role, form, ckid, aud, iss),
        }
    }
}

pub open spec fn sp_ac_aud(p: Seq<u8>, pos: int, role: AccessRole, form: Seq<u8>, ckid: u64)
    -> Option<AccessClaimsV> {
    if !has_lit_at(p, pos, lit_aud()) {
        None
    } else {
        match spec_read_str(p, pos + lit_aud().len()) {
            None => None,
            Some((aud, p3)) => sp_ac_iss(p, p3, role, form, ckid, aud),
        }
    }
}

pub open spec fn sp_ac_sub(p: Seq<u8>, pos: int, role: AccessRole) -> Option<AccessClaimsV> {
    if !has_lit_at(p, pos, lit_sub()) {
        None
    } else {
        match spec_read_str(p, pos + lit_sub().len()) {
            None => None,
            Some((sub, p2)) => match spec_parse_sub(sub) {
                None => None,
                Some((form, ckid)) => sp_ac_aud(p, p2, role, form, ckid),
            },
        }
    }
}

pub open spec fn spec_parse_access(p: Seq<u8>) -> Option<AccessClaimsV> {
    if !has_lit_at(p, 0, lit_ac1()) {
        None
    } else {
        match spec_read_str(p, lit_ac1().len() as int) {
            None => None,
            Some((role_text, p1)) => if role_text == lit_admin() {
                sp_ac_sub(p, p1, AccessRole::Admin)
            } else if role_text == lit_read() {
                sp_ac_sub(p, p1, AccessRole::Read)
            } else {
                None
            },
        }
    }
}

fn parse_access(p: &[u8]) -> (r: Option<AccessClaims>)
    ensures
        match r {
            Some(c) => spec_parse_access(p@) == Some(c@) && claims_wf_ac(c@),
            None => spec_parse_access(p@) is None,
        },
{
    let lit1 = arr_ac1();
    let p0 = match expect_lit(p, 0, lit1.as_slice()) {
        Some(x) => x,
        None => {
            return None;
        },
    };
    let (role_text, p1) = match read_json_str(p, p0) {
        Some(x) => x,
        None => {
            return None;
        },
    };
    let admin = arr_admin();
    let read = arr_read();
    let role: AccessRole = if bytes_eq(role_text.as_slice(), admin.as_slice()) {
        AccessRole::Admin
    } else if bytes_eq(role_text.as_slice(), read.as_slice()) {
        AccessRole::Read
    } else {
        return None;
    };
    let lit2 = arr_sub();
    let q1 = match expect_lit(p, p1, lit2.as_slice()) {
        Some(x) => x,
        None => {
            return None;
        },
    };
    let (sub, p2) = match read_json_str(p, q1) {
        Some(x) => x,
        None => {
            return None;
        },
    };
    let (form, ckid) = match parse_sub(sub.as_slice()) {
        Some(x) => x,
        None => {
            return None;
        },
    };
    let lit3 = arr_aud();
    let q2 = match expect_lit(p, p2, lit3.as_slice()) {
        Some(x) => x,
        None => {
            return None;
        },
    };
    let (aud, p3) = match read_json_str(p, q2) {
        Some(x) => x,
        None => {
            return None;
        },
    };
    let lit4 = arr_iss();
    let q3 = match expect_lit(p, p3, lit4.as_slice()) {
        Some(x) => x,
        None => {
            return None;
        },
    };
    let (iss, p4) = match read_json_str(p, q3) {
        Some(x) => x,
        None => {
            return None;
        },
    };
    let lit5 = arr_iat();
    let q4 = match expect_lit(p, p4, lit5.as_slice()) {
        Some(x) => x,
        None => {
            return None;
        },
    };
    let (iat, p5) = match read_u64(p, q4) {
        Some(x) => x,
        None => {
            return None;
        },
    };
    let lit6 = arr_exp();
    let q5 = match expect_lit(p, p5, lit6.as_slice()) {
        Some(x) => x,
        None => {
            return None;
        },
    };
    let (exp, p6) = match read_u64(p, q5) {
        Some(x) => x,
        None => {
            return None;
        },
    };
    if !(p6 < p.len() && p[p6] == 125 && p6 + 1 == p.len()) {
        return None;
    }
    proof {
        lemma_parse_sub_wf(sub@);
    }
    Some(AccessClaims { role, form_id: form, client_key_id: ckid, aud, iss, iat, exp })
}

/// The canonical challenge claims JSON reads back its claims.
#[verifier::rlimit(100)]
#[verifier::spinoff_prover]
pub proof fn lemma_challenge_rt(c: ChallengeClaimsV)
    requires
        claims_wf_ch(c),
    ensures
        spec_parse_challenge(challenge_payload(c)) == Some(c),
{
    let buf = challenge_payload(c);
    let sub = sub_bytes(c.form_id, c.client_key_id);
    let p0 = lit_ch1().len() as int;
    let p1 = p0 + json_esc(sub).len() + 1;
    let q1 = p1 + lit_aud().len();
    let p2 = q1 + json_esc(c.aud).len() + 1;
    let q2 = p2 + lit_iss().len();
    let p3 = q2 + json_esc(c.iss).len() + 1;
    lemma_challenge_rt_head(c);
    lemma_challenge_rt_mid(c, p3);
    let q3 = p3 + lit_iat().len();
    let p4 = q3 + dec_of(c.iat as nat).len();
    let q4 = p4 + lit_exp().len();
    let p5 = q4 + dec_of(c.exp as nat).len();
    lemma_challenge_rt_tail(c, p5);
    lemma_parse_sub_rt(c.form_id, c.client_key_id);
}

/// The head of the challenge claims JSON, through the `iss` field.
#[verifier::rlimit(100)]
#[verifier::spinoff_prover]
proof fn lemma_challenge_rt_head(c: ChallengeClaimsV)
    ensures
        ({
            let buf = challenge_payload(c);
            let sub = sub_bytes(c.form_id, c.client_key_id);
            let p0 = lit_ch1().len() as int;
            let p1 = p0 + json_esc(sub).len() + 1;
            let q1 = p1 + lit_aud().len();
            let p2 = q1 + json_esc(c.aud).len() + 1;
            let q2 = p2 + lit_iss().len();
            let p3 = q2 + json_esc(c.iss).len() + 1;
            &&& has_lit_at(buf, 0, lit_ch1())
            &&& spec_read_str(buf, p0) == Some((sub, p1))
            &&& has_lit_at(buf, p1, lit_aud())
            &&& spec_read_str(buf, q1) == Some((c.aud, p2))
            &&& has_lit_at(buf, p2, lit_iss())
            &&& spec_read_str(buf, q2) == Some((c.iss, p3))
            &&& 0 <= p3 <= buf.len()
            &&& buf.subrange(p3, buf.len() as int) == ch_tail1(c)
        }),
{
    let buf = challenge_payload(c);
    let sub = sub_bytes(c.form_id, c.client_key_id);
    assert(buf.subrange(0, buf.len() as int) =~= buf);
    lemma_step_lit(buf, 0, lit_ch1(), ch_sub_tail(c));
    let p0 = lit_ch1().len() as int;
    assert(ch_sub_tail(c) == json_esc(sub) + lit_q() + ch_aud_lit_tail(c));
    lemma_step_str(buf, p0, sub, ch_aud_lit_tail(c));
    let p1 = p0 + json_esc(sub).len() + 1;
    lemma_step_lit(buf, p1, lit_aud(), ch_aud_tail(c));
    let q1 = p1 + lit_aud().len();
    assert(ch_aud_tail(c) == json_esc(c.aud) + lit_q() + ch_iss_lit_tail(c));
    lemma_step_str(buf, q1, c.aud, ch_iss_lit_tail(c));
    let p2 = q1 + json_esc(c.aud).len() + 1;
    lemma_step_lit(buf, p2, lit_iss(), ch_iss_tail(c));
    let q2 = p2 + lit_iss().len();
    assert(ch_iss_tail(c) == json_esc(c.iss) + lit_q() + ch_tail1(c));
    lemma_step_str(buf, q2, c.iss, ch_tail1(c));
}

/// The middle of the challenge claims JSON: the `iat` and `exp` fields.
#[verifier::rlimit(100)]
#[verifier::spinoff_prover]
proof fn lemma_challenge_rt_mid(c: ChallengeClaimsV, p3: int)
    requires
        0 <= p3 <= challenge_payload(c).len(),
        challenge_payload(c).subrange(p3, challenge_payload(c).len() as int) == ch_tail1(c),
    ensures
        ({
            let buf = challenge_payload(c);
            let q3 = p3 + lit_iat().len();
            let p4 = q3 + dec_of(c.iat as nat).len();
            let q4 = p4 + lit_exp().len();
            let p5 = q4 + dec_of(c.exp as nat).len();
            &&& has_lit_at(buf, p3, lit_iat())
            &&& spec_read_u64(buf, q3) == Some((c.iat, p4))
            &&& has_lit_at(buf, p4, lit_exp())
            &&& spec_read_u64(buf, q4) == Some((c.exp, p5))
            &&& 0 <= p5 <= buf.len()
            &&& buf.subrange(p5, buf.len() as int) == ch_tail5(c)
        }),
{
    let buf = challenge_payload(c);
    lemma_step_lit(buf, p3, lit_iat(), ch_tail2(c));
    let q3 = p3 + lit_iat().len();
    assert(ch_tail2(c) == dec_of(c.iat as nat) + ch_tail3(c));
    assert(ch_tail3(c)[0] == 44);
    lemma_step_u64(buf, q3, c.iat, ch_tail3(c));
    let p4 = q3 + dec_of(c.iat as nat).len();
    lemma_step_lit(buf, p4, lit_exp(), ch_tail4(c));
    let q4 = p4 + lit_exp().len();
    assert(ch_tail4(c) == dec_of(c.exp as nat) + ch_tail5(c));
    assert(ch_tail5(c)[0] == 44);
    lemma_step_u64(buf, q4, c.exp, ch_tail5(c));
}

/// The tail of the challenge claims JSON: the `jti` and `nonce` fields and
/// the closing brace.
#[verifier::rlimit(100)]
#[verifier::spinoff_prover]
proof fn lemma_challenge_rt_tail(c: ChallengeClaimsV, p5: int)
    requires
        0 <= p5 <= challenge_payload(c).len(),
        challenge_payload(c).subrange(p5, challenge_payload(c).len() as int) == ch_tail5(c),
    ensures
        ({
            let buf = challenge_payload(c);
            let q5 = p5 + lit_jti().len();
            let p6 = q5 + json_esc(c.jti).len() + 1;
            let q6 = p6 + lit_nonce().len();
            let p7 = q6 + json_esc(c.nonce_b64).len() + 1;
            &&& has_lit_at(buf, p5, lit_jti())
            &&& spec_read_str(buf, q5) == Some((c.jti, p6))
            &&& has_lit_at(buf, p6, lit_nonce())
            &&& spec_read_str(buf, q6) == Some((c.nonce_b64, p7))
            &&& p7 + 1 == buf.len()
            &&& buf[p7] == 125
        }),
{
    let buf = challenge_payload(c);
    assert(ch_tail5(c) == lit_jti() + ch_tail6(c));
    lemma_step_lit(buf, p5, lit_jti(), ch_tail6(c));
    let q5 = p5 + lit_jti().len();
    assert(ch_tail6(c) == json_esc(c.jti) + lit_q() + ch_tail7(c));
    lemma_step_str(buf, q5, c.jti, ch_tail7(c));
    let p6 = q5 + json_esc(c.jti).len() + 1;
    assert(ch_tail7(c) == lit_nonce() + ch_tail8(c));
    lemma_step_lit(buf, p6, lit_nonce(), ch_tail8(c));
    let q6 = p6 + lit_nonce().len();
    assert(ch_tail8(c) == json_esc(c.nonce_b64) + lit_q() + lit_rb());
    lemma_step_str(buf, q6, c.nonce_b64, lit_rb());
    let p7 = q6 + json_esc(c.nonce_b64).len() + 1;
    assert(buf[p7] == buf.subrange(p7, buf.len() as int)[0]);
}

/// The canonical access claims JSON reads back its claims.
pub proof fn lemma_access_rt(c: AccessClaimsV)
    requires
        claims_wf_ac(c),
    ensures
        spec_parse_access(access_payload(c)) == Some(c),
{
    let buf = access_payload(c);
    let sub = sub_bytes(c.form_id, c.client_key_id);
    let rb = role_bytes(c.role);
    let p0 = lit_ac1().len() as int;
    let p1 = p0 + json_esc(rb).len() + 1;
    let q1 = p1 + lit_sub().len();
    let p2 = q1 + json_esc(sub).len() + 1;
    lemma_access_rt_head(c);
    lemma_access_rt_mid(c, p2);
    let q2 = p2 + lit_aud().len();
    let p3 = q2 + json_esc(c.aud).len() + 1;
    let q3 = p3 + lit_iss().len();
    let p4 = q3 + json_esc(c.iss).len() + 1;
    lemma_access_rt_tail(c, p4);
    lemma_parse_sub_rt(c.form_id, c.client_key_id);
    lemma_access_rt_stages(buf, c, p2, p3, p4);
    lemma_access_rt_final(buf, c, p1, p2);
}

/// Evaluate the staged access parse over the established field facts, for
/// any buffer carrying them.
#[verifier::rlimit(100)]
#[verifier::spinoff_prover]
proof fn lemma_access_rt_final(buf: Seq<u8>, c: AccessClaimsV, p1: int, p2: int)
    requires
        ({
            let sub = sub_bytes(c.form_id, c.client_key_id);
            let rb = role_bytes(c.role);
            let p0 = lit_ac1().len() as int;
            let q1 = p1 + lit_sub().len();
            &&& p1 == p0 + json_esc(rb).len() + 1
            &&& has_lit_at(buf, 0, lit_ac1())
            &&& spec_read_str(buf, p0) == Some((rb, p1))
            &&& has_lit_at(buf, p1, lit_sub())
            &&& spec_read_str(buf, q1) == Some((sub, p2))
            &&& spec_parse_sub(sub) == Some((c.form_id, c.client_key_id))
            &&& sp_ac_aud(buf, p2, c.role, c.form_id, c.client_key_id) == Some(c)
        }),
    ensures
        spec_parse_access(buf) == Some(c),
{
    let rb = role_bytes(c.role);
    assert(lit_admin() != lit_read()) by {
        assert(lit_admin().len() != lit_read().len());
    }
    if c.role == AccessRole::Admin {
        assert(rb == lit_admin());
    } else {
        assert(c.role == AccessRole::Read);
        assert(rb == lit_read());
    }
    assert(sp_ac_sub(buf, p1, c.role) == Some(c));
}

/// Evaluate the inner stages of the access parse, for any buffer carrying
/// the field facts.
#[verifier::rlimit(100)]
#[verifier::spinoff_prover]
proof fn lemma_access_rt_stages(buf: Seq<u8>, c: AccessClaimsV, p2: int, p3: int, p4: int)
    requires
        ({
            let q2 = p2 + lit_aud().len();
            let q3 = p3 + lit_iss().len();
            let q4 = p4 + lit_iat().len();
            let p5 = q4 + dec_of(c.iat as nat).len();
            let q5 = p5 + lit_exp().len();
            let p6 = q5 + dec_of(c.exp as nat).len();
            &&& has_lit_at(buf, p2, lit_aud())
            &&& spec_read_str(buf, q2) == Some((c.aud, p3))
            &&& has_lit_at(buf, p3, lit_iss())
            &&& spec_read_str(buf, q3) == Some((c.iss, p4))
            &&& has_lit_at(buf, p4, lit_iat())
            &&& spec_read_u64(buf, q4) == Some((c.iat, p5))
            &&& has_lit_at(buf, p5, lit_exp())
            &&& spec_read_u64(buf, q5) == Some((c.exp, p6))
            &&& p6 + 1 == buf.len()
            &&& buf[p6] == 125
        }),
    ensures
        sp_ac_aud(buf, p2, c.role, c.form_id, c.client_key_id) == Some(c),
{
    let q4 = p4 + lit_iat().len();
    let p5 = q4 + dec_of(c.iat as nat).len();
    assert(c == AccessClaimsV {
        role: c.role,
        form_id: c.form_id,
        client_key_id: c.client_key_id,
        aud: c.aud,
        iss: c.iss,
        iat: c.iat,
        exp: c.exp,
    });
    assert(sp_ac_exp(buf, p5, c.role, c.form_id, c.client_key_id, c.aud, c.iss, c.iat)
        == Some(c));
    assert(sp_ac_iat(buf, p4, c.role, c.form_id, c.client_key_id, c.aud, c.iss) == Some(c));
    assert(sp_ac_iss(buf, p3, c.role, c.form_id, c.client_key_id, c.aud) == Some(c));
}

/// The head of the access claims JSON, through the `sub` field.
#[verifier::rlimit(100)]
#[verifier::spinoff_prover]
proof fn lemma_access_rt_head(c: AccessClaimsV)
    ensures
        ({
            let buf = access_payload(c);
            let sub = sub_bytes(c.form_id, c.client_key_id);
            let rb = role_bytes(c.role);
            let p0 = lit_ac1().len() as int;
            let p1 = p0 + json_esc(rb).len() + 1;
            let q1 = p1 + lit_sub().len();
            let p2 = q1 + json_esc(sub).len() + 1;
            &&& has_lit_at(buf, 0, lit_ac1())
            &&& spec_read_str(buf, p0) == Some((rb, p1))
            &&& has_lit_at(buf, p1, lit_sub())
            &&& spec_read_str(buf, q1) == Some((sub, p2))
            &&& 0 <= p2 <= buf.len()
            &&& buf.subrange(p2, buf.len() as int) == ac_aud_lit_tail(c)
        }),
{
    let buf = access_payload(c);
    let sub = sub_bytes(c.form_id, c.client_key_id);
    let rb = role_bytes(c.role);
    assert(buf.subrange(0, buf.len() as int) =~= buf);
    lemma_step_lit(buf, 0, lit_ac1(), ac_role_tail(c));
    let p0 = lit_ac1().len() as int;
    assert(ac_role_tail(c) == json_esc(rb) + lit_q() + ac_sub_lit_tail(c));
    lemma_step_str(buf, p0, rb, ac_sub_lit_tail(c));
    let p1 = p0 + json_esc(rb).len() + 1;
    lemma_step_lit(buf, p1, lit_sub(), ac_sub_tail(c));
    let q1 = p1 + lit_sub().len();
    assert(ac_sub_tail(c) == json_esc(sub) + lit_q() + ac_aud_lit_tail(c));
    lemma_step_str(buf, q1, sub, ac_aud_lit_tail(c));
}

/// The middle of the access claims JSON: the `aud` and `iss` fields.
#[verifier::rlimit(100)]
#[verifier::spinoff_prover]
proof fn lemma_access_rt_mid(c: AccessClaimsV, p2: int)
    requires
        0 <= p2 <= access_payload(c).len(),
        access_payload(c).subrange(p2, access_payload(c).len() as int) == ac_aud_lit_tail(c),
    ensures
        ({
            let buf = access_payload(c);
            let q2 = p2 + lit_aud().len();
            let p3 = q2 + json_esc(c.aud).len() + 1;
            let q3 = p3 + lit_iss().len();
            let p4 = q3 + json_esc(c.iss).len() + 1;
            &&& has_lit_at(buf, p2, lit_aud())
            &&& spec_read_str(buf, q2) == Some((c.aud, p3))
            &&& has_lit_at(buf, p3, lit_iss())
            &&& spec_read_str(buf, q3) == Some((c.iss, p4))
            &&& 0 <= p4 <= buf.len()
            &&& buf.subrange(p4, buf.len() as int) == ac_tail3(c)
        }),
{
    let buf = access_payload(c);
    lemma_step_lit(buf, p2, lit_aud(), ac_aud_tail(c));
    let q2 = p2 + lit_aud().len();
    assert(ac_aud_tail(c) == json_esc(c.aud) + lit_q() + ac_iss_lit_tail(c));
    lemma_step_str(buf, q2, c.aud, ac_iss_lit_tail(c));
    let p3 = q2 + json_esc(c.aud).len() + 1;
    assert(ac_iss_lit_tail(c) == lit_iss() + ac_iss_tail(c));
    lemma_step_lit(buf, p3, lit_iss(), ac_iss_tail(c));
    let q3 = p3 + lit_iss().len();
    assert(ac_iss_tail(c) == json_esc(c.iss) + lit_q() + ac_tail3(c));
    lemma_step_str(buf, q3, c.iss, ac_tail3(c));
}

/// The tail of the access claims JSON: the `iat` and `exp` fields and the
/// closing brace.
#[verifier::rlimit(100)]
#[verifier::spinoff_prover]
proof fn lemma_access_rt_tail(c: AccessClaimsV, p4: int)
    requires
        0 <= p4 <= access_payload(c).len(),
        access_payload(c).subrange(p4, access_payload(c).len() as int) == ac_tail3(c),
    ensures
        ({
            let buf = access_payload(c);
            let q4 = p4 + lit_iat().len();
            let p5 = q4 + dec_of(c.iat as nat).len();
            let q5 = p5 + lit_exp().len();
            let p6 = q5 + dec_of(c.exp as nat).len();
            &&& has_lit_at(buf, p4, lit_iat())
            &&& spec_read_u64(buf, q4) == Some((c.iat, p5))
            &&& has_lit_at(buf, p5, lit_exp())
            &&& spec_read_u64(buf, q5) == Some((c.exp, p6))
            &&& p6 + 1 == buf.len()
            &&& buf[p6] == 125
        }),
{
    let buf = access_payload(c);
    assert(ac_tail3(c) == lit_iat() + ac_tail4(c));
    lemma_step_lit(buf, p4, lit_iat(), ac_tail4(c));
    let q4 = p4 + lit_iat().len();
    assert(ac_tail4(c) == dec_of(c.iat as nat) + ac_tail5(c));
    assert(ac_tail5(c)[0] == 44);
    lemma_step_u64(buf, q4, c.iat, ac_tail5(c));
    let p5 = q4 + dec_of(c.iat as nat).len();
    assert(ac_tail5(c) == lit_exp() + ac_tail6(c));
    lemma_step_lit(buf, p5, lit_exp(), ac_tail6(c));
    let q5 = p5 + lit_exp().len();
    assert(ac_tail6(c) == dec_of(c.exp as nat) + lit_rb());
    assert(lit_rb()[0] == 125);
    lemma_step_u64(buf, q5, c.exp, lit_rb());
    let p6 = q5 + dec_of(c.exp as nat).len();
    assert(buf[p6] == buf.subrange(p6, buf.len() as int)[0]);
}

/// A challenge claims JSON never parses as access claims: the `type`
/// values differ at their first byte.
#[verifier::rlimit(100)]
#[verifier::spinoff_prover]
pub proof fn lemma_challenge_not_access(c: ChallengeClaimsV)
    ensures
        spec_parse_access(challenge_payload(c)) is None,
{
    let p = challenge_payload(c);
    if has_lit_at(p, 0, lit_ac1()) {
        assert(p.subrange(0, lit_ac1().len() as int)[9] == lit_ac1()[9]);
        assert(p[9] == 97);
        assert(p[9] == lit_ch1()[9]);
        assert(lit_ch1()[9] == 99);
    }
}

/// An access claims JSON never parses as challenge claims.
#[verifier::rlimit(100)]
#[verifier::spinoff_prover]
pub proof fn lemma_access_not_challenge(c: AccessClaimsV)
    ensures
        spec_parse_challenge(access_payload(c)) is None,
{
    let p = access_payload(c);
    if has_lit_at(p, 0, lit_ch1()) {
        assert(p.subrange(0, lit_ch1().len() as int)[9] == lit_ch1()[9]);
        assert(p[9] == 99);
        assert(p[9] == lit_ac1()[9]);
        assert(lit_ac1()[9] == 97);
    }
}

/// The header of `t` carries `kid`: `t` splits, and some byte string whose
/// base64url text is the first segment parses as a header with this `kid`.
pub open spec fn kid_rel(t: Seq<u8>, kid: Seq<u8>) -> bool {
    match spec_split(t) {
        Some((h64, p64, sig)) => exists|h: Seq<u8>| b64url_of(h) == h64
            && spec_parse_header(h) == Some(kid),
        None => false,
    }
}

/// `t` is a well-signed challenge token under `secret` carrying claims `c`.
pub open spec fn challenge_rel(t: Seq<u8>, secret: Seq<u8>, c: ChallengeClaimsV) -> bool {
    match spec_split(t) {
        Some((h64, p64, sig)) => {
            &&& sig == hs256_sig_of(secret, h64 + seq![46u8] + p64)
            &&& exists|h: Seq<u8>| b64url_of(h) == h64 && spec_parse_header(h) is Some
            &&& exists|p: Seq<u8>| b64url_of(p) == p64 && spec_parse_challenge(p) == Some(c)
        },
        None => false,
    }
}

/// `t` is a well-signed access token under `secret` carrying claims `c`.
pub open spec fn access_rel(t: Seq<u8>, secret: Seq<u8>, c: AccessClaimsV) -> bool {
    match spec_split(t) {
        Some((h64, p64, sig)) => {
            &&& sig == hs256_sig_of(secret, h64 + seq![46u8] + p64)
            &&& exists|h: Seq<u8>| b64url_of(h) == h64 && spec_parse_header(h) is Some
            &&& exists|p: Seq<u8>| b64url_of(p) == p64 && spec_parse_access(p) == Some(c)
        },
        None => false,
    }
}

/// Extract the key id from a token's header, without verifying anything.
pub fn decode_kid(token: &[u8]) -> (r: Option<Vec<u8>>)
    ensures
        r matches Some(k) ==> kid_rel(token@, k@),
        forall|kid: Seq<u8>, payload: Seq<u8>, secret: Seq<u8>|
            token_wf(token@, kid, payload, secret) ==> (r matches Some(k) && k@ == kid),
{
    let parts = match split_token(token) {
        Some(x) => x,
        None => {
            proof {
                assert forall|kid: Seq<u8>, payload: Seq<u8>, secret: Seq<u8>|
                    token_wf(token@, kid, payload, secret) implies false by {
                    lemma_split_of_token(kid, payload, secret);
                }
            }
            return None;
        },
    };
    let (h64, p64, sig) = parts;
    let h = match b64url_decode(h64.as_slice()) {
        Some(h) => h,
        None => {
            proof {
                assert forall|kid: Seq<u8>, payload: Seq<u8>, secret: Seq<u8>|
                    token_wf(token@, kid, payload, secret) implies false by {
                    lemma_split_of_token(kid, payload, secret);
                    assert(h64@ == b64url_of(header_bytes(kid)));
                }
            }
            return None;
        },
    };
    match parse_header(h.as_slice()) {
        Some(k) => {
            proof {
                assert(kid_rel(token@, k@)) by {
                    assert(b64url_of(h@) == h64@ && spec_parse_header(h@) == Some(k@));
                }
                assert forall|kid: Seq<u8>, payload: Seq<u8>, secret: Seq<u8>|
                    token_wf(token@, kid, payload, secret) implies k@ == kid by {
                    lemma_split_of_token(kid, payload, secret);
                    assert(h64@ == b64url_of(header_bytes(kid)));
                    assert(h@ == header_bytes(kid));
                    lemma_header_rt(kid);
                }
            }
            Some(k)
        },
        None => {
            proof {
                assert forall|kid: Seq<u8>, payload: Seq<u8>, secret: Seq<u8>|
                    token_wf(token@, kid, payload, secret) implies false by {
                    lemma_split_of_token(kid, payload, secret);
                    assert(h64@ == b64url_of(header_bytes(kid)));
                    assert(h@ == header_bytes(kid));
                    lemma_header_rt(kid);
                }
            }
            None
        },
    }
}

/// Decode and signature-check a challenge token under the resolved
/// ephemeral secret. On the canonical challenge token of any `(kid, c)`
/// this returns exactly `c`; a canonical access token is refused; whatever
/// comes back satisfies the challenge-token relation.
pub fn decode_challenge(token: &[u8], secret: &[u8]) -> (r: Option<ChallengeClaims>)
    ensures
        forall|kid: Seq<u8>, c: ChallengeClaimsV| is_canonical_challenge(token@, secret@, kid, c)
            ==> (r matches Some(cc) && cc@ == c),
        forall|kid: Seq<u8>, c: AccessClaimsV| is_canonical_access(token@, secret@, kid, c)
            ==> r is None,
        r matches Some(cc) ==> challenge_rel(token@, secret@, cc@) && claims_wf_ch(cc@),
{
    let parts = match split_token(token) {
        Some(x) => x,
        None => {
            proof {
                assert forall|kid: Seq<u8>, c: ChallengeClaimsV|
                    is_canonical_challenge(token@, secret@, kid, c) implies false by {
                    lemma_split_of_token(kid, challenge_payload(c), secret@);
                }
            }
            return None;
        },
    };
    let (h64, p64, sig) = parts;
    let h = match b64url_decode(h64.as_slice()) {
        Some(h) => h,
        None => {
            proof {
                assert forall|kid: Seq<u8>, c: ChallengeClaimsV|
                    is_canonical_challenge(token@, secret@, kid, c) implies false by {
                    lemma_split_of_token(kid, challenge_payload(c), secret@);
                    assert(h64@ == b64url_of(header_bytes(kid)));
                }
            }
            return None;
        },
    };
    if parse_header(h.as_slice()).is_none() {
        proof {
            assert forall|kid: Seq<u8>, c: ChallengeClaimsV|
                is_canonical_challenge(token@, secret@, kid, c) implies false by {
                lemma_split_of_token(kid, challenge_payload(c), secret@);
                assert(h64@ == b64url_of(header_bytes(kid)));
                assert(h@ == header_bytes(kid));
                lemma_header_rt(kid);
            }
        }
        return None;
    }
    let p = match b64url_decode(p64.as_slice()) {
        Some(p) => p,
        None => {
            proof {
                assert forall|kid: Seq<u8>, c: ChallengeClaimsV|
                    is_canonical_challenge(token@, secret@, kid, c) implies false by {
                    lemma_split_of_token(kid, challenge_payload(c), secret@);
                    assert(p64@ == b64url_of(challenge_payload(c)));
                }
            }
            return None;
        },
    };
    let claims = match parse_challenge(p.as_slice()) {
        Some(c) => c,
        None => {
            proof {
                assert forall|kid: Seq<u8>, c: ChallengeClaimsV|
                    is_canonical_challenge(token@, secret@, kid, c) implies false by {
                    lemma_split_of_token(kid, challenge_payload(c), secret@);
                    assert(p64@ == b64url_of(challenge_payload(c)));
                    assert(p@ == challenge_payload(c));
                    lemma_challenge_rt(c);
                }
            }
            return None;
        },
    };
    let mut msg: Vec<u8> = Vec::new();
    write_bytes(&mut msg, h64.as_slice());
    msg.push(46);
    write_bytes(&mut msg, p64.as_slice());
    proof {
        assert(msg@ =~= h64@ + seq![46u8] + p64@);
    }
    if !hs256_verify(secret, msg.as_slice(), sig.as_slice()) {
        proof {
            assert forall|kid: Seq<u8>, c: ChallengeClaimsV|
                is_canonical_challenge(token@, secret@, kid, c) implies false by {
                lemma_split_of_token(kid, challenge_payload(c), secret@);
                assert(sig@ == hs256_sig_of(secret@, jwt_message(kid, challenge_payload(c))));
                assert(jwt_message(kid, challenge_payload(c)) =~= msg@);
            }
        }
        return None;
    }
    proof {
        assert(challenge_rel(token@, secret@, claims@)) by {
            assert(b64url_of(h@) == h64@ && spec_parse_header(h@) is Some);
            assert(b64url_of(p@) == p64@ && spec_parse_challenge(p@) == Some(claims@));
        }
        assert forall|kid: Seq<u8>, c: ChallengeClaimsV|
            is_canonical_challenge(token@, secret@, kid, c) implies claims@ == c by {
            lemma_split_of_token(kid, challenge_payload(c), secret@);
            assert(p64@ == b64url_of(challenge_payload(c)));
            assert(p@ == challenge_payload(c));
            lemma_challenge_rt(c);
        }
        assert forall|kid: Seq<u8>, c: AccessClaimsV|
            is_canonical_access(token@, secret@, kid, c) implies false by {
            lemma_split_of_token(kid, access_payload(c), secret@);
            assert(p64@ == b64url_of(access_payload(c)));
            assert(p@ == access_payload(c));
            lemma_access_not_challenge(c);
        }
    }
    Some(claims)
}

/// Decode and signature-check an access token under the resolved ephemeral
/// secret; the mirror image of `decode_challenge`.
pub fn decode_access(token: &[u8], secret: &[u8]) -> (r: Option<AccessClaims>)
    ensures
        forall|kid: Seq<u8>, c: AccessClaimsV| is_canonical_access(token@, secret@, kid, c)
            ==> (r matches Some(cc) && cc@ == c),
        forall|kid: Seq<u8>, c: ChallengeClaimsV| is_canonical_challenge(token@, secret@, kid, c)
            ==> r is None,
        r matches Some(cc) ==> access_rel(token@, secret@, cc@) && claims_wf_ac(cc@),
{
    let parts = match split_token(token) {
        Some(x) => x,
        None => {
            proof {
                assert forall|kid: Seq<u8>, c: AccessClaimsV|
                    is_canonical_access(token@, secret@, kid, c) implies false by {
                    lemma_split_of_token(kid, access_payload(c), secret@);
                }
            }
            return None;
        },
    };
    let (h64, p64, sig) = parts;
    let h = match b64url_decode(h64.as_slice()) {
        Some(h) => h,
        None => {
            proof {
                assert forall|kid: Seq<u8>, c: AccessClaimsV|
                    is_canonical_access(token@, secret@, kid, c) implies false by {
                    lemma_split_of_token(kid, access_payload(c), secret@);
                    assert(h64@ == b64url_of(header_bytes(kid)));
                }
            }
            return None;
        },
    };
    if parse_header(h.as_slice()).is_none() {
        proof {
            assert forall|kid: Seq<u8>, c: AccessClaimsV|
                is_canonical_access(token@, secret@, kid, c) implies false by {
                lemma_split_of_token(kid, access_payload(c), secret@);
                assert(h64@ == b64url_of(header_bytes(kid)));
                assert(h@ == header_bytes(kid));
                lemma_header_rt(kid);
            }
        }
        return None;
    }
    let p = match b64url_decode(p64.as_slice()) {
        Some(p) => p,
        None => {
            proof {
                assert forall|kid: Seq<u8>, c: AccessClaimsV|
                    is_canonical_access(token@, secret@, kid, c) implies false by {
                    lemma_split_of_token(kid, access_payload(c), secret@);
                    assert(p64@ == b64url_of(access_payload(c)));
                }
            }
            return None;
        },
    };
    let claims = match parse_access(p.as_slice()) {
        Some(c) => c,
        None => {
            proof {
                assert forall|kid: Seq<u8>, c: AccessClaimsV|
                    is_canonical_access(token@, secret@, kid, c) implies false by {
                    lemma_split_of_token(kid, access_payload(c), secret@);
                    assert(p64@ == b64url_of(access_payload(c)));
                    assert(p@ == access_payload(c));
                    lemma_access_rt(c);
                }
            }
            return None;
        },
    };
    let mut msg: Vec<u8> = Vec::new();
    write_bytes(&mut msg, h64.as_slice());
    msg.push(46);
    write_bytes(&mut msg, p64.as_slice());
    proof {
        assert(msg@ =~= h64@ + seq![46u8] + p64@);
    }
    if !hs256_verify(secret, msg.as_slice(), sig.as_slice()) {
        proof {
            assert forall|kid: Seq<u8>, c: AccessClaimsV|
                is_canonical_access(token@, secret@, kid, c) implies false by {
                lemma_split_of_token(kid, access_payload(c), secret@);
                assert(sig@ == hs256_sig_of(secret@, jwt_message(kid, access_payload(c))));
                assert(jwt_message(kid, access_payload(c)) =~= msg@);
            }
        }
        return None;
    }
    proof {
        assert(access_rel(token@, secret@, claims@)) by {
            assert(b64url_of(h@) == h64@ && spec_parse_header(h@) is Some);
            assert(b64url_of(p@) == p64@ && spec_parse_access(p@) == Some(claims@));
        }
        assert forall|kid: Seq<u8>, c: AccessClaimsV|
            is_canonical_access(token@, secret@, kid, c) implies claims@ == c by {
            lemma_split_of_token(kid, access_payload(c), secret@);
            assert(p64@ == b64url_of(access_payload(c)));
            assert(p@ == access_payload(c));
            lemma_access_rt(c);
        }
        assert forall|kid: Seq<u8>, c: ChallengeClaimsV|
            is_canonical_challenge(token@, secret@, kid, c) implies false by {
            lemma_split_of_token(kid, challenge_payload(c), secret@);
            assert(p64@ == b64url_of(challenge_payload(c)));
            assert(p@ == challenge_payload(c));
            lemma_challenge_not_access(c);
        }
    }
    Some(claims)
}

/// Mint a challenge token; canonical whenever the claims are well-formed.
pub fn encode_challenge(kid: &[u8], c: &ChallengeClaims, secret: &[u8]) -> (r: Vec<u8>)
    ensures
        token_wf(r@, kid@, challenge_payload(c@), secret@),
        claims_wf_ch(c@) ==> is_canonical_challenge(r@, secret@, kid@, c@),
{
    let mut p: Vec<u8> = Vec::new();
    write_challenge_payload(&mut p, c);
    proof {
        assert(p@ =~= challenge_payload(c@));
    }
    sign_token(kid, p.as_slice(), secret)
}

/// Mint an access token; canonical whenever the claims are well-formed.
pub fn encode_access(kid: &[u8], c: &AccessClaims, secret: &[u8]) -> (r: Vec<u8>)
    ensures
        token_wf(r@, kid@, access_payload(c@), secret@),
        claims_wf_ac(c@) ==> is_canonical_access(r@, secret@, kid@, c@),
{
    let mut p: Vec<u8> = Vec::new();
    write_access_payload(&mut p, c);
    proof {
        assert(p@ =~= access_payload(c@));
    }
    sign_token(kid, p.as_slice(), secret)
}

} // verus!
