//! The process-wide configuration: environment tag, current origin, token
//! lifetimes and the request body bound, built once at startup from the
//! environment's raw strings.

use vstd::prelude::*;
use vstd::string::StringSliceAdditionalSpecFns;
use crate::codec::{bytes_eq, read_u64, spec_read_u64};
use crate::store::sat_add;
use crate::text::{str_bytes, clone_string};

verus! {

/// Which deployment this process serves.
#[derive(Debug, Clone, Copy, PartialEq, Eq, Hash, Structural)]
pub enum WorkerEnv {
    Dev,
    Prod,
}

/// The configuration, immutable once built.
pub struct Config {
    env: WorkerEnv,
    origin: String,
    access_token_exp: u64,
    challenge_token_exp: u64,
    max_request_body_len: u64,
}

/// A decimal `u64`: the whole text is one digit run whose value fits.
pub open spec fn parses_u64(s: Seq<u8>) -> bool {
    match spec_read_u64(s, 0) {
        Some((n, p)) => p == s.len(),
        None => false,
    }
}

pub open spec fn parsed_u64(s: Seq<u8>) -> u64 {
    spec_read_u64(s, 0)->Some_0.0
}

/// Parse a whole string as a decimal `u64`.
fn parse_u64_text(s: &str) -> (r: Option<u64>)
    ensures
        match r {
            Some(n) => parses_u64(s.spec_bytes()) && n == parsed_u64(s.spec_bytes()),
            None => !parses_u64(s.spec_bytes()),
        },
{
    let b = str_bytes(s);
    match read_u64(b.as_slice(), 0) {
        Some((n, p)) => if p == b.len() {
            Some(n)
        } else {
            None
        },
        None => None,
    }
}

/// The bytes of `dev`.
pub open spec fn lit_dev() -> Seq<u8> {
    seq![100u8, 101u8, 118u8]
}

/// The bytes of `prod`.
pub open spec fn lit_prod() -> Seq<u8> {
    seq![112u8, 114u8, 111u8, 100u8]
}

/// Build the configuration from the environment's raw strings; `None` when
/// the environment tag is neither `dev` nor `prod` or a number does not
/// parse.
pub fn init(env: &str, origin: String, access_token_exp: &str, challenge_token_exp: &str,
    max_request_body_len: &str) -> (r: Option<Config>)
    ensures
        r is Some <==> ((env.spec_bytes() == lit_dev() || env.spec_bytes() == lit_prod())
            && parses_u64(access_token_exp.spec_bytes())
            && parses_u64(challenge_token_exp.spec_bytes())
            && parses_u64(max_request_body_len.spec_bytes())),
        r matches Some(cfg) ==> ({
            &&& cfg.spec_env() == (if env.spec_bytes() == lit_dev() {
                WorkerEnv::Dev
            } else {
                WorkerEnv::Prod
            })
            &&& cfg.spec_origin() == origin@
            &&& cfg.spec_access_token_exp() == parsed_u64(access_token_exp.spec_bytes())
            &&& cfg.spec_challenge_token_exp() == parsed_u64(challenge_token_exp.spec_bytes())
            &&& cfg.spec_max_request_body_len()
                == parsed_u64(max_request_body_len.spec_bytes())
        }),
{
    let eb = str_bytes(env);
    let dev: [u8; 3] = [100u8, 101u8, 118u8];
    let prod: [u8; 4] = [112u8, 114u8, 111u8, 100u8];
    proof {
        assert(dev@ =~= lit_dev());
        assert(prod@ =~= lit_prod());
        assert(lit_dev() != lit_prod()) by {
            assert(lit_dev().len() != lit_prod().len());
        }
    }
    let tag: WorkerEnv = if bytes_eq(eb.as_slice(), dev.as_slice()) {
        WorkerEnv::Dev
    } else if bytes_eq(eb.as_slice(), prod.as_slice()) {
        WorkerEnv::Prod
    } else {
        return None;
    };
    let access = match parse_u64_text(access_token_exp) {
        Some(n) => n,
        None => {
            return None;
        },
    };
    let challenge = match parse_u64_text(challenge_token_exp) {
        Some(n) => n,
        None => {
            return None;
        },
    };
    let body_len = match parse_u64_text(max_request_body_len) {
        Some(n) => n,
        None => {
            return None;
        },
    };
    Some(Config {
        env: tag,
        origin,
        access_token_exp: access,
        challenge_token_exp: challenge,
        max_request_body_len: body_len,
    })
}

impl Config {
    pub closed spec fn spec_env(&self) -> WorkerEnv {
        self.env
    }

    pub closed spec fn spec_origin(&self) -> Seq<char> {
        self.origin@
    }

    /// The origin's UTF-8 bytes, as they appear in token claims.
    pub open spec fn origin_bytes(&self) -> Seq<u8> {
        vstd::utf8::encode_utf8(self.spec_origin())
    }

    pub closed spec fn spec_access_token_exp(&self) -> u64 {
        self.access_token_exp
    }

    pub closed spec fn spec_challenge_token_exp(&self) -> u64 {
        self.challenge_token_exp
    }

    pub closed spec fn spec_max_request_body_len(&self) -> u64 {
        self.max_request_body_len
    }

    pub fn env(&self) -> (r: WorkerEnv)
        ensures
            r == self.spec_env(),
    {
        self.env
    }

    /// The configured origin, which every token carries as both audience
    /// and issuer.
    pub fn current_origin(&self) -> (r: String)
        ensures
            r@ == self.spec_origin(),
    {
        clone_string(&self.origin)
    }

    /// The origins a token's audience and issuer may name: just the
    /// current origin.
    pub fn allowed_origins(&self) -> (r: Vec<String>)
        ensures
            r@.len() == 1,
            r@[0]@ == self.spec_origin(),
    {
        let mut v: Vec<String> = Vec::new();
        v.push(clone_string(&self.origin));
        v
    }

    /// The origin's bytes, for building and checking claims.
    pub fn origin_text(&self) -> (r: Vec<u8>)
        ensures
            r@ == self.origin_bytes(),
    {
        str_bytes(self.origin.as_str())
    }

    pub fn access_token_exp(&self) -> (r: u64)
        ensures
            r == self.spec_access_token_exp(),
    {
        self.access_token_exp
    }

    pub fn challenge_token_exp(&self) -> (r: u64)
        ensures
            r == self.spec_challenge_token_exp(),
    {
        self.challenge_token_exp
    }

    pub fn max_request_body_len(&self) -> (r: u64)
        ensures
            r == self.spec_max_request_body_len(),
    {
        self.max_request_body_len
    }

    /// Ephemeral keys outlive their access tokens twofold, so a just-issued
    /// token is verifiable even under clock skew.
    pub fn server_key_ttl(&self) -> (r: u64)
        ensures
            r == sat_add(sat_add(0, self.spec_access_token_exp()), self.spec_access_token_exp()),
    {
        let e = self.access_token_exp;
        if e <= u64::MAX - e {
            e + e
        } else {
            u64::MAX
        }
    }

    /// Challenge markers outlive their challenge tokens twofold.
    pub fn challenge_ttl(&self) -> (r: u64)
        ensures
            r == sat_add(sat_add(0, self.spec_challenge_token_exp()),
                self.spec_challenge_token_exp()),
    {
        let e = self.challenge_token_exp;
        if e <= u64::MAX - e {
            e + e
        } else {
            u64::MAX
        }
    }
}

} // verus!
