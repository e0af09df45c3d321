//! Authentication and key-custody core of a host for end-to-end-encrypted
//! contact forms. The server stores ciphertext and wrapped copies of a
//! form's private key but can read no submission; a challenge–response
//! handshake turns a client-held Ed25519 signing key into a short-lived
//! bearer token, validated against an ephemeral HMAC secret, a role, and
//! the live key registry.

pub mod api;
pub mod auth;
pub mod codec;
pub mod config;
pub mod crypto;
pub mod entropy;
pub mod jwt;
pub mod keys;
pub mod laws;
pub mod models;
pub mod router;
pub mod store;
pub mod text;
pub mod timefmt;
