//! Passwordless "magic link" authentication core.
//!
//! All state needed to authenticate a user is carried, encrypted, inside a
//! token: an email, a one-way fingerprint of it, a random per-token nonce,
//! an expiry timestamp and a verification flag. The token is serialized to a
//! canonical record, sealed with authenticated encryption under a process-wide
//! secret key, and encoded as URL-safe text. The facade issues fresh tokens,
//! promotes unverified ones when a magic link is clicked, and checks verified
//! ones presented as session cookies.

pub mod auth;
pub mod b64;
pub mod clock;
pub mod codec;
pub mod crypto;
pub mod decimal;
pub mod email;
pub mod magic;
pub mod shortlink;
pub mod text;
