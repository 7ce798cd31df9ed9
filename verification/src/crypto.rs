//! Trusted wrappers over the orion and hex crates: authenticated encryption,
//! the email digest, secure random bytes, and hex rendering.

use vstd::prelude::*;
use crate::text::{bytes_chars, plain_byte, plain_bytes};

verus! {

/// What `orion::aead::open` returns for a key and a ciphertext: decryption is
/// a function of those two alone.
pub uninterp spec fn aead_open_of(key: Seq<u8>, cipher: Seq<u8>) -> Option<Seq<u8>>;

/// What `orion::hash::digest` returns: a digest that is a function of the
/// input bytes alone.
pub uninterp spec fn digest_of(data: Seq<u8>) -> Seq<u8>;

/// Relies on `orion::aead::seal` (XChaCha20-Poly1305): each call draws a
/// fresh random nonce, the result is 40 bytes longer than the plaintext
/// (24-byte nonce and 16-byte tag), and opening it under the same key gives
/// the plaintext back.
#[verifier::external_body]
pub fn aead_seal(key: &[u8], msg: &[u8]) -> (r: Option<Vec<u8>>)
    requires
        key@.len() == 32,
        msg@.len() >= 1,
    ensures
        r is Some ==> aead_open_of(key@, r->0@) == Some(msg@) && r->0@.len() == msg@.len() + 40,
{
    let sk = orion::aead::SecretKey::try_from(key).ok()?;
    orion::aead::seal(&sk, msg).ok()
}

/// Relies on `orion::aead::open` (XChaCha20-Poly1305): authenticated
/// decryption, a deterministic function of the key and the ciphertext, named
/// by `aead_open_of`.
#[verifier::external_body]
pub fn aead_open(key: &[u8], cipher: &[u8]) -> (r: Option<Vec<u8>>)
    requires
        key@.len() == 32,
    ensures
        r is Some <==> aead_open_of(key@, cipher@) is Some,
        r is Some ==> r->0@ == aead_open_of(key@, cipher@)->0,
{
    let sk = orion::aead::SecretKey::try_from(key).ok()?;
    orion::aead::open(&sk, cipher).ok()
}

/// Relies on `orion::hash::digest` (BLAKE2b-256): a 32-byte digest of the
/// input bytes alone, named by `digest_of`.
#[verifier::external_body]
pub fn blake2b256_digest(data: &[u8]) -> (r: Option<Vec<u8>>)
    ensures
        r is Some ==> r->0@ == digest_of(data@) && r->0@.len() == 32,
{
    let d = orion::hash::digest(data).ok()?;
    Some(d.as_ref().to_vec())
}

/// Relies on `orion::util::secure_rand_bytes`: fills a 16-byte buffer with
/// random bytes; nothing can be said of their values.
#[verifier::external_body]
pub fn random_bytes_16() -> (r: Option<Vec<u8>>)
    ensures
        r is Some ==> r->0@.len() == 16,
{
    let mut buf = [0u8; 16];
    match orion::util::secure_rand_bytes(&mut buf) {
        Ok(()) => Some(buf.to_vec()),
        Err(_) => None,
    }
}

/// A nibble as a lowercase hexadecimal ASCII byte.
pub open spec fn hex_digit(v: int) -> u8 {
    if v < 10 {
        (0x30 + v) as u8  // '0'..'9'
    } else {
        (0x61 + (v - 10)) as u8  // 'a'..'f'
    }
}

/// The lowercase hexadecimal rendering of a byte sequence, two digits per
/// byte, as ASCII bytes.
pub open spec fn hex_bytes(s: Seq<u8>) -> Seq<u8>
    decreases s.len(),
{
    if s.len() == 0 {
        Seq::<u8>::empty()
    } else {
        seq![hex_digit(s[0] as int / 16), hex_digit(s[0] as int % 16)] + hex_bytes(s.skip(1))
    }
}

/// A hexadecimal rendering consists of plain bytes, two per input byte.
pub proof fn lemma_hex_plain(s: Seq<u8>)
    ensures
        plain_bytes(hex_bytes(s)),
        hex_bytes(s).len() == 2 * s.len(),
    decreases s.len(),
{
    if s.len() > 0 {
        lemma_hex_plain(s.skip(1));
        assert forall|i: int| 0 <= i < hex_bytes(s).len() implies plain_byte(
            #[trigger] hex_bytes(s)[i],
        ) by {
            assert(0 <= s[0] as int / 16 < 16);
            assert(0 <= s[0] as int % 16 < 16);
            if i >= 2 {
                assert(hex_bytes(s)[i] == hex_bytes(s.skip(1))[i - 2]);
            }
        }
    }
}

/// Relies on `hex::encode`: lowercase hexadecimal, two digits per byte,
/// exactly the characters of `hex_bytes` of the input.
#[verifier::external_body]
pub fn hex_encode(b: &[u8]) -> (r: String)
    ensures
        r@ == bytes_chars(hex_bytes(b@)),
{
    hex::encode(b)
}

} // verus!
