//! The identity token: minting, sealing and opening under a symmetric key,
//! and the unverified-to-verified state transition.

use vstd::prelude::*;
use vstd::string::StringExecFns;
use vstd::utf8::encode_utf8;
use crate::b64::{b64_bytes, b64_decode, b64_encode, lemma_b64_plain};
use crate::clock::unix_now;
use crate::codec::{encode_record, parse_record, parts_token, record_bytes, TokenSpec};
use crate::crypto::{
    aead_open, aead_open_of, aead_seal, blake2b256_digest, digest_of, hex_bytes, hex_encode,
    lemma_hex_plain, random_bytes_16,
};
use crate::text::{bytes_chars, lemma_ascii_bytes_chars, lower_of, lowercase, string_from_utf8};

verus! {

/// Why sealing or opening a token failed. Callers reject on any open failure
/// alike; the variants serve internal diagnostics only.
#[derive(Debug)]
pub enum MagicError {
    Encrypt(String),
    Decrypt(String),
    Encode(String),
    Decode(String),
}

impl MagicError {
    /// A printable description of the failure.
    pub fn message(&self) -> (r: String)
        ensures
            self matches MagicError::Encrypt(m) ==> r@ == "magic error: encrypt: "@ + m@,
            self matches MagicError::Decrypt(m) ==> r@ == "magic error: decrypt: "@ + m@,
            self matches MagicError::Encode(m) ==> r@ == "magic error: encode: "@ + m@,
            self matches MagicError::Decode(m) ==> r@ == "magic error: decode: "@ + m@,
    {
        match self {
            MagicError::Encrypt(m) => String::from_str("magic error: encrypt: ").concat(
                m.as_str(),
            ),
            MagicError::Decrypt(m) => String::from_str("magic error: decrypt: ").concat(
                m.as_str(),
            ),
            MagicError::Encode(m) => String::from_str("magic error: encode: ").concat(m.as_str()),
            MagicError::Decode(m) => String::from_str("magic error: decode: ").concat(m.as_str()),
        }
    }
}

/// The text is a sealing of token `t` under `key`: URL-safe base64 of a
/// ciphertext that authenticated decryption takes back to the token's
/// canonical record.
pub open spec fn sealed_of(key: Seq<u8>, text: Seq<char>, t: TokenSpec) -> bool {
    exists|cb: Seq<u8>|
        encode_utf8(text) == #[trigger] b64_bytes(cb) && aead_open_of(key, cb) == Some(
            record_bytes(t),
        )
}

/// A sealed text is an unambiguous claim: it is the sealing of at most one
/// token. Together with the contracts of `encrypt` (a sealing of the token it
/// was called on) and `decrypt` (every sealing of a token opens to exactly
/// that token), this is the round-trip law: opening any sealing of a minted
/// token returns it with every field intact.
pub proof fn lemma_sealed_text_unique(
    key: Seq<u8>,
    text: Seq<char>,
    t1: TokenSpec,
    t2: TokenSpec,
)
    requires
        sealed_of(key, text, t1),
        sealed_of(key, text, t2),
    ensures
        t1 == t2,
{
    let cb1 = choose|cb: Seq<u8>|
        encode_utf8(text) == #[trigger] b64_bytes(cb) && aead_open_of(key, cb) == Some(
            record_bytes(t1),
        );
    let cb2 = choose|cb: Seq<u8>|
        encode_utf8(text) == #[trigger] b64_bytes(cb) && aead_open_of(key, cb) == Some(
            record_bytes(t2),
        );
    crate::b64::lemma_b64_inj(cb1, cb2);
    assert(record_bytes(t1) == record_bytes(t2));
    crate::codec::lemma_record_inj(t1, t2);
}

/// A signed, encrypted claim of identity: who, until when, and whether the
/// click-through verification has happened.
#[derive(Debug, PartialEq, Eq)]
pub struct MagicIdentity {
    email: String,
    email_hash: String,
    token: Vec<u8>,
    expires_at: u64,
    verified: bool,
}

impl View for MagicIdentity {
    type V = TokenSpec;

    closed spec fn view(&self) -> TokenSpec {
        TokenSpec {
            email: self.email@,
            email_hash: self.email_hash@,
            token: self.token@,
            expires_at: self.expires_at,
            verified: self.verified,
        }
    }
}

/// How long a freshly minted, unverified token lives, in seconds: one hour.
pub const MAGIC_TTL_SECS: u64 = 3600;

/// How long a promoted, verified token lives, in seconds: seven days.
pub const SESSION_TTL_SECS: u64 = 604800;

impl MagicIdentity {
    /// Mints an unverified token for `email` as of the instant `now`: the
    /// email is lower-cased, fingerprinted, and paired with a fresh random
    /// nonce and a one-hour expiry.
    pub fn new_at(email: &str, now: u64) -> (r: Result<MagicIdentity, String>)
        ensures
            r matches Ok(m) ==> ({
                &&& m@.email == lower_of(email@)
                &&& m@.email_hash == bytes_chars(
                    hex_bytes(digest_of(encode_utf8(lower_of(email@)))),
                )
                &&& m@.token.len() == 16
                &&& m@.expires_at == now + MAGIC_TTL_SECS
                &&& m@.verified == false
            }),
            now + MAGIC_TTL_SECS > u64::MAX ==> r is Err,
    {
        let lower = lowercase(email);
        let lb = lower.as_str().as_bytes();
        let digest = match blake2b256_digest(lb) {
            Some(d) => d,
            None => {
                return Err(String::from_str("failed hashing email"));
            },
        };
        let email_hash = hex_encode(digest.as_slice());
        let token = match random_bytes_16() {
            Some(t) => t,
            None => {
                return Err(String::from_str("failed drawing random token bytes"));
            },
        };
        let expires_at = match now.checked_add(MAGIC_TTL_SECS) {
            Some(x) => x,
            None => {
                return Err(String::from_str("failed to calculate expires_at"));
            },
        };
        Ok(
            MagicIdentity {
                email: lower,
                email_hash,
                token,
                expires_at,
                verified: false,
            },
        )
    }

    /// Mints an unverified token for `email`, expiring one hour from now.
    pub fn new(email: &str) -> (r: Result<MagicIdentity, String>)
        ensures
            r matches Ok(m) ==> ({
                &&& m@.email == lower_of(email@)
                &&& m@.email_hash == bytes_chars(
                    hex_bytes(digest_of(encode_utf8(lower_of(email@)))),
                )
                &&& m@.token.len() == 16
                &&& m@.verified == false
            }),
    {
        let now = unix_now();
        MagicIdentity::new_at(email, now)
    }

    /// Seals the token under `key`: serializes it to its canonical record,
    /// encrypts with a fresh random nonce, and encodes the ciphertext as
    /// URL-safe text. Two seals of one token give different text, yet any
    /// sealing of the token opens back to it (see `decrypt`).
    pub fn encrypt(&self, key: &[u8]) -> (r: Result<String, MagicError>)
        requires
            key@.len() == 32,
        ensures
            r matches Ok(c) ==> sealed_of(key@, c@, self@),
    {
        let rec = encode_record(
            self.email.as_str(),
            self.email_hash.as_str(),
            self.token.as_slice(),
            self.expires_at,
            self.verified,
        );
        proof {
            crate::codec::lemma_record_nonempty(self@);
        }
        let cipher = match aead_seal(key, rec.as_slice()) {
            Some(c) => c,
            None => {
                return Err(MagicError::Encrypt(String::from_str("sealing failed")));
            },
        };
        let encoded = b64_encode(cipher.as_slice());
        proof {
            lemma_b64_plain(cipher@);
            lemma_ascii_bytes_chars(encoded@);
        }
        let text = match string_from_utf8(encoded) {
            Some(s) => s,
            None => {
                proof {
                    assert(false);
                }
                return Err(MagicError::Encode(String::from_str("encoding failed")));
            },
        };
        proof {
            assert(encode_utf8(text@) == b64_bytes(cipher@) && aead_open_of(key@, cipher@)
                == Some(record_bytes(self@)));
        }
        Ok(text)
    }

    /// Opens sealed text under `key`: decodes, authenticated-decrypts, and
    /// parses the canonical record. Succeeds on exactly the sealings of a
    /// well-formed token, and returns that token: together with `encrypt`,
    /// opening a sealing of a token gives the token back, field for field.
    pub fn decrypt(cipher: &str, key: &[u8]) -> (r: Result<MagicIdentity, MagicError>)
        requires
            key@.len() == 32,
        ensures
            r matches Ok(m) ==> sealed_of(key@, cipher@, m@),
            forall|t: TokenSpec|
                sealed_of(key@, cipher@, t) ==> (r matches Ok(m) && m@ == t),
            (forall|cb: Seq<u8>| encode_utf8(cipher@) != #[trigger] b64_bytes(cb)) ==> (
            r matches Err(e) && e is Decode),
            (exists|cb: Seq<u8>|
                encode_utf8(cipher@) == #[trigger] b64_bytes(cb) && aead_open_of(key@, cb)
                    is None) ==> (r matches Err(e) && e is Decrypt),
    {
        let cbytes = cipher.as_bytes();
        let cb = match b64_decode(cbytes) {
            Some(v) => v,
            None => {
                proof {
                    assert forall|t: TokenSpec|
                        sealed_of(key@, cipher@, t) implies false by {
                        let cb2 = choose|cb2: Seq<u8>|
                            encode_utf8(cipher@) == #[trigger] b64_bytes(cb2) && aead_open_of(
                                key@,
                                cb2,
                            ) == Some(record_bytes(t));
                        assert(cbytes@ == b64_bytes(cb2));
                    }
                }
                proof {
                    if exists|cb2: Seq<u8>|
                        encode_utf8(cipher@) == #[trigger] b64_bytes(cb2) && aead_open_of(
                            key@,
                            cb2,
                        ) is None {
                        let cb2 = choose|cb2: Seq<u8>|
                            encode_utf8(cipher@) == #[trigger] b64_bytes(cb2) && aead_open_of(
                                key@,
                                cb2,
                            ) is None;
                        assert(cbytes@ == b64_bytes(cb2));
                        assert(false);
                    }
                }
                return Err(MagicError::Decode(String::from_str("malformed text encoding")));
            },
        };
        let rec = match aead_open(key, cb.as_slice()) {
            Some(v) => v,
            None => {
                proof {
                    assert forall|t: TokenSpec|
                        sealed_of(key@, cipher@, t) implies false by {
                        let cb2 = choose|cb2: Seq<u8>|
                            encode_utf8(cipher@) == #[trigger] b64_bytes(cb2) && aead_open_of(
                                key@,
                                cb2,
                            ) == Some(record_bytes(t));
                        assert(cbytes@ == b64_bytes(cb2));
                        assert(cb@ == cb2);
                    }
                }
                return Err(MagicError::Decrypt(String::from_str("authentication failed")));
            },
        };
        let parts = match parse_record(rec.as_slice()) {
            Some(p) => p,
            None => {
                proof {
                    assert forall|t: TokenSpec|
                        sealed_of(key@, cipher@, t) implies false by {
                        let cb2 = choose|cb2: Seq<u8>|
                            encode_utf8(cipher@) == #[trigger] b64_bytes(cb2) && aead_open_of(
                                key@,
                                cb2,
                            ) == Some(record_bytes(t));
                        assert(cbytes@ == b64_bytes(cb2));
                        assert(cb@ == cb2);
                        assert(rec@ == record_bytes(t));
                    }
                }
                proof {
                    if exists|cb2: Seq<u8>|
                        encode_utf8(cipher@) == #[trigger] b64_bytes(cb2) && aead_open_of(
                            key@,
                            cb2,
                        ) is None {
                        let cb2 = choose|cb2: Seq<u8>|
                            encode_utf8(cipher@) == #[trigger] b64_bytes(cb2) && aead_open_of(
                                key@,
                                cb2,
                            ) is None;
                        assert(cbytes@ == b64_bytes(cb2));
                        assert(cb@ == cb2);
                        assert(false);
                    }
                }
                return Err(MagicError::Decode(String::from_str("malformed record")));
            },
        };
        let ghost parts_spec = parts_token(parts);
        let (email, email_hash, token, expires_at, verified) = parts;
        let m = MagicIdentity { email, email_hash, token, expires_at, verified };
        proof {
            assert(m@ == parts_spec);
            assert(sealed_of(key@, cipher@, m@)) by {
                assert(encode_utf8(cipher@) == b64_bytes(cb@) && aead_open_of(key@, cb@) == Some(
                    record_bytes(m@),
                ));
            }
            assert forall|t: TokenSpec|
                sealed_of(key@, cipher@, t) implies m@ == t by {
                let cb2 = choose|cb2: Seq<u8>|
                    encode_utf8(cipher@) == #[trigger] b64_bytes(cb2) && aead_open_of(key@, cb2)
                        == Some(record_bytes(t));
                assert(cbytes@ == b64_bytes(cb2));
                assert(cb@ == cb2);
                assert(rec@ == record_bytes(t));
            }
            if exists|cb2: Seq<u8>|
                encode_utf8(cipher@) == #[trigger] b64_bytes(cb2) && aead_open_of(key@, cb2)
                    is None {
                let cb2 = choose|cb2: Seq<u8>|
                    encode_utf8(cipher@) == #[trigger] b64_bytes(cb2) && aead_open_of(
                        key@,
                        cb2,
                    ) is None;
                assert(cbytes@ == b64_bytes(cb2));
                assert(cb@ == cb2);
                assert(false);
            }
        }
        Ok(m)
    }

    /// The authenticated principal.
    pub fn email(&self) -> (r: &str)
        ensures
            r@ == self@.email,
    {
        self.email.as_str()
    }

    /// The one-way fingerprint of the principal's email.
    pub fn email_hash(&self) -> (r: &str)
        ensures
            r@ == self@.email_hash,
    {
        self.email_hash.as_str()
    }

    /// Whether the click-through promotion step has happened.
    pub fn verified(&self) -> (r: bool)
        ensures
            r == self@.verified,
    {
        self.verified
    }

    /// The expiry as a Unix timestamp in seconds.
    pub fn expires_at(&self) -> (r: u64)
        ensures
            r == self@.expires_at,
    {
        self.expires_at
    }

    /// Whether the token has expired as of the instant `now`: a token is
    /// valid only while `now` is strictly before its expiry.
    pub fn expired_at(&self, now: u64) -> (r: bool)
        ensures
            r == (now >= self@.expires_at),
    {
        now >= self.expires_at
    }

    /// Whether the token has expired as of the wall clock.
    pub fn expired(&self) -> bool {
        let now = unix_now();
        self.expired_at(now)
    }

    /// Promotes the token as of the instant `now`: marks it verified and
    /// extends its expiry to seven days from `now`. All other fields keep
    /// their values.
    pub fn verify_at(&mut self, now: u64)
        requires
            now + SESSION_TTL_SECS <= u64::MAX,
        ensures
            final(self)@ == (TokenSpec {
                verified: true,
                expires_at: (now + SESSION_TTL_SECS) as u64,
                ..old(self)@
            }),
    {
        self.verified = true;
        self.expires_at = now + SESSION_TTL_SECS;
    }

    /// Promotes the token as of the wall clock. Returns false, leaving the
    /// token unchanged, if the extended expiry would not fit a timestamp.
    pub fn verify(&mut self) -> (r: bool)
        ensures
            r ==> final(self)@.verified == true && final(self)@.email == old(self)@.email
                && final(self)@.email_hash == old(self)@.email_hash && final(self)@.token == old(
                self,
            )@.token,
            !r ==> *final(self) == *old(self),
    {
        let now = unix_now();
        if now <= u64::MAX - SESSION_TTL_SECS {
            self.verify_at(now);
            true
        } else {
            false
        }
    }
}

} // verus!
