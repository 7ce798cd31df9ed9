use bucket_auth::magic::{MagicError, MagicIdentity};

fn key() -> Vec<u8> {
    let mut k = Vec::new();
    let mut i = 0u8;
    while k.len() < 32 {
        k.push(i);
        i = i.wrapping_add(7);
    }
    k
}

fn other_key() -> Vec<u8> {
    vec![0x5au8; 32]
}

#[test]
fn test_magic_identity_crypto() {
    let magic = MagicIdentity::new("john@example.com").unwrap();
    let key = key();
    let cipher = magic.encrypt(&key).unwrap();
    let magic2 = MagicIdentity::decrypt(&cipher, &key).unwrap();
    assert_eq!(magic, magic2);
}

#[test]
fn test_magic_identity_encrypt_different_nonce() {
    let magic = MagicIdentity::new("john@example.com").unwrap();
    let key = key();
    let cipher1 = magic.encrypt(&key).unwrap();
    let cipher2 = magic.encrypt(&key).unwrap();
    assert_ne!(cipher1, cipher2);
}

#[test]
fn round_trip_preserves_every_field() {
    let key = key();
    let magic = MagicIdentity::new_at("John@Example.COM", 1_000_000).unwrap();
    let cipher = magic.encrypt(&key).unwrap();
    let back = MagicIdentity::decrypt(&cipher, &key).unwrap();
    assert_eq!(back.email(), "john@example.com");
    assert_eq!(back.email_hash(), magic.email_hash());
    assert_eq!(back.expires_at(), 1_000_000 + 3600);
    assert!(!back.verified());
    assert_eq!(magic, back);
}

#[test]
fn two_seals_open_to_equal_tokens() {
    let key = key();
    let magic = MagicIdentity::new("john@example.com").unwrap();
    let cipher1 = magic.encrypt(&key).unwrap();
    let cipher2 = magic.encrypt(&key).unwrap();
    let back1 = MagicIdentity::decrypt(&cipher1, &key).unwrap();
    let back2 = MagicIdentity::decrypt(&cipher2, &key).unwrap();
    assert_eq!(back1, back2);
}

#[test]
fn wrong_key_fails_to_open() {
    let magic = MagicIdentity::new("john@example.com").unwrap();
    let cipher = magic.encrypt(&key()).unwrap();
    let r = MagicIdentity::decrypt(&cipher, &other_key());
    assert!(matches!(r, Err(MagicError::Decrypt(_))));
}

#[test]
fn tampered_text_fails_to_open() {
    let key = key();
    let magic = MagicIdentity::new("john@example.com").unwrap();
    let cipher = magic.encrypt(&key).unwrap();
    let mut bytes = cipher.into_bytes();
    let last = bytes.len() - 1;
    bytes[last] = if bytes[last] == b'A' { b'B' } else { b'A' };
    let tampered = String::from_utf8(bytes).unwrap();
    assert!(MagicIdentity::decrypt(&tampered, &key).is_err());
}

#[test]
fn malformed_encoding_fails_to_open() {
    let r = MagicIdentity::decrypt("not base64 at all!!", &key());
    assert!(matches!(r, Err(MagicError::Decode(_))));
}

#[test]
fn fingerprint_is_stable_lowercase_hex() {
    let a = MagicIdentity::new("john@example.com").unwrap();
    let b = MagicIdentity::new("JOHN@example.com").unwrap();
    let c = MagicIdentity::new("jane@example.com").unwrap();
    assert_eq!(a.email_hash(), b.email_hash());
    assert_ne!(a.email_hash(), c.email_hash());
    assert_eq!(a.email_hash().len(), 64);
    assert!(a.email_hash().chars().all(|ch| ch.is_ascii_hexdigit() && !ch.is_ascii_uppercase()));
    assert_ne!(a.email_hash(), a.email());
}

#[test]
fn minting_carries_any_email() {
    let key = key();
    let magic = MagicIdentity::new("JÖHN\"qu\\ote@example.com").unwrap();
    assert_eq!(magic.email(), "jöhn\"qu\\ote@example.com");
    let cipher = magic.encrypt(&key).unwrap();
    let back = MagicIdentity::decrypt(&cipher, &key).unwrap();
    assert_eq!(magic, back);
}

#[test]
fn minted_token_expires_in_one_hour() {
    let magic = MagicIdentity::new_at("a@b.c", 50_000).unwrap();
    assert_eq!(magic.expires_at(), 53_600);
    assert!(!magic.verified());
    assert!(!magic.expired_at(53_599));
    assert!(magic.expired_at(53_600));
}

#[test]
fn promotion_sets_verified_and_extends_expiry() {
    let mut magic = MagicIdentity::new_at("a@b.c", 50_000).unwrap();
    let email = magic.email().to_owned();
    let hash = magic.email_hash().to_owned();
    magic.verify_at(60_000);
    assert!(magic.verified());
    assert_eq!(magic.expires_at(), 60_000 + 604_800);
    assert_eq!(magic.email(), email);
    assert_eq!(magic.email_hash(), hash);
}
