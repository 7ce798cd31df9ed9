use bucket_auth::auth::{
    delivery_succeeded, login_cookie_action, logout_cookie_action, Auth, AuthError, COOKIE_NAME,
};
use bucket_auth::magic::MagicIdentity;

const KEY: &str = "0123456789abcdef0123456789abcdef";

fn auth() -> Auth {
    Auth::new(KEY.to_string(), "@example.com".to_string(), "test-api-key".to_string()).unwrap()
}

fn now_secs() -> u64 {
    std::time::SystemTime::now()
        .duration_since(std::time::UNIX_EPOCH)
        .unwrap()
        .as_secs()
}

#[test]
fn issue_promote_check_end_to_end() {
    let auth = auth();
    let before = now_secs();
    let request = auth.prepare_magic_link("foo@example.com").unwrap();
    assert_eq!(request.recipient, "foo@example.com");
    assert!(request.payload.contains(&request.magic));
    assert!(request.payload.contains("foo@example.com"));

    // The issued token is unverified with about an hour of validity.
    let issued = MagicIdentity::decrypt(&request.magic, KEY.as_bytes()).unwrap();
    assert!(!issued.verified());
    assert!(issued.expires_at() >= before + 3600);
    assert!(issued.expires_at() <= now_secs() + 3600);

    // Promotion returns a new sealed text with about seven days of validity.
    let (cookie, expires_at) = auth.verify_magic(&request.magic).unwrap();
    assert_ne!(cookie, request.magic);
    assert!(expires_at >= before + 604_800);
    assert!(expires_at <= now_secs() + 604_800);
    let promoted = MagicIdentity::decrypt(&cookie, KEY.as_bytes()).unwrap();
    assert!(promoted.verified());
    assert_eq!(promoted.expires_at(), expires_at);

    // The promoted text checks out as the issued identity.
    assert_eq!(auth.verify_cookie(&cookie).unwrap(), "foo@example.com");
}

#[test]
fn issue_rejects_an_unauthorized_email() {
    let auth = auth();
    let r = auth.prepare_magic_link("bar@other.com");
    assert_eq!(r.err().unwrap(), AuthError::Unauthorized);
}

#[test]
fn issue_lowercases_before_validating() {
    let auth = auth();
    assert!(auth.prepare_magic_link("FOO@EXAMPLE.COM").is_ok());
}

#[test]
fn payload_embeds_recipient_and_magic_exactly() {
    let auth = auth();
    let request = auth.prepare_magic_link("foo@example.com").unwrap();
    let expected = format!(
        "{{\"personalizations\":[{{\"to\":[{{\"email\":\"{}\"}}],\"dynamic_template_data\":{{\"magic\":\"{}\"}}}}],\"from\":{{\"email\":\"hello@bckt.xyz\",\"name\":\"bckt.xyz\"}},\"reply_to\":{{\"email\":\"hello@bckt.xyz\",\"name\":\"bckt.xyz\"}},\"mail_settings\":{{\"bypass_list_management\":{{\"enable\":false}},\"footer\":{{\"enable\":false}},\"sandbox_mode\":{{\"enable\":false}}}},\"tracking_settings\":{{\"click_tracking\":{{\"enable\":false,\"enable_text\":false}},\"open_tracking\":{{\"enable\":false}},\"subscription_tracking\":{{\"enable\":false}}}},\"template_id\":\"d-3bf522f04d47411489abe38342be66a4\"}}",
        "foo@example.com", request.magic,
    );
    assert_eq!(request.payload, expected);
}

#[test]
fn promote_rejects_an_already_verified_token() {
    let auth = auth();
    let request = auth.prepare_magic_link("foo@example.com").unwrap();
    let (cookie, _) = auth.verify_magic(&request.magic).unwrap();
    assert!(auth.verify_magic(&cookie).is_none());
}

#[test]
fn check_rejects_an_unverified_token() {
    let auth = auth();
    let request = auth.prepare_magic_link("foo@example.com").unwrap();
    assert!(auth.verify_cookie(&request.magic).is_none());
}

#[test]
fn expired_tokens_are_rejected_whatever_their_state() {
    let auth = auth();
    let key = KEY.as_bytes();

    // An unverified token already past its expiry.
    let stale = MagicIdentity::new_at("foo@example.com", 0).unwrap();
    let sealed = stale.encrypt(key).unwrap();
    assert!(auth.verify_magic_at(&sealed, 10_000).is_none());
    assert!(auth.verify_cookie_at(&sealed, 10_000).is_none());

    // A verified token already past its expiry.
    let mut session = MagicIdentity::new_at("foo@example.com", 0).unwrap();
    session.verify_at(0);
    let sealed = session.encrypt(key).unwrap();
    assert!(auth.verify_magic_at(&sealed, 1_000_000).is_none());
    assert!(auth.verify_cookie_at(&sealed, 1_000_000).is_none());

    // A token is valid only strictly before its expiry: the boundary
    // instant itself is already expired.
    assert_eq!(auth.verify_cookie_at(&sealed, 604_799).unwrap(), "foo@example.com");
    assert!(auth.verify_cookie_at(&sealed, 604_800).is_none());
}

#[test]
fn issue_at_pins_the_one_hour_expiry() {
    let auth = auth();
    let request = auth.prepare_magic_link_at("foo@example.com", 50_000).unwrap();
    let issued = MagicIdentity::decrypt(&request.magic, KEY.as_bytes()).unwrap();
    assert_eq!(issued.expires_at(), 53_600);
    assert!(!issued.verified());
}

#[test]
fn payload_escapes_the_recipient() {
    let auth = auth();
    let request = auth.prepare_magic_link("f\"o\\o@example.com").unwrap();
    assert_eq!(request.recipient, "f\"o\\o@example.com");
    assert!(request.payload.contains("{\"email\":\"f\\\"o\\\\o@example.com\"}"));
}

#[test]
fn issue_accepts_an_internationalized_address() {
    let auth = auth();
    let request = auth.prepare_magic_link("j\u{f6}hn@example.com").unwrap();
    assert!(request.payload.contains("j\u{f6}hn@example.com"));
    let issued = MagicIdentity::decrypt(&request.magic, KEY.as_bytes()).unwrap();
    assert_eq!(issued.email(), "j\u{f6}hn@example.com");
}

#[test]
fn promote_rejects_garbage_text() {
    let auth = auth();
    assert!(auth.verify_magic("not a sealed token").is_none());
    assert!(auth.verify_cookie("").is_none());
}

#[test]
fn construction_rejects_a_wrongly_sized_key() {
    let r = Auth::new("short".to_string(), "@example.com".to_string(), "k".to_string());
    assert_eq!(r.err().unwrap(), AuthError::InternalError);
}

#[test]
fn error_surface_is_fixed() {
    assert_eq!(AuthError::Unauthorized.status_code(), 401);
    assert_eq!(AuthError::InvalidToken.status_code(), 401);
    assert_eq!(AuthError::InternalError.status_code(), 500);
    assert!(AuthError::Unauthorized.message().contains("not authorized"));
    assert_eq!(COOKIE_NAME, "bckt-auth");
}

#[test]
fn cookie_actions_mirror_the_outcome() {
    let set = login_cookie_action(Some(("sealed".to_string(), 42)));
    assert_eq!(set.value, "sealed");
    assert_eq!(set.expires_at, 42);
    let clear = login_cookie_action(None);
    assert_eq!(clear.value, "");
    assert_eq!(clear.expires_at, 0);
    let logout = logout_cookie_action();
    assert_eq!(logout.value, "");
    assert_eq!(logout.expires_at, 0);
}

#[test]
fn delivery_status_classification() {
    assert!(delivery_succeeded(202));
    assert!(!delivery_succeeded(200));
    assert!(!delivery_succeeded(401));
    assert!(!delivery_succeeded(500));
}
