use bucket_auth::shortlink::Shortlink;

#[test]
fn shortlink_keeps_its_fields() {
    let link = Shortlink::new("https://example.com/page".to_string(), "fingerprint".to_string());
    assert_eq!(link.link_long(), "https://example.com/page");
    assert_eq!(link.owner_email(), "fingerprint");
    assert_eq!(link.link_hash().chars().count(), 8);
}

#[test]
fn shortlink_builds_its_short_url() {
    let link = Shortlink::new("https://example.com".to_string(), "owner".to_string());
    let short = link.link_short("https", "bckt.xyz");
    assert_eq!(short, format!("https://bckt.xyz/{}", link.link_hash()));
}

#[test]
fn shortlink_hashes_are_random() {
    let a = Shortlink::new("https://example.com".to_string(), "owner".to_string());
    let b = Shortlink::new("https://example.com".to_string(), "owner".to_string());
    assert_ne!(a.link_hash(), b.link_hash());
}
