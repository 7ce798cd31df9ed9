use bucket_auth::codec::{encode_record, parse_record};

#[test]
fn record_has_the_fixed_schema() {
    let rec = encode_record("a@b.c", "ff", &[0u8, 1, 2], 5, false);
    assert_eq!(
        String::from_utf8(rec).unwrap(),
        "{\"email\":\"YUBiLmM\",\"email_hash\":\"ZmY\",\"token\":\"AAEC\",\"expires_at\":5,\"verified\":false}",
    );
}

#[test]
fn record_round_trips() {
    let rec = encode_record("a@b.c", "00ff", &[9u8, 8, 7, 6, 5], u64::MAX, true);
    let (email, hash, token, expires_at, verified) = parse_record(&rec).unwrap();
    assert_eq!(email, "a@b.c");
    assert_eq!(hash, "00ff");
    assert_eq!(token, vec![9u8, 8, 7, 6, 5]);
    assert_eq!(expires_at, u64::MAX);
    assert!(verified);
}

#[test]
fn record_carries_any_text() {
    let rec = encode_record("j\u{f6}hn\"qu\\ote@example.com", "", &[], 1, false);
    let (email, hash, token, _, _) = parse_record(&rec).unwrap();
    assert_eq!(email, "j\u{f6}hn\"qu\\ote@example.com");
    assert_eq!(hash, "");
    assert!(token.is_empty());
}

#[test]
fn parser_is_strict() {
    let good = encode_record("a@b.c", "ff", &[1u8], 7, true);
    assert!(parse_record(&good).is_some());

    // Trailing bytes, non-canonical numbers, wrong literals, raw text in a
    // base64 field and padded base64 are all rejected.
    let mut trailing = good.clone();
    trailing.push(b' ');
    assert!(parse_record(&trailing).is_none());

    let leading_zero =
        b"{\"email\":\"YQ\",\"email_hash\":\"Zg\",\"token\":\"\",\"expires_at\":007,\"verified\":true}";
    assert!(parse_record(leading_zero).is_none());

    let wrong_field =
        b"{\"email\":\"YQ\",\"hash\":\"Zg\",\"token\":\"\",\"expires_at\":7,\"verified\":true}";
    assert!(parse_record(wrong_field).is_none());

    let raw_email =
        b"{\"email\":\"a@b.c\",\"email_hash\":\"Zg\",\"token\":\"\",\"expires_at\":7,\"verified\":true}";
    assert!(parse_record(raw_email).is_none());

    let padded_token =
        b"{\"email\":\"YQ\",\"email_hash\":\"Zg\",\"token\":\"AA==\",\"expires_at\":7,\"verified\":true}";
    assert!(parse_record(padded_token).is_none());

    assert!(parse_record(b"").is_none());
}

#[test]
fn parser_handles_the_numeric_edges() {
    let zero = encode_record("a", "f", &[], 0, false);
    let (_, _, _, expires_at, _) = parse_record(&zero).unwrap();
    assert_eq!(expires_at, 0);

    let too_big =
        b"{\"email\":\"YQ\",\"email_hash\":\"Zg\",\"token\":\"\",\"expires_at\":18446744073709551616,\"verified\":true}";
    assert!(parse_record(too_big).is_none());

    let max =
        b"{\"email\":\"YQ\",\"email_hash\":\"Zg\",\"token\":\"\",\"expires_at\":18446744073709551615,\"verified\":true}";
    let (_, _, _, expires_at, _) = parse_record(max).unwrap();
    assert_eq!(expires_at, u64::MAX);
}
