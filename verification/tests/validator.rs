use bucket_auth::email::EmailValidator;

#[test]
fn auth_test_email_validator() {
    let validator = EmailValidator::new("@example.com");
    assert!(validator.validate("foo@example.com"));
    assert!(!validator.validate("foo@example.org"));
    assert!(!validator.validate("foo@sub.example.org"));
}

#[test]
fn auth_test_email_validator_with_multiple_filters() {
    let validator = EmailValidator::new("john@smith.me,@example.com");
    assert!(validator.validate("foo@example.com"));
    assert!(!validator.validate("foo@smith.me"));
    assert!(validator.validate("john@smith.me"));
}

#[test]
fn email_test_email_validator() {
    let validator = EmailValidator::new("@example.com");
    assert!(validator.validate("foo@example.com"));
    assert!(!validator.validate("foo@example.org"));
    assert!(!validator.validate("foo@sub.example.org"));
}

#[test]
fn email_test_email_validator_with_multiple_filters() {
    let validator = EmailValidator::new("john@smith.me,@example.com");
    assert!(validator.validate("foo@example.com"));
    assert!(!validator.validate("foo@smith.me"));
    assert!(validator.validate("john@smith.me"));
}

#[test]
fn validator_rejects_subdomains() {
    let validator = EmailValidator::new("@example.com");
    assert!(!validator.validate("foo@sub.example.com"));
}

#[test]
fn validator_lowercases_the_candidate() {
    let validator = EmailValidator::new("foo@example.com");
    assert!(validator.validate("FOO@EXAMPLE.COM"));
    assert!(validator.validate("Foo@Example.Com"));
}

#[test]
fn validator_trims_configured_entries() {
    let validator = EmailValidator::new(" john@smith.me ,\t@example.com ");
    assert!(validator.validate("john@smith.me"));
    assert!(validator.validate("anyone@example.com"));
    assert!(!validator.validate(" john@smith.me"));
}

#[test]
fn validator_trims_unicode_whitespace() {
    let validator = EmailValidator::new("\u{2009}john@smith.me\u{a0}");
    assert!(validator.validate("john@smith.me"));
}

#[test]
fn validator_on_empty_configuration() {
    let validator = EmailValidator::new("");
    assert!(validator.validate(""));
    assert!(!validator.validate("a@b.c"));
}
