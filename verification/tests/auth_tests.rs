use ipcheck::validation::{is_email, is_means_of_auth, is_phone};

#[test]
fn test_is_email_accepts() {
    assert!(is_email("user@example.com"));
    assert!(is_email("USER@EXAMPLE.COM"));
    assert!(is_email("  user@example.com  "));
    assert!(is_email("a.b+c@mail.example.org"));
    assert!(is_email("a@b.c"));
}

#[test]
fn test_is_email_rejects() {
    assert!(!is_email(""));
    assert!(!is_email("   "));
    assert!(!is_email("user"));
    assert!(!is_email("user@localhost"));
    assert!(!is_email("user@.com"));
    assert!(!is_email("user@domain.com."));
    assert!(!is_email("@example.com"));
    assert!(!is_email("us er@example.com"));
}

#[test]
fn test_is_phone_accepts() {
    assert!(is_phone("5551234567"));
    assert!(is_phone("123-456-7890"));
    assert!(is_phone("(555) 123-4567"));
    // A listed three-digit country code after the plus sign.
    assert!(is_phone("+212537123456"));
}

#[test]
fn test_is_phone_rejects() {
    assert!(!is_phone(""));
    assert!(!is_phone("12345"));
    assert!(!is_phone("not a number"));
    // Only a three-character code can follow the plus sign, so a
    // one-digit country code falls outside the accepted table.
    assert!(!is_phone("+15551234567"));
    assert!(!is_phone("1234567890123456"));
}

#[test]
fn test_is_means_of_auth() {
    assert!(is_means_of_auth("user@example.com"));
    assert!(is_means_of_auth("5551234567"));
    assert!(!is_means_of_auth("neither"));
    assert!(!is_means_of_auth(""));
}
