use pulsar_registry::data::{Email, Pulsar};

#[test]
fn test_new_pulsar() {
    let url = "pulsar1.example.com";
    let users = vec![Email::new("test1@example.com").unwrap()];
    let pulsar = Pulsar::new(url.to_string(), users.clone());
    assert_eq!(pulsar.pulsar_url, url);
    assert_eq!(pulsar.users, users);
}

#[test]
fn test_invalid_domain() {
    let email = "test@example";
    let result = Email::new(email);
    assert!(result.is_err());
}

#[test]
fn test_invalid_email() {
    let email = "testexample";
    let result = Email::new(email);
    assert!(result.is_err());
}

#[test]
fn test_valid_email() {
    let email = "test@example.com";
    let result = Email::new(email);
    assert!(result.is_ok());
}

#[test]
fn test_email_no_at_sign() {
    // a dot alone does not make an address
    assert!(Email::new("userexample.com").is_err());
}

#[test]
fn test_email_two_at_signs() {
    assert!(Email::new("a@b@c.com").is_err());
}

#[test]
fn test_email_dot_only_before_at() {
    // the dot must fall inside the domain part
    assert!(Email::new("user.name@example").is_err());
}

#[test]
fn test_email_empty_string() {
    assert!(Email::new("").is_err());
}

#[test]
fn test_email_keeps_its_text() {
    let email = Email::new("user@example.com").unwrap();
    assert_eq!(email.as_str(), "user@example.com");
}

#[test]
fn test_email_same_as() {
    let a = Email::new("user@example.com").unwrap();
    let b = Email::new("user@example.com").unwrap();
    let c = Email::new("other@example.com").unwrap();
    assert!(a.same_as(&b));
    assert!(!a.same_as(&c));
}

#[test]
fn test_validate_email_direct() {
    assert!(Email::validate_email("user@example.com"));
    assert!(!Email::validate_email("user@example"));
    assert!(!Email::validate_email("userexample.com"));
    assert!(!Email::validate_email("a@b@c.com"));
}
