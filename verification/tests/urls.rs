use crowbar::urls::{is_valid_url, normalize_url, is_valid_domain};

#[test]
fn test_valid_urls() {
    assert!(is_valid_url("https://www.rust-lang.org"));
    assert!(is_valid_url("http://example.com"));

    assert!(is_valid_url("www.example.com"));
    assert!(is_valid_url("www.rust-lang.org"));

    assert!(is_valid_url("example.com"));
    assert!(is_valid_url("rust-lang.org"));

    assert!(!is_valid_url("not-a-url"));
    assert!(!is_valid_url("http://"));
    assert!(!is_valid_url("www."));
    assert!(!is_valid_url(".com"));
    assert!(!is_valid_url("example"));
}

#[test]
fn test_url_normalization() {
    assert_eq!(normalize_url("example.com"), "https://example.com");
    assert_eq!(normalize_url("www.example.com"), "https://www.example.com");
    assert_eq!(normalize_url("https://example.com"), "https://example.com");
    assert_eq!(normalize_url("http://example.com"), "http://example.com");
}

#[test]
fn non_web_scheme_is_rejected() {
    assert!(!is_valid_url("ftp://example.com"));
    assert!(!is_valid_url("mailto:user@example.com"));
}

#[test]
fn domain_validation_edges() {
    assert!(is_valid_domain("a.b"));
    assert!(!is_valid_domain(""));
    assert!(!is_valid_domain("a..b"));
    assert!(!is_valid_domain("a_b.com"));
    assert!(is_valid_domain("sub.domain-name.org"));
}
