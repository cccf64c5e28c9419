use cairn::urls::{canonical_key, is_tracking_parameter, normalize, UrlError};

#[test]
fn canonical_key_ignores_common_url_variants() {
    let left = canonical_key("http://www.Example.com/article/?b=2&a=1&utm_source=test#part");
    let right = canonical_key("https://example.com/article?a=1&b=2");
    assert_eq!(left, right);
}

#[test]
fn normalize_rejects_non_web_urls() {
    assert!(normalize("file:///tmp/bookmark").is_err());
    assert!(normalize("not a url").is_err());
}

#[test]
fn normalize_reports_each_error() {
    assert_eq!(normalize("not a url"), Err(UrlError::Invalid));
    assert_eq!(normalize("file:///tmp/bookmark"), Err(UrlError::NotWeb));
    assert_eq!(normalize("mailto:someone@example.com"), Err(UrlError::NotWeb));
}

#[test]
fn normalize_trims_and_serializes() {
    assert_eq!(normalize("  https://Example.com  "), Ok("https://example.com/".to_string()));
    assert_eq!(
        normalize("http://example.com/a b"),
        Ok("http://example.com/a%20b".to_string())
    );
}

#[test]
fn canonical_key_exact_value() {
    assert_eq!(
        canonical_key("https://www.Example.com:8080/path//?z=1&fbclid=x&a=2"),
        Some("example.com:8080/path?a=2&z=1".to_string())
    );
    assert_eq!(canonical_key("https://example.com/"), Some("example.com".to_string()));
}

#[test]
fn canonical_key_none_for_non_web() {
    assert_eq!(canonical_key("ftp://example.com/file"), None);
    assert_eq!(canonical_key("nonsense"), None);
}

#[test]
fn canonical_key_keeps_non_tracking_order_independent() {
    assert_eq!(
        canonical_key("https://example.com/p?b=2&a=1&a=0"),
        canonical_key("https://example.com/p?a=0&b=2&a=1")
    );
    assert_ne!(
        canonical_key("https://example.com/p?a=1"),
        canonical_key("https://example.com/p?a=2")
    );
}

#[test]
fn tracking_parameters() {
    assert!(is_tracking_parameter("utm_source"));
    assert!(is_tracking_parameter("UTM_Medium"));
    assert!(is_tracking_parameter("fbclid"));
    assert!(is_tracking_parameter("GCLID"));
    assert!(is_tracking_parameter("dclid"));
    assert!(is_tracking_parameter("mc_cid"));
    assert!(is_tracking_parameter("mc_eid"));
    assert!(!is_tracking_parameter("page"));
    assert!(!is_tracking_parameter("utm"));
}

#[test]
fn normalized_urls_normalize_to_themselves() {
    for input in [
        "  HTTP://Example.COM/a b?q=1 2#frag ment ",
        "https://www.example.com/article/?utm_source=x",
        "https://例え.jp/パス",
        "http://user:pw@example.com:8080/",
    ] {
        let n = normalize(input).unwrap();
        assert_eq!(normalize(&n), Ok(n.clone()));
        assert!(canonical_key(&n).is_some());
        assert!(n.chars().all(|c| c.is_ascii() && c > ' '));
    }
}
