use proxy_core::cache::key::{compute_fingerprint, extract_vary_values};
use sha2::Digest;

#[test]
fn test_fingerprint_deterministic() {
    let fp1 = compute_fingerprint("GET", "https://example.com/page", &[]);
    let fp2 = compute_fingerprint("GET", "https://example.com/page", &[]);
    assert_eq!(fp1, fp2);
}

#[test]
fn test_fingerprint_different_methods() {
    let fp_get = compute_fingerprint("GET", "https://example.com/page", &[]);
    let fp_head = compute_fingerprint("HEAD", "https://example.com/page", &[]);
    assert_ne!(fp_get, fp_head);
}

#[test]
fn test_fingerprint_with_vary() {
    let fp1 = compute_fingerprint(
        "GET",
        "https://example.com/page",
        &[("accept-encoding", "gzip")],
    );
    let fp2 = compute_fingerprint(
        "GET",
        "https://example.com/page",
        &[("accept-encoding", "br")],
    );
    assert_ne!(fp1, fp2);
}

#[test]
fn test_fingerprint_vary_order_independent() {
    let fp1 = compute_fingerprint(
        "GET",
        "https://example.com/",
        &[("accept-encoding", "gzip"), ("accept-language", "en")],
    );
    let fp2 = compute_fingerprint(
        "GET",
        "https://example.com/",
        &[("accept-language", "en"), ("accept-encoding", "gzip")],
    );
    assert_eq!(fp1, fp2);
}

#[test]
fn test_extract_vary_values() {
    let headers = vec![
        ("Accept-Encoding".to_string(), "gzip, br".to_string()),
        ("Accept-Language".to_string(), "en-US".to_string()),
    ];

    let result = extract_vary_values(Some("Accept-Encoding, Accept-Language"), &headers);
    assert_eq!(result.len(), 2);
    assert_eq!(result[0], ("accept-encoding".to_string(), "gzip, br".to_string()));
    assert_eq!(result[1], ("accept-language".to_string(), "en-US".to_string()));
}

#[test]
fn test_extract_vary_star() {
    let result = extract_vary_values(Some("*"), &[]);
    assert!(result.is_empty());
}

#[test]
fn test_extract_vary_none() {
    let result = extract_vary_values(None, &[]);
    assert!(result.is_empty());
}

#[test]
fn fingerprint_is_the_digest_of_its_parts() {
    let expected = hex::encode(sha2::Sha256::digest(b"GET\0https://example.com/"));
    assert_eq!(compute_fingerprint("GET", "https://example.com/", &[]), expected);
    let expected = hex::encode(sha2::Sha256::digest(b"GET\0u\0a=1\0b=2".as_slice()));
    assert_eq!(compute_fingerprint("GET", "u", &[("B", "2"), ("A", "1")]), expected);
    assert_eq!(expected.len(), 64);
}

#[test]
fn same_lower_case_names_keep_their_order() {
    let one = compute_fingerprint("GET", "u", &[("A", "1"), ("a", "2")]);
    let other = compute_fingerprint("GET", "u", &[("a", "2"), ("A", "1")]);
    assert_ne!(one, other);
}

#[test]
fn missing_vary_header_has_no_value() {
    let headers = vec![("Accept".to_string(), "x".to_string())];
    let result = extract_vary_values(Some(" Cookie ,ACCEPT"), &headers);
    assert_eq!(
        result,
        vec![
            ("cookie".to_string(), String::new()),
            ("accept".to_string(), "x".to_string()),
        ]
    );
}

#[test]
fn names_are_lowered_by_the_unicode_rules() {
    let headers = vec![("ÄX".to_string(), "1".to_string())];
    let result = extract_vary_values(Some("äX"), &headers);
    assert_eq!(result, vec![("äx".to_string(), "1".to_string())]);
}

#[test]
fn fingerprint_does_not_depend_on_the_case_of_names() {
    let one = compute_fingerprint("GET", "u", &[("Accept", "1"), ("cookie", "2")]);
    let other = compute_fingerprint("GET", "u", &[("COOKIE", "2"), ("aCCept", "1")]);
    assert_eq!(one, other);
    assert!(one.len() == 64 && one.bytes().all(|b| b.is_ascii_digit() || (b'a'..=b'f').contains(&b)));
    assert_ne!(one, compute_fingerprint("GET", "u", &[("accept", "A"), ("cookie", "2")]));
}
