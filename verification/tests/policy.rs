use proxy_core::cache::policy::CachedPolicy;
use proxy_core::error::Error;
use proxy_core::proxy::headers::build_cache_policy_bytes;

const NOW: u64 = 1_700_000_000;

fn policy(headers: &str) -> CachedPolicy {
    let bytes = build_cache_policy_bytes("https://example.com/a", headers, NOW, 0);
    CachedPolicy::from_bytes(&bytes).unwrap()
}

fn pair(name: &str, value: &str) -> (String, String) {
    (name.to_string(), value.to_string())
}

#[test]
fn a_response_stays_fresh_for_its_time() {
    let p = policy("{\"cache-control\":\"max-age=60\"}");
    assert_eq!(p.freshness(NOW, 0), Some(true));
    assert!(p.is_fresh(NOW + 59, 0));
    assert!(!p.is_fresh(NOW + 60, 0));
    assert_eq!(p.freshness(NOW + 61, 999_999_999), Some(false));
    assert_eq!(p.remaining(NOW + 10, 0), Some((50, 0)));
    assert_eq!(p.time_to_live(NOW + 10, 500_000_000), (49, 500_000_000));
    assert!(p.is_storable());
}

#[test]
fn an_address_that_is_none_counts_as_the_root() {
    let bytes = build_cache_policy_bytes("not a target", "{\"cache-control\":\"max-age=60\"}", NOW, 0);
    let p = CachedPolicy::from_bytes(&bytes).unwrap();
    assert_eq!(p.freshness(NOW + 1, 0), Some(true));
}

#[test]
fn what_may_not_be_stored_is_never_fresh() {
    let p = policy("{\"cache-control\":\"no-store\"}");
    assert!(!p.is_storable());
    assert_eq!(p.freshness(NOW, 0), Some(false));
    assert_eq!(policy("{}").freshness(NOW, 0), Some(false));
}

#[test]
fn age_counts() {
    let p = policy("{\"cache-control\":\"max-age=60\",\"age\":\"50\"}");
    assert_eq!(p.freshness(NOW + 9, 0), Some(true));
    assert_eq!(p.freshness(NOW + 10, 0), Some(false));
}

#[test]
fn no_answer_where_time_cannot_be_counted() {
    let p = policy("{\"cache-control\":\"max-age=60\",\"age\":\"18446744073709551615\"}");
    assert_eq!(p.freshness(NOW, 0), None);
    assert_eq!(p.remaining(NOW, 0), None);
    let p = policy("{\"cache-control\":\"max-age=60\"}");
    assert_eq!(p.freshness(253_402_300_800, 0), Some(false));
    assert_eq!(p.freshness(u64::MAX, 0), None);
    assert_eq!(p.freshness(NOW, 1_000_000_000), None);
    assert_eq!(p.remaining(u64::MAX, 0), None);
    assert_eq!(p.freshness(253_402_300_799, 0), Some(false));
}

#[test]
fn bytes_read_back() {
    let p = policy("{\"cache-control\":\"max-age=60\"}");
    let bytes = p.to_bytes().unwrap();
    let again = CachedPolicy::from_bytes(&bytes).unwrap();
    assert_eq!(again.to_bytes().unwrap(), bytes);
    assert_eq!(again.freshness(NOW, 0), Some(true));
    match CachedPolicy::from_bytes(&vec![1, 2, 3]) {
        Err(e) => assert_eq!(
            e.message(),
            "Proxy error: Failed to deserialize cache policy: expected value at line 1 column 1"
        ),
        Ok(_) => panic!("no policy"),
    }
}

#[test]
fn a_policy_depends_on_request_and_response() {
    let none: Vec<(String, String)> = vec![];
    let fresh = vec![pair("cache-control", "max-age=60")];
    let p = CachedPolicy::from_request_response("GET", "/x", &none, 200, &fresh, NOW, 0).unwrap();
    assert_eq!(p.freshness(NOW, 0), Some(true));
    let p = CachedPolicy::from_request_response("POST", "/x", &none, 200, &fresh, NOW, 0).unwrap();
    assert_eq!(p.freshness(NOW, 0), Some(false));
    let p = CachedPolicy::from_request_response("GET", "/x", &none, 503, &fresh, NOW, 0).unwrap();
    assert!(!p.is_storable());
    let asked = vec![pair("cache-control", "no-store")];
    let p = CachedPolicy::from_request_response("GET", "/x", &asked, 200, &fresh, NOW, 0).unwrap();
    assert!(!p.is_storable());
    let varying = vec![pair("cache-control", "max-age=60"), pair("vary", "accept")];
    let accepting = vec![pair("accept", "x")];
    let p = CachedPolicy::from_request_response("GET", "/x", &accepting, 200, &varying, NOW, 0).unwrap();
    assert_eq!(p.freshness(NOW, 0), Some(false));
    let p = CachedPolicy::from_request_response("GET", "/x", &none, 200, &varying, NOW, 0).unwrap();
    assert_eq!(p.freshness(NOW, 0), Some(true));
}

#[test]
fn errors_say_what_they_are() {
    let e = |f: fn(String) -> Error| f("x".to_string()).message();
    assert_eq!(e(Error::Io), "IO error: x");
    assert_eq!(e(Error::Certificate), "TLS/certificate error: x");
    assert_eq!(e(Error::Config), "Config error: x");
    assert_eq!(e(Error::Proxy), "Proxy error: x");
}

#[test]
fn many_quotation_marks_in_a_value_do_not_matter() {
    let value = "\"".repeat(50_000) + "\\";
    let headers = vec![pair("cache-control", "max-age=60"), pair("x", &value)];
    let p = CachedPolicy::from_request_response("GET", "/x", &vec![], 200, &headers, NOW, 0).unwrap();
    assert_eq!(p.clone().freshness(NOW, 0), Some(true));
}

#[test]
fn many_header_values_do_not_matter() {
    let mut headers = vec![pair("cache-control", "max-age=60")];
    for i in 0..20_000 {
        headers.push(pair("x", &format!("v{}", i)));
    }
    let p = CachedPolicy::from_request_response("GET", "/x", &vec![], 200, &headers, NOW, 0).unwrap();
    assert_eq!(p.freshness(NOW, 0), Some(true));
    assert_eq!(p.freshness(NOW + 60, 0), Some(false));
}

#[test]
fn many_header_names_do_not_matter() {
    let mut headers = vec![pair("cache-control", "max-age=60")];
    for i in 0..7000 {
        headers.push(pair(&format!("x-{}", i), "v"));
    }
    let p = CachedPolicy::from_request_response("GET", "/x", &vec![], 200, &headers, NOW, 0).unwrap();
    assert_eq!(p.freshness(NOW + 59, 0), Some(true));
    assert_eq!(p.freshness(NOW + 60, 0), Some(false));
    assert_eq!(p.remaining(NOW, 0), Some((60, 0)));
}

#[test]
fn a_response_that_never_ends_is_fresh_while_its_headers_can_be_copied() {
    let mut headers = vec![pair("cache-control", "max-age=18446744073709551615")];
    for i in 0..6000 {
        headers.push(pair(&format!("x-{}", i), "v"));
    }
    let p = CachedPolicy::from_request_response("GET", "/x", &vec![], 200, &headers, NOW, 0).unwrap();
    assert_eq!(p.freshness(NOW, 0), Some(true));
    assert_eq!(p.freshness(253_402_300_799, 0), Some(true));
    assert_eq!(p.freshness(253_402_300_800, 0), None);
    for i in 6000..7000 {
        headers.push(pair(&format!("x-{}", i), "v"));
    }
    let p = CachedPolicy::from_request_response("GET", "/x", &vec![], 200, &headers, NOW, 0).unwrap();
    assert_eq!(p.freshness(NOW, 0), None);
    let p = CachedPolicy::from_request_response("POST", "/x", &vec![], 200, &headers[..1].to_vec(), NOW, 0).unwrap();
    assert_eq!(p.freshness(NOW, 0), Some(false));
}
