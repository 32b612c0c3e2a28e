use proxy_core::proxy::headers::{
    build_cache_policy_bytes, decompress_body, extract_headers_json, headers_from_json,
    merge_304_headers, response_headers, sendable_headers, strip_encoding_headers,
};
use std::io::Write;

fn header(name: &str, value: &str) -> (String, Vec<u8>) {
    (name.to_string(), value.as_bytes().to_vec())
}

fn pair(name: &str, value: &str) -> (String, String) {
    (name.to_string(), value.to_string())
}

#[test]
fn headers_are_written_as_an_object() {
    let headers = vec![header("vary", "a"), header("etag", "\"x\""), header("vary", "b")];
    assert_eq!(extract_headers_json(&headers), "{\"etag\":\"\\\"x\\\"\",\"vary\":\"b\"}");
    assert_eq!(extract_headers_json(&vec![]), "{}");
}

#[test]
fn bytes_that_are_no_text_are_replaced() {
    let headers = vec![("x".to_string(), vec![b'a', 0xff]), ("y".to_string(), "ä".as_bytes().to_vec())];
    assert_eq!(extract_headers_json(&headers), "{\"x\":\"a\u{fffd}\",\"y\":\"ä\"}");
}

#[test]
fn kept_headers_read_back() {
    let headers = vec![header("content-type", "text/css"), header("etag", "\"1\"")];
    assert_eq!(
        headers_from_json(&extract_headers_json(&headers)),
        vec![pair("content-type", "text/css"), pair("etag", "\"1\"")]
    );
}

#[test]
fn freshness_is_taken_over_and_the_rest_stays() {
    let kept = "{\"content-type\":\"text/css\",\"etag\":\"1\",\"content-length\":\"5\",\"n\":7}";
    let headers = vec![
        header("ETag", "2"),
        header("content-type", "x/y"),
        header("content-length", "0"),
        header("cache-control", "max-age=1"),
        header("x-github-request-id", "q"),
    ];
    assert_eq!(
        merge_304_headers(kept, &headers),
        "{\"cache-control\":\"max-age=1\",\"content-length\":\"5\",\"content-type\":\"text/css\",\"etag\":\"2\",\"n\":7,\"x-github-request-id\":\"q\"}"
    );
    assert_eq!(merge_304_headers("broken", &vec![header("date", "d")]), "{\"date\":\"d\"}");
    for name in ["expires", "last-modified", "vary", "set-cookie", "strict-transport-security"] {
        assert_eq!(
            merge_304_headers("null", &vec![header(name, "v")]),
            format!("{{\"{}\":\"v\"}}", name)
        );
    }
}

#[test]
fn what_is_said_of_the_encoding_is_left_out() {
    assert_eq!(
        strip_encoding_headers("{\"content-encoding\":\"gzip\",\"content-length\":\"1\",\"etag\":\"x\",\"transfer-encoding\":\"chunked\"}"),
        "{\"etag\":\"x\"}"
    );
    assert_eq!(strip_encoding_headers(" [1, 2] "), "[1,2]");
    assert_eq!(strip_encoding_headers("null"), "null");
    assert_eq!(strip_encoding_headers("{broken"), "{broken");
}

#[test]
fn only_valid_headers_are_sent() {
    let list = vec![
        ("etag".to_string(), Some("x".to_string())),
        ("bad name".to_string(), Some("x".to_string())),
        ("bad-value".to_string(), Some("a\nb".to_string())),
        ("number".to_string(), None),
        ("umlaut".to_string(), Some("ä".to_string())),
    ];
    assert_eq!(sendable_headers(&list), vec![pair("etag", "x"), pair("umlaut", "ä")]);
    assert_eq!(
        response_headers("{\"b\":\"2\",\"a\":\"1\",\"c\":3}"),
        vec![pair("a", "1"), pair("b", "2"), pair("X-Cache", "HIT")]
    );
    assert_eq!(response_headers("nothing"), vec![pair("X-Cache", "HIT")]);
}

#[test]
fn bodies_are_decompressed() {
    let text = b"hello hello hello hello".to_vec();
    let mut gz = flate2::write::GzEncoder::new(Vec::new(), flate2::Compression::default());
    gz.write_all(&text).unwrap();
    let gz = gz.finish().unwrap();
    let mut raw = flate2::write::DeflateEncoder::new(Vec::new(), flate2::Compression::default());
    raw.write_all(&text).unwrap();
    let raw = raw.finish().unwrap();
    let mut br = Vec::new();
    {
        let mut w = brotli::CompressorWriter::new(&mut br, 4096, 5, 20);
        w.write_all(&text).unwrap();
    }
    assert_eq!(decompress_body(gz.clone(), Some("gzip")), (text.clone(), true));
    assert_eq!(decompress_body(gz.clone(), Some("x-gzip")), (text.clone(), true));
    assert_eq!(decompress_body(raw.clone(), Some("deflate")), (text.clone(), true));
    assert_eq!(decompress_body(br.clone(), Some("br")), (text.clone(), true));
    assert_eq!(decompress_body(gz.clone(), None), (gz.clone(), false));
    assert_eq!(decompress_body(gz.clone(), Some("zstd")), (gz.clone(), false));
    assert_eq!(decompress_body(gz.clone(), Some("GZIP")), (gz.clone(), false));
    assert_eq!(decompress_body(text.clone(), Some("gzip")), (text.clone(), false));
    assert_eq!(decompress_body(b"\xff\xff".to_vec(), Some("deflate")), (b"\xff\xff".to_vec(), false));
    assert_eq!(decompress_body(b"\xff\xff".to_vec(), Some("br")), (b"\xff\xff".to_vec(), false));
}

#[test]
fn policies_are_always_written_the_same_way() {
    let json = "{\"cache-control\":\"public, max-age=60, immutable\",\"etag\":\"x\"}";
    let one = build_cache_policy_bytes("https://example.com/a", json, 1_700_000_000, 5);
    let other = build_cache_policy_bytes("https://example.com/a", json, 1_700_000_000, 5);
    assert_eq!(one, other);
    assert_ne!(one, build_cache_policy_bytes("https://example.com/b", json, 1_700_000_000, 5));
    assert_ne!(one, build_cache_policy_bytes("https://example.com/a", "{}", 1_700_000_000, 5));
    assert_ne!(one, build_cache_policy_bytes("https://example.com/a", json, 1_700_000_001, 5));
}

#[test]
fn merging_reads_field_by_field() {
    let kept = "{\"$serde_json::private::RawValue\":\"x\",\"etag\":\"1\"}";
    assert_eq!(
        merge_304_headers(kept, &vec![header("etag", "2")]),
        "{\"$serde_json::private::RawValue\":\"x\",\"etag\":\"2\"}"
    );
    let merged = merge_304_headers("{\"a\":\"1\"}", &vec![header("date", "d")]);
    assert_eq!(headers_from_json(&merged), vec![pair("a", "1"), pair("date", "d")]);
}
