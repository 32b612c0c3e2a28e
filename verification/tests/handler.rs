use proxy_core::cache::index::CacheIndex;
use proxy_core::cache::key::compute_fingerprint;
use proxy_core::cache::range::SlabHit;
use proxy_core::proxy::handler::{
    asks_no_cache, cached_response, conditions, context_for, first_step, header_text, hit_log_entry,
    host_of, may_serve, partial_range, request_context, response_log_entry, response_step, revalidate,
    revalidation_headers, serves_fresh, should_intercept, slab_response, store_response, url_pattern,
    urls_to_invalidate, RequestContext, RequestStep, ResponseStep,
};

use proxy_core::proxy::exchange::{
    entry_is_right, entry_was_found, entry_was_served, next_action, request_came, response_came,
    right_entry_was_served, server_is_asked, slab_was_read, RequestAction, RequestEvent,
};
use proxy_core::proxy::state::ProxyState;

const NOW: u64 = 1_700_000_000;

fn header(name: &str, value: &str) -> (String, Vec<u8>) {
    (name.to_string(), value.as_bytes().to_vec())
}

fn pair(name: &str, value: &str) -> (String, String) {
    (name.to_string(), value.to_string())
}

fn get(uri: &str) -> RequestContext {
    request_context("GET", uri, None)
}

#[test]
fn only_a_get_is_looked_up() {
    let c = request_context("POST", "https://example.com/a", Some("bytes=0-1"));
    assert!(!c.should_cache);
    assert_eq!(c.fingerprint, "");
    assert_eq!(c.range_start, None);
    assert_eq!(first_step(&c, false, false), RequestStep::Forward);
    let c = get("https://example.com/a");
    assert!(c.should_cache);
    assert_eq!(c.fingerprint, compute_fingerprint("GET", "https://example.com/a", &[]));
    assert_eq!(first_step(&c, false, false), RequestStep::LookForEntry);
    assert_eq!(first_step(&c, true, false), RequestStep::Forward);
    assert_eq!(url_pattern(&c), "https://example.com/a");
}

#[test]
fn ranges_are_taken_from_headers_and_addresses() {
    let c = request_context("GET", "https://example.com/a", Some("bytes=5-"));
    assert_eq!((c.range_start, c.range_end), (Some(5), None));
    assert_eq!(first_step(&c, false, false), RequestStep::LookForSlab);
    assert_eq!(first_step(&c, false, true), RequestStep::LookForEntry);
    assert_eq!(first_step(&c, true, true), RequestStep::Forward);
    let video = "https://h/videoplayback?itag=1&id=a&range=7-9&sig=s";
    let c = get(video);
    assert_eq!((c.range_start, c.range_end), (Some(7), Some(9)));
    assert_eq!(c.normalized_url, Some("https://h/videoplayback?id=a&itag=1".to_string()));
    assert_eq!(url_pattern(&c), "https://h/videoplayback?id=a&itag=1");
    assert_eq!(c.fingerprint, compute_fingerprint("GET", "https://h/videoplayback?id=a&itag=1", &[]));
    let c = request_context("GET", video, Some("bytes=1-"));
    assert_eq!((c.range_start, c.range_end), (Some(1), None));
    let c = request_context("GET", video, Some("nonsense"));
    assert_eq!((c.range_start, c.range_end), (Some(7), Some(9)));
}

#[test]
fn a_context_is_made_from_a_known_address() {
    let video = Some(("n".to_string(), Some("1".to_string()), None));
    let c = context_for("GET", "u", video, None);
    assert_eq!(c.fingerprint, compute_fingerprint("GET", "n", &[]));
    assert_eq!(c.uri, "u");
    assert_eq!(c.range_start, None);
}

#[test]
fn headers_are_read_by_name() {
    let headers = vec![header("a", "1"), header("b", "2"), header("a", "3"), ("c".to_string(), vec![0xff])];
    assert_eq!(header_text(&headers, "a"), Some("1".to_string()));
    assert_eq!(header_text(&headers, "c"), None);
    assert_eq!(header_text(&headers, "d"), None);
}

#[test]
fn a_client_can_ask_for_the_server() {
    assert!(asks_no_cache(Some("no-cache")));
    assert!(asks_no_cache(Some("public, max-age=0")));
    assert!(!asks_no_cache(Some("max-age=60")));
    assert!(!asks_no_cache(None));
}

fn hit(slab: (u64, u64), serve: (u64, u64), total: Option<u64>) -> SlabHit {
    SlabHit {
        slab_path: "p".to_string(),
        slab_start: slab.0,
        slab_end: slab.1,
        serve_start: serve.0,
        serve_end: serve.1,
        total,
    }
}

#[test]
fn a_range_is_served_from_a_slab() {
    let body: Vec<u8> = (10..20u8).collect();
    let r = slab_response(&hit((10, 19), (12, 15), Some(100)), &body).unwrap();
    assert_eq!(r.status, 206);
    assert_eq!(r.body, vec![12, 13, 14, 15]);
    assert_eq!(
        r.headers,
        vec![pair("content-range", "bytes 12-15/100"), pair("content-length", "4"), pair("X-Cache", "HIT")]
    );
    let r = slab_response(&hit((10, 19), (10, 19), None), &body).unwrap();
    assert_eq!(r.body, body);
    assert_eq!(r.headers[0], pair("content-range", "bytes 10-19/*"));
    assert!(slab_response(&hit((10, 29), (12, 20), None), &body).is_none());
}

#[test]
fn a_kept_response_is_served_while_fresh() {
    let headers = vec![
        header("cache-control", "max-age=60"),
        header("content-type", "text/css"),
        header("etag", "\"1\""),
        header("last-modified", "then"),
    ];
    let c = get("https://example.com/a.css");
    assert_eq!(response_step(&c, 200, &headers, 1000), ResponseStep::Keep);
    let kept = store_response(&c, 200, &headers, b"body".to_vec(), NOW, 0).unwrap();
    assert_eq!(kept.body, b"body");
    let mut index = CacheIndex::new();
    index.insert(&kept.entry);
    let e = index.lookup(&get("https://example.com/a.css").fingerprint).unwrap();
    assert_eq!(e.file_path, "example.com/a.css");
    assert_eq!((e.created_at, e.last_accessed), (NOW as i64, NOW as i64));
    assert_eq!((e.file_size, e.content_length), (4, Some(4)));
    assert_eq!(e.host, "example.com");
    assert_eq!(e.media_type, None);
    assert!(serves_fresh(&e, false, NOW + 59, 0));
    assert!(!serves_fresh(&e, true, NOW + 59, 0));
    assert!(!serves_fresh(&e, false, NOW + 60, 0));
    let r = cached_response(&e, b"body".to_vec());
    assert_eq!(r.status, 200);
    assert_eq!(r.body, b"body");
    assert_eq!(
        r.headers,
        vec![
            pair("cache-control", "max-age=60"),
            pair("content-type", "text/css"),
            pair("etag", "\"1\""),
            pair("last-modified", "then"),
            pair("X-Cache", "HIT"),
        ]
    );
    assert_eq!(
        revalidation_headers(&e.response_headers),
        vec![pair("if-none-match", "\"1\""), pair("if-modified-since", "then")]
    );
    let line = hit_log_entry(&e, 7, 8, "GET", "u");
    assert_eq!((line.id, line.timestamp, line.status_code, line.size, line.from_cache), (7, 8, 200, 4, true));
    assert_eq!(line.file_path, Some("example.com/a.css".to_string()));
}

#[test]
fn an_entry_without_a_policy_is_not_fresh() {
    let c = get("https://example.com/a.css");
    let kept = store_response(&c, 200, &vec![header("cache-control", "max-age=60")], vec![1], NOW, 0).unwrap();
    let mut e = kept.entry;
    assert!(serves_fresh(&e, false, NOW, 0));
    e.cache_policy = vec![];
    assert!(!serves_fresh(&e, false, NOW, 0));
}

#[test]
fn a_response_that_depends_on_the_origin_is_not_served() {
    assert!(may_serve("{}", true, false));
    assert!(!may_serve("{}", false, false));
    assert!(!may_serve("{}", true, true));
    assert!(!may_serve("{\"vary\":\"Accept, ORIGIN\"}", true, false));
    assert!(may_serve("{\"vary\":\"accept\"}", true, false));
    assert!(may_serve("{\"x\":\"origin\"}", true, false));
}

#[test]
fn conditions_must_be_valid() {
    assert_eq!(
        conditions(&Some("a".to_string()), &None),
        vec![pair("if-none-match", "a")]
    );
    assert_eq!(
        conditions(&Some("a\nb".to_string()), &Some("c".to_string())),
        vec![pair("if-modified-since", "c")]
    );
    assert!(revalidation_headers("[]").is_empty());
    assert!(revalidation_headers("{\"etag\":1}").is_empty());
}

#[test]
fn a_compressed_response_is_kept_without_its_encoding() {
    let mut gz = flate2::write::GzEncoder::new(Vec::new(), flate2::Compression::default());
    std::io::Write::write_all(&mut gz, b"text").unwrap();
    let gz = gz.finish().unwrap();
    let headers = vec![
        header("content-encoding", "gzip"),
        header("content-length", "99"),
        header("content-type", "image/png"),
    ];
    let c = get("https://example.com/a");
    let kept = store_response(&c, 200, &headers, gz.clone(), NOW, 0).unwrap();
    assert_eq!(kept.body, b"text");
    assert_eq!(kept.entry.file_size, 4);
    assert_eq!(kept.entry.content_length, Some(gz.len() as i64));
    assert_eq!(kept.entry.response_headers, "{\"content-type\":\"image/png\"}");
    assert_eq!(kept.entry.media_type, Some("image".to_string()));
    assert_eq!(kept.entry.file_path, "example.com/a.png");
    let kept = store_response(&c, 200, &headers, b"plain".to_vec(), NOW, 0).unwrap();
    assert_eq!(kept.body, b"plain");
    assert!(kept.entry.response_headers.contains("content-encoding"));
    assert!(store_response(&c, 200, &headers, vec![], NOW, 0).is_none());
}

#[test]
fn responses_are_sorted_out() {
    let plain = get("https://example.com/a");
    let none: Vec<(String, Vec<u8>)> = vec![];
    for method in ["POST", "PUT", "DELETE", "PATCH"] {
        let c = request_context(method, "https://example.com/a", None);
        assert_eq!(response_step(&c, 204, &none, 10), ResponseStep::Invalidate);
        assert_eq!(response_step(&c, 300, &none, 10), ResponseStep::Pass);
    }
    let c = request_context("HEAD", "https://example.com/a", None);
    assert_eq!(response_step(&c, 200, &none, 10), ResponseStep::Pass);
    assert_eq!(response_step(&plain, 200, &none, 10), ResponseStep::Keep);
    assert_eq!(response_step(&plain, 206, &none, 10), ResponseStep::KeepSlab);
    assert_eq!(response_step(&plain, 304, &none, 10), ResponseStep::Pass);
    assert_eq!(response_step(&plain, 404, &none, 10), ResponseStep::Pass);
    assert_eq!(response_step(&plain, 500, &none, 10), ResponseStep::Pass);
    let mut known = get("https://example.com/a");
    known.existing_entry = store_response(&plain, 200, &none, vec![1], NOW, 0).map(|s| s.entry);
    assert_eq!(response_step(&known, 304, &none, 10), ResponseStep::ServeKept);
    assert_eq!(response_step(&known, 404, &none, 10), ResponseStep::MarkStale);
    assert_eq!(response_step(&known, 410, &none, 10), ResponseStep::MarkStale);
    for h in [
        header("cache-control", "private, no-store"),
        header("content-length", "11"),
        header("content-type", "text/html; charset=utf-8"),
        header("vary", "Accept, Origin"),
        header("access-control-allow-origin", "https://example.com"),
    ] {
        assert_eq!(response_step(&plain, 200, &vec![h], 10), ResponseStep::Pass);
    }
    for h in [
        header("cache-control", "private"),
        header("content-length", "10"),
        header("content-length", "many"),
        header("vary", "accept"),
        header("access-control-allow-origin", "*"),
    ] {
        assert_eq!(response_step(&plain, 200, &vec![h], 10), ResponseStep::Keep);
    }
}

#[test]
fn the_log_shows_responses() {
    let c = get("https://example.com/a");
    let headers = vec![header("content-length", "12"), header("content-type", "a/b")];
    let line = response_log_entry(&c, 1, 2, 404, &headers, Some("f".to_string()));
    assert_eq!((line.id, line.timestamp, line.status_code, line.size), (1, 2, 404, 12));
    assert_eq!(line.content_type, Some("a/b".to_string()));
    assert_eq!(line.host, "example.com");
    assert_eq!(line.file_path, Some("f".to_string()));
    assert!(!line.from_cache);
    let line = response_log_entry(&get("nothing"), 1, 2, 200, &vec![header("content-length", "x")], None);
    assert_eq!((line.size, line.host.as_str()), (0, ""));
}

#[test]
fn revalidation_gives_new_headers_and_a_new_policy() {
    let c = get("https://example.com/a");
    let kept = store_response(&c, 200, &vec![header("cache-control", "max-age=1")], vec![1], NOW, 0).unwrap();
    let mut index = CacheIndex::new();
    index.insert(&kept.entry);
    assert!(!serves_fresh(&kept.entry, false, NOW + 100, 0));
    let (headers, policy) = revalidate(
        &kept.entry.response_headers,
        &vec![header("cache-control", "max-age=50")],
        "https://example.com/a",
        NOW + 100,
        0,
    );
    index.update_policy(&c.fingerprint, &policy, &headers, (NOW + 100) as i64);
    let e = index.lookup(&c.fingerprint).unwrap();
    assert_eq!(e.response_headers, "{\"cache-control\":\"max-age=50\"}");
    assert!(serves_fresh(&e, false, NOW + 149, 0));
}

#[test]
fn a_part_says_which_it_is() {
    let r = partial_range(&vec![header("content-range", "bytes 0-4/10")]).unwrap();
    assert_eq!((r.start, r.end, r.total), (0, 4, Some(10)));
    assert_eq!(partial_range(&vec![]), None);
    assert_eq!(partial_range(&vec![header("content-range", "x")]), None);
}

#[test]
fn changes_reach_the_named_addresses() {
    let uri = "https://example.com/a/b";
    assert_eq!(urls_to_invalidate(uri, &vec![]), vec![uri]);
    assert_eq!(
        urls_to_invalidate(uri, &vec![header("location", "../c"), header("content-location", "http://x/")]),
        vec![uri, "https://example.com/c", "http://x/"]
    );
    assert_eq!(urls_to_invalidate("bad", &vec![header("location", "/c")]), vec!["bad"]);
    assert_eq!(urls_to_invalidate(uri, &vec![header("location", "//")]), vec![uri]);
}

#[test]
fn hosts_are_found_in_addresses() {
    assert_eq!(host_of("https://EXAMPLE.com:8080/a", "_unknown_"), "example.com");
    assert_eq!(host_of("data:x", "_unknown_"), "_unknown_");
    assert_eq!(host_of("?", ""), "");
}

#[test]
fn some_hosts_are_left_alone() {
    assert!(should_intercept("example.com", false));
    assert!(!should_intercept("1.2.3.4", true));
    for host in [
        "alive.github.com", "a-realtime.x", "x-ws.y", "gdmf.apple.com", "p1.icloud.com",
        "s.mzstatic.com", "x.itunes.apple.com",
    ] {
        assert!(!should_intercept(host, false), "{}", host);
    }
    assert!(should_intercept("apple.com", false));
    assert!(should_intercept("", false));
}

#[test]
fn an_exchange_is_counted_and_logged() {
    let mut state = ProxyState::new(1000, 500, false, true, 9090);
    let mut c = request_came(&mut state, "GET", "https://example.com/a", None);
    assert_eq!((state.requests, c.should_cache), (1, true));
    let headers = vec![header("cache-control", "max-age=60"), header("etag", "\"1\"")];
    let entry = store_response(&c, 200, &headers, b"body".to_vec(), NOW, 0).unwrap().entry;

    assert!(entry_was_found(&mut state, &entry, false, NOW, 0));
    assert_eq!((state.cache_hits, state.bytes_saved), (1, 4));
    entry_was_served(&mut state, &entry, &c, 77);
    let line = state.request_log.back().unwrap();
    assert_eq!((line.id, line.timestamp, line.from_cache), (0, 77, true));
    assert_eq!((line.method.as_str(), line.url.as_str()), ("GET", "https://example.com/a"));

    assert!(!entry_was_found(&mut state, &entry, true, NOW, 0));
    assert_eq!((state.cache_hits, state.bytes_saved), (1, 4));
    assert_eq!(server_is_asked(&mut c, entry.clone()), vec![pair("if-none-match", "\"1\"")]);
    assert_eq!(c.existing_entry.as_ref().unwrap().file_path, entry.file_path);

    let id = response_came(&mut state, &c, 78, 304, &vec![], None);
    assert_eq!((id, state.request_log_counter), (1, 2));
    let line = state.request_log.back().unwrap();
    assert_eq!((line.status_code, line.size, line.from_cache), (304, 0, false));
    entry_is_right(&mut state, &entry);
    right_entry_was_served(&mut state, id, &entry);
    assert_eq!((state.cache_hits, state.bytes_saved), (2, 8));
    let line = state.request_log.back().unwrap();
    assert_eq!((line.status_code, line.size, line.from_cache), (200, 4, true));
    assert_eq!(line.file_path, Some(entry.file_path.clone()));
}

#[test]
fn a_slab_is_counted_when_it_is_served() {
    let mut state = ProxyState::new(1000, 500, false, true, 9090);
    let body: Vec<u8> = (10..20u8).collect();
    assert!(slab_was_read(&mut state, &hit((10, 29), (12, 20), None), &body).is_none());
    assert_eq!((state.cache_hits, state.bytes_saved), (0, 0));
    let r = slab_was_read(&mut state, &hit((10, 19), (12, 15), None), &body).unwrap();
    assert_eq!(r.body, vec![12, 13, 14, 15]);
    assert_eq!((state.cache_hits, state.bytes_saved), (1, 4));
}

#[test]
fn a_header_named_like_a_raw_value_is_kept_as_text() {
    let c = get("https://example.com/a");
    let mark = "$serde_json::private::RawValue";
    let kept = store_response(&c, 200, &vec![header(mark, "x")], vec![1], NOW, 0).unwrap();
    assert_eq!(kept.entry.response_headers, format!("{{\"{}\":\"x\"}}", mark));
    assert_eq!(cached_response(&kept.entry, vec![1]).headers, vec![pair("X-Cache", "HIT")]);
}

#[test]
fn a_request_goes_from_slab_to_entry_to_server() {
    let mut state = ProxyState::new(1000, 500, false, true, 9090);
    let mut c = request_came(&mut state, "GET", "https://example.com/a", Some("bytes=2-5"));
    assert!(matches!(
        next_action(&mut state, &mut c, false, RequestEvent::Came),
        RequestAction::LookForSlab
    ));
    assert!(matches!(
        next_action(&mut state, &mut c, true, RequestEvent::Came),
        RequestAction::LookForEntry
    ));
    assert!(matches!(
        next_action(&mut state, &mut c, false, RequestEvent::SlabMissing),
        RequestAction::LookForEntry
    ));
    assert_eq!((state.cache_hits, state.cache_misses), (0, 0));
    match next_action(&mut state, &mut c, false, RequestEvent::EntryMissing) {
        RequestAction::Forward(headers) => assert!(headers.is_empty()),
        other => panic!("{:?}", other),
    }
    assert_eq!((state.cache_hits, state.cache_misses), (0, 1));
    assert!(c.existing_entry.is_none());
    state.bypass = true;
    match next_action(&mut state, &mut c, false, RequestEvent::Came) {
        RequestAction::Forward(headers) => assert!(headers.is_empty()),
        other => panic!("{:?}", other),
    }
}

#[test]
fn a_slab_answers_if_it_holds_the_range() {
    let mut state = ProxyState::new(1000, 500, false, true, 9090);
    let mut c = request_came(&mut state, "GET", "https://example.com/a", Some("bytes=12-15"));
    let body: Vec<u8> = (10..20u8).collect();
    let read = |serve| RequestEvent::SlabRead { hit: hit((10, 29), serve, None), body: body.clone() };
    for serve in [(12, 20), (9, 12), (15, 12)] {
        let action = next_action(&mut state, &mut c, false, read(serve));
        assert!(matches!(action, RequestAction::LookForEntry));
    }
    assert_eq!((state.cache_hits, state.bytes_saved), (0, 0));
    match next_action(&mut state, &mut c, false, read((12, 15))) {
        RequestAction::AnswerRange(r) => {
            assert_eq!((r.status, r.body), (206, vec![12, 13, 14, 15]));
        }
        other => panic!("{:?}", other),
    }
    assert_eq!((state.cache_hits, state.bytes_saved), (1, 4));
}

#[test]
fn an_entry_answers_if_it_is_fresh_and_its_file_is_there() {
    let mut state = ProxyState::new(1000, 500, false, true, 9090);
    let mut c = request_came(&mut state, "GET", "https://example.com/a", None);
    let headers = vec![header("cache-control", "max-age=60"), header("etag", "\"1\"")];
    let entry = store_response(&c, 200, &headers, b"body".to_vec(), NOW, 0).unwrap().entry;

    let found = RequestEvent::EntryFound { entry: entry.clone(), secs: NOW + 59, nanos: 0 };
    let RequestAction::ReadEntry(entry) = next_action(&mut state, &mut c, false, found) else {
        panic!("not fresh");
    };
    assert_eq!((state.cache_hits, state.bytes_saved, state.request_log.len()), (1, 4, 0));
    let read = RequestEvent::EntryRead { entry: entry.clone(), now: 77 };
    assert!(matches!(next_action(&mut state, &mut c, false, read), RequestAction::AnswerEntry));
    let line = state.request_log.back().unwrap();
    assert_eq!((line.id, line.timestamp, line.from_cache, line.size), (0, 77, true, 4));
    assert!(c.existing_entry.is_none());

    let unreadable = RequestEvent::EntryUnreadable { entry: entry.clone() };
    match next_action(&mut state, &mut c, false, unreadable) {
        RequestAction::Forward(added) => assert_eq!(added, vec![pair("if-none-match", "\"1\"")]),
        other => panic!("{:?}", other),
    }
    assert_eq!(c.existing_entry.as_ref().unwrap().file_path, entry.file_path);

    for (no_cache, secs) in [(true, NOW), (false, NOW + 60)] {
        let found = RequestEvent::EntryFound { entry: entry.clone(), secs, nanos: 0 };
        match next_action(&mut state, &mut c, no_cache, found) {
            RequestAction::Forward(added) => assert_eq!(added.len(), 1),
            other => panic!("{:?}", other),
        }
    }
    assert_eq!((state.cache_hits, state.request_log.len()), (1, 1));
}
