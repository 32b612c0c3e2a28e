use proxy_core::cache::index::{CacheEntry, CacheIndex, IndexError};
use proxy_core::config::Config;
use proxy_core::dashboard::api::{
    cache_file_headers, clear_cache, delete_entry, get_entry, headers_for_type, health, limits, list_entries,
    list_requests, restore_entry, set_system_proxy, stats, toggle_bypass, update_config, DeleteParams, FileStep, ListParams,
    RequestLogParams, SystemProxyRequest, UpdateConfigRequest,
};
use proxy_core::dashboard::media::{group_media, list_media};
use proxy_core::proxy::engine::{initial_state, parse_pid, persisted_limit, search_line};
use proxy_core::proxy::state::{ProxyState, RequestLogEntry};

fn row(fingerprint: &str, host: &str, read: i64) -> CacheEntry {
    CacheEntry {
        fingerprint: fingerprint.to_string(),
        url: format!("https://{}/{}", host, fingerprint),
        method: "GET".to_string(),
        status_code: 200,
        content_type: Some("image/png".to_string()),
        content_length: None,
        response_headers: "{}".to_string(),
        cache_policy: vec![],
        created_at: 3,
        last_accessed: read,
        expires_at: None,
        file_path: format!("{}/{}", host, fingerprint),
        file_size: 2048,
        host: host.to_string(),
        vary_key: None,
        media_type: Some("image".to_string()),
        status: "active".to_string(),
        stale_at: None,
    }
}

fn log_line(id: u64) -> RequestLogEntry {
    RequestLogEntry {
        id,
        timestamp: 1,
        method: "GET".to_string(),
        url: "u".to_string(),
        status_code: 200,
        size: 0,
        from_cache: false,
        content_type: None,
        host: "h".to_string(),
        file_path: None,
    }
}

fn all() -> ListParams {
    ListParams { host: None, media_type: None, status: None, q: None, offset: None, limit: None }
}

fn state() -> ProxyState {
    ProxyState::new(1000, 500, false, true, 9090)
}

#[test]
fn the_proxy_is_well() {
    assert_eq!(health().status, "ok");
}

#[test]
fn figures_are_shown() {
    let mut index = CacheIndex::new();
    index.insert(&row("a", "h", 1));
    let mut s = state();
    s.count_request();
    s.count_hit(1536);
    s.count_miss();
    let r = stats(&s.stats(), &index.stats(), 1_073_741_824);
    assert_eq!((r.requests, r.cache_hits, r.cache_misses, r.bandwidth_saved), (1, 1, 1, 1536));
    assert_eq!(r.bandwidth_saved_human, "1.5 KB");
    assert_eq!((r.active_entries, r.stale_entries, r.image_count), (1, 0, 1));
    assert_eq!((r.active_size_human.as_str(), r.total_size_human.as_str()), ("2.0 KB", "2.0 KB"));
    assert_eq!(r.max_cache_size_human, "1.0 GB");
    let r = stats(&s.stats(), &Err(IndexError::SizeOverflow), 1);
    assert_eq!((r.active_entries, r.total_size), (0, 0));
    assert_eq!(r.total_size_human, "0 B");
}

#[test]
fn entries_are_listed_in_pages() {
    let mut index = CacheIndex::new();
    for i in 0..250 {
        index.insert(&row(&format!("e{}", i), "h", i));
    }
    let r = list_entries(&index, &all()).unwrap();
    assert_eq!((r.total, r.offset, r.limit, r.entries.len()), (250, 0, 50, 50));
    assert_eq!(r.entries[0].fingerprint, "e249");
    let mut p = all();
    p.limit = Some(1000);
    p.offset = Some(100);
    let r = list_entries(&index, &p).unwrap();
    assert_eq!((r.limit, r.entries.len()), (200, 150));
    p.limit = Some(-1);
    assert_eq!(list_entries(&index, &p).unwrap().entries.len(), 150);
    p.q = Some("x".repeat(60_000));
    assert!(matches!(list_entries(&index, &p), Err(500)));
}

#[test]
fn any_entry_is_shown() {
    let mut index = CacheIndex::new();
    assert!(matches!(get_entry(&index, "a"), Err(404)));
    index.insert(&row("a", "h", 1));
    index.insert(&row("b", "h", 2));
    let r = get_entry(&index, "b").unwrap();
    assert_eq!((r.url.as_str(), r.created_at, r.file_size), ("https://h/b", 3, 2048));
    assert_eq!(get_entry(&index, "a").unwrap().url, "https://h/a");
    index.mark_stale("a", "h/a~", 5).unwrap();
    let r = get_entry(&index, "a").unwrap();
    assert_eq!((r.status.as_str(), r.stale_at, r.file_path.as_str()), ("stale", Some(5), "h/a~"));
    assert!(matches!(get_entry(&index, "c"), Err(404)));
}

#[test]
fn the_cache_is_cleared() {
    let mut index = CacheIndex::new();
    index.insert(&row("a", "h", 1));
    index.insert(&row("b", "h", 2));
    assert_eq!(clear_cache(&mut index, &DeleteParams { permanent: None }, 7), 2);
    assert_eq!(index.rows()[0].stale_at, Some(7));
    assert_eq!(clear_cache(&mut index, &DeleteParams { permanent: Some(false) }, 8), 0);
    assert_eq!(clear_cache(&mut index, &DeleteParams { permanent: Some(true) }, 9), 2);
    assert!(index.rows().is_empty());
    assert!(DeleteParams { permanent: Some(true) }.is_permanent());
    assert!(!DeleteParams { permanent: None }.is_permanent());
}

#[test]
fn switches_are_thrown() {
    let mut s = state();
    assert!(toggle_bypass(&mut s));
    assert!(!toggle_bypass(&mut s));
    assert!(!set_system_proxy(&mut s, &SystemProxyRequest { enabled: false }, true));
    assert!(!s.system_proxy_enabled);
    assert!(!set_system_proxy(&mut s, &SystemProxyRequest { enabled: true }, false));
    assert!(!s.system_proxy_enabled);
    assert!(set_system_proxy(&mut s, &SystemProxyRequest { enabled: true }, true));
    assert!(s.system_proxy_enabled);
    assert!(set_system_proxy(&mut s, &SystemProxyRequest { enabled: false }, false));
    assert!(s.system_proxy_enabled);
}

#[test]
fn limits_are_kept_in_the_settings() {
    let mut s = state();
    let mut index = CacheIndex::new();
    update_config(&mut s, &mut index, &UpdateConfigRequest { max_cache_size: Some(2048), max_entry_size: None });
    assert_eq!((s.max_cache_size, s.max_entry_size), (2048, 500));
    assert_eq!(index.get_setting("max_cache_size"), Some("2048".to_string()));
    assert_eq!(index.get_setting("max_entry_size"), None);
    let r = limits(&s);
    assert_eq!((r.max_cache_size_human.as_str(), r.max_entry_size_human.as_str()), ("2.0 KB", "500 B"));
    let config = Config::default_for(Some("/home/x"));
    let fresh = initial_state(&config, &index, false);
    assert_eq!((fresh.max_cache_size, fresh.max_entry_size), (2048, 524_288_000));
    assert_eq!((fresh.proxy_port, fresh.system_proxy_enabled, fresh.bypass), (9090, true, false));
    assert!(initial_state(&config, &index, true).bypass);
}

#[test]
fn a_setting_that_is_no_number_does_not_count() {
    assert_eq!(persisted_limit(&Some("12".to_string()), 5), 12);
    assert_eq!(persisted_limit(&Some("x".to_string()), 5), 5);
    assert_eq!(persisted_limit(&None, 5), 5);
}

#[test]
fn files_have_their_types() {
    let r = cache_file_headers("a/b.png");
    assert_eq!(r[0], ("content-type".to_string(), "image/png".to_string()));
    assert_eq!(r[1], ("cache-control".to_string(), "public, max-age=3600".to_string()));
    assert_eq!(cache_file_headers("a/b")[0].1, "application/octet-stream");
    assert_eq!(headers_for_type("x/y")[0].1, "x/y");
}

#[test]
fn the_log_is_shown_from_a_number_on() {
    let mut s = state();
    for _ in 0..3 {
        let id = s.next_log_id();
        s.log_request(log_line(id));
    }
    let ids = |p: RequestLogParams| -> Vec<u64> { list_requests(&s, &p).iter().map(|e| e.id).collect() };
    assert_eq!(ids(RequestLogParams { since: None }), vec![1, 2]);
    assert_eq!(ids(RequestLogParams { since: Some(1) }), vec![2]);
}

#[test]
fn media_are_grouped_by_host() {
    let mut index = CacheIndex::new();
    index.insert(&row("a", "x", 1));
    index.insert(&row("b", "y", 2));
    index.insert(&row("c", "x", 3));
    let mut v = row("d", "z", 4);
    v.media_type = Some("video".to_string());
    index.insert(&v);
    let groups = list_media(&index, &all()).unwrap();
    assert_eq!(groups.len(), 2);
    assert_eq!((groups[0].host.as_str(), groups[0].total_size), ("x", 4096));
    assert_eq!(groups[0].entries[0].fingerprint, "c");
    assert_eq!(groups[0].entries[1].thumbnail_url, "/api/cache/file/x/a");
    assert_eq!(groups[1].host, "y");
    let mut p = all();
    p.media_type = Some("video".to_string());
    let groups = list_media(&index, &p).unwrap();
    assert_eq!((groups.len(), groups[0].entries[0].fingerprint.as_str()), (1, "d"));
    p.q = Some("x".repeat(60_000));
    assert!(matches!(list_media(&index, &p), Err(500)));
}

#[test]
fn groups_that_cannot_be_added_up_are_an_error() {
    let mut a = row("a", "x", 1);
    a.file_size = i64::MAX;
    let b = row("b", "x", 1);
    assert!(group_media(&vec![a.clone()]).is_some());
    assert!(group_media(&vec![a.clone(), b.clone()]).is_none());
    let mut index = CacheIndex::new();
    index.insert(&a);
    index.insert(&b);
    assert!(matches!(list_media(&index, &all()), Err(500)));
}

#[test]
fn the_log_is_bounded() {
    let mut s = state();
    for i in 0..2005 {
        s.log_request(log_line(i));
    }
    assert_eq!(s.request_log.len(), 2000);
    assert_eq!(s.request_log[0].id, 5);
    s.log_request(log_line(7));
    s.update_request_size(7, 99);
    assert_eq!(s.request_log[1999].size, 99);
    assert_eq!(s.request_log[1].size, 0);
    s.update_request_cache_hit(10, 5, 304, Some("f".to_string()));
    let e = &s.get_requests_since(9)[0];
    assert_eq!((e.id, e.size, e.status_code, e.from_cache), (10, 5, 304, true));
    assert_eq!(e.file_path, Some("f".to_string()));
    s.update_request_size(1, 1);
    s.update_request_cache_hit(1, 1, 1, None);
}

#[test]
fn counters_start_again() {
    let mut s = state();
    s.requests = u64::MAX;
    s.bytes_saved = u64::MAX - 1;
    s.request_log_counter = u64::MAX;
    s.count_request();
    s.count_hit(5);
    assert_eq!((s.requests, s.bytes_saved, s.cache_hits), (0, 3, 1));
    assert_eq!(s.next_log_id(), u64::MAX);
    assert_eq!(s.next_log_id(), 0);
}

#[test]
fn process_numbers_are_read() {
    assert_eq!(parse_pid(" 123\n"), Some(123));
    assert_eq!(parse_pid("x"), None);
    assert_eq!(parse_pid("99999999999"), None);
}

#[test]
fn found_entries_are_shown_in_lines() {
    let mut e = row("a", "h", 1);
    assert_eq!(search_line(&e), "  [active] https://h/a (image/png, 2.0 KB)");
    e.content_type = None;
    assert_eq!(search_line(&e), "  [active] https://h/a (unknown, 2.0 KB)");
}

#[test]
fn a_configuration_has_its_paths() {
    let mut c = Config::default_for(Some("/home/x"));
    assert_eq!((c.proxy_port, c.dashboard_port), (9090, 9091));
    assert_eq!((c.max_cache_size, c.max_entry_size), (1_073_741_824, 524_288_000));
    assert_eq!((c.stale_retention_days, c.partial_range_ttl_days), (30, 7));
    assert!(c.auto_system_proxy && !c.serve_stale_on_error && c.bypass_hosts.is_empty());
    assert_eq!(c.data_dir, "/home/x/mac-proxy-cache");
    assert_eq!(c.ca_dir(), "/home/x/mac-proxy-cache/ca");
    assert_eq!(c.cache_dir(), "/home/x/mac-proxy-cache/cache");
    assert_eq!(c.db_path(), "/home/x/mac-proxy-cache/index.db");
    assert_eq!(c.pid_path(), "/home/x/mac-proxy-cache/proxy.pid");
    assert_eq!(c.proxy_state_path(), "/home/x/mac-proxy-cache/proxy-state.json");
    assert_eq!(Config::default_for(None).data_dir, "./mac-proxy-cache");
    assert_eq!(Config::config_file_path(Some("/h")), "/h/.config/mac-proxy-cache/config.toml");
    assert_eq!(Config::config_file_path(None), ".config/mac-proxy-cache/config.toml");
    c.bypass_hosts.push("x".to_string());
    let copy = c.clone();
    assert_eq!((copy.data_dir, copy.bypass_hosts, copy.proxy_port), (c.data_dir.clone(), vec!["x".to_string()], 9090));
    c.apply_options(Some(1), None, true, Some(5));
    assert_eq!((c.proxy_port, c.dashboard_port, c.auto_system_proxy, c.max_cache_size), (1, 9091, false, 5));
}

#[test]
fn an_entry_is_deleted_or_becomes_stale() {
    let mut index = CacheIndex::new();
    index.insert(&row("a", "h", 1));
    index.insert(&row("b", "h", 2));
    let good = DeleteParams { permanent: Some(true) };
    let stale = DeleteParams { permanent: None };
    assert!(matches!(delete_entry(&mut index, "a", &stale), FileStep::Rename(p) if p == "h/a"));
    assert_eq!(index.rows().len(), 2);
    index.mark_stale("a", "h/a~", 5).unwrap();
    assert!(matches!(delete_entry(&mut index, "a", &stale), FileStep::Leave));
    assert_eq!(restore_entry(&mut index, "a"), 204);
    assert!(index.lookup("a").is_some());
    assert!(matches!(delete_entry(&mut index, "a", &good), FileStep::Delete(p) if p == "h/a~"));
    assert!(matches!(delete_entry(&mut index, "a", &good), FileStep::Leave));
    assert_eq!(index.rows().len(), 1);
}
