use proxy_core::cache::index::{CacheEntry, CacheIndex, IndexError};

fn entry(fingerprint: &str, path: &str, size: i64) -> CacheEntry {
    CacheEntry {
        fingerprint: fingerprint.to_string(),
        url: format!("https://example.com/{}", fingerprint),
        method: "GET".to_string(),
        status_code: 200,
        content_type: None,
        content_length: None,
        response_headers: "{}".to_string(),
        cache_policy: vec![],
        created_at: 1000,
        last_accessed: 1000,
        expires_at: None,
        file_path: path.to_string(),
        file_size: size,
        host: "example.com".to_string(),
        vary_key: None,
        media_type: None,
        status: "active".to_string(),
        stale_at: None,
    }
}

fn names(rows: &[CacheEntry]) -> Vec<String> {
    rows.iter().map(|e| e.fingerprint.clone()).collect()
}

#[test]
fn test_insert_and_lookup() {
    let mut index = CacheIndex::new();

    let entry = CacheEntry {
        fingerprint: "abc123".into(),
        url: "https://example.com/page".into(),
        method: "GET".into(),
        status_code: 200,
        content_type: Some("text/html".into()),
        content_length: Some(1234),
        response_headers: "{}".into(),
        cache_policy: vec![1, 2, 3],
        created_at: 1000,
        last_accessed: 1000,
        expires_at: Some(2000),
        file_path: "example.com/page.html".into(),
        file_size: 1234,
        host: "example.com".into(),
        vary_key: None,
        media_type: None,
        status: "active".into(),
        stale_at: None,
    };

    index.insert(&entry);

    let found = index.lookup("abc123");
    assert!(found.is_some());
    let found = found.unwrap();
    assert_eq!(found.url, "https://example.com/page");
    assert_eq!(found.status, "active");
}

#[test]
fn test_mark_stale_hides_from_lookup() {
    let mut index = CacheIndex::new();

    let entry = CacheEntry {
        fingerprint: "def456".into(),
        url: "https://example.com/img.png".into(),
        method: "GET".into(),
        status_code: 200,
        content_type: Some("image/png".into()),
        content_length: None,
        response_headers: "{}".into(),
        cache_policy: vec![],
        created_at: 1000,
        last_accessed: 1000,
        expires_at: None,
        file_path: "example.com/img.png".into(),
        file_size: 5000,
        host: "example.com".into(),
        vary_key: None,
        media_type: Some("image".into()),
        status: "active".into(),
        stale_at: None,
    };

    index.insert(&entry);
    index
        .mark_stale("def456", "example.com/img~stale~2026.png", 2000)
        .unwrap();

    // Active lookup should return None
    let found = index.lookup("def456");
    assert!(found.is_none());
}

#[test]
fn test_total_size() {
    let mut index = CacheIndex::new();

    for i in 0..3 {
        let entry = CacheEntry {
            fingerprint: format!("fp{}", i),
            url: format!("https://example.com/{}", i),
            method: "GET".into(),
            status_code: 200,
            content_type: None,
            content_length: None,
            response_headers: "{}".into(),
            cache_policy: vec![],
            created_at: 1000,
            last_accessed: 1000,
            expires_at: None,
            file_path: format!("example.com/{}.bin", i),
            file_size: 1000,
            host: "example.com".into(),
            vary_key: None,
            media_type: None,
            status: "active".into(),
            stale_at: None,
        };
        index.insert(&entry);
    }

    assert_eq!(index.total_size().unwrap(), 3000);
}

#[test]
fn an_entry_replaces_those_with_its_fingerprint_or_file() {
    let mut index = CacheIndex::new();
    index.insert(&entry("a", "1", 1));
    index.insert(&entry("b", "2", 2));
    index.insert(&entry("c", "3", 3));
    index.insert(&entry("a", "2", 4));
    assert_eq!(names(index.rows()), vec!["c", "a"]);
    assert_eq!(index.lookup("a").unwrap().file_size, 4);
    assert!(index.lookup("b").is_none());
}

#[test]
fn rows_come_in_as_they_are() {
    let rows = vec![entry("a", "1", 1), entry("b", "2", 2)];
    let settings = vec![("k".to_string(), "v".to_string())];
    let index = CacheIndex::from_rows(&rows, &settings);
    assert_eq!(names(index.rows()), vec!["a", "b"]);
    assert_eq!(index.settings().len(), 1);
    assert_eq!(index.get_setting("k"), Some("v".to_string()));
}

#[test]
fn a_taken_path_is_refused() {
    let mut index = CacheIndex::new();
    index.insert(&entry("a", "1", 1));
    index.insert(&entry("b", "2", 2));
    assert_eq!(index.mark_stale("a", "2", 9), Err(IndexError::PathTaken));
    assert!(index.lookup("a").is_some());
    assert_eq!(index.mark_stale("unknown", "2", 9), Ok(()));
    assert_eq!(index.mark_stale("a", "1", 9), Ok(()));
    assert_eq!(index.rows()[0].stale_at, Some(9));
    assert_eq!(index.rows()[0].status, "stale");
}

#[test]
fn restoring_undoes_becoming_stale() {
    let mut index = CacheIndex::new();
    index.insert(&entry("a", "1", 1));
    index.mark_stale("a", "1", 9).unwrap();
    index.restore("a");
    let e = index.lookup("a").unwrap();
    assert_eq!(e.stale_at, None);
    assert_eq!(e.status, "active");
}

#[test]
fn touching_changes_one_entry() {
    let mut index = CacheIndex::new();
    index.insert(&entry("a", "1", 1));
    index.insert(&entry("b", "2", 2));
    index.touch("a", 5);
    index.touch_batch(&vec![("b".to_string(), 7), ("b".to_string(), 6), ("x".to_string(), 1)]);
    assert_eq!(index.rows()[0].last_accessed, 5);
    assert_eq!(index.rows()[1].last_accessed, 6);
}

#[test]
fn revalidation_replaces_policy_and_headers() {
    let mut index = CacheIndex::new();
    index.insert(&entry("a", "1", 1));
    index.update_policy("a", &vec![7], "{\"etag\":\"x\"}", 99);
    let e = index.lookup("a").unwrap();
    assert_eq!(e.cache_policy, vec![7]);
    assert_eq!(e.response_headers, "{\"etag\":\"x\"}");
    assert_eq!(e.last_accessed, 99);
    assert_eq!(e.created_at, 1000);
}

#[test]
fn invalidation_hits_what_is_read_at_a_url() {
    let mut index = CacheIndex::new();
    for (fp, method, url) in [("a", "GET", "u"), ("b", "HEAD", "u"), ("c", "POST", "u"), ("d", "GET", "v")] {
        let mut e = entry(fp, fp, 1);
        e.method = method.to_string();
        e.url = url.to_string();
        index.insert(&e);
    }
    let hit = index.invalidate_by_url("u", 42);
    assert_eq!(
        hit,
        vec![("a".to_string(), "a".to_string()), ("b".to_string(), "b".to_string())]
    );
    assert_eq!(names(&index.lookup_by_url("u")), vec!["c"]);
    assert_eq!(names(&index.lookup_by_url("v")), vec!["d"]);
    assert_eq!(index.rows()[0].stale_at, Some(42));
}

#[test]
fn deleting_returns_the_file() {
    let mut index = CacheIndex::new();
    index.insert(&entry("a", "1", 1));
    index.insert(&entry("b", "2", 2));
    assert_eq!(index.delete("a"), Some("1".to_string()));
    assert_eq!(index.delete("a"), None);
    assert!(index.lookup("b").is_some());
    assert_eq!(index.delete_all(), 1);
    assert_eq!(index.rows().len(), 0);
}

#[test]
fn sizes_that_cannot_be_added_up_are_an_error() {
    let mut index = CacheIndex::new();
    index.insert(&entry("a", "1", i64::MAX));
    index.insert(&entry("b", "2", 1));
    assert_eq!(index.total_size(), Err(IndexError::SizeOverflow));
    assert_eq!(index.total_size_all(), Err(IndexError::SizeOverflow));
    assert_eq!(index.stats(), Err(IndexError::SizeOverflow));
    index.mark_stale("b", "2", 1).unwrap();
    assert_eq!(index.total_size(), Ok(i64::MAX));
}

#[test]
fn expired_and_old_entries_are_listed() {
    let mut index = CacheIndex::new();
    for (fp, expires) in [("a", Some(5)), ("b", Some(10)), ("c", None), ("d", Some(3))] {
        let mut e = entry(fp, fp, 1);
        e.expires_at = expires;
        index.insert(&e);
    }
    let expired: Vec<String> = index.get_expired_active(10).iter().map(|p| p.0.clone()).collect();
    assert_eq!(expired, vec!["a", "d"]);
    index.mark_stale("a", "a", 30).unwrap();
    index.mark_stale("b", "b", 20).unwrap();
    index.mark_stale("c", "c", 40).unwrap();
    let old: Vec<String> = index.get_stale_older_than(40).iter().map(|p| p.0.clone()).collect();
    assert_eq!(old, vec!["b", "a"]);
    let all: Vec<String> = index.get_stale_for_eviction(2).iter().map(|p| p.0.clone()).collect();
    assert_eq!(all, vec!["b", "a"]);
    assert_eq!(index.get_stale_for_eviction(usize::MAX).len(), 3);
}

#[test]
fn stale_entries_without_a_time_come_first() {
    let mut index = CacheIndex::new();
    let mut e = entry("a", "1", 1);
    e.status = "stale".to_string();
    e.stale_at = Some(i64::MIN);
    index.insert(&e);
    let mut e = entry("b", "2", 1);
    e.status = "stale".to_string();
    index.insert(&e);
    let all: Vec<String> = index.get_stale_for_eviction(9).iter().map(|p| p.0.clone()).collect();
    assert_eq!(all, vec!["b", "a"]);
    assert!(index.get_stale_older_than(i64::MAX).len() == 1);
}

#[test]
fn unread_entries_come_first() {
    let mut index = CacheIndex::new();
    for (fp, at) in [("a", 5), ("b", 3), ("c", 5), ("d", 1)] {
        let mut e = entry(fp, fp, 7);
        e.last_accessed = at;
        index.insert(&e);
    }
    let all: Vec<String> = index.get_active_for_eviction(3).iter().map(|p| p.0.clone()).collect();
    assert_eq!(all, vec!["d", "b", "a"]);
    assert_eq!(index.get_active_for_eviction(1)[0], ("d".to_string(), "d".to_string(), 7));
}

#[test]
fn stats_count_kinds_and_sizes() {
    let mut index = CacheIndex::new();
    for (fp, media) in [("a", Some("image")), ("b", Some("video")), ("c", Some("image")), ("d", None), ("e", Some("audio"))] {
        let mut e = entry(fp, fp, 10);
        e.media_type = media.map(|m| m.to_string());
        index.insert(&e);
    }
    index.mark_stale("c", "c", 1).unwrap();
    let stats = index.stats().unwrap();
    assert_eq!(stats.active_entries, 4);
    assert_eq!(stats.stale_entries, 1);
    assert_eq!(stats.active_size, 40);
    assert_eq!(stats.total_size, 50);
    assert_eq!(stats.image_count, 1);
    assert_eq!(stats.video_count, 1);
    assert_eq!(stats.audio_count, 1);
    assert_eq!(index.count_by_status("stale"), 1);
    assert_eq!(index.mark_all_stale(8), 4);
    assert_eq!(index.count_by_status("active"), 0);
}

#[test]
fn searching_matches_parts_of_urls() {
    let mut index = CacheIndex::new();
    for (fp, at) in [("cat", 1), ("CATALOG", 3), ("dog", 2)] {
        let mut e = entry(fp, fp, 1);
        e.last_accessed = at;
        index.insert(&e);
    }
    assert_eq!(names(&index.search("cat", 10).unwrap()), vec!["CATALOG", "cat"]);
    assert_eq!(names(&index.search("d_g", 10).unwrap()), vec!["dog"]);
    assert_eq!(names(&index.search("", 2).unwrap()), vec!["CATALOG", "dog"]);
    assert_eq!(names(&index.search("com%g", 10).unwrap()), vec!["CATALOG", "dog"]);
    assert_eq!(names(&index.search("nothing", 10).unwrap()), Vec::<String>::new());
}

#[test]
fn a_long_pattern_is_refused() {
    let mut index = CacheIndex::new();
    let long = "x".repeat(49_999);
    assert!(index.search(&long, 1).unwrap().is_empty());
    index.insert(&entry("a", "1", 1));
    assert!(matches!(index.search(&long, 1), Err(IndexError::PatternTooLong)));
    assert!(index.search(&long[1..], 1).unwrap().is_empty());
    let query = Some(long);
    assert!(matches!(
        index.list_entries(&None, &None, &None, &query, 0, 10),
        Err(IndexError::PatternTooLong)
    ));
    let host = Some("other".to_string());
    assert_eq!(index.list_entries(&host, &None, &None, &query, 0, 10).unwrap().1, 0);
}

#[test]
fn lists_are_filtered_and_paged() {
    let mut index = CacheIndex::new();
    for (fp, host, at) in [("a", "x", 1), ("b", "y", 2), ("c", "x", 3), ("d", "x", 4)] {
        let mut e = entry(fp, fp, 1);
        e.host = host.to_string();
        e.last_accessed = at;
        e.media_type = Some("image".to_string());
        index.insert(&e);
    }
    index.mark_stale("d", "d", 9).unwrap();
    let host = Some("x".to_string());
    let media = Some("image".to_string());
    let active = Some("active".to_string());
    let query = Some("example.com/a".to_string());
    let (rows, total) = index.list_entries(&host, &None, &None, &None, 0, -1).unwrap();
    assert_eq!((names(&rows), total), (vec!["d".to_string(), "c".to_string(), "a".to_string()], 3));
    let (rows, total) = index.list_entries(&host, &media, &active, &None, 1, 1).unwrap();
    assert_eq!((names(&rows), total), (vec!["a".to_string()], 2));
    let (rows, total) = index.list_entries(&None, &None, &None, &query, -5, 10).unwrap();
    assert_eq!((names(&rows), total), (vec!["a".to_string()], 1));
    let (rows, total) = index.list_entries(&None, &None, &None, &None, 100, 10).unwrap();
    assert_eq!((rows.len(), total), (0, 4));
    let video = Some("video".to_string());
    assert_eq!(index.list_entries(&None, &video, &None, &None, 0, 10).unwrap().1, 0);
}

#[test]
fn settings_are_replaced() {
    let mut index = CacheIndex::new();
    assert_eq!(index.get_setting("a"), None);
    index.set_setting("a", "1");
    index.set_setting("b", "2");
    index.set_setting("a", "3");
    assert_eq!(index.get_setting("a"), Some("3".to_string()));
    assert_eq!(index.get_setting("b"), Some("2".to_string()));
    assert_eq!(index.settings().len(), 2);
}

#[test]
fn what_was_read_last_goes_last() {
    let mut index = CacheIndex::new();
    for i in 0..4 {
        let mut e = entry(&format!("fp{}", i), &format!("p/{}", i), 1);
        e.last_accessed = 10 + i;
        index.insert(&e);
    }
    index.touch("fp1", 100);
    let order: Vec<String> =
        index.get_active_for_eviction(10).into_iter().map(|r| r.0).collect();
    assert_eq!(order, vec!["fp0", "fp2", "fp3", "fp1"]);
}

#[test]
fn figures_agree_with_counting() {
    let mut index = CacheIndex::new();
    let empty = index.stats().unwrap();
    assert_eq!((empty.active_entries, empty.total_size, empty.image_count), (0, 0, 0));
    for (i, kind) in ["image", "video", "audio", "other", "image"].iter().enumerate() {
        let mut e = entry(&format!("fp{}", i), &format!("p/{}", i), 10);
        e.media_type = Some(kind.to_string());
        index.insert(&e);
    }
    index.mark_stale("fp4", "p/4~", 1).unwrap();
    let s = index.stats().unwrap();
    assert_eq!(s.active_entries, index.count_by_status("active"));
    assert_eq!(s.stale_entries, index.count_by_status("stale"));
    assert_eq!((s.active_size, s.total_size), (40, 50));
    assert_eq!((s.image_count, s.video_count, s.audio_count), (1, 1, 1));
}
