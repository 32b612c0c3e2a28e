use proxy_core::cache::eviction::{delete_old_stale, eviction_target, run_eviction_cycle, shrink, sweep, IndexError};
use proxy_core::cache::index::{CacheEntry, CacheIndex};

fn row(fingerprint: &str, size: i64, read: i64, stale: Option<i64>) -> CacheEntry {
    CacheEntry {
        fingerprint: fingerprint.to_string(),
        url: fingerprint.to_string(),
        method: "GET".to_string(),
        status_code: 200,
        content_type: None,
        content_length: None,
        response_headers: "{}".to_string(),
        cache_policy: vec![],
        created_at: 0,
        last_accessed: read,
        expires_at: None,
        file_path: format!("f/{}", fingerprint),
        file_size: size,
        host: "h".to_string(),
        vary_key: None,
        media_type: None,
        status: if stale.is_some() { "stale".to_string() } else { "active".to_string() },
        stale_at: stale,
    }
}

fn names(index: &CacheIndex) -> Vec<String> {
    index.rows().iter().map(|e| e.fingerprint.clone()).collect()
}

#[test]
fn the_target_is_that_of_the_machine() {
    let mut x: u64 = 88172645463325252;
    for i in 0..5000 {
        x ^= x << 13;
        x ^= x >> 7;
        x ^= x << 17;
        let m = (x >> (i % 64)) as i64;
        assert_eq!(eviction_target(m), (m as f64 * 0.9) as i64, "{}", m);
    }
    for m in [0, 1, -1, 10, 100, 1_073_741_824, i64::MAX, i64::MIN, i64::MIN + 1] {
        assert_eq!(eviction_target(m), (m as f64 * 0.9) as i64, "{}", m);
    }
    assert_eq!(eviction_target(1_073_741_824), 966_367_641);
}

#[test]
fn a_cache_within_its_limit_stays() {
    let mut index = CacheIndex::new();
    index.insert(&row("a", 100, 1, None));
    index.insert(&row("b", 100, 2, Some(1)));
    assert_eq!(shrink(&mut index, 200).unwrap(), Vec::<String>::new());
    assert_eq!(names(&index), vec!["a", "b"]);
}

#[test]
fn stale_entries_go_first_and_then_unread_ones() {
    let mut index = CacheIndex::new();
    index.insert(&row("old", 30, 1, None));
    index.insert(&row("new", 30, 9, None));
    index.insert(&row("s2", 20, 5, Some(20)));
    index.insert(&row("s1", 20, 6, Some(10)));
    // 100 in all, 90 allowed: 81 is the target, so 19 have to go.
    assert_eq!(shrink(&mut index, 90).unwrap(), vec!["f/s1"]);
    assert_eq!(names(&index), vec!["old", "new", "s2"]);
    // 80 in all, 40 allowed: 36 is the target, so 44 have to go.
    assert_eq!(shrink(&mut index, 40).unwrap(), vec!["f/s2", "f/old"]);
    assert_eq!(names(&index), vec!["new"]);
}

#[test]
fn at_most_a_batch_of_each_goes() {
    let mut index = CacheIndex::new();
    for i in 0..120 {
        index.insert(&row(&format!("a{}", i), 1, i, None));
        index.insert(&row(&format!("s{}", i), 1, i, Some(i)));
    }
    let files = shrink(&mut index, 1).unwrap();
    assert_eq!(files.len(), 200);
    assert_eq!(files[0], "f/s0");
    assert_eq!(files[100], "f/a0");
    assert_eq!(index.rows().len(), 40);
}

#[test]
fn sizes_beyond_count_are_an_error() {
    let mut index = CacheIndex::new();
    index.insert(&row("a", i64::MAX, 1, None));
    index.insert(&row("b", 1, 1, None));
    assert!(matches!(shrink(&mut index, 1), Err(IndexError::SizeOverflow)));
    let e = run_eviction_cycle(&mut index, &vec![], 1, 1, 0);
    assert_eq!(e.error, Some(IndexError::SizeOverflow));
    assert_eq!(index.rows().len(), 2);
}

#[test]
fn old_stale_entries_go() {
    let mut index = CacheIndex::new();
    index.insert(&row("a", 1, 1, Some(50)));
    index.insert(&row("b", 1, 1, Some(40)));
    index.insert(&row("c", 1, 1, Some(60)));
    index.insert(&row("d", 1, 1, None));
    assert_eq!(delete_old_stale(&mut index, 60), vec!["f/b", "f/a"]);
    assert_eq!(names(&index), vec!["c", "d"]);
}

#[test]
fn what_has_run_out_becomes_stale() {
    let mut index = CacheIndex::new();
    index.insert(&row("a", 1, 1, None));
    index.insert(&row("b", 1, 1, None));
    let renamed = vec![
        ("a".to_string(), "f/b".to_string()),
        ("b".to_string(), "f/b~".to_string()),
    ];
    sweep(&mut index, &renamed, 5);
    assert!(index.lookup("a").is_some());
    assert!(index.lookup("b").is_none());
    assert_eq!(index.rows()[1].file_path, "f/b~");
}

#[test]
fn a_cycle_does_all_three() {
    let day = 86400;
    let mut index = CacheIndex::new();
    index.insert(&row("expired", 10, 1, None));
    index.insert(&row("ancient", 10, 1, Some(day)));
    index.insert(&row("recent", 10, 1, Some(9 * day)));
    index.insert(&row("fresh", 10, 5, None));
    let renamed = vec![("expired".to_string(), "f/x".to_string())];
    let e = run_eviction_cycle(&mut index, &renamed, 3, 20, 10 * day);
    assert!(e.error.is_none());
    assert_eq!(e.files, vec!["f/ancient", "f/recent", "f/x"]);
    assert_eq!(names(&index), vec!["fresh"]);
}

#[test]
fn a_limit_beyond_count_is_negative() {
    let mut index = CacheIndex::new();
    index.insert(&row("a", 5, 1, None));
    let e = run_eviction_cycle(&mut index, &vec![], 3, u64::MAX, 10);
    assert_eq!(e.files, vec!["f/a"]);
}
