use proxy_core::cache::assembly::{assemble, assemble_bytes, assembled_path};
use proxy_core::cache::content_range::content_range_text;
use proxy_core::cache::index::CacheIndex;
use proxy_core::cache::range::{
    coverage_bytes, parse_range_header, slab_file_path, AssemblyInfo, ContentRange, IndexError,
    RangeCache, Resource, Slab, SlabInfo,
};
use proxy_core::cache::youtube::{is_youtube_videoplayback, itag_to_ext, normalize, normalize_parts};

#[test]
fn test_parse_content_range() {
    let cr = ContentRange::parse("bytes 0-1023/4096").unwrap();
    assert_eq!(cr.start, 0);
    assert_eq!(cr.end, 1023);
    assert_eq!(cr.total, Some(4096));

    let cr = ContentRange::parse("bytes 1024-2047/*").unwrap();
    assert_eq!(cr.start, 1024);
    assert_eq!(cr.end, 2047);
    assert_eq!(cr.total, None);
}

#[test]
fn test_parse_range_header() {
    assert_eq!(parse_range_header("bytes=0-1023"), Some((0, Some(1023))));
    assert_eq!(parse_range_header("bytes=1024-"), Some((1024, None)));
}

#[test]
fn test_is_youtube() {
    assert!(is_youtube_videoplayback(
        "https://rr5---sn-abc.googlevideo.com/videoplayback?expire=123&itag=247&range=0-65535"
    ));
    assert!(!is_youtube_videoplayback("https://example.com/video.mp4"));
}

#[test]
fn test_normalize() {
    let url = "https://rr5---sn-abc.googlevideo.com/videoplayback?expire=123&ei=xxx&itag=247&id=abc&range=0-65535&sig=yyy&clen=1000";
    let (normalized, itag, range) = normalize(url).unwrap();

    assert!(normalized.contains("itag=247"));
    assert!(normalized.contains("id=abc"));
    assert!(normalized.contains("clen=1000"));
    assert!(!normalized.contains("expire="));
    assert!(!normalized.contains("sig="));
    assert_eq!(itag, Some("247".to_string()));
    assert_eq!(range, Some((0, 65535)));
}

#[test]
fn test_itag_to_ext() {
    assert_eq!(itag_to_ext("247"), ".mp4");
    assert_eq!(itag_to_ext("251"), ".webm");
    assert_eq!(itag_to_ext("140"), ".m4a");
}

#[test]
fn malformed_ranges_are_refused() {
    for s in [
        "", "bytes", "bytes 0-1", "bytes 0/1", "bytes a-1/2", "bytes 0-b/2", "bytes 0-1/c",
        "byte 0-1/2", "bytes 0-1/", "bytes -1/2", "bytes 0-99999999999999999999/2",
    ] {
        assert_eq!(ContentRange::parse(s), None, "{}", s);
    }
    for s in ["", "bytes=", "bytes=1", "bytes=-5", "bytes=a-1", "bytes=1-a", "items=0-1"] {
        assert_eq!(parse_range_header(s), None, "{}", s);
    }
    assert_eq!(parse_range_header("bytes= 1 - 2 "), Some((1, Some(2))));
    assert_eq!(parse_range_header("bytes=+1- "), Some((1, None)));
}

#[test]
fn a_range_reads_back() {
    for r in [
        ContentRange { start: 0, end: 0, total: Some(1) },
        ContentRange { start: 5, end: u64::MAX, total: None },
    ] {
        assert_eq!(ContentRange::parse(&content_range_text(&r)), Some(r));
    }
    let r = ContentRange { start: 1, end: 2, total: None };
    assert_eq!(content_range_text(&r), "bytes 1-2/*");
}

#[test]
fn formats_have_their_extensions() {
    for (itag, ext) in [
        ("242", ".mp4"), ("243", ".mp4"), ("244", ".mp4"), ("248", ".mp4"), ("271", ".mp4"),
        ("313", ".mp4"), ("394", ".mp4"), ("395", ".mp4"), ("396", ".mp4"), ("397", ".mp4"),
        ("398", ".mp4"), ("399", ".mp4"), ("400", ".mp4"), ("401", ".mp4"), ("139", ".m4a"),
        ("141", ".m4a"), ("171", ".webm"), ("249", ".webm"), ("250", ".webm"), ("18", ".mp4"),
        ("22", ".mp4"), ("37", ".mp4"), ("38", ".mp4"), ("43", ".webm"), ("44", ".webm"),
        ("45", ".webm"), ("46", ".webm"), ("1", ".bin"), ("", ".bin"),
    ] {
        assert_eq!(itag_to_ext(itag), ext);
    }
}

#[test]
fn addresses_of_a_video_are_the_same() {
    let one = normalize("https://h/videoplayback?id=a&itag=1&range=0-9&n=x%20y").unwrap();
    let other = normalize("https://h/videoplayback?sig=z&itag=1&id=a").unwrap();
    assert_eq!(one.0, "https://h/videoplayback?id=a&itag=1");
    assert_eq!(one.0, other.0);
    assert_eq!(one.2, Some((0, 9)));
    assert_eq!(other.2, None);
    assert_eq!(normalize("https://h/videoplayback?id=a"), None);
    assert_eq!(normalize("https://h/other?itag=1"), None);
    assert_eq!(normalize("nonsense"), None);
    assert_eq!(normalize("videoplayback:x?itag=1"), None);
}

#[test]
fn the_last_value_of_a_parameter_counts() {
    let pairs = vec![
        ("itag".to_string(), "1".to_string()),
        ("video_id".to_string(), "v".to_string()),
        ("itag".to_string(), "2".to_string()),
        ("range".to_string(), "5-x".to_string()),
        ("clen".to_string(), "9".to_string()),
    ];
    assert_eq!(
        normalize_parts(Some("h"), "/videoplayback", &pairs),
        Some((
            "https://h/videoplayback?clen=9&itag=2&video_id=v".to_string(),
            Some("2".to_string()),
            None
        ))
    );
    assert_eq!(normalize_parts(None, "/videoplayback", &pairs), None);
}

fn range(start: u64, end: u64, total: Option<u64>) -> ContentRange {
    ContentRange { start, end, total }
}

#[test]
fn a_resource_is_made_once() {
    let mut cache = RangeCache::new();
    let (id, dir) = cache.get_or_create_resource("https://example.com/v.mp4", "example.com", Some("video/mp4"), 5);
    assert_eq!((id, dir.as_str()), (1, "example.com/v.mp4.parts"));
    let again = cache.get_or_create_resource("https://example.com/v.mp4", "other", None, 6);
    assert_eq!(again, (id, dir));
    let (next, _) = cache.get_or_create_resource("https://example.com/w.mp4", "example.com", None, 7);
    assert_eq!(next, 2);
    assert_eq!(cache.resources().len(), 2);
    assert_eq!(cache.resources()[0].created_at, 5);
}

#[test]
fn slab_files_have_long_numbers() {
    assert_eq!(
        slab_file_path("d.parts", &range(0, 1023, None)),
        "d.parts/000000000000-000000001023.part"
    );
}

#[test]
fn a_slab_of_an_unknown_resource_is_refused() {
    let mut cache = RangeCache::new();
    assert_eq!(cache.store_slab(1, "d", &range(0, 9, None), 1), Err(IndexError::UnknownResource));
    assert!(matches!(cache.check_assembly_ready(1), Err(IndexError::UnknownResource)));
    assert!(matches!(cache.manifest(1), Err(IndexError::UnknownResource)));
}

#[test]
fn a_stored_slab_is_found() {
    let mut cache = RangeCache::new();
    let (id, dir) = cache.get_or_create_resource("u", "h", None, 1);
    cache.store_slab(id, &dir, &range(0, 99, Some(1000)), 2).unwrap();
    cache.store_slab(id, &dir, &range(50, 399, Some(2000)), 3).unwrap();
    let hit = cache.find_covering_slab("u", 60, Some(80)).unwrap();
    assert_eq!((hit.slab_start, hit.slab_end), (50, 399));
    assert_eq!((hit.serve_start, hit.serve_end, hit.total), (60, 80, Some(1000)));
    assert_eq!(hit.slab_path, slab_file_path(&dir, &range(50, 399, None)));
    let hit = cache.find_covering_slab("u", 10, None).unwrap();
    assert_eq!((hit.slab_start, hit.serve_end), (0, 99));
    assert!(cache.find_covering_slab("u", 10, Some(100)).is_none());
    assert!(cache.find_covering_slab("u", 400, None).is_none());
    assert!(cache.find_covering_slab("v", 60, None).is_none());
    assert_eq!(cache.resources()[0].last_accessed, 3);
}

#[test]
fn a_shorter_slab_is_found_where_the_longest_does_not_reach() {
    let mut cache = RangeCache::new();
    let (id, dir) = cache.get_or_create_resource("u", "h", None, 1);
    cache.store_slab(id, &dir, &range(0, 999, None), 2).unwrap();
    cache.store_slab(id, &dir, &range(900, 1500, None), 2).unwrap();
    let hit = cache.find_covering_slab("u", 950, Some(1200)).unwrap();
    assert_eq!((hit.slab_start, hit.slab_end), (900, 1500));
}

#[test]
fn a_slab_with_the_same_start_is_replaced() {
    let mut cache = RangeCache::new();
    let (id, dir) = cache.get_or_create_resource("u", "h", None, 1);
    cache.store_slab(id, &dir, &range(0, 99, None), 2).unwrap();
    cache.store_slab(id, &dir, &range(0, 9, None), 2).unwrap();
    assert_eq!(cache.slabs().len(), 1);
    assert!(cache.find_covering_slab("u", 50, None).is_none());
}

#[test]
fn a_resource_is_ready_when_nothing_is_missing() {
    let mut cache = RangeCache::new();
    let (id, dir) = cache.get_or_create_resource("u", "h", None, 1);
    assert!(cache.check_assembly_ready(id).unwrap().is_none());
    cache.store_slab(id, &dir, &range(10, 19, None), 2).unwrap();
    cache.store_slab(id, &dir, &range(0, 4, Some(20)), 2).unwrap();
    assert!(cache.check_assembly_ready(id).unwrap().is_none());
    cache.store_slab(id, &dir, &range(5, 9, Some(20)), 2).unwrap();
    let info = cache.check_assembly_ready(id).unwrap().unwrap();
    assert_eq!(info.total_size, 20);
    assert_eq!(info.dir_path, dir);
    let starts: Vec<u64> = info.slabs.iter().map(|s| s.0).collect();
    assert_eq!(starts, vec![0, 5, 10]);
    cache.finish_assembly(id, "whole");
    assert!(cache.slabs().is_empty());
    assert!(cache.resources()[0].is_complete);
    assert_eq!(cache.resources()[0].assembled_path, Some("whole".to_string()));
}

fn put_together(ranges: &[(u64, u64)], content: &[u8]) -> Vec<u8> {
    let slabs = ranges.iter().map(|r| (r.0, r.1, String::new())).collect();
    let bodies = ranges
        .iter()
        .map(|r| content[r.0 as usize..=r.1 as usize].to_vec())
        .collect();
    assemble_bytes(&slabs, &bodies)
}

#[test]
fn slabs_make_up_the_content() {
    let content: Vec<u8> = (0..150u8).collect();
    assert_eq!(put_together(&[(0, 49), (50, 149)], &content), content);
    assert_eq!(put_together(&[(0, 79), (50, 149)], &content), content);
    assert_eq!(put_together(&[(0, 149), (10, 19)], &content), content);
    assert_eq!(put_together(&[], &content), Vec::<u8>::new());
}

#[test]
fn a_slab_within_another_adds_nothing() {
    let part = |n: &str, from: u64, to: u64| (from, to, n.to_string());
    let slabs = vec![part("a", 0, 5), part("b", 1, 2), part("c", 3, 7)];
    let bodies = vec![b"abcdef".to_vec(), b"bc".to_vec(), b"defgh".to_vec()];
    assert_eq!(assemble_bytes(&slabs, &bodies), b"abcdefgh");
    let info = AssemblyInfo { dir_path: "h.com/v.mp4.parts".to_string(), total_size: 8, slabs };
    let whole = assemble(&info, &bodies, "https://h.com/v.mp4", None, "h.com", 1);
    assert_eq!((whole.final_path.as_str(), whole.entry.file_size), ("h.com/v.mp4", 8));
    let content: Vec<u8> = (0..150u8).collect();
    let slabs = vec![part("a", 0, 99), part("b", 10, 19), part("c", 20, 149)];
    let bodies = vec![content[..100].to_vec(), content[10..20].to_vec(), content[20..].to_vec()];
    assert_eq!(assemble_bytes(&slabs, &bodies), content);
}

#[test]
fn the_whole_has_an_entry() {
    let info = AssemblyInfo {
        dir_path: "example.com/v.mp4.parts".to_string(),
        total_size: 4,
        slabs: vec![(0, 1, "a".to_string()), (2, 3, "b".to_string())],
    };
    let whole = assemble(&info, &vec![vec![1, 2], vec![3, 4]], "u", Some("video/mp4"), "h", 77);
    assert_eq!(whole.body, vec![1, 2, 3, 4]);
    assert_eq!(whole.final_path, "example.com/v.mp4");
    let mut index = CacheIndex::new();
    index.insert(&whole.entry);
    let fp = proxy_core::cache::key::compute_fingerprint("GET", "u", &[]);
    let e = index.lookup(&fp).unwrap();
    assert_eq!(e.file_path, "example.com/v.mp4");
    assert_eq!((e.file_size, e.content_length, e.status_code), (4, Some(4), 200));
    assert_eq!(e.media_type, Some("video".to_string()));
    assert_eq!((e.created_at, e.last_accessed), (77, 77));
    assert_eq!(assembled_path("a/b.c"), "a/b");
}

#[test]
fn a_manifest_adds_up_the_ranges() {
    let mut cache = RangeCache::new();
    let (id, dir) = cache.get_or_create_resource("u", "h", Some("t"), 1);
    cache.store_slab(id, &dir, &range(10, 19, Some(40)), 2).unwrap();
    cache.store_slab(id, &dir, &range(0, 4, None), 2).unwrap();
    let m = cache.manifest(id).unwrap();
    assert_eq!(m.url, "u");
    assert_eq!(m.total_size, Some(40));
    assert_eq!(m.content_type, Some("t".to_string()));
    assert_eq!(m.slabs, vec![SlabInfo { start: 0, end: 4 }, SlabInfo { start: 10, end: 19 }]);
    assert_eq!(m.coverage_bytes, 15);
    cache.store_slab(id, &dir, &range(9, 8, None), 2).unwrap();
    assert!(matches!(cache.manifest(id), Err(IndexError::SizeOverflow)));
    assert_eq!(coverage_bytes(&vec![SlabInfo { start: 0, end: u64::MAX }]), None);
}

#[test]
fn rows_that_do_not_belong_together_are_refused() {
    let resource = |id: i64, url: &str| Resource {
        id,
        url_pattern: url.to_string(),
        host: "h".to_string(),
        total_size: None,
        content_type: None,
        dir_path: "d".to_string(),
        is_complete: false,
        assembled_path: None,
        created_at: 0,
        last_accessed: 0,
    };
    let slab = |id: i64, start: i64| Slab {
        resource_id: id,
        range_start: start,
        range_end: start + 9,
        slab_path: "p".to_string(),
    };
    assert!(RangeCache::from_rows(vec![resource(1, "a"), resource(2, "b")], vec![slab(1, 0), slab(2, 0), slab(1, 10)]).is_some());
    assert!(RangeCache::from_rows(vec![resource(1, "a"), resource(1, "b")], vec![]).is_none());
    assert!(RangeCache::from_rows(vec![resource(1, "a"), resource(2, "a")], vec![]).is_none());
    assert!(RangeCache::from_rows(vec![resource(1, "a")], vec![slab(2, 0)]).is_none());
    assert!(RangeCache::from_rows(vec![resource(1, "a")], vec![slab(1, 0), slab(1, 0)]).is_none());
}

#[test]
fn a_resource_keeps_its_number_and_directory() {
    let mut cache = RangeCache::new();
    let (id, dir) = cache.get_or_create_resource("https://h/a", "h", Some("video/mp4"), 1);
    assert_eq!(dir, "h/a.mp4.parts");
    let (other, _) = cache.get_or_create_resource("https://h/b", "h", None, 2);
    assert_ne!(id, other);
    cache.store_slab(id, &dir, &ContentRange { start: 0, end: 4, total: Some(5) }, 3).unwrap();
    cache.finish_assembly(id, "h/a.mp4");
    assert_eq!(cache.get_or_create_resource("https://h/a", "x", None, 9), (id, dir));
    assert_eq!(cache.resources().len(), 2);
}

#[test]
fn what_is_known_of_ranges_can_be_copied() {
    let mut cache = RangeCache::new();
    let (id, dir) = cache.get_or_create_resource("https://h/a", "h", Some("video/mp4"), 1);
    cache.store_slab(id, &dir, &ContentRange { start: 0, end: 4, total: Some(9) }, 3).unwrap();
    let m = cache.manifest(id).unwrap().clone();
    assert_eq!((m.url.as_str(), m.total_size, m.coverage_bytes), ("https://h/a", Some(9), 5));
    assert_eq!(m.content_type, Some("video/mp4".to_string()));
    assert_eq!((m.slabs.len(), m.slabs[0].end), (1, 4));
    let hit = cache.find_covering_slab("https://h/a", 1, Some(2)).unwrap().clone();
    assert_eq!((hit.slab_start, hit.slab_end, hit.serve_start, hit.serve_end), (0, 4, 1, 2));
    assert_eq!((hit.total, hit.slab_path.as_str()), (Some(9), "h/a.mp4.parts/000000000000-000000000004.part"));
}

#[test]
fn a_resource_is_found_when_no_number_is_left() {
    let row = Resource {
        id: i64::MAX,
        url_pattern: "https://h/a".to_string(),
        host: "h".to_string(),
        total_size: None,
        content_type: None,
        dir_path: "d".to_string(),
        is_complete: false,
        assembled_path: None,
        created_at: 1,
        last_accessed: 1,
    };
    let mut cache = RangeCache::from_rows(vec![row], vec![]).unwrap();
    let found = cache.get_or_create_resource("https://h/a", "x", Some("video/mp4"), 2);
    assert_eq!(found, (i64::MAX, "d".to_string()));
    assert_eq!(cache.resources().len(), 1);
}
