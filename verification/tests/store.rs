use proxy_core::cache::store::{
    chrono_timestamp, classify_media_type, content_type_to_ext, days_to_date, make_stale_path,
    path_for_parts, rename_to_stale, sanitize_segment, url_to_cache_path,
};
use proxy_core::path::{join_path, split_file, strip_extension, with_file_name};
use std::path::{Path, PathBuf};
use sha2::Digest;

#[test]
fn test_simple_path() {
    let path = url_to_cache_path("GET", "https://example.com/static/logo.png", Some("image/png"), None);
    assert_eq!(PathBuf::from(path), PathBuf::from("example.com/static/logo.png"));
}

#[test]
fn test_root_index() {
    let path = url_to_cache_path("GET", "https://example.com/", Some("text/html"), None);
    assert_eq!(PathBuf::from(path), PathBuf::from("example.com/_index_.html"));
}

#[test]
fn test_no_extension_infer_from_content_type() {
    let path = url_to_cache_path("GET", "https://example.com/api/users", Some("application/json"), None);
    assert_eq!(PathBuf::from(path), PathBuf::from("example.com/api/users.json"));
}

#[test]
fn test_query_string() {
    let path = url_to_cache_path("GET", "https://example.com/api/users?page=1", Some("application/json"), None);
    assert_eq!(PathBuf::from(path), PathBuf::from("example.com/api/users~q~page=1.json"));
}

#[test]
fn test_vary_suffix() {
    let path = url_to_cache_path("GET", "https://example.com/app.js", Some("application/javascript"), Some("gzip"));
    assert_eq!(PathBuf::from(path), PathBuf::from("example.com/app~v~gzip.js"));
}

#[test]
fn test_non_get_method() {
    let path = url_to_cache_path("HEAD", "https://example.com/page", Some("text/html"), None);
    assert_eq!(PathBuf::from(path), PathBuf::from("example.com/_HEAD_/page.html"));
}

#[test]
fn test_unsafe_chars_sanitized() {
    let path = url_to_cache_path("GET", "https://example.com/file:name", Some("text/plain"), None);
    let path = PathBuf::from(path);
    let filename = path.file_name().unwrap().to_string_lossy();
    assert!(!filename.contains(':'));
}

#[test]
fn test_content_type_to_ext() {
    assert_eq!(content_type_to_ext("text/html; charset=utf-8"), ".html");
    assert_eq!(content_type_to_ext("application/json"), ".json");
    assert_eq!(content_type_to_ext("image/webp"), ".webp");
    assert_eq!(content_type_to_ext("video/mp4"), ".mp4");
    assert_eq!(content_type_to_ext("unknown/type"), ".bin");
}

#[test]
fn test_classify_media_type() {
    assert_eq!(classify_media_type("image/png"), Some("image"));
    assert_eq!(classify_media_type("video/mp4"), Some("video"));
    assert_eq!(classify_media_type("audio/mpeg"), Some("audio"));
    assert_eq!(classify_media_type("text/html"), None);
    assert_eq!(classify_media_type("application/x-mpegurl"), Some("video"));
}

#[test]
fn test_make_stale_path() {
    let stale = make_stale_path("example.com/logo.png", "2026-03-14T15h30");
    assert_eq!(PathBuf::from(stale), PathBuf::from("example.com/logo~stale~2026-03-14T15h30.png"));
}

#[test]
fn every_listed_type_has_its_extension() {
    let table = [
        ("text/css", ".css"),
        ("text/plain", ".txt"),
        ("text/xml", ".xml"),
        ("application/xml", ".xml"),
        ("application/javascript", ".js"),
        ("text/javascript", ".js"),
        ("image/png", ".png"),
        ("image/jpeg", ".jpg"),
        ("image/gif", ".gif"),
        ("image/svg+xml", ".svg"),
        ("image/avif", ".avif"),
        ("image/x-icon", ".ico"),
        ("image/vnd.microsoft.icon", ".ico"),
        ("video/webm", ".webm"),
        ("audio/mpeg", ".mp3"),
        ("audio/mp4", ".m4a"),
        ("audio/webm", ".weba"),
        ("audio/ogg", ".ogg"),
        ("application/x-mpegURL", ".m3u8"),
        ("application/vnd.apple.mpegurl", ".m3u8"),
        ("video/MP2T", ".ts"),
        ("application/dash+xml", ".mpd"),
        ("application/wasm", ".wasm"),
        ("font/woff", ".woff"),
        ("font/woff2", ".woff2"),
        ("font/ttf", ".ttf"),
        ("application/x-font-ttf", ".ttf"),
        ("font/otf", ".otf"),
        ("application/pdf", ".pdf"),
        ("application/zip", ".zip"),
        (" Application/GZIP ;x", ".gz"),
        ("", ".bin"),
    ];
    for (mime, ext) in table {
        assert_eq!(content_type_to_ext(mime), ext);
    }
}

#[test]
fn adaptive_streams_are_videos() {
    assert_eq!(classify_media_type("application/vnd.apple.mpegurl"), Some("video"));
    assert_eq!(classify_media_type("application/dash+xml; x=y"), Some("video"));
    assert_eq!(classify_media_type("IMAGE/PNG"), Some("image"));
}

#[test]
fn an_invalid_url_has_a_path_of_its_own() {
    assert_eq!(url_to_cache_path("GET", "not a url", None, None), "_invalid_url_.bin");
}

#[test]
fn a_url_without_host_goes_under_a_stand_in() {
    assert_eq!(
        url_to_cache_path("GET", "data:text/plain,hello", None, None),
        "_unknown_host_/text/plain,hello.bin"
    );
}

#[test]
fn a_trailing_slash_is_an_index() {
    assert_eq!(
        url_to_cache_path("GET", "https://example.com/api//users/", Some("application/json"), None),
        "example.com/api/users/_index_.json"
    );
    assert_eq!(url_to_cache_path("GET", "https://example.com", None, Some("k")), "example.com/_index_~v~k.html");
}

#[test]
fn a_known_extension_stays_behind_the_query() {
    assert_eq!(
        url_to_cache_path("GET", "https://example.com/a.min.JS?v=1*2", None, Some("br")),
        "example.com/a.min~q~v=1_2~v~br.JS"
    );
}

#[test]
fn a_long_query_is_cut() {
    let query = "q=".to_string() + &"a".repeat(70);
    let url = format!("https://example.com/x?{}", query);
    let hash = hex::encode(sha2::Sha256::digest(query.as_bytes()));
    let expected = format!("example.com/x~q~{}_{}.bin", &query[..40], &hash[..8]);
    assert_eq!(url_to_cache_path("GET", &url, None, None), expected);
    let sixty = "b".repeat(60);
    let url = format!("https://example.com/x?{}", sixty);
    assert_eq!(
        url_to_cache_path("GET", &url, None, None),
        format!("example.com/x~q~{}.bin", sixty)
    );
}

#[test]
fn a_long_path_is_the_fingerprint() {
    let url = format!("https://example.com/{}", "x".repeat(300));
    let fp = proxy_core::cache::key::compute_fingerprint("GET", &url, &[]);
    assert_eq!(
        url_to_cache_path("GET", &url, Some("image/png"), None),
        format!("example.com/_long_{}.png", &fp[..12])
    );
    let name = "x".repeat(200 - "example.com/".len() - 4);
    let url = format!("https://example.com/{}.png", name);
    assert_eq!(
        url_to_cache_path("GET", &url, Some("image/png"), None),
        format!("example.com/{}.png", name)
    );
}

#[test]
fn parts_are_put_together_without_a_url() {
    assert_eq!(
        path_for_parts("POST", "u", Some("h:1"), "/a?b", None, None, None),
        "h_1/_POST_/a_b.bin"
    );
    assert_eq!(path_for_parts("GET", "u", None, "", None, None, None), "_unknown_host_/_index_.html");
}

#[test]
fn dates_are_those_of_the_calendar() {
    assert_eq!(days_to_date(0), (1970, 1, 1));
    assert_eq!(days_to_date(30), (1970, 1, 31));
    assert_eq!(days_to_date(31), (1970, 2, 1));
    assert_eq!(days_to_date(364), (1970, 12, 31));
    assert_eq!(days_to_date(365), (1971, 1, 1));
    assert_eq!(days_to_date(789), (1972, 2, 29));
    assert_eq!(days_to_date(11016), (2000, 2, 29));
    assert_eq!(days_to_date(20526), (2026, 3, 14));
}

#[test]
fn timestamps_are_written_with_leading_zeros() {
    assert_eq!(chrono_timestamp(0), "1970-01-01T00h00");
    assert_eq!(chrono_timestamp(20526 * 86400 + 15 * 3600 + 30 * 60 + 59), "2026-03-14T15h30");
}

#[test]
fn stale_paths_follow_the_file_name() {
    assert_eq!(make_stale_path("a/b", "t"), "a/b~stale~t");
    assert_eq!(make_stale_path("a.tar.gz", "t"), "a.tar~stale~t.gz");
    assert_eq!(make_stale_path("a/b.c/", "t"), "a/b~stale~t.c");
    assert_eq!(make_stale_path("..", "t"), "../~stale~t");
    assert_eq!(make_stale_path("", "t"), "~stale~t");
}

#[test]
fn paths_behave_as_those_of_the_file_system() {
    let samples = [
        "", "/", ".", "..", "a", "/a", "./a", "a/", "a//", "a/.", "a/./b", "a//b", "a/../b", "a/..",
        "/.", "/..", "//a", "./", "./.", ".a", "a.b", "a.b/", "a/.b", "a/b.c.d", "a/b.", "...", "a/...",
        "/a/b/./", ".//a",
    ];
    for s in samples {
        let p = Path::new(s);
        let name = p.file_name().map(|n| n.to_string_lossy().to_string());
        assert_eq!(split_file(s).map(|x| x.1), name, "{}", s);
        if let Some((dir, _)) = split_file(s) {
            assert_eq!(dir, p.parent().unwrap().to_string_lossy(), "{}", s);
        }
        assert_eq!(with_file_name(s, "new.x"), p.with_file_name("new.x").to_string_lossy(), "{}", s);
        assert_eq!(strip_extension(s), p.with_extension("").to_string_lossy(), "{}", s);
        for t in samples {
            assert_eq!(join_path(s, t), p.join(t).to_string_lossy(), "{} {}", s, t);
        }
    }
}

#[test]
fn a_file_that_exists_is_renamed() {
    assert_eq!(rename_to_stale("a/b.png", false, 0), "a/b.png");
    assert_eq!(rename_to_stale("a/b.png", true, 90_061), "a/b~stale~1970-01-02T01h01.png");
    assert_eq!(rename_to_stale("b", true, 0), "b~stale~1970-01-01T00h00");
}

#[test]
fn parameters_case_and_blanks_do_not_matter() {
    for s in ["text/html", "image/png", "application/json", "x/y", "", "video/mp4;a"] {
        let ext = content_type_to_ext(s);
        assert_eq!(content_type_to_ext(&format!("{};charset=ü", s)), ext);
        assert_eq!(content_type_to_ext(&s.to_ascii_uppercase()), ext);
        assert_eq!(content_type_to_ext(&format!(" {} ", s)), ext);
        assert_eq!(classify_media_type(&s.to_ascii_uppercase()), classify_media_type(s));
    }
}

#[test]
fn nine_characters_become_underscores() {
    let s = "a:b*c?d\"e<f>g|h\\i\0j/ü";
    let r = sanitize_segment(s);
    assert_eq!(r, "a_b_c_d_e_f_g_h_i_j/ü");
    assert_eq!(sanitize_segment(&r), r);
    assert_eq!(sanitize_segment(""), "");
}
