//! The files of the cache: where a response is kept, and under which name.
use crate::cache::key::compute_fingerprint;
#[allow(unused_imports)]
use crate::cache::key::fingerprint;
use crate::number::{decimal_text, zero_pad};
#[allow(unused_imports)]
use crate::number::{decimal, zero_padded};
#[allow(unused_imports)]
use crate::outside::digest::{hex_of, hex_text, sha256, sha256_of};
#[allow(unused_imports)]
use crate::outside::url::{
    parse_url, url_host, url_ok, url_path, url_query,
};
use crate::path::{join_path, split_file, with_file_name};
#[allow(unused_imports)]
use crate::path::{file_split, pushed, renamed};
#[allow(unused_imports)]
use crate::text::{ascii_lower, is_white, trimmed_end, trimmed_start};
#[allow(unused_imports)]
use crate::text::{
    byte_len, chars_of, cut_last, ends_with, has_prefix, has_suffix, has_text, lower, occurs_at, opt, pieces, same,
    split, split_last, starts_with, string_of, to_lower, trim, trimmed, views,
};
use vstd::prelude::*;
#[allow(unused_imports)]
use vstd::utf8::{encode_utf8, is_ascii_chars};

verus! {

/// The media type in a `Content-Type`: what stands before the parameters, without
/// white space around it and in lower case.
pub open spec fn mime_of(content_type: Seq<char>) -> Seq<char> {
    lower(trimmed(pieces(content_type, ';')[0]))
}

/// The media type in a `Content-Type` of ASCII characters.
pub open spec fn ascii_mime(content_type: Seq<char>) -> Seq<char> {
    trimmed(pieces(content_type, ';')[0]).map_values(|c: char| ascii_lower(c))
}

/// The file extension for a media type.
pub open spec fn mime_ext(mime: Seq<char>) -> Seq<char> {
    if mime == "text/html"@ {
        ".html"@
    } else if mime == "text/css"@ {
        ".css"@
    } else if mime == "text/plain"@ {
        ".txt"@
    } else if mime == "text/xml"@ || mime == "application/xml"@ {
        ".xml"@
    } else if mime == "application/javascript"@ || mime == "text/javascript"@ {
        ".js"@
    } else if mime == "application/json"@ {
        ".json"@
    } else if mime == "image/png"@ {
        ".png"@
    } else if mime == "image/jpeg"@ {
        ".jpg"@
    } else if mime == "image/gif"@ {
        ".gif"@
    } else if mime == "image/svg+xml"@ {
        ".svg"@
    } else if mime == "image/webp"@ {
        ".webp"@
    } else if mime == "image/avif"@ {
        ".avif"@
    } else if mime == "image/x-icon"@ || mime == "image/vnd.microsoft.icon"@ {
        ".ico"@
    } else if mime == "video/mp4"@ {
        ".mp4"@
    } else if mime == "video/webm"@ {
        ".webm"@
    } else if mime == "audio/mpeg"@ {
        ".mp3"@
    } else if mime == "audio/mp4"@ {
        ".m4a"@
    } else if mime == "audio/webm"@ {
        ".weba"@
    } else if mime == "audio/ogg"@ {
        ".ogg"@
    } else if mime == "application/x-mpegurl"@ || mime == "application/vnd.apple.mpegurl"@ {
        ".m3u8"@
    } else if mime == "video/mp2t"@ {
        ".ts"@
    } else if mime == "application/dash+xml"@ {
        ".mpd"@
    } else if mime == "application/wasm"@ {
        ".wasm"@
    } else if mime == "font/woff"@ {
        ".woff"@
    } else if mime == "font/woff2"@ {
        ".woff2"@
    } else if mime == "font/ttf"@ || mime == "application/x-font-ttf"@ {
        ".ttf"@
    } else if mime == "font/otf"@ {
        ".otf"@
    } else if mime == "application/pdf"@ {
        ".pdf"@
    } else if mime == "application/zip"@ {
        ".zip"@
    } else if mime == "application/gzip"@ {
        ".gz"@
    } else {
        ".bin"@
    }
}

/// The media type in a `Content-Type`.
fn mime_text(content_type: &str) -> (res: String)
    ensures
        res@ == mime_of(content_type@),
        is_ascii_chars(content_type@) ==> res@ == ascii_mime(content_type@),
{
    let parts = split(content_type, ';');
    proof {
        lemma_first_piece(content_type@);
        if is_ascii_chars(content_type@) {
            lemma_trimmed_ascii(pieces(content_type@, ';')[0]);
        }
        crate::text::lemma_pieces_nonempty(content_type@, ';');
        assert(views(parts@)[0] == parts@[0]@);
    }
    to_lower(trim(parts[0].as_str()).as_str())
}

/// The file extension for a media type.
fn ext_of_mime(mime: &str) -> (res: &'static str)
    ensures
        res@ == mime_ext(mime@),
{
    if same(mime, "text/html") {
        ".html"
    } else if same(mime, "text/css") {
        ".css"
    } else if same(mime, "text/plain") {
        ".txt"
    } else if same(mime, "text/xml") || same(mime, "application/xml") {
        ".xml"
    } else if same(mime, "application/javascript") || same(mime, "text/javascript") {
        ".js"
    } else if same(mime, "application/json") {
        ".json"
    } else if same(mime, "image/png") {
        ".png"
    } else if same(mime, "image/jpeg") {
        ".jpg"
    } else if same(mime, "image/gif") {
        ".gif"
    } else if same(mime, "image/svg+xml") {
        ".svg"
    } else if same(mime, "image/webp") {
        ".webp"
    } else if same(mime, "image/avif") {
        ".avif"
    } else if same(mime, "image/x-icon") || same(mime, "image/vnd.microsoft.icon") {
        ".ico"
    } else if same(mime, "video/mp4") {
        ".mp4"
    } else if same(mime, "video/webm") {
        ".webm"
    } else if same(mime, "audio/mpeg") {
        ".mp3"
    } else if same(mime, "audio/mp4") {
        ".m4a"
    } else if same(mime, "audio/webm") {
        ".weba"
    } else if same(mime, "audio/ogg") {
        ".ogg"
    } else if same(mime, "application/x-mpegurl") || same(mime, "application/vnd.apple.mpegurl") {
        ".m3u8"
    } else if same(mime, "video/mp2t") {
        ".ts"
    } else if same(mime, "application/dash+xml") {
        ".mpd"
    } else if same(mime, "application/wasm") {
        ".wasm"
    } else if same(mime, "font/woff") {
        ".woff"
    } else if same(mime, "font/woff2") {
        ".woff2"
    } else if same(mime, "font/ttf") || same(mime, "application/x-font-ttf") {
        ".ttf"
    } else if same(mime, "font/otf") {
        ".otf"
    } else if same(mime, "application/pdf") {
        ".pdf"
    } else if same(mime, "application/zip") {
        ".zip"
    } else if same(mime, "application/gzip") {
        ".gz"
    } else {
        ".bin"
    }
}

/// The file extension for a `Content-Type`.
pub fn content_type_to_ext(content_type: &str) -> (res: &'static str)
    ensures
        res@ == mime_ext(mime_of(content_type@)),
        is_ascii_chars(content_type@) ==> res@ == mime_ext(ascii_mime(content_type@)),
{
    ext_of_mime(mime_text(content_type).as_str())
}

/// The kind of media that a media type stands for.
pub open spec fn media_kind(mime: Seq<char>) -> Option<Seq<char>> {
    if has_prefix(mime, "image/"@) {
        Some("image"@)
    } else if has_prefix(mime, "video/"@) || mime == "application/x-mpegurl"@ || mime
        == "application/vnd.apple.mpegurl"@ || mime == "application/dash+xml"@ {
        Some("video"@)
    } else if has_prefix(mime, "audio/"@) {
        Some("audio"@)
    } else {
        None
    }
}

/// The kind of media that a `Content-Type` stands for: image, video or audio.
pub fn classify_media_type(content_type: &str) -> (res: Option<&'static str>)
    ensures
        match res {
            Some(kind) => media_kind(mime_of(content_type@)) == Some(kind@),
            None => media_kind(mime_of(content_type@)) is None,
        },
        is_ascii_chars(content_type@) ==> match res {
            Some(kind) => media_kind(ascii_mime(content_type@)) == Some(kind@),
            None => media_kind(ascii_mime(content_type@)) is None,
        },
{
    let text = mime_text(content_type);
    let mime = text.as_str();
    if starts_with(mime, "image/") {
        Some("image")
    } else if starts_with(mime, "video/") || same(mime, "application/x-mpegurl") || same(
        mime,
        "application/vnd.apple.mpegurl",
    ) || same(mime, "application/dash+xml") {
        Some("video")
    } else if starts_with(mime, "audio/") {
        Some("audio")
    } else {
        None
    }
}

/// The file extensions that are recognized in a URL, without their dots.
pub open spec fn known_extensions() -> Seq<Seq<char>> {
    seq!["html"@, "htm"@, "css"@, "js"@, "mjs"@, "json"@, "xml"@, "png"@, "jpg"@, "jpeg"@, "gif"@, "svg"@, "webp"@, "avif"@, "ico"@, "bmp"@, "mp4"@, "webm"@, "m4v"@, "mov"@, "avi"@, "mp3"@, "m4a"@, "weba"@, "ogg"@, "wav"@, "flac"@, "m3u8"@, "ts"@, "m4s"@, "mpd"@, "wasm"@, "woff"@, "woff2"@, "ttf"@, "otf"@, "eot"@, "pdf"@, "zip"@, "gz"@, "tar"@, "txt"@, "csv"@, "md"@]
}

/// Whether a name ends in a dot and a recognized extension, in any case.
pub open spec fn known_extension(name: Seq<char>) -> bool {
    exists|i: int|
        0 <= i < known_extensions().len() && has_suffix(
            lower(name),
            seq!['.'] + #[trigger] known_extensions()[i],
        )
}

/// The file extensions that are recognized in a URL, without their dots.
fn extensions() -> (res: Vec<&'static str>)
    ensures
        res@.len() == known_extensions().len(),
        forall|i: int| 0 <= i < res@.len() ==> (#[trigger] res@[i])@ == known_extensions()[i],
{
    vec!["html", "htm", "css", "js", "mjs", "json", "xml", "png", "jpg", "jpeg", "gif", "svg", "webp", "avif", "ico", "bmp", "mp4", "webm", "m4v", "mov", "avi", "mp3", "m4a", "weba", "ogg", "wav", "flac", "m3u8", "ts", "m4s", "mpd", "wasm", "woff", "woff2", "ttf", "otf", "eot", "pdf", "zip", "gz", "tar", "txt", "csv", "md"]
}

/// Whether a name ends in a dot and a recognized extension.
fn has_known_extension(name: &str) -> (res: bool)
    ensures
        res == known_extension(name@),
{
    let text = to_lower(name);
    let known = extensions();
    let mut i: usize = 0;
    while i < known.len()
        invariant
            i <= known@.len(),
            text@ == lower(name@),
            known@.len() == known_extensions().len(),
            forall|k: int|
                0 <= k < known@.len() ==> (#[trigger] known@[k])@ == known_extensions()[k],
            forall|k: int|
                0 <= k < i ==> !has_suffix(
                    text@,
                    seq!['.'] + #[trigger] known_extensions()[k],
                ),
        decreases known@.len() - i,
    {
        let mut ext: String = String::new();
        ext.push('.');
        ext.append(known[i]);
        assert(ext@ =~= seq!['.'] + known_extensions()[i as int]);
        if ends_with(text.as_str(), ext.as_str()) {
            return true;
        }
        i += 1;
    }
    false
}

/// A character that may stand in a file name, or an underscore in its place.
pub open spec fn safe_char(c: char) -> char {
    if c == ':' || c == '*' || c == '?' || c == '"' || c == '<' || c == '>' || c == '|' || c
        == '\\' || c == '\0' {
        '_'
    } else {
        c
    }
}

/// A path segment with the characters that may not stand in a file name replaced.
pub open spec fn sanitized(s: Seq<char>) -> Seq<char> {
    s.map_values(|c: char| safe_char(c))
}

/// A path segment with the characters that may not stand in a file name replaced.
pub fn sanitize_segment(s: &str) -> (res: String)
    ensures
        res@ == sanitized(s@),
{
    let v = chars_of(s);
    let mut res: String = String::new();
    let mut i: usize = 0;
    while i < v.len()
        invariant
            i <= v@.len(),
            v@ == s@,
            res@ == sanitized(s@.subrange(0, i as int)),
        decreases v@.len() - i,
    {
        let c = v[i];
        let safe = if c == ':' || c == '*' || c == '?' || c == '"' || c == '<' || c == '>' || c
            == '|' || c == '\\' || c == '\0' {
            '_'
        } else {
            c
        };
        res.push(safe);
        i += 1;
        assert(res@ =~= sanitized(s@.subrange(0, i as int)));
    }
    assert(s@.subrange(0, i as int) =~= s@);
    res
}

/// The file extension for an optional `Content-Type`.
pub open spec fn ext_or(content_type: Option<Seq<char>>, default: Seq<char>) -> Seq<char> {
    match content_type {
        Some(c) => mime_ext(mime_of(c)),
        None => default,
    }
}

/// The file extension for an optional `Content-Type`.
fn ext_for(content_type: Option<&str>, default: &'static str) -> (res: &'static str)
    ensures
        res@ == ext_or(opt(content_type), default@),
{
    match content_type {
        Some(c) => content_type_to_ext(c),
        None => default,
    }
}

/// A file name with the query of its URL put before the extension. A long query is
/// cut, and part of its digest follows.
pub open spec fn with_query(
    file: Seq<char>,
    query: Seq<char>,
    content_type: Option<Seq<char>>,
) -> Seq<char> {
    let (stem, ext) = match cut_last(file, '.') {
        Some(parts) if known_extension(file) => parts,
        _ => (file, ext_or(content_type, ".bin"@)),
    };
    let safe = sanitized(query);
    if encode_utf8(safe).len() > 60 {
        stem + "~q~"@ + safe.subrange(0, 40) + "_"@ + hex_text(sha256(encode_utf8(query))).subrange(
            0,
            8,
        ) + ext
    } else {
        stem + "~q~"@ + safe + ext
    }
}

/// A file name with the key of its variant put before the extension.
pub open spec fn with_vary(filename: Seq<char>, vary_key: Seq<char>) -> Seq<char> {
    match cut_last(filename, '.') {
        Some((stem, ext)) => stem + "~v~"@ + vary_key + ext,
        None => filename + "~v~"@ + vary_key,
    }
}

/// A file name with the key of its variant, if there is one.
pub open spec fn maybe_vary(filename: Seq<char>, vary_key: Option<Seq<char>>) -> Seq<char> {
    match vary_key {
        Some(k) => with_vary(filename, k),
        None => filename,
    }
}

/// The directory for the leading segments of a path; empty ones are left out.
pub open spec fn dir_path(base: Seq<char>, dirs: Seq<Seq<char>>) -> Seq<char>
    decreases dirs.len(),
{
    if dirs.len() == 0 {
        base
    } else if dirs.last().len() == 0 {
        dir_path(base, dirs.drop_last())
    } else {
        pushed(dir_path(base, dirs.drop_last()), sanitized(dirs.last()))
    }
}

/// The directory for a host and a method.
pub open spec fn host_dir(method: Seq<char>, host: Seq<char>) -> Seq<char> {
    let dir = pushed(seq![], sanitized(host));
    if method == "GET"@ {
        dir
    } else {
        pushed(dir, "_"@ + method + "_"@)
    }
}

/// The name of the file for the last segment of a path.
pub open spec fn file_for(
    segment: Seq<char>,
    query: Option<Seq<char>>,
    content_type: Option<Seq<char>>,
) -> Seq<char> {
    let file = sanitized(
        if segment.len() == 0 {
            "_index_"@
        } else {
            segment
        },
    );
    match query {
        Some(q) => with_query(file, q, content_type),
        None => if known_extension(file) {
            file
        } else {
            file + ext_or(content_type, ".bin"@)
        },
    }
}

/// The path of the file for a URL, before its length is looked at.
pub open spec fn full_path(
    method: Seq<char>,
    host: Seq<char>,
    path: Seq<char>,
    query: Option<Seq<char>>,
    content_type: Option<Seq<char>>,
    vary_key: Option<Seq<char>>,
) -> Seq<char> {
    let dir = host_dir(method, host);
    let rest = if path.len() > 0 && path[0] == '/' {
        path.subrange(1, path.len() as int)
    } else {
        path
    };
    if rest.len() == 0 || rest == seq!['/'] {
        pushed(dir, maybe_vary("_index_"@ + ext_or(content_type, ".html"@), vary_key))
    } else {
        let segments = pieces(rest, '/');
        pushed(
            dir_path(dir, segments.drop_last()),
            maybe_vary(file_for(segments.last(), query, content_type), vary_key),
        )
    }
}

/// The path of the file for a URL with these parts. Where it would be longer than 200
/// bytes, it is the host and part of the fingerprint.
pub open spec fn parts_path(
    method: Seq<char>,
    url: Seq<char>,
    host: Option<Seq<char>>,
    path: Seq<char>,
    query: Option<Seq<char>>,
    content_type: Option<Seq<char>>,
    vary_key: Option<Seq<char>>,
) -> Seq<char> {
    let h = match host {
        Some(h) => h,
        None => "_unknown_host_"@,
    };
    let full = full_path(method, h, path, query, content_type, vary_key);
    if encode_utf8(full).len() > 200 {
        pushed(
            sanitized(h),
            "_long_"@ + fingerprint(method, url, seq![]).subrange(0, 12) + ext_or(
                content_type,
                ".bin"@,
            ),
        )
    } else {
        full
    }
}

/// The path of the file for a URL.
pub open spec fn cache_path(
    method: Seq<char>,
    url: Seq<char>,
    content_type: Option<Seq<char>>,
    vary_key: Option<Seq<char>>,
) -> Seq<char> {
    if url_ok(url) {
        parts_path(
            method,
            url,
            url_host(url),
            url_path(url),
            url_query(url),
            content_type,
            vary_key,
        )
    } else {
        "_invalid_url_.bin"@
    }
}

/// Replacing the characters that may not stand in a file name keeps ASCII text ASCII,
/// and its length.
proof fn lemma_sanitized_ascii(s: Seq<char>)
    requires
        is_ascii_chars(s),
    ensures
        is_ascii_chars(sanitized(s)),
        sanitized(s).len() == s.len(),
        encode_utf8(sanitized(s)).len() == s.len(),
{
    assert forall|i: int| 0 <= i < sanitized(s).len() implies '\0' <= #[trigger] sanitized(s)[i]
        <= '\u{7f}' by {
        assert('\0' <= s[i] <= '\u{7f}');
    }
    vstd::utf8::is_ascii_chars_encode_utf8(sanitized(s));
}

/// The first characters of a text.
fn first_chars(s: &str, n: usize) -> (res: String)
    requires
        n <= s@.len(),
    ensures
        res@ == s@.subrange(0, n as int),
{
    let v = chars_of(s);
    string_of(&v, 0, n)
}

/// A file name with the query of its URL put before the extension.
fn add_query_suffix(file: &str, query: &str, content_type: Option<&str>) -> (res: String)
    requires
        is_ascii_chars(query@),
    ensures
        res@ == with_query(file@, query@, opt(content_type)),
{
    let known = has_known_extension(file);
    let (stem, ext) = match split_last(file, '.') {
        Some(parts) if known => parts,
        _ => (file.to_owned(), ext_for(content_type, ".bin").to_owned()),
    };
    let safe = sanitize_segment(query);
    proof {
        lemma_sanitized_ascii(query@);
    }
    let mut res: String = stem;
    res.append("~q~");
    if byte_len(safe.as_str()) > 60 {
        let hash = hex_of(&sha256_of(&query.as_bytes_vec()));
        res.append(first_chars(safe.as_str(), 40).as_str());
        res.append("_");
        res.append(first_chars(hash.as_str(), 8).as_str());
    } else {
        res.append(safe.as_str());
    }
    res.append(ext.as_str());
    res
}

/// A file name with the key of its variant put before the extension.
fn insert_vary_suffix(filename: &str, vary_key: &str) -> (res: String)
    ensures
        res@ == with_vary(filename@, vary_key@),
{
    let (stem, ext) = match split_last(filename, '.') {
        Some(parts) => parts,
        None => (filename.to_owned(), String::new()),
    };
    let mut res: String = stem;
    res.append("~v~");
    res.append(vary_key);
    res.append(ext.as_str());
    assert(cut_last(filename@, '.') is None ==> res@ =~= filename@ + "~v~"@ + vary_key@);
    res
}

/// The path of the file for a URL whose parts are known.
pub fn path_for_parts(
    method: &str,
    url: &str,
    host: Option<&str>,
    path: &str,
    query: Option<&str>,
    content_type: Option<&str>,
    vary_key: Option<&str>,
) -> (res: String)
    requires
        query matches Some(q) ==> is_ascii_chars(q@),
    ensures
        res@ == parts_path(
            method@,
            url@,
            opt(host),
            path@,
            opt(query),
            opt(content_type),
            opt(vary_key),
        ),
{
    let h = match host {
        Some(h) => h,
        None => "_unknown_host_",
    };
    let host_segment = sanitize_segment(h);
    let mut dir = join_path("", host_segment.as_str());
    proof {
        reveal_strlit("");
        assert(""@ =~= seq![]);
    }
    if !same(method, "GET") {
        let mut part: String = "_".to_owned();
        part.append(method);
        part.append("_");
        dir = join_path(dir.as_str(), part.as_str());
    }
    assert(dir@ == host_dir(method@, h@));
    let v = chars_of(path);
    let rest = if v.len() > 0 && v[0] == '/' {
        string_of(&v, 1, v.len())
    } else {
        path.to_owned()
    };
    let rest_chars = chars_of(rest.as_str());
    proof {
        if rest@ == seq!['/'] {
            assert(rest@.len() == 1 && rest@[0] == '/');
        }
        if rest@.len() == 1 && rest@[0] == '/' {
            assert(rest@ =~= seq!['/']);
        }
    }
    let full = if rest_chars.len() == 0 || rest_chars.len() == 1 && rest_chars[0] == '/' {
        let mut filename: String = "_index_".to_owned();
        filename.append(ext_for(content_type, ".html"));
        if let Some(k) = vary_key {
            filename = insert_vary_suffix(filename.as_str(), k);
        }
        join_path(dir.as_str(), filename.as_str())
    } else {
        let segments = split(rest.as_str(), '/');
        let ghost all = views(segments@);
        proof {
            crate::text::lemma_pieces_nonempty(rest@, '/');
        }
        let n: usize = segments.len() - 1;
        let ghost base = dir@;
        let mut i: usize = 0;
        assert(all.drop_last().subrange(0, 0) =~= seq![]);
        while i < n
            invariant
                i <= n < segments@.len(),
                n == segments@.len() - 1,
                all == views(segments@),
                dir@ == dir_path(base, all.drop_last().subrange(0, i as int)),
            decreases n - i,
        {
            let segment = segments[i].as_str();
            proof {
                let next = all.drop_last().subrange(0, i + 1);
                assert(next.drop_last() =~= all.drop_last().subrange(0, i as int));
                assert(next.last() == segment@);
            }
            if chars_of(segment).len() != 0 {
                dir = join_path(dir.as_str(), sanitize_segment(segment).as_str());
            }
            i += 1;
        }
        assert(all.drop_last().subrange(0, i as int) =~= all.drop_last());
        let last = segments[n].as_str();
        assert(all.last() == last@);
        let file = if chars_of(last).len() == 0 {
            "_index_"
        } else {
            last
        };
        let safe = sanitize_segment(file);
        let mut filename = match query {
            Some(q) => add_query_suffix(safe.as_str(), q, content_type),
            None => if has_known_extension(safe.as_str()) {
                safe
            } else {
                let mut name: String = safe;
                name.append(ext_for(content_type, ".bin"));
                name
            },
        };
        assert(filename@ == file_for(last@, opt(query), opt(content_type)));
        if let Some(k) = vary_key {
            filename = insert_vary_suffix(filename.as_str(), k);
        }
        join_path(dir.as_str(), filename.as_str())
    };
    assert(full@ == full_path(
        method@,
        h@,
        path@,
        opt(query),
        opt(content_type),
        opt(vary_key),
    ));
    if byte_len(full.as_str()) > 200 {
        let none: [(&str, &str); 0] = [];
        assert(crate::cache::key::str_pairs(none@) =~= seq![]);
        let hash = compute_fingerprint(method, url, none.as_slice());
        let mut name: String = "_long_".to_owned();
        name.append(first_chars(hash.as_str(), 12).as_str());
        name.append(ext_for(content_type, ".bin"));
        return join_path(host_segment.as_str(), name.as_str());
    }
    full
}

/// The path of the file for a URL, such as `example.com/static/logo.png`, relative to
/// the cache directory.
pub fn url_to_cache_path(
    method: &str,
    url: &str,
    content_type: Option<&str>,
    vary_key: Option<&str>,
) -> (res: String)
    ensures
        res@ == cache_path(method@, url@, opt(content_type), opt(vary_key)),
{
    match parse_url(url) {
        None => "_invalid_url_.bin".to_owned(),
        Some(u) => {
            let host = match &u.host {
                Some(h) => Some(h.as_str()),
                None => None,
            };
            let query = match &u.query {
                Some(q) => Some(q.as_str()),
                None => None,
            };
            path_for_parts(method, url, host, u.path.as_str(), query, content_type, vary_key)
        },
    }
}

/// Whether a year has a leap day.
pub open spec fn leap_year(y: int) -> bool {
    (y % 4 == 0 && y % 100 != 0) || y % 400 == 0
}

/// The days of a year.
pub open spec fn year_days(y: int) -> int {
    if leap_year(y) {
        366
    } else {
        365
    }
}

/// The days of a month of a year.
pub open spec fn month_days(y: int, m: int) -> int {
    if m == 2 {
        if leap_year(y) {
            29
        } else {
            28
        }
    } else if m == 4 || m == 6 || m == 9 || m == 11 {
        30
    } else {
        31
    }
}

/// The days from the start of 1970 to the start of a year.
pub open spec fn days_before_year(y: int) -> int
    decreases y - 1970,
{
    if y <= 1970 {
        0
    } else {
        days_before_year(y - 1) + year_days(y - 1)
    }
}

/// The days from the start of a year to the start of a month of it.
pub open spec fn days_before_month(y: int, m: int) -> int
    decreases m,
{
    if m <= 1 {
        0
    } else {
        days_before_month(y, m - 1) + month_days(y, m - 1)
    }
}

/// Whether a date (year, month, day) lies so many days after the first of January
/// 1970.
pub open spec fn is_date(days: int, date: (u64, u64, u64)) -> bool {
    &&& date.0 >= 1970
    &&& 1 <= date.1 <= 12
    &&& 1 <= date.2 <= month_days(date.0 as int, date.1 as int)
    &&& days == days_before_year(date.0 as int) + days_before_month(date.0 as int, date.1 as int)
        + date.2 - 1
}

/// Whether a year has a leap day.
fn is_leap(y: u64) -> (res: bool)
    ensures
        res == leap_year(y as int),
{
    (y % 4 == 0 && y % 100 != 0) || y % 400 == 0
}

/// A year has as many days as its months.
pub proof fn lemma_year_days(y: int)
    ensures
        days_before_month(y, 13) == year_days(y),
{
    reveal_with_fuel(days_before_month, 13);
}

/// The date so many days after the first of January 1970.
pub fn days_to_date(days_since_epoch: u64) -> (res: (u64, u64, u64))
    ensures
        is_date(days_since_epoch as int, res),
{
    let mut y: u64 = 1970;
    let mut remaining: u64 = days_since_epoch;
    let mut in_year: u64 = 365;
    while remaining >= in_year
        invariant
            1970 <= y,
            in_year == year_days(y as int),
            days_since_epoch == days_before_year(y as int) + remaining,
            365 * (y - 1970) <= days_since_epoch - remaining,
        decreases remaining,
    {
        remaining -= in_year;
        y += 1;
        in_year = if is_leap(y) {
            366
        } else {
            365
        };
    }
    let leap = is_leap(y);
    let mut m: u64 = 1;
    let mut in_month: u64 = 31;
    proof {
        lemma_year_days(y as int);
    }
    while m < 12 && remaining >= in_month
        invariant
            1970 <= y,
            1 <= m <= 12,
            leap == leap_year(y as int),
            in_month == month_days(y as int, m as int),
            days_since_epoch == days_before_year(y as int) + days_before_month(y as int, m as int)
                + remaining,
            days_before_month(y as int, m as int) + remaining < days_before_month(y as int, 13),
        decreases 12 - m,
    {
        remaining -= in_month;
        m += 1;
        in_month = if m == 2 {
            if leap {
                29
            } else {
                28
            }
        } else if m == 4 || m == 6 || m == 9 || m == 11 {
            30
        } else {
            31
        };
    }
    (y, m, remaining + 1)
}

/// The years before a date take less days than the date has behind it.
proof fn lemma_days_before_year(a: int, b: int)
    requires
        1970 <= a < b,
    ensures
        days_before_year(a) + year_days(a) <= days_before_year(b),
    decreases b,
{
    if a < b - 1 {
        lemma_days_before_year(a, b - 1);
    }
}

/// The months before a date take less days than the date has behind it.
proof fn lemma_days_before_month(y: int, a: int, b: int)
    requires
        1 <= a < b,
    ensures
        days_before_month(y, a) + month_days(y, a) <= days_before_month(y, b),
    decreases b,
{
    if a < b - 1 {
        lemma_days_before_month(y, a, b - 1);
    }
}

/// The days of a date determine it.
pub proof fn law_one_date(days: int, one: (u64, u64, u64), other: (u64, u64, u64))
    requires
        is_date(days, one),
        is_date(days, other),
    ensures
        one == other,
{
    lemma_date_in_year(days, one);
    lemma_date_in_year(days, other);
    if one.0 < other.0 {
        lemma_days_before_year(one.0 as int, other.0 as int);
    }
    if other.0 < one.0 {
        lemma_days_before_year(other.0 as int, one.0 as int);
    }
    let y = one.0 as int;
    if one.1 < other.1 {
        lemma_days_before_month(y, one.1 as int, other.1 as int);
    }
    if other.1 < one.1 {
        lemma_days_before_month(y, other.1 as int, one.1 as int);
    }
}

/// A date lies within its year.
proof fn lemma_date_in_year(days: int, date: (u64, u64, u64))
    requires
        is_date(days, date),
    ensures
        days_before_year(date.0 as int) <= days < days_before_year(date.0 as int) + year_days(
            date.0 as int,
        ),
{
    let y = date.0 as int;
    lemma_year_days(y);
    lemma_days_before_month(y, date.1 as int, 13);
    if date.1 > 1 {
        lemma_days_before_month(y, 1, date.1 as int);
    }
}

/// The time stamp for a date and the seconds of the day, such as `2026-03-14T15h30`.
pub open spec fn stamp(date: (u64, u64, u64), seconds: int) -> Seq<char> {
    zero_padded(decimal(date.0 as nat), 4) + "-"@ + zero_padded(decimal(date.1 as nat), 2) + "-"@
        + zero_padded(decimal(date.2 as nat), 2) + "T"@ + zero_padded(
        decimal((seconds / 3600) as nat),
        2,
    ) + "h"@ + zero_padded(decimal((seconds % 3600 / 60) as nat), 2)
}

/// The time stamp for a number of seconds since the start of 1970.
pub fn chrono_timestamp(secs: u64) -> (res: String)
    ensures
        exists|date: (u64, u64, u64)| #[trigger]
            is_date((secs / 86400) as int, date) && res@ == stamp(date, (secs % 86400) as int),
{
    let date = days_to_date(secs / 86400);
    let seconds: u64 = secs % 86400;
    let mut res = zero_pad(decimal_text(date.0), 4);
    res.append("-");
    res.append(zero_pad(decimal_text(date.1), 2).as_str());
    res.append("-");
    res.append(zero_pad(decimal_text(date.2), 2).as_str());
    res.append("T");
    res.append(zero_pad(decimal_text(seconds / 3600), 2).as_str());
    res.append("h");
    res.append(zero_pad(decimal_text(seconds % 3600 / 60), 2).as_str());
    assert(is_date((secs / 86400) as int, date));
    assert(res@ == stamp(date, (secs % 86400) as int));
    res
}

/// The path of a file that has become stale: the time stamp is put before the
/// extension.
pub open spec fn stale_path(path: Seq<char>, timestamp: Seq<char>) -> Seq<char> {
    let name = match file_split(path) {
        Some((_, name)) => name,
        None => seq![],
    };
    renamed(
        path,
        match cut_last(name, '.') {
            Some((stem, ext)) => stem + "~stale~"@ + timestamp + ext,
            None => name + "~stale~"@ + timestamp,
        },
    )
}

/// The path of a file that has become stale: `logo.png` becomes
/// `logo~stale~2026-03-14T15h30.png`.
pub fn make_stale_path(path: &str, timestamp: &str) -> (res: String)
    ensures
        res@ == stale_path(path@, timestamp@),
{
    let name = match split_file(path) {
        Some((_, name)) => name,
        None => String::new(),
    };
    let (stem, ext) = match split_last(name.as_str(), '.') {
        Some(parts) => parts,
        None => (name.clone(), String::new()),
    };
    let mut stale: String = stem;
    stale.append("~stale~");
    stale.append(timestamp);
    stale.append(ext.as_str());
    assert(cut_last(name@, '.') is None ==> stale@ =~= name@ + "~stale~"@ + timestamp@);
    with_file_name(path, stale.as_str())
}

/// Where the file of an entry lies after the entry has become stale, a number of seconds
/// after the start of 1970: a file that exists is renamed.
pub fn rename_to_stale(path: &str, exists_now: bool, secs: u64) -> (res: String)
    ensures
        !exists_now ==> res@ == path@,
        exists_now ==> exists|date: (u64, u64, u64)| #[trigger]
            is_date((secs / 86400) as int, date) && res@ == stale_path(
                path@,
                stamp(date, (secs % 86400) as int),
            ),
{
    if exists_now {
        make_stale_path(path, chrono_timestamp(secs).as_str())
    } else {
        path.to_owned()
    }
}

/// A character, in upper case if it is an ASCII letter.
pub open spec fn ascii_upper(c: char) -> char {
    if 'a' <= c <= 'z' {
        ((c as u32) - 32) as char
    } else {
        c
    }
}

/// A text with its ASCII letters in upper case.
pub open spec fn upper(s: Seq<char>) -> Seq<char> {
    s.map_values(|c: char| ascii_upper(c))
}

/// What stands before the first semicolon, or all if there is none.
proof fn lemma_first_piece(s: Seq<char>)
    ensures
        pieces(s, ';')[0] == match s.index_of_first(';') {
            Some(i) => s.subrange(0, i),
            None => s,
        },
        is_ascii_chars(s) ==> is_ascii_chars(pieces(s, ';')[0]),
{
    s.index_of_first_ensures(';');
}

/// What is left of ASCII text without the white space around it is ASCII text.
proof fn lemma_trimmed_ascii(s: Seq<char>)
    requires
        is_ascii_chars(s),
    ensures
        is_ascii_chars(trimmed(s)),
{
    lemma_start_ascii(s);
    lemma_end_ascii(trimmed_start(s));
}

/// What is left of ASCII text without the white space before it is ASCII text.
proof fn lemma_start_ascii(s: Seq<char>)
    requires
        is_ascii_chars(s),
    ensures
        is_ascii_chars(trimmed_start(s)),
    decreases s.len(),
{
    if s.len() > 0 && is_white(s[0]) {
        lemma_start_ascii(s.subrange(1, s.len() as int));
    }
}

/// What is left of ASCII text without the white space after it is ASCII text.
proof fn lemma_end_ascii(s: Seq<char>)
    requires
        is_ascii_chars(s),
    ensures
        is_ascii_chars(trimmed_end(s)),
    decreases s.len(),
{
    if s.len() > 0 && is_white(s.last()) {
        lemma_end_ascii(s.drop_last());
    }
}

/// A blank after a text goes with the white space around it.
proof fn lemma_blank_after(s: Seq<char>)
    ensures
        trimmed(s.push(' ')) == trimmed(s),
{
    lemma_start_blank_after(s);
    let t = trimmed_start(s);
    if t.len() > 0 {
        assert(t.push(' ').drop_last() =~= t);
    }
}

/// A blank after a text stays there, unless there is only white space before it.
proof fn lemma_start_blank_after(s: Seq<char>)
    ensures
        trimmed_start(s.push(' ')) == if trimmed_start(s).len() == 0 {
            seq![]
        } else {
            trimmed_start(s).push(' ')
        },
    decreases s.len(),
{
    let t = s.push(' ');
    if s.len() == 0 {
        assert(t.subrange(1, t.len() as int) =~= seq![]);
        reveal_with_fuel(trimmed_start, 2);
    } else if is_white(s[0]) {
        assert(t.subrange(1, t.len() as int) =~= s.subrange(1, s.len() as int).push(' '));
        lemma_start_blank_after(s.subrange(1, s.len() as int));
    }
}

/// A blank before a text goes with the white space around it.
proof fn lemma_blank_before(s: Seq<char>)
    ensures
        trimmed(seq![' '] + s) == trimmed(s),
{
    let t = seq![' '] + s;
    assert(t.subrange(1, t.len() as int) =~= s);
}

/// Taking away white space and putting letters into upper case can be done in either
/// order.
proof fn lemma_upper_trimmed(s: Seq<char>)
    ensures
        trimmed(upper(s)) == upper(trimmed(s)),
{
    lemma_upper_start(s);
    lemma_upper_end(trimmed_start(s));
}

/// The same for the white space at the start.
proof fn lemma_upper_start(s: Seq<char>)
    ensures
        trimmed_start(upper(s)) == upper(trimmed_start(s)),
    decreases s.len(),
{
    if s.len() > 0 {
        let t = s.subrange(1, s.len() as int);
        assert(upper(s).subrange(1, s.len() as int) =~= upper(t));
        assert(is_white(ascii_upper(s[0])) == is_white(s[0]));
        lemma_upper_start(t);
    }
}

/// The same for the white space at the end.
proof fn lemma_upper_end(s: Seq<char>)
    ensures
        trimmed_end(upper(s)) == upper(trimmed_end(s)),
    decreases s.len(),
{
    if s.len() > 0 {
        assert(upper(s).drop_last() =~= upper(s.drop_last()));
        assert(is_white(ascii_upper(s.last())) == is_white(s.last()));
        lemma_upper_end(s.drop_last());
    }
}

/// The parameters of a `Content-Type`, white space around it, and, in ASCII text, the case
/// of its letters do not matter for the media type in it, nor for what follows from that:
/// the extension of a file and the kind of media.
pub proof fn law_content_type(s: Seq<char>, parameters: Seq<char>)
    ensures
        mime_of(s + seq![';'] + parameters) == mime_of(s),
        mime_of(seq![' '] + s + seq![' ']) == mime_of(s),
        ascii_mime(s + seq![';'] + parameters) == ascii_mime(s),
        ascii_mime(seq![' '] + s + seq![' ']) == ascii_mime(s),
        ascii_mime(upper(s)) == ascii_mime(s),
        is_ascii_chars(s) ==> is_ascii_chars(upper(s)) && is_ascii_chars(seq![' '] + s + seq![' ']),
        is_ascii_chars(s) ==> mime_of(s) == ascii_mime(s) && mime_of(upper(s)) == mime_of(s),
{
    let one = s + seq![';'] + parameters;
    let two = seq![' '] + s + seq![' '];
    let three = upper(s);
    lemma_first_piece(s);
    lemma_first_piece(one);
    lemma_first_piece(two);
    lemma_first_piece(three);
    s.index_of_first_ensures(';');
    one.index_of_first_ensures(';');
    two.index_of_first_ensures(';');
    three.index_of_first_ensures(';');
    let head = pieces(s, ';')[0];
    assert(one[s.len() as int] == ';');
    match s.index_of_first(';') {
        Some(i) => {
            assert(one[i] == s[i] && two[i + 1] == s[i] && three[i] == ';');
            assert(one.contains(';') && two.contains(';') && three.contains(';'));
            let a = one.index_of_first(';')->0;
            let b = two.index_of_first(';')->0;
            let c = three.index_of_first(';')->0;
            assert(a == i) by {
                if a < i {
                    assert(one[a] == s[a]);
                }
            }
            assert(b == i + 1) by {
                if b < i + 1 {
                    assert(b > 0 ==> two[b] == s[b - 1]);
                }
            }
            assert(c == i) by {
                if c < i {
                    assert(three[c] == ascii_upper(s[c]));
                }
            }
            assert(pieces(one, ';')[0] =~= head);
            assert(pieces(two, ';')[0] =~= seq![' '] + head);
            assert(pieces(three, ';')[0] =~= upper(head));
            lemma_blank_before(head);
        },
        None => {
            assert(one.contains(';'));
            let a = one.index_of_first(';')->0;
            assert(a == s.len()) by {
                if a < s.len() {
                    assert(one[a] == s[a]);
                    assert(s.contains(';'));
                }
            }
            assert(!two.contains(';')) by {
                if two.contains(';') {
                    let k = choose|k: int| 0 <= k < two.len() && two[k] == ';';
                    assert(0 < k < two.len() - 1 ==> two[k] == s[k - 1]);
                    assert(s.contains(';'));
                }
            }
            assert(!three.contains(';')) by {
                if three.contains(';') {
                    let k = choose|k: int| 0 <= k < three.len() && three[k] == ';';
                    assert(three[k] == ascii_upper(s[k]));
                    assert(s.contains(';'));
                }
            }
            assert(pieces(one, ';')[0] =~= s);
            assert(two =~= seq![' '] + s.push(' '));
            lemma_blank_before(s.push(' '));
            lemma_blank_after(s);
        },
    }
    lemma_upper_trimmed(head);
    assert(pieces(three, ';')[0] == upper(head));
    assert(ascii_mime(three) =~= ascii_mime(s)) by {
        let t = trimmed(head);
        assert forall|k: int| 0 <= k < t.len() implies ascii_lower(
            #[trigger] upper(t)[k],
        ) == ascii_lower(t[k]) by {}
    }
    if is_ascii_chars(s) {
        assert(is_ascii_chars(three));
        lemma_trimmed_ascii(head);
        lemma_trimmed_ascii(pieces(three, ';')[0]);
    }
}

/// Every renamed file can be told from its name: the mark and the time stamp are in it.
pub proof fn law_stale_is_marked(path: Seq<char>, timestamp: Seq<char>)
    ensures
        has_text(stale_path(path, timestamp), "~stale~"@ + timestamp),
{
    let name = match file_split(path) {
        Some((_, name)) => name,
        None => seq![],
    };
    let mark = "~stale~"@ + timestamp;
    let (stem, ext) = match cut_last(name, '.') {
        Some(parts) => parts,
        None => (name, seq![]),
    };
    let stale = match cut_last(name, '.') {
        Some((stem, ext)) => stem + "~stale~"@ + timestamp + ext,
        None => name + "~stale~"@ + timestamp,
    };
    let whole = stale_path(path, timestamp);
    let at = whole.len() - stale.len() + stem.len();
    assert(whole.subrange(at, at + mark.len()) =~= mark);
    assert(occurs_at(whole, mark, at));
}

/// No character that may not stand in a file name is left in a path segment: each of them
/// has become an underscore, every other character stays where it was, and doing it once
/// more changes nothing.
pub proof fn law_sanitized(s: Seq<char>, i: int)
    ensures
        sanitized(s).len() == s.len(),
        0 <= i < s.len() && ":*?\"<>|\\\0"@.contains(s[i]) ==> sanitized(s)[i] == '_',
        0 <= i < s.len() && !":*?\"<>|\\\0"@.contains(s[i]) ==> sanitized(s)[i] == s[i],
        0 <= i < s.len() ==> !":*?\"<>|\\\0"@.contains(sanitized(s)[i]),
        sanitized(sanitized(s)) == sanitized(s),
{
    reveal_strlit(":*?\"<>|\\\0");
    let unsafe_chars = ":*?\"<>|\\\0"@;
    assert(unsafe_chars[0] == ':' && unsafe_chars[1] == '*' && unsafe_chars[2] == '?'
        && unsafe_chars[3] == '"' && unsafe_chars[4] == '<' && unsafe_chars[5] == '>'
        && unsafe_chars[6] == '|' && unsafe_chars[7] == '\\' && unsafe_chars[8] == '\0');
    assert(unsafe_chars.len() == 9);
    assert(sanitized(sanitized(s)) =~= sanitized(s));
}

/// The path of a file of the cache is at most 200 bytes long, or it is the short path
/// of a long URL: the host, and a name of 12 hexadecimal digits.
pub proof fn law_path_length(
    method: Seq<char>,
    url: Seq<char>,
    content_type: Option<Seq<char>>,
    vary_key: Option<Seq<char>>,
)
    ensures
        encode_utf8(cache_path(method, url, content_type, vary_key)).len() <= 200 || cache_path(
            method,
            url,
            content_type,
            vary_key,
        ) == pushed(
            sanitized(
                match url_host(url) {
                    Some(h) => h,
                    None => "_unknown_host_"@,
                },
            ),
            "_long_"@ + fingerprint(method, url, seq![]).subrange(0, 12) + ext_or(
                content_type,
                ".bin"@,
            ),
        ),
{
    if !url_ok(url) {
        reveal_strlit("_invalid_url_.bin");
        vstd::utf8::is_ascii_chars_encode_utf8("_invalid_url_.bin"@);
    }
}

} // verus!
