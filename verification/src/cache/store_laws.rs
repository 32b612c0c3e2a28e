//! What holds of the files of the cache.
#[allow(unused_imports)]
use crate::cache::key::compute_fingerprint;
#[allow(unused_imports)]
use crate::cache::store::{
    chrono_timestamp, classify_media_type, content_type_to_ext, days_to_date, dir_path, ext_or,
    file_for, full_path, host_dir, is_date, known_extension, known_extensions, law_one_date,
    make_stale_path, mime_ext, mime_of, month_days, path_for_parts, rename_to_stale, safe_char,
    sanitize_segment, sanitized, stamp, stale_path, url_to_cache_path, with_vary,
};
#[allow(unused_imports)]
use crate::number::{decimal_text, zero_pad};
#[allow(unused_imports)]
use crate::outside::url::{url_host, url_ok, url_path, url_query};
#[allow(unused_imports)]
use crate::path::{pushed, split_file};
#[allow(unused_imports)]
use crate::text::{cut_last, has_suffix, has_text, lower, occurs_at, opt, pieces, to_lower, trimmed};
#[allow(unused_imports)]
use crate::text_laws::lemma_pieces;
use vstd::prelude::*;
#[allow(unused_imports)]
use vstd::utf8::{encode_utf8, is_ascii_chars};

verus! {

/// Each of the nine characters that may not stand in a file name becomes an underscore, and
/// every other character stays where it is.
pub proof fn law_sanitize(s: &str, res: String)
    requires
        call_ensures(sanitize_segment, (s,), res),
    ensures
        res@.len() == s@.len(),
        forall|i: int|
            0 <= i < s@.len() ==> #[trigger] res@[i] == (if s@[i] == ':' || s@[i] == '*' || s@[i]
                == '?' || s@[i] == '"' || s@[i] == '<' || s@[i] == '>' || s@[i] == '|' || s@[i]
                == '\\' || s@[i] == '\0' {
                '_'
            } else {
                s@[i]
            }),
{
}

/// A name that does not begin with a slash is put behind a directory as it is.
proof fn lemma_pushed(dir: Seq<char>, a: Seq<char>, b: Seq<char>)
    requires
        a.len() > 0,
        b.len() > 0,
        a[0] != '/',
        b[0] != '/',
        pushed(dir, a) == pushed(dir, b),
    ensures
        a == b,
{
    let s = pushed(dir, a);
    let t = pushed(dir, b);
    let n = s.len() - a.len();
    assert(a =~= s.subrange(n, s.len() as int));
    assert(b =~= t.subrange(t.len() - b.len(), t.len() as int));
}

/// A part of a path between slashes has none in it, and has none when it is made safe.
proof fn lemma_segment(rest: Seq<char>, i: int)
    requires
        0 <= i < pieces(rest, '/').len(),
    ensures
        !pieces(rest, '/')[i].contains('/'),
        !sanitized(pieces(rest, '/')[i]).contains('/'),
{
    lemma_pieces(rest, '/');
    let p = pieces(rest, '/')[i];
    let q = sanitized(p);
    if q.contains('/') {
        let k = choose|k: int| 0 <= k < q.len() && q[k] == '/';
        assert(p.contains(p[k]));
    }
}

/// The name that a file has before its query or its extension is put to it.
pub open spec fn plain_name(segment: Seq<char>) -> Seq<char> {
    sanitized(
        if segment.len() == 0 {
            "_index_"@
        } else {
            segment
        },
    )
}

/// A plain name has no slash in it, and is not empty.
proof fn lemma_plain_name(rest: Seq<char>, i: int)
    requires
        0 <= i < pieces(rest, '/').len(),
    ensures
        plain_name(pieces(rest, '/')[i]).len() > 0,
        !plain_name(pieces(rest, '/')[i]).contains('/'),
{
    lemma_segment(rest, i);
    reveal_strlit("_index_");
    let s = "_index_"@;
    assert(!sanitized(s).contains('/')) by {
        if sanitized(s).contains('/') {
            let k = choose|k: int| 0 <= k < sanitized(s).len() && sanitized(s)[k] == '/';
            assert(s[k] == '/');
        }
    }
}

/// Whether a path of a URL is more than the root.
pub open spec fn beyond_root(path: Seq<char>) -> bool {
    path != seq!['/'] && path != seq!['/', '/'] && path.len() > 0
}

/// What stands in the path of a URL before its last segment, and that.
pub open spec fn path_rest(path: Seq<char>) -> Seq<char> {
    if path.len() > 0 && path[0] == '/' {
        path.subrange(1, path.len() as int)
    } else {
        path
    }
}

/// The readable path beyond the root is the directory of the leading segments and the name
/// for the last.
proof fn lemma_full_path(
    method: Seq<char>,
    host: Seq<char>,
    path: Seq<char>,
    query: Option<Seq<char>>,
    content_type: Option<Seq<char>>,
)
    requires
        beyond_root(path),
    ensures
        full_path(method, host, path, query, content_type, None) == pushed(
            dir_path(host_dir(method, host), pieces(path_rest(path), '/').drop_last()),
            file_for(pieces(path_rest(path), '/').last(), query, content_type),
        ),
        path_rest(path).len() > 0,
{
    let rest = path_rest(path);
    assert(rest.len() > 0 && rest != seq!['/']) by {
        if path[0] == '/' {
            if rest.len() == 0 {
                assert(path =~= seq!['/']);
            }
            if rest == seq!['/'] {
                assert(rest.len() == 1 && rest[0] == '/' && rest[0] == path[1]);
                assert(path =~= seq!['/', '/']);
            }
        } else if rest == seq!['/'] {
            assert(path == seq!['/']);
        }
    }
}

/// The name with a query, of at most 60 bytes.
proof fn lemma_query_name(segment: Seq<char>, query: Seq<char>, content_type: Option<Seq<char>>) -> (
    res: (Seq<char>, Seq<char>))
    requires
        is_ascii_chars(query),
        query.len() <= 60,
    ensures
        res == query_frame(segment, content_type),
        file_for(segment, Some(query), content_type) == res.0 + "~q~"@ + sanitized(query) + res.1,
{
    lemma_ascii_bytes(query);
    query_frame(segment, content_type)
}

/// What stands before the query in the name of a file, and what behind it.
pub open spec fn query_frame(segment: Seq<char>, content_type: Option<Seq<char>>) -> (
    Seq<char>,
    Seq<char>,
) {
    let file = plain_name(segment);
    match cut_last(file, '.') {
        Some(parts) if known_extension(file) => parts,
        _ => (file, ext_or(content_type, ".bin"@)),
    }
}

/// What stands around the query is the name of the file without it, or has the same first
/// character.
proof fn lemma_query_frame(segment: Seq<char>, content_type: Option<Seq<char>>)
    requires
        plain_name(segment).len() > 0,
        !plain_name(segment).contains('/'),
    ensures
        ({
            let (stem, ext) = query_frame(segment, content_type);
            let plain = file_for(segment, None, content_type);
            &&& stem.len() > 0 ==> stem[0] != '/'
            &&& plain.len() > 0 && plain[0] != '/'
            &&& plain.len() <= stem.len() + ext.len()
        }),
{
    let file = plain_name(segment);
    file.index_of_last_ensures('.');
    assert(file.contains(file[0]));
    let (stem, ext) = query_frame(segment, content_type);
    if stem.len() > 0 {
        assert(stem[0] == file[0]);
    }
}

/// Two requests with different queries have different files: with the same method, host,
/// path beyond the root and content type, and without a variant, paths that are not too long
/// for a readable name are different if the queries, of at most 60 bytes, are different when
/// they are made safe. The whole query stands in the name. A request without a query has
/// another file again.
pub proof fn law_queries_have_own_files(
    method: &str,
    url: &str,
    other_url: &str,
    host: &str,
    path: &str,
    query: &str,
    other: &str,
    content_type: Option<&str>,
    safe: String,
    other_safe: String,
    res: String,
    other_res: String,
    without: String,
)
    requires
        call_ensures(
            path_for_parts,
            (method, url, Some(host), path, Some(query), content_type, None::<&str>),
            res,
        ),
        call_ensures(
            path_for_parts,
            (method, other_url, Some(host), path, Some(other), content_type, None::<&str>),
            other_res,
        ),
        call_ensures(
            path_for_parts,
            (method, url, Some(host), path, None::<&str>, content_type, None::<&str>),
            without,
        ),
        call_ensures(sanitize_segment, (query,), safe),
        call_ensures(sanitize_segment, (other,), other_safe),
        beyond_root(path@),
        is_ascii_chars(query@),
        is_ascii_chars(other@),
        query@.len() <= 60,
        other@.len() <= 60,
        encode_utf8(
            full_path(method@, host@, path@, Some(query@), opt(content_type), None),
        ).len() <= 200,
        encode_utf8(
            full_path(method@, host@, path@, Some(other@), opt(content_type), None),
        ).len() <= 200,
        encode_utf8(full_path(method@, host@, path@, None, opt(content_type), None)).len() <= 200,
    ensures
        safe@ != other_safe@ ==> res@ != other_res@,
        has_text(res@, "~q~"@ + safe@),
        without@ != res@,
{
    reveal_strlit("~q~");
    let ct = opt(content_type);
    let rest = path_rest(path@);
    lemma_full_path(method@, host@, path@, Some(query@), ct);
    lemma_full_path(method@, host@, path@, Some(other@), ct);
    lemma_full_path(method@, host@, path@, None, ct);
    lemma_pieces(rest, '/');
    let segments = pieces(rest, '/');
    let seg = segments.last();
    lemma_plain_name(rest, segments.len() - 1);
    lemma_query_frame(seg, ct);
    let dir = dir_path(host_dir(method@, host@), segments.drop_last());
    let (stem, ext) = lemma_query_name(seg, query@, ct);
    let (_, _) = lemma_query_name(seg, other@, ct);
    lemma_framed(
        dir,
        stem,
        safe@,
        other_safe@,
        ext,
        file_for(seg, None, ct),
        res@,
        other_res@,
        without@,
    );
}

/// Names that differ between the same beginning and the same end differ.
proof fn lemma_framed(
    dir: Seq<char>,
    stem: Seq<char>,
    safe: Seq<char>,
    other: Seq<char>,
    ext: Seq<char>,
    plain: Seq<char>,
    one: Seq<char>,
    two: Seq<char>,
    three: Seq<char>,
)
    requires
        stem.len() > 0 ==> stem[0] != '/',
        plain.len() > 0 && plain[0] != '/',
        plain.len() <= stem.len() + ext.len(),
        one == pushed(dir, stem + "~q~"@ + safe + ext),
        two == pushed(dir, stem + "~q~"@ + other + ext),
        three == pushed(dir, plain),
    ensures
        safe != other ==> one != two,
        has_text(one, "~q~"@ + safe),
        three != one,
{
    reveal_strlit("~q~");
    let a = stem + "~q~"@ + safe + ext;
    let b = stem + "~q~"@ + other + ext;
    assert(stem.len() > 0 ==> a[0] == stem[0] && b[0] == stem[0]);
    assert(stem.len() == 0 ==> a[0] == '~' && b[0] == '~');
    if one == two {
        lemma_pushed(dir, a, b);
        let n = stem.len() + 3;
        assert(safe =~= a.subrange(n as int, a.len() - ext.len()));
        assert(other =~= b.subrange(n as int, b.len() - ext.len()));
    }
    if three == one {
        lemma_pushed(dir, plain, a);
    }
    let at = one.len() - a.len() + stem.len();
    assert(one.subrange(at, at + 3 + safe.len()) =~= "~q~"@ + safe);
    assert(occurs_at(one, "~q~"@ + safe, at));
}

/// ASCII text that is made safe has as many bytes as characters.
proof fn lemma_ascii_bytes(s: Seq<char>)
    requires
        is_ascii_chars(s),
    ensures
        encode_utf8(sanitized(s)).len() == s.len(),
{
    assert forall|i: int| 0 <= i < sanitized(s).len() implies '\0' <= #[trigger] sanitized(s)[i]
        <= '\u{7f}' by {
        assert('\0' <= s[i] <= '\u{7f}');
    }
    vstd::utf8::is_ascii_chars_encode_utf8(sanitized(s));
}

/// Two URLs that differ in their queries have different files, as far as their paths are not
/// too long for a readable name.
pub proof fn law_urls_have_own_files(
    method: &str,
    url: &str,
    other_url: &str,
    content_type: Option<&str>,
    host: Seq<char>,
    path: Seq<char>,
    query: Seq<char>,
    other: Seq<char>,
    res: String,
    other_res: String,
)
    requires
        call_ensures(url_to_cache_path, (method, url, content_type, None::<&str>), res),
        call_ensures(url_to_cache_path, (method, other_url, content_type, None::<&str>), other_res),
        url_ok(url@) && url_host(url@) == Some(host) && url_path(url@) == path && url_query(url@)
            == Some(query),
        url_ok(other_url@) && url_host(other_url@) == Some(host) && url_path(other_url@) == path
            && url_query(other_url@) == Some(other),
        beyond_root(path),
        is_ascii_chars(query),
        is_ascii_chars(other),
        query.len() <= 60,
        other.len() <= 60,
        encode_utf8(full_path(method@, host, path, Some(query), opt(content_type), None)).len()
            <= 200,
        encode_utf8(full_path(method@, host, path, Some(other), opt(content_type), None)).len()
            <= 200,
    ensures
        query.map_values(|c: char| safe_char(c)) != other.map_values(|c: char| safe_char(c))
            ==> res@ != other_res@,
        has_text(res@, "~q~"@ + query.map_values(|c: char| safe_char(c))),
{
    let ct = opt(content_type);
    let rest = path_rest(path);
    lemma_full_path(method@, host, path, Some(query), ct);
    lemma_full_path(method@, host, path, Some(other), ct);
    lemma_pieces(rest, '/');
    let segments = pieces(rest, '/');
    let seg = segments.last();
    lemma_plain_name(rest, segments.len() - 1);
    lemma_query_frame(seg, ct);
    let dir = dir_path(host_dir(method@, host), segments.drop_last());
    let (stem, ext) = lemma_query_name(seg, query, ct);
    let (_, _) = lemma_query_name(seg, other, ct);
    let plain = file_for(seg, None, ct);
    lemma_framed(
        dir,
        stem,
        sanitized(query),
        sanitized(other),
        ext,
        plain,
        res@,
        other_res@,
        pushed(dir, plain),
    );
}

/// The path for a URL is that for its parts; what is no URL has one path of its own.
pub proof fn law_url_goes_by_its_parts(
    method: &str,
    url: &str,
    host: Option<&str>,
    path: &str,
    query: Option<&str>,
    content_type: Option<&str>,
    vary_key: Option<&str>,
    res: String,
    by_parts: String,
)
    requires
        call_ensures(url_to_cache_path, (method, url, content_type, vary_key), res),
        call_ensures(
            path_for_parts,
            (method, url, host, path, query, content_type, vary_key),
            by_parts,
        ),
        opt(host) == url_host(url@),
        path@ == url_path(url@),
        opt(query) == url_query(url@),
    ensures
        url_ok(url@) ==> res@ == by_parts@,
        !url_ok(url@) ==> res@ == "_invalid_url_.bin"@,
{
}

/// Segments that are not empty, made safe and pushed one after the other, are the path made
/// safe.
proof fn lemma_pushed_segments(base: Seq<char>, s: Seq<Seq<char>>)
    requires
        s.len() > 0,
        base.len() > 0 && base.last() != '/',
        forall|i: int|
            0 <= i < s.len() ==> (#[trigger] s[i]).len() > 0 && !s[i].contains('/'),
    ensures
        pushed(dir_path(base, s.drop_last()), sanitized(s.last())) == base + seq!['/'] + sanitized(
            crate::text::joined(s, seq!['/']),
        ),
        dir_path(base, s.drop_last()).len() > 0,
        dir_path(base, s.drop_last()).last() != '/',
    decreases s.len(),
{
    let t = s.drop_last();
    let n = s.len() - 1;
    assert(s[n].len() > 0 && s[n].contains(s[n][0]));
    assert(sanitized(s[n])[0] != '/');
    if t.len() == 0 {
        assert(t =~= seq![]);
        assert(pushed(base, sanitized(s.last())) =~= base + seq!['/'] + sanitized(s.last()));
    } else {
        assert forall|i: int| 0 <= i < t.len() implies (#[trigger] t[i]).len() > 0 && !t[i].contains(
            '/',
        ) by {
            assert(t[i] == s[i]);
        }
        lemma_pushed_segments(base, t);
        let before = dir_path(base, t);
        let last = sanitized(t.last());
        let k = t.last().len() - 1;
        assert(t[t.len() - 1].contains(t.last()[k]));
        assert(before == pushed(dir_path(base, t.drop_last()), last));
        assert(last.last() != '/');
        assert(before.last() == last.last());
        let front = crate::text::joined(t, seq!['/']);
        assert(crate::text::joined(s, seq!['/']) == front + seq!['/'] + s.last());
        assert(sanitized(front + seq!['/'] + s.last()) =~= sanitized(front) + seq!['/']
            + sanitized(s.last()));
        assert(pushed(before, sanitized(s.last())) =~= base + seq!['/'] + (sanitized(front)
            + seq!['/'] + sanitized(s.last())));
    }
}

/// The file for a URL can be read from its path: the host, for another method than `GET`
/// the method between underscores, and the path of the URL, each made safe, with the
/// extension of the content type behind a name without a recognized one. This holds for
/// paths without empty segments that are not too long.
pub proof fn law_readable_path(
    method: &str,
    url: &str,
    host: &str,
    path: &str,
    content_type: Option<&str>,
    res: String,
)
    requires
        call_ensures(
            path_for_parts,
            (method, url, Some(host), path, None::<&str>, content_type, None::<&str>),
            res,
        ),
        host@.len() > 0,
        !host@.contains('/'),
        path@.len() > 1 && path@[0] == '/',
        forall|i: int|
            0 <= i < pieces(path@.subrange(1, path@.len() as int), '/').len() ==> (
            #[trigger] pieces(path@.subrange(1, path@.len() as int), '/')[i]).len() > 0,
        encode_utf8(full_path(method@, host@, path@, None, opt(content_type), None)).len() <= 200,
    ensures
        ({
            let last = pieces(path@.subrange(1, path@.len() as int), '/').last();
            let safe_host = host@.map_values(|c: char| safe_char(c));
            let dir = if method@ == "GET"@ {
                safe_host
            } else {
                safe_host + "/_"@ + method@ + "_"@
            };
            let ext = if known_extension(last.map_values(|c: char| safe_char(c))) {
                seq![]
            } else if content_type is None {
                ".bin"@
            } else {
                mime_ext(mime_of(content_type->0@))
            };
            res@ == dir + path@.map_values(|c: char| safe_char(c)) + ext
        }),
{
    reveal_strlit("_");
    reveal_strlit("/_");
    let rest = path@.subrange(1, path@.len() as int);
    let s = pieces(rest, '/');
    lemma_pieces(rest, '/');
    let safe_host = sanitized(host@);
    assert(host@.contains(host@[0]) && host@.contains(host@.last()));
    let base = host_dir(method@, host@);
    assert(pushed(seq![], safe_host) =~= safe_host);
    assert(safe_host.last() != '/');
    if method@ != "GET"@ {
        let part = "_"@ + method@ + "_"@;
        assert(part[0] == '_');
        assert(base =~= safe_host + "/_"@ + method@ + "_"@);
        assert(base.last() == '_');
    }
    lemma_pushed_segments(base, s);
    assert(beyond_root(path@)) by {
        if path@ == seq!['/', '/'] {
            assert(rest =~= seq!['/']);
            rest.index_of_first_ensures('/');
            assert(rest.contains(rest[0]));
            assert(s[0] =~= rest.subrange(0, 0));
            assert(s[0].len() > 0);
        }
        if path@ == seq!['/'] {
            assert(path@.len() == 1);
        }
    }
    lemma_full_path(method@, host@, path@, None, opt(content_type));
    let last = s.last();
    assert(s[s.len() - 1].len() > 0);
    let dir = dir_path(base, s.drop_last());
    let name = sanitized(last);
    assert(name[0] != '/') by {
        assert(!s[s.len() - 1].contains('/'));
        assert(last.contains(last[0]));
    }
    assert(path@ =~= seq!['/'] + rest);
    assert(sanitized(path@) =~= seq!['/'] + sanitized(rest));
    let ext = if known_extension(name) {
        seq![]
    } else {
        ext_or(opt(content_type), ".bin"@)
    };
    assert(file_for(last, None, opt(content_type)) =~= name + ext);
    assert(pushed(dir, name + ext) =~= pushed(dir, name) + ext);
    assert(res@ =~= base + sanitized(path@) + ext);
}

/// The file for the root of a host is its index, with the extension of the content type or
/// `.html`.
pub proof fn law_root_path(
    url: &str,
    host: &str,
    path: &str,
    query: Option<&str>,
    content_type: Option<&str>,
    res: String,
)
    requires
        call_ensures(
            path_for_parts,
            ("GET", url, Some(host), path, query, content_type, None::<&str>),
            res,
        ),
        host@.len() > 0,
        !host@.contains('/'),
        path@ == seq!['/'] || path@.len() == 0,
        encode_utf8(host@.map_values(|c: char| safe_char(c))).len() <= 150,
    ensures
        encode_utf8(
            full_path("GET"@, host@, path@, opt(query), opt(content_type), None),
        ).len() <= 200 ==> res@ == host@.map_values(|c: char| safe_char(c)) + "/_index_"@ + (
        match content_type {
            Some(c) => mime_ext(mime_of(c@)),
            None => ".html"@,
        }),
{
    reveal_strlit("/_index_");
    reveal_strlit("_index_");
    let safe_host = sanitized(host@);
    assert(host@.contains(host@.last()));
    assert(pushed(seq![], safe_host) =~= safe_host);
    let name = "_index_"@ + ext_or(opt(content_type), ".html"@);
    assert(name[0] == '_');
    let rest = path_rest(path@);
    assert(rest.len() == 0);
    assert("/_index_"@ =~= seq!['/'] + "_index_"@);
    assert(pushed(safe_host, name) =~= safe_host + "/_index_"@ + ext_or(
        opt(content_type),
        ".html"@,
    ));
}

/// A path that would be longer than 200 bytes is the host, made safe, and a name of twelve
/// digits of the fingerprint; any other path is readable.
pub proof fn law_long_path(
    method: &str,
    url: &str,
    host: &str,
    path: &str,
    query: Option<&str>,
    content_type: Option<&str>,
    vary_key: Option<&str>,
    none: &[(&str, &str)],
    digest: String,
    res: String,
)
    requires
        call_ensures(
            path_for_parts,
            (method, url, Some(host), path, query, content_type, vary_key),
            res,
        ),
        call_ensures(compute_fingerprint, (method, url, none), digest),
        none@.len() == 0,
        host@.len() > 0,
        !host@.contains('/'),
    ensures
        encode_utf8(res@).len() <= 200 || res@ == host@.map_values(|c: char| safe_char(c))
            + "/_long_"@ + digest@.subrange(0, 12) + ext_or(opt(content_type), ".bin"@),
        encode_utf8(
            full_path(method@, host@, path@, opt(query), opt(content_type), opt(vary_key)),
        ).len() > 200 ==> res@ == host@.map_values(|c: char| safe_char(c)) + "/_long_"@
            + digest@.subrange(0, 12) + ext_or(opt(content_type), ".bin"@),
{
    reveal_strlit("/_long_");
    reveal_strlit("_long_");
    let safe_host = sanitized(host@);
    assert(host@.contains(host@.last()));
    assert(crate::cache::key::str_pairs(none@) =~= seq![]);
    let ext = ext_or(opt(content_type), ".bin"@);
    let name = "_long_"@ + digest@.subrange(0, 12) + ext;
    assert(name[0] == '_');
    assert("/_long_"@ =~= seq!['/'] + "_long_"@);
    assert(pushed(safe_host, name) =~= safe_host + "/_long_"@ + digest@.subrange(0, 12) + ext);
}

/// A query of more than 60 bytes stands in the name with its first 40 characters and eight
/// digits of its own SHA-256 digest.
pub proof fn law_long_query(
    method: &str,
    url: &str,
    host: &str,
    path: &str,
    query: &str,
    content_type: Option<&str>,
    res: String,
)
    requires
        call_ensures(
            path_for_parts,
            (method, url, Some(host), path, Some(query), content_type, None::<&str>),
            res,
        ),
        beyond_root(path@),
        is_ascii_chars(query@),
        query@.len() > 60,
        encode_utf8(
            full_path(method@, host@, path@, Some(query@), opt(content_type), None),
        ).len() <= 200,
    ensures
        has_text(
            res@,
            "~q~"@ + query@.map_values(|c: char| safe_char(c)).subrange(0, 40) + "_"@
                + crate::outside::digest::hex_text(
                crate::outside::digest::sha256(encode_utf8(query@)),
            ).subrange(0, 8),
        ),
{
    let ct = opt(content_type);
    let rest = path_rest(path@);
    lemma_full_path(method@, host@, path@, Some(query@), ct);
    lemma_pieces(rest, '/');
    let segments = pieces(rest, '/');
    let seg = segments.last();
    lemma_plain_name(rest, segments.len() - 1);
    lemma_ascii_bytes(query@);
    let mark = "~q~"@ + sanitized(query@).subrange(0, 40) + "_"@
        + crate::outside::digest::hex_text(
        crate::outside::digest::sha256(encode_utf8(query@)),
    ).subrange(0, 8);
    let (stem, ext) = query_frame(seg, ct);
    let name = file_for(seg, Some(query@), ct);
    assert(name =~= stem + mark + ext);
    lemma_mark_inside(dir_path(host_dir(method@, host@), segments.drop_last()), stem, mark, ext);
}

/// What is in the name of a file is in its path.
proof fn lemma_mark_inside(dir: Seq<char>, stem: Seq<char>, mark: Seq<char>, ext: Seq<char>)
    ensures
        has_text(pushed(dir, stem + mark + ext), mark),
{
    let name = stem + mark + ext;
    let whole = pushed(dir, name);
    let at = whole.len() - name.len() + stem.len();
    assert(whole.subrange(at, at + mark.len()) =~= mark);
    assert(occurs_at(whole, mark, at));
}

/// The file extension for a media type, parameters, white space and the case of its letters
/// aside.
#[verifier::rlimit(60)]
pub proof fn law_extensions(content_type: &str, part: &str, m: String, res: &'static str)
    requires
        call_ensures(content_type_to_ext, (content_type,), res),
        part@ == trimmed(pieces(content_type@, ';')[0]),
        call_ensures(to_lower, (part,), m),
    ensures
        m@ == "text/html"@ ==> res@ == ".html"@,
        m@ == "text/css"@ ==> res@ == ".css"@,
        m@ == "text/plain"@ ==> res@ == ".txt"@,
        m@ == "text/xml"@ || m@ == "application/xml"@ ==> res@ == ".xml"@,
        m@ == "application/javascript"@ || m@ == "text/javascript"@ ==> res@ == ".js"@,
        m@ == "application/json"@ ==> res@ == ".json"@,
        m@ == "image/png"@ ==> res@ == ".png"@,
        m@ == "image/jpeg"@ ==> res@ == ".jpg"@,
        m@ == "image/gif"@ ==> res@ == ".gif"@,
        m@ == "image/svg+xml"@ ==> res@ == ".svg"@,
        m@ == "image/webp"@ ==> res@ == ".webp"@,
        m@ == "image/avif"@ ==> res@ == ".avif"@,
        m@ == "image/x-icon"@ || m@ == "image/vnd.microsoft.icon"@ ==> res@ == ".ico"@,
        m@ == "video/mp4"@ ==> res@ == ".mp4"@,
        m@ == "video/webm"@ ==> res@ == ".webm"@,
        m@ == "audio/mpeg"@ ==> res@ == ".mp3"@,
        m@ == "audio/mp4"@ ==> res@ == ".m4a"@,
        m@ == "audio/webm"@ ==> res@ == ".weba"@,
        m@ == "audio/ogg"@ ==> res@ == ".ogg"@,
        m@ == "application/x-mpegurl"@ || m@ == "application/vnd.apple.mpegurl"@ ==> res@ == ".m3u8"@,
        m@ == "video/mp2t"@ ==> res@ == ".ts"@,
        m@ == "application/dash+xml"@ ==> res@ == ".mpd"@,
        m@ == "application/wasm"@ ==> res@ == ".wasm"@,
        m@ == "font/woff"@ ==> res@ == ".woff"@,
        m@ == "font/woff2"@ ==> res@ == ".woff2"@,
        m@ == "font/ttf"@ || m@ == "application/x-font-ttf"@ ==> res@ == ".ttf"@,
        m@ == "font/otf"@ ==> res@ == ".otf"@,
        m@ == "application/pdf"@ ==> res@ == ".pdf"@,
        m@ == "application/zip"@ ==> res@ == ".zip"@,
        m@ == "application/gzip"@ ==> res@ == ".gz"@,
        m@ != "text/html"@ && m@ != "text/css"@ && m@ != "text/plain"@ && m@ != "text/xml"@ && m@ != "application/xml"@ && m@ != "application/javascript"@ && m@ != "text/javascript"@ && m@ != "application/json"@ && m@ != "image/png"@ && m@ != "image/jpeg"@ && m@ != "image/gif"@ && m@ != "image/svg+xml"@ && m@ != "image/webp"@ && m@ != "image/avif"@ && m@ != "image/x-icon"@ && m@ != "image/vnd.microsoft.icon"@ && m@ != "video/mp4"@ && m@ != "video/webm"@ && m@ != "audio/mpeg"@ && m@ != "audio/mp4"@ && m@ != "audio/webm"@ && m@ != "audio/ogg"@ && m@ != "application/x-mpegurl"@ && m@ != "application/vnd.apple.mpegurl"@ && m@ != "video/mp2t"@ && m@ != "application/dash+xml"@ && m@ != "application/wasm"@ && m@ != "font/woff"@ && m@ != "font/woff2"@ && m@ != "font/ttf"@ && m@ != "application/x-font-ttf"@ && m@ != "font/otf"@ && m@ != "application/pdf"@ && m@ != "application/zip"@ && m@ != "application/gzip"@ ==> res@ == ".bin"@,
{
    reveal_strlit("text/html");
    assert("text/html"@.len() == 9 && "text/html"@[0] == 't' && "text/html"@[7] == 'm');
    reveal_strlit("text/css");
    assert("text/css"@.len() == 8 && "text/css"@[5] == 'c');
    reveal_strlit("text/plain");
    assert("text/plain"@.len() == 10 && "text/plain"@[0] == 't' && "text/plain"@[9] == 'n');
    reveal_strlit("text/xml");
    assert("text/xml"@.len() == 8 && "text/xml"@[5] == 'x');
    reveal_strlit("application/xml");
    assert("application/xml"@.len() == 15 && "application/xml"@[12] == 'x');
    reveal_strlit("application/javascript");
    assert("application/javascript"@.len() == 22 && "application/javascript"@[12] == 'j');
    reveal_strlit("text/javascript");
    assert("text/javascript"@.len() == 15 && "text/javascript"@[12] == 'i');
    reveal_strlit("application/json");
    assert("application/json"@.len() == 16 && "application/json"@[12] == 'j');
    reveal_strlit("image/png");
    assert("image/png"@.len() == 9 && "image/png"@[0] == 'i' && "image/png"@[7] == 'n');
    reveal_strlit("image/jpeg");
    assert("image/jpeg"@.len() == 10 && "image/jpeg"@[0] == 'i' && "image/jpeg"@[9] == 'g');
    reveal_strlit("image/gif");
    assert("image/gif"@.len() == 9 && "image/gif"@[0] == 'i' && "image/gif"@[7] == 'i');
    reveal_strlit("image/svg+xml");
    assert("image/svg+xml"@.len() == 13);
    reveal_strlit("image/webp");
    assert("image/webp"@.len() == 10 && "image/webp"@[0] == 'i' && "image/webp"@[9] == 'p');
    reveal_strlit("image/avif");
    assert("image/avif"@.len() == 10 && "image/avif"@[0] == 'i' && "image/avif"@[9] == 'f');
    reveal_strlit("image/x-icon");
    assert("image/x-icon"@.len() == 12);
    reveal_strlit("image/vnd.microsoft.icon");
    assert("image/vnd.microsoft.icon"@.len() == 24);
    reveal_strlit("video/mp4");
    assert("video/mp4"@.len() == 9 && "video/mp4"@[0] == 'v' && "video/mp4"@[7] == 'p');
    reveal_strlit("video/webm");
    assert("video/webm"@.len() == 10 && "video/webm"@[0] == 'v' && "video/webm"@[9] == 'm');
    reveal_strlit("audio/mpeg");
    assert("audio/mpeg"@.len() == 10 && "audio/mpeg"@[0] == 'a' && "audio/mpeg"@[9] == 'g');
    reveal_strlit("audio/mp4");
    assert("audio/mp4"@.len() == 9 && "audio/mp4"@[0] == 'a' && "audio/mp4"@[7] == 'p');
    reveal_strlit("audio/webm");
    assert("audio/webm"@.len() == 10 && "audio/webm"@[0] == 'a' && "audio/webm"@[9] == 'm');
    reveal_strlit("audio/ogg");
    assert("audio/ogg"@.len() == 9 && "audio/ogg"@[0] == 'a' && "audio/ogg"@[7] == 'g');
    reveal_strlit("application/x-mpegurl");
    assert("application/x-mpegurl"@.len() == 21);
    reveal_strlit("application/vnd.apple.mpegurl");
    assert("application/vnd.apple.mpegurl"@.len() == 29);
    reveal_strlit("video/mp2t");
    assert("video/mp2t"@.len() == 10 && "video/mp2t"@[0] == 'v' && "video/mp2t"@[9] == 't');
    reveal_strlit("application/dash+xml");
    assert("application/dash+xml"@.len() == 20);
    reveal_strlit("application/wasm");
    assert("application/wasm"@.len() == 16 && "application/wasm"@[12] == 'w');
    reveal_strlit("font/woff");
    assert("font/woff"@.len() == 9 && "font/woff"@[0] == 'f' && "font/woff"@[7] == 'f');
    reveal_strlit("font/woff2");
    assert("font/woff2"@.len() == 10 && "font/woff2"@[0] == 'f' && "font/woff2"@[9] == '2');
    reveal_strlit("font/ttf");
    assert("font/ttf"@.len() == 8 && "font/ttf"@[5] == 't');
    reveal_strlit("application/x-font-ttf");
    assert("application/x-font-ttf"@.len() == 22 && "application/x-font-ttf"@[12] == 'x');
    reveal_strlit("font/otf");
    assert("font/otf"@.len() == 8 && "font/otf"@[5] == 'o');
    reveal_strlit("application/pdf");
    assert("application/pdf"@.len() == 15 && "application/pdf"@[12] == 'p');
    reveal_strlit("application/zip");
    assert("application/zip"@.len() == 15 && "application/zip"@[12] == 'z');
    reveal_strlit("application/gzip");
    assert("application/gzip"@.len() == 16 && "application/gzip"@[12] == 'g');
}

/// The recognized file extensions.
#[verifier::rlimit(80)]
pub proof fn law_known_extensions(stem: Seq<char>)
    requires
        is_ascii_chars(stem),
    ensures
        known_extension(stem + ".html"@),
        known_extension(stem + ".htm"@),
        known_extension(stem + ".css"@),
        known_extension(stem + ".js"@),
        known_extension(stem + ".mjs"@),
        known_extension(stem + ".json"@),
        known_extension(stem + ".xml"@),
        known_extension(stem + ".png"@),
        known_extension(stem + ".jpg"@),
        known_extension(stem + ".jpeg"@),
        known_extension(stem + ".gif"@),
        known_extension(stem + ".svg"@),
        known_extension(stem + ".webp"@),
        known_extension(stem + ".avif"@),
        known_extension(stem + ".ico"@),
        known_extension(stem + ".bmp"@),
        known_extension(stem + ".mp4"@),
        known_extension(stem + ".webm"@),
        known_extension(stem + ".m4v"@),
        known_extension(stem + ".mov"@),
        known_extension(stem + ".avi"@),
        known_extension(stem + ".mp3"@),
        known_extension(stem + ".m4a"@),
        known_extension(stem + ".weba"@),
        known_extension(stem + ".ogg"@),
        known_extension(stem + ".wav"@),
        known_extension(stem + ".flac"@),
        known_extension(stem + ".m3u8"@),
        known_extension(stem + ".ts"@),
        known_extension(stem + ".m4s"@),
        known_extension(stem + ".mpd"@),
        known_extension(stem + ".wasm"@),
        known_extension(stem + ".woff"@),
        known_extension(stem + ".woff2"@),
        known_extension(stem + ".ttf"@),
        known_extension(stem + ".otf"@),
        known_extension(stem + ".eot"@),
        known_extension(stem + ".pdf"@),
        known_extension(stem + ".zip"@),
        known_extension(stem + ".gz"@),
        known_extension(stem + ".tar"@),
        known_extension(stem + ".txt"@),
        known_extension(stem + ".csv"@),
        known_extension(stem + ".md"@),
{
    assert(known_extension(stem + ".html"@)) by {
        reveal_strlit(".html");
        reveal_strlit("html");
        lemma_known(stem, 0, "html"@, ".html"@);
    }
    assert(known_extension(stem + ".htm"@)) by {
        reveal_strlit(".htm");
        reveal_strlit("htm");
        lemma_known(stem, 1, "htm"@, ".htm"@);
    }
    assert(known_extension(stem + ".css"@)) by {
        reveal_strlit(".css");
        reveal_strlit("css");
        lemma_known(stem, 2, "css"@, ".css"@);
    }
    assert(known_extension(stem + ".js"@)) by {
        reveal_strlit(".js");
        reveal_strlit("js");
        lemma_known(stem, 3, "js"@, ".js"@);
    }
    assert(known_extension(stem + ".mjs"@)) by {
        reveal_strlit(".mjs");
        reveal_strlit("mjs");
        lemma_known(stem, 4, "mjs"@, ".mjs"@);
    }
    assert(known_extension(stem + ".json"@)) by {
        reveal_strlit(".json");
        reveal_strlit("json");
        lemma_known(stem, 5, "json"@, ".json"@);
    }
    assert(known_extension(stem + ".xml"@)) by {
        reveal_strlit(".xml");
        reveal_strlit("xml");
        lemma_known(stem, 6, "xml"@, ".xml"@);
    }
    assert(known_extension(stem + ".png"@)) by {
        reveal_strlit(".png");
        reveal_strlit("png");
        lemma_known(stem, 7, "png"@, ".png"@);
    }
    assert(known_extension(stem + ".jpg"@)) by {
        reveal_strlit(".jpg");
        reveal_strlit("jpg");
        lemma_known(stem, 8, "jpg"@, ".jpg"@);
    }
    assert(known_extension(stem + ".jpeg"@)) by {
        reveal_strlit(".jpeg");
        reveal_strlit("jpeg");
        lemma_known(stem, 9, "jpeg"@, ".jpeg"@);
    }
    assert(known_extension(stem + ".gif"@)) by {
        reveal_strlit(".gif");
        reveal_strlit("gif");
        lemma_known(stem, 10, "gif"@, ".gif"@);
    }
    assert(known_extension(stem + ".svg"@)) by {
        reveal_strlit(".svg");
        reveal_strlit("svg");
        lemma_known(stem, 11, "svg"@, ".svg"@);
    }
    assert(known_extension(stem + ".webp"@)) by {
        reveal_strlit(".webp");
        reveal_strlit("webp");
        lemma_known(stem, 12, "webp"@, ".webp"@);
    }
    assert(known_extension(stem + ".avif"@)) by {
        reveal_strlit(".avif");
        reveal_strlit("avif");
        lemma_known(stem, 13, "avif"@, ".avif"@);
    }
    assert(known_extension(stem + ".ico"@)) by {
        reveal_strlit(".ico");
        reveal_strlit("ico");
        lemma_known(stem, 14, "ico"@, ".ico"@);
    }
    assert(known_extension(stem + ".bmp"@)) by {
        reveal_strlit(".bmp");
        reveal_strlit("bmp");
        lemma_known(stem, 15, "bmp"@, ".bmp"@);
    }
    assert(known_extension(stem + ".mp4"@)) by {
        reveal_strlit(".mp4");
        reveal_strlit("mp4");
        lemma_known(stem, 16, "mp4"@, ".mp4"@);
    }
    assert(known_extension(stem + ".webm"@)) by {
        reveal_strlit(".webm");
        reveal_strlit("webm");
        lemma_known(stem, 17, "webm"@, ".webm"@);
    }
    assert(known_extension(stem + ".m4v"@)) by {
        reveal_strlit(".m4v");
        reveal_strlit("m4v");
        lemma_known(stem, 18, "m4v"@, ".m4v"@);
    }
    assert(known_extension(stem + ".mov"@)) by {
        reveal_strlit(".mov");
        reveal_strlit("mov");
        lemma_known(stem, 19, "mov"@, ".mov"@);
    }
    assert(known_extension(stem + ".avi"@)) by {
        reveal_strlit(".avi");
        reveal_strlit("avi");
        lemma_known(stem, 20, "avi"@, ".avi"@);
    }
    assert(known_extension(stem + ".mp3"@)) by {
        reveal_strlit(".mp3");
        reveal_strlit("mp3");
        lemma_known(stem, 21, "mp3"@, ".mp3"@);
    }
    assert(known_extension(stem + ".m4a"@)) by {
        reveal_strlit(".m4a");
        reveal_strlit("m4a");
        lemma_known(stem, 22, "m4a"@, ".m4a"@);
    }
    assert(known_extension(stem + ".weba"@)) by {
        reveal_strlit(".weba");
        reveal_strlit("weba");
        lemma_known(stem, 23, "weba"@, ".weba"@);
    }
    assert(known_extension(stem + ".ogg"@)) by {
        reveal_strlit(".ogg");
        reveal_strlit("ogg");
        lemma_known(stem, 24, "ogg"@, ".ogg"@);
    }
    assert(known_extension(stem + ".wav"@)) by {
        reveal_strlit(".wav");
        reveal_strlit("wav");
        lemma_known(stem, 25, "wav"@, ".wav"@);
    }
    assert(known_extension(stem + ".flac"@)) by {
        reveal_strlit(".flac");
        reveal_strlit("flac");
        lemma_known(stem, 26, "flac"@, ".flac"@);
    }
    assert(known_extension(stem + ".m3u8"@)) by {
        reveal_strlit(".m3u8");
        reveal_strlit("m3u8");
        lemma_known(stem, 27, "m3u8"@, ".m3u8"@);
    }
    assert(known_extension(stem + ".ts"@)) by {
        reveal_strlit(".ts");
        reveal_strlit("ts");
        lemma_known(stem, 28, "ts"@, ".ts"@);
    }
    assert(known_extension(stem + ".m4s"@)) by {
        reveal_strlit(".m4s");
        reveal_strlit("m4s");
        lemma_known(stem, 29, "m4s"@, ".m4s"@);
    }
    assert(known_extension(stem + ".mpd"@)) by {
        reveal_strlit(".mpd");
        reveal_strlit("mpd");
        lemma_known(stem, 30, "mpd"@, ".mpd"@);
    }
    assert(known_extension(stem + ".wasm"@)) by {
        reveal_strlit(".wasm");
        reveal_strlit("wasm");
        lemma_known(stem, 31, "wasm"@, ".wasm"@);
    }
    assert(known_extension(stem + ".woff"@)) by {
        reveal_strlit(".woff");
        reveal_strlit("woff");
        lemma_known(stem, 32, "woff"@, ".woff"@);
    }
    assert(known_extension(stem + ".woff2"@)) by {
        reveal_strlit(".woff2");
        reveal_strlit("woff2");
        lemma_known(stem, 33, "woff2"@, ".woff2"@);
    }
    assert(known_extension(stem + ".ttf"@)) by {
        reveal_strlit(".ttf");
        reveal_strlit("ttf");
        lemma_known(stem, 34, "ttf"@, ".ttf"@);
    }
    assert(known_extension(stem + ".otf"@)) by {
        reveal_strlit(".otf");
        reveal_strlit("otf");
        lemma_known(stem, 35, "otf"@, ".otf"@);
    }
    assert(known_extension(stem + ".eot"@)) by {
        reveal_strlit(".eot");
        reveal_strlit("eot");
        lemma_known(stem, 36, "eot"@, ".eot"@);
    }
    assert(known_extension(stem + ".pdf"@)) by {
        reveal_strlit(".pdf");
        reveal_strlit("pdf");
        lemma_known(stem, 37, "pdf"@, ".pdf"@);
    }
    assert(known_extension(stem + ".zip"@)) by {
        reveal_strlit(".zip");
        reveal_strlit("zip");
        lemma_known(stem, 38, "zip"@, ".zip"@);
    }
    assert(known_extension(stem + ".gz"@)) by {
        reveal_strlit(".gz");
        reveal_strlit("gz");
        lemma_known(stem, 39, "gz"@, ".gz"@);
    }
    assert(known_extension(stem + ".tar"@)) by {
        reveal_strlit(".tar");
        reveal_strlit("tar");
        lemma_known(stem, 40, "tar"@, ".tar"@);
    }
    assert(known_extension(stem + ".txt"@)) by {
        reveal_strlit(".txt");
        reveal_strlit("txt");
        lemma_known(stem, 41, "txt"@, ".txt"@);
    }
    assert(known_extension(stem + ".csv"@)) by {
        reveal_strlit(".csv");
        reveal_strlit("csv");
        lemma_known(stem, 42, "csv"@, ".csv"@);
    }
    assert(known_extension(stem + ".md"@)) by {
        reveal_strlit(".md");
        reveal_strlit("md");
        lemma_known(stem, 43, "md"@, ".md"@);
    }
}

/// A name with one of the recognized extensions has it.
proof fn lemma_known(stem: Seq<char>, i: int, e: Seq<char>, p: Seq<char>)
    requires
        is_ascii_chars(stem),
        0 <= i < known_extensions().len(),
        known_extensions()[i] == e,
        p.len() == e.len() + 1,
        p[0] == '.',
        forall|k: int|
            0 <= k < e.len() ==> (('0' <= #[trigger] e[k] <= '9') || ('a' <= e[k] <= 'z')) && p[k
                + 1] == e[k],
    ensures
        known_extension(stem + p),
{
    let s = stem + p;
    let l = lower(s);
    assert(seq!['.'] + e =~= p);
    assert forall|k: int| 0 <= k < s.len() implies '\0' <= #[trigger] s[k] <= '\u{7f}' by {
        if k > stem.len() {
            assert(p[k - stem.len()] == e[k - stem.len() - 1]);
        }
    }
    assert(is_ascii_chars(s));
    assert(l.subrange(l.len() - p.len(), l.len() as int) =~= p) by {
        assert forall|k: int| 0 <= k < p.len() implies l[stem.len() + k] == p[k] by {
            if k > 0 {
                assert(p[k] == e[k - 1]);
            }
        }
    }
    assert(has_suffix(l, seq!['.'] + known_extensions()[i]));
}

/// The kind of media goes by the first part of the media type; playlists for streaming are
/// video, whatever they say of themselves.
pub proof fn law_media_kinds(
    content_type: &str,
    part: &str,
    m: String,
    res: Option<&'static str>,
)
    requires
        call_ensures(classify_media_type, (content_type,), res),
        part@ == trimmed(pieces(content_type@, ';')[0]),
        call_ensures(to_lower, (part,), m),
    ensures
        ({
            let playlist = m@ == "application/x-mpegurl"@ || m@ == "application/vnd.apple.mpegurl"@
                || m@ == "application/dash+xml"@;
            &&& (res is Some && res->0@ == "image"@) <==> m@.len() >= 6 && m@.subrange(0, 6)
                == "image/"@
            &&& (res is Some && res->0@ == "video"@) <==> playlist || m@.len() >= 6 && m@.subrange(
                0,
                6,
            ) == "video/"@
            &&& (res is Some && res->0@ == "audio"@) <==> m@.len() >= 6 && m@.subrange(0, 6)
                == "audio/"@
            &&& res is Some ==> res->0@ == "image"@ || res->0@ == "video"@ || res->0@ == "audio"@
        }),
{
    reveal_strlit("image/");
    reveal_strlit("video/");
    reveal_strlit("audio/");
    reveal_strlit("image");
    reveal_strlit("video");
    reveal_strlit("audio");
    assert("image/"@.len() == 6 && "image/"@[0] == 'i');
    assert("video/"@.len() == 6 && "video/"@[0] == 'v');
    assert("audio/"@.len() == 6 && "audio/"@[0] == 'a' && "audio/"@[1] == 'u');
    assert("image"@[0] == 'i' && "video"@[0] == 'v' && "audio"@[0] == 'a');
    reveal_strlit("application/x-mpegurl");
    reveal_strlit("application/vnd.apple.mpegurl");
    reveal_strlit("application/dash+xml");
    assert("application/x-mpegurl"@[0] == 'a' && "application/x-mpegurl"@[1] == 'p');
    assert("application/vnd.apple.mpegurl"@[0] == 'a' && "application/vnd.apple.mpegurl"@[1]
        == 'p');
    assert("application/dash+xml"@[0] == 'a' && "application/dash+xml"@[1] == 'p');
    if m@.len() >= 6 {
        assert(m@.subrange(0, 6)[0] == m@[0] && m@.subrange(0, 6)[1] == m@[1]);
    }
}

/// Variants of a response have different files: what tells them apart stands in the name,
/// behind `~v~`.
pub proof fn law_variants_have_own_files(
    method: &str,
    url: &str,
    host: &str,
    path: &str,
    query: Option<&str>,
    content_type: Option<&str>,
    key: &str,
    other: &str,
    res: String,
    other_res: String,
)
    requires
        call_ensures(
            path_for_parts,
            (method, url, Some(host), path, query, content_type, Some(key)),
            res,
        ),
        call_ensures(
            path_for_parts,
            (method, url, Some(host), path, query, content_type, Some(other)),
            other_res,
        ),
        encode_utf8(
            full_path(method@, host@, path@, opt(query), opt(content_type), Some(key@)),
        ).len() <= 200,
        encode_utf8(
            full_path(method@, host@, path@, opt(query), opt(content_type), Some(other@)),
        ).len() <= 200,
    ensures
        key@ != other@ ==> res@ != other_res@,
        has_text(res@, "~v~"@ + key@),
{
    let rest = path_rest(path@);
    let ct = opt(content_type);
    let root = rest.len() == 0 || rest == seq!['/'];
    lemma_pieces(rest, '/');
    let segments = pieces(rest, '/');
    let dir = if root {
        host_dir(method@, host@)
    } else {
        dir_path(host_dir(method@, host@), segments.drop_last())
    };
    let name = if root {
        "_index_"@ + ext_or(ct, ".html"@)
    } else {
        file_for(segments.last(), opt(query), ct)
    };
    if root {
        reveal_strlit("_index_");
        assert(name[0] == '_');
    } else {
        lemma_plain_name(rest, segments.len() - 1);
        lemma_name_start(segments.last(), opt(query), ct);
    }
    lemma_vary_names(dir, name, key@, other@);
}

/// The name of a file does not begin with a slash.
proof fn lemma_name_start(
    segment: Seq<char>,
    query: Option<Seq<char>>,
    content_type: Option<Seq<char>>,
)
    requires
        plain_name(segment).len() > 0,
        !plain_name(segment).contains('/'),
    ensures
        file_for(segment, query, content_type).len() > 0,
        file_for(segment, query, content_type)[0] != '/',
{
    lemma_query_frame(segment, content_type);
    reveal_strlit("~q~");
    let name = file_for(segment, query, content_type);
    let (stem, ext) = query_frame(segment, content_type);
    if query is Some {
        assert(stem.len() > 0 ==> name[0] == stem[0]);
        assert(stem.len() == 0 ==> name[0] == "~q~"@[0]);
    }
}

/// Names with different keys differ.
proof fn lemma_vary_names(dir: Seq<char>, name: Seq<char>, key: Seq<char>, other: Seq<char>)
    requires
        name.len() > 0,
        name[0] != '/',
    ensures
        key != other ==> pushed(dir, with_vary(name, key)) != pushed(dir, with_vary(name, other)),
        has_text(pushed(dir, with_vary(name, key)), "~v~"@ + key),
{
    reveal_strlit("~v~");
    name.index_of_last_ensures('.');
    let (stem, ext) = match cut_last(name, '.') {
        Some(parts) => parts,
        None => (name, seq![]),
    };
    let a = with_vary(name, key);
    let b = with_vary(name, other);
    assert(a =~= stem + ("~v~"@ + key) + ext);
    assert(b =~= stem + ("~v~"@ + other) + ext);
    lemma_mark_inside(dir, stem, "~v~"@ + key, ext);
    assert(stem.len() > 0 ==> stem[0] == name[0]);
    assert(stem.len() > 0 ==> a[0] == stem[0] && b[0] == stem[0]);
    assert(stem.len() == 0 ==> a[0] == '~' && b[0] == '~');
    if pushed(dir, a) == pushed(dir, b) {
        lemma_pushed(dir, a, b);
        let n = stem.len() + 3;
        assert(key =~= a.subrange(n as int, a.len() - ext.len()));
        assert(other =~= b.subrange(n as int, b.len() - ext.len()));
    }
}

/// The calendar: the first day is the first of January 1970; each day is followed by the
/// next of its month, or by the first of the next month when the month is over, and December
/// by January of the next year. A month has 31 days, or 30 in April, June, September and
/// November, or 28 in February, 29 in leap years.
pub proof fn law_calendar(
    days: u64,
    date: (u64, u64, u64),
    next: (u64, u64, u64),
)
    requires
        call_ensures(days_to_date, (days,), date),
        days < u64::MAX,
        call_ensures(days_to_date, ((days + 1) as u64,), next),
    ensures
        days == 0 ==> date == (1970u64, 1u64, 1u64),
        ({
            let leap = date.0 % 4 == 0 && (date.0 % 100 != 0 || date.0 % 400 == 0);
            let length: u64 = if date.1 == 2 {
                if leap {
                    29
                } else {
                    28
                }
            } else if date.1 == 4 || date.1 == 6 || date.1 == 9 || date.1 == 11 {
                30
            } else {
                31
            };
            if date.2 < length {
                next.0 == date.0 && next.1 == date.1 && next.2 == date.2 + 1
            } else if date.1 < 12 {
                next.0 == date.0 && next.1 == date.1 + 1 && next.2 == 1
            } else {
                next.0 == date.0 + 1 && next.1 == 1 && next.2 == 1
            }
        }),
{
    if days == 0 {
        law_one_date(0, date, (1970u64, 1u64, 1u64));
    }
    let y = date.0 as int;
    let m = date.1 as int;
    crate::cache::store::lemma_year_days(y);
    let after: (u64, u64, u64) = if date.2 < month_days(y, m) {
        (date.0, date.1, (date.2 + 1) as u64)
    } else if date.1 < 12 {
        (date.0, (date.1 + 1) as u64, 1)
    } else {
        ((date.0 + 1) as u64, 1, 1)
    };
    assert(date.0 < u64::MAX) by {
        lemma_years_take_days(y);
        lemma_months_take_days(y, m);
    }
    assert(is_date(days + 1, after));
    law_one_date(days + 1, next, after);
}

/// Every year takes days.
proof fn lemma_years_take_days(y: int)
    requires
        y >= 1970,
    ensures
        crate::cache::store::days_before_year(y) >= 365 * (y - 1970),
    decreases y,
{
    if y > 1970 {
        lemma_years_take_days(y - 1);
    }
}

/// The months before take no less than no days.
proof fn lemma_months_take_days(y: int, m: int)
    ensures
        crate::cache::store::days_before_month(y, m) >= 0,
    decreases m,
{
    if m > 1 {
        lemma_months_take_days(y, m - 1);
    }
}

/// The hours and minutes of a day are those since 1970, but for the days.
proof fn lemma_time_of_day(s: int)
    requires
        s >= 0,
    ensures
        s % 86400 / 3600 == s / 3600 % 24,
        s % 86400 % 3600 / 60 == s / 60 % 60,
{
    let a = s / 86400;
    let b = s % 86400;
    let h = b / 3600;
    let r = b % 3600;
    let m = r / 60;
    let x = r % 60;
    assert(s == 86400 * a + 3600 * h + 60 * m + x && 0 <= h < 24 && 0 <= m < 60 && 0 <= x < 60);
    assert(s / 3600 == 24 * a + h);
    assert(s / 60 == 1440 * a + 60 * h + m);
}

/// A time stamp has the year with four digits or more, the month, the day, the hour and the
/// minute with two each: seconds within a minute do not show.
pub proof fn law_time_stamp(
    secs: u64,
    date: (u64, u64, u64),
    y: String,
    m: String,
    d: String,
    hour: String,
    minute: String,
    parts: (String, String, String, String, String),
    res: String,
)
    requires
        call_ensures(chrono_timestamp, (secs,), res),
        call_ensures(days_to_date, (secs / 86400,), date),
        call_ensures(decimal_text, (date.0,), y),
        call_ensures(decimal_text, (date.1,), m),
        call_ensures(decimal_text, (date.2,), d),
        call_ensures(decimal_text, (secs / 3600 % 24,), hour),
        call_ensures(decimal_text, (secs / 60 % 60,), minute),
        call_ensures(zero_pad, (y, 4usize), parts.0),
        call_ensures(zero_pad, (m, 2usize), parts.1),
        call_ensures(zero_pad, (d, 2usize), parts.2),
        call_ensures(zero_pad, (hour, 2usize), parts.3),
        call_ensures(zero_pad, (minute, 2usize), parts.4),
    ensures
        res@ == parts.0@ + "-"@ + parts.1@ + "-"@ + parts.2@ + "T"@ + parts.3@ + "h"@ + parts.4@,
{
    let found = choose|found: (u64, u64, u64)| #[trigger]
        is_date((secs / 86400) as int, found) && res@ == stamp(found, (secs % 86400) as int);
    law_one_date((secs / 86400) as int, found, date);
    lemma_time_of_day(secs as int);
}

/// A file that has become stale gets a mark and the time stamp before its extension, and
/// stays in its directory; one that does not exist keeps its path.
pub proof fn law_stale_file(
    path: &str,
    dir: String,
    name: String,
    timestamp: &str,
    res: String,
    now: String,
    kept: String,
    secs: u64,
)
    requires
        call_ensures(split_file, (path,), Some((dir, name))),
        call_ensures(make_stale_path, (path, timestamp), res),
        call_ensures(chrono_timestamp, (secs,), now),
        call_ensures(rename_to_stale, (path, false, secs), kept),
    ensures
        exists|stem: Seq<char>, ext: Seq<char>|
            #![trigger stem + ext]
            name@ == stem + ext && !ext.subrange(
                if ext.len() > 0 {
                    1
                } else {
                    0
                },
                ext.len() as int,
            ).contains('.') && (ext.len() > 0 ==> ext[0] == '.') && (ext.len() == 0
                ==> !name@.contains('.')) && res@ == pushed(
                dir@,
                stem + "~stale~"@ + timestamp@ + ext,
            ),
        kept@ == path@,
        timestamp@ == now@ ==> forall|stale: String| #[trigger]
            call_ensures(rename_to_stale, (path, true, secs), stale) ==> stale@ == res@,
{
    let n = name@;
    n.index_of_last_ensures('.');
    let (stem, ext) = match cut_last(n, '.') {
        Some(parts) => parts,
        None => (n, seq![]),
    };
    assert(n =~= stem + ext);
    if ext.len() > 0 {
        let tail = ext.subrange(1, ext.len() as int);
        if tail.contains('.') {
            let k = choose|k: int| 0 <= k < tail.len() && tail[k] == '.';
            assert(n[stem.len() + 1 + k] == '.');
        }
    } else {
        assert(ext.subrange(0, 0) =~= seq![]);
    }
    assert(cut_last(n, '.') is None ==> stem + "~stale~"@ + timestamp@ + ext =~= n + "~stale~"@
        + timestamp@);
    assert(res@ == pushed(dir@, stem + "~stale~"@ + timestamp@ + ext));
    if timestamp@ == now@ {
        assert forall|stale: String| #[trigger]
            call_ensures(rename_to_stale, (path, true, secs), stale) implies stale@ == res@ by {
            let a = choose|a: (u64, u64, u64)| #[trigger]
                is_date((secs / 86400) as int, a) && now@ == stamp(a, (secs % 86400) as int);
            let b = choose|b: (u64, u64, u64)| #[trigger]
                is_date((secs / 86400) as int, b) && stale@ == stale_path(
                    path@,
                    stamp(b, (secs % 86400) as int),
                );
            law_one_date((secs / 86400) as int, a, b);
        }
    }
}

} // verus!
