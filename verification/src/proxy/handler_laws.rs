//! What holds of the decisions for requests and responses.
#[allow(unused_imports)]
use crate::cache::content_range::{content_range_text, parse_range_header, ContentRange};
#[allow(unused_imports)]
use crate::cache::entry::CacheEntry;
#[allow(unused_imports)]
use crate::cache::key::{compute_fingerprint, str_pairs};
#[allow(unused_imports)]
use crate::cache::policy::CachedPolicy;
#[allow(unused_imports)]
use crate::cache::range::SlabHit;
#[allow(unused_imports)]
use crate::cache::store::{classify_media_type, url_to_cache_path};
#[allow(unused_imports)]
use crate::cache::youtube::{normalize, Normalized};
#[allow(unused_imports)]
use crate::error::Error;
#[allow(unused_imports)]
use crate::number::{decimal_text, parse_i64, unsigned};
#[allow(unused_imports)]
use crate::outside::header::{header_value_ok, is_visible_byte, visible};
#[allow(unused_imports)]
use crate::outside::json::{json_field_str, json_object};
#[allow(unused_imports)]
use crate::outside::url::{url_host, url_join, url_ok};
#[allow(unused_imports)]
use crate::proxy::handler::{
    asks_no_cache, cached_response, conditions, context_for, first_step, header_of, header_text, hit_log_entry,
    host_of, location_url, may_serve, partial_range, request_context, response_log_entry,
    response_step, revalidate, revalidation_headers, serves_fresh, should_intercept, slab_response,
    store_response, url_pattern, urls_to_invalidate, CachedResponse, RequestContext, RequestStep,
    ResponseStep, Stored,
};
#[allow(unused_imports)]
use crate::proxy::headers::{
    build_cache_policy_bytes, decompress_body, extract_headers_json, header_views,
    headers_from_json, merge_304_headers, stripped,
};
#[allow(unused_imports)]
use crate::proxy::state::RequestLogEntry;
#[allow(unused_imports)]
use crate::text::{has_prefix, has_suffix, has_text, lower, opt, pair_views, views};
use vstd::prelude::*;

verus! {

/// Whether the first header with a name has a text: each byte is a visible ASCII
/// character, a space or a tab, and the text has the same characters.
pub open spec fn says(headers: Seq<(String, Vec<u8>)>, name: Seq<char>, text: Seq<char>) -> bool {
    exists|k: int|
        0 <= k < headers.len() && (#[trigger] headers[k]).0@ == name && (forall|j: int|
            0 <= j < k ==> (#[trigger] headers[j]).0@ != name) && headers[k].1@.len() == text.len()
            && (forall|i: int|
            0 <= i < text.len() ==> (32 <= #[trigger] headers[k].1@[i] < 127 || headers[k].1@[i]
                == 9) && text[i] == headers[k].1@[i] as char)
}

/// What is read of a header is what it says.
proof fn lemma_says(headers: Seq<(String, Vec<u8>)>, name: Seq<char>)
    ensures
        forall|text: Seq<char>| #[trigger]
            says(headers, name, text) <==> header_of(header_views(headers), name) == Some(text),
{
    lemma_header_found(headers, name, 0);
    let all = header_views(headers);
    assert(all.subrange(0, all.len() as int) =~= all);
    assert forall|text: Seq<char>| #[trigger]
        says(headers, name, text) <==> header_of(all, name) == Some(text) by {
        if says(headers, name, text) {
            let k = choose|k: int|
                0 <= k < headers.len() && (#[trigger] headers[k]).0@ == name && (forall|j: int|
                    0 <= j < k ==> (#[trigger] headers[j]).0@ != name) && headers[k].1@.len()
                    == text.len() && (forall|i: int|
                    0 <= i < text.len() ==> (32 <= #[trigger] headers[k].1@[i] < 127
                        || headers[k].1@[i] == 9) && text[i] == headers[k].1@[i] as char);
            assert(header_of(all, name) == visible(headers[k].1@));
            assert(visible(headers[k].1@)->0 =~= text);
        }
        if header_of(all, name) == Some(text) {
            let k = choose|k: int|
                0 <= k < headers.len() && (#[trigger] headers[k]).0@ == name && (forall|j: int|
                    0 <= j < k ==> (#[trigger] headers[j]).0@ != name) && header_of(all, name)
                    == visible(headers[k].1@);
            let data = headers[k].1@;
            assert forall|i: int| 0 <= i < text.len() implies (32 <= #[trigger] data[i] < 127
                || data[i] == 9) && text[i] == data[i] as char by {
                assert(is_visible_byte(data[i]));
            }
            assert(headers[k].0@ == name);
        }
    }
}

/// Where the first header with a name stands.
proof fn lemma_header_found(headers: Seq<(String, Vec<u8>)>, name: Seq<char>, from: int)
    requires
        0 <= from <= headers.len(),
    ensures
        ({
            let all = header_views(headers);
            let rest = header_of(all.subrange(from, all.len() as int), name);
            &&& rest is Some ==> exists|k: int|
                from <= k < headers.len() && (#[trigger] headers[k]).0@ == name && (forall|j: int|
                    from <= j < k ==> (#[trigger] headers[j]).0@ != name) && rest == visible(
                    headers[k].1@,
                )
            &&& forall|k: int|
                from <= k < headers.len() && (#[trigger] headers[k]).0@ == name && (forall|j: int|
                    from <= j < k ==> (#[trigger] headers[j]).0@ != name) ==> rest == visible(
                    headers[k].1@,
                )
        }),
    decreases headers.len() - from,
{
    let all = header_views(headers);
    let s = all.subrange(from, all.len() as int);
    if from < headers.len() {
        lemma_header_found(headers, name, from + 1);
        assert(s[0] == (headers[from].0@, headers[from].1@));
        assert(s.subrange(1, s.len() as int) =~= all.subrange(from + 1, all.len() as int));
        if headers[from].0@ == name {
            assert(header_of(s, name) == visible(headers[from].1@));
            assert forall|k: int|
                from <= k < headers.len() && (#[trigger] headers[k]).0@ == name && (forall|j: int|
                    from <= j < k ==> (#[trigger] headers[j]).0@ != name) implies header_of(s, name)
                == visible(headers[k].1@) by {
                if k > from {
                    assert(headers[from].0@ != name);
                }
            }
        } else {
            assert forall|k: int|
                from <= k < headers.len() && (#[trigger] headers[k]).0@ == name && (forall|j: int|
                    from <= j < k ==> (#[trigger] headers[j]).0@ != name) implies header_of(s, name)
                == visible(headers[k].1@) by {
                assert(k >= from + 1);
            }
            if header_of(s, name) is Some {
                let k = choose|k: int|
                    from + 1 <= k < headers.len() && (#[trigger] headers[k]).0@ == name && (forall|
                        j: int,
                    |
                        from + 1 <= j < k ==> (#[trigger] headers[j]).0@ != name) && header_of(
                        all.subrange(from + 1, all.len() as int),
                        name,
                    ) == visible(headers[k].1@);
                assert forall|j: int| from <= j < k implies (#[trigger] headers[j]).0@ != name by {}
            }
        }
    }
}

/// The text of a header is what the first header with its name says, if that is visible.
pub proof fn law_header_text(
    headers: &Vec<(String, Vec<u8>)>,
    name: &str,
    res: Option<String>,
    text: Seq<char>,
)
    requires
        call_ensures(header_text, (headers, name), res),
    ensures
        says(headers@, name@, text) <==> res is Some && res->0@ == text,
{
    lemma_says(headers@, name@);
}

/// What is done with a response. After a successful change (a status from 200 to 299), what
/// is kept becomes stale. Of a request that is looked up, a 304 serves the entry that the
/// server was asked about, a 206 is kept as a slab, a 404 or 410 makes that entry stale, and
/// any other status from 200 to 299 is kept, unless the response forbids to store it, says
/// to be larger than is kept, is a page, or depends on where the request comes from. All
/// else only goes to the client.
pub proof fn law_response_step(
    context: &RequestContext,
    status: u16,
    headers: &Vec<(String, Vec<u8>)>,
    max_entry_size: u64,
    res: ResponseStep,
)
    requires
        call_ensures(response_step, (context, status, headers, max_entry_size), res),
    ensures
        ({
            let changes = context.method@ == "POST"@ || context.method@ == "PUT"@
                || context.method@ == "DELETE"@ || context.method@ == "PATCH"@;
            let asked = context.existing_entry is Some;
            let looked_up = context.should_cache && !(changes && 200 <= status <= 299);
            let unwanted = {
                ||| exists|v: Seq<char>| #[trigger]
                    says(headers@, "cache-control"@, v) && has_text(v, "no-store"@)
                ||| exists|v: Seq<char>| #[trigger]
                    says(headers@, "content-length"@, v) && (unsigned(v, u64::MAX as nat) matches
                        Some(n) && n > max_entry_size)
                ||| exists|v: Seq<char>| #[trigger]
                    says(headers@, "content-type"@, v) && has_text(v, "text/html"@)
                ||| exists|v: Seq<char>| #[trigger]
                    says(headers@, "vary"@, v) && has_text(lower(v), "origin"@)
                ||| exists|v: Seq<char>| #[trigger]
                    says(headers@, "access-control-allow-origin"@, v) && v != "*"@
            };
            &&& res is Invalidate <==> changes && 200 <= status <= 299
            &&& res is ServeKept <==> looked_up && status == 304 && asked
            &&& res is KeepSlab <==> looked_up && status == 206
            &&& res is MarkStale <==> looked_up && (status == 404 || status == 410) && asked
            &&& res is Keep <==> looked_up && 200 <= status <= 299 && status != 206 && !unwanted
        }),
{
    lemma_says(headers@, "cache-control"@);
    lemma_says(headers@, "content-length"@);
    lemma_says(headers@, "content-type"@);
    lemma_says(headers@, "vary"@);
    lemma_says(headers@, "access-control-allow-origin"@);
    let all = header_views(headers@);
    if let Some(v) = header_of(all, "cache-control"@) {
        assert(says(headers@, "cache-control"@, v));
    }
    if let Some(v) = header_of(all, "content-length"@) {
        assert(says(headers@, "content-length"@, v));
    }
    if let Some(v) = header_of(all, "content-type"@) {
        assert(says(headers@, "content-type"@, v));
    }
    if let Some(v) = header_of(all, "vary"@) {
        assert(says(headers@, "vary"@, v));
    }
    if let Some(v) = header_of(all, "access-control-allow-origin"@) {
        assert(says(headers@, "access-control-allow-origin"@, v));
    }
}

/// Only a `GET` is looked up in the cache and kept in it. It goes by its own address or, if
/// that is the address of a video, by what is kept of it; and the range is that of the
/// header or, without one, that of the video.
pub proof fn law_request_context(
    method: &str,
    uri: &str,
    range_header: Option<&str>,
    res: RequestContext,
    video: Option<Normalized>,
    range: Option<(u64, Option<u64>)>,
    address: &str,
    vary_values: &[(&str, &str)],
    fingerprint: String,
)
    requires
        call_ensures(request_context, (method, uri, range_header), res),
        call_ensures(normalize, (uri,), video),
        match range_header {
            Some(h) => call_ensures(parse_range_header, (h,), range),
            None => range is None,
        },
        match video {
            Some(v) => address@ == v.0@,
            None => address@ == uri@,
        },
        vary_values@.len() == 0,
        call_ensures(compute_fingerprint, (method, address, vary_values), fingerprint),
    ensures
        res.method@ == method@,
        res.uri@ == uri@,
        res.existing_entry is None,
        res.should_cache <==> method@ == "GET"@,
        method@ != "GET"@ ==> res.range_start is None && res.range_end is None
            && res.normalized_url is None && res.fingerprint@.len() == 0,
        method@ == "GET"@ ==> res.fingerprint@ == fingerprint@,
        method@ == "GET"@ ==> (video is None <==> res.normalized_url is None),
        method@ == "GET"@ && video is Some ==> res.normalized_url->0@ == address@,
        method@ == "GET"@ ==> (res.range_start, res.range_end) == (match (range, video) {
            (Some((start, end)), _) => (Some(start), end),
            (None, Some((_, _, Some((start, end))))) => (Some(start), Some(end)),
            _ => (None, None),
        }),
{
    assert(str_pairs(vary_values@) =~= seq![]);
    let v = res@;
    assert(v.existing_entry is None);
}

/// What is known of a request follows from its method, its address, what is kept of that of
/// a video, and its header.
pub proof fn law_context_for(
    method: &str,
    uri: &str,
    video: Option<Normalized>,
    range_header: Option<&str>,
    res: RequestContext,
    same: RequestContext,
)
    requires
        call_ensures(context_for, (method, uri, video, range_header), res),
        call_ensures(normalize, (uri,), video),
        call_ensures(request_context, (method, uri, range_header), same),
        method@ == "GET"@,
    ensures
        res@ == same@,
{
}

/// A request is forwarded if it is not looked up or the cache is passed by; a range is looked
/// for if one is asked for and the client does not ask for the server; and an entry otherwise.
pub proof fn law_first_step(context: &RequestContext, bypass: bool, no_cache: bool, res: RequestStep)
    requires
        call_ensures(first_step, (context, bypass, no_cache), res),
    ensures
        res is Forward <==> bypass || !context.should_cache,
        res is LookForSlab <==> !bypass && context.should_cache && !no_cache
            && context.range_start is Some,
        res is LookForEntry <==> !bypass && context.should_cache && (no_cache
            || context.range_start is None),
{
}

/// Ranges are kept under the address of the request or, of a video, what is kept of it.
pub proof fn law_url_pattern(context: &RequestContext, res: &str)
    requires
        call_ensures(url_pattern, (context,), res),
    ensures
        context.normalized_url is Some ==> res@ == context.normalized_url->0@,
        context.normalized_url is None ==> res@ == context.uri@,
{
}

/// A client asks for the server by `no-cache` or `max-age=0`, and only by these.
pub proof fn law_asks_no_cache(cache_control: Option<&str>, res: bool)
    requires
        call_ensures(asks_no_cache, (cache_control,), res),
    ensures
        res ==> cache_control is Some,
        cache_control matches Some(v) ==> (res <==> has_text(v@, "no-cache"@) || has_text(
            v@,
            "max-age=0"@,
        )),
{
}

/// A response from a slab has the bytes of the content that are served and says which, and
/// how many.
pub proof fn law_slab_response(
    hit: &SlabHit,
    body: &Vec<u8>,
    content: Seq<u8>,
    res: Option<CachedResponse>,
    range: &ContentRange,
    said: String,
    length: u64,
    length_text: String,
)
    requires
        call_ensures(slab_response, (hit, body), res),
        hit.slab_start <= hit.serve_start <= hit.serve_end <= hit.slab_end < content.len(),
        body@ == content.subrange(hit.slab_start as int, hit.slab_end + 1),
        *range == (ContentRange { start: hit.serve_start, end: hit.serve_end, total: hit.total }),
        call_ensures(content_range_text, (range,), said),
        length == hit.serve_end - hit.serve_start + 1,
        call_ensures(decimal_text, (length,), length_text),
    ensures
        res is Some,
        res->0.status == 206,
        res->0.body@ == content.subrange(hit.serve_start as int, hit.serve_end + 1),
        res->0.body@.len() == length,
        pair_views(res->0.headers@) == seq![
            ("content-range"@, said@),
            ("content-length"@, length_text@),
            ("X-Cache"@, "HIT"@),
        ],
{
    assert(body@.len() == hit.slab_end + 1 - hit.slab_start);
    assert(body@.subrange(
        hit.serve_start - hit.slab_start,
        hit.serve_end - hit.slab_start + 1,
    ) =~= content.subrange(hit.serve_start as int, hit.serve_end + 1));
}

/// An entry is served without asking the server if it is fresh, does not depend on where the
/// request comes from, and the client does not ask for the server; and only then.
pub proof fn law_may_serve(headers_json: &str, fresh: bool, no_cache: bool, res: bool)
    requires
        call_ensures(may_serve, (headers_json, fresh, no_cache), res),
    ensures
        res ==> fresh && !no_cache,
        fresh && !no_cache ==> (res <==> !(has_text(headers_json@, "\"vary\""@) && has_text(
            lower(headers_json@),
            "origin"@,
        ))),
{
}

/// An entry is fresh as its policy says; without a policy that can be read, or that answers
/// at the time, it is not.
pub proof fn law_serves_fresh(
    entry: &CacheEntry,
    no_cache: bool,
    secs: u64,
    nanos: u32,
    res: bool,
    policy: Result<CachedPolicy, Error>,
    answer: Option<bool>,
    headers_json: &str,
    served: bool,
)
    requires
        call_ensures(serves_fresh, (entry, no_cache, secs, nanos), res),
        call_ensures(CachedPolicy::from_bytes, (&entry.cache_policy,), policy),
        policy matches Ok(p) ==> call_ensures(CachedPolicy::freshness, (&p, secs, nanos), answer),
        policy is Err ==> answer is None,
        headers_json@ == entry.response_headers@,
        call_ensures(may_serve, (headers_json, answer == Some(true), no_cache), served),
    ensures
        res == served,
{
    if let Ok(p) = policy {
        assert(p@ == entry.cache_policy@);
    }
}

/// The server is asked whether an entry with a tag or a time still holds, under the names
/// that stand for them, and for nothing else.
pub proof fn law_conditions(
    etag: &Option<String>,
    last_modified: &Option<String>,
    res: Vec<(String, String)>,
    pair: (Seq<char>, Seq<char>),
)
    requires
        call_ensures(conditions, (etag, last_modified), res),
    ensures
        pair_views(res@).contains(pair) <==> ({
            ||| etag is Some && header_value_ok(etag->0@) && pair == ("if-none-match"@, etag->0@)
            ||| last_modified is Some && header_value_ok(last_modified->0@) && pair == (
                "if-modified-since"@,
                last_modified->0@,
            )
        }),
        res@.len() <= 2,
{
    let s = pair_views(res@);
    assert(s.len() == res@.len());
    if etag is Some && header_value_ok(etag->0@) {
        assert(s[0] == ("if-none-match"@, etag->0@));
        if last_modified is Some && header_value_ok(last_modified->0@) {
            assert(s[1] == ("if-modified-since"@, last_modified->0@));
        }
    } else if last_modified is Some && header_value_ok(last_modified->0@) {
        assert(s[0] == ("if-modified-since"@, last_modified->0@));
    }
}

/// The server is asked with the tag and the time that the kept headers say.
pub proof fn law_revalidation_headers(
    headers_json: &str,
    res: Vec<(String, String)>,
    etag: &Option<String>,
    last_modified: &Option<String>,
    same: Vec<(String, String)>,
)
    requires
        call_ensures(revalidation_headers, (headers_json,), res),
        etag.deep_view() == (match json_object(headers_json@) {
            Some(fields) => json_field_str(fields, "etag"@),
            None => None,
        }),
        last_modified.deep_view() == (match json_object(headers_json@) {
            Some(fields) => json_field_str(fields, "last-modified"@),
            None => None,
        }),
        call_ensures(conditions, (etag, last_modified), same),
    ensures
        pair_views(res@) == pair_views(same@),
{
}

/// A response from the cache has the status and the headers that are kept, says that it is
/// one, and has the bytes of the file.
pub proof fn law_cached_response(
    entry: &CacheEntry,
    body: Vec<u8>,
    res: CachedResponse,
    headers_json: &str,
    kept: Vec<(String, String)>,
)
    requires
        call_ensures(cached_response, (entry, body), res),
        headers_json@ == entry.response_headers@,
        call_ensures(headers_from_json, (headers_json,), kept),
    ensures
        res.status == entry.status_code,
        res.body@ == body@,
        pair_views(res.headers@) == pair_views(kept@) + seq![("X-Cache"@, "HIT"@)],
{
    assert(pair_views(res.headers@) =~= pair_views(kept@) + seq![("X-Cache"@, "HIT"@)]);
}

/// The host of an address that can be read and has one, and else the default.
pub proof fn law_host_of(uri: &str, default: &str, res: String)
    requires
        call_ensures(host_of, (uri, default), res),
    ensures
        url_ok(uri@) && url_host(uri@) is Some ==> res@ == url_host(uri@)->0,
        !url_ok(uri@) || url_host(uri@) is None ==> res@ == default@,
{
}

/// The log says of an answer from the cache what the entry says, and that it is one.
pub proof fn law_hit_log_entry(
    entry: &CacheEntry,
    id: u64,
    now: i64,
    method: &str,
    uri: &str,
    res: RequestLogEntry,
)
    requires
        call_ensures(hit_log_entry, (entry, id, now, method, uri), res),
    ensures
        res.id == id,
        res.timestamp == now,
        res.method@ == method@,
        res.url@ == uri@,
        res.status_code == entry.status_code,
        res.size == entry.file_size,
        res.from_cache,
        res.content_type.deep_view() == entry.content_type.deep_view(),
        res.host@ == entry.host@,
        res.file_path.deep_view() == Some(entry.file_path@),
{
    let v = res@;
    assert(v.from_cache);
}

/// The log says of an answer of the server what its headers say, and that it is none from
/// the cache.
pub proof fn law_response_log_entry(
    context: &RequestContext,
    id: u64,
    now: i64,
    status: u16,
    headers: &Vec<(String, Vec<u8>)>,
    cached_file: Option<String>,
    res: RequestLogEntry,
    content_type: Option<String>,
    uri: &str,
    host: String,
    text: &str,
    n: Option<i64>,
)
    requires
        call_ensures(response_log_entry, (context, id, now, status, headers, cached_file), res),
        call_ensures(header_text, (headers, "content-type"), content_type),
        uri@ == context.uri@,
        call_ensures(host_of, (uri, ""), host),
        call_ensures(parse_i64, (text,), n),
    ensures
        res.id == id,
        res.timestamp == now,
        res.method@ == context.method@,
        res.url@ == context.uri@,
        res.status_code == status,
        !res.from_cache,
        res.content_type.deep_view() == content_type.deep_view(),
        res.host@ == host@,
        res.file_path.deep_view() == cached_file.deep_view(),
        says(headers@, "content-length"@, text@) ==> res.size == (match n {
            Some(size) => size,
            None => 0,
        }),
        (forall|v: Seq<char>| !#[trigger] says(headers@, "content-length"@, v)) ==> res.size == 0,
{
    let v = res@;
    assert(!v.from_cache);
    lemma_says(headers@, "content-length"@);
    if let Some(t) = header_of(header_views(headers@), "content-length"@) {
        assert(says(headers@, "content-length"@, t));
    }
}

/// A part of a response says its range in its header, and only there.
pub proof fn law_partial_range(
    headers: &Vec<(String, Vec<u8>)>,
    res: Option<ContentRange>,
    text: &str,
    said: Option<ContentRange>,
)
    requires
        call_ensures(partial_range, (headers,), res),
        call_ensures(ContentRange::parse, (text,), said),
    ensures
        says(headers@, "content-range"@, text@) ==> res == said,
        (forall|v: Seq<char>| !#[trigger] says(headers@, "content-range"@, v)) ==> res is None,
{
    lemma_says(headers@, "content-range"@);
    if let Some(t) = header_of(header_views(headers@), "content-range"@) {
        assert(says(headers@, "content-range"@, t));
    }
}

/// Whether a header with an address leads to a url: it is the url itself if it begins with
/// `http`, and else names it from where the request went.
pub open spec fn leads_to(uri: Seq<char>, location: Seq<char>, url: Seq<char>) -> bool {
    if has_prefix(location, "http"@) {
        url == location
    } else {
        url_join(uri, location) == Some(url) && url.len() > 0
    }
}

/// After a change, what is kept for the address of the request, and for those that the
/// response names as its place or that of its content, becomes stale, and nothing else.
pub proof fn law_urls_to_invalidate(
    uri: &str,
    headers: &Vec<(String, Vec<u8>)>,
    res: Vec<String>,
    url: Seq<char>,
)
    requires
        call_ensures(urls_to_invalidate, (uri, headers), res),
    ensures
        views(res@).contains(url) <==> ({
            ||| url == uri@
            ||| exists|v: Seq<char>| #[trigger]
                says(headers@, "location"@, v) && leads_to(uri@, v, url)
            ||| exists|v: Seq<char>| #[trigger]
                says(headers@, "content-location"@, v) && leads_to(uri@, v, url)
        }),
{
    lemma_says(headers@, "location"@);
    lemma_says(headers@, "content-location"@);
    let all = header_views(headers@);
    let (a, b) = (header_of(all, "location"@), header_of(all, "content-location"@));
    if let Some(v) = a {
        assert(says(headers@, "location"@, v));
    }
    if let Some(v) = b {
        assert(says(headers@, "content-location"@, v));
    }
    let (x, y) = (location_url(uri@, a), location_url(uri@, b));
    let s = views(res@);
    assert(s == seq![uri@] + x + y);
    lemma_location(uri@, a, url);
    lemma_location(uri@, b, url);
    assert(s.contains(url) <==> url == uri@ || x.contains(url) || y.contains(url)) by {
        if s.contains(url) {
            let k = choose|k: int| 0 <= k < s.len() && s[k] == url;
            if 0 < k <= x.len() {
                assert(x[k - 1] == url);
            } else if k > x.len() {
                assert(y[k - 1 - x.len()] == url);
            }
        }
        if url == uri@ {
            assert(s[0] == url);
        }
        if x.contains(url) {
            let k = choose|k: int| 0 <= k < x.len() && x[k] == url;
            assert(s[1 + k] == url);
        }
        if y.contains(url) {
            let k = choose|k: int| 0 <= k < y.len() && y[k] == url;
            assert(s[1 + x.len() + k] == url);
        }
    }
}

/// The addresses that a header leads to.
proof fn lemma_location(uri: Seq<char>, location: Option<Seq<char>>, url: Seq<char>)
    ensures
        location_url(uri, location).contains(url) <==> location is Some && leads_to(
            uri,
            location->0,
            url,
        ),
{
    let s = location_url(uri, location);
    if location is Some && leads_to(uri, location->0, url) {
        assert(s[0] == url);
    }
}

/// All hosts are looked into but those with live data, those given by their address, and
/// those that accept only their own certificates.
pub proof fn law_should_intercept(host: &str, is_address: bool, res: bool)
    requires
        call_ensures(should_intercept, (host, is_address), res),
    ensures
        is_address ==> !res,
        !is_address ==> (!res <==> ({
            ||| has_prefix(host@, "alive."@)
            ||| has_text(host@, "-realtime"@)
            ||| has_text(host@, "-ws"@)
            ||| has_suffix(host@, ".apple.com"@)
            ||| has_suffix(host@, ".icloud.com"@)
            ||| has_suffix(host@, ".mzstatic.com"@)
            ||| has_suffix(host@, ".itunes.apple.com"@)
        })),
{
}

/// What is found unchanged has the kept headers as the answer renews them, and the policy
/// that follows from these.
pub proof fn law_revalidate(
    headers_json: &str,
    headers: &Vec<(String, Vec<u8>)>,
    uri: &str,
    secs: u64,
    nanos: u32,
    res: (String, Vec<u8>),
    renewed: String,
    text: &str,
    policy: Vec<u8>,
)
    requires
        call_ensures(revalidate, (headers_json, headers, uri, secs, nanos), res),
        call_ensures(merge_304_headers, (headers_json, headers), renewed),
        text@ == renewed@,
        call_ensures(build_cache_policy_bytes, (uri, text, secs, nanos), policy),
    ensures
        res.0@ == renewed@,
        res.1@ == policy@,
{
}

/// A response is kept if it has a body. Its file has the body without its encoding, its
/// headers then say nothing of one, and the entry says of the response, of the file and of
/// the time what they are.
pub proof fn law_store_response(
    context: &RequestContext,
    status: u16,
    headers: &Vec<(String, Vec<u8>)>,
    body: Vec<u8>,
    secs: u64,
    nanos: u32,
    res: Option<Stored>,
    uri: &str,
    content_type: Option<&str>,
    encoding: Option<&str>,
    plain: (Vec<u8>, bool),
    json: String,
    bare: String,
    path: String,
    host: String,
)
    requires
        call_ensures(store_response, (context, status, headers, body, secs, nanos), res),
        uri@ == context.uri@,
        opt(content_type) == header_of(header_views(headers@), "content-type"@),
        opt(encoding) == header_of(header_views(headers@), "content-encoding"@),
        call_ensures(decompress_body, (body, encoding), plain),
        call_ensures(extract_headers_json, (headers,), json),
        bare@ == stripped(json@),
        call_ensures(url_to_cache_path, ("GET", uri, content_type, None::<&str>), path),
        call_ensures(host_of, (uri, "_unknown_"), host),
        secs <= i64::MAX,
        body@.len() <= i64::MAX,
        plain.0@.len() <= i64::MAX,
    ensures
        res is None <==> body@.len() == 0,
        res matches Some(s) ==> {
            &&& s.body@ == plain.0@
            &&& s.entry.fingerprint@ == context.fingerprint@
            &&& s.entry.url@ == context.uri@
            &&& s.entry.method@ == "GET"@
            &&& s.entry.status_code == status
            &&& s.entry.content_type.deep_view() == opt(content_type)
            &&& s.entry.content_length == Some(body@.len() as i64)
            &&& s.entry.response_headers@ == if plain.1 {
                bare@
            } else {
                json@
            }
            &&& s.entry.created_at == secs
            &&& s.entry.last_accessed == secs
            &&& s.entry.expires_at is None
            &&& s.entry.file_path@ == path@
            &&& s.entry.file_size == s.body@.len()
            &&& s.entry.host@ == host@
            &&& s.entry.vary_key is None
            &&& s.entry.status@ == "active"@
            &&& s.entry.stale_at is None
        },
{
    if let Some(s) = res {
        let v = s.entry@;
        assert(v.stale_at is None);
    }
}

/// The policy of what is kept follows from its address and its kept headers, and its kind of
/// media from its content type.
pub proof fn law_stored_policy(
    context: &RequestContext,
    status: u16,
    headers: &Vec<(String, Vec<u8>)>,
    body: Vec<u8>,
    secs: u64,
    nanos: u32,
    stored: Stored,
    uri: &str,
    text: &str,
    policy: Vec<u8>,
    content_type: &str,
    kind: Option<&'static str>,
)
    requires
        call_ensures(
            store_response,
            (context, status, headers, body, secs, nanos),
            Some(stored),
        ),
        uri@ == context.uri@,
        text@ == stored.entry.response_headers@,
        call_ensures(build_cache_policy_bytes, (uri, text, secs, nanos), policy),
        call_ensures(classify_media_type, (content_type,), kind),
    ensures
        stored.entry.cache_policy@ == policy@,
        says(headers@, "content-type"@, content_type@) ==> stored.entry.media_type.deep_view()
            == opt(kind),
        (forall|v: Seq<char>| !#[trigger] says(headers@, "content-type"@, v))
            ==> stored.entry.media_type is None && stored.entry.content_type is None,
{
    lemma_says(headers@, "content-type"@);
    if let Some(t) = header_of(header_views(headers@), "content-type"@) {
        assert(says(headers@, "content-type"@, t));
    }
    let v = stored.entry@;
    assert(v.stale_at is None);
}

} // verus!
