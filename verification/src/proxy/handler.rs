//! What the proxy decides for a request and for the response to it.
use crate::cache::content_range::{content_range_text, parse_range_header, ContentRange};
#[allow(unused_imports)]
use crate::cache::content_range::{content_range, range_text, requested_range};
use crate::cache::entry::{clone_text, CacheEntry};
#[allow(unused_imports)]
use crate::cache::entry::EntryView;
#[allow(unused_imports)]
use crate::cache::index::{inserted, served};
#[allow(unused_imports)]
use crate::cache::index_laws::law_inserted_is_found;
use crate::cache::key::compute_fingerprint;
#[allow(unused_imports)]
use crate::cache::key::{fingerprint, str_pairs};
use crate::cache::policy::CachedPolicy;
#[allow(unused_imports)]
use crate::cache::policy::{answers_at, policy_fresh};
use crate::cache::range::SlabHit;
use crate::cache::store::{classify_media_type, url_to_cache_path};
#[allow(unused_imports)]
use crate::cache::store::{cache_path, media_kind, mime_of};
use crate::cache::youtube::{normalize, Normalized};
#[allow(unused_imports)]
use crate::cache::youtube::normalized;
use crate::number::{decimal_text, parse_i64, parse_u64, to_signed};
#[allow(unused_imports)]
use crate::number::{as_signed, decimal, signed, unsigned};
use crate::outside::header::{is_header_value, visible_text};
#[allow(unused_imports)]
use crate::outside::header::{header_name_ok, header_value_ok, visible};
use crate::outside::json::{field_str, parse_object};
#[allow(unused_imports)]
use crate::outside::json::{all_strings, json_as_str, json_field_str, json_object, json_object_text, raw_mark};
#[allow(unused_imports)]
use crate::outside::policy::policy_ok;
use crate::outside::url::{join_url, parse_url};
#[allow(unused_imports)]
use crate::outside::url::{url_host, url_join, url_ok};
use crate::proxy::headers::{
    build_cache_policy_bytes, decompress_body, extract_headers_json, merge_304_headers,
    response_headers, strip_encoding_headers,
};
#[allow(unused_imports)]
use crate::proxy::headers::{
    cached_response_headers, decompressed, fields_of, header_texts, header_views, kept_headers,
    kept_policy, lemma_kept_is_sent, map_of, merged, stripped, without_encoding, written,
};
use crate::proxy::state::RequestLogEntry;
#[allow(unused_imports)]
use crate::proxy::state::LogView;
use crate::text::{contains, ends_with, same, starts_with, to_lower};
#[allow(unused_imports)]
use crate::text::{has_prefix, has_suffix, has_text, lower, opt, pair_views, views};
use vstd::prelude::*;

verus! {

/// What is kept of a request until its response comes.
#[derive(Debug)]
pub struct RequestContext {
    pub uri: String,
    pub method: String,
    pub fingerprint: String,
    pub should_cache: bool,
    pub existing_entry: Option<CacheEntry>,
    /// The range that is asked for, if one is.
    pub range_start: Option<u64>,
    pub range_end: Option<u64>,
    /// The address of a video without what changes from request to request.
    pub normalized_url: Option<String>,
}

/// What is kept of a request, its texts as character sequences.
#[verifier::ext_equal]
pub struct ContextView {
    pub uri: Seq<char>,
    pub method: Seq<char>,
    pub fingerprint: Seq<char>,
    pub should_cache: bool,
    pub existing_entry: Option<EntryView>,
    pub range_start: Option<u64>,
    pub range_end: Option<u64>,
    pub normalized_url: Option<Seq<char>>,
}

impl View for RequestContext {
    type V = ContextView;

    open spec fn view(&self) -> ContextView {
        ContextView {
            uri: self.uri@,
            method: self.method@,
            fingerprint: self.fingerprint@,
            should_cache: self.should_cache,
            existing_entry: match self.existing_entry {
                Some(e) => Some(e@),
                None => None,
            },
            range_start: self.range_start,
            range_end: self.range_end,
            normalized_url: self.normalized_url.deep_view(),
        }
    }
}

/// The value of the first header with a name, if it is visible ASCII.
pub open spec fn header_of(headers: Seq<(Seq<char>, Seq<u8>)>, name: Seq<char>) -> Option<Seq<char>>
    decreases headers.len(),
{
    if headers.len() == 0 {
        None
    } else if headers[0].0 == name {
        visible(headers[0].1)
    } else {
        header_of(headers.subrange(1, headers.len() as int), name)
    }
}

/// The value of the first header with a name, if it is visible ASCII.
pub fn header_text(headers: &Vec<(String, Vec<u8>)>, name: &str) -> (res: Option<String>)
    ensures
        res.deep_view() == header_of(header_views(headers@), name@),
{
    let ghost all = header_views(headers@);
    assert(all.subrange(0, all.len() as int) =~= all);
    let mut i: usize = 0;
    while i < headers.len()
        invariant
            i <= headers@.len(),
            all == header_views(headers@),
            header_of(all, name@) == header_of(all.subrange(i as int, all.len() as int), name@),
        decreases headers@.len() - i,
    {
        proof {
            let rest = all.subrange(i as int, all.len() as int);
            assert(rest[0] == (headers@[i as int].0@, headers@[i as int].1@));
            assert(rest.subrange(1, rest.len() as int) =~= all.subrange(
                i + 1,
                all.len() as int,
            ));
        }
        if same(headers[i].0.as_str(), name) {
            return visible_text(&headers[i].1);
        }
        i += 1;
    }
    None
}

/// What is kept of a request, from what is kept of its address as that of a video.
pub open spec fn context_with(
    method: Seq<char>,
    uri: Seq<char>,
    video: Option<(Seq<char>, Seq<char>, Option<(u64, u64)>)>,
    range_header: Option<Seq<char>>,
) -> ContextView {
    let asked = match range_header {
        Some(h) => requested_range(h),
        None => None,
    };
    let video_range = match video {
        Some((_, _, r)) => r,
        None => None,
    };
    let effective = match video {
        Some((url, _, _)) => url,
        None => uri,
    };
    ContextView {
        uri,
        method,
        fingerprint: if method == "GET"@ {
            fingerprint(method, effective, seq![])
        } else {
            seq![]
        },
        should_cache: method == "GET"@,
        existing_entry: None,
        range_start: if method != "GET"@ {
            None
        } else {
            match (asked, video_range) {
                (Some((start, _)), _) => Some(start),
                (None, Some((start, _))) => Some(start),
                (None, None) => None,
            }
        },
        range_end: if method != "GET"@ {
            None
        } else {
            match (asked, video_range) {
                (Some((_, end)), _) => end,
                (None, Some((_, end))) => Some(end),
                (None, None) => None,
            }
        },
        normalized_url: match video {
            Some((url, _, _)) if method == "GET"@ => Some(url),
            _ => None,
        },
    }
}

/// What is kept of the address of a video, by its view.
pub open spec fn video_view(v: Option<Normalized>) -> Option<
    (Seq<char>, Seq<char>, Option<(u64, u64)>),
> {
    match v {
        Some((url, Some(itag), range)) => Some((url@, itag@, range)),
        Some((url, None, range)) => Some((url@, seq![], range)),
        None => None,
    }
}

/// What is kept of a request whose address has been looked at.
pub fn context_for(
    method: &str,
    uri: &str,
    video: Option<Normalized>,
    range_header: Option<&str>,
) -> (res: RequestContext)
    ensures
        res@ == context_with(method@, uri@, video_view(video), opt(range_header)),
{
    let mut context = RequestContext {
        uri: uri.to_owned(),
        method: method.to_owned(),
        fingerprint: String::new(),
        should_cache: false,
        existing_entry: None,
        range_start: None,
        range_end: None,
        normalized_url: None,
    };
    if !same(method, "GET") {
        assert(context@ =~= context_with(method@, uri@, video_view(video), opt(range_header)));
        return context;
    }
    let none: [(&str, &str); 0] = [];
    assert(str_pairs(none@) =~= seq![]);
    match video {
        Some((url, _, range)) => {
            context.fingerprint = compute_fingerprint(method, url.as_str(), none.as_slice());
            context.normalized_url = Some(url);
            if let Some((start, end)) = range {
                context.range_start = Some(start);
                context.range_end = Some(end);
            }
        },
        None => {
            context.fingerprint = compute_fingerprint(method, uri, none.as_slice());
        },
    }
    if let Some(h) = range_header {
        if let Some((start, end)) = parse_range_header(h) {
            context.range_start = Some(start);
            context.range_end = end;
        }
    }
    context.should_cache = true;
    assert(context@ =~= context_with(method@, uri@, video_view(video), opt(range_header)));
    context
}

/// What is kept of a request.
pub open spec fn context_of(
    method: Seq<char>,
    uri: Seq<char>,
    range_header: Option<Seq<char>>,
) -> ContextView {
    context_with(
        method,
        uri,
        if method == "GET"@ {
            normalized(uri)
        } else {
            None
        },
        range_header,
    )
}

/// What is kept of a request until its response comes: only a `GET` is looked up in the
/// cache, under the address of the video that it is for, or else under its own.
pub fn request_context(method: &str, uri: &str, range_header: Option<&str>) -> (res: RequestContext)
    ensures
        res@ == context_of(method@, uri@, opt(range_header)),
{
    let video = if same(method, "GET") {
        normalize(uri)
    } else {
        None
    };
    context_for(method, uri, video, range_header)
}

/// What is done first with a request.
#[derive(Debug, Clone, Copy, PartialEq, Eq, Structural)]
pub enum RequestStep {
    /// It goes to the server.
    Forward,
    /// A range of it is looked for, and after that an entry of the cache.
    LookForSlab,
    /// An entry of the cache is looked for.
    LookForEntry,
}

/// What is done first with a request. One that asks for the server is not answered from a
/// slab, but the entry is looked up to ask the server whether it is still right.
pub open spec fn first_step_of(context: ContextView, bypass: bool, no_cache: bool) -> RequestStep {
    if !context.should_cache || bypass {
        RequestStep::Forward
    } else if context.range_start is Some && !no_cache {
        RequestStep::LookForSlab
    } else {
        RequestStep::LookForEntry
    }
}

/// What is done first with a request.
pub fn first_step(context: &RequestContext, bypass: bool, no_cache: bool) -> (res: RequestStep)
    ensures
        res == first_step_of(context@, bypass, no_cache),
{
    if !context.should_cache || bypass {
        RequestStep::Forward
    } else if context.range_start.is_some() && !no_cache {
        RequestStep::LookForSlab
    } else {
        RequestStep::LookForEntry
    }
}

/// The address under which the ranges of a request are kept.
pub open spec fn pattern_of(context: ContextView) -> Seq<char> {
    match context.normalized_url {
        Some(url) => url,
        None => context.uri,
    }
}

/// The address under which the ranges of a request are kept.
pub fn url_pattern(context: &RequestContext) -> (res: &str)
    ensures
        res@ == pattern_of(context@),
{
    match &context.normalized_url {
        Some(url) => url.as_str(),
        None => context.uri.as_str(),
    }
}

/// Whether a request asks not to be answered from the cache without asking the server.
pub open spec fn asks_server(cache_control: Option<Seq<char>>) -> bool {
    cache_control matches Some(v) && (has_text(v, "no-cache"@) || has_text(v, "max-age=0"@))
}

/// Whether a request asks not to be answered from the cache without asking the server.
pub fn asks_no_cache(cache_control: Option<&str>) -> (res: bool)
    ensures
        res == asks_server(opt(cache_control)),
{
    match cache_control {
        Some(v) => contains(v, "no-cache") || contains(v, "max-age=0"),
        None => false,
    }
}

/// An answer from the cache.
#[derive(Debug)]
pub struct CachedResponse {
    pub status: u16,
    pub headers: Vec<(String, String)>,
    pub body: Vec<u8>,
}

/// The bytes from `from` up to `to`.
fn bytes_of(v: &Vec<u8>, from: usize, to: usize) -> (res: Vec<u8>)
    requires
        from <= to <= v@.len(),
    ensures
        res@ == v@.subrange(from as int, to as int),
{
    let mut res: Vec<u8> = Vec::new();
    let mut i: usize = from;
    while i < to
        invariant
            from <= i <= to <= v@.len(),
            res@ == v@.subrange(from as int, i as int),
        decreases to - i,
    {
        res.push(v[i]);
        i += 1;
        assert(res@ =~= v@.subrange(from as int, i as int));
    }
    res
}

/// The range that a hit serves.
pub open spec fn served_range(hit: SlabHit) -> ContentRange {
    ContentRange { start: hit.serve_start, end: hit.serve_end, total: hit.total }
}

/// The number of bytes that a hit serves.
pub open spec fn served_len(hit: SlabHit) -> int {
    hit.serve_end - hit.serve_start + 1
}

/// The headers of an answer from a slab.
pub open spec fn slab_headers(hit: SlabHit) -> Seq<(Seq<char>, Seq<char>)> {
    seq![
        ("content-range"@, range_text(served_range(hit))),
        ("content-length"@, decimal(served_len(hit) as nat)),
        ("X-Cache"@, "HIT"@),
    ]
}

/// The answer to a request for a range from the bytes of a slab; none if they do not
/// reach far enough.
pub fn slab_response(hit: &SlabHit, body: &Vec<u8>) -> (res: Option<CachedResponse>)
    requires
        hit.slab_start <= hit.serve_start <= hit.serve_end,
        hit.serve_end - hit.serve_start < u64::MAX,
    ensures
        match res {
            Some(r) => hit.serve_end - hit.slab_start < body@.len() && r.status == 206
                && pair_views(r.headers@) == slab_headers(*hit) && r.body@ == body@.subrange(
                hit.serve_start - hit.slab_start,
                hit.serve_end - hit.slab_start + 1,
            ),
            None => hit.serve_end - hit.slab_start >= body@.len(),
        },
{
    let offset: u64 = hit.serve_start - hit.slab_start;
    let len: u64 = hit.serve_end - hit.serve_start + 1;
    let size: u64 = body.len() as u64;
    if offset > size || len > size - offset {
        return None;
    }
    let from: usize = offset as usize;
    let part = bytes_of(body, from, from + len as usize);
    let range = ContentRange { start: hit.serve_start, end: hit.serve_end, total: hit.total };
    let mut headers: Vec<(String, String)> = Vec::new();
    headers.push(("content-range".to_owned(), content_range_text(&range)));
    headers.push(("content-length".to_owned(), decimal_text(len)));
    headers.push(("X-Cache".to_owned(), "HIT".to_owned()));
    assert(pair_views(headers@) =~= slab_headers(*hit));
    Some(CachedResponse { status: 206, headers, body: part })
}

/// Whether kept headers say that a response depends on where a request comes from.
pub open spec fn varies_on_origin(headers_json: Seq<char>) -> bool {
    has_text(headers_json, "\"vary\""@) && has_text(lower(headers_json), "origin"@)
}

/// Whether an entry may be served as it is: it is fresh, does not depend on where the
/// request comes from, and the request does not ask for the server.
pub open spec fn servable(headers_json: Seq<char>, fresh: bool, no_cache: bool) -> bool {
    fresh && !varies_on_origin(headers_json) && !no_cache
}

/// Whether an entry of which it is known whether it is fresh may be served as it is.
pub fn may_serve(headers_json: &str, fresh: bool, no_cache: bool) -> (res: bool)
    ensures
        res == servable(headers_json@, fresh, no_cache),
{
    fresh && !(contains(headers_json, "\"vary\"") && contains(
        to_lower(headers_json).as_str(),
        "origin",
    )) && !no_cache
}

/// Whether an entry is fresh at a time: its policy reads as one and says so.
pub open spec fn fresh_at(policy: Seq<u8>, secs: u64, nanos: u32) -> bool {
    policy_ok(policy) && answers_at(policy, secs, nanos) && policy_fresh(policy, secs, nanos)
}

/// Whether an entry is served from the cache at a time without asking the server.
pub fn serves_fresh(entry: &CacheEntry, no_cache: bool, secs: u64, nanos: u32) -> (res: bool)
    ensures
        res == servable(
            entry@.response_headers,
            fresh_at(entry@.cache_policy, secs, nanos),
            no_cache,
        ),
{
    let fresh = match CachedPolicy::from_bytes(&entry.cache_policy) {
        Ok(policy) => match policy.freshness(secs, nanos) {
            Some(f) => f,
            None => false,
        },
        Err(_) => false,
    };
    may_serve(entry.response_headers.as_str(), fresh, no_cache)
}

/// The conditions that a request carries to the server.
pub open spec fn conditions_of(
    etag: Option<Seq<char>>,
    last_modified: Option<Seq<char>>,
) -> Seq<(Seq<char>, Seq<char>)> {
    (match etag {
        Some(v) if header_value_ok(v) => seq![("if-none-match"@, v)],
        _ => seq![],
    }) + (match last_modified {
        Some(v) if header_value_ok(v) => seq![("if-modified-since"@, v)],
        _ => seq![],
    })
}

/// The conditions that a request carries to the server, from what a kept response said
/// of its version.
pub fn conditions(etag: &Option<String>, last_modified: &Option<String>) -> (res: Vec<
    (String, String),
>)
    ensures
        pair_views(res@) == conditions_of(etag.deep_view(), last_modified.deep_view()),
{
    let mut res: Vec<(String, String)> = Vec::new();
    if let Some(v) = etag {
        if is_header_value(v.as_str()) {
            res.push(("if-none-match".to_owned(), v.clone()));
        }
    }
    let ghost first = pair_views(res@);
    assert(first =~= conditions_of(etag.deep_view(), None));
    if let Some(v) = last_modified {
        if is_header_value(v.as_str()) {
            res.push(("if-modified-since".to_owned(), v.clone()));
        }
    }
    assert(pair_views(res@) =~= conditions_of(etag.deep_view(), last_modified.deep_view()));
    res
}

/// The headers that ask the server whether a kept response is still right.
pub fn revalidation_headers(headers_json: &str) -> (res: Vec<(String, String)>)
    ensures
        pair_views(res@) == conditions_of(
            json_field_str(fields_of(headers_json@), "etag"@),
            json_field_str(fields_of(headers_json@), "last-modified"@),
        ),
{
    match parse_object(headers_json) {
        Some(object) => conditions(&field_str(&object, "etag"), &field_str(&object, "last-modified")),
        None => {
            let none: Vec<(String, String)> = Vec::new();
            assert(pair_views(none@) =~= conditions_of(None, None));
            none
        },
    }
}

/// The answer from the cache with an entry and the bytes of its file.
pub fn cached_response(entry: &CacheEntry, body: Vec<u8>) -> (res: CachedResponse)
    ensures
        res.status == entry@.status_code,
        pair_views(res.headers@) == cached_response_headers(entry@.response_headers),
        res.body@ == body@,
{
    CachedResponse {
        status: entry.status_code,
        headers: response_headers(entry.response_headers.as_str()),
        body,
    }
}

/// The host in an address, or a text in its place.
pub open spec fn host_or(uri: Seq<char>, default: Seq<char>) -> Seq<char> {
    if url_ok(uri) {
        match url_host(uri) {
            Some(h) => h,
            None => default,
        }
    } else {
        default
    }
}

/// The host in an address, or a text in its place.
pub fn host_of(uri: &str, default: &str) -> (res: String)
    ensures
        res@ == host_or(uri@, default@),
{
    match parse_url(uri) {
        Some(u) => match u.host {
            Some(h) => h,
            None => default.to_owned(),
        },
        None => default.to_owned(),
    }
}

/// The line in the log for an answer from the cache.
pub open spec fn hit_line(
    entry: EntryView,
    id: u64,
    now: i64,
    method: Seq<char>,
    uri: Seq<char>,
) -> LogView {
    LogView {
        id,
        timestamp: now,
        method,
        url: uri,
        status_code: entry.status_code,
        size: entry.file_size,
        from_cache: true,
        content_type: entry.content_type,
        host: entry.host,
        file_path: Some(entry.file_path),
    }
}

/// The line in the log for an answer from the cache.
pub fn hit_log_entry(entry: &CacheEntry, id: u64, now: i64, method: &str, uri: &str) -> (res:
    RequestLogEntry)
    ensures
        res@ == hit_line(entry@, id, now, method@, uri@),
{
    RequestLogEntry {
        id,
        timestamp: now,
        method: method.to_owned(),
        url: uri.to_owned(),
        status_code: entry.status_code,
        size: entry.file_size,
        from_cache: true,
        content_type: clone_text(&entry.content_type),
        host: entry.host.clone(),
        file_path: Some(entry.file_path.clone()),
    }
}

/// The length that a response says its body has, or zero.
pub open spec fn said_length(headers: Seq<(Seq<char>, Seq<u8>)>) -> i64 {
    match header_of(headers, "content-length"@) {
        Some(v) => match signed(v, i64::MIN as int, i64::MAX as int) {
            Some(n) => n as i64,
            None => 0,
        },
        None => 0,
    }
}

/// The line in the log for a response from the server.
pub open spec fn response_line(
    context: ContextView,
    id: u64,
    now: i64,
    status: u16,
    headers: Seq<(Seq<char>, Seq<u8>)>,
    cached_file: Option<Seq<char>>,
) -> LogView {
    LogView {
        id,
        timestamp: now,
        method: context.method,
        url: context.uri,
        status_code: status,
        size: said_length(headers),
        from_cache: false,
        content_type: header_of(headers, "content-type"@),
        host: host_or(context.uri, ""@),
        file_path: cached_file,
    }
}

/// The line in the log for a response from the server. Where its size is zero, it is
/// noted later, when the body has gone by.
pub fn response_log_entry(
    context: &RequestContext,
    id: u64,
    now: i64,
    status: u16,
    headers: &Vec<(String, Vec<u8>)>,
    cached_file: Option<String>,
) -> (res: RequestLogEntry)
    ensures
        res@ == response_line(
            context@,
            id,
            now,
            status,
            header_views(headers@),
            cached_file.deep_view(),
        ),
{
    let size: i64 = match header_text(headers, "content-length") {
        Some(v) => match parse_i64(v.as_str()) {
            Some(n) => n,
            None => 0,
        },
        None => 0,
    };
    RequestLogEntry {
        id,
        timestamp: now,
        method: context.method.clone(),
        url: context.uri.clone(),
        status_code: status,
        size,
        from_cache: false,
        content_type: header_text(headers, "content-type"),
        host: host_of(context.uri.as_str(), ""),
        file_path: cached_file,
    }
}

/// What is done with a response.
#[derive(Debug, Clone, Copy, PartialEq, Eq, Structural)]
pub enum ResponseStep {
    /// It goes to the client.
    Pass,
    /// It goes to the client, and what is kept for its address becomes stale.
    Invalidate,
    /// The kept response is still right, and goes to the client.
    ServeKept,
    /// It is a range, and is kept as a slab.
    KeepSlab,
    /// It goes to the client, and the kept response becomes stale.
    MarkStale,
    /// It goes to the client, and is kept.
    Keep,
}

/// Whether a method changes what is at an address.
pub open spec fn changes_things(method: Seq<char>) -> bool {
    method == "POST"@ || method == "PUT"@ || method == "DELETE"@ || method == "PATCH"@
}

/// Whether a status says that a request was successful.
pub open spec fn success(status: u16) -> bool {
    200 <= status < 300
}

/// Whether the headers of a successful response let it be kept: it may be stored, is
/// not too large, is not a page, and does not depend on where a request comes from.
pub open spec fn keepable(headers: Seq<(Seq<char>, Seq<u8>)>, max_entry_size: u64) -> bool {
    &&& header_of(headers, "cache-control"@) matches Some(v) ==> !has_text(v, "no-store"@)
    &&& header_of(headers, "content-length"@) matches Some(v) ==> (unsigned(
        v,
        u64::MAX as nat,
    ) matches Some(n) ==> n <= max_entry_size)
    &&& header_of(headers, "content-type"@) matches Some(v) ==> !has_text(v, "text/html"@)
    &&& header_of(headers, "vary"@) matches Some(v) ==> !has_text(lower(v), "origin"@)
    &&& header_of(headers, "access-control-allow-origin"@) matches Some(v) ==> v == "*"@
}

/// What is done with a response.
pub open spec fn response_step_of(
    context: ContextView,
    status: u16,
    headers: Seq<(Seq<char>, Seq<u8>)>,
    max_entry_size: u64,
) -> ResponseStep {
    if changes_things(context.method) && success(status) {
        ResponseStep::Invalidate
    } else if !context.should_cache {
        ResponseStep::Pass
    } else if status == 304 {
        if context.existing_entry is Some {
            ResponseStep::ServeKept
        } else {
            ResponseStep::Pass
        }
    } else if status == 206 {
        ResponseStep::KeepSlab
    } else if status == 404 || status == 410 {
        if context.existing_entry is Some {
            ResponseStep::MarkStale
        } else {
            ResponseStep::Pass
        }
    } else if success(status) && keepable(headers, max_entry_size) {
        ResponseStep::Keep
    } else {
        ResponseStep::Pass
    }
}

/// Whether the headers of a successful response let it be kept.
fn is_keepable(headers: &Vec<(String, Vec<u8>)>, max_entry_size: u64) -> (res: bool)
    ensures
        res == keepable(header_views(headers@), max_entry_size),
{
    if let Some(v) = header_text(headers, "cache-control") {
        if contains(v.as_str(), "no-store") {
            return false;
        }
    }
    if let Some(v) = header_text(headers, "content-length") {
        if let Some(n) = parse_u64(v.as_str()) {
            if n > max_entry_size {
                return false;
            }
        }
    }
    if let Some(v) = header_text(headers, "content-type") {
        if contains(v.as_str(), "text/html") {
            return false;
        }
    }
    if let Some(v) = header_text(headers, "vary") {
        if contains(to_lower(v.as_str()).as_str(), "origin") {
            return false;
        }
    }
    if let Some(v) = header_text(headers, "access-control-allow-origin") {
        if !same(v.as_str(), "*") {
            return false;
        }
    }
    true
}

/// What is done with a response.
pub fn response_step(
    context: &RequestContext,
    status: u16,
    headers: &Vec<(String, Vec<u8>)>,
    max_entry_size: u64,
) -> (res: ResponseStep)
    ensures
        res == response_step_of(context@, status, header_views(headers@), max_entry_size),
{
    let method = context.method.as_str();
    let success: bool = 200 <= status && status < 300;
    if (same(method, "POST") || same(method, "PUT") || same(method, "DELETE") || same(
        method,
        "PATCH",
    )) && success {
        ResponseStep::Invalidate
    } else if !context.should_cache {
        ResponseStep::Pass
    } else if status == 304 {
        if context.existing_entry.is_some() {
            ResponseStep::ServeKept
        } else {
            ResponseStep::Pass
        }
    } else if status == 206 {
        ResponseStep::KeepSlab
    } else if status == 404 || status == 410 {
        if context.existing_entry.is_some() {
            ResponseStep::MarkStale
        } else {
            ResponseStep::Pass
        }
    } else if success && is_keepable(headers, max_entry_size) {
        ResponseStep::Keep
    } else {
        ResponseStep::Pass
    }
}

/// The headers and the policy of a kept response after the server has said at a time
/// that it is still right.
pub fn revalidate(
    headers_json: &str,
    headers: &Vec<(String, Vec<u8>)>,
    uri: &str,
    secs: u64,
    nanos: u32,
) -> (res: (String, Vec<u8>))
    requires
        secs <= i64::MAX,
        nanos < 1_000_000_000,
    ensures
        res.0@ == json_object_text(merged(map_of(headers_json@), header_views(headers@))),
        all_strings(map_of(headers_json@)) && !map_of(headers_json@).contains_key(raw_mark())
            ==> json_object(res.0@) == Some(
            merged(map_of(headers_json@), header_views(headers@)),
        ),
        res.1@ == kept_policy(uri@, res.0@, secs, nanos),
{
    let merged = merge_304_headers(headers_json, headers);
    let policy = build_cache_policy_bytes(uri, merged.as_str(), secs, nanos);
    (merged, policy)
}

/// A response that is kept: its entry, and the bytes for its file.
#[derive(Debug)]
pub struct Stored {
    pub entry: CacheEntry,
    pub body: Vec<u8>,
}

/// The headers that are kept of a response, as text.
pub open spec fn kept_text(headers: Seq<(Seq<char>, Seq<u8>)>) -> Seq<char> {
    json_object_text(written(header_texts(headers)))
}

/// The entry for a response that is kept at a time.
pub open spec fn stored_entry(
    context: ContextView,
    status: u16,
    headers: Seq<(Seq<char>, Seq<u8>)>,
    body: Seq<u8>,
    secs: u64,
    nanos: u32,
) -> EntryView {
    let content_type = header_of(headers, "content-type"@);
    let kept = if decompressed(body, header_of(headers, "content-encoding"@)) is Some {
        stripped(kept_text(headers))
    } else {
        kept_text(headers)
    };
    EntryView {
        fingerprint: context.fingerprint,
        url: context.uri,
        method: "GET"@,
        status_code: status,
        content_type,
        content_length: Some(as_signed(body.len() as u64)),
        response_headers: kept,
        cache_policy: kept_policy(context.uri, kept, secs, nanos),
        created_at: secs as i64,
        last_accessed: secs as i64,
        expires_at: None,
        file_path: cache_path("GET"@, context.uri, content_type, None),
        file_size: as_signed(stored_body(headers, body).len() as u64),
        host: host_or(context.uri, "_unknown_"@),
        vary_key: None,
        media_type: match content_type {
            Some(c) => media_kind(mime_of(c)),
            None => None,
        },
        status: "active"@,
        stale_at: None,
    }
}

/// The bytes for the file of a response that is kept.
pub open spec fn stored_body(headers: Seq<(Seq<char>, Seq<u8>)>, body: Seq<u8>) -> Seq<u8> {
    match decompressed(body, header_of(headers, "content-encoding"@)) {
        Some(d) => d,
        None => body,
    }
}

/// The headers that are kept of a response: to each name its text.
pub open spec fn kept_texts(headers: Seq<(Seq<char>, Seq<u8>)>, body: Seq<u8>) -> Map<
    Seq<char>,
    Seq<char>,
> {
    if decompressed(body, header_of(headers, "content-encoding"@)) is Some {
        without_encoding(header_texts(headers))
    } else {
        header_texts(headers)
    }
}

/// The entry and the file for a response that is kept at a time; none if its body is
/// empty. The file holds the body without its encoding, where that is understood, and
/// nothing is then said of it in the kept headers; the size of the entry is that of the
/// file. Every header that is kept is among those that are sent with an answer from the
/// cache, unless one is named like the mark of a raw value.
pub fn store_response(
    context: &RequestContext,
    status: u16,
    headers: &Vec<(String, Vec<u8>)>,
    body: Vec<u8>,
    secs: u64,
    nanos: u32,
) -> (res: Option<Stored>)
    requires
        secs <= i64::MAX,
        nanos < 1_000_000_000,
    ensures
        match res {
            None => body@.len() == 0,
            Some(s) => body@.len() > 0 && s.entry@ == stored_entry(
                context@,
                status,
                header_views(headers@),
                body@,
                secs,
                nanos,
            ) && s.body@ == stored_body(header_views(headers@), body@),
        },
        res matches Some(s) ==> !header_texts(header_views(headers@)).contains_key(raw_mark())
            ==> forall|name: Seq<char>| #[trigger]
            kept_texts(header_views(headers@), body@).contains_key(name) && header_name_ok(name)
                && header_value_ok(kept_texts(header_views(headers@), body@)[name])
                ==> kept_headers(s.entry@.response_headers).contains(
                (name, kept_texts(header_views(headers@), body@)[name]),
            ),
{
    if body.len() == 0 {
        return None;
    }
    let uri = context.uri.as_str();
    let size: i64 = to_signed(body.len() as u64);
    let content_type = header_text(headers, "content-type");
    let type_text = match &content_type {
        Some(c) => Some(c.as_str()),
        None => None,
    };
    let encoding = header_text(headers, "content-encoding");
    let encoding_text = match &encoding {
        Some(e) => Some(e.as_str()),
        None => None,
    };
    let headers_json = extract_headers_json(headers);
    let media_type = match type_text {
        Some(c) => match classify_media_type(c) {
            Some(kind) => Some(kind.to_owned()),
            None => None,
        },
        None => None,
    };
    let file_path = url_to_cache_path("GET", uri, type_text, None);
    let host = host_of(uri, "_unknown_");
    let ghost raw = body@;
    let (file, was_decompressed) = decompress_body(body, encoding_text);
    let file_size: i64 = to_signed(file.len() as u64);
    let kept = if was_decompressed {
        strip_encoding_headers(headers_json.as_str())
    } else {
        headers_json
    };
    proof {
        let texts = header_texts(header_views(headers@));
        let all = written(texts);
        assert(all_strings(all)) by {
            assert forall|k: Seq<char>| #[trigger] all.contains_key(k) implies json_as_str(
                all[k],
            ) is Some by {
                assert(texts.contains_key(k));
                assert(json_field_str(all, k) == Some(texts[k]));
            }
        }
        let fields = if was_decompressed {
            without_encoding(all)
        } else {
            all
        };
        let sent = kept_texts(header_views(headers@), raw);
        assert(all.dom() =~= texts.dom());
        assert(!texts.contains_key(raw_mark()) ==> json_object(kept@) == Some(fields));
        assert(fields.dom().subset_of(all.dom()));
        vstd::set_lib::lemma_len_subset(fields.dom(), all.dom());
        assert forall|name: Seq<char>| !texts.contains_key(raw_mark()) && #[trigger]
            sent.contains_key(name) && header_name_ok(name) && header_value_ok(
            sent[name],
        ) implies kept_headers(kept@).contains(
            (name, sent[name]),
        ) by {
            assert(texts.contains_key(name));
            assert(json_field_str(all, name) == Some(texts[name]));
            assert(fields.contains_key(name) && fields[name] == all[name]);
            lemma_kept_is_sent(fields, name, sent[name]);
        }
    }
    let policy = build_cache_policy_bytes(uri, kept.as_str(), secs, nanos);
    let now: i64 = secs as i64;
    let entry = CacheEntry {
        fingerprint: context.fingerprint.clone(),
        url: context.uri.clone(),
        method: "GET".to_owned(),
        status_code: status,
        content_type: clone_text(&content_type),
        content_length: Some(size),
        response_headers: kept,
        cache_policy: policy,
        created_at: now,
        last_accessed: now,
        expires_at: None,
        file_path,
        file_size,
        host,
        vary_key: None,
        media_type,
        status: "active".to_owned(),
        stale_at: None,
    };
    assert(entry@ =~= stored_entry(
        context@,
        status,
        header_views(headers@),
        raw,
        secs,
        nanos,
    ));
    Some(Stored { entry, body: file })
}

/// The range in a response with a part of a resource.
pub open spec fn partial_range_of(headers: Seq<(Seq<char>, Seq<u8>)>) -> Option<ContentRange> {
    match header_of(headers, "content-range"@) {
        Some(v) => content_range(v),
        None => None,
    }
}

/// The range in a response with a part of a resource; none if it does not say which.
pub fn partial_range(headers: &Vec<(String, Vec<u8>)>) -> (res: Option<ContentRange>)
    ensures
        res == partial_range_of(header_views(headers@)),
{
    match header_text(headers, "content-range") {
        Some(v) => ContentRange::parse(v.as_str()),
        None => None,
    }
}

/// The address that a `Location` stands for, if there is one.
pub open spec fn location_url(uri: Seq<char>, location: Option<Seq<char>>) -> Seq<Seq<char>> {
    match location {
        None => seq![],
        Some(loc) => if has_prefix(loc, "http"@) {
            seq![loc]
        } else {
            match url_join(uri, loc) {
                Some(url) if url.len() > 0 => seq![url],
                _ => seq![],
            }
        },
    }
}

/// The addresses of which what is kept becomes stale after a successful change: that of
/// the request, and those that the response names.
pub open spec fn changed_urls(uri: Seq<char>, headers: Seq<(Seq<char>, Seq<u8>)>) -> Seq<Seq<char>> {
    seq![uri] + location_url(uri, header_of(headers, "location"@)) + location_url(
        uri,
        header_of(headers, "content-location"@),
    )
}

/// Adds the address that a `Location` stands for.
fn add_location(urls: &mut Vec<String>, uri: &str, location: Option<String>)
    ensures
        views(final(urls)@) == views(old(urls)@) + location_url(uri@, location.deep_view()),
{
    let ghost before = views(urls@);
    if let Some(loc) = location {
        if starts_with(loc.as_str(), "http") {
            let ghost t = loc@;
            urls.push(loc);
            assert(views(urls@) =~= before + seq![t]);
            return;
        }
        if let Some(url) = join_url(uri, loc.as_str()) {
            if !url.as_str().is_empty() {
                let ghost t = url@;
                urls.push(url);
                assert(views(urls@) =~= before + seq![t]);
                return;
            }
        }
    }
    assert(views(urls@) =~= before + seq![]);
}

/// The addresses of which what is kept becomes stale after a successful change.
pub fn urls_to_invalidate(uri: &str, headers: &Vec<(String, Vec<u8>)>) -> (res: Vec<String>)
    ensures
        views(res@) == changed_urls(uri@, header_views(headers@)),
{
    let mut urls: Vec<String> = Vec::new();
    urls.push(uri.to_owned());
    assert(views(urls@) =~= seq![uri@]);
    add_location(&mut urls, uri, header_text(headers, "location"));
    add_location(&mut urls, uri, header_text(headers, "content-location"));
    urls
}

/// Whether connections to a host are looked into: not those of hosts that only talk over
/// web sockets, of addresses without a name, and of services that insist on their own
/// certificates.
pub open spec fn intercepted(host: Seq<char>, is_address: bool) -> bool {
    &&& !has_prefix(host, "alive."@)
    &&& !has_text(host, "-realtime"@)
    &&& !has_text(host, "-ws"@)
    &&& !is_address
    &&& !has_suffix(host, ".apple.com"@)
    &&& !has_suffix(host, ".icloud.com"@)
    &&& !has_suffix(host, ".mzstatic.com"@)
    &&& !has_suffix(host, ".itunes.apple.com"@)
}

/// Whether connections to a host are looked into.
pub fn should_intercept(host: &str, is_address: bool) -> (res: bool)
    ensures
        res == intercepted(host@, is_address),
{
    !(starts_with(host, "alive.") || contains(host, "-realtime") || contains(host, "-ws"))
        && !is_address && !(ends_with(host, ".apple.com") || ends_with(host, ".icloud.com")
        || ends_with(host, ".mzstatic.com") || ends_with(host, ".itunes.apple.com"))
}

/// A range is served from a slab as the content has it.
pub proof fn law_slab_serves_content(hit: SlabHit, body: Seq<u8>, content: Seq<u8>)
    requires
        hit.slab_start <= hit.serve_start <= hit.serve_end <= hit.slab_end < content.len(),
        body == content.subrange(hit.slab_start as int, hit.slab_end + 1),
    ensures
        hit.serve_end - hit.slab_start < body.len(),
        body.subrange(
            hit.serve_start - hit.slab_start,
            hit.serve_end - hit.slab_start + 1,
        ) == content.subrange(hit.serve_start as int, hit.serve_end + 1),
{
    assert(body.subrange(
        hit.serve_start - hit.slab_start,
        hit.serve_end - hit.slab_start + 1,
    ) =~= content.subrange(hit.serve_start as int, hit.serve_end + 1));
}

/// A response that is kept is found by the same request afterwards, as it was kept.
pub proof fn law_kept_is_found(
    s: Seq<EntryView>,
    context: ContextView,
    status: u16,
    headers: Seq<(Seq<char>, Seq<u8>)>,
    body: Seq<u8>,
    secs: u64,
    nanos: u32,
)
    ensures
        served(
            inserted(s, stored_entry(context, status, headers, body, secs, nanos)),
            context.fingerprint,
        ) == Some(stored_entry(context, status, headers, body, secs, nanos)),
{
    law_inserted_is_found(s, stored_entry(context, status, headers, body, secs, nanos));
}

/// Only what came in answer to a `GET` is ever kept, as a whole or as a slab.
pub proof fn law_only_get_is_kept(
    method: Seq<char>,
    uri: Seq<char>,
    range_header: Option<Seq<char>>,
    status: u16,
    headers: Seq<(Seq<char>, Seq<u8>)>,
    max_entry_size: u64,
)
    requires
        method != "GET"@,
    ensures
        ({
            let step = response_step_of(
                context_of(method, uri, range_header),
                status,
                headers,
                max_entry_size,
            );
            step is Pass || step is Invalidate
        }),
        first_step_of(context_of(method, uri, range_header), false, false) is Forward,
{
}

/// A request that asks for the server is never answered from the cache without asking
/// it: neither is a slab looked for, nor is an entry served, however fresh.
pub proof fn law_server_is_asked(
    context: ContextView,
    bypass: bool,
    cache_control: Option<Seq<char>>,
    headers_json: Seq<char>,
    fresh: bool,
)
    requires
        asks_server(cache_control),
    ensures
        !(first_step_of(context, bypass, asks_server(cache_control)) is LookForSlab),
        !servable(headers_json, fresh, asks_server(cache_control)),
{
}

/// What a response forbids to store, or says to be larger than is kept, is not kept.
pub proof fn law_not_kept(
    context: ContextView,
    status: u16,
    headers: Seq<(Seq<char>, Seq<u8>)>,
    max_entry_size: u64,
)
    requires
        ({
            ||| header_of(headers, "cache-control"@) matches Some(v) && has_text(v, "no-store"@)
            ||| (header_of(headers, "content-length"@) matches Some(v) && (unsigned(
                v,
                u64::MAX as nat,
            ) matches Some(n) && n > max_entry_size))
            ||| !success(status)
        }),
    ensures
        !(response_step_of(context, status, headers, max_entry_size) is Keep),
{
}

/// A request that changes things makes stale what is kept for its own address, whatever
/// else the response names.
pub proof fn law_own_address_changes(uri: Seq<char>, headers: Seq<(Seq<char>, Seq<u8>)>)
    ensures
        changed_urls(uri, headers).len() > 0,
        changed_urls(uri, headers)[0] == uri,
        changed_urls(uri, headers).len() <= 3,
{
}

} // verus!
