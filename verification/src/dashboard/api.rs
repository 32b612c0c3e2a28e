//! The answers of the dashboard.
use crate::cache::entry::{clone_text, CacheEntry};
#[allow(unused_imports)]
use crate::cache::entry::{entry_views, EntryView};
use crate::cache::index::{CacheIndex, CacheStats, IndexError};
#[allow(unused_imports)]
use crate::cache::index::{
    active, all_gone_stale, asked, deleted, first, how_many, is_asked, page, recent_first, restored,
    served, too_long, with_setting,
};
use crate::number::{decimal_text, to_unsigned};
#[allow(unused_imports)]
use crate::number::{as_unsigned, decimal};
use crate::outside::mime::guess_mime;
#[allow(unused_imports)]
use crate::outside::mime::guessed_mime;
use crate::proxy::state::{ProxyState, ProxyStats, RequestLogEntry};
#[allow(unused_imports)]
use crate::proxy::state::{log_views, LogView};
use crate::size::format_bytes;
#[allow(unused_imports)]
use crate::size::human_size;
#[allow(unused_imports)]
use crate::text::pair_views;
use vstd::prelude::*;

verus! {

/// The status for a request that was carried out and has nothing to answer.
pub const NO_CONTENT: u16 = 204;

/// The status for what is not there.
pub const NOT_FOUND: u16 = 404;

/// The status for what went wrong.
pub const SERVER_ERROR: u16 = 500;

/// The most entries on a page.
pub const LONGEST_PAGE: i64 = 200;

/// The entries on a page where nothing else is said.
pub const USUAL_PAGE: i64 = 50;

/// The most entries of a kind of media that are shown.
pub const MOST_MEDIA: i64 = 500;

/// That the proxy runs.
#[derive(Debug)]
pub struct HealthResponse {
    pub status: &'static str,
}

/// That the proxy runs.
pub fn health() -> (res: HealthResponse)
    ensures
        res.status@ == "ok"@,
{
    HealthResponse { status: "ok" }
}

/// Counters, counts and sizes.
#[derive(Debug)]
pub struct StatsResponse {
    pub requests: u64,
    pub cache_hits: u64,
    pub cache_misses: u64,
    /// The bytes that were not fetched again.
    pub bandwidth_saved: u64,
    pub bandwidth_saved_human: String,
    pub bypass_enabled: bool,
    pub system_proxy_enabled: bool,
    pub active_entries: i64,
    pub stale_entries: i64,
    /// The size of the active files.
    pub active_size: i64,
    pub active_size_human: String,
    pub total_size: i64,
    pub total_size_human: String,
    pub max_cache_size: u64,
    pub max_cache_size_human: String,
    pub image_count: i64,
    pub video_count: i64,
    pub audio_count: i64,
}

/// The figures that are shown where there are none.
pub open spec fn no_stats() -> CacheStats {
    CacheStats {
        active_entries: 0,
        stale_entries: 0,
        active_size: 0,
        total_size: 0,
        image_count: 0,
        video_count: 0,
        audio_count: 0,
    }
}

/// Whether an answer shows some figures.
pub open spec fn shows(
    r: StatsResponse,
    proxy: ProxyStats,
    cache: CacheStats,
    max_cache_size: u64,
) -> bool {
    &&& r.requests == proxy.requests
    &&& r.cache_hits == proxy.cache_hits
    &&& r.cache_misses == proxy.cache_misses
    &&& r.bandwidth_saved == proxy.bytes_saved
    &&& r.bandwidth_saved_human@ == human_size(proxy.bytes_saved as int)
    &&& r.bypass_enabled == proxy.bypass_enabled
    &&& r.system_proxy_enabled == proxy.system_proxy_enabled
    &&& r.active_entries == cache.active_entries
    &&& r.stale_entries == cache.stale_entries
    &&& r.active_size == cache.active_size
    &&& r.active_size_human@ == human_size(as_unsigned(cache.active_size) as int)
    &&& r.total_size == cache.total_size
    &&& r.total_size_human@ == human_size(as_unsigned(cache.total_size) as int)
    &&& r.max_cache_size == max_cache_size
    &&& r.max_cache_size_human@ == human_size(max_cache_size as int)
    &&& r.image_count == cache.image_count
    &&& r.video_count == cache.video_count
    &&& r.audio_count == cache.audio_count
}

/// Counters, counts and sizes. Where the sizes could not be added up, all figures of the
/// cache are zero.
pub fn stats(
    proxy: &ProxyStats,
    cache: &Result<CacheStats, IndexError>,
    max_cache_size: u64,
) -> (res: StatsResponse)
    ensures
        shows(
            res,
            *proxy,
            match *cache {
                Ok(c) => c,
                Err(_) => no_stats(),
            },
            max_cache_size,
        ),
{
    let c = match cache {
        Ok(c) => *c,
        Err(_) => CacheStats {
            active_entries: 0,
            stale_entries: 0,
            active_size: 0,
            total_size: 0,
            image_count: 0,
            video_count: 0,
            audio_count: 0,
        },
    };
    StatsResponse {
        requests: proxy.requests,
        cache_hits: proxy.cache_hits,
        cache_misses: proxy.cache_misses,
        bandwidth_saved: proxy.bytes_saved,
        bandwidth_saved_human: format_bytes(proxy.bytes_saved),
        bypass_enabled: proxy.bypass_enabled,
        system_proxy_enabled: proxy.system_proxy_enabled,
        active_entries: c.active_entries,
        stale_entries: c.stale_entries,
        active_size: c.active_size,
        active_size_human: format_bytes(to_unsigned(c.active_size)),
        total_size: c.total_size,
        total_size_human: format_bytes(to_unsigned(c.total_size)),
        max_cache_size,
        max_cache_size_human: format_bytes(max_cache_size),
        image_count: c.image_count,
        video_count: c.video_count,
        audio_count: c.audio_count,
    }
}

/// Which entries are asked for.
#[derive(Debug)]
pub struct ListParams {
    pub host: Option<String>,
    pub media_type: Option<String>,
    pub status: Option<String>,
    pub q: Option<String>,
    pub offset: Option<i64>,
    pub limit: Option<i64>,
}

/// A page of entries.
#[derive(Debug)]
pub struct ListResponse {
    pub entries: Vec<EntryResponse>,
    pub total: i64,
    pub offset: i64,
    pub limit: i64,
}

/// What is shown of an entry.
#[derive(Debug)]
pub struct EntryResponse {
    pub fingerprint: String,
    pub url: String,
    pub method: String,
    pub status_code: u16,
    pub content_type: Option<String>,
    pub file_path: String,
    pub file_size: i64,
    pub host: String,
    pub media_type: Option<String>,
    pub status: String,
    pub created_at: i64,
    pub last_accessed: i64,
    pub stale_at: Option<i64>,
}

/// Whether an answer shows an entry.
pub open spec fn shows_entry(r: EntryResponse, e: EntryView) -> bool {
    &&& r.fingerprint@ == e.fingerprint
    &&& r.url@ == e.url
    &&& r.method@ == e.method
    &&& r.status_code == e.status_code
    &&& r.content_type.deep_view() == e.content_type
    &&& r.file_path@ == e.file_path
    &&& r.file_size == e.file_size
    &&& r.host@ == e.host
    &&& r.media_type.deep_view() == e.media_type
    &&& r.status@ == e.status
    &&& r.created_at == e.created_at
    &&& r.last_accessed == e.last_accessed
    &&& r.stale_at == e.stale_at
}

/// What is shown of an entry.
pub fn entry_response(e: &CacheEntry) -> (res: EntryResponse)
    ensures
        shows_entry(res, e@),
{
    EntryResponse {
        fingerprint: e.fingerprint.clone(),
        url: e.url.clone(),
        method: e.method.clone(),
        status_code: e.status_code,
        content_type: clone_text(&e.content_type),
        file_path: e.file_path.clone(),
        file_size: e.file_size,
        host: e.host.clone(),
        media_type: clone_text(&e.media_type),
        status: e.status.clone(),
        created_at: e.created_at,
        last_accessed: e.last_accessed,
        stale_at: e.stale_at,
    }
}

/// Where a page starts.
pub open spec fn offset_of(params: ListParams) -> i64 {
    match params.offset {
        Some(n) => n,
        None => 0,
    }
}

/// How many entries a page has at most.
pub open spec fn limit_of(params: ListParams) -> i64 {
    match params.limit {
        Some(n) => if n < LONGEST_PAGE {
            n
        } else {
            LONGEST_PAGE
        },
        None => USUAL_PAGE,
    }
}

/// Whether the entries that are asked for cannot be listed.
pub open spec fn cannot_list(
    s: Seq<EntryView>,
    host: Option<Seq<char>>,
    media_type: Option<Seq<char>>,
    status: Option<Seq<char>>,
    query: Option<Seq<char>>,
) -> bool {
    query matches Some(q) && too_long(q) && how_many(
        s,
        |e: EntryView| is_asked(e, host, media_type, status),
    ) > 0
}

/// A page of the entries that are asked for.
pub fn list_entries(index: &CacheIndex, params: &ListParams) -> (res: Result<ListResponse, u16>)
    requires
        index@.entries.len() <= i64::MAX,
    ensures
        ({
            let (host, media, status, q) = (
                params.host.deep_view(),
                params.media_type.deep_view(),
                params.status.deep_view(),
                params.q.deep_view(),
            );
            match res {
                Err(code) => code == SERVER_ERROR && cannot_list(
                    index@.entries,
                    host,
                    media,
                    status,
                    q,
                ),
                Ok(list) => {
                    let all = asked(index@.entries, host, media, status, q);
                    let shown = page(recent_first(all), offset_of(*params), limit_of(*params));
                    &&& !cannot_list(index@.entries, host, media, status, q)
                    &&& list.offset == offset_of(*params)
                    &&& list.limit == limit_of(*params)
                    &&& list.total == all.len()
                    &&& list.entries@.len() == shown.len()
                    &&& forall|i: int|
                        0 <= i < shown.len() ==> shows_entry(
                            #[trigger] list.entries@[i],
                            shown[i],
                        )
                },
            }
        }),
{
    let offset: i64 = match params.offset {
        Some(n) => n,
        None => 0,
    };
    let limit: i64 = match params.limit {
        Some(n) => if n < LONGEST_PAGE {
            n
        } else {
            LONGEST_PAGE
        },
        None => USUAL_PAGE,
    };
    let ghost (host, media, status) = (
        params.host.deep_view(),
        params.media_type.deep_view(),
        params.status.deep_view(),
    );
    assert(how_many(index@.entries, |e: EntryView| is_asked(e, host, media, status)) == how_many(
        index@.entries,
        |e: EntryView|
            is_asked(
                e,
                params.host.deep_view(),
                params.media_type.deep_view(),
                params.status.deep_view(),
            ),
    ));
    match index.list_entries(
        &params.host,
        &params.media_type,
        &params.status,
        &params.q,
        offset,
        limit,
    ) {
        Err(_) => Err(SERVER_ERROR),
        Ok((rows, total)) => {
            let ghost shown = entry_views(rows@);
            let mut entries: Vec<EntryResponse> = Vec::new();
            let mut i: usize = 0;
            while i < rows.len()
                invariant
                    i <= rows@.len(),
                    shown == entry_views(rows@),
                    entries@.len() == i,
                    forall|k: int|
                        0 <= k < i ==> shows_entry(#[trigger] entries@[k], shown[k]),
                decreases rows@.len() - i,
            {
                entries.push(entry_response(&rows[i]));
                i += 1;
            }
            Ok(ListResponse { entries, total, offset, limit })
        },
    }
}

/// What is shown of the entry with a fingerprint, active or stale.
pub fn get_entry(index: &CacheIndex, fingerprint: &str) -> (res: Result<EntryResponse, u16>)
    ensures
        match first(index@.entries.filter(|e: EntryView| e.fingerprint == fingerprint@)) {
            Some(e) => res matches Ok(r) && shows_entry(r, e),
            None => res matches Err(code) && code == NOT_FOUND,
        },
{
    match index.find(fingerprint) {
        Some(e) => Ok(entry_response(&e)),
        None => Err(NOT_FOUND),
    }
}

/// How something is deleted.
#[derive(Debug, Clone, Copy, PartialEq, Eq, Structural)]
pub struct DeleteParams {
    pub permanent: Option<bool>,
}

impl DeleteParams {
    /// Whether it is deleted for good.
    pub fn is_permanent(&self) -> (res: bool)
        ensures
            res == (self.permanent == Some(true)),
    {
        match self.permanent {
            Some(p) => p,
            None => false,
        }
    }
}

/// What is left to do to the file of an entry that is deleted.
#[derive(Debug)]
pub enum FileStep {
    /// Nothing: there is no such entry.
    Leave,
    /// The file is deleted.
    Delete(String),
    /// The file is renamed, and the entry becomes stale.
    Rename(String),
}

/// Deletes an entry. For good, it leaves the index, and its file is to be deleted. Else
/// it stays until its file is renamed, if it is active.
pub fn delete_entry(index: &mut CacheIndex, fingerprint: &str, params: &DeleteParams) -> (res:
    FileStep)
    requires
        old(index)@.wf(),
    ensures
        final(index)@.wf(),
        final(index)@.settings == old(index)@.settings,
        params.permanent == Some(true) ==> final(index)@.entries == deleted(
            old(index)@.entries,
            fingerprint@,
        ) && match first(
            old(index)@.entries.filter(|e: EntryView| e.fingerprint == fingerprint@),
        ) {
            Some(e) => res matches FileStep::Delete(path) && path@ == e.file_path,
            None => res is Leave,
        },
        params.permanent != Some(true) ==> final(index)@ == old(index)@ && match served(
            old(index)@.entries,
            fingerprint@,
        ) {
            Some(e) => res matches FileStep::Rename(path) && path@ == e.file_path,
            None => res is Leave,
        },
{
    if params.is_permanent() {
        match index.delete(fingerprint) {
            Some(path) => FileStep::Delete(path),
            None => FileStep::Leave,
        }
    } else {
        match index.lookup(fingerprint) {
            Some(e) => FileStep::Rename(e.file_path),
            None => FileStep::Leave,
        }
    }
}

/// Makes an entry active again. Returns the status of the answer.
pub fn restore_entry(index: &mut CacheIndex, fingerprint: &str) -> (res: u16)
    requires
        old(index)@.wf(),
    ensures
        res == NO_CONTENT,
        final(index)@.wf(),
        final(index)@.settings == old(index)@.settings,
        final(index)@.entries == restored(old(index)@.entries, fingerprint@),
{
    index.restore(fingerprint);
    NO_CONTENT
}

/// Clears the cache: all entries are deleted, or all active ones become stale. Returns
/// how many.
pub fn clear_cache(index: &mut CacheIndex, params: &DeleteParams, now: i64) -> (res: i64)
    requires
        old(index)@.wf(),
        old(index)@.entries.len() <= i64::MAX,
    ensures
        final(index)@.wf(),
        final(index)@.settings == old(index)@.settings,
        params.permanent == Some(true) ==> final(index)@.entries.len() == 0 && res == old(
            index,
        )@.entries.len(),
        params.permanent != Some(true) ==> final(index)@.entries == all_gone_stale(
            old(index)@.entries,
            |e: EntryView| active(e),
            now,
        ) && res == how_many(old(index)@.entries, |e: EntryView| active(e)),
{
    if params.is_permanent() {
        index.delete_all()
    } else {
        index.mark_all_stale(now)
    }
}

/// Turns the bypass of the cache on or off. Returns whether it is on now.
pub fn toggle_bypass(state: &mut ProxyState) -> (res: bool)
    ensures
        res == !old(state).bypass,
        *final(state) == (ProxyState { bypass: !old(state).bypass, ..*old(state) }),
{
    state.bypass = !state.bypass;
    state.bypass
}

/// Whether the system is to use the proxy.
#[derive(Debug, Clone, Copy, PartialEq, Eq, Structural)]
pub struct SystemProxyRequest {
    pub enabled: bool,
}

/// Notes whether the system uses the proxy after it has been told to or not to, or why
/// it could not be told. Returns whether it does so.
pub fn set_system_proxy(
    state: &mut ProxyState,
    request: &SystemProxyRequest,
    succeeded: bool,
) -> (res: bool)
    ensures
        res == (request.enabled == succeeded),
        *final(state) == (ProxyState {
            system_proxy_enabled: if succeeded {
                request.enabled
            } else {
                old(state).system_proxy_enabled
            },
            ..*old(state)
        }),
{
    if succeeded {
        state.system_proxy_enabled = request.enabled;
        request.enabled
    } else {
        !request.enabled
    }
}

/// New limits.
#[derive(Debug, Clone, Copy, PartialEq, Eq, Structural)]
pub struct UpdateConfigRequest {
    pub max_cache_size: Option<u64>,
    pub max_entry_size: Option<u64>,
}

/// The limits.
#[derive(Debug)]
pub struct LimitsResponse {
    pub max_cache_size: u64,
    pub max_entry_size: u64,
    pub max_cache_size_human: String,
    pub max_entry_size_human: String,
}

/// The limits of the proxy.
pub fn limits(state: &ProxyState) -> (res: LimitsResponse)
    ensures
        res.max_cache_size == state.max_cache_size,
        res.max_entry_size == state.max_entry_size,
        res.max_cache_size_human@ == human_size(state.max_cache_size as int),
        res.max_entry_size_human@ == human_size(state.max_entry_size as int),
{
    LimitsResponse {
        max_cache_size: state.max_cache_size,
        max_entry_size: state.max_entry_size,
        max_cache_size_human: format_bytes(state.max_cache_size),
        max_entry_size_human: format_bytes(state.max_entry_size),
    }
}

/// The settings after a limit has been set, if it is.
pub open spec fn limit_set(
    s: Seq<(Seq<char>, Seq<char>)>,
    key: Seq<char>,
    size: Option<u64>,
) -> Seq<(Seq<char>, Seq<char>)> {
    match size {
        Some(n) => with_setting(s, key, decimal(n as nat)),
        None => s,
    }
}

/// Sets new limits, and keeps them in the settings.
pub fn update_config(
    state: &mut ProxyState,
    index: &mut CacheIndex,
    request: &UpdateConfigRequest,
)
    requires
        old(index)@.wf(),
    ensures
        final(index)@.wf(),
        final(index)@.entries == old(index)@.entries,
        final(index)@.settings == limit_set(
            limit_set(old(index)@.settings, "max_cache_size"@, request.max_cache_size),
            "max_entry_size"@,
            request.max_entry_size,
        ),
        *final(state) == (ProxyState {
            max_cache_size: match request.max_cache_size {
                Some(n) => n,
                None => old(state).max_cache_size,
            },
            max_entry_size: match request.max_entry_size {
                Some(n) => n,
                None => old(state).max_entry_size,
            },
            ..*old(state)
        }),
{
    if let Some(n) = request.max_cache_size {
        state.max_cache_size = n;
        index.set_setting("max_cache_size", decimal_text(n).as_str());
    }
    if let Some(n) = request.max_entry_size {
        state.max_entry_size = n;
        index.set_setting("max_entry_size", decimal_text(n).as_str());
    }
}

/// The headers of the answer with a file of the cache.
pub fn cache_file_headers(path: &str) -> (res: Vec<(String, String)>)
    ensures
        pair_views(res@) == file_headers(guessed_mime(path@)),
{
    headers_for_type(guess_mime(path).as_str())
}

/// The headers of the answer with a file of a media type.
pub open spec fn file_headers(mime: Seq<char>) -> Seq<(Seq<char>, Seq<char>)> {
    seq![("content-type"@, mime), ("cache-control"@, "public, max-age=3600"@)]
}

/// The headers of the answer with a file of a media type.
pub fn headers_for_type(mime: &str) -> (res: Vec<(String, String)>)
    ensures
        pair_views(res@) == file_headers(mime@),
{
    let mut res: Vec<(String, String)> = Vec::new();
    res.push(("content-type".to_owned(), mime.to_owned()));
    res.push(("cache-control".to_owned(), "public, max-age=3600".to_owned()));
    assert(pair_views(res@) =~= file_headers(mime@));
    res
}

/// From which request on the log is asked for.
#[derive(Debug, Clone, Copy, PartialEq, Eq, Structural)]
pub struct RequestLogParams {
    pub since: Option<u64>,
}

/// The requests in the log after the one that is given, or after the first.
pub fn list_requests(state: &ProxyState, params: &RequestLogParams) -> (res: Vec<RequestLogEntry>)
    ensures
        log_views(res@) == state.log().filter(
            |e: LogView|
                e.id > match params.since {
                    Some(n) => n,
                    None => 0,
                },
        ),
{
    let since: u64 = match params.since {
        Some(n) => n,
        None => 0,
    };
    let ghost p = |e: LogView| e.id > since;
    let ghost q = |e: LogView|
        e.id > match params.since {
            Some(n) => n,
            None => 0,
        };
    proof {
        assert(p =~= q);
    }
    state.get_requests_since(since)
}

} // verus!
