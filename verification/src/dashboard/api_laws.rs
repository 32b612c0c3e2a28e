//! What holds of the answers of the dashboard.
#[allow(unused_imports)]
use crate::cache::entry::{entry_views, CacheEntry, EntryView};
#[allow(unused_imports)]
use crate::cache::index::{active, first, size_sum, CacheIndex, CacheStats, IndexError};
#[allow(unused_imports)]
use crate::cache::index_laws::{law_setting, lemma_filter_same};
#[allow(unused_imports)]
use crate::cache::index_op_laws::{lemma_first, lemma_one};
#[allow(unused_imports)]
use crate::dashboard::api::{
    cache_file_headers, clear_cache, delete_entry, entry_response, get_entry, headers_for_type,
    health, limits, list_entries, list_requests, restore_entry, set_system_proxy, stats,
    toggle_bypass, update_config, DeleteParams, EntryResponse, FileStep, HealthResponse,
    LimitsResponse, ListParams, ListResponse, RequestLogParams, StatsResponse, SystemProxyRequest,
    UpdateConfigRequest,
};
#[allow(unused_imports)]
use crate::dashboard::media::{
    group_media, hosts_of, law_groups, list_media, of_host, MediaEntry, MediaGroup,
};
#[allow(unused_imports)]
use crate::number::decimal;
#[allow(unused_imports)]
use crate::order::lemma_filter_members;
#[allow(unused_imports)]
use crate::outside::mime::guessed_mime;
#[allow(unused_imports)]
use crate::proxy::engine::persisted_limit;
#[allow(unused_imports)]
use crate::proxy::state::{log_views, ProxyState, ProxyStats, RequestLogEntry};
#[allow(unused_imports)]
use crate::size::format_bytes;
#[allow(unused_imports)]
use crate::text::pair_views;
use vstd::prelude::*;

verus! {

/// The dashboard says that it is well.
pub proof fn law_health(res: HealthResponse)
    requires
        call_ensures(health, (), res),
    ensures
        res.status@ == "ok"@,
{
}

/// The figures on the dashboard are those of the proxy and of the cache, or zero where the
/// cache has none; sizes are also shown as people read them.
pub proof fn law_shown_stats(
    proxy: &ProxyStats,
    cache: &Result<CacheStats, IndexError>,
    max_cache_size: u64,
    res: StatsResponse,
    saved: String,
    limit: String,
    active_bytes: u64,
    active_text: String,
    total_bytes: u64,
    total_text: String,
)
    requires
        call_ensures(stats, (proxy, cache, max_cache_size), res),
        call_ensures(format_bytes, (proxy.bytes_saved,), saved),
        call_ensures(format_bytes, (max_cache_size,), limit),
        call_ensures(format_bytes, (active_bytes,), active_text),
        call_ensures(format_bytes, (total_bytes,), total_text),
    ensures
        res.requests == proxy.requests,
        res.cache_hits == proxy.cache_hits,
        res.cache_misses == proxy.cache_misses,
        res.bandwidth_saved == proxy.bytes_saved,
        res.bandwidth_saved_human@ == saved@,
        res.bypass_enabled == proxy.bypass_enabled,
        res.system_proxy_enabled == proxy.system_proxy_enabled,
        res.max_cache_size == max_cache_size,
        res.max_cache_size_human@ == limit@,
        cache matches Ok(c) ==> {
            &&& res.active_entries == c.active_entries
            &&& res.stale_entries == c.stale_entries
            &&& res.active_size == c.active_size
            &&& res.total_size == c.total_size
            &&& res.image_count == c.image_count
            &&& res.video_count == c.video_count
            &&& res.audio_count == c.audio_count
        },
        cache is Err ==> {
            &&& res.active_entries == 0
            &&& res.stale_entries == 0
            &&& res.active_size == 0
            &&& res.total_size == 0
            &&& res.image_count == 0
            &&& res.video_count == 0
            &&& res.audio_count == 0
        },
        active_bytes == res.active_size ==> res.active_size_human@ == active_text@,
        total_bytes == res.total_size ==> res.total_size_human@ == total_text@,
{
}

/// Whether an answer shows an entry.
pub open spec fn is_shown(r: EntryResponse, e: EntryView) -> bool {
    &&& r.fingerprint@ == e.fingerprint
    &&& r.url@ == e.url
    &&& r.method@ == e.method
    &&& r.status_code == e.status_code
    &&& r.content_type.deep_view() == e.content_type
    &&& r.file_path@ == e.file_path
    &&& r.file_size == e.file_size
    &&& r.host@ == e.host
    &&& r.media_type.deep_view() == e.media_type
    &&& r.status@ == e.status
    &&& r.created_at == e.created_at
    &&& r.last_accessed == e.last_accessed
    &&& r.stale_at == e.stale_at
}

/// What is shown of an entry is what the entry says.
pub proof fn law_entry_response(e: &CacheEntry, res: EntryResponse)
    requires
        call_ensures(entry_response, (e,), res),
    ensures
        is_shown(res, e@),
{
}

/// A page of the list has the entries that the index gives for what is asked for: from the
/// start if no place is given, fifty if no number is, and never more than two hundred.
pub proof fn law_list_page(
    index: &CacheIndex,
    params: &ListParams,
    res: Result<ListResponse, u16>,
    offset: i64,
    limit: i64,
    rows: Result<(Vec<CacheEntry>, i64), IndexError>,
)
    requires
        call_ensures(list_entries, (index, params), res),
        offset == (match params.offset {
            Some(n) => n,
            None => 0,
        }),
        limit == (match params.limit {
            Some(n) => if n < 200 {
                n
            } else {
                200
            },
            None => 50,
        }),
        call_ensures(
            CacheIndex::list_entries,
            (
                index,
                &params.host,
                &params.media_type,
                &params.status,
                &params.q,
                offset,
                limit,
            ),
            rows,
        ),
    ensures
        res is Ok <==> rows is Ok,
        res matches Err(code) ==> code == 500,
        res matches Ok(list) ==> {
            &&& list.offset == offset
            &&& list.limit == limit
            &&& list.total == rows->Ok_0.1
            &&& list.entries@.len() == rows->Ok_0.0@.len()
            &&& forall|i: int|
                0 <= i < list.entries@.len() ==> is_shown(
                    #[trigger] list.entries@[i],
                    rows->Ok_0.0@[i]@,
                )
        },
{
    if let Ok((v, _)) = rows {
        assert(entry_views(v@).len() == v@.len());
        assert forall|i: int| 0 <= i < v@.len() implies entry_views(v@)[i] == (
        #[trigger] v@[i])@ by {}
        if let Ok(list) = res {
            assert forall|i: int| 0 <= i < list.entries@.len() implies is_shown(
                #[trigger] list.entries@[i],
                v@[i]@,
            ) by {
                assert(entry_views(v@)[i] == v@[i]@);
            }
        }
    }
}

/// An entry is shown if the index has it, and is else not found.
pub proof fn law_get_entry(
    index: &CacheIndex,
    fingerprint: &str,
    res: Result<EntryResponse, u16>,
    found: Option<CacheEntry>,
)
    requires
        call_ensures(get_entry, (index, fingerprint), res),
        call_ensures(CacheIndex::find, (index, fingerprint), found),
    ensures
        found is Some <==> res is Ok,
        found is Some ==> is_shown(res->Ok_0, found->0@),
        res matches Err(code) ==> code == 404,
{
}

/// Only what is asked to be deleted for good is deleted for good.
pub proof fn law_is_permanent(params: &DeleteParams, res: bool)
    requires
        call_ensures(DeleteParams::is_permanent, (params,), res),
    ensures
        res ==> params.permanent is Some && params.permanent->0,
        params.permanent is Some && params.permanent->0 ==> res,
{
}

/// An entry that is deleted for good is gone, whatever its status, and its file is deleted.
/// Of another deletion the index first stays as it is, and the file of an active entry is
/// renamed.
pub proof fn law_delete_entry(
    index: Ghost<&mut CacheIndex>,
    fingerprint: &str,
    params: &DeleteParams,
    res: FileStep,
    e: EntryView,
)
    requires
        call_ensures(delete_entry, (index@, fingerprint, params), res),
        (*index@)@.wf(),
    ensures
        ({
            let s = (*index@)@.entries;
            let t = (*final(index@))@.entries;
            let for_good = params.permanent is Some && params.permanent->0;
            &&& (*final(index@))@.settings == (*index@)@.settings
            &&& for_good ==> (t.contains(e) <==> s.contains(e) && e.fingerprint != fingerprint@)
            &&& for_good && s.contains(e) && e.fingerprint == fingerprint@ ==> (res matches
                FileStep::Delete(path) && path@ == e.file_path)
            &&& !for_good ==> t == s
            &&& !for_good && s.contains(e) && e.fingerprint == fingerprint@ && e.status
                == "active"@ ==> (res matches FileStep::Rename(path) && path@ == e.file_path)
            &&& !(res is Leave) ==> exists|x: EntryView| #[trigger]
                s.contains(x) && x.fingerprint == fingerprint@ && (for_good || x.status
                    == "active"@)
        }),
{
    let s = (*index@)@.entries;
    let p = |x: EntryView| x.fingerprint == fingerprint@;
    let q = |x: EntryView| x.fingerprint == fingerprint@ && active(x);
    lemma_filter_members(s, |x: EntryView| x.fingerprint != fingerprint@);
    lemma_first(s, p);
    lemma_first(s, q);
    if s.contains(e) && e.fingerprint == fingerprint@ {
        lemma_one(s, first(s.filter(p))->0, e);
        if e.status == "active"@ {
            lemma_one(s, first(s.filter(q))->0, e);
        }
    }
}

/// A restored entry is active again, the others stay, and there is nothing to show.
pub proof fn law_restore_entry(index: Ghost<&mut CacheIndex>, fingerprint: &str, res: u16, i: int)
    requires
        call_ensures(restore_entry, (index@, fingerprint), res),
        0 <= i < (*index@)@.entries.len(),
    ensures
        res == 204,
        (*final(index@))@.entries.len() == (*index@)@.entries.len(),
        (*index@)@.entries[i].fingerprint == fingerprint@ ==> (*final(index@))@.entries[i] == (
        EntryView { status: "active"@, stale_at: None, ..(*index@)@.entries[i] }),
        (*index@)@.entries[i].fingerprint != fingerprint@ ==> (*final(index@))@.entries[i]
            == (*index@)@.entries[i],
{
}

/// Clearing the cache for good leaves nothing; else all active entries become stale. It is
/// said how many there were.
pub proof fn law_clear_cache(
    index: Ghost<&mut CacheIndex>,
    params: &DeleteParams,
    now: i64,
    res: i64,
    i: int,
)
    requires
        call_ensures(clear_cache, (index@, params, now), res),
    ensures
        ({
            let s = (*index@)@.entries;
            let t = (*final(index@))@.entries;
            let for_good = params.permanent is Some && params.permanent->0;
            &&& (*final(index@))@.settings == (*index@)@.settings
            &&& for_good ==> t.len() == 0 && res == s.len()
            &&& !for_good ==> t.len() == s.len() && res == s.filter(
                |e: EntryView| e.status == "active"@,
            ).len()
            &&& !for_good && 0 <= i < s.len() && s[i].status == "active"@ ==> t[i] == (EntryView {
                status: "stale"@,
                stale_at: Some(now),
                ..s[i]
            })
            &&& !for_good && 0 <= i < s.len() && s[i].status != "active"@ ==> t[i] == s[i]
        }),
{
    lemma_filter_same(
        (*index@)@.entries,
        |e: EntryView| active(e),
        |e: EntryView| e.status == "active"@,
    );
}

/// The switch for passing the cache by is turned over, and turned over twice it is as before.
pub proof fn law_toggle_bypass(
    state: Ghost<&mut ProxyState>,
    res: bool,
    again: Ghost<&mut ProxyState>,
    res_2: bool,
)
    requires
        call_ensures(toggle_bypass, (state@,), res),
        *again@ == *final(state@),
        call_ensures(toggle_bypass, (again@,), res_2),
    ensures
        (*final(state@)).bypass == res,
        res != (*state@).bypass,
        *final(again@) == *state@,
        res_2 == (*state@).bypass,
        *final(state@) == (ProxyState { bypass: res, ..*state@ }),
{
}

/// The system proxy is as it was asked for if that succeeded, and else as it was.
pub proof fn law_set_system_proxy(
    state: Ghost<&mut ProxyState>,
    request: &SystemProxyRequest,
    succeeded: bool,
    res: bool,
)
    requires
        call_ensures(set_system_proxy, (state@, request, succeeded), res),
    ensures
        succeeded ==> res == request.enabled && *final(state@) == (ProxyState {
            system_proxy_enabled: request.enabled,
            ..*state@
        }),
        !succeeded ==> res == !request.enabled && *final(state@) == *state@,
{
}

/// The limits are shown as they are and as people read them.
pub proof fn law_limits(state: &ProxyState, res: LimitsResponse, cache: String, entry: String)
    requires
        call_ensures(limits, (state,), res),
        call_ensures(format_bytes, (state.max_cache_size,), cache),
        call_ensures(format_bytes, (state.max_entry_size,), entry),
    ensures
        res.max_cache_size == state.max_cache_size,
        res.max_entry_size == state.max_entry_size,
        res.max_cache_size_human@ == cache@,
        res.max_entry_size_human@ == entry@,
{
}

/// Limits that are given hold at once, are in the settings from then on and are read from
/// there as they were given; those that are not given, all entries and all else stay.
pub proof fn law_update_config(
    state: Ghost<&mut ProxyState>,
    index: Ghost<&mut CacheIndex>,
    request: &UpdateConfigRequest,
    before: &CacheIndex,
    after: &CacheIndex,
    old_cache: Option<String>,
    old_entry: Option<String>,
    new_cache: Option<String>,
    new_entry: Option<String>,
    default: u64,
    cache_limit: u64,
    entry_limit: u64,
)
    requires
        call_ensures(update_config, (state@, index@, request), ()),
        before@ == (*index@)@,
        after@ == (*final(index@))@,
        call_ensures(CacheIndex::get_setting, (before, "max_cache_size"), old_cache),
        call_ensures(CacheIndex::get_setting, (before, "max_entry_size"), old_entry),
        call_ensures(CacheIndex::get_setting, (after, "max_cache_size"), new_cache),
        call_ensures(CacheIndex::get_setting, (after, "max_entry_size"), new_entry),
        call_ensures(persisted_limit, (&new_cache, default), cache_limit),
        call_ensures(persisted_limit, (&new_entry, default), entry_limit),
    ensures
        after@.entries == before@.entries,
        request.max_cache_size matches Some(n) ==> (*final(state@)).max_cache_size == n
            && cache_limit == n,
        request.max_cache_size is None ==> (*final(state@)).max_cache_size
            == (*state@).max_cache_size && new_cache.deep_view() == old_cache.deep_view(),
        request.max_entry_size matches Some(n) ==> (*final(state@)).max_entry_size == n
            && entry_limit == n,
        request.max_entry_size is None ==> (*final(state@)).max_entry_size
            == (*state@).max_entry_size && new_entry.deep_view() == old_entry.deep_view(),
        *final(state@) == (ProxyState {
            max_cache_size: (*final(state@)).max_cache_size,
            max_entry_size: (*final(state@)).max_entry_size,
            ..*state@
        }),
{
    let s = before@.settings;
    let (a, b) = ("max_cache_size"@, "max_entry_size"@);
    assert(a != b) by {
        reveal_strlit("max_cache_size");
        reveal_strlit("max_entry_size");
        assert(a[4] == 'c' && b[4] == 'e');
    }
    let t = crate::dashboard::api::limit_set(s, a, request.max_cache_size);
    if let Some(n) = request.max_cache_size {
        law_setting(s, a, decimal(n as nat), a);
        law_setting(s, a, decimal(n as nat), b);
        crate::number::lemma_decimal_unsigned(n as nat, u64::MAX as nat);
    }
    if let Some(n) = request.max_entry_size {
        law_setting(t, b, decimal(n as nat), a);
        law_setting(t, b, decimal(n as nat), b);
        crate::number::lemma_decimal_unsigned(n as nat, u64::MAX as nat);
    }
}

/// A file of the cache is shown with its type, and may be kept for an hour.
pub proof fn law_file_headers(
    path: &str,
    mime: &str,
    by_path: Vec<(String, String)>,
    by_type: Vec<(String, String)>,
)
    requires
        call_ensures(cache_file_headers, (path,), by_path),
        call_ensures(headers_for_type, (mime,), by_type),
    ensures
        pair_views(by_type@) == seq![
            ("content-type"@, mime@),
            ("cache-control"@, "public, max-age=3600"@),
        ],
        guessed_mime(path@) == mime@ ==> pair_views(by_path@) == pair_views(by_type@),
{
}

/// The requests that are listed are those since the one that is named, or since the first.
pub proof fn law_list_requests(
    state: &ProxyState,
    params: &RequestLogParams,
    res: Vec<RequestLogEntry>,
    since: u64,
    logged: Vec<RequestLogEntry>,
)
    requires
        call_ensures(list_requests, (state, params), res),
        since == (match params.since {
            Some(n) => n,
            None => 0,
        }),
        call_ensures(ProxyState::get_requests_since, (state, since), logged),
    ensures
        log_views(res@) == log_views(logged@),
{
    let s = state.log();
    lemma_same_log(
        s,
        |e: crate::proxy::state::LogView|
            e.id > match params.since {
                Some(n) => n,
                None => 0,
            },
        |e: crate::proxy::state::LogView| e.id > since,
    );
}

/// Lines with the same property are the same.
proof fn lemma_same_log(
    s: Seq<crate::proxy::state::LogView>,
    p: spec_fn(crate::proxy::state::LogView) -> bool,
    q: spec_fn(crate::proxy::state::LogView) -> bool,
)
    requires
        forall|e: crate::proxy::state::LogView| #[trigger] p(e) == q(e),
    ensures
        s.filter(p) == s.filter(q),
    decreases s.len(),
{
    reveal(Seq::filter);
    if s.len() > 0 {
        lemma_same_log(s.drop_last(), p, q);
        assert(p(s.last()) == q(s.last()));
    }
}

/// Whether media show an entry, with the address of its file.
pub open spec fn media_shown(m: MediaEntry, e: EntryView) -> bool {
    &&& m.fingerprint@ == e.fingerprint
    &&& m.url@ == e.url
    &&& m.content_type.deep_view() == e.content_type
    &&& m.media_type.deep_view() == e.media_type
    &&& m.file_path@ == e.file_path
    &&& m.file_size == e.file_size
    &&& m.thumbnail_url@ == "/api/cache/file/"@ + e.file_path
}

/// Whether a group shows the media of a host, all of them and in their order, and their size.
pub open spec fn group_shown(g: MediaGroup, rows: Seq<EntryView>) -> bool {
    let own = rows.filter(|e: EntryView| e.host == g.host@);
    &&& g.entries@.len() == own.len()
    &&& own.len() > 0
    &&& forall|i: int|
        0 <= i < g.entries@.len() ==> media_shown(#[trigger] g.entries@[i], own[i])
    &&& (forall|e: EntryView| #[trigger] rows.contains(e) ==> e.file_size >= 0)
        ==> g.total_size == crate::cache::eviction_laws::weight(own)
}

/// Whether a host is that of a group.
pub open spec fn has_group(groups: Seq<MediaGroup>, host: Seq<char>) -> bool {
    exists|k: int| 0 <= k < groups.len() && (#[trigger] groups[k]).host@ == host
}

/// Media are grouped by host: every one is in the group of its host, and each host has one
/// group.
pub proof fn law_group_media(rows: &Vec<CacheEntry>, groups: Vec<MediaGroup>)
    requires
        call_ensures(group_media, (rows,), Some(groups)),
    ensures
        forall|i: int| 0 <= i < rows@.len() ==> has_group(groups@, (#[trigger] rows@[i]).host@),
        forall|k: int| 0 <= k < groups@.len() ==> group_shown(
            #[trigger] groups@[k],
            entry_views(rows@),
        ),
        forall|k: int, l: int|
            0 <= k < l < groups@.len() ==> (#[trigger] groups@[k]).host@ != (
            #[trigger] groups@[l]).host@,
{
    let s = entry_views(rows@);
    let hosts = hosts_of(s);
    assert(s.len() == rows@.len());
    assert forall|i: int| 0 <= i < rows@.len() implies has_group(
        groups@,
        (#[trigger] rows@[i]).host@,
    ) by {
        assert(s[i] == rows@[i]@);
        law_groups(s, i);
        let k = choose|k: int| 0 <= k < hosts.len() && hosts[k] == s[i].host;
        assert(groups@[k].host@ == hosts[k]);
    }
    assert forall|k: int| 0 <= k < groups@.len() implies group_shown(#[trigger] groups@[k], s) by {
        lemma_host_has_one(s, k);
        let g = groups@[k];
        let own = of_host(s, hosts[k]);
        lemma_filter_same(
            s,
            |e: EntryView| e.host == hosts[k],
            |e: EntryView| e.host == g.host@,
        );
        lemma_filter_members(s, |e: EntryView| e.host == hosts[k]);
        if forall|e: EntryView| #[trigger] s.contains(e) ==> e.file_size >= 0 {
            assert forall|e: EntryView| #[trigger] own.contains(e) implies e.file_size >= 0 by {
                assert(s.contains(e));
            }
            lemma_sum_is_weight(own);
        }
    }
    assert forall|k: int, l: int| 0 <= k < l < groups@.len() implies (#[trigger] groups@[k]).host@
        != (#[trigger] groups@[l]).host@ by {
        if s.len() > 0 {
            law_groups(s, 0);
        }
        assert(hosts[k] != hosts[l]);
    }
}

/// Media can be grouped if their sizes can be counted.
pub proof fn law_media_can_be_grouped(rows: &Vec<CacheEntry>, res: Option<Vec<MediaGroup>>)
    requires
        call_ensures(group_media, (rows,), res),
        forall|e: EntryView| #[trigger] entry_views(rows@).contains(e) ==> e.file_size >= 0,
        crate::cache::eviction_laws::weight(entry_views(rows@)) <= i64::MAX,
    ensures
        res is Some,
{
    let s = entry_views(rows@);
    let hosts = hosts_of(s);
    assert forall|i: int| 0 <= i < hosts.len() implies size_sum(
        of_host(s, #[trigger] hosts[i]),
    ) is Some by {
        let p = |e: EntryView| e.host == hosts[i];
        crate::cache::eviction_laws::lemma_weight_filter(s, p);
        lemma_filter_members(s, p);
        assert forall|e: EntryView| #[trigger] s.filter(p).contains(e) implies e.file_size >= 0 by {
            assert(s.contains(e));
        }
        crate::cache::eviction_laws::lemma_countable(s.filter(p));
        assert(of_host(s, hosts[i]) == s.filter(p));
    }
}

/// A sum of sizes that can be counted is their weight.
proof fn lemma_sum_is_weight(s: Seq<EntryView>)
    requires
        size_sum(s) is Some,
        forall|e: EntryView| #[trigger] s.contains(e) ==> e.file_size >= 0,
    ensures
        size_sum(s)->0 == crate::cache::eviction_laws::weight(s),
    decreases s.len(),
{
    if s.len() > 0 {
        let t = s.drop_last();
        assert(s.contains(s.last()));
        assert forall|e: EntryView| #[trigger] t.contains(e) implies e.file_size >= 0 by {
            let k = choose|k: int| 0 <= k < t.len() && t[k] == e;
            assert(s[k] == e);
            assert(s.contains(e));
        }
        lemma_sum_is_weight(t);
    }
}

/// A host that is listed has an entry.
proof fn lemma_host_has_one(s: Seq<EntryView>, k: int)
    requires
        0 <= k < hosts_of(s).len(),
    ensures
        of_host(s, hosts_of(s)[k]).len() > 0,
    decreases s.len(),
{
    let t = s.drop_last();
    let h = hosts_of(s)[k];
    let p = |e: EntryView| e.host == h;
    if k < hosts_of(t).len() {
        lemma_host_has_one(t, k);
        assert(hosts_of(t)[k] == h);
        let own = t.filter(p);
        lemma_filter_members(t, p);
        lemma_filter_members(s, p);
        assert(own.contains(own[0]));
        let i = choose|i: int| 0 <= i < t.len() && t[i] == own[0];
        assert(s[i] == own[0]);
        assert(s.contains(own[0]));
        assert(s.filter(p).contains(own[0]));
    } else {
        lemma_filter_members(s, p);
        assert(s.last().host == h);
        assert(s[s.len() - 1] == s.last());
        assert(s.contains(s.last()));
        assert(s.filter(p).contains(s.last()));
    }
}

/// The media that are listed are those of the active entries of the kind that is asked for,
/// images if none is, and at most five hundred.
pub proof fn law_list_media(
    index: &CacheIndex,
    params: &ListParams,
    res: Result<Vec<MediaGroup>, u16>,
    kind: &Option<String>,
    status: &Option<String>,
    rows: Result<(Vec<CacheEntry>, i64), IndexError>,
    groups: Option<Vec<MediaGroup>>,
    k: int,
)
    requires
        call_ensures(list_media, (index, params), res),
        kind.deep_view() == Some(
            match params.media_type {
                Some(m) => m@,
                None => "image"@,
            },
        ),
        status.deep_view() == Some("active"@),
        call_ensures(
            CacheIndex::list_entries,
            (index, &params.host, kind, status, &params.q, 0i64, 500i64),
            rows,
        ),
        match rows {
            Ok((v, _)) => call_ensures(group_media, (&v,), groups),
            Err(_) => groups is None,
        },
    ensures
        res is Ok <==> groups is Some,
        res matches Err(code) ==> code == 500,
        res is Ok ==> res->Ok_0@.len() == groups->0@.len(),
        res is Ok && 0 <= k < groups->0@.len() ==> {
            &&& res->Ok_0@[k].host@ == groups->0@[k].host@
            &&& res->Ok_0@[k].total_size == groups->0@[k].total_size
            &&& res->Ok_0@[k].entries@.len() == groups->0@[k].entries@.len()
            &&& forall|i: int|
                0 <= i < res->Ok_0@[k].entries@.len() ==> (
                #[trigger] res->Ok_0@[k].entries@[i]).fingerprint@
                    == groups->0@[k].entries@[i].fingerprint@
        },
{
    if let Ok(list) = res {
        if let Some(g) = groups {
            if 0 <= k < g@.len() {
                let (x, y) = (list@[k], g@[k]);
                assert(x.host@ == y.host@);
                assert forall|i: int| 0 <= i < x.entries@.len() implies (
                #[trigger] x.entries@[i]).fingerprint@ == y.entries@[i].fingerprint@ by {
                    assert(crate::dashboard::media::shows_media(
                        y.entries@[i],
                        of_host(
                            crate::dashboard::media::shown_media(index@.entries, *params),
                            x.host@,
                        )[i],
                    ));
                }
            }
        }
    }
}

} // verus!
