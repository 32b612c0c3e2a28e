//! What holds of the figures and the log of the proxy, and of the steps of an exchange.
#[allow(unused_imports)]
use crate::cache::entry::CacheEntry;
#[allow(unused_imports)]
use crate::cache::range::SlabHit;
#[allow(unused_imports)]
use crate::order::lemma_filter_members;
#[allow(unused_imports)]
use crate::proxy::exchange::{
    entry_is_right, entry_was_found, entry_was_served, next_action, request_came, response_came,
    right_entry_was_served, server_is_asked, slab_was_read, RequestAction, RequestEvent,
};
#[allow(unused_imports)]
use crate::proxy::handler::{
    first_step, hit_log_entry, request_context, response_log_entry, revalidation_headers,
    serves_fresh, slab_response, CachedResponse, ContextView, RequestContext, RequestStep,
};
#[allow(unused_imports)]
use crate::proxy::state::{
    last_with_id, log_views, LogView, ProxyState, ProxyStats, RequestLogEntry,
};
#[allow(unused_imports)]
use crate::text::pair_views;
use vstd::prelude::*;

verus! {

/// Whether a counter has gone on by a number, from the largest to zero.
pub open spec fn goes_on(before: u64, by: int, after: u64) -> bool {
    after == before + by || after + 0x1_0000_0000_0000_0000 == before + by
}

/// Whether nothing changed but the log and the number of its next line.
pub open spec fn only_log(before: ProxyState, after: ProxyState) -> bool {
    &&& after.bypass == before.bypass
    &&& after.max_cache_size == before.max_cache_size
    &&& after.max_entry_size == before.max_entry_size
    &&& after.serve_stale_on_error == before.serve_stale_on_error
    &&& after.system_proxy_enabled == before.system_proxy_enabled
    &&& after.proxy_port == before.proxy_port
    &&& after.requests == before.requests
    &&& after.cache_hits == before.cache_hits
    &&& after.cache_misses == before.cache_misses
    &&& after.bytes_saved == before.bytes_saved
}

/// Whether a line came last in a log, which has at most two thousand: the oldest went if
/// there were as many.
pub open spec fn came_last(
    before: Seq<RequestLogEntry>,
    line: LogView,
    after: Seq<RequestLogEntry>,
) -> bool {
    &&& after.len() > 0 && after.last()@ == line
    &&& before.len() < 2000 ==> after.len() == before.len() + 1
    &&& before.len() >= 2000 ==> after.len() == 2000
    &&& forall|k: int|
        1 <= k < after.len() ==> (#[trigger] after[after.len() - 1 - k])@ == before[before.len() - k]@
}

/// Whether of a log exactly the last line with a number changed, as is said, if there is
/// one.
pub open spec fn last_changed(
    before: Seq<RequestLogEntry>,
    id: u64,
    change: spec_fn(LogView) -> LogView,
    after: Seq<RequestLogEntry>,
) -> bool {
    &&& after.len() == before.len()
    &&& forall|i: int|
        0 <= i < before.len() ==> (#[trigger] after[i])@ == (if before[i]@.id == id && (forall|j: int|
            i < j < before.len() ==> (#[trigger] before[j])@.id != id) {
            change(before[i]@)
        } else {
            before[i]@
        })
}

/// The views of a log are those of its lines.
proof fn lemma_lines(s: Seq<RequestLogEntry>)
    ensures
        log_views(s).len() == s.len(),
        forall|i: int| 0 <= i < s.len() ==> log_views(s)[i] == (#[trigger] s[i])@,
{
}

/// The last line with a number.
proof fn lemma_last(s: Seq<LogView>, id: u64)
    ensures
        match last_with_id(s, id) {
            Some(i) => 0 <= i < s.len() && s[i].id == id && forall|j: int|
                i < j < s.len() ==> (#[trigger] s[j]).id != id,
            None => forall|j: int| 0 <= j < s.len() ==> (#[trigger] s[j]).id != id,
        },
    decreases s.len(),
{
    if s.len() > 0 {
        lemma_last(s.drop_last(), id);
        let t = s.drop_last();
        assert forall|j: int| 0 <= j < t.len() implies (#[trigger] s[j]) == t[j] by {}
    }
}

/// A new proxy has its settings, and nothing counted or logged.
pub proof fn law_new_state(
    max_cache_size: u64,
    max_entry_size: u64,
    serve_stale_on_error: bool,
    system_proxy_enabled: bool,
    proxy_port: u16,
    res: ProxyState,
)
    requires
        call_ensures(
            ProxyState::new,
            (max_cache_size, max_entry_size, serve_stale_on_error, system_proxy_enabled, proxy_port),
            res,
        ),
    ensures
        !res.bypass,
        res.max_cache_size == max_cache_size,
        res.max_entry_size == max_entry_size,
        res.serve_stale_on_error == serve_stale_on_error,
        res.system_proxy_enabled == system_proxy_enabled,
        res.proxy_port == proxy_port,
        res.requests == 0,
        res.cache_hits == 0,
        res.cache_misses == 0,
        res.bytes_saved == 0,
        res.request_log@.len() == 0,
        res.request_log_counter == 0,
{
    lemma_lines(res.request_log@);
}

/// A request, a hit with its bytes, and a miss are each counted once, and nothing else
/// changes.
pub proof fn law_counters(
    request: Ghost<&mut ProxyState>,
    hit: Ghost<&mut ProxyState>,
    bytes: u64,
    miss: Ghost<&mut ProxyState>,
)
    requires
        call_ensures(ProxyState::count_request, (request@,), ()),
        call_ensures(ProxyState::count_hit, (hit@, bytes), ()),
        call_ensures(ProxyState::count_miss, (miss@,), ()),
    ensures
        goes_on((*request@).requests, 1, (*final(request@)).requests),
        *final(request@) == (ProxyState {
            requests: (*final(request@)).requests,
            ..*request@
        }),
        goes_on((*hit@).cache_hits, 1, (*final(hit@)).cache_hits),
        goes_on((*hit@).bytes_saved, bytes as int, (*final(hit@)).bytes_saved),
        *final(hit@) == (ProxyState {
            cache_hits: (*final(hit@)).cache_hits,
            bytes_saved: (*final(hit@)).bytes_saved,
            ..*hit@
        }),
        goes_on((*miss@).cache_misses, 1, (*final(miss@)).cache_misses),
        *final(miss@) == (ProxyState { cache_misses: (*final(miss@)).cache_misses, ..*miss@ }),
{
}

/// The lines of the log are numbered one after another.
pub proof fn law_next_log_id(state: Ghost<&mut ProxyState>, res: u64)
    requires
        call_ensures(ProxyState::next_log_id, (state@,), res),
    ensures
        res == (*state@).request_log_counter,
        goes_on(res, 1, (*final(state@)).request_log_counter),
        *final(state@) == (ProxyState {
            request_log_counter: (*final(state@)).request_log_counter,
            ..*state@
        }),
{
}

/// What is logged comes last, and the log has at most two thousand lines.
pub proof fn law_log_request(state: Ghost<&mut ProxyState>, entry: RequestLogEntry)
    requires
        call_ensures(ProxyState::log_request, (state@, entry), ()),
    ensures
        came_last((*state@).request_log@, entry@, (*final(state@)).request_log@),
        only_log(*state@, *final(state@)),
        (*final(state@)).request_log_counter == (*state@).request_log_counter,
{
    lemma_lines((*state@).request_log@);
    lemma_lines((*final(state@)).request_log@);
    let b = (*state@).request_log@;
    let a = (*final(state@)).request_log@;
    assert(log_views(a).last() == entry@);
    assert forall|k: int| 1 <= k < a.len() implies (#[trigger] a[a.len() - 1 - k])@ == b[b.len()
        - k]@ by {
        assert(log_views(a)[a.len() - 1 - k] == log_views(b)[b.len() - k]);
    }
}

/// The size of a request that was logged can be given later; so can it that it was answered
/// from the cache, with its size, status and file. Nothing else in the log changes.
pub proof fn law_later_in_log(
    sized: Ghost<&mut ProxyState>,
    hit: Ghost<&mut ProxyState>,
    id: u64,
    size: i64,
    status_code: u16,
    file_path: Option<String>,
)
    requires
        call_ensures(ProxyState::update_request_size, (sized@, id, size), ()),
        call_ensures(
            ProxyState::update_request_cache_hit,
            (hit@, id, size, status_code, file_path),
            (),
        ),
    ensures
        last_changed(
            (*sized@).request_log@,
            id,
            |e: LogView| (LogView { size, ..e }),
            (*final(sized@)).request_log@,
        ),
        only_log(*sized@, *final(sized@)),
        (*final(sized@)).request_log_counter == (*sized@).request_log_counter,
        last_changed(
            (*hit@).request_log@,
            id,
            |e: LogView|
                (LogView {
                    from_cache: true,
                    size,
                    status_code,
                    file_path: file_path.deep_view(),
                    ..e
                }),
            (*final(hit@)).request_log@,
        ),
        only_log(*hit@, *final(hit@)),
        (*final(hit@)).request_log_counter == (*hit@).request_log_counter,
{
    lemma_last_changed(
        (*sized@).request_log@,
        id,
        |e: LogView| (LogView { size, ..e }),
        (*final(sized@)).request_log@,
    );
    lemma_last_changed(
        (*hit@).request_log@,
        id,
        |e: LogView|
            (LogView { from_cache: true, size, status_code, file_path: file_path.deep_view(), ..e }),
        (*final(hit@)).request_log@,
    );
}

/// A change of the last line with a number.
proof fn lemma_last_changed(
    before: Seq<RequestLogEntry>,
    id: u64,
    change: spec_fn(LogView) -> LogView,
    after: Seq<RequestLogEntry>,
)
    requires
        log_views(after) == match last_with_id(log_views(before), id) {
            Some(i) => log_views(before).update(i, change(log_views(before)[i])),
            None => log_views(before),
        },
    ensures
        last_changed(before, id, change, after),
{
    lemma_lines(before);
    lemma_lines(after);
    let b = log_views(before);
    lemma_last(b, id);
    assert forall|i: int| 0 <= i < before.len() implies (#[trigger] after[i])@ == (if before[i]@.id
        == id && (forall|j: int| i < j < before.len() ==> (#[trigger] before[j])@.id != id) {
        change(before[i]@)
    } else {
        before[i]@
    }) by {
        assert(log_views(after)[i] == after[i]@);
        assert(b[i] == before[i]@);
        if let Some(l) = last_with_id(b, id) {
            assert(before[l]@.id == id);
            if i == l {
                assert forall|j: int| i < j < before.len() implies (#[trigger] before[j])@.id
                    != id by {
                    assert(b[j].id != id);
                }
            } else if i > l {
                assert(b[i].id != id);
            }
        } else {
            assert(b[i].id != id);
        }
    }
}

/// What was logged since a line are all later ones, in their order.
pub proof fn law_requests_since(state: &ProxyState, since_id: u64, res: Vec<RequestLogEntry>)
    requires
        call_ensures(ProxyState::get_requests_since, (state, since_id), res),
    ensures
        forall|e: LogView| #[trigger]
            log_views(res@).contains(e) <==> log_views(state.request_log@).contains(e) && e.id
                > since_id,
        (forall|k: int|
            0 <= k < state.request_log@.len() ==> (#[trigger] state.request_log@[k])@.id
                > since_id) ==> log_views(res@) == log_views(state.request_log@),
{
    let s = log_views(state.request_log@);
    lemma_filter_members(s, |e: LogView| e.id > since_id);
    lemma_lines(state.request_log@);
    if forall|k: int|
        0 <= k < state.request_log@.len() ==> (#[trigger] state.request_log@[k])@.id > since_id {
        assert forall|k: int| 0 <= k < s.len() implies (#[trigger] s[k]).id > since_id by {
            assert(state.request_log@[k]@.id > since_id);
        }
        lemma_all_kept(s, |e: LogView| e.id > since_id);
    }
}

/// Nothing goes if all have a property.
proof fn lemma_all_kept(s: Seq<LogView>, p: spec_fn(LogView) -> bool)
    requires
        forall|k: int| 0 <= k < s.len() ==> p(#[trigger] s[k]),
    ensures
        s.filter(p) == s,
    decreases s.len(),
{
    reveal(Seq::filter);
    if s.len() > 0 {
        let t = s.drop_last();
        assert forall|k: int| 0 <= k < t.len() implies p(#[trigger] t[k]) by {
            assert(p(s[k]));
        }
        lemma_all_kept(t, p);
        assert(p(s[s.len() - 1]));
        assert(t.push(s.last()) =~= s);
    }
}

/// The figures are those that were counted, and the switches as they stand.
pub proof fn law_stats(state: &ProxyState, res: ProxyStats)
    requires
        call_ensures(ProxyState::stats, (state,), res),
    ensures
        res.requests == state.requests,
        res.cache_hits == state.cache_hits,
        res.cache_misses == state.cache_misses,
        res.bytes_saved == state.bytes_saved,
        res.bypass_enabled == state.bypass,
        res.system_proxy_enabled == state.system_proxy_enabled,
{
}

/// A request that comes is counted, and its context is what is known of it.
pub proof fn law_request_came(
    state: Ghost<&mut ProxyState>,
    method: &str,
    uri: &str,
    range_header: Option<&str>,
    res: RequestContext,
    context: RequestContext,
)
    requires
        call_ensures(request_came, (state@, method, uri, range_header), res),
        call_ensures(request_context, (method, uri, range_header), context),
    ensures
        res@ == context@,
        goes_on((*state@).requests, 1, (*final(state@)).requests),
        *final(state@) == (ProxyState { requests: (*final(state@)).requests, ..*state@ }),
{
}

/// Whether an answer with some bytes from the cache was counted, and nothing else.
pub open spec fn hit_counted(before: ProxyState, bytes: int, after: ProxyState) -> bool {
    &&& goes_on(before.cache_hits, 1, after.cache_hits)
    &&& goes_on(before.bytes_saved, bytes, after.bytes_saved)
    &&& after == (ProxyState {
        cache_hits: after.cache_hits,
        bytes_saved: after.bytes_saved,
        ..before
    })
}

/// A request that came goes the way of its first step, and nothing is counted yet.
pub proof fn law_action_came(
    state: Ghost<&mut ProxyState>,
    context: Ghost<&mut RequestContext>,
    no_cache: bool,
    res: RequestAction,
    before: &RequestContext,
    step: RequestStep,
)
    requires
        call_ensures(next_action, (state@, context@, no_cache, RequestEvent::Came), res),
        before@ == (*context@)@,
        call_ensures(first_step, (before, (*state@).bypass, no_cache), step),
    ensures
        *final(state@) == *state@,
        (*final(context@))@ == (*context@)@,
        step is Forward ==> (res matches RequestAction::Forward(h) && h@.len() == 0),
        step is LookForSlab <==> res is LookForSlab,
        step is LookForEntry <==> res is LookForEntry,
{
}

/// Without a slab an entry is looked for, and without an entry the request goes to the
/// server and a miss is counted.
pub proof fn law_action_missing(
    state: Ghost<&mut ProxyState>,
    context: Ghost<&mut RequestContext>,
    no_cache: bool,
    res: RequestAction,
    state_2: Ghost<&mut ProxyState>,
    context_2: Ghost<&mut RequestContext>,
    res_2: RequestAction,
)
    requires
        call_ensures(next_action, (state@, context@, no_cache, RequestEvent::SlabMissing), res),
        call_ensures(
            next_action,
            (state_2@, context_2@, no_cache, RequestEvent::EntryMissing),
            res_2,
        ),
    ensures
        *final(state@) == *state@,
        (*final(context@))@ == (*context@)@,
        res is LookForEntry,
        goes_on((*state_2@).cache_misses, 1, (*final(state_2@)).cache_misses),
        *final(state_2@) == (ProxyState {
            cache_misses: (*final(state_2@)).cache_misses,
            ..*state_2@
        }),
        (*final(context_2@))@ == (*context_2@)@,
        res_2 matches RequestAction::Forward(h) && h@.len() == 0,
{
}

/// A slab whose file has the whole range answers the request with the bytes of the content
/// that were asked for, and they are counted; with a shorter file an entry is looked for.
pub proof fn law_action_slab(
    state: Ghost<&mut ProxyState>,
    context: Ghost<&mut RequestContext>,
    no_cache: bool,
    hit: SlabHit,
    body: Vec<u8>,
    content: Seq<u8>,
    res: RequestAction,
    response: Option<CachedResponse>,
)
    requires
        call_ensures(
            next_action,
            (state@, context@, no_cache, (RequestEvent::SlabRead { hit, body })),
            res,
        ),
        hit.slab_start <= hit.serve_start <= hit.serve_end <= hit.slab_end < content.len(),
        hit.serve_end - hit.serve_start < u64::MAX,
        body@.is_prefix_of(content.subrange(hit.slab_start as int, hit.slab_end + 1)),
        call_ensures(slab_response, (&hit, &body), response),
    ensures
        (*final(context@))@ == (*context@)@,
        hit.serve_end - hit.slab_start < body@.len() ==> {
            &&& res is AnswerRange && response is Some
            &&& res->AnswerRange_0.body@ == content.subrange(
                hit.serve_start as int,
                hit.serve_end + 1,
            )
            &&& res->AnswerRange_0.status == response->0.status
            &&& pair_views(res->AnswerRange_0.headers@) == pair_views(response->0.headers@)
            &&& hit_counted(*state@, hit.serve_end - hit.serve_start + 1, *final(state@))
        },
        hit.serve_end - hit.slab_start >= body@.len() ==> res is LookForEntry && *final(state@)
            == *state@,
{
    if hit.serve_end - hit.slab_start < body@.len() {
        assert(body@.subrange(
            hit.serve_start - hit.slab_start,
            hit.serve_end - hit.slab_start + 1,
        ) =~= content.subrange(hit.serve_start as int, hit.serve_end + 1));
    }
}

/// An entry that was found and may be served is read, and counted with the size of its file.
/// Another goes along to the server as a question, with nothing counted.
pub proof fn law_action_found(
    state: Ghost<&mut ProxyState>,
    context: Ghost<&mut RequestContext>,
    no_cache: bool,
    entry: CacheEntry,
    secs: u64,
    nanos: u32,
    res: RequestAction,
    served: bool,
    headers_json: &str,
    asked: Vec<(String, String)>,
)
    requires
        call_ensures(
            next_action,
            (state@, context@, no_cache, (RequestEvent::EntryFound { entry, secs, nanos })),
            res,
        ),
        call_ensures(serves_fresh, (&entry, no_cache, secs, nanos), served),
        headers_json@ == entry.response_headers@,
        call_ensures(revalidation_headers, (headers_json,), asked),
    ensures
        served ==> res == RequestAction::ReadEntry(entry) && (*final(context@))@ == (*context@)@,
        served && entry.file_size >= 0 ==> hit_counted(
            *state@,
            entry.file_size as int,
            *final(state@),
        ),
        !served ==> *final(state@) == *state@ && (*final(context@))@ == (ContextView {
            existing_entry: Some(entry@),
            ..(*context@)@
        }) && (res matches RequestAction::Forward(h) && pair_views(h@) == pair_views(asked@)),
{
}

/// An entry that was read answers the request, with a line in the log. One that cannot be
/// read goes along to the server as a question.
pub proof fn law_action_read(
    state: Ghost<&mut ProxyState>,
    context: Ghost<&mut RequestContext>,
    no_cache: bool,
    entry: CacheEntry,
    now: i64,
    res: RequestAction,
    method: &str,
    uri: &str,
    line: RequestLogEntry,
    state_2: Ghost<&mut ProxyState>,
    context_2: Ghost<&mut RequestContext>,
    res_2: RequestAction,
    headers_json: &str,
    asked: Vec<(String, String)>,
)
    requires
        call_ensures(
            next_action,
            (state@, context@, no_cache, (RequestEvent::EntryRead { entry, now })),
            res,
        ),
        method@ == (*context@).method@,
        uri@ == (*context@).uri@,
        call_ensures(
            hit_log_entry,
            (&entry, (*state@).request_log_counter, now, method, uri),
            line,
        ),
        call_ensures(
            next_action,
            (state_2@, context_2@, no_cache, (RequestEvent::EntryUnreadable { entry })),
            res_2,
        ),
        headers_json@ == entry.response_headers@,
        call_ensures(revalidation_headers, (headers_json,), asked),
    ensures
        res is AnswerEntry,
        (*final(context@))@ == (*context@)@,
        came_last((*state@).request_log@, line@, (*final(state@)).request_log@),
        only_log(*state@, *final(state@)),
        goes_on((*state@).request_log_counter, 1, (*final(state@)).request_log_counter),
        *final(state_2@) == *state_2@,
        (*final(context_2@))@ == (ContextView {
            existing_entry: Some(entry@),
            ..(*context_2@)@
        }),
        res_2 matches RequestAction::Forward(h) && pair_views(h@) == pair_views(asked@),
{
    lemma_came_last((*state@).request_log@, line@, (*final(state@)).request_log@);
}

/// A line that is added and kept comes last.
proof fn lemma_came_last(before: Seq<RequestLogEntry>, line: LogView, after: Seq<RequestLogEntry>)
    requires
        log_views(after) == crate::proxy::state::kept_log(log_views(before).push(line)),
    ensures
        came_last(before, line, after),
{
    lemma_lines(before);
    lemma_lines(after);
    assert(log_views(after).last() == line);
    assert forall|k: int| 1 <= k < after.len() implies (#[trigger] after[after.len() - 1 - k])@
        == before[before.len() - k]@ by {
        assert(log_views(after)[after.len() - 1 - k] == log_views(before)[before.len() - k]);
    }
}

/// A response that came has the next line of the log, and that number is handed out.
pub proof fn law_response_came(
    state: Ghost<&mut ProxyState>,
    context: &RequestContext,
    now: i64,
    status: u16,
    headers: &Vec<(String, Vec<u8>)>,
    cached_file: Option<String>,
    res: u64,
    line: RequestLogEntry,
)
    requires
        call_ensures(response_came, (state@, context, now, status, headers, cached_file), res),
        call_ensures(response_log_entry, (context, res, now, status, headers, cached_file), line),
    ensures
        res == (*state@).request_log_counter,
        came_last((*state@).request_log@, line@, (*final(state@)).request_log@),
        only_log(*state@, *final(state@)),
        goes_on(res, 1, (*final(state@)).request_log_counter),
{
    lemma_came_last((*state@).request_log@, line@, (*final(state@)).request_log@);
}

/// An entry that the server says to be right counts as an answer from the cache, and its line
/// in the log says so once it has been served.
pub proof fn law_entry_is_right(
    state: Ghost<&mut ProxyState>,
    entry: &CacheEntry,
    state_2: Ghost<&mut ProxyState>,
    log_id: u64,
)
    requires
        call_ensures(entry_is_right, (state@, entry), ()),
        entry.file_size >= 0,
        call_ensures(right_entry_was_served, (state_2@, log_id, entry), ()),
    ensures
        hit_counted(*state@, entry.file_size as int, *final(state@)),
        last_changed(
            (*state_2@).request_log@,
            log_id,
            |e: LogView|
                (LogView {
                    from_cache: true,
                    size: entry.file_size,
                    status_code: entry.status_code,
                    file_path: Some(entry.file_path@),
                    ..e
                }),
            (*final(state_2@)).request_log@,
        ),
        only_log(*state_2@, *final(state_2@)),
        (*final(state_2@)).request_log_counter == (*state_2@).request_log_counter,
{
    lemma_last_changed(
        (*state_2@).request_log@,
        log_id,
        |e: LogView|
            (LogView {
                from_cache: true,
                size: entry.file_size,
                status_code: entry.status_code,
                file_path: Some(entry.file_path@),
                ..e
            }),
        (*final(state_2@)).request_log@,
    );
}

/// The single steps of an exchange: a slab answers as its response says and is counted, an
/// entry that is served is counted and gets its line, and an entry that is asked about goes
/// along with the request.
pub proof fn law_single_steps(
    slab_state: Ghost<&mut ProxyState>,
    hit: &SlabHit,
    body: &Vec<u8>,
    answer: Option<CachedResponse>,
    response: Option<CachedResponse>,
    found_state: Ghost<&mut ProxyState>,
    entry: &CacheEntry,
    no_cache: bool,
    secs: u64,
    nanos: u32,
    serve: bool,
    fresh: bool,
)
    requires
        call_ensures(slab_was_read, (slab_state@, hit, body), answer),
        call_ensures(slab_response, (hit, body), response),
        hit.slab_start <= hit.serve_start <= hit.serve_end,
        hit.serve_end - hit.serve_start < u64::MAX,
        call_ensures(entry_was_found, (found_state@, entry, no_cache, secs, nanos), serve),
        call_ensures(serves_fresh, (entry, no_cache, secs, nanos), fresh),
        entry.file_size >= 0,
    ensures
        answer is Some <==> response is Some,
        answer is Some ==> {
            &&& answer->0.status == response->0.status
            &&& pair_views(answer->0.headers@) == pair_views(response->0.headers@)
            &&& answer->0.body@ == response->0.body@
            &&& hit_counted(
                *slab_state@,
                hit.serve_end - hit.serve_start + 1,
                *final(slab_state@),
            )
        },
        answer is None ==> *final(slab_state@) == *slab_state@,
        serve == fresh,
        serve ==> hit_counted(*found_state@, entry.file_size as int, *final(found_state@)),
        !serve ==> *final(found_state@) == *found_state@,
{
}

/// An entry that was served gets its line in the log, and one that the server is asked about
/// goes along with the request.
pub proof fn law_served_and_asked(
    state: Ghost<&mut ProxyState>,
    entry: CacheEntry,
    context: &RequestContext,
    now: i64,
    method: &str,
    uri: &str,
    line: RequestLogEntry,
    request: Ghost<&mut RequestContext>,
    asked: Vec<(String, String)>,
    headers_json: &str,
    conditions: Vec<(String, String)>,
)
    requires
        call_ensures(entry_was_served, (state@, &entry, context, now), ()),
        method@ == context.method@,
        uri@ == context.uri@,
        call_ensures(
            hit_log_entry,
            (&entry, (*state@).request_log_counter, now, method, uri),
            line,
        ),
        call_ensures(server_is_asked, (request@, entry), asked),
        headers_json@ == entry.response_headers@,
        call_ensures(revalidation_headers, (headers_json,), conditions),
    ensures
        came_last((*state@).request_log@, line@, (*final(state@)).request_log@),
        only_log(*state@, *final(state@)),
        goes_on((*state@).request_log_counter, 1, (*final(state@)).request_log_counter),
        (*final(request@))@ == (ContextView { existing_entry: Some(entry@), ..(*request@)@ }),
        pair_views(asked@) == pair_views(conditions@),
{
    lemma_came_last((*state@).request_log@, line@, (*final(state@)).request_log@);
}

} // verus!
