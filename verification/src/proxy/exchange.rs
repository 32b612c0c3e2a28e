//! The steps of one exchange: how a request and its response move what the proxy knows
//! of itself.
use crate::cache::entry::CacheEntry;
#[allow(unused_imports)]
use crate::cache::entry::EntryView;
use crate::cache::range::SlabHit;
use crate::number::to_unsigned;
#[allow(unused_imports)]
use crate::number::as_unsigned;
#[allow(unused_imports)]
use crate::outside::json::json_field_str;
use crate::proxy::handler::{
    first_step, hit_log_entry, request_context, response_log_entry, revalidation_headers, serves_fresh,
    slab_response, CachedResponse, RequestContext, RequestStep,
};
#[allow(unused_imports)]
use crate::proxy::handler::{
    conditions_of, context_of, first_step_of, fresh_at, hit_line, response_line, servable, served_len, slab_headers,
    ContextView,
};
#[allow(unused_imports)]
use crate::proxy::headers::{fields_of, header_views};
use crate::proxy::state::ProxyState;
#[allow(unused_imports)]
use crate::proxy::state::{hit_log, kept_log, wrapping_sum};
#[allow(unused_imports)]
use crate::text::{opt, pair_views};
use vstd::prelude::*;

verus! {

/// A request has come: it is counted, and what is kept of it until its response comes is
/// handed out.
pub fn request_came(
    state: &mut ProxyState,
    method: &str,
    uri: &str,
    range_header: Option<&str>,
) -> (res: RequestContext)
    ensures
        res@ == context_of(method@, uri@, opt(range_header)),
        *final(state) == (ProxyState {
            requests: wrapping_sum(old(state).requests, 1),
            ..*old(state)
        }),
{
    state.count_request();
    request_context(method, uri, range_header)
}

/// What the proxy knows of itself once an answer of some bytes has come from the cache.
pub open spec fn with_hit(state: ProxyState, size: u64) -> ProxyState {
    ProxyState {
        cache_hits: wrapping_sum(state.cache_hits, 1),
        bytes_saved: wrapping_sum(state.bytes_saved, size),
        ..state
    }
}

/// The bytes of a slab were read: the answer from them, which is counted with the bytes
/// that it serves; none, and nothing is counted, if they do not reach far enough.
pub fn slab_was_read(state: &mut ProxyState, hit: &SlabHit, body: &Vec<u8>) -> (res: Option<
    CachedResponse,
>)
    requires
        hit.slab_start <= hit.serve_start <= hit.serve_end,
        hit.serve_end - hit.serve_start < u64::MAX,
    ensures
        match res {
            Some(r) => hit.serve_end - hit.slab_start < body@.len() && r.status == 206
                && pair_views(r.headers@) == slab_headers(*hit) && r.body@ == body@.subrange(
                hit.serve_start - hit.slab_start,
                hit.serve_end - hit.slab_start + 1,
            ) && *final(state) == with_hit(*old(state), served_len(*hit) as u64),
            None => hit.serve_end - hit.slab_start >= body@.len() && *final(state) == *old(state),
        },
{
    let response = slab_response(hit, body);
    if response.is_some() {
        state.count_hit(hit.serve_end - hit.serve_start + 1);
    }
    response
}

/// Whether an entry that was found is served at a time without asking the server. If it
/// is, that is counted with the size of its file.
pub fn entry_was_found(
    state: &mut ProxyState,
    entry: &CacheEntry,
    no_cache: bool,
    secs: u64,
    nanos: u32,
) -> (res: bool)
    ensures
        res == servable(
            entry@.response_headers,
            fresh_at(entry@.cache_policy, secs, nanos),
            no_cache,
        ),
        *final(state) == if res {
            with_hit(*old(state), as_unsigned(entry@.file_size))
        } else {
            *old(state)
        },
{
    let serve = serves_fresh(entry, no_cache, secs, nanos);
    if serve {
        state.count_hit(to_unsigned(entry.file_size));
    }
    serve
}

/// An entry was served without asking the server: a line for it is added to the log.
pub fn entry_was_served(
    state: &mut ProxyState,
    entry: &CacheEntry,
    context: &RequestContext,
    now: i64,
)
    ensures
        final(state).log() == kept_log(
            old(state).log().push(
                hit_line(
                    entry@,
                    old(state).request_log_counter,
                    now,
                    context@.method,
                    context@.uri,
                ),
            ),
        ),
        final(state).request_log_counter == wrapping_sum(old(state).request_log_counter, 1),
        final(state).same_but_log(old(state)),
{
    let id: u64 = state.next_log_id();
    let line = hit_log_entry(entry, id, now, context.method.as_str(), context.uri.as_str());
    state.log_request(line);
}

/// The server is asked whether an entry is still right: the entry is kept with the
/// request, and the headers that ask are handed out.
pub fn server_is_asked(context: &mut RequestContext, entry: CacheEntry) -> (res: Vec<
    (String, String),
>)
    ensures
        final(context)@ == (ContextView { existing_entry: Some(entry@), ..old(context)@ }),
        pair_views(res@) == conditions_of(
            json_field_str(fields_of(entry@.response_headers), "etag"@),
            json_field_str(fields_of(entry@.response_headers), "last-modified"@),
        ),
{
    let headers = revalidation_headers(entry.response_headers.as_str());
    context.existing_entry = Some(entry);
    headers
}

/// What has come of the last step for a request.
#[derive(Debug)]
pub enum RequestEvent {
    /// The request has come.
    Came,
    /// No slab has the range, or its file cannot be read.
    SlabMissing,
    /// A slab has the range, and these are the bytes of its file.
    SlabRead { hit: SlabHit, body: Vec<u8> },
    /// The cache has no entry.
    EntryMissing,
    /// The cache has an entry, at a time.
    EntryFound { entry: CacheEntry, secs: u64, nanos: u32 },
    /// The file of an entry was read and the answer put together, at a time.
    EntryRead { entry: CacheEntry, now: i64 },
    /// There is no answer with an entry: its file cannot be read, or no response can be
    /// made of it.
    EntryUnreadable { entry: CacheEntry },
}

/// What is done next with a request.
#[derive(Debug)]
pub enum RequestAction {
    /// It goes to the server, with these headers set.
    Forward(Vec<(String, String)>),
    /// A slab with the range is looked for, and its file read.
    LookForSlab,
    /// An entry of the cache is looked for.
    LookForEntry,
    /// It is noted that the entry was used, its file is read, and the answer put together.
    ReadEntry(CacheEntry),
    /// It is answered with a range.
    AnswerRange(CachedResponse),
    /// It is answered with what was put together from an entry.
    AnswerEntry,
}

/// How many steps a request can still take when an action is done: a slab is looked for
/// at most once, then an entry, then its file.
pub open spec fn steps_left(action: RequestAction) -> nat {
    match action {
        RequestAction::LookForSlab => 3,
        RequestAction::LookForEntry => 2,
        RequestAction::ReadEntry(_) => 1,
        _ => 0,
    }
}

/// How many steps a request could still take when the action was done that led to an
/// event.
pub open spec fn steps_were_left(event: RequestEvent) -> nat {
    match event {
        RequestEvent::Came => 4,
        RequestEvent::SlabMissing | RequestEvent::SlabRead { .. } => 3,
        RequestEvent::EntryMissing | RequestEvent::EntryFound { .. } => 2,
        RequestEvent::EntryRead { .. } | RequestEvent::EntryUnreadable { .. } => 1,
    }
}

/// Whether bytes of a slab hold all of the range that is served from it.
pub open spec fn holds_range(hit: SlabHit, len: nat) -> bool {
    hit.slab_start <= hit.serve_start <= hit.serve_end && hit.serve_end - hit.serve_start
        < u64::MAX && hit.serve_end - hit.slab_start < len
}

/// Whether a request goes to the server with the question whether an entry is still
/// right, and the entry is kept with the request.
pub open spec fn asks_about(
    action: RequestAction,
    before: ContextView,
    after: ContextView,
    entry: EntryView,
) -> bool {
    &&& action matches RequestAction::Forward(headers) && pair_views(headers@) == conditions_of(
        json_field_str(fields_of(entry.response_headers), "etag"@),
        json_field_str(fields_of(entry.response_headers), "last-modified"@),
    )
    &&& after == (ContextView { existing_entry: Some(entry), ..before })
}

/// What is done next with a request, from what has come of the last step. A slab comes
/// before an entry, and an entry before the server. An answer from the cache is counted
/// when it is decided on; of an entry, a line is added to the log once the answer is
/// there. What is found but not served goes along to the server as a question.
pub fn next_action(
    state: &mut ProxyState,
    context: &mut RequestContext,
    no_cache: bool,
    event: RequestEvent,
) -> (res: RequestAction)
    ensures
        match event {
            RequestEvent::Came => *final(state) == *old(state) && final(context)@ == old(context)@
                && match first_step_of(old(context)@, old(state).bypass, no_cache) {
                RequestStep::Forward => res matches RequestAction::Forward(h) && h@.len() == 0,
                RequestStep::LookForSlab => res is LookForSlab,
                RequestStep::LookForEntry => res is LookForEntry,
            },
            RequestEvent::SlabMissing => *final(state) == *old(state)
                && final(context)@ == old(context)@ && res is LookForEntry,
            RequestEvent::SlabRead { hit, body } => final(context)@ == old(context)@
                && if holds_range(hit, body@.len()) {
                *final(state) == with_hit(*old(state), served_len(hit) as u64) && (res matches
                    RequestAction::AnswerRange(r) && r.status == 206 && pair_views(r.headers@)
                    == slab_headers(hit) && r.body@ == body@.subrange(
                    hit.serve_start - hit.slab_start,
                    hit.serve_end - hit.slab_start + 1,
                ))
            } else {
                *final(state) == *old(state) && res is LookForEntry
            },
            RequestEvent::EntryMissing => *final(state) == (ProxyState {
                cache_misses: wrapping_sum(old(state).cache_misses, 1),
                ..*old(state)
            }) && final(context)@ == old(context)@ && (res matches RequestAction::Forward(h)
                && h@.len() == 0),
            RequestEvent::EntryFound { entry, secs, nanos } => if servable(
                entry@.response_headers,
                fresh_at(entry@.cache_policy, secs, nanos),
                no_cache,
            ) {
                *final(state) == with_hit(*old(state), as_unsigned(entry@.file_size))
                    && final(context)@ == old(context)@ && res == RequestAction::ReadEntry(entry)
            } else {
                *final(state) == *old(state) && asks_about(
                    res,
                    old(context)@,
                    final(context)@,
                    entry@,
                )
            },
            RequestEvent::EntryRead { entry, now } => final(state).log() == kept_log(
                old(state).log().push(
                    hit_line(
                        entry@,
                        old(state).request_log_counter,
                        now,
                        old(context)@.method,
                        old(context)@.uri,
                    ),
                ),
            ) && final(state).request_log_counter == wrapping_sum(old(state).request_log_counter, 1)
                && final(state).same_but_log(old(state)) && final(context)@ == old(context)@
                && res is AnswerEntry,
            RequestEvent::EntryUnreadable { entry } => *final(state) == *old(state) && asks_about(
                res,
                old(context)@,
                final(context)@,
                entry@,
            ),
        },
        steps_left(res) < steps_were_left(event),
{
    match event {
        RequestEvent::Came => match first_step(&*context, state.bypass, no_cache) {
            RequestStep::Forward => RequestAction::Forward(Vec::new()),
            RequestStep::LookForSlab => RequestAction::LookForSlab,
            RequestStep::LookForEntry => RequestAction::LookForEntry,
        },
        RequestEvent::SlabMissing => RequestAction::LookForEntry,
        RequestEvent::SlabRead { hit, body } => {
            if hit.slab_start > hit.serve_start || hit.serve_start > hit.serve_end || hit.serve_end
                - hit.serve_start == u64::MAX {
                return RequestAction::LookForEntry;
            }
            match slab_was_read(state, &hit, &body) {
                Some(response) => RequestAction::AnswerRange(response),
                None => RequestAction::LookForEntry,
            }
        },
        RequestEvent::EntryMissing => {
            state.count_miss();
            RequestAction::Forward(Vec::new())
        },
        RequestEvent::EntryFound { entry, secs, nanos } => {
            if entry_was_found(state, &entry, no_cache, secs, nanos) {
                RequestAction::ReadEntry(entry)
            } else {
                RequestAction::Forward(server_is_asked(context, entry))
            }
        },
        RequestEvent::EntryRead { entry, now } => {
            entry_was_served(state, &entry, &*context, now);
            RequestAction::AnswerEntry
        },
        RequestEvent::EntryUnreadable { entry } => RequestAction::Forward(
            server_is_asked(context, entry),
        ),
    }
}

/// A response has come: a line for it is added to the log, and its number is handed out.
pub fn response_came(
    state: &mut ProxyState,
    context: &RequestContext,
    now: i64,
    status: u16,
    headers: &Vec<(String, Vec<u8>)>,
    cached_file: Option<String>,
) -> (res: u64)
    ensures
        res == old(state).request_log_counter,
        final(state).log() == kept_log(
            old(state).log().push(
                response_line(
                    context@,
                    res,
                    now,
                    status,
                    header_views(headers@),
                    cached_file.deep_view(),
                ),
            ),
        ),
        final(state).request_log_counter == wrapping_sum(old(state).request_log_counter, 1),
        final(state).same_but_log(old(state)),
{
    let id: u64 = state.next_log_id();
    let line = response_log_entry(context, id, now, status, headers, cached_file);
    state.log_request(line);
    id
}

/// The server has said that an entry is still right: that is counted with the size of
/// its file.
pub fn entry_is_right(state: &mut ProxyState, entry: &CacheEntry)
    ensures
        *final(state) == with_hit(*old(state), as_unsigned(entry@.file_size)),
{
    state.count_hit(to_unsigned(entry.file_size));
}

/// An entry was served after the server has said that it is still right: the line of the
/// response in the log now says so.
pub fn right_entry_was_served(state: &mut ProxyState, log_id: u64, entry: &CacheEntry)
    ensures
        final(state).log() == hit_log(
            old(state).log(),
            log_id,
            entry@.file_size,
            entry@.status_code,
            Some(entry@.file_path),
        ),
        final(state).same_but_log(old(state)),
        final(state).request_log_counter == old(state).request_log_counter,
{
    state.update_request_cache_hit(
        log_id,
        entry.file_size,
        entry.status_code,
        Some(entry.file_path.clone()),
    );
}

/// What a response from the server first leaves in the log, an answer from the cache
/// replaces: once the entry has been served, the line says that the answer came from the
/// cache, with the size, the status and the file of the entry.
pub proof fn law_answer_is_noted(
    before: ProxyState,
    context: ContextView,
    now: i64,
    headers: Seq<(Seq<char>, Seq<u8>)>,
    cached_file: Option<Seq<char>>,
    size: i64,
    status: u16,
    file: Seq<char>,
)
    ensures
        ({
            let id = before.request_log_counter;
            let line = response_line(context, id, now, 304, headers, cached_file);
            let came = kept_log(before.log().push(line));
            let noted = hit_log(came, id, size, status, Some(file));
            &&& noted.len() == came.len()
            &&& noted.drop_last() == came.drop_last()
            &&& noted.last() == crate::proxy::state::LogView {
                from_cache: true,
                size,
                status_code: status,
                file_path: Some(file),
                ..line
            }
        }),
{
    let id = before.request_log_counter;
    let line = response_line(context, id, now, 304, headers, cached_file);
    let came = kept_log(before.log().push(line));
    assert(came.last() == line);
    let noted = hit_log(came, id, size, status, Some(file));
    assert(noted.drop_last() =~= came.drop_last());
}

} // verus!
