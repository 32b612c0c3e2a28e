//! What the proxy knows of itself: counters, switches, and the log of requests.
use crate::cache::entry::clone_text;
use std::collections::VecDeque;
use vstd::prelude::*;

verus! {

/// The most requests that are kept in the log.
pub const LOG_SIZE: usize = 2000;

/// A request and its answer, as the log shows them.
#[derive(Debug)]
pub struct RequestLogEntry {
    pub id: u64,
    pub timestamp: i64,
    pub method: String,
    pub url: String,
    pub status_code: u16,
    pub size: i64,
    pub from_cache: bool,
    pub content_type: Option<String>,
    pub host: String,
    /// The file in the cache directory, if there is one.
    pub file_path: Option<String>,
}

/// A request in the log, its texts as character sequences.
#[verifier::ext_equal]
pub struct LogView {
    pub id: u64,
    pub timestamp: i64,
    pub method: Seq<char>,
    pub url: Seq<char>,
    pub status_code: u16,
    pub size: i64,
    pub from_cache: bool,
    pub content_type: Option<Seq<char>>,
    pub host: Seq<char>,
    pub file_path: Option<Seq<char>>,
}

impl View for RequestLogEntry {
    type V = LogView;

    open spec fn view(&self) -> LogView {
        LogView {
            id: self.id,
            timestamp: self.timestamp,
            method: self.method@,
            url: self.url@,
            status_code: self.status_code,
            size: self.size,
            from_cache: self.from_cache,
            content_type: self.content_type.deep_view(),
            host: self.host@,
            file_path: self.file_path.deep_view(),
        }
    }
}

impl Clone for RequestLogEntry {
    fn clone(&self) -> (res: Self)
        ensures
            res@ == self@,
    {
        RequestLogEntry {
            id: self.id,
            timestamp: self.timestamp,
            method: self.method.clone(),
            url: self.url.clone(),
            status_code: self.status_code,
            size: self.size,
            from_cache: self.from_cache,
            content_type: clone_text(&self.content_type),
            host: self.host.clone(),
            file_path: clone_text(&self.file_path),
        }
    }
}

/// The counters and switches of the proxy.
#[derive(Debug, Clone, Copy, PartialEq, Eq, Structural)]
pub struct ProxyStats {
    pub requests: u64,
    pub cache_hits: u64,
    pub cache_misses: u64,
    pub bytes_saved: u64,
    pub bypass_enabled: bool,
    pub system_proxy_enabled: bool,
}

/// What the proxy knows of itself.
#[derive(Debug)]
pub struct ProxyState {
    pub bypass: bool,
    pub max_cache_size: u64,
    pub max_entry_size: u64,
    pub serve_stale_on_error: bool,
    pub system_proxy_enabled: bool,
    pub proxy_port: u16,
    pub requests: u64,
    pub cache_hits: u64,
    pub cache_misses: u64,
    pub bytes_saved: u64,
    pub request_log: VecDeque<RequestLogEntry>,
    pub request_log_counter: u64,
}

/// The requests in a log by their views.
pub open spec fn log_views(s: Seq<RequestLogEntry>) -> Seq<LogView> {
    s.map_values(|e: RequestLogEntry| e@)
}

/// The last requests of a log, as many as are kept.
pub open spec fn kept_log(s: Seq<LogView>) -> Seq<LogView> {
    if s.len() > LOG_SIZE {
        s.subrange(s.len() - LOG_SIZE, s.len() as int)
    } else {
        s
    }
}

/// The position of the last request with a number.
pub open spec fn last_with_id(s: Seq<LogView>, id: u64) -> Option<int>
    decreases s.len(),
{
    if s.len() == 0 {
        None
    } else if s.last().id == id {
        Some(s.len() - 1)
    } else {
        last_with_id(s.drop_last(), id)
    }
}

/// The log after the size of a request has become known.
pub open spec fn sized_log(s: Seq<LogView>, id: u64, size: i64) -> Seq<LogView> {
    match last_with_id(s, id) {
        Some(i) => s.update(i, LogView { size, ..s[i] }),
        None => s,
    }
}

/// The log after a request has been answered from the cache.
pub open spec fn hit_log(
    s: Seq<LogView>,
    id: u64,
    size: i64,
    status_code: u16,
    file_path: Option<Seq<char>>,
) -> Seq<LogView> {
    match last_with_id(s, id) {
        Some(i) => s.update(i, LogView { from_cache: true, size, status_code, file_path, ..s[i] }),
        None => s,
    }
}

/// The sum of two counts; beyond the largest it starts again from zero.
pub open spec fn wrapping_sum(a: u64, b: u64) -> u64 {
    if a + b > u64::MAX {
        (a + b - 0x1_0000_0000_0000_0000) as u64
    } else {
        (a + b) as u64
    }
}

/// The sum of two counts; beyond the largest it starts again from zero.
fn count_on(a: u64, b: u64) -> (res: u64)
    ensures
        res == wrapping_sum(a, b),
{
    if b > u64::MAX - a {
        b - (u64::MAX - a) - 1
    } else {
        a + b
    }
}

impl ProxyState {
    /// The log.
    pub open spec fn log(&self) -> Seq<LogView> {
        log_views(self.request_log@)
    }

    /// Whether all but the log and the number of the next request are the same.
    pub open spec fn same_but_log(&self, other: &ProxyState) -> bool {
        &&& self.bypass == other.bypass
        &&& self.max_cache_size == other.max_cache_size
        &&& self.max_entry_size == other.max_entry_size
        &&& self.serve_stale_on_error == other.serve_stale_on_error
        &&& self.system_proxy_enabled == other.system_proxy_enabled
        &&& self.proxy_port == other.proxy_port
        &&& self.requests == other.requests
        &&& self.cache_hits == other.cache_hits
        &&& self.cache_misses == other.cache_misses
        &&& self.bytes_saved == other.bytes_saved
    }

    /// A proxy that has not seen any request yet.
    pub fn new(
        max_cache_size: u64,
        max_entry_size: u64,
        serve_stale_on_error: bool,
        system_proxy_enabled: bool,
        proxy_port: u16,
    ) -> (res: ProxyState)
        ensures
            !res.bypass,
            res.max_cache_size == max_cache_size,
            res.max_entry_size == max_entry_size,
            res.serve_stale_on_error == serve_stale_on_error,
            res.system_proxy_enabled == system_proxy_enabled,
            res.proxy_port == proxy_port,
            res.requests == 0,
            res.cache_hits == 0,
            res.cache_misses == 0,
            res.bytes_saved == 0,
            res.log() == Seq::<LogView>::empty(),
            res.request_log_counter == 0,
    {
        let res = ProxyState {
            bypass: false,
            max_cache_size,
            max_entry_size,
            serve_stale_on_error,
            system_proxy_enabled,
            proxy_port,
            requests: 0,
            cache_hits: 0,
            cache_misses: 0,
            bytes_saved: 0,
            request_log: VecDeque::new(),
            request_log_counter: 0,
        };
        assert(res.log() =~= Seq::<LogView>::empty());
        res
    }

    /// Adds a request to the log; the oldest ones are dropped.
    pub fn log_request(&mut self, entry: RequestLogEntry)
        ensures
            final(self).log() == kept_log(old(self).log().push(entry@)),
            final(self).same_but_log(old(self)),
            final(self).request_log_counter == old(self).request_log_counter,
    {
        let ghost all = self.log().push(entry@);
        let ghost before = *self;
        self.request_log.push_back(entry);
        assert(self.log() =~= all);
        let ghost mut dropped: int = 0;
        assert(all.subrange(0, all.len() as int) =~= all);
        while self.request_log.len() > LOG_SIZE
            invariant
                0 <= dropped <= all.len(),
                dropped > 0 ==> all.len() - dropped >= LOG_SIZE,
                self.log() == all.subrange(dropped, all.len() as int),
                self.same_but_log(&before),
                self.request_log_counter == before.request_log_counter,
            decreases self.request_log@.len(),
        {
            let ghost now = self.log();
            let _ = self.request_log.pop_front();
            proof {
                assert(self.log() =~= now.subrange(1, now.len() as int));
                dropped = dropped + 1;
                assert(self.log() =~= all.subrange(dropped, all.len() as int));
            }
        }
        assert(self.log().len() == self.request_log@.len());
        assert(self.log() =~= kept_log(all));
    }

    /// The position of the last request with a number, or the number of requests.
    fn find_request(&self, id: u64) -> (res: usize)
        ensures
            match last_with_id(self.log(), id) {
                Some(i) => res == i && res < self.request_log@.len(),
                None => res == self.request_log@.len(),
            },
    {
        let ghost all = self.log();
        let n: usize = self.request_log.len();
        let mut i: usize = n;
        assert(all.subrange(0, i as int) =~= all);
        while i > 0
            invariant
                i <= n == self.request_log@.len(),
                all == log_views(self.request_log@),
                last_with_id(all, id) == last_with_id(all.subrange(0, i as int), id),
            decreases i,
        {
            proof {
                let here = all.subrange(0, i as int);
                assert(here.drop_last() =~= all.subrange(0, i - 1));
                assert(here.last() == self.request_log@[i - 1]@);
            }
            i -= 1;
            if self.request_log[i].id == id {
                return i;
            }
        }
        n
    }

    /// Puts a request into the log in the place of another.
    fn replace_request(&mut self, at: usize, entry: RequestLogEntry)
        requires
            at < old(self).request_log@.len(),
        ensures
            final(self).log() == old(self).log().update(at as int, entry@),
            final(self).same_but_log(old(self)),
            final(self).request_log_counter == old(self).request_log_counter,
    {
        let ghost all = self.log();
        let ghost x = entry@;
        let _ = self.request_log.remove(at);
        self.request_log.insert(at, entry);
        assert(self.log() =~= all.update(at as int, x));
    }

    /// Notes the size of the answer to a request.
    pub fn update_request_size(&mut self, id: u64, size: i64)
        ensures
            final(self).log() == sized_log(old(self).log(), id, size),
            final(self).same_but_log(old(self)),
            final(self).request_log_counter == old(self).request_log_counter,
    {
        let at: usize = self.find_request(id);
        if at < self.request_log.len() {
            let mut entry = self.request_log[at].clone();
            assert(self.log()[at as int] == entry@);
            entry.size = size;
            self.replace_request(at, entry);
        }
    }

    /// Notes that a request was answered from the cache.
    pub fn update_request_cache_hit(
        &mut self,
        id: u64,
        size: i64,
        status_code: u16,
        file_path: Option<String>,
    )
        ensures
            final(self).log() == hit_log(
                old(self).log(),
                id,
                size,
                status_code,
                file_path.deep_view(),
            ),
            final(self).same_but_log(old(self)),
            final(self).request_log_counter == old(self).request_log_counter,
    {
        let at: usize = self.find_request(id);
        if at < self.request_log.len() {
            let mut entry = self.request_log[at].clone();
            assert(self.log()[at as int] == entry@);
            entry.from_cache = true;
            entry.size = size;
            entry.status_code = status_code;
            entry.file_path = file_path;
            self.replace_request(at, entry);
        }
    }

    /// The requests in the log with larger numbers than the given one.
    pub fn get_requests_since(&self, since_id: u64) -> (res: Vec<RequestLogEntry>)
        ensures
            log_views(res@) == self.log().filter(|e: LogView| e.id > since_id),
    {
        let ghost all = self.log();
        let ghost p = |e: LogView| e.id > since_id;
        let n: usize = self.request_log.len();
        let mut res: Vec<RequestLogEntry> = Vec::new();
        let mut i: usize = 0;
        proof {
            reveal(Seq::filter);
            assert(log_views(res@) =~= all.subrange(0, 0).filter(p));
        }
        while i < n
            invariant
                i <= n == self.request_log@.len(),
                all == log_views(self.request_log@),
                p == (|e: LogView| e.id > since_id),
                log_views(res@) == all.subrange(0, i as int).filter(p),
            decreases n - i,
        {
            let ghost done = log_views(res@);
            let e = &self.request_log[i];
            proof {
                assert(all.subrange(0, i + 1) =~= all.subrange(0, i as int).push(e@));
                crate::cache::entry::lemma_filter_push(all.subrange(0, i as int), e@, p);
            }
            if e.id > since_id {
                res.push(e.clone());
                assert(log_views(res@) =~= done.push(e@));
            }
            i += 1;
        }
        assert(all.subrange(0, i as int) =~= all);
        res
    }

    /// The counters and switches.
    pub fn stats(&self) -> (res: ProxyStats)
        ensures
            res == (ProxyStats {
                requests: self.requests,
                cache_hits: self.cache_hits,
                cache_misses: self.cache_misses,
                bytes_saved: self.bytes_saved,
                bypass_enabled: self.bypass,
                system_proxy_enabled: self.system_proxy_enabled,
            }),
    {
        ProxyStats {
            requests: self.requests,
            cache_hits: self.cache_hits,
            cache_misses: self.cache_misses,
            bytes_saved: self.bytes_saved,
            bypass_enabled: self.bypass,
            system_proxy_enabled: self.system_proxy_enabled,
        }
    }

    /// The number for the next request in the log.
    pub fn next_log_id(&mut self) -> (res: u64)
        ensures
            res == old(self).request_log_counter,
            *final(self) == (ProxyState {
                request_log_counter: wrapping_sum(old(self).request_log_counter, 1),
                ..*old(self)
            }),
    {
        let id: u64 = self.request_log_counter;
        self.request_log_counter = count_on(id, 1);
        id
    }

    /// Counts a request.
    pub fn count_request(&mut self)
        ensures
            *final(self) == (ProxyState {
                requests: wrapping_sum(old(self).requests, 1),
                ..*old(self)
            }),
    {
        self.requests = count_on(self.requests, 1);
    }

    /// Counts an answer from the cache and the bytes that were not fetched for it.
    pub fn count_hit(&mut self, bytes: u64)
        ensures
            *final(self) == (ProxyState {
                cache_hits: wrapping_sum(old(self).cache_hits, 1),
                bytes_saved: wrapping_sum(old(self).bytes_saved, bytes),
                ..*old(self)
            }),
    {
        self.cache_hits = count_on(self.cache_hits, 1);
        self.bytes_saved = count_on(self.bytes_saved, bytes);
    }

    /// Counts a request that the cache had no answer for.
    pub fn count_miss(&mut self)
        ensures
            *final(self) == (ProxyState {
                cache_misses: wrapping_sum(old(self).cache_misses, 1),
                ..*old(self)
            }),
    {
        self.cache_misses = count_on(self.cache_misses, 1);
    }
}

/// The log never holds more requests than are kept, and the one that was added last is
/// always in it.
pub proof fn law_log_size(s: Seq<LogView>, e: LogView)
    ensures
        kept_log(s.push(e)).len() <= LOG_SIZE,
        kept_log(s.push(e)).last() == e,
        s.len() < LOG_SIZE ==> kept_log(s.push(e)) == s.push(e),
{
}

} // verus!
