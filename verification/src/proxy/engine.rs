//! What the proxy starts with.
use crate::cache::entry::CacheEntry;
use crate::cache::index::CacheIndex;
#[allow(unused_imports)]
use crate::cache::index::setting;
use crate::config::Config;
use crate::number::{parse_i32, parse_u64};
#[allow(unused_imports)]
use crate::number::{signed, unsigned};
use crate::proxy::state::ProxyState;
#[allow(unused_imports)]
use crate::proxy::state::LogView;
use crate::size::format_size;
#[allow(unused_imports)]
use crate::size::human_size;
use crate::text::trim;
#[allow(unused_imports)]
use crate::text::trimmed;
use vstd::prelude::*;

verus! {

/// A limit: what the settings say, or else what the configuration says.
pub open spec fn limit_of(setting: Option<Seq<char>>, default: u64) -> u64 {
    match setting {
        Some(s) => match unsigned(s, u64::MAX as nat) {
            Some(n) => n as u64,
            None => default,
        },
        None => default,
    }
}

/// A limit: what the settings say, or else what the configuration says.
pub fn persisted_limit(setting: &Option<String>, default: u64) -> (res: u64)
    ensures
        res == limit_of(setting.deep_view(), default),
{
    match setting {
        Some(s) => match parse_u64(s.as_str()) {
            Some(n) => n,
            None => default,
        },
        None => default,
    }
}

/// The state that the proxy starts with, with the cache bypassed or not. The limits are
/// those in the settings, if there are any.
pub fn initial_state(config: &Config, index: &CacheIndex, bypass: bool) -> (res: ProxyState)
    ensures
        res.bypass == bypass,
        res.max_cache_size == limit_of(
            setting(index@.settings, "max_cache_size"@),
            config@.max_cache_size,
        ),
        res.max_entry_size == limit_of(
            setting(index@.settings, "max_entry_size"@),
            config@.max_entry_size,
        ),
        res.serve_stale_on_error == config@.serve_stale_on_error,
        res.system_proxy_enabled == config@.auto_system_proxy,
        res.proxy_port == config@.proxy_port,
        res.requests == 0,
        res.cache_hits == 0,
        res.cache_misses == 0,
        res.bytes_saved == 0,
        res.log() == Seq::<LogView>::empty(),
        res.request_log_counter == 0,
{
    let max_cache_size: u64 = persisted_limit(
        &index.get_setting("max_cache_size"),
        config.max_cache_size,
    );
    let max_entry_size: u64 = persisted_limit(
        &index.get_setting("max_entry_size"),
        config.max_entry_size,
    );
    let mut state = ProxyState::new(
        max_cache_size,
        max_entry_size,
        config.serve_stale_on_error,
        config.auto_system_proxy,
        config.proxy_port,
    );
    state.bypass = bypass;
    state
}

/// The number of a process in its file; none if it holds no number.
pub fn parse_pid(text: &str) -> (res: Option<i32>)
    ensures
        match res {
            Some(n) => signed(trimmed(text@), i32::MIN as int, i32::MAX as int) == Some(n as int),
            None => signed(trimmed(text@), i32::MIN as int, i32::MAX as int) is None,
        },
{
    parse_i32(trim(text).as_str())
}

/// The line for an entry that a search has found.
pub fn search_line(entry: &CacheEntry) -> (res: String)
    ensures
        res@ == "  ["@ + entry@.status + "] "@ + entry@.url + " ("@ + (match entry@.content_type {
            Some(c) => c,
            None => "unknown"@,
        }) + ", "@ + human_size(entry@.file_size as int) + ")"@,
{
    let mut res: String = "  [".to_owned();
    res.append(entry.status.as_str());
    res.append("] ");
    res.append(entry.url.as_str());
    res.append(" (");
    match &entry.content_type {
        Some(c) => res.append(c.as_str()),
        None => res.append("unknown"),
    }
    res.append(", ");
    res.append(format_size(entry.file_size).as_str());
    res.append(")");
    res
}

} // verus!
