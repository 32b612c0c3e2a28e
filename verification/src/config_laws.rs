//! What holds of the configuration, of what the proxy starts with, and of errors.
#[allow(unused_imports)]
use crate::cache::entry::CacheEntry;
#[allow(unused_imports)]
use crate::cache::index::CacheIndex;
#[allow(unused_imports)]
use crate::config::Config;
#[allow(unused_imports)]
use crate::error::Error;
#[allow(unused_imports)]
use crate::number::{parse_i32, parse_u64};
#[allow(unused_imports)]
use crate::path::join_path;
#[allow(unused_imports)]
use crate::proxy::engine::{initial_state, parse_pid, persisted_limit, search_line};
#[allow(unused_imports)]
use crate::proxy::state::{log_views, ProxyState};
#[allow(unused_imports)]
use crate::size::format_size;
#[allow(unused_imports)]
use crate::text::trim;
use vstd::prelude::*;

verus! {

/// The configuration without a file: two ports, a directory in the home of the user or, if
/// that is not known, in the current one, a cache of a gigabyte with entries of at most 500
/// megabytes, a month for what is stale and a week for ranges.
pub proof fn law_default_config(home: Option<&str>, res: Config, base: &str, dir: String)
    requires
        call_ensures(Config::default_for, (home,), res),
        base@ == (match home {
            Some(h) => h@,
            None => "."@,
        }),
        call_ensures(join_path, (base, "mac-proxy-cache"), dir),
    ensures
        res.proxy_port == 9090,
        res.dashboard_port == 9091,
        res.data_dir@ == dir@,
        res.max_cache_size == 1024 * 1024 * 1024,
        res.max_entry_size == 500 * 1024 * 1024,
        res.stale_retention_days == 30,
        res.partial_range_ttl_days == 7,
        res.bypass_hosts@.len() == 0,
        res.auto_system_proxy,
        !res.serve_stale_on_error,
{
    let v = res@;
    assert(v.auto_system_proxy);
    assert(v.bypass_hosts.len() == res.bypass_hosts@.len());
}

/// The file of the configuration lies in the directory for such files in the home of the
/// user.
pub proof fn law_config_file(
    home: Option<&str>,
    res: String,
    outer: &str,
    inner: String,
    middle: &str,
    file: String,
)
    requires
        call_ensures(Config::config_file_path, (home,), res),
        match home {
            Some(h) => exists|o: String|
                #[trigger] call_ensures(join_path, (h, ".config"), o) && o@ == outer@,
            None => outer@ == ".config"@,
        },
        call_ensures(join_path, (outer, "mac-proxy-cache"), inner),
        middle@ == inner@,
        call_ensures(join_path, (middle, "config.toml"), file),
    ensures
        res@ == file@,
{
}

/// What the proxy keeps lies in its directory, each under its own name.
pub proof fn law_data_paths(
    config: &Config,
    dir: &str,
    ca: String,
    cache: String,
    db: String,
    pid: String,
    state: String,
    res: (String, String, String, String, String),
)
    requires
        dir@ == config.data_dir@,
        call_ensures(join_path, (dir, "ca"), ca),
        call_ensures(join_path, (dir, "cache"), cache),
        call_ensures(join_path, (dir, "index.db"), db),
        call_ensures(join_path, (dir, "proxy.pid"), pid),
        call_ensures(join_path, (dir, "proxy-state.json"), state),
        call_ensures(Config::ca_dir, (config,), res.0),
        call_ensures(Config::cache_dir, (config,), res.1),
        call_ensures(Config::db_path, (config,), res.2),
        call_ensures(Config::pid_path, (config,), res.3),
        call_ensures(Config::proxy_state_path, (config,), res.4),
    ensures
        res.0@ == ca@,
        res.1@ == cache@,
        res.2@ == db@,
        res.3@ == pid@,
        res.4@ == state@,
{
}

/// Options take the place of what they are about, and all else stays.
pub proof fn law_options(
    config: Ghost<&mut Config>,
    port: Option<u16>,
    dashboard_port: Option<u16>,
    no_system_proxy: bool,
    max_cache_size: Option<u64>,
)
    requires
        call_ensures(
            Config::apply_options,
            (config@, port, dashboard_port, no_system_proxy, max_cache_size),
            (),
        ),
    ensures
        port matches Some(p) ==> (*final(config@)).proxy_port == p,
        port is None ==> (*final(config@)).proxy_port == (*config@).proxy_port,
        dashboard_port matches Some(p) ==> (*final(config@)).dashboard_port == p,
        dashboard_port is None ==> (*final(config@)).dashboard_port == (*config@).dashboard_port,
        no_system_proxy ==> !(*final(config@)).auto_system_proxy,
        !no_system_proxy ==> (*final(config@)).auto_system_proxy == (*config@).auto_system_proxy,
        max_cache_size matches Some(n) ==> (*final(config@)).max_cache_size == n,
        max_cache_size is None ==> (*final(config@)).max_cache_size == (*config@).max_cache_size,
        (*final(config@)).data_dir@ == (*config@).data_dir@,
        (*final(config@)).max_entry_size == (*config@).max_entry_size,
        (*final(config@)).stale_retention_days == (*config@).stale_retention_days,
        (*final(config@)).partial_range_ttl_days == (*config@).partial_range_ttl_days,
        crate::text::views((*final(config@)).bypass_hosts@) == crate::text::views(
            (*config@).bypass_hosts@,
        ),
        (*final(config@)).serve_stale_on_error == (*config@).serve_stale_on_error,
{
    let a = (*final(config@))@;
    let b = (*config@)@;
    assert(a.data_dir == b.data_dir);
}

/// A limit in the settings that is a number counts, and else that of the configuration.
pub proof fn law_limit(setting: &Option<String>, default: u64, res: u64, text: &str, n: Option<u64>)
    requires
        call_ensures(persisted_limit, (setting, default), res),
        call_ensures(parse_u64, (text,), n),
    ensures
        setting is None ==> res == default,
        setting is Some && setting->0@ == text@ ==> res == (match n {
            Some(limit) => limit,
            None => default,
        }),
{
}

/// The proxy starts with the limits of its settings, as the configuration says, and with
/// nothing counted or logged.
pub proof fn law_initial_state(
    config: &Config,
    index: &CacheIndex,
    bypass: bool,
    res: ProxyState,
    cache_setting: Option<String>,
    entry_setting: Option<String>,
    cache_limit: u64,
    entry_limit: u64,
)
    requires
        call_ensures(initial_state, (config, index, bypass), res),
        call_ensures(CacheIndex::get_setting, (index, "max_cache_size"), cache_setting),
        call_ensures(CacheIndex::get_setting, (index, "max_entry_size"), entry_setting),
        call_ensures(persisted_limit, (&cache_setting, config.max_cache_size), cache_limit),
        call_ensures(persisted_limit, (&entry_setting, config.max_entry_size), entry_limit),
    ensures
        res.bypass == bypass,
        res.max_cache_size == cache_limit,
        res.max_entry_size == entry_limit,
        res.serve_stale_on_error == config.serve_stale_on_error,
        res.system_proxy_enabled == config.auto_system_proxy,
        res.proxy_port == config.proxy_port,
        res.requests == 0,
        res.cache_hits == 0,
        res.cache_misses == 0,
        res.bytes_saved == 0,
        res.request_log@.len() == 0,
        res.request_log_counter == 0,
{
    assert(log_views(res.request_log@).len() == res.request_log@.len());
}

/// The number of a process is read without the white space around it.
pub proof fn law_pid(text: &str, res: Option<i32>, bare: String, inner: &str, n: Option<i32>)
    requires
        call_ensures(parse_pid, (text,), res),
        call_ensures(trim, (text,), bare),
        inner@ == bare@,
        call_ensures(parse_i32, (inner,), n),
    ensures
        res == n,
{
}

/// The line for an entry says its status, its address, its type and its size.
pub proof fn law_search_line(entry: &CacheEntry, res: String, size: String)
    requires
        call_ensures(search_line, (entry,), res),
        call_ensures(format_size, (entry.file_size,), size),
    ensures
        entry.content_type is Some ==> res@ == "  ["@ + entry.status@ + "] "@ + entry.url@ + " ("@
            + entry.content_type->0@ + ", "@ + size@ + ")"@,
        entry.content_type is None ==> res@ == "  ["@ + entry.status@ + "] "@ + entry.url@ + " ("@
            + "unknown"@ + ", "@ + size@ + ")"@,
{
}

/// An error says what it is about and what went wrong.
pub proof fn law_error_message(error: &Error, res: String)
    requires
        call_ensures(Error::message, (error,), res),
    ensures
        error matches Error::Io(s) ==> res@ == "IO error: "@ + s@,
        error matches Error::Certificate(s) ==> res@ == "TLS/certificate error: "@ + s@,
        error matches Error::Config(s) ==> res@ == "Config error: "@ + s@,
        error matches Error::Proxy(s) ==> res@ == "Proxy error: "@ + s@,
{
}

} // verus!
