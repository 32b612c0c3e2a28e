//! The configuration of the proxy.
use crate::path::join_path;
#[allow(unused_imports)]
use crate::path::pushed;
#[allow(unused_imports)]
use crate::text::{opt, views};
use vstd::prelude::*;

verus! {

/// The configuration of the proxy.
#[derive(Debug)]
pub struct Config {
    pub proxy_port: u16,
    pub dashboard_port: u16,
    pub data_dir: String,
    pub max_cache_size: u64,
    pub max_entry_size: u64,
    pub stale_retention_days: u32,
    pub partial_range_ttl_days: u32,
    pub bypass_hosts: Vec<String>,
    pub auto_system_proxy: bool,
    pub serve_stale_on_error: bool,
}

/// The configuration, its texts as character sequences.
#[verifier::ext_equal]
pub struct ConfigView {
    pub proxy_port: u16,
    pub dashboard_port: u16,
    pub data_dir: Seq<char>,
    pub max_cache_size: u64,
    pub max_entry_size: u64,
    pub stale_retention_days: u32,
    pub partial_range_ttl_days: u32,
    pub bypass_hosts: Seq<Seq<char>>,
    pub auto_system_proxy: bool,
    pub serve_stale_on_error: bool,
}

impl View for Config {
    type V = ConfigView;

    open spec fn view(&self) -> ConfigView {
        ConfigView {
            proxy_port: self.proxy_port,
            dashboard_port: self.dashboard_port,
            data_dir: self.data_dir@,
            max_cache_size: self.max_cache_size,
            max_entry_size: self.max_entry_size,
            stale_retention_days: self.stale_retention_days,
            partial_range_ttl_days: self.partial_range_ttl_days,
            bypass_hosts: views(self.bypass_hosts@),
            auto_system_proxy: self.auto_system_proxy,
            serve_stale_on_error: self.serve_stale_on_error,
        }
    }
}

impl Clone for Config {
    fn clone(&self) -> (res: Self)
        ensures
            res@ == self@,
    {
        Config {
            proxy_port: self.proxy_port,
            dashboard_port: self.dashboard_port,
            data_dir: self.data_dir.clone(),
            max_cache_size: self.max_cache_size,
            max_entry_size: self.max_entry_size,
            stale_retention_days: self.stale_retention_days,
            partial_range_ttl_days: self.partial_range_ttl_days,
            bypass_hosts: clone_texts(&self.bypass_hosts),
            auto_system_proxy: self.auto_system_proxy,
            serve_stale_on_error: self.serve_stale_on_error,
        }
    }
}

/// A copy of a list of texts.
fn clone_texts(v: &Vec<String>) -> (res: Vec<String>)
    ensures
        views(res@) == views(v@),
{
    let mut res: Vec<String> = Vec::new();
    let mut i: usize = 0;
    while i < v.len()
        invariant
            i <= v@.len(),
            views(res@) == views(v@).subrange(0, i as int),
        decreases v@.len() - i,
    {
        let ghost before = views(res@);
        res.push(v[i].clone());
        assert(views(res@) =~= before.push(v@[i as int]@));
        i += 1;
        assert(views(res@) =~= views(v@).subrange(0, i as int));
    }
    assert(views(v@).subrange(0, i as int) =~= views(v@));
    res
}

/// The configuration that holds where nothing else is said, for a home directory.
pub open spec fn default_config(home: Option<Seq<char>>) -> ConfigView {
    ConfigView {
        proxy_port: 9090,
        dashboard_port: 9091,
        data_dir: pushed(
            match home {
                Some(h) => h,
                None => "."@,
            },
            "mac-proxy-cache"@,
        ),
        max_cache_size: 1_073_741_824,
        max_entry_size: 524_288_000,
        stale_retention_days: 30,
        partial_range_ttl_days: 7,
        bypass_hosts: seq![],
        auto_system_proxy: true,
        serve_stale_on_error: false,
    }
}

impl Config {
    /// The configuration that holds where nothing else is said, for a home directory.
    pub fn default_for(home: Option<&str>) -> (res: Config)
        ensures
            res@ == default_config(opt(home)),
    {
        let base = match home {
            Some(h) => h,
            None => ".",
        };
        let bypass_hosts: Vec<String> = Vec::new();
        assert(views(bypass_hosts@) =~= seq![]);
        Config {
            proxy_port: 9090,
            dashboard_port: 9091,
            data_dir: join_path(base, "mac-proxy-cache"),
            max_cache_size: 1_073_741_824,
            max_entry_size: 524_288_000,
            stale_retention_days: 30,
            partial_range_ttl_days: 7,
            bypass_hosts,
            auto_system_proxy: true,
            serve_stale_on_error: false,
        }
    }

    /// The file with the configuration, for a home directory:
    /// `~/.config/mac-proxy-cache/config.toml`.
    pub fn config_file_path(home: Option<&str>) -> (res: String)
        ensures
            res@ == pushed(
                pushed(
                    match opt(home) {
                        Some(h) => pushed(h, ".config"@),
                        None => ".config"@,
                    },
                    "mac-proxy-cache"@,
                ),
                "config.toml"@,
            ),
    {
        let base: String = match home {
            Some(h) => join_path(h, ".config"),
            None => ".config".to_owned(),
        };
        join_path(join_path(base.as_str(), "mac-proxy-cache").as_str(), "config.toml")
    }

    /// The directory with the certificate.
    pub fn ca_dir(&self) -> (res: String)
        ensures
            res@ == pushed(self@.data_dir, "ca"@),
    {
        join_path(self.data_dir.as_str(), "ca")
    }

    /// The directory with the files of the cache.
    pub fn cache_dir(&self) -> (res: String)
        ensures
            res@ == pushed(self@.data_dir, "cache"@),
    {
        join_path(self.data_dir.as_str(), "cache")
    }

    /// The file with the index of the cache.
    pub fn db_path(&self) -> (res: String)
        ensures
            res@ == pushed(self@.data_dir, "index.db"@),
    {
        join_path(self.data_dir.as_str(), "index.db")
    }

    /// The file with the number of the running process.
    pub fn pid_path(&self) -> (res: String)
        ensures
            res@ == pushed(self@.data_dir, "proxy.pid"@),
    {
        join_path(self.data_dir.as_str(), "proxy.pid")
    }

    /// The file with the proxies that were set before.
    pub fn proxy_state_path(&self) -> (res: String)
        ensures
            res@ == pushed(self@.data_dir, "proxy-state.json"@),
    {
        join_path(self.data_dir.as_str(), "proxy-state.json")
    }

    /// Takes over what was given on the command line.
    pub fn apply_options(
        &mut self,
        port: Option<u16>,
        dashboard_port: Option<u16>,
        no_system_proxy: bool,
        max_cache_size: Option<u64>,
    )
        ensures
            final(self)@ == (ConfigView {
                proxy_port: match port {
                    Some(p) => p,
                    None => old(self)@.proxy_port,
                },
                dashboard_port: match dashboard_port {
                    Some(p) => p,
                    None => old(self)@.dashboard_port,
                },
                auto_system_proxy: old(self)@.auto_system_proxy && !no_system_proxy,
                max_cache_size: match max_cache_size {
                    Some(n) => n,
                    None => old(self)@.max_cache_size,
                },
                ..old(self)@
            }),
    {
        if let Some(p) = port {
            self.proxy_port = p;
        }
        if let Some(p) = dashboard_port {
            self.dashboard_port = p;
        }
        if no_system_proxy {
            self.auto_system_proxy = false;
        }
        if let Some(n) = max_cache_size {
            self.max_cache_size = n;
        }
    }
}

} // verus!
