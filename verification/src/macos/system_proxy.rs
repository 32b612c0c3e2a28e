//! The network services of macOS and the proxies that are set for them.
use crate::number::decimal_text;
#[allow(unused_imports)]
use crate::number::decimal;
use crate::text::{contains, first_word_of, lines, same, starts_with, strip_prefix, trim};
#[allow(unused_imports)]
use crate::text::{after_prefix, first_word, has_prefix, has_text, line_seq, trimmed, views};
use vstd::prelude::*;

verus! {

/// The proxies that are set for a network service.
#[derive(Debug)]
pub struct ServiceProxyState {
    pub service: String,
    pub web_proxy_enabled: bool,
    pub web_proxy_server: String,
    pub web_proxy_port: String,
    pub secure_proxy_enabled: bool,
    pub secure_proxy_server: String,
    pub secure_proxy_port: String,
}

/// The proxies that are set for a network service, as character sequences.
#[verifier::ext_equal]
pub struct ServiceView {
    pub service: Seq<char>,
    pub web_proxy_enabled: bool,
    pub web_proxy_server: Seq<char>,
    pub web_proxy_port: Seq<char>,
    pub secure_proxy_enabled: bool,
    pub secure_proxy_server: Seq<char>,
    pub secure_proxy_port: Seq<char>,
}

impl View for ServiceProxyState {
    type V = ServiceView;

    open spec fn view(&self) -> ServiceView {
        ServiceView {
            service: self.service@,
            web_proxy_enabled: self.web_proxy_enabled,
            web_proxy_server: self.web_proxy_server@,
            web_proxy_port: self.web_proxy_port@,
            secure_proxy_enabled: self.secure_proxy_enabled,
            secure_proxy_server: self.secure_proxy_server@,
            secure_proxy_port: self.secure_proxy_port@,
        }
    }
}

impl Clone for ServiceProxyState {
    fn clone(&self) -> (res: Self)
        ensures
            res@ == self@,
    {
        ServiceProxyState {
            service: self.service.clone(),
            web_proxy_enabled: self.web_proxy_enabled,
            web_proxy_server: self.web_proxy_server.clone(),
            web_proxy_port: self.web_proxy_port.clone(),
            secure_proxy_enabled: self.secure_proxy_enabled,
            secure_proxy_server: self.secure_proxy_server.clone(),
            secure_proxy_port: self.secure_proxy_port.clone(),
        }
    }
}

/// The proxies that were set before the system was told to use this one.
#[derive(Debug)]
pub struct SavedProxyState {
    pub services: Vec<ServiceProxyState>,
}

impl Clone for SavedProxyState {
    fn clone(&self) -> (res: Self)
        ensures
            service_views(res.services@) == service_views(self.services@),
    {
        let ghost all = service_views(self.services@);
        let mut services: Vec<ServiceProxyState> = Vec::new();
        let mut i: usize = 0;
        while i < self.services.len()
            invariant
                i <= self.services@.len(),
                all == service_views(self.services@),
                service_views(services@) == all.subrange(0, i as int),
            decreases self.services@.len() - i,
        {
            let ghost before = service_views(services@);
            services.push(self.services[i].clone());
            assert(service_views(services@) =~= before.push(all[i as int]));
            i += 1;
            assert(service_views(services@) =~= all.subrange(0, i as int));
        }
        assert(all.subrange(0, i as int) =~= all);
        SavedProxyState { services }
    }
}

/// Saved proxies by their views.
pub open spec fn service_views(v: Seq<ServiceProxyState>) -> Seq<ServiceView> {
    v.map_values(|s: ServiceProxyState| s@)
}

/// A list of commands by their views.
pub open spec fn command_views(v: Seq<Vec<String>>) -> Seq<Seq<Seq<char>>> {
    v.map_values(|c: Vec<String>| views(c@))
}

/// Whether a word names a network interface that counts.
pub open spec fn is_interface(word: Seq<char>) -> bool {
    has_prefix(word, "en"@) || has_prefix(word, "utun"@) || has_prefix(word, "bridge"@)
}

/// The interfaces in the lines of `scutil --nwi`: the first words of the lines between
/// the titles for IPv4 and for IPv6, each once.
pub open spec fn interfaces_in(
    lines: Seq<Seq<char>>,
    in_ipv4: bool,
    found: Seq<Seq<char>>,
) -> Seq<Seq<char>>
    decreases lines.len(),
{
    if lines.len() == 0 {
        found
    } else {
        let rest = lines.subrange(1, lines.len() as int);
        if has_text(lines[0], "IPv4 network interface information"@) {
            interfaces_in(rest, true, found)
        } else if has_text(lines[0], "IPv6 network interface information"@) {
            found
        } else {
            match first_word(trimmed(lines[0])) {
                Some(word) if in_ipv4 && is_interface(word) && !found.contains(word) => interfaces_in(
                    rest,
                    in_ipv4,
                    found.push(word),
                ),
                _ => interfaces_in(rest, in_ipv4, found),
            }
        }
    }
}

/// Whether a list has a text.
fn has_one(list: &Vec<String>, s: &str) -> (res: bool)
    ensures
        res == views(list@).contains(s@),
{
    let ghost all = views(list@);
    let mut i: usize = 0;
    while i < list.len()
        invariant
            i <= list@.len(),
            all == views(list@),
            forall|k: int| 0 <= k < i ==> #[trigger] all[k] != s@,
        decreases list@.len() - i,
    {
        assert(all[i as int] == list@[i as int]@);
        if same(list[i].as_str(), s) {
            return true;
        }
        i += 1;
    }
    false
}

/// The active interfaces, from what `scutil --nwi` prints.
pub fn active_interfaces(nwi_text: &str) -> (res: Vec<String>)
    ensures
        views(res@) == interfaces_in(line_seq(nwi_text@), false, seq![]),
{
    let text = lines(nwi_text);
    let ghost all = views(text@);
    let mut found: Vec<String> = Vec::new();
    let mut in_ipv4 = false;
    let mut i: usize = 0;
    assert(all.subrange(0, all.len() as int) =~= all);
    assert(views(found@) =~= seq![]);
    while i < text.len()
        invariant
            i <= text@.len(),
            all == views(text@),
            all == line_seq(nwi_text@),
            interfaces_in(all, false, seq![]) == interfaces_in(
                all.subrange(i as int, all.len() as int),
                in_ipv4,
                views(found@),
            ),
        decreases text@.len() - i,
    {
        let line = text[i].as_str();
        proof {
            let here = all.subrange(i as int, all.len() as int);
            assert(here[0] == line@);
            assert(here.subrange(1, here.len() as int) =~= all.subrange(
                i + 1,
                all.len() as int,
            ));
        }
        i += 1;
        if contains(line, "IPv4 network interface information") {
            in_ipv4 = true;
            continue;
        }
        if contains(line, "IPv6 network interface information") {
            return found;
        }
        if in_ipv4 {
            if let Some(word) = first_word_of(trim(line).as_str()) {
                if (starts_with(word.as_str(), "en") || starts_with(word.as_str(), "utun")
                    || starts_with(word.as_str(), "bridge")) && !has_one(&found, word.as_str()) {
                    let ghost before = views(found@);
                    let ghost w = word@;
                    found.push(word);
                    assert(views(found@) =~= before.push(w));
                }
            }
        }
    }
    found
}

/// The services whose devices are among some interfaces, from the lines of
/// `networksetup -listallhardwareports`.
pub open spec fn services_in(
    lines: Seq<Seq<char>>,
    current: Option<Seq<char>>,
    interfaces: Seq<Seq<char>>,
) -> Seq<Seq<char>>
    decreases lines.len(),
{
    if lines.len() == 0 {
        seq![]
    } else {
        let rest = lines.subrange(1, lines.len() as int);
        match after_prefix(lines[0], "Hardware Port: "@) {
            Some(name) => services_in(rest, Some(name), interfaces),
            None => match (after_prefix(lines[0], "Device: "@), current) {
                (Some(device), Some(service)) if interfaces.contains(device) => seq![service]
                    + services_in(rest, current, interfaces),
                _ => services_in(rest, current, interfaces),
            },
        }
    }
}

/// The services whose devices are among some interfaces.
pub fn services_for(hw_text: &str, interfaces: &Vec<String>) -> (res: Vec<String>)
    ensures
        views(res@) == services_in(line_seq(hw_text@), None, views(interfaces@)),
{
    let text = lines(hw_text);
    let ghost all = views(text@);
    let mut services: Vec<String> = Vec::new();
    let mut current: Option<String> = None;
    let mut i: usize = 0;
    assert(all.subrange(0, all.len() as int) =~= all);
    assert(views(services@) + services_in(all, None, views(interfaces@)) =~= services_in(
        all,
        None,
        views(interfaces@),
    ));
    while i < text.len()
        invariant
            i <= text@.len(),
            all == views(text@),
            services_in(all, None, views(interfaces@)) == views(services@) + services_in(
                all.subrange(i as int, all.len() as int),
                current.deep_view(),
                views(interfaces@),
            ),
        decreases text@.len() - i,
    {
        let line = text[i].as_str();
        proof {
            let here = all.subrange(i as int, all.len() as int);
            assert(here[0] == line@);
            assert(here.subrange(1, here.len() as int) =~= all.subrange(
                i + 1,
                all.len() as int,
            ));
        }
        i += 1;
        if let Some(name) = strip_prefix(line, "Hardware Port: ") {
            current = Some(name);
        } else if let Some(device) = strip_prefix(line, "Device: ") {
            if let Some(service) = &current {
                if has_one(interfaces, device.as_str()) {
                    let ghost before = views(services@);
                    let ghost tail = services_in(
                        all.subrange(i as int, all.len() as int),
                        current.deep_view(),
                        views(interfaces@),
                    );
                    services.push(service.clone());
                    assert(views(services@) =~= before.push(service@));
                    assert(before + (seq![service@] + tail) =~= views(services@) + tail);
                }
            }
        }
    }
    assert(views(services@) + seq![] =~= views(services@));
    services
}

/// The services that are tried where none has been detected.
pub open spec fn fallbacks() -> Seq<Seq<char>> {
    seq!["Wi-Fi"@, "Ethernet"@, "USB 10/100/1000 LAN"@]
}

/// The services that are tried where none has been detected.
pub fn fallback_services() -> (res: Vec<String>)
    ensures
        views(res@) == fallbacks(),
{
    let res = vec!["Wi-Fi".to_owned(), "Ethernet".to_owned(), "USB 10/100/1000 LAN".to_owned()];
    assert(views(res@) =~= fallbacks());
    res
}

/// The services that are used: those that were detected, or else those of the others
/// that have answered.
pub open spec fn used_services(
    detected: Seq<Seq<char>>,
    answered: (bool, bool, bool),
) -> Seq<Seq<char>> {
    if detected.len() > 0 {
        detected
    } else {
        (if answered.0 {
            seq!["Wi-Fi"@]
        } else {
            seq![]
        }) + (if answered.1 {
            seq!["Ethernet"@]
        } else {
            seq![]
        }) + (if answered.2 {
            seq!["USB 10/100/1000 LAN"@]
        } else {
            seq![]
        })
    }
}

/// The active network services, from what `scutil` and `networksetup` print, and from
/// which of the fallback services have answered.
pub fn detect_active_services(nwi_text: &str, hw_text: &str, answered: (bool, bool, bool)) -> (res:
    Vec<String>)
    ensures
        views(res@) == used_services(
            services_in(
                line_seq(hw_text@),
                None,
                interfaces_in(line_seq(nwi_text@), false, seq![]),
            ),
            answered,
        ),
{
    let interfaces = active_interfaces(nwi_text);
    let mut services = services_for(hw_text, &interfaces);
    assert(views(services@).len() == services@.len());
    if services.len() == 0 {
        if answered.0 {
            services.push("Wi-Fi".to_owned());
        }
        if answered.1 {
            services.push("Ethernet".to_owned());
        }
        if answered.2 {
            services.push("USB 10/100/1000 LAN".to_owned());
        }
        assert(views(services@) =~= used_services(seq![], answered));
    }
    services
}

/// What follows a prefix in the first line that begins with it, without white space
/// around it.
pub open spec fn field_in(lines: Seq<Seq<char>>, prefix: Seq<char>) -> Seq<char>
    decreases lines.len(),
{
    if lines.len() == 0 {
        trimmed(seq![])
    } else {
        match after_prefix(lines[0], prefix) {
            Some(v) => trimmed(v),
            None => field_in(lines.subrange(1, lines.len() as int), prefix),
        }
    }
}

/// The value of a field in what a command prints.
pub fn parse_field(text: &str, prefix: &str) -> (res: String)
    ensures
        res@ == field_in(line_seq(text@), prefix@),
{
    let all_lines = lines(text);
    let ghost all = views(all_lines@);
    let mut i: usize = 0;
    assert(all.subrange(0, all.len() as int) =~= all);
    while i < all_lines.len()
        invariant
            i <= all_lines@.len(),
            all == views(all_lines@),
            all == line_seq(text@),
            field_in(all, prefix@) == field_in(all.subrange(i as int, all.len() as int), prefix@),
        decreases all_lines@.len() - i,
    {
        proof {
            let here = all.subrange(i as int, all.len() as int);
            assert(here[0] == all_lines@[i as int]@);
            assert(here.subrange(1, here.len() as int) =~= all.subrange(
                i + 1,
                all.len() as int,
            ));
        }
        if let Some(v) = strip_prefix(all_lines[i].as_str(), prefix) {
            return trim(v.as_str());
        }
        i += 1;
    }
    let none = String::new();
    assert(none@ =~= seq![]);
    trim(none.as_str())
}

/// Whether a line of what a command prints says that a proxy is on.
pub open spec fn says_enabled(lines: Seq<Seq<char>>) -> bool {
    exists|i: int| 0 <= i < lines.len() && has_prefix(#[trigger] lines[i], "Enabled: Yes"@)
}

/// Whether what a command prints says that a proxy is on.
fn is_enabled(text: &str) -> (res: bool)
    ensures
        res == says_enabled(line_seq(text@)),
{
    let all_lines = lines(text);
    let ghost all = views(all_lines@);
    let mut i: usize = 0;
    while i < all_lines.len()
        invariant
            i <= all_lines@.len(),
            all == views(all_lines@),
            all == line_seq(text@),
            forall|k: int| 0 <= k < i ==> !has_prefix(#[trigger] all[k], "Enabled: Yes"@),
        decreases all_lines@.len() - i,
    {
        assert(all[i as int] == all_lines@[i as int]@);
        if starts_with(all_lines[i].as_str(), "Enabled: Yes") {
            return true;
        }
        i += 1;
    }
    false
}

/// The proxies of a service, from what `networksetup` prints of them.
pub open spec fn proxy_state_of(
    service: Seq<char>,
    web: Seq<Seq<char>>,
    secure: Seq<Seq<char>>,
) -> ServiceView {
    ServiceView {
        service,
        web_proxy_enabled: says_enabled(web),
        web_proxy_server: field_in(web, "Server: "@),
        web_proxy_port: field_in(web, "Port: "@),
        secure_proxy_enabled: says_enabled(secure),
        secure_proxy_server: field_in(secure, "Server: "@),
        secure_proxy_port: field_in(secure, "Port: "@),
    }
}

/// The proxies of a service, from what `networksetup` prints of them.
pub fn read_proxy_state(service: &str, web_text: &str, secure_text: &str) -> (res:
    ServiceProxyState)
    ensures
        res@ == proxy_state_of(service@, line_seq(web_text@), line_seq(secure_text@)),
{
    ServiceProxyState {
        service: service.to_owned(),
        web_proxy_enabled: is_enabled(web_text),
        web_proxy_server: parse_field(web_text, "Server: "),
        web_proxy_port: parse_field(web_text, "Port: "),
        secure_proxy_enabled: is_enabled(secure_text),
        secure_proxy_server: parse_field(secure_text, "Server: "),
        secure_proxy_port: parse_field(secure_text, "Port: "),
    }
}

/// A command with three arguments behind its name.
fn command4(a: &str, b: &str, c: &str, d: &str) -> (res: Vec<String>)
    ensures
        views(res@) == seq![a@, b@, c@, d@],
{
    let res = vec![a.to_owned(), b.to_owned(), c.to_owned(), d.to_owned()];
    assert(views(res@) =~= seq![a@, b@, c@, d@]);
    res
}

/// A command with two arguments behind its name.
fn command3(a: &str, b: &str, c: &str) -> (res: Vec<String>)
    ensures
        views(res@) == seq![a@, b@, c@],
{
    let res = vec![a.to_owned(), b.to_owned(), c.to_owned()];
    assert(views(res@) =~= seq![a@, b@, c@]);
    res
}

/// The commands that send what a service fetches through the proxy.
pub open spec fn enabling(service: Seq<char>, port: u16) -> Seq<Seq<Seq<char>>> {
    seq![
        seq!["-setwebproxy"@, service, "127.0.0.1"@, decimal(port as nat)],
        seq!["-setsecurewebproxy"@, service, "127.0.0.1"@, decimal(port as nat)],
    ]
}

/// The command that keeps local addresses from the proxy.
pub open spec fn sparing_local(service: Seq<char>) -> Seq<Seq<char>> {
    seq!["-setproxybypassdomains"@, service, "localhost"@, "127.0.0.1"@, "*.local"@]
}

/// The commands that turn the proxies of a service off.
pub open spec fn disabling(service: Seq<char>) -> Seq<Seq<Seq<char>>> {
    seq![
        seq!["-setwebproxystate"@, service, "off"@],
        seq!["-setsecurewebproxystate"@, service, "off"@],
    ]
}

/// The commands that set the proxies of a service as they were.
pub open spec fn restoring(s: ServiceView) -> Seq<Seq<Seq<char>>> {
    seq![
        if s.web_proxy_enabled {
            seq!["-setwebproxy"@, s.service, s.web_proxy_server, s.web_proxy_port]
        } else {
            seq!["-setwebproxystate"@, s.service, "off"@]
        },
        if s.secure_proxy_enabled {
            seq!["-setsecurewebproxy"@, s.service, s.secure_proxy_server, s.secure_proxy_port]
        } else {
            seq!["-setsecurewebproxystate"@, s.service, "off"@]
        },
    ]
}

/// The commands for each of some services, one after the other.
pub open spec fn for_each(
    services: Seq<Seq<char>>,
    commands: spec_fn(Seq<char>) -> Seq<Seq<Seq<char>>>,
) -> Seq<Seq<Seq<char>>>
    decreases services.len(),
{
    if services.len() == 0 {
        seq![]
    } else {
        for_each(services.drop_last(), commands) + commands(services.last())
    }
}

/// The commands for each of some saved services, one after the other.
pub open spec fn for_each_saved(services: Seq<ServiceView>) -> Seq<Seq<Seq<char>>>
    decreases services.len(),
{
    if services.len() == 0 {
        seq![]
    } else {
        for_each_saved(services.drop_last()) + restoring(services.last())
    }
}

/// The arguments for `networksetup`, run by run, that send what some services fetch
/// through the proxy.
pub fn enable_commands(services: &Vec<String>, port: u16) -> (res: Vec<Vec<String>>)
    ensures
        command_views(res@) == for_each(views(services@), |s: Seq<char>| enabling(s, port)),
{
    let ghost all = views(services@);
    let ghost f = |s: Seq<char>| enabling(s, port);
    let port_text = decimal_text(port as u64);
    let mut res: Vec<Vec<String>> = Vec::new();
    let mut i: usize = 0;
    assert(command_views(res@) =~= for_each(all.subrange(0, 0), f));
    while i < services.len()
        invariant
            i <= services@.len(),
            all == views(services@),
            port_text@ == decimal(port as nat),
            f == (|s: Seq<char>| enabling(s, port)),
            command_views(res@) == for_each(all.subrange(0, i as int), f),
        decreases services@.len() - i,
    {
        let ghost before = command_views(res@);
        let s = services[i].as_str();
        let one = command4("-setwebproxy", s, "127.0.0.1", port_text.as_str());
        let two = command4("-setsecurewebproxy", s, "127.0.0.1", port_text.as_str());
        let ghost added = seq![views(one@), views(two@)];
        res.push(one);
        res.push(two);
        proof {
            assert(command_views(res@) =~= before + added);
            assert(added =~= enabling(s@, port));
            assert(all.subrange(0, i + 1).drop_last() =~= all.subrange(0, i as int));
            assert(all.subrange(0, i + 1).last() == s@);
        }
        i += 1;
    }
    assert(all.subrange(0, i as int) =~= all);
    res
}

/// The arguments for `networksetup`, run by run, that send what all of some services
/// fetch through the proxy, but for local addresses.
pub fn set_proxy_on_all_services(services: &Vec<String>, port: u16) -> (res: Vec<Vec<String>>)
    ensures
        command_views(res@) == for_each(
            views(services@),
            |s: Seq<char>| enabling(s, port).push(sparing_local(s)),
        ),
{
    let ghost all = views(services@);
    let ghost f = |s: Seq<char>| enabling(s, port).push(sparing_local(s));
    let port_text = decimal_text(port as u64);
    let mut res: Vec<Vec<String>> = Vec::new();
    let mut i: usize = 0;
    assert(command_views(res@) =~= for_each(all.subrange(0, 0), f));
    while i < services.len()
        invariant
            i <= services@.len(),
            all == views(services@),
            port_text@ == decimal(port as nat),
            f == (|s: Seq<char>| enabling(s, port).push(sparing_local(s))),
            command_views(res@) == for_each(all.subrange(0, i as int), f),
        decreases services@.len() - i,
    {
        let ghost before = command_views(res@);
        let s = services[i].as_str();
        let one = command4("-setwebproxy", s, "127.0.0.1", port_text.as_str());
        let two = command4("-setsecurewebproxy", s, "127.0.0.1", port_text.as_str());
        let mut three = command4("-setproxybypassdomains", s, "localhost", "127.0.0.1");
        let ghost four = views(three@);
        three.push("*.local".to_owned());
        assert(views(three@) =~= four.push("*.local"@));
        assert(views(three@) =~= sparing_local(s@));
        let ghost added = seq![views(one@), views(two@), views(three@)];
        res.push(one);
        res.push(two);
        res.push(three);
        proof {
            assert(command_views(res@) =~= before + added);
            assert(added =~= enabling(s@, port).push(sparing_local(s@)));
            assert(all.subrange(0, i + 1).drop_last() =~= all.subrange(0, i as int));
            assert(all.subrange(0, i + 1).last() == s@);
        }
        i += 1;
    }
    assert(all.subrange(0, i as int) =~= all);
    res
}

/// The arguments for `networksetup`, run by run, that turn the proxies of all of some
/// services off.
pub fn disable_proxy_on_all_services(services: &Vec<String>) -> (res: Vec<Vec<String>>)
    ensures
        command_views(res@) == for_each(views(services@), |s: Seq<char>| disabling(s)),
{
    let ghost all = views(services@);
    let ghost f = |s: Seq<char>| disabling(s);
    let mut res: Vec<Vec<String>> = Vec::new();
    let mut i: usize = 0;
    assert(command_views(res@) =~= for_each(all.subrange(0, 0), f));
    while i < services.len()
        invariant
            i <= services@.len(),
            all == views(services@),
            f == (|s: Seq<char>| disabling(s)),
            command_views(res@) == for_each(all.subrange(0, i as int), f),
        decreases services@.len() - i,
    {
        let ghost before = command_views(res@);
        let s = services[i].as_str();
        let one = command3("-setwebproxystate", s, "off");
        let two = command3("-setsecurewebproxystate", s, "off");
        let ghost added = seq![views(one@), views(two@)];
        res.push(one);
        res.push(two);
        proof {
            assert(command_views(res@) =~= before + added);
            assert(added =~= disabling(s@));
            assert(all.subrange(0, i + 1).drop_last() =~= all.subrange(0, i as int));
            assert(all.subrange(0, i + 1).last() == s@);
        }
        i += 1;
    }
    assert(all.subrange(0, i as int) =~= all);
    res
}

/// The arguments for `networksetup`, run by run, that set proxies as they were.
pub fn restore_commands(saved: &SavedProxyState) -> (res: Vec<Vec<String>>)
    ensures
        command_views(res@) == for_each_saved(service_views(saved.services@)),
{
    let ghost all = service_views(saved.services@);
    let mut res: Vec<Vec<String>> = Vec::new();
    let mut i: usize = 0;
    assert(command_views(res@) =~= for_each_saved(all.subrange(0, 0)));
    while i < saved.services.len()
        invariant
            i <= saved.services@.len(),
            all == service_views(saved.services@),
            command_views(res@) == for_each_saved(all.subrange(0, i as int)),
        decreases saved.services@.len() - i,
    {
        let ghost before = command_views(res@);
        let s = &saved.services[i];
        let one = if s.web_proxy_enabled {
            command4(
                "-setwebproxy",
                s.service.as_str(),
                s.web_proxy_server.as_str(),
                s.web_proxy_port.as_str(),
            )
        } else {
            command3("-setwebproxystate", s.service.as_str(), "off")
        };
        let two = if s.secure_proxy_enabled {
            command4(
                "-setsecurewebproxy",
                s.service.as_str(),
                s.secure_proxy_server.as_str(),
                s.secure_proxy_port.as_str(),
            )
        } else {
            command3("-setsecurewebproxystate", s.service.as_str(), "off")
        };
        let ghost added = seq![views(one@), views(two@)];
        res.push(one);
        res.push(two);
        proof {
            assert(command_views(res@) =~= before + added);
            assert(added =~= restoring(s@));
            assert(all.subrange(0, i + 1).drop_last() =~= all.subrange(0, i as int));
            assert(all.subrange(0, i + 1).last() == s@);
        }
        i += 1;
    }
    assert(all.subrange(0, i as int) =~= all);
    res
}

/// No interface is listed twice.
pub proof fn law_interfaces_once(lines: Seq<Seq<char>>, in_ipv4: bool, found: Seq<Seq<char>>)
    requires
        found.no_duplicates(),
    ensures
        interfaces_in(lines, in_ipv4, found).no_duplicates(),
    decreases lines.len(),
{
    if lines.len() > 0 {
        let rest = lines.subrange(1, lines.len() as int);
        law_interfaces_once(rest, true, found);
        law_interfaces_once(rest, in_ipv4, found);
        if let Some(word) = first_word(trimmed(lines[0])) {
            if !found.contains(word) {
                assert(found.push(word).no_duplicates()) by {
                    assert forall|i: int, j: int|
                        0 <= i < found.len() + 1 && 0 <= j < found.len() + 1 && i
                            != j implies found.push(word)[i] != found.push(word)[j] by {
                        if i < found.len() {
                            assert(found.contains(found[i]));
                        }
                        if j < found.len() {
                            assert(found.contains(found[j]));
                        }
                    }
                }
                law_interfaces_once(rest, in_ipv4, found.push(word));
            }
        }
    }
}

/// Restoring touches exactly the proxies that enabling changes: for each saved service
/// the web proxy and the secure one, in this order.
pub proof fn law_restore_covers(services: Seq<ServiceView>, i: int)
    requires
        0 <= i < services.len(),
    ensures
        for_each_saved(services).len() == 2 * services.len(),
        for_each_saved(services)[2 * i] == restoring(services[i])[0],
        for_each_saved(services)[2 * i + 1] == restoring(services[i])[1],
    decreases services.len(),
{
    lemma_saved_len(services);
    lemma_saved_len(services.drop_last());
    if i < services.len() - 1 {
        law_restore_covers(services.drop_last(), i);
    }
}

proof fn lemma_saved_len(services: Seq<ServiceView>)
    ensures
        for_each_saved(services).len() == 2 * services.len(),
    decreases services.len(),
{
    if services.len() > 0 {
        lemma_saved_len(services.drop_last());
    }
}

} // verus!
