//! What holds of the commands and of what is read from their answers.
#[allow(unused_imports)]
use crate::macos::cert_install::{
    cert_path, fingerprint_args, install_args, key_path, must_generate,
};
#[allow(unused_imports)]
use crate::macos::system_proxy::{
    active_interfaces, command_views, detect_active_services, disable_proxy_on_all_services,
    disabling, enable_commands, enabling, fallback_services, field_in, for_each, interfaces_in,
    law_interfaces_once, law_restore_covers, parse_field, read_proxy_state, restore_commands,
    service_views, services_for, services_in, set_proxy_on_all_services, sparing_local,
    SavedProxyState, ServiceProxyState,
};
#[allow(unused_imports)]
use crate::number::decimal_text;
#[allow(unused_imports)]
use crate::path::join_path;
#[allow(unused_imports)]
use crate::text::{
    after_prefix, first_word, has_prefix, has_text, lines, trim, trimmed, views,
};
use vstd::prelude::*;

verus! {

/// Whether a line opens the part about the fourth version of the protocol.
pub open spec fn opens_v4(line: Seq<char>) -> bool {
    has_text(line, "IPv4 network interface information"@)
}

/// Whether a line opens the part about the sixth version of the protocol.
pub open spec fn opens_v6(line: Seq<char>) -> bool {
    has_text(line, "IPv6 network interface information"@)
}

/// Whether a line begins with a word, in a part about the fourth version: behind a line that
/// opens one, and not behind one that opens the other part.
pub open spec fn stands_in_v4(s: Seq<Seq<char>>, open: bool, i: int, word: Seq<char>) -> bool {
    &&& 0 <= i < s.len()
    &&& first_word(trimmed(s[i])) == Some(word)
    &&& open || exists|j: int| 0 <= j < i && opens_v4(#[trigger] s[j])
    &&& !opens_v4(s[i])
    &&& forall|j: int| 0 <= j <= i ==> opens_v4(#[trigger] s[j]) || !opens_v6(s[j])
}

/// A word further down.
proof fn lemma_further(s: Seq<Seq<char>>, open: bool, i: int, word: Seq<char>)
    requires
        s.len() > 0,
        0 < i,
    ensures
        stands_in_v4(s, open, i, word) <==> (opens_v4(s[0]) || !opens_v6(s[0])) && stands_in_v4(
            s.subrange(1, s.len() as int),
            open || opens_v4(s[0]),
            i - 1,
            word,
        ),
{
    let t = s.subrange(1, s.len() as int);
    if stands_in_v4(s, open, i, word) {
        assert(opens_v4(s[0]) || !opens_v6(s[0]));
        assert(t[i - 1] == s[i]);
        if !open && !opens_v4(s[0]) {
            let j = choose|j: int| 0 <= j < i && opens_v4(#[trigger] s[j]);
            assert(t[j - 1] == s[j]);
        }
        assert forall|j: int| 0 <= j <= i - 1 implies opens_v4(#[trigger] t[j]) || !opens_v6(
            t[j],
        ) by {
            assert(t[j] == s[j + 1]);
        }
    }
    if (opens_v4(s[0]) || !opens_v6(s[0])) && stands_in_v4(t, open || opens_v4(s[0]), i - 1, word) {
        assert(t[i - 1] == s[i]);
        if !open && !opens_v4(s[0]) {
            let j = choose|j: int| 0 <= j < i - 1 && opens_v4(#[trigger] t[j]);
            assert(s[j + 1] == t[j]);
            assert(opens_v4(s[j + 1]));
        }
        assert forall|j: int| 0 <= j <= i implies opens_v4(#[trigger] s[j]) || !opens_v6(s[j]) by {
            if j > 0 {
                assert(t[j - 1] == s[j]);
                assert(opens_v4(t[j - 1]) || !opens_v6(t[j - 1]));
            }
        }
    }
}

/// The interfaces are the words at such places that name one.
proof fn lemma_interfaces(s: Seq<Seq<char>>, open: bool, found: Seq<Seq<char>>, word: Seq<char>)
    ensures
        interfaces_in(s, open, found).contains(word) <==> found.contains(word) || ((has_prefix(
            word,
            "en"@,
        ) || has_prefix(word, "utun"@) || has_prefix(word, "bridge"@)) && exists|i: int| #[trigger]
            stands_in_v4(s, open, i, word)),
    decreases s.len(),
{
    if s.len() > 0 {
        let t = s.subrange(1, s.len() as int);
        let first = first_word(trimmed(s[0]));
        let now_open = open || opens_v4(s[0]);
        assert forall|i: int| 0 < i implies #[trigger] stands_in_v4(s, open, i, word) == ((opens_v4(
            s[0],
        ) || !opens_v6(s[0])) && stands_in_v4(t, now_open, i - 1, word)) by {
            lemma_further(s, open, i, word);
        }
        assert(forall|i: int| #[trigger] stands_in_v4(t, now_open, i, word) && (opens_v4(s[0])
            || !opens_v6(s[0])) ==> stands_in_v4(s, open, i + 1, word));
        if opens_v4(s[0]) {
            lemma_interfaces(t, true, found, word);
            assert(!stands_in_v4(s, open, 0, word));
        } else if opens_v6(s[0]) {
            assert forall|i: int| !#[trigger] stands_in_v4(s, open, i, word) by {
                if stands_in_v4(s, open, i, word) {
                    assert(opens_v4(s[0]) || !opens_v6(s[0]));
                }
            }
        } else {
            assert(stands_in_v4(s, open, 0, word) <==> open && first == Some(word));
            match first {
                Some(w) if open && crate::macos::system_proxy::is_interface(w) && !found.contains(
                    w,
                ) => {
                    lemma_interfaces(t, open, found.push(w), word);
                    lemma_push(found, w, word);
                },
                _ => {
                    lemma_interfaces(t, open, found, word);
                },
            }
        }
    }
}

/// What is there once one more has come.
proof fn lemma_push(s: Seq<Seq<char>>, x: Seq<char>, y: Seq<char>)
    ensures
        s.push(x).contains(y) <==> s.contains(y) || x == y,
{
    let t = s.push(x);
    if s.contains(y) {
        let k = choose|k: int| 0 <= k < s.len() && s[k] == y;
        assert(t[k] == y);
    }
    if x == y {
        assert(t[s.len() as int] == y);
    }
    if t.contains(y) && x != y {
        let k = choose|k: int| 0 <= k < t.len() && t[k] == y;
        assert(s[k] == y);
    }
}

/// The active interfaces are those that are named at the start of a line in the part about
/// the fourth version of the protocol, each once.
pub proof fn law_active_interfaces(
    nwi_text: &str,
    text: Vec<String>,
    res: Vec<String>,
    word: Seq<char>,
)
    requires
        call_ensures(active_interfaces, (nwi_text,), res),
        call_ensures(lines, (nwi_text,), text),
    ensures
        views(res@).contains(word) <==> (has_prefix(word, "en"@) || has_prefix(word, "utun"@)
            || has_prefix(word, "bridge"@)) && exists|i: int| #[trigger]
            stands_in_v4(views(text@), false, i, word),
        views(res@).no_duplicates(),
{
    lemma_interfaces(views(text@), false, seq![], word);
    law_interfaces_once(views(text@), false, seq![]);
}

/// What was found first stays first.
proof fn lemma_found_first(s: Seq<Seq<char>>, open: bool, found: Seq<Seq<char>>)
    ensures
        found.is_prefix_of(interfaces_in(s, open, found)),
    decreases s.len(),
{
    if s.len() > 0 {
        let t = s.subrange(1, s.len() as int);
        lemma_found_first(t, true, found);
        lemma_found_first(t, open, found);
        if let Some(w) = first_word(trimmed(s[0])) {
            lemma_found_first(t, open, found.push(w));
            let r = interfaces_in(t, open, found.push(w));
            assert(found =~= found.push(w).subrange(0, found.len() as int));
            assert(found.is_prefix_of(r)) by {
                assert(found =~= r.subrange(0, found.len() as int));
            }
        }
    }
}

/// What is found in the first lines comes first.
proof fn lemma_front_first(
    a: Seq<Seq<char>>,
    b: Seq<Seq<char>>,
    open: bool,
    found: Seq<Seq<char>>,
)
    ensures
        interfaces_in(a, open, found).is_prefix_of(interfaces_in(a + b, open, found)),
    decreases a.len(),
{
    if a.len() == 0 {
        assert(a + b =~= b);
        lemma_found_first(b, open, found);
    } else {
        let t = a.subrange(1, a.len() as int);
        assert((a + b).subrange(1, (a + b).len() as int) =~= t + b);
        assert((a + b)[0] == a[0]);
        lemma_front_first(t, b, true, found);
        lemma_front_first(t, b, open, found);
        if let Some(w) = first_word(trimmed(a[0])) {
            lemma_front_first(t, b, open, found.push(w));
        }
    }
}

/// Interfaces are in the order in which they are named: what the first lines name comes
/// first.
pub proof fn law_interfaces_in_order(
    nwi_text: &str,
    text: Vec<String>,
    res: Vec<String>,
    front_text: &str,
    front: Vec<String>,
    first: Vec<String>,
)
    requires
        call_ensures(active_interfaces, (nwi_text,), res),
        call_ensures(lines, (nwi_text,), text),
        call_ensures(active_interfaces, (front_text,), first),
        call_ensures(lines, (front_text,), front),
        views(front@).is_prefix_of(views(text@)),
    ensures
        views(first@).is_prefix_of(views(res@)),
{
    let (a, s) = (views(front@), views(text@));
    let b = s.subrange(a.len() as int, s.len() as int);
    assert(a + b =~= s);
    lemma_front_first(a, b, false, seq![]);
}

/// The port that is described at a line: that of the last line before it that names one.
pub open spec fn port_at(s: Seq<Seq<char>>, named: Option<Seq<char>>, i: int) -> Option<Seq<char>>
    decreases i,
{
    if i <= 0 {
        named
    } else {
        match after_prefix(s[i - 1], "Hardware Port: "@) {
            Some(name) => Some(name),
            None => port_at(s, named, i - 1),
        }
    }
}

/// The port that is described, without the first line.
proof fn lemma_port_at(s: Seq<Seq<char>>, named: Option<Seq<char>>, i: int)
    requires
        0 < i <= s.len(),
    ensures
        port_at(s, named, i) == port_at(s.subrange(1, s.len() as int), port_at(s, named, 1), i - 1),
    decreases i,
{
    reveal_with_fuel(port_at, 2);
    if i > 1 {
        lemma_port_at(s, named, i - 1);
        assert(s.subrange(1, s.len() as int)[i - 2] == s[i - 1]);
    }
}

/// Whether a line gives the device of a service that is one of some interfaces.
pub open spec fn device_of(
    s: Seq<Seq<char>>,
    named: Option<Seq<char>>,
    interfaces: Seq<Seq<char>>,
    i: int,
    service: Seq<char>,
) -> bool {
    &&& 0 <= i < s.len()
    &&& after_prefix(s[i], "Hardware Port: "@) is None
    &&& after_prefix(s[i], "Device: "@) matches Some(device) && interfaces.contains(device)
    &&& port_at(s, named, i) == Some(service)
}

/// The services with such devices.
proof fn lemma_services(
    s: Seq<Seq<char>>,
    named: Option<Seq<char>>,
    interfaces: Seq<Seq<char>>,
    service: Seq<char>,
)
    ensures
        services_in(s, named, interfaces).contains(service) <==> exists|i: int| #[trigger]
            device_of(s, named, interfaces, i, service),
    decreases s.len(),
{
    if s.len() > 0 {
        let t = s.subrange(1, s.len() as int);
        let next = port_at(s, named, 1);
        reveal_with_fuel(port_at, 2);
        assert forall|i: int| 0 < i implies #[trigger] device_of(s, named, interfaces, i, service)
            == device_of(t, next, interfaces, i - 1, service) by {
            if i < s.len() {
                assert(t[i - 1] == s[i]);
                lemma_port_at(s, named, i);
            }
        }
        assert(forall|i: int| #[trigger]
            device_of(t, next, interfaces, i, service) ==> device_of(
                s,
                named,
                interfaces,
                i + 1,
                service,
            ));
        lemma_services(t, next, interfaces, service);
        let rest = services_in(t, next, interfaces);
        let all = services_in(s, named, interfaces);
        let here = device_of(s, named, interfaces, 0, service);
        let one_more = after_prefix(s[0], "Hardware Port: "@) is None && (after_prefix(
            s[0],
            "Device: "@,
        ) matches Some(device) && interfaces.contains(device)) && named is Some;
        if one_more {
            assert(all == seq![named->0] + rest);
            if rest.contains(service) {
                let k = choose|k: int| 0 <= k < rest.len() && rest[k] == service;
                assert(all[k + 1] == service);
            }
            if here {
                assert(all[0] == service);
            }
            if all.contains(service) && !here {
                let k = choose|k: int| 0 <= k < all.len() && all[k] == service;
                assert(rest[k - 1] == service);
            }
        } else {
            assert(all == rest);
        }
    }
}

/// The services for some interfaces are those whose device is one of them.
pub proof fn law_services_for(
    hw_text: &str,
    interfaces: &Vec<String>,
    text: Vec<String>,
    res: Vec<String>,
    service: Seq<char>,
)
    requires
        call_ensures(services_for, (hw_text, interfaces), res),
        call_ensures(lines, (hw_text,), text),
    ensures
        views(res@).contains(service) <==> exists|i: int| #[trigger]
            device_of(views(text@), None, views(interfaces@), i, service),
{
    lemma_services(views(text@), None, views(interfaces@), service);
}

/// The services in some lines and then others.
proof fn lemma_services_split(
    a: Seq<Seq<char>>,
    b: Seq<Seq<char>>,
    named: Option<Seq<char>>,
    interfaces: Seq<Seq<char>>,
)
    requires
        b.len() > 0,
        after_prefix(b[0], "Hardware Port: "@) is Some,
    ensures
        services_in(a + b, named, interfaces) == services_in(a, named, interfaces) + services_in(
            b,
            None,
            interfaces,
        ),
    decreases a.len(),
{
    let whole = services_in(a + b, named, interfaces);
    let back = services_in(b, None, interfaces);
    if a.len() == 0 {
        assert(a + b =~= b);
        assert(whole =~= services_in(a, named, interfaces) + back);
    } else {
        let t = a.subrange(1, a.len() as int);
        assert((a + b).subrange(1, (a + b).len() as int) =~= t + b);
        assert((a + b)[0] == a[0]);
        lemma_services_split(t, b, named, interfaces);
        if let Some(name) = after_prefix(a[0], "Hardware Port: "@) {
            lemma_services_split(t, b, Some(name), interfaces);
        }
        assert(whole =~= services_in(a, named, interfaces) + back);
    }
}

/// Services are in the order in which they are described: those of the first lines, and then
/// those of the lines from a port on.
pub proof fn law_services_in_order(
    interfaces: &Vec<String>,
    hw_text: &str,
    text: Vec<String>,
    res: Vec<String>,
    front_text: &str,
    front: Vec<String>,
    first: Vec<String>,
    back_text: &str,
    back: Vec<String>,
    second: Vec<String>,
)
    requires
        call_ensures(services_for, (hw_text, interfaces), res),
        call_ensures(lines, (hw_text,), text),
        call_ensures(services_for, (front_text, interfaces), first),
        call_ensures(lines, (front_text,), front),
        call_ensures(services_for, (back_text, interfaces), second),
        call_ensures(lines, (back_text,), back),
        views(text@) == views(front@) + views(back@),
        back@.len() > 0,
        has_prefix(back@[0]@, "Hardware Port: "@),
    ensures
        views(res@) == views(first@) + views(second@),
{
    assert(views(back@)[0] == back@[0]@);
    lemma_services_split(views(front@), views(back@), None, views(interfaces@));
}

/// The services that are used are those of the active interfaces; without one, those of the
/// usual three that answer.
pub proof fn law_active_services(
    nwi_text: &str,
    hw_text: &str,
    answered: (bool, bool, bool),
    res: Vec<String>,
    interfaces: Vec<String>,
    services: Vec<String>,
    usual: Vec<String>,
)
    requires
        call_ensures(detect_active_services, (nwi_text, hw_text, answered), res),
        call_ensures(active_interfaces, (nwi_text,), interfaces),
        call_ensures(services_for, (hw_text, &interfaces), services),
        call_ensures(fallback_services, (), usual),
    ensures
        views(usual@) == seq!["Wi-Fi"@, "Ethernet"@, "USB 10/100/1000 LAN"@],
        services@.len() > 0 ==> views(res@) == views(services@),
        services@.len() == 0 ==> {
            &&& answered == (true, true, true) ==> views(res@) == views(usual@)
            &&& answered == (false, false, false) ==> res@.len() == 0
            &&& views(res@).contains("Wi-Fi"@) <==> answered.0
            &&& views(res@).contains("Ethernet"@) <==> answered.1
            &&& views(res@).contains("USB 10/100/1000 LAN"@) <==> answered.2
        },
{
    assert(views(services@).len() == services@.len());
    assert(views(res@).len() == res@.len());
    reveal_strlit("Wi-Fi");
    reveal_strlit("Ethernet");
    reveal_strlit("USB 10/100/1000 LAN");
    let (a, b, c) = ("Wi-Fi"@, "Ethernet"@, "USB 10/100/1000 LAN"@);
    assert(a.len() == 5 && b.len() == 8 && c.len() == 19);
    if services@.len() == 0 {
        let s = views(res@);
        let n = if answered.0 {
            1int
        } else {
            0
        };
        let m = if answered.1 {
            n + 1
        } else {
            n
        };
        if answered.0 {
            assert(s[0] == a);
        }
        if answered.1 {
            assert(s[n] == b);
        }
        if answered.2 {
            assert(s[m] == c);
        }
        if answered == (true, true, true) {
            assert(s =~= views(usual@));
        }
    }
}

/// A field is the rest of the first line that begins with its name, without white space
/// around it, and is empty without such a line.
pub proof fn law_parse_field(
    text: &str,
    prefix: &str,
    res: String,
    all: Vec<String>,
    i: int,
    value: &str,
    bare: String,
)
    requires
        call_ensures(parse_field, (text, prefix), res),
        call_ensures(lines, (text,), all),
        call_ensures(trim, (value,), bare),
    ensures
        0 <= i < all@.len() && all@[i]@ == prefix@ + value@ && (forall|j: int|
            0 <= j < i ==> !has_prefix((#[trigger] all@[j])@, prefix@)) ==> res@ == bare@,
        (forall|j: int| 0 <= j < all@.len() ==> !has_prefix((#[trigger] all@[j])@, prefix@))
            ==> res@.len() == 0,
{
    let s = views(all@);
    assert(s.len() == all@.len());
    assert forall|j: int| 0 <= j < s.len() implies s[j] == (#[trigger] all@[j])@ by {}
    if 0 <= i < all@.len() && all@[i]@ == prefix@ + value@ && (forall|j: int|
        0 <= j < i ==> !has_prefix((#[trigger] all@[j])@, prefix@)) {
        assert forall|j: int| 0 <= j < i implies !has_prefix(#[trigger] s[j], prefix@) by {
            assert(!has_prefix(all@[j]@, prefix@));
        }
        lemma_field(s, prefix@, i, value@);
    }
    if forall|j: int| 0 <= j < all@.len() ==> !has_prefix((#[trigger] all@[j])@, prefix@) {
        assert forall|j: int| 0 <= j < s.len() implies !has_prefix(#[trigger] s[j], prefix@) by {
            assert(!has_prefix(all@[j]@, prefix@));
        }
        lemma_no_field(s, prefix@);
    }
}

/// The first line with a name.
proof fn lemma_field(s: Seq<Seq<char>>, prefix: Seq<char>, i: int, value: Seq<char>)
    requires
        0 <= i < s.len(),
        s[i] == prefix + value,
        forall|j: int| 0 <= j < i ==> !has_prefix(#[trigger] s[j], prefix),
    ensures
        field_in(s, prefix) == trimmed(value),
    decreases s.len(),
{
    let t = s.subrange(1, s.len() as int);
    if i == 0 {
        let n = prefix.len() as int;
        assert(s[0].subrange(0, n) =~= prefix);
        assert(s[0].subrange(n, s[0].len() as int) =~= value);
    } else {
        assert(!has_prefix(s[0], prefix));
        assert(t[i - 1] == s[i]);
        assert forall|j: int| 0 <= j < i - 1 implies !has_prefix(#[trigger] t[j], prefix) by {
            assert(!has_prefix(s[j + 1], prefix));
        }
        lemma_field(t, prefix, i - 1, value);
    }
}

/// No line with a name.
proof fn lemma_no_field(s: Seq<Seq<char>>, prefix: Seq<char>)
    requires
        forall|j: int| 0 <= j < s.len() ==> !has_prefix(#[trigger] s[j], prefix),
    ensures
        field_in(s, prefix).len() == 0,
    decreases s.len(),
{
    if s.len() > 0 {
        let t = s.subrange(1, s.len() as int);
        assert(!has_prefix(s[0], prefix));
        assert forall|j: int| 0 <= j < t.len() implies !has_prefix(#[trigger] t[j], prefix) by {
            assert(!has_prefix(s[j + 1], prefix));
        }
        lemma_no_field(t, prefix);
    }
}

/// What is saved of a service are its two proxies: whether a line says that they are on, and
/// their servers and ports.
pub proof fn law_read_proxy_state(
    service: &str,
    web_text: &str,
    secure_text: &str,
    res: ServiceProxyState,
    web_lines: Vec<String>,
    secure_lines: Vec<String>,
    web_server: String,
    web_port: String,
    secure_server: String,
    secure_port: String,
)
    requires
        call_ensures(read_proxy_state, (service, web_text, secure_text), res),
        call_ensures(lines, (web_text,), web_lines),
        call_ensures(lines, (secure_text,), secure_lines),
        call_ensures(parse_field, (web_text, "Server: "), web_server),
        call_ensures(parse_field, (web_text, "Port: "), web_port),
        call_ensures(parse_field, (secure_text, "Server: "), secure_server),
        call_ensures(parse_field, (secure_text, "Port: "), secure_port),
    ensures
        res.service@ == service@,
        res.web_proxy_enabled <==> exists|i: int|
            0 <= i < web_lines@.len() && has_prefix(
                (#[trigger] web_lines@[i])@,
                "Enabled: Yes"@,
            ),
        res.web_proxy_server@ == web_server@,
        res.web_proxy_port@ == web_port@,
        res.secure_proxy_enabled <==> exists|i: int|
            0 <= i < secure_lines@.len() && has_prefix(
                (#[trigger] secure_lines@[i])@,
                "Enabled: Yes"@,
            ),
        res.secure_proxy_server@ == secure_server@,
        res.secure_proxy_port@ == secure_port@,
{
    let v = res@;
    assert(v.service == service@);
    lemma_enabled(web_lines@);
    lemma_enabled(secure_lines@);
}

/// Lines by their views.
proof fn lemma_enabled(all: Seq<String>)
    ensures
        crate::macos::system_proxy::says_enabled(views(all)) <==> exists|i: int|
            0 <= i < all.len() && has_prefix((#[trigger] all[i])@, "Enabled: Yes"@),
{
    let s = views(all);
    if crate::macos::system_proxy::says_enabled(s) {
        let i = choose|i: int| 0 <= i < s.len() && has_prefix(#[trigger] s[i], "Enabled: Yes"@);
        assert(has_prefix(all[i]@, "Enabled: Yes"@));
    }
    if exists|i: int| 0 <= i < all.len() && has_prefix((#[trigger] all[i])@, "Enabled: Yes"@) {
        let i = choose|i: int|
            0 <= i < all.len() && has_prefix((#[trigger] all[i])@, "Enabled: Yes"@);
        assert(has_prefix(s[i], "Enabled: Yes"@));
    }
}

/// Two commands for each service.
proof fn lemma_two_each(
    services: Seq<Seq<char>>,
    commands: spec_fn(Seq<char>) -> Seq<Seq<Seq<char>>>,
    i: int,
)
    requires
        forall|s: Seq<char>| (#[trigger] commands(s)).len() == 2,
    ensures
        for_each(services, commands).len() == 2 * services.len(),
        0 <= i < services.len() ==> for_each(services, commands)[2 * i] == commands(services[i])[0]
            && for_each(services, commands)[2 * i + 1] == commands(services[i])[1],
    decreases services.len(),
{
    if services.len() > 0 {
        let t = services.drop_last();
        lemma_two_each(t, commands, i);
        assert(commands(services.last()).len() == 2);
        if 0 <= i < t.len() {
            assert(t[i] == services[i]);
        }
    }
}

/// Three commands for each service.
proof fn lemma_three_each(
    services: Seq<Seq<char>>,
    commands: spec_fn(Seq<char>) -> Seq<Seq<Seq<char>>>,
    i: int,
)
    requires
        forall|s: Seq<char>| (#[trigger] commands(s)).len() == 3,
    ensures
        for_each(services, commands).len() == 3 * services.len(),
        0 <= i < services.len() ==> for_each(services, commands)[3 * i] == commands(services[i])[0]
            && for_each(services, commands)[3 * i + 1] == commands(services[i])[1] && for_each(
            services,
            commands,
        )[3 * i + 2] == commands(services[i])[2],
    decreases services.len(),
{
    if services.len() > 0 {
        let t = services.drop_last();
        lemma_three_each(t, commands, i);
        assert(commands(services.last()).len() == 3);
        if 0 <= i < t.len() {
            assert(t[i] == services[i]);
        }
    }
}

/// The commands that turn the proxy on set it for each service, for plain and for secure
/// connections, and, when it is set for all, spare local addresses.
pub proof fn law_enabling(
    services: &Vec<String>,
    port: u16,
    res: Vec<Vec<String>>,
    full: Vec<Vec<String>>,
    number: String,
    i: int,
)
    requires
        call_ensures(enable_commands, (services, port), res),
        call_ensures(set_proxy_on_all_services, (services, port), full),
        call_ensures(decimal_text, (port as u64,), number),
        0 <= i < services@.len(),
    ensures
        res@.len() == 2 * services@.len(),
        views(res@[2 * i]@) == seq!["-setwebproxy"@, services@[i]@, "127.0.0.1"@, number@],
        views(res@[2 * i + 1]@) == seq![
            "-setsecurewebproxy"@,
            services@[i]@,
            "127.0.0.1"@,
            number@,
        ],
        full@.len() == 3 * services@.len(),
        views(full@[3 * i]@) == views(res@[2 * i]@),
        views(full@[3 * i + 1]@) == views(res@[2 * i + 1]@),
        views(full@[3 * i + 2]@) == seq![
            "-setproxybypassdomains"@,
            services@[i]@,
            "localhost"@,
            "127.0.0.1"@,
            "*.local"@,
        ],
{
    let s = views(services@);
    assert(s[i] == services@[i]@ && s.len() == services@.len());
    lemma_two_each(s, |x: Seq<char>| enabling(x, port), i);
    lemma_three_each(s, |x: Seq<char>| enabling(x, port).push(sparing_local(x)), i);
    assert(command_views(res@).len() == res@.len() && command_views(full@).len() == full@.len());
    assert(command_views(res@)[2 * i] == views(res@[2 * i]@));
    assert(command_views(res@)[2 * i + 1] == views(res@[2 * i + 1]@));
    assert(command_views(full@)[3 * i] == views(full@[3 * i]@));
    assert(command_views(full@)[3 * i + 1] == views(full@[3 * i + 1]@));
    assert(command_views(full@)[3 * i + 2] == views(full@[3 * i + 2]@));
}

/// The commands that turn the proxy off do so for each service, for plain and for secure
/// connections.
pub proof fn law_disabling(services: &Vec<String>, res: Vec<Vec<String>>, i: int)
    requires
        call_ensures(disable_proxy_on_all_services, (services,), res),
        0 <= i < services@.len(),
    ensures
        res@.len() == 2 * services@.len(),
        views(res@[2 * i]@) == seq!["-setwebproxystate"@, services@[i]@, "off"@],
        views(res@[2 * i + 1]@) == seq!["-setsecurewebproxystate"@, services@[i]@, "off"@],
{
    let s = views(services@);
    assert(s[i] == services@[i]@ && s.len() == services@.len());
    lemma_two_each(s, |x: Seq<char>| disabling(x), i);
    assert(command_views(res@).len() == res@.len());
    assert(command_views(res@)[2 * i] == views(res@[2 * i]@));
    assert(command_views(res@)[2 * i + 1] == views(res@[2 * i + 1]@));
}

/// The commands that restore what was saved set each proxy that was on as it was, and turn
/// each off that was off.
pub proof fn law_restoring(saved: &SavedProxyState, res: Vec<Vec<String>>, i: int)
    requires
        call_ensures(restore_commands, (saved,), res),
        0 <= i < saved.services@.len(),
    ensures
        res@.len() == 2 * saved.services@.len(),
        ({
            let s = saved.services@[i];
            &&& s.web_proxy_enabled ==> views(res@[2 * i]@) == seq![
                "-setwebproxy"@,
                s.service@,
                s.web_proxy_server@,
                s.web_proxy_port@,
            ]
            &&& !s.web_proxy_enabled ==> views(res@[2 * i]@) == seq![
                "-setwebproxystate"@,
                s.service@,
                "off"@,
            ]
            &&& s.secure_proxy_enabled ==> views(res@[2 * i + 1]@) == seq![
                "-setsecurewebproxy"@,
                s.service@,
                s.secure_proxy_server@,
                s.secure_proxy_port@,
            ]
            &&& !s.secure_proxy_enabled ==> views(res@[2 * i + 1]@) == seq![
                "-setsecurewebproxystate"@,
                s.service@,
                "off"@,
            ]
        }),
{
    let s = service_views(saved.services@);
    assert(s[i] == saved.services@[i]@ && s.len() == saved.services@.len());
    law_restore_covers(s, i);
    assert(command_views(res@).len() == res@.len());
    assert(command_views(res@)[2 * i] == views(res@[2 * i]@));
    assert(command_views(res@)[2 * i + 1] == views(res@[2 * i + 1]@));
}

/// The certificate and its key lie in one directory, are made unless both are there, and the
/// commands are about the certificate.
pub proof fn law_certificate(
    ca_dir: &str,
    cert: String,
    key: String,
    cert_file: String,
    key_file: String,
    cert_exists: bool,
    key_exists: bool,
    make: bool,
    path: &str,
    show: Vec<String>,
    install: Vec<String>,
)
    requires
        call_ensures(cert_path, (ca_dir,), cert),
        call_ensures(key_path, (ca_dir,), key),
        call_ensures(join_path, (ca_dir, "ca.crt"), cert_file),
        call_ensures(join_path, (ca_dir, "ca.key"), key_file),
        call_ensures(must_generate, (cert_exists, key_exists), make),
        call_ensures(fingerprint_args, (path,), show),
        call_ensures(install_args, (path,), install),
    ensures
        cert@ == cert_file@,
        key@ == key_file@,
        make <==> !cert_exists || !key_exists,
        views(show@) == seq!["x509"@, "-in"@, path@, "-noout"@, "-fingerprint"@, "-sha256"@],
        views(install@) == seq![
            "add-trusted-cert"@,
            "-d"@,
            "-r"@,
            "trustRoot"@,
            "-k"@,
            "/Library/Keychains/System.keychain"@,
            path@,
        ],
{
}

} // verus!
