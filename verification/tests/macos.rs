use proxy_core::macos::cert_install::{cert_path, fingerprint_args, install_args, key_path, must_generate};
use proxy_core::macos::system_proxy::{
    active_interfaces, detect_active_services, disable_proxy_on_all_services, enable_commands,
    fallback_services, parse_field, read_proxy_state, restore_commands, services_for,
    set_proxy_on_all_services, SavedProxyState,
};

const NWI: &str = "Network information\n\nen9 : before\nIPv4 network interface information\n     en0 : flags      : 0x5\n           address    : 192.168.1.2\n     utun3 : flags\n     en0 : again\n     lo0 : flags\n\nIPv6 network interface information\n     en5 : flags\n";

const PORTS: &str = "\nHardware Port: Wi-Fi\nDevice: en0\nEthernet Address: aa\n\nHardware Port: Thunderbolt\nDevice: en1\n\nHardware Port: VPN\nDevice: utun3\n";

#[test]
fn interfaces_are_those_of_ipv4() {
    assert_eq!(active_interfaces(NWI), vec!["en0", "utun3"]);
    assert!(active_interfaces("").is_empty());
    assert!(active_interfaces("en0 : x").is_empty());
}

#[test]
fn services_have_active_devices() {
    let interfaces = active_interfaces(NWI);
    assert_eq!(services_for(PORTS, &interfaces), vec!["Wi-Fi", "VPN"]);
    assert!(services_for("Device: en0\n", &interfaces).is_empty());
    assert_eq!(detect_active_services(NWI, PORTS, (true, true, true)), vec!["Wi-Fi", "VPN"]);
    assert_eq!(
        detect_active_services("", PORTS, (true, false, true)),
        vec!["Wi-Fi", "USB 10/100/1000 LAN"]
    );
    assert_eq!(detect_active_services("", "", (false, true, false)), vec!["Ethernet"]);
    assert_eq!(fallback_services(), vec!["Wi-Fi", "Ethernet", "USB 10/100/1000 LAN"]);
}

#[test]
fn fields_are_read() {
    let text = "Enabled: Yes\nServer:  10.0.0.1 \nPort: 8080\nServer: other\n";
    assert_eq!(parse_field(text, "Server: "), "10.0.0.1");
    assert_eq!(parse_field(text, "Port: "), "8080");
    assert_eq!(parse_field(text, "Nothing: "), "");
}

#[test]
fn settings_are_saved_and_restored() {
    let on = "Enabled: Yes\nServer: s\nPort: 1\n";
    let off = "Enabled: No\nServer: \nPort: 0\n";
    let saved = SavedProxyState {
        services: vec![read_proxy_state("A", on, off), read_proxy_state("B", off, on)],
    };
    let saved = saved.clone();
    assert!(saved.services[0].web_proxy_enabled && !saved.services[0].secure_proxy_enabled);
    assert_eq!(saved.services[0].web_proxy_server, "s");
    assert_eq!(saved.services[1].secure_proxy_port, "1");
    assert_eq!(
        restore_commands(&saved),
        vec![
            vec!["-setwebproxy", "A", "s", "1"],
            vec!["-setsecurewebproxystate", "A", "off"],
            vec!["-setwebproxystate", "B", "off"],
            vec!["-setsecurewebproxy", "B", "s", "1"],
        ]
    );
}

#[test]
fn services_are_told_to_use_the_proxy() {
    let services = vec!["A".to_string(), "B".to_string()];
    assert_eq!(
        enable_commands(&services, 9090),
        vec![
            vec!["-setwebproxy", "A", "127.0.0.1", "9090"],
            vec!["-setsecurewebproxy", "A", "127.0.0.1", "9090"],
            vec!["-setwebproxy", "B", "127.0.0.1", "9090"],
            vec!["-setsecurewebproxy", "B", "127.0.0.1", "9090"],
        ]
    );
    let set = set_proxy_on_all_services(&services, 1);
    assert_eq!(set.len(), 6);
    assert_eq!(set[2], vec!["-setproxybypassdomains", "A", "localhost", "127.0.0.1", "*.local"]);
    assert_eq!(
        disable_proxy_on_all_services(&vec!["A".to_string()]),
        vec![vec!["-setwebproxystate", "A", "off"], vec!["-setsecurewebproxystate", "A", "off"]]
    );
}

#[test]
fn certificates_have_their_commands() {
    assert_eq!(cert_path("/d"), "/d/ca.crt");
    assert_eq!(key_path("/d"), "/d/ca.key");
    assert!(must_generate(true, false) && must_generate(false, true) && !must_generate(true, true));
    assert_eq!(
        fingerprint_args("c"),
        vec!["x509", "-in", "c", "-noout", "-fingerprint", "-sha256"]
    );
    assert_eq!(
        install_args("c"),
        vec!["add-trusted-cert", "-d", "-r", "trustRoot", "-k", "/Library/Keychains/System.keychain", "c"]
    );
}
