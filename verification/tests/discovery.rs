//! Addresses, ports, ids and pairing codes.

use mykvm::addresses::{
    classify_address, prefer_lan_addresses, usable_discovery_ipv4, AddressRank, Ipv4Addr,
};
use mykvm::discovery::{
    broadcast_addrs, broadcast_addrs_for_ips, default_protocol_version, default_transport_port,
    detect_keyboard_layout, discovery_target_ports, local_peer_id, normalize_quic_port,
    normalize_transport_port, pairing_code_from, preferred_quic_port, random_pairing_code,
    sanitize_id, unicast_sweep_targets, unicast_sweep_targets_for_ips, DISCOVERY_PORT,
    DISCOVERY_PORT_SPAN, TRANSPORT_PORT_MAX, TRANSPORT_PORT_MIN,
};
use mykvm::interfaces::{
    announced_addresses, list_interfaces, local_ipv4_addresses, local_ipv4_interfaces,
    preferred_interface, set_preferred_interface, Interface, PreferredInterface, Subnet,
};
use mykvm::platform::Platform;
use mykvm::transport::PROTOCOL_VERSION;

fn ip(text: &str) -> Ipv4Addr {
    let octets: Vec<u8> = text.split('.').map(|part| part.parse().expect("octet")).collect();
    Ipv4Addr::new(octets[0], octets[1], octets[2], octets[3])
}

fn candidate(name: &str, address: &str, has_subnet: bool) -> (Ipv4Addr, AddressRank) {
    let address = ip(address);
    (address, classify_address(name, address, has_subnet))
}

fn interface(name: &str, address: &str, netmask: &str) -> Interface {
    Interface {
        name: name.into(),
        loopback: address.starts_with("127."),
        subnet: Some(Subnet { address: ip(address), netmask: ip(netmask) }),
    }
}

#[test]
fn a_vpn_tunnel_never_becomes_the_address_we_advertise() {
    let lan = Ipv4Addr::new(192, 168, 1, 124);
    let tunnel = Ipv4Addr::new(10, 2, 0, 2);
    let ordered = prefer_lan_addresses(
        &vec![
            candidate("proton0", "10.2.0.2", false),
            candidate("wlan0", "192.168.1.124", true),
        ],
        Some(tunnel),
    );

    assert_eq!(ordered.first(), Some(&lan));
    // The tunnel is still worth announcing on, just never first.
    assert!(ordered.contains(&tunnel));
}

#[test]
fn a_tunnel_carrying_a_real_subnet_is_still_a_tunnel() {
    let ordered = prefer_lan_addresses(
        &vec![
            candidate("docker0", "172.17.0.1", true),
            candidate("br-9f5b6dbd1745", "172.18.0.1", true),
            candidate("wlan0", "192.168.2.115", true),
            candidate("pvpnksintrf0", "100.85.0.1", true),
            candidate("proton0", "10.2.0.2", false),
        ],
        Some(Ipv4Addr::new(100, 85, 0, 1)),
    );

    assert_eq!(ordered.first(), Some(&Ipv4Addr::new(192, 168, 2, 115)));
}

#[test]
fn a_vpn_handing_out_an_ordinary_lan_range_is_caught_by_its_name() {
    let ordered = prefer_lan_addresses(
        &vec![
            candidate("tun0", "10.8.0.4", true),
            candidate("wlan0", "192.168.2.115", true),
        ],
        Some(Ipv4Addr::new(10, 8, 0, 4)),
    );

    assert_eq!(ordered.first(), Some(&Ipv4Addr::new(192, 168, 2, 115)));
}

#[test]
fn container_bridges_rank_below_the_lan_but_above_tunnels() {
    let ordered = prefer_lan_addresses(
        &vec![
            candidate("docker0", "172.17.0.1", true),
            candidate("tun0", "10.8.0.4", true),
            candidate("eth0", "192.168.0.10", true),
        ],
        None,
    );

    assert_eq!(
        ordered,
        vec![
            Ipv4Addr::new(192, 168, 0, 10),
            Ipv4Addr::new(172, 17, 0, 1),
            Ipv4Addr::new(10, 8, 0, 4),
        ]
    );
}

#[test]
fn the_default_route_still_wins_when_it_is_a_normal_interface() {
    let wired = Ipv4Addr::new(192, 168, 0, 10);
    let wireless = Ipv4Addr::new(192, 168, 1, 124);
    let ordered = prefer_lan_addresses(
        &vec![
            candidate("wlan0", "192.168.1.124", true),
            candidate("eth0", "192.168.0.10", true),
        ],
        Some(wireless),
    );

    assert_eq!(ordered, vec![wireless, wired]);
}

#[test]
fn an_address_is_listed_once_at_its_best_rank() {
    let ordered = prefer_lan_addresses(
        &vec![
            candidate("tun0", "10.0.0.1", true),
            candidate("eth1", "10.0.0.2", true),
            candidate("eth0", "10.0.0.1", true),
        ],
        Some(ip("8.8.4.4")),
    );
    assert_eq!(ordered, vec![ip("10.0.0.1"), ip("10.0.0.2"), ip("8.8.4.4")]);
    // An unusable default route is left out.
    let ordered = prefer_lan_addresses(&vec![], Some(ip("127.0.0.1")));
    assert!(ordered.is_empty());
}

#[test]
fn a_pin_is_ignored_while_its_interface_has_no_address() {
    let mut preferred = PreferredInterface::new();
    set_preferred_interface(&mut preferred, Some("eth0".into()));
    let present = local_ipv4_interfaces();
    set_preferred_interface(&mut preferred, None);

    // Whatever this machine has, a name that is absent must not appear.
    assert!(!present
        .iter()
        .any(|interface| interface.name == "eth0" && interface.address.is_empty()));
}

#[test]
fn every_listed_interface_carries_the_rank_the_ui_groups_by() {
    for interface in local_ipv4_interfaces() {
        assert!(
            matches!(interface.kind.as_str(), "lan" | "routable" | "virtual" | "tunnel"),
            "unexpected kind {:?} for {}",
            interface.kind,
            interface.name
        );
        let octets: Vec<u8> =
            interface.address.split('.').map(|part| part.parse().expect("octet")).collect();
        assert_eq!(octets.len(), 4);
    }
}

#[test]
fn windows_hyper_v_adapters_do_not_pass_for_a_lan() {
    let ordered = prefer_lan_addresses(
        &vec![
            candidate("vEthernet (Default Switch)", "172.20.16.1", true),
            candidate("Wi-Fi", "192.168.2.117", true),
        ],
        None,
    );

    assert_eq!(ordered.first(), Some(&Ipv4Addr::new(192, 168, 2, 117)));
}

#[test]
fn peer_id_matches_the_shape_every_client_must_produce() {
    assert_eq!(
        local_peer_id("LDE-C1177D3", "192.168.0.117"),
        "peer-lde-c1177d3-192-168-0-117"
    );
    // Nothing usable in either part must still yield a legal id.
    assert_eq!(local_peer_id("", ""), "peer-local");
}

#[test]
fn discovery_target_ports_spans_neighbouring_ports() {
    let ports = discovery_target_ports(DISCOVERY_PORT);
    assert_eq!(ports.len(), DISCOVERY_PORT_SPAN as usize);
    assert_eq!(ports[0], DISCOVERY_PORT);
    // A peer that drifted by one must still be a target.
    assert!(ports.contains(&(DISCOVERY_PORT + 1)));
    assert_eq!(*ports.last().unwrap(), DISCOVERY_PORT + DISCOVERY_PORT_SPAN - 1);
}

#[test]
fn discovery_target_ports_clamp_near_max() {
    let ports = discovery_target_ports(TRANSPORT_PORT_MAX - 1);
    assert_eq!(ports, vec![TRANSPORT_PORT_MAX - 1, TRANSPORT_PORT_MAX]);
}

#[test]
fn broadcast_addrs_reach_a_drifted_peer_port() {
    let addrs = broadcast_addrs(DISCOVERY_PORT, None, &PreferredInterface::new());
    assert!(addrs.contains(&format!("255.255.255.255:{DISCOVERY_PORT}")));
    assert!(addrs.contains(&format!("255.255.255.255:{}", DISCOVERY_PORT + 1)));
}

#[test]
fn broadcast_addrs_include_every_local_ipv4_subnet() {
    let addrs = broadcast_addrs_for_ips(
        DISCOVERY_PORT,
        &vec![Ipv4Addr::new(192, 168, 66, 106), Ipv4Addr::new(10, 0, 0, 4)],
    );

    assert!(addrs.contains(&format!("255.255.255.255:{DISCOVERY_PORT}")));
    assert!(addrs.contains(&format!("192.168.66.255:{DISCOVERY_PORT}")));
    assert!(addrs.contains(&format!("10.0.0.255:{DISCOVERY_PORT}")));
    assert!(addrs.contains(&format!("192.168.66.255:{}", DISCOVERY_PORT + 1)));
    assert_eq!(addrs.len(), 24);
}

#[test]
fn unicast_sweep_targets_cover_every_local_ipv4_subnet() {
    let targets = unicast_sweep_targets_for_ips(
        DISCOVERY_PORT,
        &vec![Ipv4Addr::new(192, 168, 66, 106), Ipv4Addr::new(10, 0, 0, 4)],
    );

    assert!(targets.contains(&format!("192.168.66.92:{DISCOVERY_PORT}")));
    assert!(targets.contains(&format!("10.0.0.1:{DISCOVERY_PORT}")));
    assert!(!targets.contains(&format!("192.168.66.106:{DISCOVERY_PORT}")));
    assert!(!targets.contains(&format!("10.0.0.4:{DISCOVERY_PORT}")));
    assert_eq!(targets.len(), 2 * 253 * 8);
    let mut sorted = targets.clone();
    sorted.sort();
    sorted.dedup();
    assert_eq!(sorted, targets);
}

#[test]
fn a_sweep_spares_every_local_address_of_a_subnet() {
    let targets = unicast_sweep_targets_for_ips(
        DISCOVERY_PORT,
        &vec![ip("10.0.0.4"), ip("10.0.0.5")],
    );
    assert!(!targets.contains(&format!("10.0.0.4:{DISCOVERY_PORT}")));
    assert!(!targets.contains(&format!("10.0.0.5:{DISCOVERY_PORT}")));
    assert!(!targets.contains(&format!("10.0.0.255:{DISCOVERY_PORT}")));
    assert!(targets.contains(&format!("10.0.0.3:{DISCOVERY_PORT}")));
    assert!(targets.contains(&format!("10.0.0.6:{}", DISCOVERY_PORT + 1)));
    assert_eq!(targets.len(), 252 * 8);
}

#[test]
fn sweeping_from_this_machine_keeps_to_its_subnets() {
    let preferred = PreferredInterface::new();
    let local = local_ipv4_addresses(Some(ip("192.168.77.3")), &preferred);
    assert!(local.contains(&ip("192.168.77.3")));
    let targets = unicast_sweep_targets(DISCOVERY_PORT, Some(ip("192.168.77.3")), &preferred);
    assert_eq!(targets, unicast_sweep_targets_for_ips(DISCOVERY_PORT, &local));
    assert!(targets.contains(&format!("192.168.77.4:{DISCOVERY_PORT}")));
}

/// What the operating system says, read beside the library.
#[test]
fn the_interfaces_of_this_machine_are_the_ones_that_are_listed() {
    let expected: Vec<(String, String)> = if_addrs::get_if_addrs()
        .unwrap_or_default()
        .into_iter()
        .filter(|interface| !interface.is_loopback())
        .filter_map(|interface| match interface.addr {
            if_addrs::IfAddr::V4(v4) => Some((interface.name, v4.ip.octets())),
            if_addrs::IfAddr::V6(_) => None,
        })
        .filter(|(_, octets)| {
            usable_discovery_ipv4(Ipv4Addr::new(octets[0], octets[1], octets[2], octets[3]))
        })
        .map(|(name, o)| (name, format!("{}.{}.{}.{}", o[0], o[1], o[2], o[3])))
        .collect();
    let listed: Vec<(String, String)> = local_ipv4_interfaces()
        .into_iter()
        .map(|interface| (interface.name, interface.address))
        .collect();
    assert_eq!(listed.len(), expected.len());
    for pair in expected {
        assert!(listed.contains(&pair));
    }
}

#[test]
fn interfaces_are_listed_best_first() {
    let interfaces = vec![
        interface("lo", "127.0.0.1", "255.0.0.0"),
        interface("tun0", "10.8.0.4", "255.255.255.0"),
        interface("eth1", "192.168.0.20", "255.255.255.0"),
        interface("docker0", "172.17.0.1", "255.255.0.0"),
        interface("eth0", "192.168.0.10", "255.255.255.0"),
        interface("wan", "203.0.113.9", "255.255.255.0"),
        interface("p2p", "192.168.9.9", "255.255.255.255"),
        interface("auto", "169.254.3.3", "255.255.0.0"),
        Interface { name: "eth0".into(), loopback: false, subnet: None },
    ];
    let listed: Vec<(String, String, String)> = list_interfaces(&interfaces)
        .into_iter()
        .map(|entry| (entry.name, entry.address, entry.kind))
        .collect();
    let row = |name: &str, address: &str, kind: &str| (name.into(), address.into(), kind.into());
    let expected: Vec<(String, String, String)> = vec![
        row("eth0", "192.168.0.10", "lan"),
        row("eth1", "192.168.0.20", "lan"),
        row("wan", "203.0.113.9", "routable"),
        row("docker0", "172.17.0.1", "virtual"),
        row("tun0", "10.8.0.4", "tunnel"),
        row("p2p", "192.168.9.9", "tunnel"),
    ];
    assert_eq!(listed, expected);
}

#[test]
fn a_pinned_interface_goes_to_the_front() {
    let interfaces = vec![
        interface("eth0", "192.168.0.10", "255.255.255.0"),
        interface("tun0", "10.8.0.4", "255.255.255.0"),
    ];
    let mut preferred = PreferredInterface::new();
    assert_eq!(preferred_interface(&preferred), None);
    assert_eq!(
        announced_addresses(&interfaces, None, &preferred),
        vec![ip("192.168.0.10"), ip("10.8.0.4")]
    );

    set_preferred_interface(&mut preferred, Some("  TUN0 ".into()));
    assert_eq!(preferred_interface(&preferred), Some("TUN0".into()));
    assert_eq!(
        announced_addresses(&interfaces, None, &preferred),
        vec![ip("10.8.0.4"), ip("192.168.0.10")]
    );

    set_preferred_interface(&mut preferred, Some("wlan9".into()));
    assert_eq!(
        announced_addresses(&interfaces, None, &preferred),
        vec![ip("192.168.0.10"), ip("10.8.0.4")]
    );

    set_preferred_interface(&mut preferred, Some("   ".into()));
    assert_eq!(preferred_interface(&preferred), None);
}

#[test]
fn only_addresses_of_a_network_are_usable() {
    for address in ["127.0.0.1", "0.0.0.0", "224.0.0.1", "239.1.2.3", "255.255.255.255", "169.254.1.1"] {
        assert!(!usable_discovery_ipv4(ip(address)), "{address}");
    }
    for address in ["10.0.0.1", "192.168.1.1", "8.8.8.8", "240.0.0.1", "169.253.1.1", "0.0.0.1"] {
        assert!(usable_discovery_ipv4(ip(address)), "{address}");
    }
}

#[test]
fn ranks_follow_name_range_and_subnet() {
    assert_eq!(classify_address("eth0", ip("172.16.0.1"), true), AddressRank::Lan);
    assert_eq!(classify_address("eth0", ip("172.31.0.1"), true), AddressRank::Lan);
    assert_eq!(classify_address("eth0", ip("172.32.0.1"), true), AddressRank::Routable);
    assert_eq!(classify_address("eth0", ip("100.63.0.1"), true), AddressRank::Routable);
    assert_eq!(classify_address("eth0", ip("100.64.0.1"), true), AddressRank::Tunnel);
    assert_eq!(classify_address("Hyper-V", ip("10.0.0.1"), true), AddressRank::Virtual);
    assert_eq!(classify_address("WireGuard", ip("10.0.0.1"), true), AddressRank::Tunnel);
    assert_eq!(AddressRank::Virtual.as_kind(), "virtual");
}

#[test]
fn ports_stay_in_the_unprivileged_range() {
    assert_eq!(normalize_transport_port(80), TRANSPORT_PORT_MIN);
    assert_eq!(normalize_transport_port(5000), 5000);
    assert_eq!(preferred_quic_port(DISCOVERY_PORT), DISCOVERY_PORT + 1);
    assert_eq!(preferred_quic_port(TRANSPORT_PORT_MAX), TRANSPORT_PORT_MAX);
    assert_eq!(preferred_quic_port(0), TRANSPORT_PORT_MIN);
    assert_eq!(normalize_quic_port(DISCOVERY_PORT, 0), DISCOVERY_PORT + 1);
    assert_eq!(normalize_quic_port(DISCOVERY_PORT, 22), TRANSPORT_PORT_MIN);
    assert_eq!(normalize_quic_port(DISCOVERY_PORT, 50000), 50000);
    assert_eq!(discovery_target_ports(1)[0], TRANSPORT_PORT_MIN);
    assert_eq!(default_transport_port(), DISCOVERY_PORT);
    assert_eq!(default_protocol_version(), PROTOCOL_VERSION);
}

#[test]
fn ids_are_folded_into_one_alphabet() {
    assert_eq!(sanitize_id("  My Phone (2)  "), "my-phone--2");
    assert_eq!(sanitize_id("--x--"), "x");
    assert_eq!(sanitize_id("\u{e9}"), "");
    let once = sanitize_id("Jan's Laptop!");
    assert_eq!(sanitize_id(&once), once);
    assert!(local_peer_id("\u{fc}", "10.0.0.1").starts_with("peer-"));
}

#[test]
fn pairing_codes_keep_their_leading_zeros() {
    assert_eq!(pairing_code_from(Some([42, 0, 0, 0]), 7), "000042");
    assert_eq!(pairing_code_from(Some([0x40, 0x42, 0x0f, 0]), 7), "000000");
    assert_eq!(
        pairing_code_from(Some([0xff, 0xff, 0xff, 0xff]), 7),
        format!("{:06}", u32::MAX % 1_000_000)
    );
    assert_eq!(pairing_code_from(None, 0x1_0000_0001), "000001");
}

#[test]
fn random_pairing_codes_have_six_digits_and_differ() {
    let codes: Vec<String> = (0..20).map(|_| random_pairing_code(1)).collect();
    for code in &codes {
        assert_eq!(code.len(), 6);
        assert!(code.bytes().all(|byte| byte.is_ascii_digit()));
    }
    // Twenty equal codes would mean that no random number was drawn.
    assert!(codes.iter().any(|code| *code != codes[0]));
}

#[test]
fn the_keyboard_layout_carries_its_variant() {
    let report = "   System Locale: LANG=de\n      VC Keymap: us\n     X11 Layout: us\n    X11 Variant: intl\n";
    assert_eq!(detect_keyboard_layout(Platform::Linux, Some(report)), "us(intl)");
    assert_eq!(detect_keyboard_layout(Platform::Linux, Some("X11 Layout: de\r\n")), "de");
    assert_eq!(detect_keyboard_layout(Platform::Linux, Some("X11 Variant: intl\n")), "");
    assert_eq!(detect_keyboard_layout(Platform::Linux, None), "");
    assert_eq!(detect_keyboard_layout(Platform::Windows, Some(report)), "");
}

#[test]
fn ids_ignore_case_and_need_a_letter_or_a_digit() {
    assert_eq!(sanitize_id("Jan's LAPTOP 2"), sanitize_id("jAN'S laptop 2"));
    assert_eq!(sanitize_id(" -- \u{fc}\u{df} !? "), "");
    assert_eq!(sanitize_id(""), "");
    assert_eq!(sanitize_id(" \u{fc}Z "), "z");
    assert_eq!(sanitize_id("!7!"), "7");
}
