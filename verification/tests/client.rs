//! The controlled client: queue, pairing, discovery and clipboard.

use mykvm::addresses::Ipv4Addr;
use mykvm::client::{
    announce_due, flatten, no_free_port, packet_for, release_slot, remember_endpoint,
    reply_destinations, reserve_slot, start, stream_kind, Acceptance, Answer, Arrival, BroadcastHealth, Client, Config,
    StreamKind, StreamProbe, UnsupportedStreams, ANNOUNCE_INTERVAL, KIND_KEY, KIND_MOUSE_BUTTON,
    KIND_MOUSE_MOVE, KIND_SCROLL, MAX_QUEUED_EVENTS,
};
use mykvm::clipboard::{ClipboardPacket, CLIPBOARD_PROTOCOL};
use mykvm::discovery::{
    DiscoveryPacket, LanPeer, DISCOVERY_PROTOCOL, PAIRING_CODE_TTL_MS, PAIRING_MAX_ATTEMPTS,
};
use mykvm::packet::{InputPacket, INPUT_PROTOCOL};
use mykvm::pairing::{Membership, PairingError};
use mykvm::shared_input::{InputEvent, MouseButton};
use mykvm::transport::PROTOCOL_VERSION;

const NOW: u64 = 9_000_000_000;
const LIFETIME: u64 = PAIRING_CODE_TTL_MS * 1_000_000;

fn config() -> Config {
    Config {
        device_name: "Pixel 8".into(),
        discovery_port: 47833,
        screen_width: 1080,
        screen_height: 2400,
        identity_dir: "/data/mykvm".into(),
    }
}

fn client(contents: Option<&str>) -> Client {
    let mut client =
        start(&config(), &vec![Ipv4Addr::new(192, 168, 0, 7)], contents).expect("an address");
    client.transport_started(47834, "phone-key".into());
    client
}

fn peer(id: &str, role: &str) -> LanPeer {
    LanPeer {
        id: id.into(),
        name: "Desk".into(),
        platform: "linux".into(),
        machine_role: role.into(),
        cluster_id: "cluster".into(),
        pairing_required: false,
        host: "desk".into(),
        ip: "192.168.0.2".into(),
        transport_port: 47833,
        quic_port: 47834,
        transport_public_key: "desk-key".into(),
        protocol_version: PROTOCOL_VERSION,
        screen_count: 0,
        input_ready: true,
        upgrading: false,
        screens: Vec::new(),
        app_version: "1.0.0".into(),
        last_seen_ms: 5,
        keyboard_layout: "us(intl)".into(),
    }
}

fn confirmation(code: &str, from: LanPeer) -> DiscoveryPacket {
    let mut packet = packet_for(from, "pair-confirm");
    packet.pairing_code = Some(code.into());
    packet.pair_cluster_id = Some(" cluster ".into());
    packet.pair_secret = Some("secret\n".into());
    packet
}

fn input(target: &str, event: InputEvent) -> Arrival {
    Arrival::Packet(InputPacket {
        protocol: INPUT_PROTOCOL.into(),
        target_device_id: target.into(),
        origin_device_id: "desk".into(),
        origin_port: 1,
        origin_transport_public_key: String::new(),
        origin_protocol_version: PROTOCOL_VERSION,
        cluster_id: String::new(),
        pair_secret: String::new(),
        event,
    })
}

#[test]
fn a_polled_event_frees_its_place_in_the_queue() {
    let mut queued = 0usize;
    for _ in 0..MAX_QUEUED_EVENTS {
        assert!(reserve_slot(&mut queued));
    }
    assert!(!reserve_slot(&mut queued), "queue should be full");

    release_slot(&mut queued);
    assert!(reserve_slot(&mut queued), "a polled event must free its slot");
}

#[test]
fn releasing_more_than_was_reserved_does_not_wrap_around() {
    let mut queued = 0usize;
    release_slot(&mut queued);
    assert_eq!(queued, 0);
}

#[test]
fn events_flatten_into_the_shape_kotlin_expects() {
    assert_eq!(
        flatten(&InputEvent::MouseMove { screen_id: "local-display-1".into(), x: 640, y: 480 }),
        [KIND_MOUSE_MOVE, 640, 480]
    );
    assert_eq!(
        flatten(&InputEvent::MouseButton { button: MouseButton::Right, down: true }),
        [KIND_MOUSE_BUTTON, 1, 1]
    );
    assert_eq!(
        flatten(&InputEvent::Scroll { delta_x: 0, delta_y: -2 }),
        [KIND_SCROLL, 0, -2]
    );
    assert_eq!(
        flatten(&InputEvent::Key { key_code: 0x41, down: false }),
        [KIND_KEY, 0x41, 0]
    );
}

#[test]
fn text_is_readable_from_either_field() {
    let packet = ClipboardPacket::text(
        "hello".into(),
        "peer-a".into(),
        "key".into(),
        "cluster".into(),
        "secret".into(),
        1,
    );
    assert_eq!(packet.plain_text(), Some("hello"));
    assert_eq!(packet.signature, "text:hello");

    // A peer that only filled the formats list must still be understood.
    let mut older = packet;
    older.text = String::new();
    assert_eq!(older.plain_text(), Some("hello"));
    older.formats.clear();
    assert_eq!(older.plain_text(), None);
}

#[test]
fn a_full_queue_takes_input_again_once_it_is_polled() {
    let mut phone = client(None);
    let own = phone.id().to_string();
    for i in 0..MAX_QUEUED_EVENTS {
        let event = InputEvent::Scroll { delta_x: i as i32, delta_y: 0 };
        assert_eq!(phone.handle_datagram(input(&own, event)), Acceptance::Queued);
    }
    let late = || InputEvent::Key { key_code: 1, down: true };
    assert_eq!(phone.handle_datagram(input(&own, late())), Acceptance::Dropped);
    assert_eq!(phone.poll(), Some(InputEvent::Scroll { delta_x: 0, delta_y: 0 }));
    assert_eq!(phone.handle_datagram(input("", late())), Acceptance::Queued);
    for i in 1..MAX_QUEUED_EVENTS {
        assert_eq!(
            phone.poll(),
            Some(InputEvent::Scroll { delta_x: i as i32, delta_y: 0 })
        );
    }
    assert_eq!(phone.poll(), Some(late()));
    assert_eq!(phone.poll(), None);
}

#[test]
fn datagrams_that_are_no_input_for_the_client_are_left_alone() {
    let mut phone = client(None);
    let event = || InputEvent::Scroll { delta_x: 1, delta_y: 1 };
    assert_eq!(phone.handle_datagram(Arrival::Empty), Acceptance::Ignored);
    assert_eq!(phone.handle_datagram(Arrival::Undecodable), Acceptance::Undecodable);
    assert_eq!(phone.handle_datagram(input("someone", event())), Acceptance::Misdirected);
    if let Arrival::Packet(mut packet) = input("", event()) {
        packet.protocol = "other".into();
        assert_eq!(phone.handle_datagram(Arrival::Packet(packet)), Acceptance::Foreign);
    }
    assert_eq!(phone.poll(), None);
}

#[test]
fn a_client_needs_an_address() {
    match start(&config(), &Vec::new(), None) {
        Ok(_) => panic!("there is no address"),
        Err(reason) => assert_eq!(reason, "no usable IPv4 address; is Wi-Fi connected?"),
    }
}

#[test]
fn the_status_names_id_port_membership_and_peers() {
    let mut phone = client(None);
    assert_eq!(
        phone.status(),
        "id=peer-pixel-8-192-168-0-7 quic=47834 paired=false peers=[]"
    );
    phone.handle_discovery(&packet_for(peer("desk-1", "server"), "announce"), NOW, 0);
    phone.handle_discovery(&packet_for(peer("desk-1", "server"), "announce"), NOW, 0);
    let mut other = peer("desk-2", "client");
    other.name = "Other".into();
    phone.handle_discovery(&packet_for(other, "probe"), NOW, 0);
    assert_eq!(
        phone.status(),
        "id=peer-pixel-8-192-168-0-7 quic=47834 paired=false peers=[Desk (192.168.0.2), Other (192.168.0.2)]"
    );
    assert!(phone.is_running());
    phone.stop();
    assert!(!phone.is_running());
}

#[test]
fn a_turned_phone_announces_its_new_size() {
    let mut phone = client(None);
    assert!(!phone.set_screen(1080, 2400));
    assert!(!phone.set_screen(0, 100));
    assert!(!phone.set_screen(100, -1));
    assert!(phone.set_screen(2400, 1080));
    let described = phone.build_peer("2.0.0", 77);
    assert_eq!(described.screens.len(), 1);
    assert_eq!((described.screens[0].width, described.screens[0].height), (2400, 1080));
    assert_eq!(f64::from_bits(described.screens[0].scale.bits), 1.0);
    assert_eq!(described.platform, "android");
    assert_eq!(described.machine_role, "client");
    assert_eq!(described.app_version, "2.0.0");
    assert_eq!(described.last_seen_ms, 77);
    assert!(described.pairing_required);
    let packet = packet_for(described, "announce");
    assert_eq!(packet.protocol, DISCOVERY_PROTOCOL);
    assert_eq!(packet.kind, "announce");
    assert!(packet.pairing_code.is_none() && packet.pairing_error.is_none());
}

#[test]
fn only_a_servers_layout_is_adopted() {
    let mut phone = client(None);
    assert_eq!(phone.keyboard_layout(), "");
    phone.handle_discovery(&packet_for(peer("a", "client"), "announce"), NOW, 0);
    assert_eq!(phone.keyboard_layout(), "");
    phone.handle_discovery(&packet_for(peer("b", "server"), "announce"), NOW, 0);
    assert_eq!(phone.keyboard_layout(), "us(intl)");
    let mut quiet = peer("b", "server");
    quiet.keyboard_layout = "  ".into();
    phone.handle_discovery(&packet_for(quiet, "announce"), NOW, 0);
    assert_eq!(phone.keyboard_layout(), "us(intl)");
}

#[test]
fn discovery_packets_are_answered_by_kind() {
    let mut phone = client(None);
    let own = phone.id().to_string();
    let mut answer = |packet: DiscoveryPacket| phone.handle_discovery(&packet, NOW, 0);
    assert_eq!(answer(packet_for(peer("a", "server"), "announce")), Answer::Announce);
    assert_eq!(answer(packet_for(peer("a", "server"), "probe")), Answer::Announce);
    assert_eq!(answer(packet_for(peer("a", "server"), "pair-error")), Answer::Nothing);
    assert_eq!(answer(packet_for(peer(&own, "server"), "announce")), Answer::Nothing);
    assert_eq!(answer(packet_for(peer("a", "client"), "pair-request")), Answer::Nothing);
    let mut foreign = packet_for(peer("a", "server"), "announce");
    foreign.protocol = "other".into();
    assert_eq!(answer(foreign), Answer::Nothing);
    assert_eq!(answer(packet_for(peer("a", "server"), "pair-request")), Answer::Challenge);
}

#[test]
fn the_shown_code_pairs_and_outlasts_a_restart() {
    let mut phone = client(None);
    assert_eq!(phone.pairing_code(NOW), None);
    let request = packet_for(peer("desk", "server"), "pair-request");
    assert_eq!(phone.handle_discovery(&request, NOW, 0), Answer::Challenge);
    let code = phone.pairing_code(NOW).expect("a code is shown");
    assert_eq!(code.len(), 6);
    // A repeated request keeps the code.
    assert_eq!(phone.handle_discovery(&request, NOW + 5, 0), Answer::Challenge);
    assert_eq!(phone.pairing_code(NOW + 5), Some(code.clone()));
    assert_eq!(phone.pairing_code(NOW + LIFETIME), None);

    let typed = format!(" {code} ");
    let membership = phone
        .confirm(&confirmation(&typed, peer("desk", "server")), NOW + 6)
        .expect("the shown code pairs");
    assert_eq!(membership.cluster_id, "cluster");
    assert_eq!(membership.pair_secret, "secret");
    let contents = membership.contents();
    assert_eq!(contents, "cluster\nsecret\n");
    assert_eq!(
        phone.join(membership.copy(), Err("disk full".into())),
        Err("could not persist pairing: disk full".to_string())
    );
    assert!(phone.status().contains("paired=false"));
    assert_eq!(phone.join(membership, Ok(())), Ok(()));
    assert!(phone.status().contains("paired=true"));
    assert!(!phone.build_peer("1", 0).pairing_required);
    // A member does not pair again.
    assert_eq!(phone.handle_discovery(&request, NOW + 7, 0), Answer::Nothing);
    assert_eq!(phone.pairing_code(NOW + 7), None);

    assert!(client(Some(&contents)).status().contains("paired=true"));
    assert!(client(Some("cluster\n")).status().contains("paired=false"));
    assert!(client(Some("")).status().contains("paired=false"));
    assert!(Membership::load(Some(" a \r\n b\r\n")).is_paired());
}

#[test]
fn refused_confirmations_say_why() {
    let mut phone = client(None);
    let mut confirm = |phone: &mut Client, packet: &DiscoveryPacket, at: u64| {
        phone.confirm(packet, at).map(|_| ()).unwrap_err()
    };
    let right = |code: &str| confirmation(code, peer("desk", "server"));

    let mut incomplete = right("123456");
    incomplete.pair_secret = None;
    assert_eq!(confirm(&mut phone, &incomplete, NOW), PairingError::Incomplete);
    assert_eq!(confirm(&mut phone, &right("123456"), NOW), PairingError::NotInProgress);

    let request = packet_for(peer("desk", "server"), "pair-request");
    phone.handle_discovery(&request, NOW, 0);
    let code = phone.pairing_code(NOW).expect("a code is shown");
    assert_eq!(
        confirm(&mut phone, &confirmation(&code, peer("other", "server")), NOW),
        PairingError::DifferentPeer
    );
    let mut impostor = peer("desk", "server");
    impostor.transport_public_key = "another-key".into();
    assert_eq!(
        confirm(&mut phone, &confirmation(&code, impostor), NOW),
        PairingError::DifferentPeer
    );
    assert_eq!(confirm(&mut phone, &right(&code), NOW + LIFETIME), PairingError::Expired);
    assert_eq!(phone.pairing_code(NOW), None);

    phone.handle_discovery(&request, NOW, 0);
    for _ in 0..PAIRING_MAX_ATTEMPTS {
        assert!(phone.pairing_code(NOW).is_some());
        assert_eq!(confirm(&mut phone, &right("wrong!"), NOW), PairingError::WrongCode);
    }
    assert_eq!(phone.pairing_code(NOW), None);
    assert_eq!(confirm(&mut phone, &right("wrong!"), NOW), PairingError::NotInProgress);

    assert_eq!(PairingError::Incomplete.text(), "confirmation is missing its code or cluster");
    assert_eq!(PairingError::NotInProgress.text(), "no pairing is in progress");
    assert_eq!(PairingError::Expired.text(), "the code expired");
    assert_eq!(PairingError::DifferentPeer.text(), "confirmation came from a different peer");
    assert_eq!(PairingError::WrongCode.text(), "wrong code");
}

#[test]
fn a_request_after_a_wrong_guess_shows_a_fresh_challenge() {
    let mut phone = client(None);
    let request = packet_for(peer("desk", "server"), "pair-request");
    phone.handle_discovery(&request, NOW, 0);
    assert!(phone.confirm(&confirmation("nope", peer("desk", "server")), NOW).is_err());
    phone.handle_discovery(&request, NOW + 1, 0);
    // All guesses are back.
    for _ in 1..PAIRING_MAX_ATTEMPTS {
        assert!(phone.confirm(&confirmation("nope", peer("desk", "server")), NOW + 1).is_err());
    }
    assert!(phone.pairing_code(NOW + 1).is_some());
}

#[test]
fn copies_travel_between_members_and_do_not_bounce() {
    let mut phone = client(Some("cluster\nsecret\n"));
    let mut tablet = client(Some("cluster\nsecret\n"));
    let mut stranger = client(Some("cluster\nother\n"));

    // Nobody to send to yet.
    assert!(phone.send_clipboard("hello").is_none());
    phone.handle_discovery(&packet_for(peer("desk", "server"), "announce"), NOW, 0);
    tablet.handle_discovery(&packet_for(peer("desk", "server"), "announce"), NOW, 0);

    let copy = phone.send_clipboard("hello").expect("a member with peers sends");
    assert_eq!(copy.protocol, CLIPBOARD_PROTOCOL);
    assert_eq!(copy.sequence, 1);
    assert_eq!(copy.origin_id, phone.id());
    assert_eq!(copy.origin_transport_public_key, "phone-key");
    assert!(!stranger.handle_clipboard(&copy));
    assert_eq!(stranger.take_clipboard(), None);
    assert!(tablet.handle_clipboard(&copy));
    assert_eq!(tablet.take_clipboard(), Some("hello".into()));
    assert_eq!(tablet.take_clipboard(), None);
    // Neither sends nor applies it again.
    assert!(tablet.send_clipboard("hello").is_none());
    assert!(!phone.handle_clipboard(&copy));

    let answer = tablet.send_clipboard("world").expect("another text is sent");
    assert!(phone.handle_clipboard(&answer));
    assert_eq!(phone.take_clipboard(), Some("world".into()));
    // The first text is news again.
    assert_eq!(phone.send_clipboard("hello").map(|copy| copy.sequence), Some(2));

    let mut unpaired = client(None);
    unpaired.handle_discovery(&packet_for(peer("desk", "server"), "announce"), NOW, 0);
    assert!(unpaired.send_clipboard("hello").is_none());
    let mut image = tablet.send_clipboard("picture").expect("a copy");
    image.text = String::new();
    image.formats.clear();
    assert!(!phone.handle_clipboard(&image));
}

#[test]
fn streams_are_told_apart_by_protocol_and_kind() {
    let probe = |protocol: &str, kind: &str| {
        stream_kind(&StreamProbe { protocol: protocol.into(), kind: kind.into() })
    };
    assert_eq!(probe(DISCOVERY_PROTOCOL, "pair-confirm"), StreamKind::PairConfirm);
    assert_eq!(probe(DISCOVERY_PROTOCOL, "announce"), StreamKind::Other);
    assert_eq!(probe(CLIPBOARD_PROTOCOL, ""), StreamKind::Clipboard);
    assert_eq!(probe("mykvm.files.v1", "pair-confirm"), StreamKind::Other);

    let mut streams = UnsupportedStreams::new();
    assert!(streams.note("files"));
    assert!(streams.note("video"));
    assert!(!streams.note("files"));
}

#[test]
fn answers_go_to_the_source_and_to_another_advertised_address() {
    assert_eq!(reply_destinations("10.0.0.1", " 10.0.0.2 "), vec!["10.0.0.1", "10.0.0.2"]);
    assert_eq!(reply_destinations("10.0.0.1", " 10.0.0.1 "), vec!["10.0.0.1"]);
    assert_eq!(reply_destinations("10.0.0.1", "  "), vec!["10.0.0.1"]);
}

#[test]
fn announcements_repeat_and_report_only_changes() {
    assert!(announce_due(None, 0));
    assert!(!announce_due(Some(NOW), NOW + ANNOUNCE_INTERVAL - 1));
    assert!(announce_due(Some(NOW), NOW + ANNOUNCE_INTERVAL));

    let mut health = BroadcastHealth::new();
    assert_eq!(
        health.report_broadcast_health(3, 3, None),
        Some("announcing to 3 targets".into())
    );
    assert_eq!(health.report_broadcast_health(3, 3, None), None);
    assert_eq!(
        health.report_broadcast_health(1, 3, Some(("10.0.0.255:1", "denied"))),
        Some("announced to 1/3 targets; 10.0.0.255:1 failed: denied".into())
    );
    assert_eq!(
        health.report_broadcast_health(0, 3, Some(("10.0.0.255:1", "denied"))),
        Some("every announce failed (3 targets), e.g. 10.0.0.255:1: denied".into())
    );
    assert_eq!(no_free_port(47833, "in use"), "no free discovery port near 47833: in use");
}

#[test]
fn a_new_peer_is_reported_with_where_its_packet_came_from() {
    let mut phone = client(None);
    let packet = packet_for(peer("desk-1", "server"), "announce");
    assert_eq!(
        phone.discovered(&packet, "192.168.0.2", "192.168.0.2:47833"),
        Some("discovered Desk (192.168.0.2) from 192.168.0.2:47833".to_string())
    );
    assert_eq!(
        phone.discovered(&packet, "10.0.0.9", "10.0.0.9:47833"),
        Some(
            "discovered Desk (192.168.0.2) but its packet came from 10.0.0.9:47833 — answering both"
                .to_string()
        )
    );
    phone.handle_discovery(&packet, NOW, 0);
    assert_eq!(phone.discovered(&packet, "10.0.0.9", "10.0.0.9:47833"), None);

    let own = packet_for(peer("peer-pixel-8-192-168-0-7", "client"), "announce");
    assert_eq!(client(None).discovered(&own, "192.168.0.7", "192.168.0.7:47833"), None);
}

#[test]
fn the_last_endpoint_of_a_key_is_kept() {
    let mut endpoints = Vec::new();
    let mut other = peer("desk-2", "server");
    other.transport_public_key = "other-key".into();
    other.quic_port = 0;
    remember_endpoint(&mut endpoints, &peer("desk-1", "server"), "10.0.0.9");
    remember_endpoint(&mut endpoints, &other, "10.0.0.8");
    remember_endpoint(&mut endpoints, &peer("desk-1", "server"), "10.0.0.7");
    let kept: Vec<(&str, &str, u16)> = endpoints
        .iter()
        .map(|endpoint| {
            (endpoint.addr.as_str(), endpoint.public_key.as_str(), endpoint.protocol_version)
        })
        .collect();
    assert_eq!(
        kept,
        vec![
            ("10.0.0.8:47834", "other-key", PROTOCOL_VERSION),
            ("10.0.0.7:47834", "desk-key", PROTOCOL_VERSION),
        ]
    );
}
