//! The receiving side: who is believed, and what is carried out.

use mykvm::clipboard_target::{current_clipboard_target, set_control_clipboard_target};
use mykvm::active::active_target_at;
use mykvm::credentials::{
    count_event, input_packet_context, mark_target_offline, outgoing_packet, packet_sent,
    send_packet, send_secure_attention_control, should_send_full_input_credentials, Fate,
    INPUT_FULL_CRED_REFRESH, INPUT_ORIGIN_CACHE_TTL,
};
use mykvm::double::Double;
use mykvm::edge::{touching_edge, screens_overlap, Edge, EdgeSpan, Point};
use mykvm::held::{
    release_forwarded_keys, release_remote_buttons, remote_button_is_down, should_send_mouse_move,
    track_forwarded_key, update_remote_button_mask, MOUSE_MOVE_SEND_INTERVAL,
};
use mykvm::layout::{
    default_modifier_map, Device, EdgeAnchor, EdgeLink, LayoutState, PairedController, Screen,
    ScreenSwitchHotkeys,
};
use mykvm::packet::{
    str_ref_is_empty, InputControlCommand, InputControlPacket, InputPacket,
    INPUT_CONTROL_PROTOCOL, INPUT_PROTOCOL,
};
use mykvm::platform::{platform_native_screen, Platform};
use mykvm::receive::{
    cached_local_peer_id, handle_control_packet, handle_input_datagram, pack_remote_position,
    packet_targets_local, refusal_log_due, unauthorized_control_reason, unauthorized_reason,
    unpack_remote_position, Datagram, Reception, ReceiveState, LOCAL_PEER_ID_TTL,
    REFUSAL_LOG_INTERVAL,
};
use mykvm::recency::Recency;
use mykvm::shared_input::{button_from_mask, InputCommand, InputEvent, MouseButton};
use mykvm::targets::{build_input_targets, edge_links_from_geometry, effective_edge_links};
use mykvm::text::is_blank;
use mykvm::transport::PROTOCOL_VERSION;

const NOW: u64 = 60_000_000_000;
const ORIGIN: &str = "peer-local";

fn d(value: f64) -> Double {
    Double { bits: value.to_bits() }
}

fn p(x: f64, y: f64) -> Point {
    Point { x: d(x), y: d(y) }
}

fn screen(device_id: &str, id: &str, x: i32, y: i32, width: i32, height: i32) -> Screen {
    Screen {
        id: id.into(),
        device_id: device_id.into(),
        name: id.into(),
        x,
        y,
        width,
        height,
        scale: d(1.0),
        is_primary: true,
    }
}

fn device(id: &str, role: &str, screens: Vec<Screen>) -> Device {
    Device {
        id: id.into(),
        name: id.into(),
        platform: "windows".into(),
        host: "10.0.0.2".into(),
        transport_port: 52000,
        quic_port: 0,
        transport_public_key: "peer-public-key".into(),
        protocol_version: PROTOCOL_VERSION,
        color: "#0f766e".into(),
        online: true,
        input_ready: true,
        upgrading: false,
        upgrading_until_ms: 0,
        role: role.into(),
        source: "detected".into(),
        screens,
    }
}

fn layout() -> LayoutState {
    LayoutState {
        devices: vec![
            device(
                "local-device",
                "local",
                vec![screen("local-device", "local-display-1", 0, 0, 1920, 1080)],
            ),
            device(
                "peer-device",
                "client",
                vec![screen("peer-device", "peer-device-display-1", 1920, 0, 1920, 1080)],
            ),
        ],
        input_mode: "receive".into(),
        machine_role: "client".into(),
        cluster_id: "cluster-test".into(),
        pair_secret: "secret-test".into(),
        paired_controllers: vec![PairedController {
            id: "server".into(),
            name: "Server".into(),
            host: "server".into(),
            ip: "10.0.0.1".into(),
            transport_public_key: "server-key".into(),
            protocol_version: PROTOCOL_VERSION,
            cluster_id: "cluster-test".into(),
            paired_at_ms: 1,
        }],
        transport_port: 47833,
        quic_port: 47834,
        modifier_remap: false,
        modifier_map: default_modifier_map(),
        screen_switch_hotkeys: ScreenSwitchHotkeys {
            left: "disabled".into(),
            right: "disabled".into(),
            up: "disabled".into(),
            down: "disabled".into(),
        },
        edge_links: None,
    }
}

fn packet(credentials: bool, event: InputEvent) -> InputPacket {
    let text = |text: &str| if credentials { text.to_string() } else { String::new() };
    InputPacket {
        protocol: INPUT_PROTOCOL.into(),
        target_device_id: "peer-this".into(),
        origin_device_id: text("server"),
        origin_port: 47834,
        origin_transport_public_key: text("server-key"),
        origin_protocol_version: PROTOCOL_VERSION,
        cluster_id: text("cluster-test"),
        pair_secret: text("secret-test"),
        event,
    }
}

fn receive(state: &mut ReceiveState, layout: &LayoutState, packet: InputPacket, now: u64) -> Reception {
    handle_input_datagram(
        state,
        Some(layout),
        layout,
        Platform::Linux,
        &Datagram::Input(packet),
        "10.0.0.1:5555",
        "10.0.0.1",
        "peer-this",
        now,
    )
}

fn moved(x: i32, y: i32) -> InputEvent {
    InputEvent::MouseMove { screen_id: "local-display-1".into(), x, y }
}

#[test]
fn a_source_is_believed_for_a_while_after_it_proved_the_pairing() {
    let layout = layout();
    let mut state = ReceiveState::new();
    // Nothing is known of the source yet.
    assert_eq!(receive(&mut state, &layout, packet(false, moved(1, 1)), NOW), Reception::Ignored);
    assert_eq!(
        receive(&mut state, &layout, packet(true, moved(10, 20)), NOW),
        Reception::Execute(InputCommand::MouseMove { x: 10, y: 20, drag_button: None })
    );
    assert_eq!(
        receive(&mut state, &layout, packet(false, moved(30, 40)), NOW + INPUT_ORIGIN_CACHE_TTL - 1),
        Reception::Execute(InputCommand::MouseMove { x: 30, y: 40, drag_button: None })
    );
    assert_eq!(
        receive(&mut state, &layout, packet(false, moved(50, 60)), NOW + INPUT_ORIGIN_CACHE_TTL),
        Reception::Ignored
    );
    // A click lands where the cursor is, and a movement then drags.
    let press = InputEvent::MouseButton { button: MouseButton::Left, down: true };
    assert_eq!(
        receive(&mut state, &layout, packet(true, press), NOW),
        Reception::Execute(InputCommand::MouseButton {
            button: MouseButton::Left,
            down: true,
            x: 30,
            y: 40,
        })
    );
    assert_eq!(
        receive(&mut state, &layout, packet(true, moved(5, 5)), NOW),
        Reception::Execute(InputCommand::MouseMove {
            x: 5,
            y: 5,
            drag_button: Some(MouseButton::Left),
        })
    );
}

#[test]
fn packets_that_are_not_for_this_machine_have_no_effect() {
    let layout = layout();
    let mut state = ReceiveState::new();
    let mut foreign = packet(true, moved(1, 1));
    foreign.protocol = "other".into();
    assert_eq!(receive(&mut state, &layout, foreign, NOW), Reception::NotOurs);
    let mut wrong = packet(true, moved(1, 1));
    wrong.pair_secret = "wrong".into();
    assert_eq!(receive(&mut state, &layout, wrong, NOW), Reception::Unauthorized);
    let mut elsewhere = packet(true, moved(1, 1));
    elsewhere.target_device_id = "someone".into();
    assert_eq!(receive(&mut state, &layout, elsewhere, NOW), Reception::Ignored);
    let unreadable = handle_input_datagram(
        &mut state,
        Some(&layout),
        &layout,
        Platform::Linux,
        &Datagram::Unreadable,
        "a",
        "a",
        "peer-this",
        NOW,
    );
    assert_eq!(unreadable, Reception::NotOurs);

    assert!(packet_targets_local(&layout, "local-device", "peer-this"));
    assert!(packet_targets_local(&layout, "peer-this", "peer-this"));
    assert!(!packet_targets_local(&layout, "peer-device", "peer-this"));
}

#[test]
fn refusals_say_why() {
    let layout = layout();
    let mut unpaired = self::layout();
    unpaired.pair_secret = String::new();
    let mismatch = "pairing secret/cluster mismatch — controller and this device are not paired with the same credentials; re-pair them (removing/re-adding the device does NOT re-pair)";
    assert_eq!(
        unauthorized_reason(&unpaired, "cluster-test", "secret-test"),
        "this device has no pairing configured (empty cluster/secret) — pair it with the controller"
    );
    assert_eq!(unauthorized_reason(&layout, "other", "secret-test"), mismatch);
    assert_eq!(unauthorized_reason(&layout, "cluster-test", "wrong"), mismatch);
    assert_eq!(
        unauthorized_reason(&layout, "cluster-test", "secret-test"),
        "controller is not in this device's paired-controllers list (likely a rotated transport key) — re-pair"
    );
    assert_eq!(
        unauthorized_control_reason(&unpaired, "cluster-test", "secret-test"),
        "this device has no pairing configured"
    );
    assert_eq!(
        unauthorized_control_reason(&layout, "cluster-test", "wrong"),
        "pairing secret/cluster mismatch"
    );
    assert_eq!(
        unauthorized_control_reason(&layout, "cluster-test", "secret-test"),
        "controller is not in this device's paired-controllers list"
    );
    let mut last = None;
    assert!(refusal_log_due(&mut last, NOW));
    assert!(!refusal_log_due(&mut last, NOW + REFUSAL_LOG_INTERVAL - 1));
    assert!(refusal_log_due(&mut last, NOW + REFUSAL_LOG_INTERVAL));

    let cached = Some((NOW, "peer-this".to_string()));
    assert!(cached_local_peer_id(&cached, NOW + LOCAL_PEER_ID_TTL - 1).is_some());
    assert!(cached_local_peer_id(&cached, NOW + LOCAL_PEER_ID_TTL).is_none());
}

#[test]
fn control_packets_ask_for_the_secure_attention_sequence() {
    let layout = layout();
    let mut control = InputControlPacket {
        protocol: INPUT_CONTROL_PROTOCOL.into(),
        target_device_id: "peer-this".into(),
        origin_device_id: "server".into(),
        origin_transport_public_key: "server-key".into(),
        origin_protocol_version: PROTOCOL_VERSION,
        cluster_id: "cluster-test".into(),
        pair_secret: "secret-test".into(),
        command: InputControlCommand::SecureAttention,
    };
    assert_eq!(handle_control_packet(&layout, &control, "peer-this"), Reception::SecureAttention);
    control.pair_secret = "wrong".into();
    assert_eq!(handle_control_packet(&layout, &control, "peer-this"), Reception::Unauthorized);
    control.protocol = "other".into();
    assert_eq!(handle_control_packet(&layout, &control, "peer-this"), Reception::NotOurs);

    match send_secure_attention_control(&layout, "peer-device", ORIGIN, "key") {
        Ok((packet, peer)) => {
            assert_eq!(packet.target_device_id, "peer-device");
            assert_eq!(packet.pair_secret, "secret-test");
            assert_eq!(peer.addr, "10.0.0.2:52000");
        }
        Err(reason) => panic!("{reason}"),
    }
}

#[test]
fn a_request_for_secure_attention_says_why_it_is_refused() {
    let refusal = |layout: &LayoutState, device_id: &str| {
        match send_secure_attention_control(layout, device_id, ORIGIN, "key") {
            Ok(_) => String::new(),
            Err(reason) => reason,
        }
    };
    let mut layout = layout();
    assert_eq!(refusal(&layout, "nobody"), "target device is not in the layout");
    assert_eq!(refusal(&layout, "local-device"), "target device is not in the layout");

    layout.pair_secret = " ".into();
    assert_eq!(refusal(&layout, "peer-device"), "this device is not paired with the target");
    let peer = layout.devices.iter().position(|device| device.id == "peer-device").unwrap();
    layout.devices[peer].transport_public_key = "".into();
    assert_eq!(
        refusal(&layout, "peer-device"),
        "target device has no QUIC transport key; re-pair it first"
    );
    layout.devices[peer].input_ready = false;
    assert_eq!(
        refusal(&layout, "peer-device"),
        "target device is not online and input-ready"
    );
    layout.devices[peer].platform = "macos".into();
    assert_eq!(
        refusal(&layout, "peer-device"),
        "Ctrl+Alt+Del control is only available for Windows targets."
    );
}

#[test]
fn credentials_ride_along_only_now_and_then() {
    let mut tracker = Recency::new();
    assert!(should_send_full_input_credentials(&mut tracker, "a", NOW));
    assert!(!should_send_full_input_credentials(&mut tracker, "a", NOW + 1));
    assert!(should_send_full_input_credentials(&mut tracker, "b", NOW + 1));
    assert!(should_send_full_input_credentials(&mut tracker, "a", NOW + INPUT_FULL_CRED_REFRESH));

    let layout = layout();
    let target = build_input_targets(&layout, &layout, ORIGIN, Platform::Linux).remove(0);
    let context = input_packet_context(
        &target,
        InputEvent::Scroll { delta_x: 0, delta_y: 1 },
        Some(&layout),
        ORIGIN,
        Platform::Linux,
    );
    assert_eq!(context.peer.as_ref().expect("a peer").addr, "10.0.0.2:52000");
    let full = outgoing_packet(&context, &target.device_id, 47834, "own-key", true);
    assert_eq!(full.pair_secret, "secret-test");
    assert_eq!(full.origin_transport_public_key, "own-key");
    assert!(!str_ref_is_empty(&full.cluster_id));
    let lean = outgoing_packet(&context, &target.device_id, 47834, "own-key", false);
    assert!(str_ref_is_empty(&lean.pair_secret) && str_ref_is_empty(&lean.cluster_id));
    assert_eq!(lean.target_device_id, "peer-device");
    assert_eq!(lean.protocol, INPUT_PROTOCOL);

    let mut offline = self::layout();
    mark_target_offline(&mut offline, "peer-device");
    assert!(build_input_targets(&offline, &offline, ORIGIN, Platform::Linux).is_empty());
}

#[test]
fn the_clipboard_follows_what_is_controlled() {
    let layout = layout();
    let target = build_input_targets(&layout, &layout, ORIGIN, Platform::Linux).remove(0);
    let active = active_target_at(&target, p(10.0, 10.0), false);
    let mut clipboard = None;
    set_control_clipboard_target(&mut clipboard, &active, &layout);
    let current = current_clipboard_target(&mut clipboard, NOW).expect("a clipboard target");
    assert_eq!(current.device_id, "peer-device");
    assert_eq!(current.addr, "10.0.0.2:52000");
}

#[test]
fn everything_that_is_held_is_let_go_of() {
    let mut keys = Vec::new();
    track_forwarded_key(&mut keys, 0x41, true);
    track_forwarded_key(&mut keys, 0x42, true);
    track_forwarded_key(&mut keys, 0x41, true);
    assert_eq!(keys, vec![0x41, 0x42]);
    track_forwarded_key(&mut keys, 0x41, false);
    assert_eq!(keys, vec![0x42]);
    assert_eq!(
        release_forwarded_keys(&keys),
        vec![InputEvent::Key { key_code: 0x42, down: false }]
    );

    let mut mask = 0;
    update_remote_button_mask(&mut mask, MouseButton::Forward, true);
    update_remote_button_mask(&mut mask, MouseButton::Middle, true);
    assert!(remote_button_is_down(mask));
    assert_eq!(button_from_mask(mask), Some(MouseButton::Middle));
    let released = release_remote_buttons(&mut mask);
    assert_eq!(released.len(), 2);
    assert!(released.contains(&InputEvent::MouseButton { button: MouseButton::Forward, down: false }));
    assert_eq!(mask, 0);

    let mut last = None;
    assert!(should_send_mouse_move(&mut last, false, NOW));
    assert!(!should_send_mouse_move(&mut last, false, NOW + MOUSE_MOVE_SEND_INTERVAL - 1));
    assert!(should_send_mouse_move(&mut last, false, NOW + MOUSE_MOVE_SEND_INTERVAL));
}

#[test]
fn positions_survive_packing() {
    for (x, y) in [(0, 0), (-1, 1), (i32::MIN, i32::MAX), (1920, -1080)] {
        assert_eq!(unpack_remote_position(pack_remote_position(x, y)), (x, y));
    }
}

#[test]
fn links_are_drawn_by_geometry_until_the_user_draws_them() {
    let mut layout = layout();
    let drawn = edge_links_from_geometry(&layout);
    assert_eq!(drawn.len(), 1);
    assert_eq!(drawn[0].a.side, "right");
    assert_eq!(drawn[0].b.side, "left");
    assert_eq!(effective_edge_links(&layout).len(), 1);

    let anchor = |device: &str, screen: &str, side: &str, start: f64, end: f64| EdgeAnchor {
        device_id: device.into(),
        screen_id: screen.into(),
        side: side.into(),
        start: d(start),
        end: d(end),
    };
    layout.edge_links = Some(vec![EdgeLink {
        id: "mine".into(),
        a: anchor("local-device", "local-display-1", "bottom", 0.75, 0.25),
        b: anchor("peer-device", "peer-device-display-1", "top", -1.0, 2.0),
    }]);
    let targets = build_input_targets(&layout, &layout, ORIGIN, Platform::Linux);
    assert_eq!(targets.len(), 1);
    assert_eq!(targets[0].edge, Edge::Bottom);
    assert_eq!(targets[0].remote_edge, Edge::Top);
    assert_eq!(targets[0].local_span, EdgeSpan { start: d(0.25), end: d(0.75) });
    assert_eq!(targets[0].remote_span, EdgeSpan::whole());
    assert_eq!(targets[0].screen_id, "display-1");
}

#[test]
fn sides_read_back_and_face_each_other() {
    for edge in [Edge::Left, Edge::Right, Edge::Top, Edge::Bottom] {
        assert_eq!(Edge::from_side(edge.as_side()), Some(edge));
        assert_eq!(edge.opposite().opposite(), edge);
        assert_eq!(edge.runs_horizontally(), edge.opposite().runs_horizontally());
    }
    assert_eq!(Edge::from_side("middle"), None);
    let left = screen("a", "a", 0, 0, 100, 100);
    // They share 81 rows, which is more than the tolerance.
    let right = screen("b", "b", 100, 19, 100, 100);
    assert_eq!(touching_edge(&left, &screen("b", "b", 100, 20, 100, 100)), None);
    assert_eq!(touching_edge(&left, &right), Some(Edge::Right));
    assert_eq!(touching_edge(&right, &left), Some(Edge::Left));
    assert!(!screens_overlap(&left, &right));
    assert!(screens_overlap(&left, &screen("c", "c", 50, 50, 100, 100)));
}

#[test]
fn windows_counts_physical_pixels() {
    let mut logical = screen("a", "a", 100, 50, 1000, 500);
    logical.scale = d(1.5);
    let native = platform_native_screen(Platform::Windows, &logical);
    assert_eq!((native.x, native.y, native.width, native.height), (150, 75, 1500, 750));
    let native = platform_native_screen(Platform::Linux, &logical);
    assert_eq!((native.x, native.width), (100, 1000));
    logical.scale = d(f64::NAN);
    let native = platform_native_screen(Platform::Windows, &logical);
    assert_eq!((native.x, native.width), (100, 1000));
}

#[test]
fn a_text_is_blank_when_all_of_it_is_white_space() {
    for text in ["", " ", "\t\n", "\u{2003}\u{a0} "] {
        assert!(is_blank(text), "{text:?}");
    }
    for text in ["a", " a ", "\u{200b}"] {
        assert!(!is_blank(text), "{text:?}");
    }
}

#[test]
fn a_packet_goes_to_its_peer_with_all_credentials_or_none() {
    let layout = layout();
    let target = build_input_targets(&layout, &layout, ORIGIN, Platform::Linux).remove(0);
    let event = InputEvent::Key { key_code: 0x41, down: true };
    let context = input_packet_context(&target, event, Some(&layout), ORIGIN, Platform::Linux);
    let mut tracker = Recency::new();
    {
        let (peer, packet) =
            send_packet(&context, &target.device_id, 47834, "own-key", &mut tracker, NOW)
                .expect("a peer");
        assert_eq!(peer.addr, "10.0.0.2:52000");
        assert_eq!(packet.origin_device_id, ORIGIN);
        assert_eq!(packet.origin_transport_public_key, "own-key");
        assert_eq!(packet.cluster_id, "cluster-test");
        assert_eq!(packet.pair_secret, "secret-test");
        assert_eq!(packet.origin_port, 47834);
    }
    let (_, packet) =
        send_packet(&context, &target.device_id, 47834, "own-key", &mut tracker, NOW + 1)
            .expect("a peer");
    assert_eq!(packet.origin_device_id, "");
    assert_eq!(packet.origin_transport_public_key, "");
    assert_eq!(packet.cluster_id, "");
    assert_eq!(packet.pair_secret, "");
}

#[test]
fn a_key_for_an_absent_device_goes_to_nobody() {
    let layout = layout();
    let target = build_input_targets(&layout, &layout, ORIGIN, Platform::Linux).remove(0);
    for absence in 0..2 {
        let mut absent = self::layout();
        for device in absent.devices.iter_mut() {
            if device.id == "peer-device" {
                device.online = absence != 0;
                device.input_ready = absence != 1;
            }
        }
        let event = InputEvent::Key { key_code: 0x41, down: true };
        let context = input_packet_context(&target, event, Some(&absent), ORIGIN, Platform::Linux);
        let mut tracker = Recency::new();
        assert!(send_packet(&context, &target.device_id, 1, "own-key", &mut tracker, NOW).is_none());
        assert!(tracker.last("10.0.0.2:52000").is_none());
    }
}

#[test]
fn only_a_packet_that_was_taken_counts_as_sent() {
    let online = |layout: &LayoutState| {
        layout.devices.iter().map(|device| device.online).collect::<Vec<bool>>()
    };
    let mut layout = layout();
    let before = online(&layout);
    let mut events: u64 = 41;
    assert!(packet_sent(Fate::Accepted, &mut events, Some(&mut layout), "peer-device"));
    assert_eq!(events, 42);
    assert!(!packet_sent(Fate::NoPeer, &mut events, Some(&mut layout), "peer-device"));
    assert!(!packet_sent(Fate::NotEncoded, &mut events, Some(&mut layout), "peer-device"));
    assert!(!packet_sent(Fate::Refused, &mut events, None, "peer-device"));
    assert!(!packet_sent(Fate::Refused, &mut events, Some(&mut layout), "unknown-device"));
    assert_eq!(online(&layout), before);

    assert!(!packet_sent(Fate::Refused, &mut events, Some(&mut layout), "peer-device"));
    assert_eq!(events, 42);
    for (device, was) in layout.devices.iter().zip(before) {
        assert_eq!(device.online, was && device.id != "peer-device");
    }

    let mut last: u64 = u64::MAX;
    count_event(&mut last);
    assert_eq!(last, 0);
}
