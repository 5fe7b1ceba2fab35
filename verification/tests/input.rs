//! Crossing between machines: targets, roaming, returning, switching, and the
//! packets that carry the input.

use mykvm::active::{
    crossing_layout_point, crossing_target, is_crossing_screen, link_entry_point,
    linux_entry_from_barrier, linux_exit_return, linux_outward_delta, local_hotkey_return_point,
    local_return_point, remote_park_point,
    should_ignore_initial_anchor_warp_delta, update_active_remote_screen, ActiveTarget,
    PARK_CORNER_CLEARANCE,
};
use mykvm::clipboard_target::{current_clipboard_target, ClipboardTarget};
use mykvm::credentials::{
    credential_send_due, input_packet_context, origin_authorization_fresh,
    INPUT_FULL_CRED_REFRESH, INPUT_ORIGIN_CACHE_TTL,
};
use mykvm::discovery::local_peer_id;
use mykvm::double::Double;
use mykvm::edge::{geometric_spans, Edge, EdgeSpan, Point};
use mykvm::keys::remap_event_for_target_layout;
use mykvm::layout::{
    default_modifier_map, Device, EdgeAnchor, EdgeLink, LayoutState, PairedController, Screen,
    ScreenSwitchHotkeys,
};
use mykvm::linux_capture::linux_edge_blocked_by;
use mykvm::packet::{
    InputControlCommand, InputControlPacket, InputPacket, INPUT_CONTROL_PROTOCOL, INPUT_PROTOCOL,
};
use mykvm::platform::Platform;
use mykvm::receive::{
    control_packet_authorized, input_event_to_command, packet_authorized, RemoteMouse,
};
use mykvm::shared_input::{InputCommand, InputEvent};
use mykvm::switch::{
    remembered_local_screen_point, request_screen_switch, request_screen_switch_from_point,
    ScreenPoints, SwitchDirection, SwitchOutcome,
};
use mykvm::targets::{build_input_targets, input_targets_fingerprint, InputTarget};
use mykvm::transport::PROTOCOL_VERSION;

const ORIGIN: &str = "peer-local-192-168-66-92";

fn d(value: f64) -> Double {
    Double { bits: value.to_bits() }
}

fn f(value: Double) -> f64 {
    f64::from_bits(value.bits)
}

fn p(x: f64, y: f64) -> Point {
    Point { x: d(x), y: d(y) }
}

fn screen(device_id: &str, id: &str, x: i32, y: i32, width: i32, height: i32) -> Screen {
    Screen {
        id: id.into(),
        device_id: device_id.into(),
        name: id.into(),
        x,
        y,
        width,
        height,
        scale: d(1.0),
        is_primary: true,
    }
}

/// Fills a fixture's link spans from where its two screens stand.
fn wired_by_geometry(mut target: InputTarget) -> InputTarget {
    if let Some((local_span, remote_span)) = geometric_spans(
        &target.layout_local_screen,
        &target.remote_screen,
        target.edge,
    ) {
        target.local_span = local_span;
        target.remote_span = remote_span;
    }
    target.remote_edge = target.edge.opposite();
    target
}

fn target_for_coordinate_tests() -> InputTarget {
    InputTarget {
        device_id: "peer-device".into(),
        origin_device_id: ORIGIN.into(),
        cluster_id: "cluster-test".into(),
        pair_secret: "secret-test".into(),
        target_addr: "10.0.0.2:47833".into(),
        target_platform: "windows".into(),
        transport_public_key: "test-public-key".into(),
        protocol_version: PROTOCOL_VERSION,
        screen_id: "local-display-1".into(),
        local_screen: screen("local-device", "local-display-1", 0, 0, 1920, 1080),
        layout_local_screen: screen("local-device", "local-display-1", -11960, -9000, 2560, 1440),
        remote_screen: screen("peer-device", "peer-device-local-display-1", -9400, -9000, 2560, 1440),
        edge: Edge::Right,
        local_span: EdgeSpan::whole(),
        remote_edge: Edge::Left,
        remote_span: EdgeSpan::whole(),
    }
}

fn layout_for_target_tests() -> LayoutState {
    LayoutState {
        devices: vec![
            Device {
                id: "local-device".into(),
                name: "Local".into(),
                platform: "macos".into(),
                host: "192.168.66.92".into(),
                transport_port: 47833,
                quic_port: 47834,
                transport_public_key: "local-public-key".into(),
                protocol_version: PROTOCOL_VERSION,
                color: "#2f7af8".into(),
                online: true,
                input_ready: false,
                upgrading: false,
                upgrading_until_ms: 0,
                role: "local".into(),
                source: "detected".into(),
                screens: vec![screen("local-device", "local-display-1", 0, 0, 1920, 1080)],
            },
            Device {
                id: "peer-device".into(),
                name: "Client".into(),
                platform: "windows".into(),
                host: "10.0.0.2".into(),
                transport_port: 52000,
                quic_port: 52001,
                transport_public_key: "peer-public-key".into(),
                protocol_version: PROTOCOL_VERSION,
                color: "#0f766e".into(),
                online: true,
                input_ready: true,
                upgrading: false,
                upgrading_until_ms: 0,
                role: "client".into(),
                source: "detected".into(),
                screens: vec![screen(
                    "peer-device",
                    "peer-device-local-display-1",
                    1920,
                    0,
                    1920,
                    1080,
                )],
            },
        ],
        input_mode: "control".into(),
        machine_role: "server".into(),
        cluster_id: "cluster-test".into(),
        pair_secret: "secret-test".into(),
        paired_controllers: Vec::new(),
        transport_port: 47833,
        quic_port: 47834,
        modifier_remap: true,
        modifier_map: default_modifier_map(),
        screen_switch_hotkeys: ScreenSwitchHotkeys {
            left: "disabled".into(),
            right: "disabled".into(),
            up: "disabled".into(),
            down: "disabled".into(),
        },
        edge_links: None,
    }
}

fn built(layout: &LayoutState) -> Vec<InputTarget> {
    build_input_targets(layout, layout, ORIGIN, Platform::Linux)
}

fn fingerprint(layout: &LayoutState) -> String {
    input_targets_fingerprint(layout, layout, ORIGIN, Platform::Linux)
}

fn entered_target(edge: Edge, entry: &Screen) -> InputTarget {
    InputTarget {
        device_id: "peer-device".into(),
        origin_device_id: ORIGIN.into(),
        cluster_id: "cluster-test".into(),
        pair_secret: "secret-test".into(),
        target_addr: "10.0.0.2:47834".into(),
        target_platform: "windows".into(),
        transport_public_key: "peer-public-key".into(),
        protocol_version: PROTOCOL_VERSION,
        screen_id: "local-display-1".into(),
        local_screen: screen("local-device", "local-display-1", 0, 0, 1920, 1080),
        layout_local_screen: screen("local-device", "local-display-1", 0, 0, 1920, 1080),
        remote_screen: entry.clone(),
        edge,
        local_span: EdgeSpan::whole(),
        remote_edge: edge.opposite(),
        remote_span: EdgeSpan::whole(),
    }
}

#[test]
fn cursor_roams_across_remote_device_screens() {
    // Two stacked screens: a primary and a secondary directly below it.
    let mut layout = layout_for_target_tests();
    layout.devices[1].quic_port = 47834;
    layout.devices[1].transport_port = 47833;
    layout.devices[1].screens = vec![
        screen("peer-device", "peer-device-scr-1", 1920, 0, 1920, 1080),
        screen("peer-device", "peer-device-scr-2", 1920, 1080, 1920, 1080),
    ];

    let entry = screen("peer-device", "peer-device-scr-1", 1920, 0, 1920, 1080);
    let mut target = entered_target(Edge::Right, &entry);
    target.screen_id = "scr-1".into();
    let mut current_screen = entry.clone();
    current_screen.id = "scr-1".into();
    let mut active = ActiveTarget {
        target,
        current_screen,
        current_screen_id: "scr-1".into(),
        x: d(100.0),
        y: d(1079.0),
        invert_y: false,
    };

    // Pushing down past the primary's bottom edge roams onto the secondary.
    active.y = d(f(active.y) + 5.0);
    let returned = update_active_remote_screen(&mut active, p(0.0, 5.0), &layout);
    assert!(!returned, "crossing onto a sibling screen must not return to local");
    assert_eq!(active.current_screen_id, "scr-2");
    assert!((0.0..1080.0).contains(&f(active.y)));
    assert_eq!(f(active.x), 100.0);

    // Moving back up crosses back onto the primary screen.
    active.y = d(f(active.y) - 6.0);
    let returned = update_active_remote_screen(&mut active, p(0.0, -6.0), &layout);
    assert!(!returned);
    assert_eq!(active.current_screen_id, "scr-1");
}

#[test]
fn cursor_returns_to_local_only_from_entry_edge() {
    let layout = layout_for_target_tests();
    let entry = screen("peer-device", "peer-device-local-display-1", 1920, 0, 1920, 1080);
    let mut current_screen = entry.clone();
    current_screen.id = "local-display-1".into();
    let mut active = ActiveTarget {
        target: entered_target(Edge::Right, &entry),
        current_screen,
        current_screen_id: "local-display-1".into(),
        x: d(0.0),
        y: d(500.0),
        invert_y: false,
    };

    // Moving back left off the entry edge hands control back.
    active.x = d(f(active.x) - 2.0);
    assert!(update_active_remote_screen(&mut active, p(-2.0, 0.0), &layout));
}

#[test]
fn initial_anchor_warp_delta_does_not_return_to_local() {
    let layout = layout_for_target_tests();
    let entry = screen("peer-device", "peer-device-local-display-1", 1920, 0, 1920, 1080);
    let mut current_screen = entry.clone();
    current_screen.id = "local-display-1".into();
    let active = ActiveTarget {
        target: entered_target(Edge::Right, &entry),
        current_screen,
        current_screen_id: "local-display-1".into(),
        x: d(1.0),
        y: d(500.0),
        invert_y: false,
    };
    let dx = -8.0;
    let dy = 0.0;

    let mut unguarded = active.clone();
    unguarded.x = d(f(unguarded.x) + dx);
    assert!(
        update_active_remote_screen(&mut unguarded, p(dx, dy), &layout),
        "without the initial warp guard, the anchor warp delta is mistaken for returning"
    );

    let mut guarded = active.clone();
    let returned = if should_ignore_initial_anchor_warp_delta(guarded.target.edge, p(dx, dy)) {
        false
    } else {
        guarded.x = d(f(guarded.x) + dx);
        update_active_remote_screen(&mut guarded, p(dx, dy), &layout)
    };

    assert!(!returned);
    assert_eq!(f(guarded.x), 1.0);
}

#[test]
fn remote_park_point_tucks_mac_at_shared_edge_and_keeps_windows_corner() {
    let target = target_for_coordinate_tests();
    let remote = target.remote_screen.clone();
    let mut active = ActiveTarget {
        target,
        current_screen: remote.clone(),
        current_screen_id: remote.id.clone(),
        x: d(12.0),
        y: d(700.0),
        invert_y: false,
    };

    // A controlled Windows machine keeps the far corner.
    assert_eq!(remote_park_point(&active), (2559, 1439));

    // A controlled Mac entered through the right edge: the bottom edge, at its
    // west end, clear of the corner.
    active.target.target_platform = "macos".into();
    assert_eq!(remote_park_point(&active), (PARK_CORNER_CLEARANCE, 1439));

    // Entered through the left edge: the east edge, at the exit height.
    active.target.edge = Edge::Left;
    assert_eq!(remote_park_point(&active), (2559, 700));

    // An exit right next to a corner still keeps clear of it.
    active.y = d(1439.0);
    assert_eq!(remote_park_point(&active), (2559, 1439 - PARK_CORNER_CLEARANCE));
}

#[test]
fn screen_switch_request_enters_remote_at_screen_center() {
    let layout = layout_for_target_tests();

    match request_screen_switch(
        SwitchDirection::Right,
        &layout,
        &layout,
        ORIGIN,
        Platform::Linux,
        false,
    ) {
        SwitchOutcome::Enter(active_target) => {
            assert_eq!(active_target.target.device_id, "peer-device");
            assert_eq!(f(active_target.x), 960.0);
            assert_eq!(f(active_target.y), 540.0);
        }
        _ => panic!("expected right quick switch to enter the online client"),
    }
}

#[test]
fn screen_switch_request_moves_between_local_screens() {
    let mut layout = layout_for_target_tests();
    layout.devices[0].screens.push(screen(
        "local-device",
        "local-display-2",
        512,
        1080,
        1512,
        982,
    ));

    match request_screen_switch_from_point(
        SwitchDirection::Down,
        &layout,
        &layout,
        ORIGIN,
        Platform::Linux,
        false,
        Some(p(960.0, 540.0)),
    ) {
        SwitchOutcome::LocalMove { from_screen_id, to_screen_id, at } => {
            assert_eq!(from_screen_id, "local-display-1");
            assert_eq!(to_screen_id, "local-display-2");
            assert_eq!(f(at.x), 1268.0);
            assert_eq!(f(at.y), 1571.0);
        }
        _ => panic!("expected down quick switch to move to the lower local screen"),
    }

    match request_screen_switch_from_point(
        SwitchDirection::Up,
        &layout,
        &layout,
        ORIGIN,
        Platform::Linux,
        false,
        Some(p(1268.0, 1571.0)),
    ) {
        SwitchOutcome::LocalMove { from_screen_id, to_screen_id, at } => {
            assert_eq!(from_screen_id, "local-display-2");
            assert_eq!(to_screen_id, "local-display-1");
            assert_eq!(f(at.x), 960.0);
            assert_eq!(f(at.y), 540.0);
        }
        _ => panic!("expected up quick switch to move back to the upper local screen"),
    }
}

#[test]
fn a_switch_while_remote_returns_or_does_nothing() {
    let layout = layout_for_target_tests();
    let outcome = |direction| {
        request_screen_switch(direction, &layout, &layout, ORIGIN, Platform::Linux, true)
    };
    assert!(matches!(outcome(SwitchDirection::Left), SwitchOutcome::Return));
    let nowhere = request_screen_switch(
        SwitchDirection::Up,
        &layout,
        &layout,
        ORIGIN,
        Platform::Linux,
        false,
    );
    assert!(matches!(nowhere, SwitchOutcome::Noop));
}

#[test]
fn local_screen_switch_remembers_points_by_screen_id() {
    let mut points = ScreenPoints::new();

    let first_target = remembered_local_screen_point(
        &mut points,
        "local-display-1",
        "local-display-2",
        Some(p(333.0, 444.0)),
        p(1268.0, 1571.0),
    );
    assert_eq!(first_target, p(1268.0, 1571.0));

    let return_target = remembered_local_screen_point(
        &mut points,
        "local-display-2",
        "local-display-1",
        Some(p(1200.0, 1500.0)),
        p(960.0, 540.0),
    );
    assert_eq!(return_target, p(333.0, 444.0));

    assert_eq!(points.get("local-display-1"), Some(p(333.0, 444.0)));
    assert_eq!(points.get("local-display-2"), Some(p(1200.0, 1500.0)));
}

#[test]
fn hotkey_return_uses_recorded_point_then_local_screen_center() {
    let targets = vec![target_for_coordinate_tests()];
    let active = crossing_target(&targets, p(1919.0, 500.0), p(40.0, 0.0))
        .expect("target should be active");

    assert_eq!(
        local_hotkey_return_point(&active, Some(p(321.0, 654.0))),
        p(321.0, 654.0)
    );
    assert_eq!(local_hotkey_return_point(&active, None), p(960.0, 540.0));
}

#[test]
fn fast_return_pins_remote_cursor_to_entry_edge() {
    let layout = layout_for_target_tests();
    let entry = screen("peer-device", "peer-device-local-display-1", 1920, 0, 1920, 1080);

    for (edge, x, y, dx, dy, expected_x, expected_y) in [
        (Edge::Right, 240.0, 400.0, -260.0, 18.0, 0.0, 418.0),
        (Edge::Left, 1680.0, 400.0, 260.0, 18.0, 1919.0, 418.0),
        (Edge::Bottom, 500.0, 260.0, 16.0, -300.0, 516.0, 0.0),
        (Edge::Top, 500.0, 820.0, 16.0, 300.0, 516.0, 1079.0),
    ] {
        let mut current_screen = entry.clone();
        current_screen.id = "local-display-1".into();
        let mut active = ActiveTarget {
            target: entered_target(edge, &entry),
            current_screen,
            current_screen_id: "local-display-1".into(),
            x: d(x + dx),
            y: d(y + dy),
            invert_y: false,
        };

        assert!(update_active_remote_screen(&mut active, p(dx, dy), &layout));
        assert_eq!(f(active.x), expected_x);
        assert_eq!(f(active.y), expected_y);
    }
}

#[test]
fn credential_refresh_and_origin_cache_windows() {
    let t0: u64 = 1_000_000_000_000;
    let millisecond: u64 = 1_000_000;
    // Refresh: due when never sent, not due within the window, due after it.
    assert!(credential_send_due(None, t0));
    assert!(!credential_send_due(Some(t0), t0 + INPUT_FULL_CRED_REFRESH - millisecond));
    assert!(credential_send_due(Some(t0), t0 + INPUT_FULL_CRED_REFRESH));

    // Cache: never seen is not fresh; within the time it is; past it it is not.
    assert!(!origin_authorization_fresh(None, t0));
    assert!(origin_authorization_fresh(Some(t0), t0 + INPUT_ORIGIN_CACHE_TTL - millisecond));
    assert!(!origin_authorization_fresh(Some(t0), t0 + INPUT_ORIGIN_CACHE_TTL));

    // The refresh interval must stay under the cache's, or authorization would
    // lapse between packets with credentials.
    assert!(INPUT_FULL_CRED_REFRESH < INPUT_ORIGIN_CACHE_TTL);
}

#[test]
fn input_packet_context_uses_stable_peer_origin_id() {
    let layout = layout_for_target_tests();
    let expected_origin_id = local_peer_id("local", "192.168.66.92");
    let target = target_for_coordinate_tests();

    // Key events consult the live layout and must resolve the stable id.
    let context = input_packet_context(
        &target,
        InputEvent::Key { key_code: 0x41, down: true },
        Some(&layout),
        &expected_origin_id,
        Platform::Linux,
    );
    assert_ne!(expected_origin_id, "local-device");
    assert_eq!(context.origin_device_id, expected_origin_id);

    // Mouse events take the context that was cached on the target.
    let context = input_packet_context(
        &target,
        InputEvent::MouseMove { screen_id: "local-display-1".into(), x: 10, y: 20 },
        Some(&layout),
        "another-id",
        Platform::Linux,
    );
    assert_eq!(context.origin_device_id, target.origin_device_id);
}

#[test]
fn input_packet_context_uses_cached_target_when_layout_lock_is_busy() {
    let target = target_for_coordinate_tests();
    let context = input_packet_context(
        &target,
        InputEvent::MouseMove { screen_id: "local-display-1".into(), x: 10, y: 20 },
        None,
        "another-id",
        Platform::Linux,
    );
    assert_eq!(context.origin_device_id, "peer-local-192-168-66-92");
    assert_eq!(context.cluster_id, "cluster-test");
    assert_eq!(context.pair_secret, "secret-test");
    assert!(context.peer.is_some());
}

fn controller(id: &str, name: &str, host: &str, ip: &str, key: &str, at: u64) -> PairedController {
    PairedController {
        id: id.into(),
        name: name.into(),
        host: host.into(),
        ip: ip.into(),
        transport_public_key: key.into(),
        protocol_version: PROTOCOL_VERSION,
        cluster_id: "cluster-test".into(),
        paired_at_ms: at,
    }
}

#[test]
fn input_packet_requires_pair_secret() {
    let mut layout = layout_for_target_tests();
    layout.machine_role = "client".into();
    layout.paired_controllers =
        vec![controller("server", "Server", "server", "10.0.0.1", "server-key", 1)];
    let mut packet = InputPacket {
        protocol: INPUT_PROTOCOL.into(),
        target_device_id: "local-device".into(),
        origin_device_id: "server".into(),
        origin_port: 47834,
        origin_transport_public_key: "server-key".into(),
        origin_protocol_version: PROTOCOL_VERSION,
        cluster_id: layout.cluster_id.clone(),
        pair_secret: "wrong".into(),
        event: InputEvent::MouseMove { screen_id: "local-display-1".into(), x: 1, y: 1 },
    };

    assert!(!packet_authorized(&layout, &packet));
    packet.pair_secret = layout.pair_secret.clone();
    assert!(packet_authorized(&layout, &packet));
    packet.origin_transport_public_key = "attacker-key".into();
    packet.origin_device_id = "attacker".into();
    assert!(!packet_authorized(&layout, &packet));
    packet.origin_transport_public_key.clear();
    packet.origin_device_id = "server".into();
    assert!(packet_authorized(&layout, &packet));
}

#[test]
fn input_packet_accepts_legacy_origin_after_transport_key_rotation() {
    let mut layout = layout_for_target_tests();
    layout.machine_role = "client".into();
    layout.paired_controllers = vec![controller(
        "peer-server-local-10-0-0-1",
        "Server",
        "server.local",
        "10.0.0.1",
        "server-old-key",
        1,
    )];
    let packet = InputPacket {
        protocol: INPUT_PROTOCOL.into(),
        target_device_id: "local-device".into(),
        origin_device_id: "local-device".into(),
        origin_port: 47834,
        origin_transport_public_key: "server-rotated-key".into(),
        origin_protocol_version: PROTOCOL_VERSION,
        cluster_id: layout.cluster_id.clone(),
        pair_secret: layout.pair_secret.clone(),
        event: InputEvent::MouseMove { screen_id: "local-display-1".into(), x: 1, y: 1 },
    };

    assert!(packet_authorized(&layout, &packet));

    layout.paired_controllers.push(controller(
        "peer-other-server",
        "Other",
        "other.local",
        "10.0.0.3",
        "other-key",
        2,
    ));
    assert!(!packet_authorized(&layout, &packet));
}

#[test]
fn input_event_maps_relative_coordinates_to_native_command() {
    let layout = layout_for_target_tests();
    let mut native_layout = layout_for_target_tests();
    native_layout.devices[0].screens[0].width = 3840;
    native_layout.devices[0].screens[0].height = 2160;
    let mut mouse = RemoteMouse::new();

    let command = input_event_to_command(
        &layout,
        &native_layout,
        Platform::Linux,
        &mut mouse,
        &InputEvent::MouseMove { screen_id: "local-display-1".into(), x: 960, y: 540 },
    )
    .expect("mouse move should map to command");

    assert_eq!(command, InputCommand::MouseMove { x: 1920, y: 1080, drag_button: None });
}

#[test]
fn input_control_packet_uses_pairing_authorization() {
    let mut layout = layout_for_target_tests();
    layout.machine_role = "client".into();
    layout.paired_controllers =
        vec![controller("server", "Server", "server", "10.0.0.1", "server-key", 1)];
    let mut packet = InputControlPacket {
        protocol: INPUT_CONTROL_PROTOCOL.into(),
        target_device_id: "local-device".into(),
        origin_device_id: "server".into(),
        origin_transport_public_key: "server-key".into(),
        origin_protocol_version: PROTOCOL_VERSION,
        cluster_id: layout.cluster_id.clone(),
        pair_secret: "wrong".into(),
        command: InputControlCommand::SecureAttention,
    };

    assert!(!control_packet_authorized(&layout, &packet));
    packet.pair_secret = layout.pair_secret.clone();
    assert!(control_packet_authorized(&layout, &packet));
    packet.origin_transport_public_key = "attacker-key".into();
    packet.origin_device_id = "attacker".into();
    assert!(!control_packet_authorized(&layout, &packet));
}

#[test]
fn clipboard_target_expires() {
    let now: u64 = 1_000_000_000_000;
    let mut target = Some(ClipboardTarget {
        device_id: "peer-device".into(),
        addr: "10.0.0.2:47833".into(),
        transport_public_key: "peer-public-key".into(),
        protocol_version: PROTOCOL_VERSION,
        cluster_id: "cluster-test".into(),
        pair_secret: "secret-test".into(),
        expires_at: Some(now - 1_000_000),
    });

    assert!(current_clipboard_target(&mut target, now).is_none());
    assert!(target.is_none());
}

#[test]
fn crossing_accepts_native_screen_coordinates() {
    let target = target_for_coordinate_tests();

    // The native width is 1920, so the cursor must reach x = 1919 to cross.
    let mapped = crossing_layout_point(&target, p(1919.0, 500.0), p(5.0, 0.0))
        .expect("native edge should cross");

    assert!(f(mapped.x) > -9404.0);
    assert!(f(mapped.x) <= -9400.0);
}

#[test]
fn fast_crossing_carries_entry_delta_into_remote() {
    let targets = vec![target_for_coordinate_tests()];
    let active = crossing_target(&targets, p(1919.0, 500.0), p(40.0, 0.0))
        .expect("fast edge movement should cross");

    assert!(
        f(active.x) > 1.0,
        "dropping the crossing delta makes the cursor feel stuck at the edge"
    );
}

#[test]
fn crossing_rejects_raw_layout_coordinates() {
    let target = target_for_coordinate_tests();

    assert!(crossing_layout_point(&target, p(-9401.0, -8500.0), p(5.0, 0.0)).is_none());
}

fn scaled_target() -> InputTarget {
    InputTarget {
        local_screen: screen("local-device", "local-display-1", 0, 0, 3840, 2160),
        layout_local_screen: screen("local-device", "local-display-1", 0, 0, 1920, 1080),
        remote_screen: screen("peer-device", "peer-device-local-display-1", 1920, 0, 1728, 1117),
        ..target_for_coordinate_tests()
    }
}

#[test]
fn crossing_uses_native_edge_before_mapping_to_layout() {
    let target = scaled_target();

    assert!(crossing_layout_point(&target, p(1918.0, 600.0), p(5.0, 0.0)).is_none());

    // The native width is 3840, so the edge pixel is x = 3839.
    let mapped = crossing_layout_point(&target, p(3839.0, 1200.0), p(5.0, 0.0))
        .expect("native edge should cross");

    assert!(f(mapped.x) > 1916.0);
    assert!(f(mapped.x) <= 1920.0);
}

#[test]
fn crossing_rejects_fast_jump_from_middle() {
    let target = scaled_target();

    assert!(crossing_layout_point(&target, p(3838.0, 1200.0), p(900.0, 0.0)).is_none());
}

#[test]
fn remap_skips_unknown_target_platform() {
    let layout = layout_for_target_tests();
    let mut target = built(&layout).into_iter().next().expect("one target");

    // An unknown platform is never remapped, whatever the map says.
    target.target_platform = "unknown".into();
    for own in [Platform::Linux, Platform::MacOs, Platform::Windows] {
        let event = remap_event_for_target_layout(
            InputEvent::Key { key_code: 0x11, down: true },
            &target.target_platform,
            own,
            &layout,
        );
        match event {
            InputEvent::Key { key_code, .. } => assert_eq!(key_code, 0x11),
            _ => panic!("expected key event"),
        }
    }
}

#[test]
fn remap_passes_through_non_key_events() {
    let layout = layout_for_target_tests();
    let target = built(&layout).into_iter().next().expect("one target");

    let event = remap_event_for_target_layout(
        InputEvent::Scroll { delta_x: 1, delta_y: -2 },
        &target.target_platform,
        Platform::MacOs,
        &layout,
    );
    assert!(matches!(event, InputEvent::Scroll { delta_x: 1, delta_y: -2 }));
}

#[test]
fn keys_are_remapped_between_a_mac_and_other_machines() {
    let layout = layout_for_target_tests();
    let remapped = |own, platform: &str, key_code| {
        match remap_event_for_target_layout(
            InputEvent::Key { key_code, down: true },
            platform,
            own,
            &layout,
        ) {
            InputEvent::Key { key_code, .. } => key_code,
            _ => panic!("expected key event"),
        }
    };
    assert_eq!(remapped(Platform::MacOs, "windows", 0x11), 0x5B);
    assert_eq!(remapped(Platform::Windows, "macos", 0x11), 0x5B);
    assert_eq!(remapped(Platform::Windows, "windows", 0x11), 0x11);
}

#[test]
fn input_targets_use_peer_quic_port() {
    let layout = layout_for_target_tests();
    let targets = built(&layout);

    assert_eq!(targets.len(), 1);
    assert_eq!(targets[0].target_addr, "10.0.0.2:52001");
}

#[test]
fn input_targets_cache_pairing_context_for_hot_path() {
    let layout = layout_for_target_tests();
    let expected_origin_id = local_peer_id("local", "192.168.66.92");
    let targets =
        build_input_targets(&layout, &layout, &expected_origin_id, Platform::Linux);

    assert_eq!(targets.len(), 1);
    assert_eq!(targets[0].origin_device_id, expected_origin_id);
    assert_eq!(targets[0].cluster_id, "cluster-test");
    assert_eq!(targets[0].pair_secret, "secret-test");
}

#[test]
fn input_targets_require_peer_input_ready() {
    let mut layout = layout_for_target_tests();
    layout.devices[1].input_ready = false;

    assert!(built(&layout).is_empty());
}

#[test]
fn input_targets_ignore_overlapping_remote_screens() {
    let mut layout = layout_for_target_tests();
    layout.devices[1].screens[0].x = 1860;

    assert!(built(&layout).is_empty());
}

#[test]
fn fingerprint_changes_when_a_peer_comes_online() {
    let mut layout = layout_for_target_tests();
    layout.devices[1].online = false;
    let offline = fingerprint(&layout);

    layout.devices[1].online = true;
    let online = fingerprint(&layout);

    assert!(offline.is_empty());
    assert!(!online.is_empty());
    assert_ne!(offline, online);
}

#[test]
fn fingerprint_is_stable_while_the_wiring_is_unchanged() {
    let layout = layout_for_target_tests();

    assert_eq!(fingerprint(&layout), fingerprint(&layout));
}

#[test]
fn fingerprint_changes_when_a_screen_moves_in_the_layout() {
    let mut layout = layout_for_target_tests();
    let before = fingerprint(&layout);

    layout.devices[1].screens[0].y += 240;
    let after = fingerprint(&layout);

    assert_ne!(before, after);
}

/// A laptop above two local screens, a narrow one on the left and a wide one
/// beside it, and to the left of a third.
fn targets_for_exit_tests() -> (Screen, Vec<InputTarget>) {
    let remote = screen("peer-device", "remote-1", 179, 0, 1920, 1080);
    let make = |name: &str, edge: Edge, x: i32, y: i32, w: i32, h: i32| {
        wired_by_geometry(InputTarget {
            edge,
            local_screen: screen("local-device", name, x, y, w, h),
            layout_local_screen: screen("local-device", name, x, y, w, h),
            remote_screen: remote.clone(),
            ..target_for_coordinate_tests()
        })
    };

    let targets = vec![
        make("dp-1", Edge::Top, 0, 1080, 1200, 1920),
        make("dp-3", Edge::Top, 1200, 1080, 3840, 2160),
        make("hdmi", Edge::Left, 2099, 0, 1920, 1080),
    ];
    (remote, targets)
}

/// A laptop with three displays along the bottom edge of one local panel.
fn targets_for_entry_tests() -> Vec<InputTarget> {
    let local = screen("local-device", "dp-3", 1200, 1080, 3840, 2160);
    let make = |name: &str, x: i32, w: i32| {
        wired_by_geometry(InputTarget {
            edge: Edge::Bottom,
            local_screen: local.clone(),
            layout_local_screen: local.clone(),
            remote_screen: screen("peer-device", name, x, 3240, w, 1080),
            screen_id: name.into(),
            ..target_for_coordinate_tests()
        })
    };

    vec![
        make("display-9", 2200, 1920),
        make("display-10", 280, 1920),
        make("display-11", 4120, 1920),
    ]
}

/// A wide panel with another above its right half and two portrait ones beside.
fn local_screens_for_barrier_tests() -> Vec<Screen> {
    vec![
        screen("local-device", "dp-3", 1200, 1080, 3840, 2160),
        screen("local-device", "hdmi-a-1", 2219, 0, 1920, 1080),
        screen("local-device", "dp-1", 0, 1080, 1200, 1920),
        screen("local-device", "dp-2", 5040, 1080, 1200, 1920),
    ]
}

#[test]
fn leaving_one_screen_does_not_satisfy_a_far_away_screens_edge() {
    let windows = screen("peer-win", "display-1", 179, 0, 1920, 1080);

    let up_off_dp1 = wired_by_geometry(InputTarget {
        edge: Edge::Top,
        local_span: EdgeSpan::whole(),
        remote_edge: Edge::Bottom,
        remote_span: EdgeSpan::whole(),
        local_screen: screen("local-device", "dp-1", 0, 1080, 1200, 1920),
        layout_local_screen: screen("local-device", "dp-1", 0, 1080, 1200, 1920),
        remote_screen: windows.clone(),
        screen_id: "display-1".into(),
        ..target_for_coordinate_tests()
    });
    let left_off_hdmi = wired_by_geometry(InputTarget {
        edge: Edge::Left,
        local_span: EdgeSpan::whole(),
        remote_edge: Edge::Right,
        remote_span: EdgeSpan::whole(),
        local_screen: screen("local-device", "hdmi-a-1", 2219, 0, 1920, 1080),
        layout_local_screen: screen("local-device", "hdmi-a-1", 2099, 0, 1920, 1080),
        remote_screen: windows,
        screen_id: "display-1".into(),
        ..target_for_coordinate_tests()
    });

    // The left-edge target is listed first: a tie must not hand it the crossing.
    let targets = vec![left_off_hdmi, up_off_dp1];

    let active = linux_entry_from_barrier(&targets, "dp-1", Edge::Top, p(268.0, 1078.0))
        .expect("the crossing must resolve");
    assert_eq!(active.target.edge, Edge::Top);

    // It enters near the bottom, at the matching horizontal position.
    assert_eq!(f(active.x).round() as i32, 89);
    assert!(f(active.y) >= 1070.0, "entered at y={}", f(active.y));
}

#[test]
fn a_link_may_join_sides_that_do_not_face_each_other() {
    let local = screen("local-device", "dp-1", 0, 1080, 1200, 1920);
    let remote = screen("peer-device", "display-10", 280, 3240, 1920, 1080);
    let target = InputTarget {
        edge: Edge::Bottom,
        local_span: EdgeSpan::whole(),
        remote_edge: Edge::Bottom,
        remote_span: EdgeSpan::whole(),
        local_screen: local.clone(),
        layout_local_screen: local,
        remote_screen: remote.clone(),
        screen_id: "display-10".into(),
        ..target_for_coordinate_tests()
    };

    // Halfway along the local bottom edge maps to halfway along the remote one,
    // near the bottom of it rather than the top.
    let at = link_entry_point(&target, p(600.0, 3000.0), d(0.0));
    assert_eq!(f(at.x).round() as i32, 960);
    assert!(f(at.y) > 1070.0, "entered at y={}, expected near the bottom edge", f(at.y));
}

#[test]
fn one_side_split_between_two_destinations_routes_by_position() {
    let local = screen("local-device", "dp-3", 1200, 1080, 3840, 2160);
    let make = |name: &str, start: f64, end: f64| InputTarget {
        edge: Edge::Bottom,
        local_span: EdgeSpan { start: d(start), end: d(end) },
        remote_edge: Edge::Top,
        remote_span: EdgeSpan::whole(),
        local_screen: local.clone(),
        layout_local_screen: local.clone(),
        remote_screen: screen("peer-device", name, 0, 3240, 1920, 1080),
        screen_id: name.into(),
        ..target_for_coordinate_tests()
    };
    // The left third goes to one machine, the rest to another.
    let targets = vec![make("left-third", 0.0, 1.0 / 3.0), make("rest", 1.0 / 3.0, 1.0)];

    let left = linux_entry_from_barrier(&targets, "dp-3", Edge::Bottom, p(1500.0, 3240.0))
        .expect("left third matches");
    assert_eq!(left.current_screen_id, "left-third");

    let right = linux_entry_from_barrier(&targets, "dp-3", Edge::Bottom, p(4500.0, 3240.0))
        .expect("right stretch matches");
    assert_eq!(right.current_screen_id, "rest");

    // A stretch shorter than the destination still walks the whole of it.
    let at = link_entry_point(&targets[0], p(1200.0 + 3840.0 / 3.0 - 1.0, 3240.0), d(0.0));
    assert!(f(at.x) > 1900.0, "expected the far edge of the screen, got {}", f(at.x));
}

#[test]
fn clearing_every_link_disables_handover_but_no_links_field_keeps_geometry() {
    let mut layout = layout_for_target_tests();

    assert!(layout.edge_links.is_none());
    assert!(!built(&layout).is_empty(), "geometry should still route");

    // Clearing every link routes nothing: that is a choice the user can make.
    layout.edge_links = Some(Vec::new());
    assert!(built(&layout).is_empty());
}

#[test]
fn leaving_one_peer_cannot_exit_through_another_peers_link() {
    let panel = screen("local-device", "dp-3", 1200, 1080, 3840, 2160);
    let portrait = screen("local-device", "dp-1", 0, 1080, 1200, 1920);

    let laptop_from_panel = wired_by_geometry(InputTarget {
        device_id: "peer-laptop".into(),
        edge: Edge::Bottom,
        local_screen: panel.clone(),
        layout_local_screen: panel,
        remote_screen: screen("peer-laptop", "display-9", 2200, 3240, 1920, 1200),
        screen_id: "local-display-1".into(),
        ..target_for_coordinate_tests()
    });
    let windows_from_portrait = wired_by_geometry(InputTarget {
        device_id: "peer-windows".into(),
        edge: Edge::Top,
        local_screen: portrait.clone(),
        layout_local_screen: portrait,
        remote_screen: screen("peer-windows", "display-1", 0, -180, 1920, 1080),
        screen_id: "local-display-1".into(),
        ..target_for_coordinate_tests()
    });
    let targets = vec![laptop_from_panel, windows_from_portrait];
    let windows_screen = targets[1].remote_screen.clone();

    // There is no link off the top, so the cursor must stay put.
    assert!(linux_exit_return(
        &targets,
        "peer-windows",
        "local-display-1",
        &windows_screen,
        p(900.0, -5.0),
    )
    .is_none());

    // Its own edge still works, and lands on its own local screen.
    let (target, _) = linux_exit_return(
        &targets,
        "peer-windows",
        "local-display-1",
        &windows_screen,
        p(900.0, 1085.0),
    )
    .expect("its own bottom edge still returns");
    assert_eq!(target.local_screen.id, "dp-1");
}

#[test]
fn an_activation_reported_past_the_edge_still_hands_over() {
    let max_entry_push = 40.0;
    let local = screen("local-device", "dp-1", 0, 1080, 1200, 1920);
    let target = wired_by_geometry(InputTarget {
        edge: Edge::Bottom,
        local_screen: local.clone(),
        layout_local_screen: local,
        remote_screen: screen("peer-device", "display-10", 280, 3000, 1920, 1080),
        screen_id: "display-10".into(),
        ..target_for_coordinate_tests()
    });
    let targets = vec![target];

    // 400 pixels past the bottom edge.
    let active = linux_entry_from_barrier(&targets, "dp-1", Edge::Bottom, p(600.0, 3400.0))
        .expect("a shove past the edge must still cross");
    assert_eq!(active.current_screen_id, "display-10");
    // It lands near the top, pushed in by at most the cap.
    assert!(f(active.y) <= 1.0 + max_entry_push, "entered at y={}", f(active.y));

    // A report that lands sideways is pulled back onto this edge.
    let active = linux_entry_from_barrier(&targets, "dp-1", Edge::Bottom, p(4000.0, 3050.0))
        .expect("a sideways report must still cross");
    assert_eq!(active.current_screen_id, "display-10");
}

#[test]
fn an_edge_a_local_screen_borders_is_reported_as_unusable() {
    let locals = local_screens_for_barrier_tests();
    let dp3 = locals[0].clone();

    let blocker = linux_edge_blocked_by(&dp3, Edge::Top, &locals).expect("top edge is blocked");
    assert_eq!(blocker.name, "hdmi-a-1");

    let blocker = linux_edge_blocked_by(&dp3, Edge::Left, &locals).expect("left edge is blocked");
    assert_eq!(blocker.name, "dp-1");
}

#[test]
fn edges_facing_empty_space_stay_armable() {
    let locals = local_screens_for_barrier_tests();
    let dp3 = locals[0].clone();

    assert!(linux_edge_blocked_by(&dp3, Edge::Bottom, &locals).is_none());

    // 2219 is interior to the wide panel, not one of its edges.
    assert!(linux_edge_blocked_by(&locals[1], Edge::Left, &locals).is_none());

    // The edges share a line, but their spans do not overlap.
    assert!(linux_edge_blocked_by(&locals[2], Edge::Top, &locals).is_none());
}

#[test]
fn entry_picks_the_remote_screen_under_the_crossing_point() {
    let targets = targets_for_entry_tests();

    let target =
        linux_entry_from_barrier(&targets, "dp-3", Edge::Bottom, p(1500.0, 3240.0)).unwrap();
    assert_eq!(target.current_screen_id, "display-10");

    let target =
        linux_entry_from_barrier(&targets, "dp-3", Edge::Bottom, p(3000.0, 3240.0)).unwrap();
    assert_eq!(target.current_screen_id, "display-9");

    let target =
        linux_entry_from_barrier(&targets, "dp-3", Edge::Bottom, p(4600.0, 3240.0)).unwrap();
    assert_eq!(target.current_screen_id, "display-11");
}

#[test]
fn entry_falls_back_to_the_nearest_remote_screen_at_a_seam() {
    let targets = targets_for_entry_tests();

    assert!(
        linux_entry_from_barrier(&targets, "dp-3", Edge::Bottom, p(2200.0, 3240.0)).is_some()
    );
}

#[test]
fn exiting_downwards_picks_the_screen_actually_under_that_spot() {
    let (remote, targets) = targets_for_exit_tests();

    // Leaving near the left: 179 + 300 = 479.
    let (target, _) = linux_exit_return(
        &targets,
        "peer-device",
        "local-display-1",
        &remote,
        p(300.0, 1200.0),
    )
    .unwrap();
    assert_eq!(target.local_screen.id, "dp-1");

    // Leaving near the right: 179 + 1500 = 1679.
    let (target, _) = linux_exit_return(
        &targets,
        "peer-device",
        "local-display-1",
        &remote,
        p(1500.0, 1200.0),
    )
    .unwrap();
    assert_eq!(target.local_screen.id, "dp-3");
}

#[test]
fn exit_keeps_the_cursor_where_the_layout_says_rather_than_rescaling() {
    let (remote, targets) = targets_for_exit_tests();

    let (target, at) = linux_exit_return(
        &targets,
        "peer-device",
        "local-display-1",
        &remote,
        p(1500.0, 1200.0),
    )
    .unwrap();

    assert_eq!(target.local_screen.id, "dp-3");
    assert!((f(at.x) - 1679.0).abs() < 2.0, "unexpected x: {}", f(at.x));
    // Just inside the top edge of the screen below.
    assert_eq!(f(at.y), 1081.0);
}

#[test]
fn exiting_sideways_uses_the_screen_beside_it_not_the_one_below() {
    let (remote, targets) = targets_for_exit_tests();

    let (target, at) = linux_exit_return(
        &targets,
        "peer-device",
        "local-display-1",
        &remote,
        p(2000.0, 500.0),
    )
    .unwrap();

    assert_eq!(target.local_screen.id, "hdmi");
    assert_eq!(f(at.x), 2100.0);
}

#[test]
fn staying_on_the_remote_reports_no_exit() {
    let (remote, targets) = targets_for_exit_tests();

    assert!(linux_exit_return(
        &targets,
        "peer-device",
        "local-display-1",
        &remote,
        p(500.0, 500.0),
    )
    .is_none());
}

#[test]
fn exit_maps_layout_coordinates_onto_the_compositors_own() {
    let remote = screen("peer-device", "remote-1", 0, 0, 1920, 1080);
    let target = InputTarget {
        edge: Edge::Top,
        local_span: EdgeSpan::whole(),
        remote_edge: Edge::Bottom,
        remote_span: EdgeSpan::whole(),
        layout_local_screen: screen("local-device", "scaled", 0, 1080, 1920, 1080),
        local_screen: screen("local-device", "scaled", 5000, 2000, 3840, 2160),
        remote_screen: remote.clone(),
        ..target_for_coordinate_tests()
    };
    let targets = vec![target];

    let (_, at) = linux_exit_return(
        &targets,
        "peer-device",
        "local-display-1",
        &remote,
        p(960.0, 1200.0),
    )
    .unwrap();

    // Halfway across in the layout stays halfway across natively.
    assert!((f(at.x) - (5000.0 + 1920.0)).abs() < 3.0, "unexpected x: {}", f(at.x));
    assert_eq!(f(at.y), 2001.0);
}

#[test]
fn a_crossing_starts_at_the_edge_and_goes_outward() {
    let screen = screen("local-device", "local-display-1", -100, 50, 1920, 1080);
    let pixels = [
        (Edge::Right, (1819.0, 600.0), (1817.0, 600.0)),
        (Edge::Left, (-100.0, 600.0), (-98.0, 600.0)),
        (Edge::Bottom, (900.0, 1129.0), (900.0, 1127.0)),
        (Edge::Top, (900.0, 50.0), (900.0, 52.0)),
    ];
    for (edge, (x, y), (inner_x, inner_y)) in pixels {
        let outward = linux_outward_delta(edge);
        assert!(is_crossing_screen(&screen, edge, p(x, y), outward));
        assert!(!is_crossing_screen(&screen, edge, p(inner_x, inner_y), outward));
        assert!(!is_crossing_screen(&screen, edge.opposite(), p(x, y), outward));
    }
    assert_eq!(linux_outward_delta(Edge::Left), p(-1.0, 0.0));
    assert_eq!(linux_outward_delta(Edge::Bottom), p(0.0, 1.0));
}

#[test]
fn the_cursor_comes_home_flush_with_the_side_it_left_by() {
    let target = target_for_coordinate_tests();
    let targets = vec![target];
    let active = crossing_target(&targets, p(1919.0, 540.0), p(12.0, 0.0)).expect("crosses");
    let home = local_return_point(&active);

    assert_eq!(home, p(1919.0, 539.625));
}

#[test]
fn only_a_layout_without_targets_has_an_empty_fingerprint() {
    let mut layout = layout_for_target_tests();
    assert!(!fingerprint(&layout).is_empty());

    layout.devices[1].online = false;
    assert!(fingerprint(&layout).is_empty());
}

fn anchor(device_id: &str, screen_id: &str, side: &str, start: f64, end: f64) -> EdgeAnchor {
    EdgeAnchor {
        device_id: device_id.into(),
        screen_id: screen_id.into(),
        side: side.into(),
        start: d(start),
        end: d(end),
    }
}

fn drawn_layout(local_end: f64, remote_start: f64) -> LayoutState {
    let mut layout = layout_for_target_tests();
    layout.edge_links = Some(vec![EdgeLink {
        id: "link".into(),
        a: anchor("local-device", "local-display-1", "right", 0.25, local_end),
        b: anchor("peer-device", "peer-device-local-display-1", "left", remote_start, 1.0),
    }]);
    layout
}

#[test]
fn whatever_moves_a_crossing_shows_in_the_fingerprint() {
    let before = fingerprint(&drawn_layout(0.5, 0.125));
    assert_eq!(
        before,
        "peer-device:local-display-1:Right[0.2500-0.5000]>Left[0.1250-1.0000]:0,0,1920x1080>1920,0,1920x1080"
    );

    // An end of a stretch, on either side.
    assert_ne!(fingerprint(&drawn_layout(0.501, 0.125)), before);
    assert_ne!(fingerprint(&drawn_layout(0.5, 0.124)), before);
    // Less than is written does not show.
    assert_eq!(fingerprint(&drawn_layout(0.500001, 0.125)), before);

    // A rectangle, on either side.
    for device in 0..2 {
        for change in 0..4 {
            let mut layout = drawn_layout(0.5, 0.125);
            let screen = &mut layout.devices[device].screens[0];
            match change {
                0 => screen.x += 1,
                1 => screen.y += 240,
                2 => screen.width += 1,
                _ => screen.height -= 1,
            }
            assert_ne!(fingerprint(&layout), before);
        }
    }

    // A side.
    let mut layout = drawn_layout(0.5, 0.125);
    if let Some(links) = layout.edge_links.as_mut() {
        links[0].b.side = "top".into();
    }
    assert_ne!(fingerprint(&layout), before);
}

#[test]
fn redrawing_leaves_the_targets_the_same_ones() {
    let mut moved = drawn_layout(0.9, 0.3);
    moved.devices[1].screens[0].y = -700;
    let ids = |layout: &LayoutState| {
        built(layout)
            .into_iter()
            .map(|target| (target.device_id, target.screen_id))
            .collect::<Vec<_>>()
    };
    assert_eq!(ids(&moved), ids(&drawn_layout(0.5, 0.125)));
    assert_eq!(ids(&moved).len(), 1);
}

#[test]
fn secrets_leave_the_fingerprint_alone() {
    let layout = layout_for_target_tests();
    let mut other = layout_for_target_tests();
    other.cluster_id = "another-cluster".into();
    other.pair_secret = "another-secret".into();
    assert_eq!(fingerprint(&layout), fingerprint(&other));
}

#[test]
fn one_lost_peer_of_two_shows_in_the_fingerprint() {
    let mut layout = layout_for_target_tests();
    let mut second = layout_for_target_tests().devices.remove(1);
    second.id = "other-device".into();
    second.screens = vec![screen("other-device", "other-device-display", -1280, 0, 1280, 1080)];
    layout.devices.push(second);
    let both = fingerprint(&layout);
    assert_eq!(both.matches('|').count(), 1);

    layout.devices[2].online = false;
    let first = fingerprint(&layout);
    assert_ne!(first, both);
    layout.devices[2].online = true;
    layout.devices[1].online = false;
    let second = fingerprint(&layout);
    assert_ne!(second, both);
    assert_eq!(format!("{first}|{second}"), both);
}

#[test]
fn a_screen_is_taken_over_in_full() {
    let mut layout = layout_for_target_tests();
    let mut below = screen("peer-device", "peer-device-scr-2", 1920, 1080, 1920, 1080);
    below.name = "Below".into();
    below.is_primary = false;
    below.scale = d(1.5);
    layout.devices[1].screens.push(below);
    let targets = built(&layout);
    let mut active = crossing_target(&targets, p(1919.0, 540.0), p(12.0, 0.0)).expect("crosses");
    let entry = &layout.devices[1].screens[0];
    assert_eq!(active.current_screen.id, "local-display-1");
    assert_eq!(active.current_screen.name, entry.name);
    assert_eq!(active.current_screen.is_primary, entry.is_primary);

    active.y = d(1085.0);
    assert!(!update_active_remote_screen(&mut active, p(0.0, 5.0), &layout));
    assert_eq!(active.current_screen.id, "scr-2");
    assert_eq!(active.current_screen.device_id, "peer-device");
    assert_eq!(active.current_screen.name, "Below");
    assert!(!active.current_screen.is_primary);
    assert_eq!(active.current_screen.scale, d(1.5));
}

#[test]
fn a_mac_cursor_is_parked_on_a_clipping_side_clear_of_its_corners() {
    let mut target = target_for_coordinate_tests();
    target.target_platform = "macOS".into();
    let remote = target.remote_screen.clone();
    let mut active = ActiveTarget {
        target,
        current_screen: remote.clone(),
        current_screen_id: remote.id.clone(),
        x: d(0.0),
        y: d(0.0),
        invert_y: false,
    };
    active.target.edge = Edge::Left;
    assert_eq!(remote_park_point(&active), (2559, PARK_CORNER_CLEARANCE));
    active.target.edge = Edge::Bottom;
    assert_eq!(remote_park_point(&active), (2559, PARK_CORNER_CLEARANCE));
    active.target.edge = Edge::Top;
    assert_eq!(remote_park_point(&active), (PARK_CORNER_CLEARANCE, 1439));
    active.x = d(2559.0);
    assert_eq!(remote_park_point(&active), (2559 - PARK_CORNER_CLEARANCE, 1439));

    // A side that is too short for it is met in the middle.
    active.current_screen.width = 100;
    assert_eq!(remote_park_point(&active), (50, 1439));
}

#[test]
fn a_screen_cannot_move_unnoticed_where_no_link_was_drawn() {
    let before = fingerprint(&layout_for_target_tests());
    for device in 0..2 {
        for change in 0..6 {
            let mut layout = layout_for_target_tests();
            let screen = &mut layout.devices[device].screens[0];
            match change {
                0 => screen.x += 3,
                1 => screen.x -= 5000,
                2 => screen.y += 1,
                3 => screen.y -= 900,
                4 => screen.width += 2,
                _ => screen.height -= 540,
            }
            assert_ne!(fingerprint(&layout), before);
        }
    }

    // Both screens at once, so that they still meet as before.
    let mut layout = layout_for_target_tests();
    for device in layout.devices.iter_mut() {
        device.screens[0].y += 100;
    }
    assert_ne!(fingerprint(&layout), before);
}

#[test]
fn the_screens_of_the_compositor_show_in_the_fingerprint() {
    let layout = layout_for_target_tests();
    let mut native = layout_for_target_tests();
    native.devices[0].screens[0].height = 2160;
    assert_ne!(
        input_targets_fingerprint(&layout, &native, ORIGIN, Platform::Linux),
        fingerprint(&layout)
    );
}
