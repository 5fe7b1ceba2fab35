//! Capturing on each platform: from crossing an edge to coming home.

use mykvm::double::Double;
use mykvm::edge::{Edge, Point};
use mykvm::hotkeys::HotkeyModifiers;
use mykvm::layout::{
    default_modifier_map, Device, EdgeAnchor, EdgeLink, LayoutState, Screen, ScreenSwitchHotkeys,
};
use mykvm::linux_capture::{
    all_edges_fit, event_fits, linux_capture_status, plan_barriers, BarrierEdge, LinuxCapture,
    LinuxStart,
};
use mykvm::linux_input::{
    barriers_ready, portal_barriers, reaction_without_handler, BarrierSpec, CaptureEvent,
    CaptureSession, Generations, Reaction, StreamEvent,
};
use mykvm::macos_capture::{
    self, app_nap_change, cursor_placements, MacCapture, MacDisplaySnapshot, MacEvent, Moment,
    RETURN_COOLDOWN,
};
use mykvm::platform::Platform;
use mykvm::shared_input::{InputEvent, MouseButton};
use mykvm::status::{
    input_runtime_status, ready_capture_status, start_input_runtime, started_capture_status,
    stopped_capture_status, stopped_inject_status, CaptureStart, Permissions, ThreadStart,
};
use mykvm::switch::{switch_lands, SwitchDirection};
use mykvm::targets::{build_input_targets, InputTarget, TargetsCache, INPUT_TARGETS_TTL};
use mykvm::transport::PROTOCOL_VERSION;
use mykvm::windows_capture::{
    self, desktop_is_default, hide_again, windows_button, windows_key, windows_wheel,
    WindowsCapture, WM_KEYDOWN, WM_KEYUP, WM_LBUTTONDOWN, WM_MOUSEHWHEEL, WM_MOUSEMOVE,
    WM_MOUSEWHEEL, WM_SYSKEYUP, WM_XBUTTONDOWN, WM_XBUTTONUP,
};

const ORIGIN: &str = "peer-local";
const SECOND: u64 = 1_000_000_000;

fn d(value: f64) -> Double {
    Double { bits: value.to_bits() }
}

fn p(x: f64, y: f64) -> Point {
    Point { x: d(x), y: d(y) }
}

fn screen(device_id: &str, id: &str, x: i32, y: i32, width: i32, height: i32) -> Screen {
    Screen {
        id: id.into(),
        device_id: device_id.into(),
        name: id.into(),
        x,
        y,
        width,
        height,
        scale: d(1.0),
        is_primary: true,
    }
}

fn device(id: &str, role: &str, screens: Vec<Screen>) -> Device {
    Device {
        id: id.into(),
        name: id.into(),
        platform: "windows".into(),
        host: "10.0.0.2".into(),
        transport_port: 52000,
        quic_port: 52001,
        transport_public_key: "peer-public-key".into(),
        protocol_version: PROTOCOL_VERSION,
        color: "#0f766e".into(),
        online: true,
        input_ready: true,
        upgrading: false,
        upgrading_until_ms: 0,
        role: role.into(),
        source: "detected".into(),
        screens,
    }
}

/// A local screen with a remote one to its right.
fn layout() -> LayoutState {
    LayoutState {
        devices: vec![
            device(
                "local-device",
                "local",
                vec![screen("local-device", "local-display-1", 0, 0, 1920, 1080)],
            ),
            device(
                "peer-device",
                "client",
                vec![screen("peer-device", "peer-device-display-1", 1920, 0, 1920, 1080)],
            ),
        ],
        input_mode: "control".into(),
        machine_role: "server".into(),
        cluster_id: "cluster-test".into(),
        pair_secret: "secret-test".into(),
        paired_controllers: Vec::new(),
        transport_port: 47833,
        quic_port: 47834,
        modifier_remap: true,
        modifier_map: default_modifier_map(),
        screen_switch_hotkeys: ScreenSwitchHotkeys {
            left: "alt+left".into(),
            right: "alt+right".into(),
            up: "disabled".into(),
            down: "disabled".into(),
        },
        edge_links: None,
    }
}

fn targets(layout: &LayoutState, platform: Platform) -> Vec<InputTarget> {
    build_input_targets(layout, layout, ORIGIN, platform)
}

fn moved_to(x: i32, y: i32) -> InputEvent {
    InputEvent::MouseMove { screen_id: "display-1".into(), x, y }
}

// ---------------------------------------------------------------------------
// Windows
// ---------------------------------------------------------------------------
fn windows_in_control(layout: &LayoutState) -> WindowsCapture {
    let targets = targets(layout, Platform::Windows);
    let mut capture = WindowsCapture::new();
    let plan = capture.handle_windows_mouse_move(p(1915.0, 500.0), &targets, layout, SECOND);
    assert!(matches!(plan.next, windows_capture::Next::Done { swallowed: false }));
    let plan = capture.handle_windows_mouse_move(p(1919.0, 500.0), &targets, layout, SECOND);
    assert_eq!(plan.to.expect("a target").device_id, "peer-device");
    match plan.next {
        windows_capture::Next::Await { event, pending } => {
            assert!(matches!(event, InputEvent::MouseMove { y: 500, .. }));
            let plan = capture.resume(pending, true, layout, SECOND);
            assert!(matches!(plan.next, windows_capture::Next::Done { swallowed: true }));
        }
        _ => panic!("the crossing must be asked for"),
    }
    assert!(capture.remote_active && capture.cursor_hidden && capture.active.is_some());
    capture
}

fn finish_windows(
    capture: &mut WindowsCapture,
    plan: windows_capture::Plan,
    layout: &LayoutState,
    sent: &mut Vec<InputEvent>,
) -> bool {
    let mut plan = plan;
    loop {
        for action in plan.actions {
            if let windows_capture::Action::Send(event) = action {
                sent.push(event);
            }
        }
        match plan.next {
            windows_capture::Next::Done { swallowed } => return swallowed,
            windows_capture::Next::Await { event, pending } => {
                sent.push(event);
                plan = capture.resume(pending, true, layout, 2 * SECOND);
            }
        }
    }
}

#[test]
fn a_windows_cursor_crosses_and_comes_home() {
    let layout = layout();
    let targets = targets(&layout, Platform::Windows);
    let mut capture = windows_in_control(&layout);
    let anchor = capture.anchor.expect("an anchor");
    let at = |dx: f64| p(f64::from_bits(anchor.x.bits) + dx, f64::from_bits(anchor.y.bits));

    // The first movement is what is left of the crossing.
    let plan = capture.handle_windows_mouse_move(at(300.0), &targets, &layout, SECOND);
    assert!(matches!(plan.next, windows_capture::Next::Done { swallowed: true }));
    let mut sent = Vec::new();
    let plan = capture.handle_windows_mouse_move(at(100.0), &targets, &layout, 2 * SECOND);
    assert!(finish_windows(&mut capture, plan, &layout, &mut sent));
    assert_eq!(sent.len(), 1);

    // A click brings the cursor there first.
    let mut sent = Vec::new();
    let plan = capture.handle_windows_mouse_message(
        WM_LBUTTONDOWN,
        0,
        at(0.0),
        &targets,
        &layout,
        3 * SECOND,
    );
    assert!(finish_windows(&mut capture, plan, &layout, &mut sent));
    assert!(matches!(sent[0], InputEvent::MouseMove { .. }));
    assert_eq!(sent[1], InputEvent::MouseButton { button: MouseButton::Left, down: true });

    // A key is forwarded and remembered.
    let mut sent = Vec::new();
    let plan =
        capture.handle_windows_key(WM_KEYDOWN, 0x41, HotkeyModifiers::default(), &layout);
    assert!(finish_windows(&mut capture, plan, &layout, &mut sent));
    assert_eq!(sent, vec![InputEvent::Key { key_code: 0x41, down: true }]);
    assert_eq!(capture.pressed_keys, vec![0x41]);

    // Going back over the edge lets go of everything.
    let plan = capture.handle_windows_mouse_move(at(-2000.0), &targets, &layout, 4 * SECOND);
    let released: Vec<InputEvent> = plan
        .actions
        .into_iter()
        .filter_map(|action| match action {
            windows_capture::Action::Send(event) => Some(event),
            _ => None,
        })
        .collect();
    assert!(released.contains(&InputEvent::Key { key_code: 0x41, down: false }));
    assert!(released.contains(&InputEvent::MouseButton { button: MouseButton::Left, down: false }));
    assert!(!capture.remote_active && !capture.cursor_hidden && capture.active.is_none());
    assert_eq!(capture.remote_button_mask, 0);
    assert!(capture.pressed_keys.is_empty());
}

#[test]
fn a_windows_capture_gives_the_cursor_back_when_a_send_fails() {
    let layout = layout();
    let targets = targets(&layout, Platform::Windows);
    let mut capture = WindowsCapture::new();
    capture.handle_windows_mouse_move(p(1915.0, 500.0), &targets, &layout, SECOND);
    let plan = capture.handle_windows_mouse_move(p(1919.0, 500.0), &targets, &layout, SECOND);
    match plan.next {
        windows_capture::Next::Await { pending, .. } => {
            let plan = capture.resume(pending, false, &layout, SECOND);
            assert!(matches!(plan.actions[0], windows_capture::Action::ShowCursor));
        }
        _ => panic!("the crossing must be asked for"),
    }
    assert!(!capture.remote_active && !capture.cursor_hidden);

    let mut capture = windows_in_control(&layout);
    let plan = capture.stop();
    assert!(matches!(plan.actions[0], windows_capture::Action::ShowCursor));
    assert!(!capture.remote_active && capture.active.is_none());
}

#[test]
fn a_hotkey_brings_windows_home_and_takes_it_away() {
    let layout = layout();
    let mut capture = windows_in_control(&layout);
    let alt = HotkeyModifiers { alt: true, ..HotkeyModifiers::default() };
    let plan = capture.handle_windows_key(WM_KEYDOWN, 0x25, alt, &layout);
    assert!(matches!(plan.next, windows_capture::Next::Done { swallowed: true }));
    assert!(!capture.remote_active);

    let plan = capture.drain_switch_request_windows(
        SwitchDirection::Right,
        &layout,
        &layout,
        ORIGIN,
        Some(p(100.0, 100.0)),
    );
    match plan.next {
        windows_capture::Next::Await { event, pending } => {
            assert_eq!(event, moved_to(960, 540));
            capture.resume(pending, true, &layout, SECOND);
        }
        _ => panic!("the switch must be asked for"),
    }
    assert!(capture.remote_active);
}

#[test]
fn windows_messages_are_read() {
    assert_eq!(windows_button(WM_LBUTTONDOWN, 0), Some((MouseButton::Left, true)));
    assert_eq!(windows_button(WM_XBUTTONDOWN, 1 << 16), Some((MouseButton::Back, true)));
    assert_eq!(windows_button(WM_XBUTTONUP, 2 << 16), Some((MouseButton::Forward, false)));
    assert_eq!(windows_button(WM_MOUSEMOVE, 0), None);
    assert_eq!(windows_wheel(WM_MOUSEWHEEL, 120 << 16), Some((0, 1)));
    assert_eq!(windows_wheel(WM_MOUSEWHEEL, ((-240i16) as u16 as u32) << 16), Some((0, -2)));
    assert_eq!(windows_wheel(WM_MOUSEHWHEEL, 120 << 16), Some((1, 0)));
    assert_eq!(windows_key(WM_KEYUP), Some(false));
    assert_eq!(windows_key(WM_SYSKEYUP), Some(false));
    assert_eq!(windows_key(WM_MOUSEMOVE), None);

    assert!(hide_again(0, 0));
    assert!(!hide_again(0, -1));
    assert!(!hide_again(8, 3));

    let name: Vec<u16> = "Default\0".encode_utf16().collect();
    assert!(desktop_is_default(&name, 16));
    let name: Vec<u16> = "Winlogon\0".encode_utf16().collect();
    assert!(!desktop_is_default(&name, 18));
}

// ---------------------------------------------------------------------------
// macOS
// ---------------------------------------------------------------------------
fn moment(now: u64) -> Moment {
    Moment { cursor: Some(p(1000.0, 500.0)), main_window_visible: true, now }
}

fn mac_in_control(layout: &LayoutState) -> MacCapture {
    let targets = targets(layout, Platform::MacOs);
    let mut capture = MacCapture::new(&targets);
    let plan = capture.handle_macos_mouse_move(
        p(1919.0, 500.0),
        p(4.0, 0.0),
        &targets,
        layout,
        moment(SECOND),
    );
    match plan.next {
        macos_capture::Next::Await { event, pending } => {
            assert!(matches!(event, InputEvent::MouseMove { y: 500, .. }));
            capture.resume(pending, true, layout, moment(SECOND));
        }
        _ => panic!("the crossing must be asked for"),
    }
    assert!(capture.remote_active && capture.cursor_hidden);
    capture
}

fn finish_mac(
    capture: &mut MacCapture,
    plan: macos_capture::Plan,
    layout: &LayoutState,
    sent: &mut Vec<InputEvent>,
) -> bool {
    let mut plan = plan;
    loop {
        for action in plan.actions {
            if let macos_capture::Action::Send(event) = action {
                sent.push(event);
            }
        }
        match plan.next {
            macos_capture::Next::Done { dropped } => return dropped,
            macos_capture::Next::Await { event, pending } => {
                sent.push(event);
                plan = capture.resume(pending, true, layout, moment(2 * SECOND));
            }
        }
    }
}

#[test]
fn a_mac_cursor_crosses_and_comes_home() {
    let layout = layout();
    let targets = targets(&layout, Platform::MacOs);
    let mut capture = mac_in_control(&layout);
    let mut step = |capture: &mut MacCapture, dx: f64, now: u64| {
        let plan = capture.handle_macos_mouse_move(
            p(1000.0, 500.0),
            p(dx, 0.0),
            &targets,
            &layout,
            moment(now),
        );
        let mut sent = Vec::new();
        finish_mac(capture, plan, &layout, &mut sent);
        sent
    };
    step(&mut capture, 1.0, 2 * SECOND);
    let sent = step(&mut capture, 200.0, 3 * SECOND);
    assert!(matches!(sent[0], InputEvent::MouseMove { .. }));

    let mut sent = Vec::new();
    let press = MacEvent::Button { button: MouseButton::Left, down: true };
    let plan = capture.handle_macos_event(press, &targets, &layout, moment(4 * SECOND));
    assert!(finish_mac(&mut capture, plan, &layout, &mut sent));
    assert!(sent.contains(&InputEvent::MouseButton { button: MouseButton::Left, down: true }));

    let mut sent = Vec::new();
    let key = MacEvent::Key { mac_code: 0, flags: 0, down: true };
    let plan = capture.handle_macos_event(key, &targets, &layout, moment(5 * SECOND));
    assert!(finish_mac(&mut capture, plan, &layout, &mut sent));
    assert!(sent.contains(&InputEvent::Key { key_code: 0x41, down: true }));

    let sent = step(&mut capture, -3000.0, 6 * SECOND);
    assert!(sent.contains(&InputEvent::Key { key_code: 0x41, down: false }));
    assert!(sent.contains(&InputEvent::MouseButton { button: MouseButton::Left, down: false }));
    assert!(!capture.remote_active && !capture.cursor_hidden && capture.active.is_none());
    assert_eq!(capture.cursor_hide_depth, 0);

    // Right after coming home no edge is crossed; a little later one is.
    let cross = |capture: &mut MacCapture, now: u64| {
        let plan = capture.handle_macos_mouse_move(
            p(1919.0, 500.0),
            p(4.0, 0.0),
            &targets,
            &layout,
            moment(now),
        );
        matches!(plan.next, macos_capture::Next::Await { .. })
    };
    assert!(!cross(&mut capture, 6 * SECOND + RETURN_COOLDOWN - 1));
    assert!(cross(&mut capture, 6 * SECOND + RETURN_COOLDOWN));
}

#[test]
fn a_mac_keeps_its_mouse_when_a_send_fails() {
    let layout = layout();
    let targets = targets(&layout, Platform::MacOs);
    let mut capture = MacCapture::new(&targets);
    let plan = capture.handle_macos_mouse_move(
        p(1919.0, 500.0),
        p(4.0, 0.0),
        &targets,
        &layout,
        moment(SECOND),
    );
    assert!(plan
        .actions
        .iter()
        .any(|action| matches!(action, macos_capture::Action::Decouple(true))));
    match plan.next {
        macos_capture::Next::Await { pending, .. } => {
            let plan = capture.resume(pending, false, &layout, moment(SECOND));
            assert!(plan
                .actions
                .iter()
                .any(|action| matches!(action, macos_capture::Action::Decouple(false))));
        }
        _ => panic!("the crossing must be asked for"),
    }
    assert!(!capture.remote_active && !capture.cursor_hidden);

    let mut capture = mac_in_control(&layout);
    let plan = capture.stop();
    assert!(plan
        .actions
        .iter()
        .any(|action| matches!(action, macos_capture::Action::Decouple(false))));
    assert!(capture.active.is_none());
}

/// Whether movements are held back after the cursor was moved, once a plan was
/// carried out that sets it.
fn suppresses_after_warps(plan: &macos_capture::Plan) -> Option<bool> {
    plan.actions
        .iter()
        .rev()
        .find_map(|action| match action {
            macos_capture::Action::SuppressAfterWarps(suppress) => Some(*suppress),
            _ => None,
        })
}

#[test]
fn a_mac_gets_its_default_suppression_back() {
    let layout = layout();
    let targets = targets(&layout, Platform::MacOs);
    let mut capture = MacCapture::new(&targets);
    let plan = capture.handle_macos_mouse_move(
        p(1919.0, 500.0),
        p(4.0, 0.0),
        &targets,
        &layout,
        moment(SECOND),
    );
    assert_eq!(suppresses_after_warps(&plan), Some(false));
    match plan.next {
        macos_capture::Next::Await { pending, .. } => {
            let plan = capture.resume(pending, false, &layout, moment(SECOND));
            assert_eq!(suppresses_after_warps(&plan), Some(true));
        }
        _ => panic!("the crossing must be asked for"),
    }
    let plan = mac_in_control(&layout).stop();
    assert_eq!(suppresses_after_warps(&plan), Some(true));
}

#[test]
fn a_disabled_tap_is_noted_once() {
    let layout = layout();
    let targets = targets(&layout, Platform::MacOs);
    let mut capture = MacCapture::new(&targets);
    assert!(!capture.take_tap_disabled());
    capture.handle_macos_event(MacEvent::TapDisabled, &targets, &layout, moment(SECOND));
    assert!(capture.take_tap_disabled());
    assert!(!capture.take_tap_disabled());
}

#[test]
fn gestures_are_kept_away_only_while_another_mac_is_controlled() {
    let layout = layout();
    let targets = targets(&layout, Platform::MacOs);
    let mut home = MacCapture::new(&targets);
    let plan = home.handle_macos_gesture(31, moment(SECOND));
    assert!(matches!(plan.next, macos_capture::Next::Done { dropped: false }));
    let mut away = mac_in_control(&layout);
    let plan = away.handle_macos_gesture(31, moment(SECOND));
    assert!(matches!(plan.next, macos_capture::Next::Done { dropped: true }));
}

#[test]
fn the_cursor_is_placed_on_every_display_that_holds_the_point() {
    let displays = vec![
        MacDisplaySnapshot { id: 1, origin: p(0.0, 0.0), max: p(1920.0, 1080.0) },
        MacDisplaySnapshot { id: 2, origin: p(1920.0, 0.0), max: p(3840.0, 1080.0) },
    ];
    let placed = cursor_placements(&displays, p(2000.0, 10.0));
    assert!(placed.contains(&(2, p(80.0, 10.0))));
    assert_eq!(app_nap_change(false, true), Some(true));
    assert_eq!(app_nap_change(true, true), None);
    assert_eq!(app_nap_change(true, false), Some(false));
}

// ---------------------------------------------------------------------------
// Linux
// ---------------------------------------------------------------------------
#[test]
fn a_linux_barrier_hands_over_and_brings_home() {
    let layout = layout();
    let targets = targets(&layout, Platform::Linux);
    assert!(all_edges_fit(&targets));
    let mut capture = LinuxCapture::new();
    let plan = match capture.start_platform_capture(Ok(()), &targets, &layout) {
        LinuxStart::Arm(plan) => plan,
        _ => panic!("there is an edge to arm"),
    };
    assert_eq!(plan.barriers, vec![BarrierSpec { id: 1, x1: 1920, y1: 0, x2: 1920, y2: 1079 }]);
    assert!(plan.blocked.is_empty());

    // A barrier that nobody knows releases the pointer where it was.
    let step = capture.handle(
        CaptureEvent::Activated { barrier_id: 9, x: d(3.0), y: d(4.0) },
        &targets,
        &plan.edges,
        &layout,
    );
    assert!(step.send.is_none());
    assert_eq!(step.reaction, Reaction::Release { x: d(3.0), y: d(4.0) });

    let step = capture.handle(
        CaptureEvent::Activated { barrier_id: 1, x: d(1920.0), y: d(500.0) },
        &targets,
        &plan.edges,
        &layout,
    );
    let (target, event) = step.send.expect("the hand-over is sent");
    assert_eq!(target.device_id, "peer-device");
    assert!(matches!(event, InputEvent::MouseMove { y: 500, .. }));
    assert!(capture.remote_active);
    assert_eq!(capture.clipboard_target.as_ref().expect("a clipboard").device_id, "peer-device");

    let key = CaptureEvent::Key { vk: 0x41, down: true };
    let step = capture.handle(key, &targets, &plan.edges, &layout);
    assert_eq!(step.send.expect("sent").1, InputEvent::Key { key_code: 0x41, down: true });

    let back = CaptureEvent::Motion { dx: d(-500.0), dy: d(0.0) };
    let step = capture.handle(back, &targets, &plan.edges, &layout);
    assert!(step.send.is_none());
    assert!(matches!(step.reaction, Reaction::Release { .. }));
    assert!(!capture.remote_active && capture.clipboard_target.is_none());
}

#[test]
fn a_linux_capture_without_session_or_target_does_not_arm() {
    let layout = layout();
    let mut capture = LinuxCapture::new();
    match capture.start_platform_capture(Err("no portal".into()), &Vec::new(), &layout) {
        LinuxStart::Failed(status) => {
            assert_eq!(status.state, "error");
            assert_eq!(status.detail, "no portal");
        }
        _ => panic!("the session failed"),
    }
    match capture.start_platform_capture(Ok(()), &Vec::new(), &layout) {
        LinuxStart::Idle(status) => assert_eq!(status.state, "idle"),
        _ => panic!("there is nothing to arm"),
    }
}

#[test]
fn blocked_edges_are_reported_and_shared_edges_armed_once() {
    let mut layout = layout();
    layout.devices[0].screens.push(screen("local-device", "upper", 0, -1080, 1920, 1080));
    let base = targets(&layout, Platform::Linux);
    let make = |edge: Edge| {
        let mut target = build_input_targets(&layout, &layout, ORIGIN, Platform::Linux).remove(0);
        target.edge = edge;
        target
    };
    assert!(!base.is_empty());
    let wanted = vec![make(Edge::Right), make(Edge::Right), make(Edge::Top), make(Edge::Bottom)];
    let plan = plan_barriers(&wanted, &layout.devices[0].screens);
    assert_eq!(plan.barriers.len(), 2);
    assert_eq!(plan.barriers[1].id, 2);
    assert_eq!(plan.blocked, vec!["local-display-1 (Top → upper)".to_string()]);
    let ids: Vec<u32> = plan.edges.iter().map(|edge: &BarrierEdge| edge.id).collect();
    assert_eq!(ids, vec![1, 2]);

    let none: Vec<String> = Vec::new();
    let status = |failed: Vec<u32>, blocked: &Vec<String>| {
        let ready = barriers_ready(2, failed, vec![(0, 0, 1920, 1080)]);
        linux_capture_status(&Ok(ready), blocked, 2)
    };
    assert_eq!(
        status(vec![], &none).detail,
        "Wayland capture ready via the InputCapture portal, 2 screen edge(s) armed."
    );
    assert_eq!(
        status(vec![2], &none).detail,
        "Wayland capture ready, 1 of 2 screen edge(s) armed. The compositor rejected barrier ids [2], so those edges will not hand over."
    );
    assert_eq!(status(vec![1, 2], &none).state, "error");
    assert!(status(vec![1, 2], &none).detail.contains("portal zones are [(0, 0, 1920, 1080)]."));
    assert_eq!(status(vec![1, 2], &plan.blocked).state, "ready");
    assert_eq!(linux_capture_status(&Err("gone".into()), &none, 2).detail, "gone");
}

#[test]
fn a_linux_session_follows_its_stream() {
    let mut session = CaptureSession::new();
    assert!(!session.disarm());
    session.begin_arming();
    session.end_arming(true);
    assert!(session.enabled);
    let event = session.activated(Some(7), Some(1), Some(p(5.0, 6.0)));
    assert_eq!(event, CaptureEvent::Activated { barrier_id: 1, x: d(5.0), y: d(6.0) });
    // Without a handler the pointer is handed back at once.
    let reaction = reaction_without_handler(event);
    assert_eq!(reaction, Reaction::Release { x: d(5.0), y: d(6.0) });
    let release = session.reacted(event, reaction).expect("the pointer is released");
    assert_eq!(release.activation_id, Some(7));
    assert_eq!(release.at, p(5.0, 6.0));

    assert_eq!(
        session.streamed(StreamEvent::PointerMotion { dx: d(1.0), dy: d(2.0) }),
        Some(CaptureEvent::Motion { dx: d(1.0), dy: d(2.0) })
    );
    assert_eq!(session.streamed(StreamEvent::KeyboardKey { code: 9999, press: true }), None);
    assert_eq!(
        session.streamed(StreamEvent::KeyboardKey { code: 30, press: true }),
        Some(CaptureEvent::Key { vk: 0x41, down: true })
    );
    // Absolute positions become movements from the second on.
    assert_eq!(session.streamed(StreamEvent::PointerMotionAbsolute { x: d(9.0), y: d(9.0) }), None);
    assert_eq!(
        session.streamed(StreamEvent::PointerMotionAbsolute { x: d(10.0), y: d(7.0) }),
        Some(CaptureEvent::Motion { dx: d(1.0), dy: d(-2.0) })
    );
}

#[test]
fn a_replaced_capture_disarms_nothing() {
    let mut generations = Generations::new();
    let first = generations.arm();
    assert!(generations.disarm_generation(first));
    let second = generations.arm();
    assert!(!generations.disarm_generation(first));
    assert_eq!(generations.generation(), second);
    let barriers = vec![BarrierSpec { id: 0, x1: 1, y1: 2, x2: 3, y2: 4 }];
    assert_eq!(portal_barriers(&barriers).len(), 0);
}

// ---------------------------------------------------------------------------
// Starting
// ---------------------------------------------------------------------------
const TRUSTED: Permissions = Permissions { accessibility_trusted: true, secure_input: false };

#[test]
fn the_runtime_says_what_it_does() {
    let mut layout = layout();
    let status = |layout: &LayoutState, platform, permissions| {
        input_runtime_status(layout, layout, ORIGIN, platform, permissions)
    };
    let (capture, inject) = status(&layout, Platform::Windows, TRUSTED);
    assert_eq!(capture.state, "ready");
    assert_eq!(capture.detail, ready_capture_status(1).detail);
    assert_eq!(inject.detail, "Receiving shared input on QUIC datagrams at UDP 47834.");
    let untrusted = Permissions { accessibility_trusted: false, secure_input: false };
    assert_eq!(status(&layout, Platform::MacOs, untrusted).1.state, "error");
    let secure = Permissions { accessibility_trusted: true, secure_input: true };
    assert_eq!(status(&layout, Platform::MacOs, secure).1.state, "error");
    assert_eq!(status(&layout, Platform::Windows, secure).1.state, "ready");
    assert_eq!(status(&layout, Platform::Linux, TRUSTED).0.state, "stubbed");

    let mut remote_active = true;
    let mut clipboard = None;
    match start_input_runtime(
        &layout,
        &layout,
        ORIGIN,
        Platform::Linux,
        TRUSTED,
        &mut remote_active,
        &mut clipboard,
    )
    .0
    {
        CaptureStart::Capture(targets) => assert_eq!(targets.len(), 1),
        CaptureStart::Nothing(_) => panic!("there is something to capture"),
    }
    assert!(remote_active);

    layout.input_mode = "receive".into();
    match start_input_runtime(
        &layout,
        &layout,
        ORIGIN,
        Platform::Linux,
        TRUSTED,
        &mut remote_active,
        &mut clipboard,
    )
    .0
    {
        CaptureStart::Nothing(status) => assert_eq!(status.state, "idle"),
        CaptureStart::Capture(_) => panic!("input is only received"),
    }
    assert!(!remote_active);
    assert_eq!(status(&layout, Platform::Windows, TRUSTED).0.state, "idle");

    assert_eq!(stopped_capture_status().detail, "Input sharing is stopped.");
    assert_eq!(stopped_inject_status().detail, "Input injection is stopped.");
    let started = |start| started_capture_status(Platform::MacOs, start, 2).detail;
    assert_eq!(started(ThreadStart::Silent), "macOS input capture did not become ready.");
    assert_eq!(started(ThreadStart::Failed("no tap".into())), "no tap");
    assert_eq!(started(ThreadStart::Ready), ready_capture_status(2).detail);
}

#[test]
fn targets_are_built_anew_only_now_and_then() {
    let mut layout = layout();
    let mut cache = TargetsCache::new();
    cache.current_input_targets(Some(&layout), &layout, ORIGIN, Platform::Linux, SECOND);
    assert_eq!(cache.targets.len(), 1);
    layout.devices[1].online = false;
    cache.current_input_targets(
        Some(&layout),
        &layout,
        ORIGIN,
        Platform::Linux,
        SECOND + INPUT_TARGETS_TTL - 1,
    );
    assert_eq!(cache.targets.len(), 1);
    cache.invalidate_input_targets_cache();
    cache.current_input_targets(Some(&layout), &layout, ORIGIN, Platform::Linux, SECOND);
    assert_eq!(cache.targets.len(), 0);
}

#[test]
fn a_crossing_onto_a_screen_without_pixels_is_told_beforehand() {
    let layout = layout();
    let mut targets = targets(&layout, Platform::Linux);
    let edges = vec![BarrierEdge {
        id: 1,
        screen_id: targets[0].layout_local_screen.id.clone(),
        edge: targets[0].edge,
    }];
    let activated = |barrier_id: u32| CaptureEvent::Activated {
        barrier_id,
        x: d(1920.0),
        y: d(500.0),
    };
    let mut windows = WindowsCapture::new();
    let _ = windows.handle_windows_mouse_move(p(1900.0, 500.0), &targets, &layout, SECOND);
    let mac = MacCapture::new(&targets);
    assert!(windows.mouse_move_fits(p(1919.0, 500.0), &targets));
    assert!(mac.mouse_move_fits(p(1919.0, 500.0), p(19.0, 0.0), &targets, SECOND));
    assert!(event_fits(activated(1), &targets, &edges));

    targets[0].remote_screen.width = 0;
    assert!(!windows.mouse_move_fits(p(1919.0, 500.0), &targets));
    assert!(!mac.mouse_move_fits(p(1919.0, 500.0), p(19.0, 0.0), &targets, SECOND));
    assert!(!event_fits(activated(1), &targets, &edges));
    // Elsewhere such a screen is no matter.
    assert!(windows.mouse_move_fits(p(100.0, 500.0), &targets));
    assert!(mac.mouse_move_fits(p(100.0, 500.0), p(19.0, 0.0), &targets, SECOND));
    assert!(event_fits(activated(9), &targets, &edges));
}

#[test]
fn a_switch_onto_a_screen_without_pixels_is_told_beforehand() {
    let anchor = |device_id: &str, screen: &Screen, side: &str| EdgeAnchor {
        device_id: device_id.into(),
        screen_id: screen.id.clone(),
        side: side.into(),
        start: d(0.0),
        end: d(1.0),
    };
    let mut layout = layout();
    layout.edge_links = Some(vec![EdgeLink {
        id: "link".into(),
        a: anchor("local-device", &layout.devices[0].screens[0], "right"),
        b: anchor("peer-device", &layout.devices[1].screens[0], "left"),
    }]);
    let lands = |layout: &LayoutState, remote: bool| {
        switch_lands(
            SwitchDirection::Right,
            layout,
            layout,
            ORIGIN,
            Platform::Windows,
            remote,
            Some(p(500.0, 500.0)),
        )
    };
    assert!(lands(&layout, false));
    layout.devices[1].screens[0].height = 0;
    assert!(!lands(&layout, false));
    assert!(lands(&layout, true));
}
