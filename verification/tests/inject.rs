//! Carrying input out: through the portal, on a Mac, and by the Windows helper.

use mykvm::double::Double;
use mykvm::linux_inject::{
    handle_command, inject_key, inject_mouse_button, inject_mouse_move, inject_scroll,
    restore_token, set_restore_token_path, store_restore_token, DeviceChange, EisEvent, EisSink,
    InjectCommand, InjectSession, Injection, Interfaces, PortalCall, TokenFile,
};
use mykvm::mac_inject::{
    click_points_are_near, double_click_seconds, mac_button_event, mac_function_section_flags,
    mac_motion_event, macos_select_previous_input_source, KeyPost, MacInjector, MacMouseEvent,
    FLAG_COMMAND, FLAG_SHIFT,
};
use mykvm::platform::Platform;
use mykvm::shared_input::{InputCommand, MouseButton};
use mykvm::windows_helper::{
    cooling_down_error, dispatch_input_command, helper_log_due, send_secure_attention_to_helper,
    windows_input_pipe_available, HelperPipe, PipeStep, Route, HELPER_LOG_INTERVAL,
    HELPER_RETRY_DELAY,
};

const NOW: u64 = 60_000_000_000;
const MILLISECOND: u64 = 1_000_000;

fn pointer() -> Interfaces {
    Interfaces { pointer_absolute: true, button: true, scroll: true, keyboard: false }
}

#[test]
fn events_go_to_the_first_device_that_is_ready() {
    let mut sink = EisSink::new();
    assert!(sink.handle(inject_mouse_move(1, 2, None)).is_empty());
    sink.apply_lifecycle(DeviceChange::Added { id: 1, interfaces: pointer() });
    sink.apply_lifecycle(DeviceChange::Added { id: 2, interfaces: pointer() });
    // None is resumed yet.
    assert!(sink.handle(inject_mouse_move(1, 2, None)).is_empty());
    sink.apply_lifecycle(DeviceChange::Resumed { id: 2 });
    let sent = sink.handle(inject_mouse_button(MouseButton::Left, true, 5, 6));
    assert_eq!(sent.len(), 2);
    assert_eq!(sent[0].device, 2);
    assert!(sent[0].start_emulating.is_some());
    assert_eq!(sent[0].event, EisEvent::MotionAbsolute { x: 5, y: 6 });
    assert!(sent[1].start_emulating.is_none());
    assert_eq!(sent[1].event, EisEvent::Button { code: 0x110, press: true });

    // A pause has to be announced again.
    sink.apply_lifecycle(DeviceChange::Paused { id: 2 });
    assert!(sink.handle(inject_scroll(1, -1)).is_empty());
    sink.apply_lifecycle(DeviceChange::Resumed { id: 2 });
    let sent = sink.handle(inject_scroll(1, -1));
    assert!(sent[0].start_emulating.is_some());
    assert_eq!(sent[0].event, EisEvent::ScrollDiscrete { x: 120, y: 120 });
    sink.apply_lifecycle(DeviceChange::Removed { id: 2 });
    assert!(sink.handle(inject_scroll(1, -1)).is_empty());
}

#[test]
fn the_portal_moves_by_the_way_from_the_last_position() {
    let mut last = None;
    assert!(handle_command(&mut last, inject_mouse_move(100, 100, None)).is_empty());
    assert_eq!(
        handle_command(&mut last, inject_mouse_move(110, 95, None)),
        vec![PortalCall::PointerMotion { dx: 10, dy: -5 }]
    );
    assert!(handle_command(&mut last, inject_mouse_move(110, 95, None)).is_empty());
    assert_eq!(
        handle_command(&mut last, inject_scroll(2, 3)),
        vec![PortalCall::AxisHorizontal { steps: 2 }, PortalCall::AxisVertical { steps: -3 }]
    );
    assert_eq!(inject_key(0x07, true), None);
    let key = inject_key(0x41, true).expect("a code");
    assert_eq!(
        handle_command(&mut last, key),
        vec![PortalCall::KeyboardKeycode { code: 30, pressed: true }]
    );
}

#[test]
fn nothing_is_injected_without_permission() {
    let mut session = InjectSession::new();
    assert!(session.awaits_answer());
    assert!(matches!(session.command(inject_scroll(0, 1)), Injection::Dropped));
    session.deny("not allowed");
    assert!(session.denial_reason().is_some());
    assert!(matches!(session.command(inject_scroll(0, 1)), Injection::Dropped));

    let mut session = InjectSession::new();
    session.grant(None);
    assert!(!session.awaits_answer());
    assert!(matches!(session.command(inject_scroll(0, 1)), Injection::Calls(_)));
    assert!(matches!(session.command(InjectCommand::Shutdown), Injection::End));

    let mut session = InjectSession::new();
    session.grant(Some(EisSink::new()));
    assert!(matches!(session.command(inject_scroll(0, 1)), Injection::Emissions(_)));
    // Without the connection the portal carries the events.
    session.disconnected();
    assert!(matches!(session.command(inject_scroll(0, 1)), Injection::Calls(_)));
}

#[test]
fn a_token_is_kept_while_it_is_good() {
    assert_eq!(restore_token("  token\n"), Some("token".into()));
    assert_eq!(restore_token(" \n"), None);
    assert_eq!(store_restore_token(false, true), TokenFile::Ignore);
    assert_eq!(store_restore_token(true, true), TokenFile::Write);
    assert_eq!(store_restore_token(true, false), TokenFile::Remove);
    let mut path = None;
    set_restore_token_path(&mut path, "first".into());
    set_restore_token_path(&mut path, "second".into());
    assert_eq!(path, Some("first".into()));
}

#[test]
fn modifiers_are_stamped_on_the_keys_that_follow() {
    let mut injector = MacInjector::new();
    injector.inject_key(0x10, true);
    let posts = injector.inject_key(0x41, true);
    assert_eq!(posts, vec![KeyPost { mac_code: 0, down: true, flags: FLAG_SHIFT }]);
    injector.inject_key(0x10, false);
    let posts = injector.inject_key(0x41, false);
    assert_eq!(posts, vec![KeyPost { mac_code: 0, down: false, flags: 0 }]);
    injector.inject_key(0x5B, true);
    assert_eq!(injector.flags, FLAG_COMMAND);
    injector.reset_injected_modifiers();
    assert_eq!(injector.flags, 0);
    assert!(injector.inject_key(0x07, true).is_empty());
    // Arrow keys belong to the section of function keys.
    assert_ne!(mac_function_section_flags(123), 0);
    assert_eq!(mac_function_section_flags(0), 0);
}

#[test]
fn caps_lock_switches_the_input_source_once() {
    let mut injector = MacInjector::new();
    let switched = injector.inject_key(0x14, true);
    assert_eq!(switched, macos_select_previous_input_source());
    assert!(!switched.is_empty());
    assert!(injector.inject_key(0x14, true).is_empty());
    assert!(injector.inject_key(0x14, false).is_empty());
    assert!(!injector.inject_key(0x14, true).is_empty());
}

#[test]
fn clicks_count_to_three() {
    let mut injector = MacInjector::new();
    let interval = 500 * MILLISECOND;
    let mut counts = Vec::new();
    for i in 0..5u64 {
        let at = NOW + i * 100 * MILLISECOND;
        counts.push(injector.macos_click_state(MouseButton::Left, true, 5, 5, at, interval));
        counts.push(injector.macos_click_state(MouseButton::Left, false, 5, 5, at, interval));
    }
    assert_eq!(counts, vec![1, 1, 2, 2, 3, 3, 3, 3, 3, 3]);
    assert!(click_points_are_near(0, 0, 5, 5, 8));
    assert!(!click_points_are_near(0, 0, 9, 0, 8));
    let seconds = Double { bits: 0.5f64.to_bits() };
    assert_eq!(double_click_seconds(seconds), seconds);
}

#[test]
fn mac_mouse_events_name_their_button() {
    assert_eq!(mac_motion_event(None), MacMouseEvent::Moved);
    assert_eq!(mac_motion_event(Some(MouseButton::Right)), MacMouseEvent::RightDragged);
    assert_eq!(mac_button_event(MouseButton::Left, true).0, MacMouseEvent::LeftDown);
    assert_eq!(mac_button_event(MouseButton::Back, false), (MacMouseEvent::OtherUp, Some(3)));
    assert_eq!(mac_button_event(MouseButton::Forward, true), (MacMouseEvent::OtherDown, Some(4)));
}

#[test]
fn the_helper_serves_the_secure_desktop() {
    let key = InputCommand::Key { key_code: 1, down: true };
    let route = dispatch_input_command;
    assert_eq!(route(Platform::Windows, key, true), Route::Local);
    assert_eq!(route(Platform::Windows, key, false), Route::Helper);
    assert_eq!(route(Platform::Windows, InputCommand::SecureAttention, true), Route::Helper);
    assert_eq!(route(Platform::Linux, InputCommand::SecureAttention, false), Route::Local);

    let mut pipe = HelperPipe::new(NOW);
    assert_eq!(pipe.begin(NOW), PipeStep::Open);
    pipe.opened(false, NOW);
    assert_eq!(pipe.begin(NOW + HELPER_RETRY_DELAY - 1), PipeStep::CoolingDown);
    assert_eq!(pipe.begin(NOW + HELPER_RETRY_DELAY), PipeStep::Open);
    pipe.opened(true, NOW);
    assert_eq!(pipe.begin(NOW), PipeStep::Write);
    pipe.written(true);
    assert_eq!(pipe.begin(NOW), PipeStep::Write);
    pipe.written(false);
    assert_ne!(pipe.begin(NOW), PipeStep::Write);
    assert!(!cooling_down_error().is_empty());

    let mut last = None;
    assert!(helper_log_due(&mut last, NOW));
    assert!(!helper_log_due(&mut last, NOW + HELPER_LOG_INTERVAL - 1));
    assert!(windows_input_pipe_available(Platform::Windows, true));
    assert!(!windows_input_pipe_available(Platform::MacOs, true));
    assert!(send_secure_attention_to_helper(Platform::Windows, Ok(())).is_ok());
    assert_eq!(
        send_secure_attention_to_helper(Platform::Linux, Ok(())),
        Err("Secure Attention Sequence is only available through the Windows input service.".into())
    );
}
