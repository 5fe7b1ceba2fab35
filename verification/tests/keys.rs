//! Key tables, modifiers, hotkeys and clicks.

use mykvm::hotkeys::{screen_switch_hotkeys_match_vk, HotkeyModifiers};
use mykvm::keys::{
    evdev_to_windows_vk, mac_key_to_windows_vk, mouse_button_to_evdev, remap_modifier_vk,
    windows_vk_to_evdev, windows_vk_to_mac_key, BTN_EXTRA, BTN_LEFT, BTN_MIDDLE, BTN_RIGHT,
    BTN_SIDE,
};
use mykvm::layout::{default_modifier_map, ScreenSwitchHotkeys};
use mykvm::mac_inject::{windows_vk_to_mac_flag, MacClickTracker};
use mykvm::macos_capture::{
    macos_capture_loop_ms, macos_raw_gesture_event_mask, macos_raw_gesture_event_types,
    MACOS_HIDDEN_REMOTE_CAPTURE_LOOP_MS, MACOS_IDLE_CAPTURE_LOOP_MS,
    MACOS_VISIBLE_REMOTE_CAPTURE_LOOP_MS,
};
use mykvm::shared_input::{mouse_button_mask, MouseButton};

const MILLISECOND: u64 = 1_000_000;

#[test]
fn windows_vk_to_mac_flag_covers_modifiers() {
    assert!(windows_vk_to_mac_flag(0x10).is_some()); // Shift
    assert!(windows_vk_to_mac_flag(0xA1).is_some()); // Right Shift
    assert!(windows_vk_to_mac_flag(0x11).is_some()); // Control
    assert!(windows_vk_to_mac_flag(0x12).is_some()); // Alt -> Option
    assert!(windows_vk_to_mac_flag(0x5B).is_some()); // LWin -> Command

    assert!(windows_vk_to_mac_flag(0x41).is_none()); // 'A'
    assert!(windows_vk_to_mac_flag(0x20).is_none()); // Space
}

#[test]
fn macos_raw_gesture_mask_covers_trackpad_system_gestures() {
    let swipe = 31;
    let system_defined = 14;
    let mask = macos_raw_gesture_event_mask();

    for event_type in macos_raw_gesture_event_types() {
        assert_ne!(mask & (1_u64 << event_type), 0);
    }
    assert_ne!(mask & (1_u64 << swipe), 0);
    assert_ne!(mask & (1_u64 << system_defined), 0);
    assert_eq!(mask & (1_u64 << 22), 0);
}

#[test]
fn macos_hidden_remote_loop_is_slower_than_visible_remote_loop() {
    assert_eq!(macos_capture_loop_ms(false, false), MACOS_IDLE_CAPTURE_LOOP_MS);
    assert_eq!(macos_capture_loop_ms(true, true), MACOS_VISIBLE_REMOTE_CAPTURE_LOOP_MS);
    assert_eq!(macos_capture_loop_ms(true, false), MACOS_HIDDEN_REMOTE_CAPTURE_LOOP_MS);
    assert!(MACOS_HIDDEN_REMOTE_CAPTURE_LOOP_MS > MACOS_VISIBLE_REMOTE_CAPTURE_LOOP_MS);
}

#[test]
fn macos_click_tracker_emits_matching_double_click_counts() {
    let mut tracker = MacClickTracker::default();
    let start: u64 = 5_000 * MILLISECOND;
    let interval = 500 * MILLISECOND;

    assert_eq!(tracker.event_count(MouseButton::Left, true, 100, 200, start, interval), 1);
    assert_eq!(
        tracker.event_count(MouseButton::Left, false, 100, 200, start + 40 * MILLISECOND, interval),
        1
    );
    assert_eq!(
        tracker.event_count(MouseButton::Left, true, 102, 201, start + 180 * MILLISECOND, interval),
        2,
        "a nearby press inside the interval must raise the click count"
    );
    assert_eq!(
        tracker.event_count(MouseButton::Left, false, 102, 201, start + 220 * MILLISECOND, interval),
        2
    );
}

#[test]
fn macos_click_tracker_resets_after_drag_timeout_or_button_change() {
    let mut tracker = MacClickTracker::default();
    let start: u64 = 5_000 * MILLISECOND;
    let interval = 500 * MILLISECOND;

    assert_eq!(tracker.event_count(MouseButton::Left, true, 10, 10, start, interval), 1);
    assert_eq!(
        tracker.event_count(MouseButton::Left, false, 30, 30, start + 40 * MILLISECOND, interval),
        0,
        "a drag release is not a click"
    );
    assert_eq!(
        tracker.event_count(MouseButton::Right, true, 10, 10, start + 100 * MILLISECOND, interval),
        1,
        "a different button starts its own click chain"
    );
    assert_eq!(
        tracker.event_count(MouseButton::Left, true, 10, 10, start + 700 * MILLISECOND, interval),
        1,
        "a press after the interval starts over at a single click"
    );
}

#[test]
fn screen_switch_hotkey_matching_requires_exact_modifiers() {
    let hotkeys = ScreenSwitchHotkeys {
        left: "alt+left".into(),
        right: "alt+arrowright".into(),
        up: "disabled".into(),
        down: "alt+shift+down".into(),
    };
    let alt = HotkeyModifiers { alt: true, ..HotkeyModifiers::default() };
    let alt_shift = HotkeyModifiers { alt: true, shift: true, ..HotkeyModifiers::default() };

    assert!(screen_switch_hotkeys_match_vk(&hotkeys, 0x25, alt));
    assert!(screen_switch_hotkeys_match_vk(&hotkeys, 0x27, alt));
    assert!(screen_switch_hotkeys_match_vk(&hotkeys, 0x28, alt_shift));
    assert!(!screen_switch_hotkeys_match_vk(&hotkeys, 0x25, alt_shift));
    assert!(!screen_switch_hotkeys_match_vk(&hotkeys, 0x26, alt));
}

#[test]
fn mouse_button_masks_are_distinct() {
    let masks = [
        mouse_button_mask(MouseButton::Left),
        mouse_button_mask(MouseButton::Right),
        mouse_button_mask(MouseButton::Middle),
        mouse_button_mask(MouseButton::Back),
        mouse_button_mask(MouseButton::Forward),
    ];
    for (i, a) in masks.iter().enumerate() {
        for b in &masks[i + 1..] {
            assert_ne!(a, b, "mouse button masks must be distinct");
        }
    }
}

#[test]
fn modifier_key_mapping_handles_sided_keys_and_caps_lock() {
    assert_eq!(windows_vk_to_mac_key(0x10), Some(56));
    assert_eq!(windows_vk_to_mac_key(0xA0), Some(56));
    assert_eq!(windows_vk_to_mac_key(0xA1), Some(60));
    assert_eq!(windows_vk_to_mac_key(0x11), Some(59));
    assert_eq!(windows_vk_to_mac_key(0xA2), Some(59));
    assert_eq!(windows_vk_to_mac_key(0xA3), Some(62));
    assert_eq!(windows_vk_to_mac_key(0x12), Some(58));
    assert_eq!(windows_vk_to_mac_key(0xA4), Some(58));
    assert_eq!(windows_vk_to_mac_key(0xA5), Some(61));
    assert_eq!(windows_vk_to_mac_key(0x14), Some(57));
    assert_eq!(windows_vk_to_mac_key(0x5B), Some(55));
    assert_eq!(windows_vk_to_mac_key(0x5C), Some(54));

    assert_eq!(mac_key_to_windows_vk(56), Some(0xA0));
    assert_eq!(mac_key_to_windows_vk(60), Some(0xA1));
    assert_eq!(mac_key_to_windows_vk(57), Some(0x14));
    assert_eq!(mac_key_to_windows_vk(58), Some(0xA4));
    assert_eq!(mac_key_to_windows_vk(61), Some(0xA5));
    assert_eq!(mac_key_to_windows_vk(59), Some(0xA2));
    assert_eq!(mac_key_to_windows_vk(62), Some(0xA3));
}

#[test]
fn key_mapping_handles_space_numpad_and_function_keys() {
    assert_eq!(windows_vk_to_mac_key(0x20), Some(49));
    assert_eq!(mac_key_to_windows_vk(49), Some(0x20));

    for (vk, mac) in [
        (0x60, 82),
        (0x61, 83),
        (0x62, 84),
        (0x63, 85),
        (0x64, 86),
        (0x65, 87),
        (0x66, 88),
        (0x67, 89),
        (0x68, 91),
        (0x69, 92),
        (0x6A, 67),
        (0x6B, 69),
        (0x6D, 78),
        (0x6E, 65),
        (0x6F, 75),
    ] {
        assert_eq!(windows_vk_to_mac_key(vk), Some(mac));
    }

    for (vk, mac) in [
        (0x70, 122),
        (0x71, 120),
        (0x72, 99),
        (0x73, 118),
        (0x74, 96),
        (0x75, 97),
        (0x76, 98),
        (0x77, 100),
        (0x78, 101),
        (0x79, 109),
        (0x7A, 103),
        (0x7B, 111),
    ] {
        assert_eq!(windows_vk_to_mac_key(vk), Some(mac));
        assert_eq!(mac_key_to_windows_vk(mac), Some(vk));
    }
}

#[test]
fn default_modifier_map_swaps_control_and_meta() {
    let map = default_modifier_map();

    // Control, on either side, becomes Meta.
    assert_eq!(remap_modifier_vk(0x11, &map.control, &map.alt, &map.meta), 0x5B);
    assert_eq!(remap_modifier_vk(0xA2, &map.control, &map.alt, &map.meta), 0x5B);
    assert_eq!(remap_modifier_vk(0xA3, &map.control, &map.alt, &map.meta), 0x5B);
    // Meta becomes Control.
    assert_eq!(remap_modifier_vk(0x5B, &map.control, &map.alt, &map.meta), 0x11);
    assert_eq!(remap_modifier_vk(0x5C, &map.control, &map.alt, &map.meta), 0x11);
    // Alt stays as it is.
    assert_eq!(remap_modifier_vk(0xA4, &map.control, &map.alt, &map.meta), 0xA4);
    // Other keys are left alone.
    assert_eq!(remap_modifier_vk(0x43, &map.control, &map.alt, &map.meta), 0x43);
}

#[test]
fn custom_modifier_map_is_honored() {
    assert_eq!(remap_modifier_vk(0x11, "same", "same", "alt"), 0x11);
    assert_eq!(remap_modifier_vk(0x5B, "same", "same", "alt"), 0x12);
}

#[test]
fn apostrophe_maps_to_oem_7_so_dead_keys_survive() {
    assert_eq!(evdev_to_windows_vk(40), Some(0xDE));
}

#[test]
fn right_alt_stays_distinguishable_for_altgr() {
    assert_eq!(evdev_to_windows_vk(100), Some(0xA5));
    assert_eq!(evdev_to_windows_vk(56), Some(0xA4));
}

#[test]
fn digit_and_letter_rows_land_on_the_right_vk_ranges() {
    assert_eq!(evdev_to_windows_vk(2), Some(0x31)); // 1
    assert_eq!(evdev_to_windows_vk(10), Some(0x39)); // 9
    assert_eq!(evdev_to_windows_vk(11), Some(0x30)); // 0
    assert_eq!(evdev_to_windows_vk(30), Some(0x41)); // A
    assert_eq!(evdev_to_windows_vk(59), Some(0x70)); // F1
    assert_eq!(evdev_to_windows_vk(68), Some(0x79)); // F10
}

#[test]
fn unknown_codes_are_dropped_rather_than_guessed() {
    assert_eq!(evdev_to_windows_vk(0), None);
    assert_eq!(evdev_to_windows_vk(9999), None);
}

#[test]
fn windows_vk_to_evdev_round_trips_through_the_forward_table() {
    // Two codes can send one key, so the way back only promises some code that
    // sends that key.
    for code in 0u32..=255 {
        if let Some(vk) = evdev_to_windows_vk(code) {
            let picked = windows_vk_to_evdev(vk).expect("vk must invert to some evdev code");
            assert_eq!(evdev_to_windows_vk(picked), Some(vk));
        }
    }
}

#[test]
fn unmapped_vk_codes_are_dropped_rather_than_guessed() {
    assert_eq!(windows_vk_to_evdev(0x07), None);
}

#[test]
fn mouse_buttons_map_to_the_same_evdev_codes_capture_uses() {
    assert_eq!(mouse_button_to_evdev(MouseButton::Left), BTN_LEFT);
    assert_eq!(mouse_button_to_evdev(MouseButton::Right), BTN_RIGHT);
    assert_eq!(mouse_button_to_evdev(MouseButton::Middle), BTN_MIDDLE);
    assert_eq!(mouse_button_to_evdev(MouseButton::Back), BTN_SIDE);
    assert_eq!(mouse_button_to_evdev(MouseButton::Forward), BTN_EXTRA);
}

#[test]
fn virtual_keys_are_injected_as_mac_keys_that_send_them() {
    for vk in 0..=0xFFu16 {
        if let Some(code) = windows_vk_to_mac_key(vk) {
            let sideless = matches!(vk, 0x10 | 0x11 | 0x12);
            assert!(sideless || mac_key_to_windows_vk(code) == Some(vk), "vk {vk:#x}");
        }
    }
    // Every key that a Mac sends can be injected on one.
    for code in 0..=127u16 {
        if let Some(vk) = mac_key_to_windows_vk(code) {
            assert!(windows_vk_to_mac_key(vk).is_some(), "key {code}");
        }
    }
    assert_eq!(windows_vk_to_mac_key(0x10), Some(56));
}

#[test]
fn only_the_enter_keys_share_a_virtual_key_and_modifiers_keep_their_side() {
    for a in 0..1000u32 {
        let Some(vk) = evdev_to_windows_vk(a) else {
            continue;
        };
        assert!(!(0x10..=0x12).contains(&vk));
        for b in a + 1..1000u32 {
            assert_eq!(evdev_to_windows_vk(b) == Some(vk), a == 28 && b == 96);
        }
    }
}
