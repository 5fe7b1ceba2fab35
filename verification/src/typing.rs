//! What injected input comes to on each system: the key that was meant, the
//! button that was pressed, the way that was scrolled.

use crate::double::{half, one, Double};
use crate::keyboard::{
    exists_on_keyboards, key_of_mac_code, law_a_mac_types_the_key_that_was_meant,
    law_mac_keys_are_sent_as_themselves, virtual_key, Key,
};
use crate::linux_inject::{
    called, carried_out, carrier, ei_scroll, emitted, law_events_go_to_the_first_ready_device,
    EisDevice, EisEvent, InjectCommand, Interface, PortalCall,
};
use crate::mac_inject::{
    button_event, flag_of_vk, input_source_chord, motion_event, near, section_flags,
    usable_double_click, MacClickTracker, MacInjector, MacMouseEvent,
};
use crate::order::{lemma_one_value, lemma_values_ordered, unit};
use crate::shared_input::MouseButton;
use vstd::arithmetic::power2::*;
use vstd::prelude::*;

verus! {

// ---------------------------------------------------------------------------
// Keys on macOS
// ---------------------------------------------------------------------------
/// The flag that macOS has for a modifier key.
pub open spec fn mac_flag(key: Key) -> Option<u64> {
    match key {
        Key::LeftShift => Some(0x2_0000),
        Key::RightShift => Some(0x2_0000),
        Key::LeftControl => Some(0x4_0000),
        Key::RightControl => Some(0x4_0000),
        Key::LeftAlt => Some(0x8_0000),
        Key::RightAlt => Some(0x8_0000),
        Key::LeftMeta => Some(0x10_0000),
        Key::RightMeta => Some(0x10_0000),
        _ => None,
    }
}

/// A modifier raises its own flag, and no other key any.
pub proof fn law_modifiers_raise_their_own_flag(key: Key)
    requires
        exists_on_keyboards(key),
    ensures
        flag_of_vk(virtual_key(key) as u16) == mac_flag(key),
        flag_of_vk(0x10) == mac_flag(Key::LeftShift),
        flag_of_vk(0x11) == mac_flag(Key::LeftControl),
        flag_of_vk(0x12) == mac_flag(Key::LeftAlt),
{
}

pub open spec fn is_arrow(key: Key) -> bool {
    key is Up || key is Down || key is Left || key is Right
}

/// The keys of the block between the letters and the keypad that a Mac marks.
pub open spec fn navigates(key: Key) -> bool {
    key is Home || key is End || key is PageUp || key is PageDown || key is Delete
}

/// The arrows are marked as keys of the function section and of the keypad, the
/// other keys that move the caret or delete as the former alone, and no other
/// key at all.
pub proof fn law_only_navigation_keys_are_marked(code: u16)
    requires
        key_of_mac_code(code as int) is Some,
    ensures
        ({
            let key = key_of_mac_code(code as int)->0;
            section_flags(code) == (if is_arrow(key) {
                0xA0_0000u64
            } else if navigates(key) {
                0x80_0000u64
            } else {
                0u64
            })
        }),
{
    assert(0x80_0000u64 | 0x20_0000u64 == 0xA0_0000u64) by (bit_vector);
}

/// A key is typed on a Mac as one event of the key that was meant, pressed or
/// released as it was.
pub proof fn law_a_mac_types_one_event_for_a_key(injector: MacInjector, code: u16, down: bool)
    requires
        key_of_mac_code(code as int) is Some,
        !(key_of_mac_code(code as int)->0 is CapsLock),
        !(key_of_mac_code(code as int)->0 is PadEnter),
    ensures
        ({
            let key = key_of_mac_code(code as int)->0;
            let (after, posts) = injector.keyed(virtual_key(key) as u16, down);
            &&& posts.len() == 1
            &&& posts[0].mac_code == code
            &&& posts[0].down == down
            &&& posts[0].flags == after.flags | section_flags(code)
            &&& after.clicks == injector.clicks
            &&& after.caps_lock_down == injector.caps_lock_down
            &&& mac_flag(key) is None ==> after.flags == injector.flags
            &&& mac_flag(key) is Some && down ==> after.flags == injector.flags | mac_flag(key)->0
            &&& mac_flag(key) is Some && !down ==> after.flags == injector.flags & !mac_flag(
                key,
            )->0
        }),
{
    law_mac_keys_are_sent_as_themselves(code);
    law_a_mac_types_the_key_that_was_meant(code);
    law_modifiers_raise_their_own_flag(key_of_mac_code(code as int)->0);
}

/// The input source is switched by holding control and striking the space bar;
/// what was pressed is released again, and only the space bar's events and the
/// press of control carry control's flag.
pub proof fn law_the_input_source_chord_is_control_and_space()
    ensures
        ({
            let c = input_source_chord();
            &&& c.len() == 4
            &&& key_of_mac_code(c[0].mac_code as int) == Some(Key::LeftControl)
            &&& key_of_mac_code(c[1].mac_code as int) == Some(Key::Space)
            &&& c[2].mac_code == c[1].mac_code
            &&& c[3].mac_code == c[0].mac_code
            &&& c[0].down && c[1].down && !c[2].down && !c[3].down
            &&& Some(c[0].flags) == mac_flag(Key::LeftControl)
            &&& Some(c[1].flags) == mac_flag(Key::LeftControl)
            &&& Some(c[2].flags) == mac_flag(Key::LeftControl)
            &&& c[3].flags == 0
        }),
{
}

// ---------------------------------------------------------------------------
// Buttons and movements on macOS
// ---------------------------------------------------------------------------
/// The three classes of buttons that macOS tells apart, and what happens to one.
pub enum ButtonClass {
    Left,
    Right,
    Other,
}

pub enum ButtonPhase {
    Down,
    Up,
    Dragged,
}

pub open spec fn class_of(button: MouseButton) -> ButtonClass {
    match button {
        MouseButton::Left => ButtonClass::Left,
        MouseButton::Right => ButtonClass::Right,
        MouseButton::Middle => ButtonClass::Other,
        MouseButton::Back => ButtonClass::Other,
        MouseButton::Forward => ButtonClass::Other,
    }
}

/// What a mouse event says of a button, if it speaks of one.
pub open spec fn says(event: MacMouseEvent) -> Option<(ButtonClass, ButtonPhase)> {
    match event {
        MacMouseEvent::Moved => None,
        MacMouseEvent::LeftDown => Some((ButtonClass::Left, ButtonPhase::Down)),
        MacMouseEvent::LeftUp => Some((ButtonClass::Left, ButtonPhase::Up)),
        MacMouseEvent::LeftDragged => Some((ButtonClass::Left, ButtonPhase::Dragged)),
        MacMouseEvent::RightDown => Some((ButtonClass::Right, ButtonPhase::Down)),
        MacMouseEvent::RightUp => Some((ButtonClass::Right, ButtonPhase::Up)),
        MacMouseEvent::RightDragged => Some((ButtonClass::Right, ButtonPhase::Dragged)),
        MacMouseEvent::OtherDown => Some((ButtonClass::Other, ButtonPhase::Down)),
        MacMouseEvent::OtherUp => Some((ButtonClass::Other, ButtonPhase::Up)),
        MacMouseEvent::OtherDragged => Some((ButtonClass::Other, ButtonPhase::Dragged)),
    }
}

/// A button's event speaks of that button's class, pressed or released as it was;
/// of the others only the two side buttons carry a number. A movement drags the
/// class of the button that is held, and is plain without one.
pub proof fn law_mac_events_speak_of_the_button(button: MouseButton, down: bool)
    ensures
        says(button_event(button, down).0) == Some(
            (
                class_of(button),
                if down {
                    ButtonPhase::Down
                } else {
                    ButtonPhase::Up
                },
            ),
        ),
        button_event(button, down).1 == (if button == MouseButton::Back {
            Some(3i64)
        } else if button == MouseButton::Forward {
            Some(4i64)
        } else {
            None
        }),
        says(motion_event(Some(button))) == Some((class_of(button), ButtonPhase::Dragged)),
        says(motion_event(None)) is None,
{
}

// ---------------------------------------------------------------------------
// Click counts
// ---------------------------------------------------------------------------
/// Clicks along one axis are near within eight pixels and no further; and being
/// near does not depend on which came first.
pub proof fn law_clicks_are_near_within_eight_pixels(x: int, y: int, k: int, x2: int, y2: int)
    ensures
        near(x, y, x + k, y, 8) <==> -8 <= k <= 8,
        near(x, y, x, y + k, 8) <==> -8 <= k <= 8,
        near(x, y, x2, y2, 8) == near(x2, y2, x, y, 8),
{
    assert(k * k <= 64 <==> -8 <= k <= 8) by (nonlinear_arith);
    assert((x - (x + k)) * (x - (x + k)) == k * k) by (nonlinear_arith);
    assert((y - (y + k)) * (y - (y + k)) == k * k) by (nonlinear_arith);
    assert((x - x2) * (x - x2) == (x2 - x) * (x2 - x)) by (nonlinear_arith);
    assert((y - y2) * (y - y2) == (y2 - y) * (y2 - y)) by (nonlinear_arith);
    assert((x - x) * (x - x) == 0) by (nonlinear_arith);
    assert((y - y) * (y - y) == 0) by (nonlinear_arith);
}

pub open spec fn counts(button: MouseButton) -> bool {
    button == MouseButton::Left || button == MouseButton::Right || button == MouseButton::Middle
}

/// A press shortly after another of the same button, near it, counts one more,
/// up to three; one of another button, too far off or too late, starts again at
/// one.
pub proof fn law_quick_presses_in_place_count_up(
    tracker: MacClickTracker,
    first: MouseButton,
    x: i32,
    y: i32,
    at: u64,
    button: MouseButton,
    x2: i32,
    y2: i32,
    now: u64,
    interval: u64,
)
    requires
        counts(first),
        counts(button),
        at <= now,
    ensures
        ({
            let (once, count) = tracker.counted(first, true, x, y, at, interval);
            let again = once.counted(button, true, x2, y2, now, interval).1;
            let same_spot = (x - x2) * (x - x2) + (y - y2) * (y - y2) <= 64;
            &&& button == first && now - at <= interval && same_spot ==> again == (if count >= 3 {
                3
            } else {
                count + 1
            })
            &&& button != first || now - at > interval || !same_spot ==> again == 1
        }),
{
    assert(8 * 8 == 64int);
}

/// A button that was dragged away clicks nothing on its release, and the next
/// press starts again at one.
pub proof fn law_a_drag_is_no_click(
    tracker: MacClickTracker,
    button: MouseButton,
    x: i32,
    y: i32,
    at: u64,
    x2: i32,
    y2: i32,
    released_at: u64,
    x3: i32,
    y3: i32,
    now: u64,
    interval: u64,
)
    requires
        counts(button),
        (x - x2) * (x - x2) + (y - y2) * (y - y2) > 64,
    ensures
        ({
            let pressed = tracker.counted(button, true, x, y, at, interval).0;
            let (released, count) = pressed.counted(button, false, x2, y2, released_at, interval);
            &&& count == 0
            &&& released.counted(button, true, x3, y3, now, interval).1 == 1
        }),
{
    assert(8 * 8 == 64int);
}

/// The side buttons are not counted: a press is one, a release nothing, and the
/// counts of the others stay.
pub proof fn law_side_buttons_are_not_counted(
    tracker: MacClickTracker,
    button: MouseButton,
    down: bool,
    x: i32,
    y: i32,
    now: u64,
    interval: u64,
)
    requires
        !counts(button),
    ensures
        tracker.counted(button, down, x, y, now, interval) == (
            tracker,
            if down {
                1int
            } else {
                0int
            },
        ),
{
}

/// A double-click time of an eighth of a second to two is used as it is, and
/// half a second in place of one under a sixteenth or over two.
pub proof fn law_odd_double_click_times_are_replaced(seconds: Double)
    requires
        seconds.finite(),
    ensures
        unit() <= 8 * seconds.value() && seconds.value() <= 2 * unit() ==> usable_double_click(
            seconds,
        ) == seconds,
        16 * seconds.value() < unit() || seconds.value() > 2 * unit() ==> usable_double_click(
            seconds,
        ) == half(),
{
    lemma_one_value();
    let shortest = Double { bits: 0x3fb9_9999_9999_999a };
    let longest = Double { bits: 0x4000_0000_0000_0000 };
    lemma_pow2_adds(4, 1018);
    lemma_pow2_unfold(1023);
    lemma_pow2_pos(1018);
    lemma2_to64();
    let p = pow2(1018) as int;
    assert(pow2(1022) == 16 * p);
    assert(pow2(1023) == 32 * p);
    assert(one().magnitude() == 1023 * 0x10_0000_0000_0000);
    assert(one().units() == 0x10_0000_0000_0000 * pow2(1022));
    assert(shortest.magnitude() == 1019 * 0x10_0000_0000_0000 + 0x9_9999_9999_999a);
    assert(shortest.units() == 0x19_9999_9999_999a * pow2(1018));
    assert(longest.magnitude() == 1024 * 0x10_0000_0000_0000);
    assert(longest.units() == 0x10_0000_0000_0000 * pow2(1023));
    assert(unit() == 0x100_0000_0000_0000 * p);
    assert(shortest.value() == 0x19_9999_9999_999a * p);
    assert(longest.value() == 2 * unit());
    lemma_values_ordered(shortest, seconds);
    lemma_values_ordered(seconds, longest);
}

// ---------------------------------------------------------------------------
// Linux
// ---------------------------------------------------------------------------
/// A notch counts 120 in libei: to the right as it is, and up as less, for libei
/// counts downward. What does not fit stays at the end of the range on its side.
pub proof fn law_libei_scrolls_the_same_way(delta_x: int, delta_y: int)
    requires
        i32::MIN <= delta_x <= i32::MAX,
        i32::MIN <= delta_y <= i32::MAX,
    ensures
        -17_895_697 <= delta_x <= 17_895_697 ==> ei_scroll(delta_x, delta_y).0 == 120 * delta_x,
        -17_895_697 <= delta_y <= 17_895_697 ==> ei_scroll(delta_x, delta_y).1 == -(120 * delta_y),
        ei_scroll(delta_x, delta_y).0 > 0 <==> delta_x > 0,
        ei_scroll(delta_x, delta_y).0 < 0 <==> delta_x < 0,
        ei_scroll(delta_x, delta_y).1 > 0 <==> delta_y < 0,
        ei_scroll(delta_x, delta_y).1 < 0 <==> delta_y > 0,
{
}

/// What a device has to be able to do for an event.
pub open spec fn able(device: EisDevice, event: EisEvent) -> bool {
    match event {
        EisEvent::MotionAbsolute { .. } => device.interfaces.pointer_absolute,
        EisEvent::Button { .. } => device.interfaces.button,
        EisEvent::ScrollDiscrete { .. } => device.interfaces.scroll,
        EisEvent::Key { .. } => device.interfaces.keyboard,
    }
}

/// The event that a command comes down to in the end.
pub open spec fn meant_event(command: InjectCommand) -> Option<EisEvent> {
    match command {
        InjectCommand::MouseMove { x, y } => Some(EisEvent::MotionAbsolute { x, y }),
        InjectCommand::MouseButton { evdev_button, down, x, y } => Some(
            EisEvent::Button { code: evdev_button, press: down },
        ),
        InjectCommand::Scroll { delta_x, delta_y } => Some(
            EisEvent::ScrollDiscrete {
                x: ei_scroll(delta_x as int, delta_y as int).0,
                y: ei_scroll(delta_x as int, delta_y as int).1,
            },
        ),
        InjectCommand::Key { evdev_code, down } => Some(
            EisEvent::Key { code: evdev_code, press: down },
        ),
        InjectCommand::Shutdown => None,
    }
}

/// What a command says is sent on a device that can do it and is not paused,
/// wherever there is one; a button follows the pointer's placing, and nothing
/// else is sent.
pub proof fn law_commands_are_sent_as_they_are(
    devices: Seq<EisDevice>,
    sequence: u32,
    command: InjectCommand,
)
    ensures
        ({
            let sent = carried_out(devices, sequence, command).2;
            match meant_event(command) {
                None => sent.len() == 0,
                Some(event) => {
                    let ready = exists|i: int|
                        0 <= i < devices.len() && (#[trigger] devices[i]).resumed && able(
                            devices[i],
                            event,
                        );
                    &&& ready ==> sent.len() > 0 && sent.last().event == event && exists|i: int|
                        0 <= i < devices.len() && (#[trigger] devices[i]).resumed && able(
                            devices[i],
                            event,
                        ) && devices[i].id == sent.last().device
                    &&& !(command is MouseButton) ==> sent.len() <= 1 && (sent.len() == 1 ==> ready)
                    &&& command matches InjectCommand::MouseButton { evdev_button, down, x, y }
                        ==> sent.len() <= 2 && (sent.len() == 2 ==> sent[0].event == (
                    EisEvent::MotionAbsolute { x, y })) && (forall|i: int|
                        0 <= i < devices.len() && (#[trigger] devices[i]).resumed
                            && devices[i].interfaces.pointer_absolute ==> sent.len() > 0
                            && sent[0].event == (EisEvent::MotionAbsolute { x, y }))
                },
            }
        }),
{
    match command {
        InjectCommand::MouseMove { x, y } => {
            lemma_emitted(
                devices,
                sequence,
                Interface::PointerAbsolute,
                EisEvent::MotionAbsolute { x, y },
            );
        },
        InjectCommand::MouseButton { evdev_button, down, x, y } => {
            let place = EisEvent::MotionAbsolute { x, y };
            let press = EisEvent::Button { code: evdev_button, press: down };
            lemma_emitted(devices, sequence, Interface::PointerAbsolute, place);
            let (placed, number, first) = emitted(
                devices,
                sequence,
                Interface::PointerAbsolute,
                place,
            );
            lemma_emitted(placed, number, Interface::Button, press);
            let second = emitted(placed, number, Interface::Button, press).2;
            assert(carried_out(devices, sequence, command).2 == first + second);
            assert forall|i: int| 0 <= i < devices.len() implies placed[i].id == (
            #[trigger] devices[i]).id && placed[i].resumed == devices[i].resumed
                && placed[i].interfaces == devices[i].interfaces by {}
            if second.len() > 0 {
                assert((first + second).last() == second[0]);
                let i = choose|i: int|
                    0 <= i < placed.len() && (#[trigger] placed[i]).resumed && able(
                        placed[i],
                        press,
                    ) && placed[i].id == second[0].device;
                assert(devices[i].resumed && able(devices[i], press));
            }
            assert forall|i: int|
                0 <= i < devices.len() && (#[trigger] devices[i]).resumed && able(
                    devices[i],
                    press,
                ) implies second.len() == 1 by {
                assert(placed[i].resumed && able(placed[i], press));
            }
        },
        InjectCommand::Scroll { delta_x, delta_y } => {
            let (x, y) = ei_scroll(delta_x as int, delta_y as int);
            lemma_emitted(
                devices,
                sequence,
                Interface::Scroll,
                EisEvent::ScrollDiscrete { x, y },
            );
        },
        InjectCommand::Key { evdev_code, down } => {
            lemma_emitted(
                devices,
                sequence,
                Interface::Keyboard,
                EisEvent::Key { code: evdev_code, press: down },
            );
        },
        InjectCommand::Shutdown => {},
    }
}

proof fn lemma_emitted(
    devices: Seq<EisDevice>,
    sequence: u32,
    interface: Interface,
    event: EisEvent,
)
    requires
        interface == match event {
            EisEvent::MotionAbsolute { .. } => Interface::PointerAbsolute,
            EisEvent::Button { .. } => Interface::Button,
            EisEvent::ScrollDiscrete { .. } => Interface::Scroll,
            EisEvent::Key { .. } => Interface::Keyboard,
        },
    ensures
        ({
            let (after, number, sent) = emitted(devices, sequence, interface, event);
            let ready = exists|i: int|
                0 <= i < devices.len() && (#[trigger] devices[i]).resumed && able(
                    devices[i],
                    event,
                );
            &&& after.len() == devices.len()
            &&& forall|i: int|
                0 <= i < devices.len() ==> (#[trigger] after[i]).id == devices[i].id
                    && after[i].resumed == devices[i].resumed && after[i].interfaces
                    == devices[i].interfaces
            &&& sent.len() == (if ready {
                1int
            } else {
                0int
            })
            &&& sent.len() == 1 ==> sent[0].event == event && exists|i: int|
                0 <= i < devices.len() && (#[trigger] devices[i]).resumed && able(devices[i], event)
                    && devices[i].id == sent[0].device
        }),
{
    law_events_go_to_the_first_ready_device(devices, interface);
    assert forall|i: int| 0 <= i < devices.len() implies (
    #[trigger] devices[i]).interfaces.offers(interface) == able(devices[i], event) by {}
    match carrier(devices, interface) {
        Some(i) => {
            assert(devices[i].resumed && able(devices[i], event));
        },
        None => {
            assert forall|i: int| 0 <= i < devices.len() implies !((#[trigger] devices[i]).resumed
                && able(devices[i], event)) by {
                assert(!(devices[i].resumed && devices[i].interfaces.offers(interface)));
            }
        },
    }
}

/// Through the portal a key is pressed or released as it was, a button too, after
/// the pointer's way to its place; and scrolling goes by the whole amount to the
/// right and against the whole amount up, for the portal counts downward.
pub proof fn law_portal_calls_say_what_the_command_says(
    last: Option<(i32, i32)>,
    command: InjectCommand,
)
    ensures
        ({
            let (position, calls) = called(last, command);
            match command {
                InjectCommand::Key { evdev_code, down } => {
                    &&& calls == seq![
                        PortalCall::KeyboardKeycode { code: evdev_code, pressed: down },
                    ]
                    &&& position == last
                },
                InjectCommand::MouseButton { evdev_button, down, x, y } => {
                    &&& calls.len() > 0
                    &&& calls.last() == (PortalCall::PointerButton {
                        code: evdev_button,
                        pressed: down,
                    })
                    &&& calls.drop_last() == called(last, InjectCommand::MouseMove { x, y }).1
                    &&& position == Some((x, y))
                },
                InjectCommand::Scroll { delta_x, delta_y } => {
                    &&& position == last
                    &&& calls.contains(PortalCall::AxisHorizontal { steps: delta_x }) <==> delta_x
                        != 0
                    &&& delta_y != 0 && delta_y != i32::MIN ==> calls.contains(
                        PortalCall::AxisVertical { steps: (-delta_y) as i32 },
                    )
                    &&& calls.len() == (if delta_x != 0 {
                        1int
                    } else {
                        0int
                    }) + (if delta_y != 0 {
                        1int
                    } else {
                        0int
                    })
                },
                InjectCommand::MouseMove { x, y } => {
                    &&& position == Some((x, y))
                    &&& calls.len() <= 1
                    &&& last is None ==> calls.len() == 0
                },
                InjectCommand::Shutdown => calls.len() == 0 && position == last,
            }
        }),
{
    let (position, calls) = called(last, command);
    match command {
        InjectCommand::MouseButton { evdev_button, down, x, y } => {
            assert(calls.drop_last() =~= called(last, InjectCommand::MouseMove { x, y }).1);
        },
        InjectCommand::Scroll { delta_x, delta_y } => {
            if delta_x != 0 {
                assert(calls[0] == (PortalCall::AxisHorizontal { steps: delta_x }));
            }
            if delta_y != 0 {
                assert(calls.last() == (PortalCall::AxisVertical {
                    steps: crate::linux_input::turned(delta_y as int),
                }));
            }
        },
        _ => {},
    }
}

} // verus!
