//! What captured input on Windows and macOS comes to, event by event.

use crate::active::{
    crossing_from, followed, move_event, park_event, reachable, return_point, rows_of, wire_screens,
    ActiveView,
};
use crate::barriers::law_mirroring_turns_the_rows_round;
use crate::double::{
    absolute, half, law_integers_add_exactly, lemma_whole_one, lemma_whole_value, lemma_whole_zero,
    negated, one, rounded, whole, zero,
};
use crate::edge::{two, Point};
use crate::held::{keys_after, move_due, other_than};
use crate::hotkeys::{switches, HotkeyModifiers};
use crate::keyboard::{
    key_of_mac_code, law_mac_keys_are_sent_as_themselves, virtual_key, Key,
};
use crate::layout::LayoutState;
use crate::macos_capture as mac;
use crate::macos_capture::{
    chord_modifiers, due_again, drifted, is_hotkey, key_changes, mac_crossing, modifier_vks, placements,
    MacDisplaySnapshot, MacEvent, MacView, Moment,
};
use crate::meeting::lemma_two;
use crate::order::{lemma_negated, lemma_one_value, lemma_values_ordered, unit};
use crate::roaming::{
    at, extent, law_the_cursor_follows_the_movement, law_the_peer_is_told_the_pixel, lemma_order,
    lemma_rounded, ordinary, pixel_of, whole_screens,
};
use crate::shared_input::{held, law_buttons_are_independent, EventView, MouseButton};
use crate::targets::TargetView;
use crate::windows_capture as win;
use crate::windows_capture::{
    button_of_message, default_desktop, key_of_message, scroll_of_message, WindowsView,
};
use vstd::prelude::*;

verus! {

// ---------------------------------------------------------------------------
// Windows messages
// ---------------------------------------------------------------------------
/// The number of the message that presses a button; the next one releases it.
pub open spec fn press_message(button: MouseButton) -> int {
    match button {
        MouseButton::Left => 0x201,
        MouseButton::Right => 0x204,
        MouseButton::Middle => 0x207,
        MouseButton::Back => 0x20B,
        MouseButton::Forward => 0x20B,
    }
}

/// A button's message means that button, pressed or released; the side buttons
/// share theirs and are told apart by the number beside it.
pub proof fn law_windows_messages_mean_their_button(button: MouseButton, down: bool, data: u32)
    requires
        button == MouseButton::Back ==> data / 0x1_0000 == 1,
        button == MouseButton::Forward ==> data / 0x1_0000 == 2,
    ensures
        button_of_message(
            (press_message(button) + if down {
                0int
            } else {
                1int
            }) as u32,
            data,
        ) == Some((button, down)),
        scroll_of_message(press_message(button) as u32, data) is None,
        key_of_message(press_message(button) as u32) is None,
{
}

/// A wheel's amount is the signed number in the upper half of a message's data.
/// It counts in notches of 120, towards nought, and its sign is kept: up and to
/// the right are positive. The two wheels have a message each.
pub proof fn law_windows_wheels_turn_their_own_way(amount: int, data: u32)
    requires
        -0x8000 <= amount < 0x8000,
        data as int / 0x1_0000 == (if amount < 0 {
            amount + 0x1_0000
        } else {
            amount
        }),
    ensures
        ({
            &&& scroll_of_message(0x20A, data) matches Some((across, along))
            &&& across == 0
            &&& amount >= 0 ==> along >= 0 && 120 * along <= amount < 120 * along + 120
            &&& amount <= 0 ==> along <= 0 && 120 * along - 120 < amount <= 120 * along
        }),
        ({
            &&& scroll_of_message(0x20E, data) matches Some((across, along))
            &&& along == 0
            &&& amount >= 0 ==> across >= 0 && 120 * across <= amount < 120 * across + 120
            &&& amount <= 0 ==> across <= 0 && 120 * across - 120 < amount <= 120 * across
        }),
{
}

/// A key message says whether the key went down, be it for the system or not.
pub proof fn law_windows_key_messages_say_down_or_up(message: u32)
    ensures
        key_of_message(message) == Some(true) <==> message == 0x100 || message == 0x104,
        key_of_message(message) == Some(false) <==> message == 0x101 || message == 0x105,
{
}

/// The desktop that the user works on is called Default.
pub proof fn law_the_users_desktop_is_called_default(i: int)
    ensures
        default_desktop().len() == 7,
        0 <= i < 7 ==> default_desktop()[i] == "default"@[i] as u16,
{
    reveal_strlit("default");
}

// ---------------------------------------------------------------------------
// What Windows sends
// ---------------------------------------------------------------------------
/// A key that no chord of this machine claims is sent to the controlled machine
/// as it is, pressed or released; once it was, it is held there or not.
pub proof fn law_windows_keys_are_sent_as_they_are(
    state: WindowsView,
    message: u32,
    down: bool,
    key_code: u16,
    modifiers: HotkeyModifiers,
    layout: LayoutState,
    now: u64,
    other: u16,
)
    requires
        state.active is Some,
        key_of_message(message) == Some(down),
        !(down && switches(layout, key_code, modifiers)),
    ensures
        ({
            let (asked, plan) = state.key_message(message, key_code, modifiers, layout);
            &&& asked == state
            &&& plan.to == Some((state.active->0).target)
            &&& plan.actions.len() == 0
            &&& plan.next matches win::NextView::Await { event, pending }
            &&& event == (EventView::Key { key_code, down })
            &&& {
                let (after, rest) = asked.resumed(pending, true, layout, now);
                &&& after.active == state.active
                &&& after.buttons == state.buttons
                &&& after.keys.contains(other) == (if other == key_code {
                    down
                } else {
                    state.keys.contains(other)
                })
                &&& rest.next == (win::NextView::Done { swallowed: true })
                &&& rest.actions.len() == 0
            }
        }),
{
    law_held_keys_follow_the_keys(state.keys, key_code, down, other);
}

/// The keys held after one went down or up: that key if it went down, and every
/// other as before.
pub proof fn law_held_keys_follow_the_keys(keys: Seq<u16>, key_code: u16, down: bool, other: u16)
    ensures
        keys_after(keys, key_code, down).contains(other) == (if other == key_code {
            down
        } else {
            keys.contains(other)
        }),
{
    if down {
        if !keys.contains(key_code) {
            let pushed = keys.push(key_code);
            assert(pushed[keys.len() as int] == key_code);
            if keys.contains(other) {
                let i = choose|i: int| 0 <= i < keys.len() && keys[i] == other;
                assert(pushed[i] == other);
            }
        }
    } else {
        let keep = other_than(key_code);
        lemma_filtered(keys, keep, other);
    }
}

proof fn lemma_filtered(keys: Seq<u16>, keep: spec_fn(u16) -> bool, other: u16)
    ensures
        keys.filter(keep).contains(other) <==> keys.contains(other) && keep(other),
    decreases keys.len(),
{
    reveal(Seq::filter);
    if keys.len() > 0 {
        let rest = keys.drop_last();
        lemma_filtered(rest, keep, other);
        let kept = rest.filter(keep);
        assert(keys == rest.push(keys.last()));
        if keys.contains(other) {
            let i = choose|i: int| 0 <= i < keys.len() && keys[i] == other;
            if i < rest.len() {
                assert(rest[i] == other);
            }
        }
        if rest.contains(other) {
            let i = choose|i: int| 0 <= i < rest.len() && rest[i] == other;
            assert(keys[i] == other);
        }
        assert(keys[keys.len() - 1] == keys.last());
        if keep(keys.last()) {
            let all = kept.push(keys.last());
            assert(keys.filter(keep) == all);
            assert(all[kept.len() as int] == keys.last());
            if kept.contains(other) {
                let i = choose|i: int| 0 <= i < kept.len() && kept[i] == other;
                assert(all[i] == other);
            }
            if all.contains(other) {
                let i = choose|i: int| 0 <= i < all.len() && all[i] == other;
                if i < kept.len() {
                    assert(kept[i] == other);
                }
            }
        }
    }
}

/// A button is sent to the controlled machine as it is, after the cursor was
/// brought to its place; once it was, it is held there or not.
pub proof fn law_windows_buttons_are_sent_as_they_are(
    state: WindowsView,
    message: u32,
    data: u32,
    button: MouseButton,
    down: bool,
    p: Point,
    targets: Seq<TargetView>,
    layout: LayoutState,
    now: u64,
    other: MouseButton,
)
    requires
        state.active is Some,
        message != 0x200,
        button_of_message(message, data) == Some((button, down)),
    ensures
        ({
            let a = state.active->0;
            let (asked, plan) = state.mouse_message(message, data, p, targets, layout, now);
            &&& asked == state
            &&& plan.to == Some(a.target)
            &&& plan.next matches win::NextView::Await { event, pending }
            &&& event == move_event(a)
            &&& {
                let (placed, press) = asked.resumed(pending, true, layout, now);
                &&& press.to == Some(a.target)
                &&& press.next matches win::NextView::Await { event: sent, pending: last }
                &&& sent == (EventView::MouseButton { button, down })
                &&& {
                    let (after, rest) = placed.resumed(last, true, layout, now);
                    &&& after.active == state.active
                    &&& after.keys == state.keys
                    &&& held(after.buttons, other) == (if other == button {
                        down
                    } else {
                        held(state.buttons, other)
                    })
                }
            }
        }),
{
    law_buttons_are_independent(state.buttons, button, down, other);
}

/// Scrolling is sent to the controlled machine by the amounts that the message
/// means, after the cursor was brought to its place.
pub proof fn law_windows_scrolling_is_sent_as_it_is(
    state: WindowsView,
    message: u32,
    data: u32,
    across: int,
    along: int,
    p: Point,
    targets: Seq<TargetView>,
    layout: LayoutState,
    now: u64,
)
    requires
        state.active is Some,
        scroll_of_message(message, data) == Some((across, along)),
        i32::MIN <= across <= i32::MAX,
        i32::MIN <= along <= i32::MAX,
    ensures
        ({
            let a = state.active->0;
            let (asked, plan) = state.mouse_message(message, data, p, targets, layout, now);
            &&& asked == state
            &&& plan.next matches win::NextView::Await { event, pending }
            &&& event == move_event(a)
            &&& {
                let (placed, turn) = asked.resumed(pending, true, layout, now);
                &&& turn.to == Some(a.target)
                &&& turn.next matches win::NextView::Await { event: sent, pending: last }
                &&& sent == (EventView::Scroll { delta_x: across as i32, delta_y: along as i32 })
                &&& placed.resumed(last, true, layout, now).0.active == state.active
            }
        }),
{
}

proof fn lemma_wire_screens_are_whole(layout: LayoutState, device_id: Seq<char>)
    ensures
        whole_screens(wire_screens(layout, device_id)),
{
}

proof fn lemma_still(n: int)
    requires
        ordinary(n),
    ensures
        absolute(whole(n)).below(win::stillness()) <==> n == 0,
{
    lemma_whole_zero();
    lemma_whole_one();
    let m = extent(n);
    lemma_whole_value(n);
    lemma_whole_value(-n);
    assert(absolute(whole(n)) == whole(m));
    lemma_order(1, m);
    assert(win::stillness().rank() < one().rank());
    assert(zero().rank() < win::stillness().rank());
}

/// The local cursor is held at its anchor, and how far it is found from there is
/// how far the remote one moves. A movement that ends on the same screen moves
/// it by just that much; when one is due its machine is told the pixel, and the
/// local cursor is put back.
#[verifier::rlimit(40)]
pub proof fn law_windows_movements_move_the_remote_cursor(
    state: WindowsView,
    a: ActiveView,
    ax: int,
    ay: int,
    px: int,
    py: int,
    x: int,
    y: int,
    targets: Seq<TargetView>,
    layout: LayoutState,
    now: u64,
)
    requires
        state.active == Some(a),
        state.anchor == Some(at(ax, ay)),
        !state.just_crossed,
        a.at == at(x, y),
        reachable(a.screen),
        a.screen.has_area(),
        -0x4000_0000 <= ax <= 0x3fff_ffff,
        -0x4000_0000 <= ay <= 0x3fff_ffff,
        -0x4000_0000 <= px <= 0x3fff_ffff,
        -0x4000_0000 <= py <= 0x3fff_ffff,
        i32::MIN <= x <= i32::MAX,
        i32::MIN <= y <= i32::MAX,
        pixel_of(a.screen, x + px - ax, y + py - ay),
        px != ax || py != ay,
        move_due(state.last_mouse_move_sent, state.buttons != 0, now),
    ensures
        ({
            let (moved, plan) = state.moved(at(px, py), targets, layout, now);
            &&& moved.active matches Some(b)
            &&& b.at == at(x + px - ax, y + py - ay)
            &&& b.screen == a.screen
            &&& b.screen_id == a.screen_id
            &&& plan.to == Some(b.target)
            &&& plan.next matches win::NextView::Await { event, pending }
            &&& event == (EventView::MouseMove {
                screen_id: a.screen_id,
                x: (x + px - ax) as i32,
                y: (y + py - ay) as i32,
            })
            &&& {
                let (after, rest) = moved.resumed(pending, true, layout, now);
                &&& after.active == moved.active
                &&& after.cursor_hidden
                &&& rest.actions.len() > 0
                &&& rest.actions.last() == (win::ActionView::PlaceCursor {
                    x: ax as i32,
                    y: ay as i32,
                })
            }
        }),
{
    let (dx, dy) = (px - ax, py - ay);
    law_integers_add_exactly(px, ax);
    law_integers_add_exactly(py, ay);
    lemma_still(dx);
    lemma_still(dy);
    let screens = wire_screens(layout, a.target.device_id);
    lemma_wire_screens_are_whole(layout, a.target.device_id);
    law_the_cursor_follows_the_movement(a, x, y, dx, dy, screens);
    let (b, home) = followed(a, at(dx, dy), screens);
    assert(b.target == a.target) by {
        crate::active::law_return_only_over_the_entry_side(
            crate::active::shifted(a, at(dx, dy)),
            at(dx, dy),
            screens,
        );
    }
    law_the_peer_is_told_the_pixel(b, x + dx, y + dy);
    lemma_rounded(ax);
    lemma_rounded(ay);
}

/// Where the cursor comes home, the remote one is parked first and the local one
/// put where the way back ends, in sight.
pub proof fn law_windows_comes_home_to_the_return_point(state: WindowsView, moved: ActiveView)
    ensures
        ({
            let (after, plan) = state.came_home(moved);
            &&& after.active is None
            &&& !after.remote_active
            &&& !after.cursor_hidden
            &&& plan.to == Some(moved.target)
            &&& plan.actions.len() >= 2
            &&& plan.actions[0] == win::ActionView::Send(park_event(moved))
            &&& plan.actions.last() == (win::ActionView::PlaceCursor {
                x: rounded(return_point(moved).x),
                y: rounded(return_point(moved).y),
            })
            &&& state.cursor_hidden ==> plan.actions.contains(win::ActionView::ShowCursor)
        }),
{
    let actions = state.came_home(moved).1.actions;
    let sent = win::sends(seq![park_event(moved)]);
    assert(sent[0] == win::ActionView::Send(park_event(moved)));
    if state.cursor_hidden {
        let i = (sent + state.releasing()).len() as int;
        assert(actions[i] == win::ActionView::ShowCursor);
    }
}

// ---------------------------------------------------------------------------
// Timing
// ---------------------------------------------------------------------------
/// Movements are sent eight milliseconds apart at least, a button held or not;
/// the first one at once.
pub proof fn law_movements_are_eight_milliseconds_apart(last: u64, dragging: bool, now: u64)
    ensures
        move_due(Some(last), dragging, now) <==> now - last >= 8_000_000,
        move_due(None, dragging, now),
{
}

/// Something is due again once its interval went by.
pub proof fn law_things_are_due_after_their_interval(last: u64, now: u64, interval: u64)
    requires
        interval > 0,
    ensures
        due_again(Some(last), now, interval) <==> now - last >= interval,
        due_again(None, now, interval),
{
}

// ---------------------------------------------------------------------------
// Flags of macOS
// ---------------------------------------------------------------------------
/// The modifiers that a Mac says are held, each by its own flag: shift, control,
/// option and command.
pub proof fn law_mac_flags_name_the_held_modifiers(flags: u64)
    ensures
        modifier_vks(flags).contains(0x10) <==> flags & 0x2_0000 != 0,
        modifier_vks(flags).contains(0x11) <==> flags & 0x4_0000 != 0,
        modifier_vks(flags).contains(0x12) <==> flags & 0x8_0000 != 0,
        modifier_vks(flags).contains(0x5B) <==> flags & 0x10_0000 != 0,
        modifier_vks(flags).len() <= 4,
        chord_modifiers(flags).shift <==> flags & 0x2_0000 != 0,
        chord_modifiers(flags).ctrl <==> flags & 0x4_0000 != 0,
        chord_modifiers(flags).alt <==> flags & 0x8_0000 != 0,
        chord_modifiers(flags).meta <==> flags & 0x10_0000 != 0,
{
    let a = mac::key_of_flag(flags, 0x2_0000, 0x10);
    let b = mac::key_of_flag(flags, 0x4_0000, 0x11);
    let c = mac::key_of_flag(flags, 0x8_0000, 0x12);
    let d = mac::key_of_flag(flags, 0x10_0000, 0x5B);
    let all = modifier_vks(flags);
    assert(all == a + b + c + d);
    if flags & 0x2_0000 != 0 {
        assert(all[0] == 0x10);
    }
    if flags & 0x4_0000 != 0 {
        assert(all[a.len() as int] == 0x11);
    }
    if flags & 0x8_0000 != 0 {
        assert(all[(a + b).len() as int] == 0x12);
    }
    if flags & 0x10_0000 != 0 {
        assert(all[(a + b + c).len() as int] == 0x5B);
    }
}

/// A key of a Mac is a hotkey when a chord claims that key under the held
/// modifiers.
pub proof fn law_mac_hotkeys_are_the_claimed_keys(layout: LayoutState, code: u16, flags: u64)
    requires
        key_of_mac_code(code as int) is Some,
    ensures
        is_hotkey(layout, code, flags) == switches(
            layout,
            virtual_key(key_of_mac_code(code as int)->0) as u16,
            chord_modifiers(flags),
        ),
{
    law_mac_keys_are_sent_as_themselves(code);
}

/// The changes from one list of keys to another are the keys that the other
/// lacks, and nothing else, all of them going the same way.
pub proof fn law_key_changes_are_the_lacking_keys(
    keys: Seq<u16>,
    lacking: Seq<u16>,
    down: bool,
    event: EventView,
)
    ensures
        key_changes(keys, lacking, down).contains(event) <==> exists|i: int|
            0 <= i < keys.len() && !lacking.contains(#[trigger] keys[i]) && event == (
            EventView::Key { key_code: keys[i], down }),
    decreases keys.len(),
{
    if keys.len() > 0 {
        let rest = keys.drop_last();
        law_key_changes_are_the_lacking_keys(rest, lacking, down, event);
        let before = key_changes(rest, lacking, down);
        let all = key_changes(keys, lacking, down);
        let last = EventView::Key { key_code: keys.last(), down };
        assert(keys[keys.len() - 1] == keys.last());
        assert forall|i: int| 0 <= i < rest.len() implies rest[i] == keys[i] by {}
        if before.contains(event) {
            let j = choose|j: int| 0 <= j < before.len() && before[j] == event;
            assert(all[j] == event);
            let i = choose|i: int|
                0 <= i < rest.len() && !lacking.contains(#[trigger] rest[i]) && event == (
                EventView::Key { key_code: rest[i], down });
            assert(keys[i] == rest[i]);
        }
        if !lacking.contains(keys.last()) {
            assert(all[before.len() as int] == last);
        }
        if all.contains(event) {
            let j = choose|j: int| 0 <= j < all.len() && all[j] == event;
            if j < before.len() {
                assert(before[j] == event);
            }
        }
    }
}

// ---------------------------------------------------------------------------
// What macOS sends
// ---------------------------------------------------------------------------
/// A key that no chord of this machine claims is sent to the controlled machine
/// as the virtual key of that key, pressed or released.
pub proof fn law_mac_keys_are_forwarded_as_they_are(
    state: MacView,
    code: u16,
    flags: u64,
    down: bool,
    targets: Seq<TargetView>,
    layout: LayoutState,
    moment: Moment,
)
    requires
        state.active is Some,
        key_of_mac_code(code as int) is Some,
        !(down && is_hotkey(layout, code, flags)),
    ensures
        ({
            let key_code = virtual_key(key_of_mac_code(code as int)->0) as u16;
            let (asked, plan) = state.handled(
                MacEvent::Key { mac_code: code, flags, down },
                targets,
                layout,
                moment,
            );
            &&& asked == state
            &&& plan.to == Some((state.active->0).target)
            &&& plan.next matches mac::NextView::Await { event, pending }
            &&& event == (EventView::Key { key_code, down })
            &&& pending == (mac::PendingView::Key { key_code, down })
        }),
{
    law_mac_keys_are_sent_as_themselves(code);
}

/// A button or a turn of the wheel is sent to the controlled machine as it is,
/// after the cursor was brought to its place.
pub proof fn law_mac_buttons_and_scrolling_are_forwarded_as_they_are(
    state: MacView,
    button: MouseButton,
    down: bool,
    delta_x: i32,
    delta_y: i32,
    targets: Seq<TargetView>,
    layout: LayoutState,
    moment: Moment,
)
    requires
        state.active is Some,
    ensures
        ({
            let a = state.active->0;
            let (asked, plan) = state.handled(
                MacEvent::Button { button, down },
                targets,
                layout,
                moment,
            );
            &&& asked == state
            &&& plan.to == Some(a.target)
            &&& plan.next matches mac::NextView::Await { event, pending }
            &&& event == move_event(a)
            &&& {
                let (placed, press) = asked.resumed(pending, true, layout, moment);
                &&& placed.active == state.active
                &&& press.to == Some(a.target)
                &&& press.next matches mac::NextView::Await { event: sent, pending: last }
                &&& sent == (EventView::MouseButton { button, down })
                &&& last == (mac::PendingView::Button { button, down })
            }
        }),
        ({
            let a = state.active->0;
            let (asked, plan) = state.handled(
                MacEvent::Scroll { delta_x, delta_y },
                targets,
                layout,
                moment,
            );
            &&& asked == state
            &&& plan.next matches mac::NextView::Await { event, pending }
            &&& event == move_event(a)
            &&& {
                let (placed, turn) = asked.resumed(pending, true, layout, moment);
                &&& placed.active == state.active
                &&& turn.to == Some(a.target)
                &&& turn.next matches mac::NextView::Await { event: sent, pending: last }
                &&& sent == (EventView::Scroll { delta_x, delta_y })
            }
        }),
{
}

/// What was sent is noted as held: a button, or a key, that went down until it
/// goes up, and no other.
pub proof fn law_mac_notes_what_is_held(
    state: MacView,
    button: MouseButton,
    key_code: u16,
    down: bool,
    layout: LayoutState,
    moment: Moment,
    other: MouseButton,
    other_key: u16,
)
    requires
        state.active is Some,
    ensures
        held(
            state.resumed(mac::PendingView::Button { button, down }, true, layout, moment).0.buttons,
            other,
        ) == (if other == button {
            down
        } else {
            held(state.buttons, other)
        }),
        state.resumed(
            mac::PendingView::Key { key_code, down },
            true,
            layout,
            moment,
        ).0.keys.contains(other_key) == (if other_key == key_code {
            down
        } else {
            state.keys.contains(other_key)
        }),
{
    law_buttons_are_independent(state.buttons, button, down, other);
    law_held_keys_follow_the_keys(state.keys, key_code, down, other_key);
}

/// Modifiers that the flags name and were not held go down, and those that were
/// held and are not named any more go up; then the named ones are held.
pub proof fn law_mac_modifiers_follow_the_flags(
    state: MacView,
    code: u16,
    flags: u64,
    key_code: u16,
)
    requires
        code != 57,
    ensures
        ({
            let (held_now, changes) = state.modifier_changes(code, flags);
            &&& held_now == modifier_vks(flags)
            &&& modifier_vks(flags).contains(key_code) && !state.modifiers.contains(key_code)
                ==> changes.contains(EventView::Key { key_code, down: true })
            &&& !modifier_vks(flags).contains(key_code) && state.modifiers.contains(key_code)
                ==> changes.contains(EventView::Key { key_code, down: false })
            &&& changes.contains(EventView::Key { key_code, down: true }) ==> modifier_vks(
                flags,
            ).contains(key_code)
            &&& changes.contains(EventView::Key { key_code, down: false })
                ==> state.modifiers.contains(key_code) && !modifier_vks(flags).contains(key_code)
        }),
{
    let next = modifier_vks(flags);
    let downs = key_changes(next, state.modifiers, true);
    let ups = key_changes(state.modifiers, next, false);
    let pressed = EventView::Key { key_code, down: true };
    let released = EventView::Key { key_code, down: false };
    law_key_changes_are_the_lacking_keys(next, state.modifiers, true, pressed);
    law_key_changes_are_the_lacking_keys(next, state.modifiers, true, released);
    law_key_changes_are_the_lacking_keys(state.modifiers, next, false, pressed);
    law_key_changes_are_the_lacking_keys(state.modifiers, next, false, released);
    let all = downs + ups;
    assert forall|e: EventView| #[trigger] all.contains(e) <==> downs.contains(e) || ups.contains(
        e,
    ) by {
        if downs.contains(e) {
            let i = choose|i: int| 0 <= i < downs.len() && downs[i] == e;
            assert(all[i] == e);
        }
        if ups.contains(e) {
            let i = choose|i: int| 0 <= i < ups.len() && ups[i] == e;
            assert(all[downs.len() + i] == e);
        }
    }
    if next.contains(key_code) && !state.modifiers.contains(key_code) {
        let i = choose|i: int| 0 <= i < next.len() && next[i] == key_code;
        assert(!state.modifiers.contains(next[i]));
        assert(downs.contains(pressed));
    }
    if !next.contains(key_code) && state.modifiers.contains(key_code) {
        let i = choose|i: int| 0 <= i < state.modifiers.len() && state.modifiers[i] == key_code;
        assert(!next.contains(state.modifiers[i]));
        assert(ups.contains(released));
    }
}

/// The key that locks capitals, which a Mac reports once for each change, is
/// sent as one stroke of that key.
pub proof fn law_caps_lock_is_sent_as_a_stroke(state: MacView, flags: u64)
    ensures
        ({
            let (held_now, changes) = state.modifier_changes(57, flags);
            let key_code = virtual_key(Key::CapsLock) as u16;
            &&& key_of_mac_code(57) == Some(Key::CapsLock)
            &&& held_now == state.modifiers
            &&& changes == seq![
                EventView::Key { key_code, down: true },
                EventView::Key { key_code, down: false },
            ]
        }),
{
}

/// A movement that ends on the same screen moves the remote cursor by just that
/// much, upside down where the hand-over is; when one is due its machine is told
/// the pixel.
#[verifier::rlimit(40)]
pub proof fn law_mac_movements_move_the_remote_cursor(
    state: MacView,
    a: ActiveView,
    x: int,
    y: int,
    dx: int,
    dy: int,
    location: Point,
    targets: Seq<TargetView>,
    layout: LayoutState,
    moment: Moment,
)
    requires
        state.active == Some(a),
        !state.just_crossed,
        !state.suppress_next,
        a.at == at(x, y),
        reachable(a.screen),
        a.screen.has_area(),
        i32::MIN <= x <= i32::MAX,
        i32::MIN <= y <= i32::MAX,
        i32::MIN < dx <= i32::MAX,
        i32::MIN < dy <= i32::MAX,
        dy != 0 || !a.invert_y,
        pixel_of(
            a.screen,
            x + dx,
            y + if a.invert_y {
                -dy
            } else {
                dy
            },
        ),
        move_due(state.last_mouse_move_sent, state.buttons != 0, moment.now),
    ensures
        ({
            let row = y + if a.invert_y {
                -dy
            } else {
                dy
            };
            let (moved, plan) = state.moved(location, at(dx, dy), targets, layout, moment);
            &&& moved.active matches Some(b)
            &&& b.at == at(x + dx, row)
            &&& b.screen == a.screen
            &&& b.screen_id == a.screen_id
            &&& plan.to == Some(b.target)
            &&& plan.next matches mac::NextView::Await { event, pending }
            &&& event == (EventView::MouseMove {
                screen_id: a.screen_id,
                x: (x + dx) as i32,
                y: row as i32,
            })
        }),
{
    let down = if a.invert_y {
        -dy
    } else {
        dy
    };
    if a.invert_y {
        lemma_negated_whole(dy);
    }
    let screens = wire_screens(layout, a.target.device_id);
    lemma_wire_screens_are_whole(layout, a.target.device_id);
    law_the_cursor_follows_the_movement(a, x, y, dx, down, screens);
    let (b, home) = followed(a, at(dx, down), screens);
    law_the_peer_is_told_the_pixel(b, x + dx, y + down);
}

proof fn lemma_negated_whole(n: int)
    requires
        ordinary(n),
        n != 0,
    ensures
        negated(whole(n)) == whole(-n),
{
    lemma_whole_value(n);
    lemma_whole_value(-n);
    lemma_one_value();
    let u = unit();
    assert(n * u != 0 && (-n) * u == -(n * u)) by (nonlinear_arith)
        requires
            n != 0,
            u > 0,
    ;
    lemma_negated(whole(n));
    lemma_values_ordered(negated(whole(n)), whole(-n));
    lemma_values_ordered(whole(-n), negated(whole(n)));
    assert(negated(whole(n)).rank() == whole(-n).rank());
}

/// A crossing that is found only with the rows turned round is the one that the
/// opposite vertical movement makes at the opposite row, and it is marked so.
pub proof fn law_a_turned_crossing_turns_the_movement(
    targets: Seq<TargetView>,
    rows: Option<(int, int)>,
    top: int,
    bottom: int,
    x: int,
    y: int,
    dx: int,
    dy: int,
)
    requires
        rows_of(targets, targets.len()) == Some((top, bottom)),
        i32::MIN <= top <= i32::MAX,
        i32::MIN <= bottom <= i32::MAX,
        0 <= y - top <= bottom - top,
        2 * y != top + bottom,
        ordinary(bottom - top),
        ordinary(dy),
        dy != 0,
        crossing_from(targets, 0, at(x, y), at(dx, dy), false) is None,
    ensures
        mac_crossing(targets, rows, at(x, y), at(dx, dy)) == crossing_from(
            targets,
            0,
            at(x, bottom - (y - top)),
            at(dx, -dy),
            true,
        ),
{
    law_mirroring_turns_the_rows_round(top, bottom, y);
    lemma_negated_whole(dy);
    let flipped = bottom - (y - top);
    let n = flipped - y;
    law_integers_add_exactly(flipped, y);
    lemma_whole_zero();
    lemma_whole_one();
    let m = extent(n);
    lemma_whole_value(n);
    lemma_whole_value(-n);
    assert(absolute(whole(n)) == whole(m));
    lemma_order(1, m);
    assert(half().rank() < one().rank());
}

/// Whether a whole point lies on a display, its last lines included.
pub open spec fn lies_on(origin: (int, int), max: (int, int), x: int, y: int) -> bool {
    origin.0 <= x <= max.0 && origin.1 <= y <= max.1
}

/// A display holds a whole point between its corners, and the point's place on
/// it is counted from its origin.
pub proof fn law_displays_hold_what_lies_between_their_corners(
    id: u32,
    origin: (int, int),
    max: (int, int),
    x: int,
    y: int,
)
    requires
        ordinary(origin.0),
        ordinary(origin.1),
        ordinary(max.0),
        ordinary(max.1),
        ordinary(x),
        ordinary(y),
    ensures
        ({
            let display = MacDisplaySnapshot {
                id,
                origin: at(origin.0, origin.1),
                max: at(max.0, max.1),
            };
            placements(seq![display], at(x, y)) == (if lies_on(origin, max, x, y) {
                seq![(id, at(x - origin.0, y - origin.1))]
            } else {
                Seq::empty()
            })
        }),
{
    let display = MacDisplaySnapshot {
        id,
        origin: at(origin.0, origin.1),
        max: at(max.0, max.1),
    };
    lemma_order(origin.0, x);
    lemma_order(x, max.0);
    lemma_order(origin.1, y);
    lemma_order(y, max.1);
    law_integers_add_exactly(x, origin.0);
    law_integers_add_exactly(y, origin.1);
    assert(seq![display].last() == display);
    assert(seq![display].drop_last() =~= Seq::<MacDisplaySnapshot>::empty());
    reveal_with_fuel(placements, 2);
    assert(placements(seq![display], at(x, y)) =~= if lies_on(origin, max, x, y) {
        seq![(id, at(x - origin.0, y - origin.1))]
    } else {
        Seq::empty()
    });
}

/// Each display that holds a position is listed, in the order of the displays.
pub proof fn law_displays_are_tried_in_order(
    displays: Seq<MacDisplaySnapshot>,
    display: MacDisplaySnapshot,
    p: Point,
)
    ensures
        placements(displays.push(display), p) == placements(displays, p) + placements(
            seq![display],
            p,
        ),
{
    let all = displays.push(display);
    assert(all.drop_last() =~= displays);
    assert(all.last() == display);
    assert(seq![display].last() == display);
    assert(seq![display].drop_last() =~= Seq::<MacDisplaySnapshot>::empty());
    reveal_with_fuel(placements, 2);
    assert(placements(all, p) =~= placements(displays, p) + placements(seq![display], p));
}

/// A cursor has drifted when it is two pixels or more from its anchor.
pub proof fn law_a_cursor_drifts_by_two_pixels(ax: int, ay: int, x: int, y: int)
    requires
        -0x4000_0000 <= ax <= 0x3fff_ffff,
        -0x4000_0000 <= ay <= 0x3fff_ffff,
        -0x4000_0000 <= x <= 0x3fff_ffff,
        -0x4000_0000 <= y <= 0x3fff_ffff,
    ensures
        drifted(at(ax, ay), at(x, y)) <==> extent(x - ax) >= 2 || extent(y - ay) >= 2,
{
    law_integers_add_exactly(x, ax);
    law_integers_add_exactly(y, ay);
    lemma_drift(x - ax);
    lemma_drift(y - ay);
}

proof fn lemma_drift(n: int)
    requires
        ordinary(n),
    ensures
        absolute(whole(n)).at_most(mac::drift_threshold()) <==> extent(n) <= 1,
{
    lemma_whole_zero();
    lemma_whole_one();
    let m = extent(n);
    lemma_whole_value(n);
    lemma_whole_value(-n);
    assert(absolute(whole(n)) == whole(m));
    lemma_order(m, 1);
    lemma_order(2, m);
    lemma_two();
    lemma_whole_value(2);
    lemma_values_ordered(two(), whole(2));
    lemma_values_ordered(whole(2), two());
    assert(one().rank() < mac::drift_threshold().rank() < two().rank());
}

} // verus!
