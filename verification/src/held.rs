//! What is held down on the machine that is being controlled, and how often its
//! cursor is moved.

use crate::recency::{age, elapsed};
use crate::shared_input::{
    held, is_held, mouse_button_mask, with_button, EventView, InputEvent, MouseButton,
};
use vstd::prelude::*;

verus! {

/// How far apart two movements are sent at least, in nanoseconds.
pub const MOUSE_MOVE_SEND_INTERVAL: u64 = 8_000_000;

/// The same while a button is held.
pub const DRAG_MOVE_SEND_INTERVAL: u64 = 8_000_000;

/// Whether a movement is sent, given when the last one was.
pub open spec fn move_due(last: Option<u64>, dragging: bool, now: u64) -> bool {
    match last {
        Some(at) => age(now, at) >= if dragging {
            DRAG_MOVE_SEND_INTERVAL
        } else {
            MOUSE_MOVE_SEND_INTERVAL
        },
        None => true,
    }
}

/// Says whether a movement is due, and notes it if it is.
pub fn should_send_mouse_move(last_sent: &mut Option<u64>, dragging: bool, now: u64) -> (r: bool)
    ensures
        r == move_due(*old(last_sent), dragging, now),
        *final(last_sent) == if r {
            Some(now)
        } else {
            *old(last_sent)
        },
{
    let interval: u64 = if dragging {
        DRAG_MOVE_SEND_INTERVAL
    } else {
        MOUSE_MOVE_SEND_INTERVAL
    };
    let due: bool = match *last_sent {
        Some(at) => elapsed(now, at) >= interval,
        None => true,
    };
    if due {
        *last_sent = Some(now);
    }
    due
}

pub fn remote_button_is_down(mask: u64) -> (r: bool)
    ensures
        r == (mask != 0),
{
    mask != 0
}

pub fn update_remote_button_mask(mask: &mut u64, button: MouseButton, down: bool)
    ensures
        *final(mask) == with_button(*old(mask), button, down),
{
    if down {
        *mask = *mask | mouse_button_mask(button);
    } else {
        *mask = *mask & !mouse_button_mask(button);
    }
}

/// The test for another key.
pub open spec fn other_than(key_code: u16) -> spec_fn(u16) -> bool {
    |key: u16| key != key_code
}

/// The keys that are held after one went down or up; each is listed once, in
/// the order in which they went down.
pub open spec fn keys_after(keys: Seq<u16>, key_code: u16, down: bool) -> Seq<u16> {
    if !down {
        keys.filter(other_than(key_code))
    } else if keys.contains(key_code) {
        keys
    } else {
        keys.push(key_code)
    }
}

/// Whether a list of keys holds one.
pub fn holds_key(keys: &Vec<u16>, key_code: u16) -> (r: bool)
    ensures
        r == keys@.contains(key_code),
{
    let mut i: usize = 0;
    while i < keys.len()
        invariant
            i <= keys.len(),
            forall|j: int| 0 <= j < i ==> keys@[j] != key_code,
        decreases keys.len() - i,
    {
        if keys[i] == key_code {
            return true;
        }
        i = i + 1;
    }
    false
}

/// Notes that a key was forwarded.
pub fn track_forwarded_key(pressed: &mut Vec<u16>, key_code: u16, down: bool)
    ensures
        final(pressed)@ == keys_after(old(pressed)@, key_code, down),
{
    if down {
        if !holds_key(pressed, key_code) {
            pressed.push(key_code);
        }
        return;
    }
    let mut kept: Vec<u16> = Vec::new();
    let mut i: usize = 0;
    let ghost keep = other_than(key_code);
    assert(pressed@.take(0).filter(keep) =~= Seq::<u16>::empty()) by {
        reveal(Seq::filter);
    }
    while i < pressed.len()
        invariant
            i <= pressed.len(),
            keep == other_than(key_code),
            *pressed == *old(pressed),
            kept@ == pressed@.take(i as int).filter(keep),
        decreases pressed.len() - i,
    {
        proof {
            reveal(Seq::filter);
            assert(pressed@.take(i + 1).drop_last() =~= pressed@.take(i as int));
        }
        if pressed[i] != key_code {
            kept.push(pressed[i]);
        }
        i = i + 1;
    }
    assert(pressed@.take(pressed.len() as int) =~= pressed@);
    *pressed = kept;
}

/// No key is listed twice, whatever goes down and up.
pub proof fn law_keys_are_listed_once(keys: Seq<u16>, key_code: u16, down: bool)
    requires
        keys.no_duplicates(),
    ensures
        keys_after(keys, key_code, down).no_duplicates(),
        keys_after(keys, key_code, down).contains(key_code) == down,
        forall|other: u16|
            other != key_code ==> keys_after(keys, key_code, down).contains(other) == keys.contains(
                other,
            ),
    decreases keys.len(),
{
    let after = keys_after(keys, key_code, down);
    if down {
        if !keys.contains(key_code) {
            assert(after.last() == key_code);
            assert forall|other: u16| other != key_code implies after.contains(other)
                == keys.contains(other) by {
                if keys.contains(other) {
                    let i = choose|i: int| 0 <= i < keys.len() && keys[i] == other;
                    assert(after[i] == other);
                }
            }
        }
    } else {
        reveal(Seq::filter);
        if keys.len() > 0 {
            let front = keys.drop_last();
            law_keys_are_listed_once(front, key_code, down);
            let kept = keys_after(front, key_code, down);
            assert forall|other: u16| keys.contains(other) == (front.contains(other) || other
                == keys.last()) by {
                if keys.contains(other) {
                    let i = choose|i: int| 0 <= i < keys.len() && keys[i] == other;
                    if i < front.len() {
                        assert(front[i] == other);
                    }
                }
                if front.contains(other) {
                    let i = choose|i: int| 0 <= i < front.len() && front[i] == other;
                    assert(keys[i] == other);
                }
                if other == keys.last() {
                    assert(keys[keys.len() - 1] == other);
                }
            }
            if keys.last() != key_code {
                assert(after =~= kept.push(keys.last()));
                assert(!front.contains(keys.last()));
                assert forall|other: u16| after.contains(other) == (kept.contains(other) || other
                    == keys.last()) by {
                    if kept.contains(other) {
                        let i = choose|i: int| 0 <= i < kept.len() && kept[i] == other;
                        assert(after[i] == other);
                    }
                    assert(after[kept.len() as int] == keys.last());
                }
            } else {
                assert(after =~= kept);
            }
        }
    }
}

/// The events that let go of a list of keys.
pub open spec fn key_releases(keys: Seq<u16>) -> Seq<EventView> {
    keys.map_values(|key_code: u16| EventView::Key { key_code, down: false })
}

/// The event that lets go of a button, if the mask holds it.
pub open spec fn button_release(mask: u64, button: MouseButton) -> Seq<EventView> {
    if held(mask, button) {
        seq![EventView::MouseButton { button, down: false }]
    } else {
        Seq::empty()
    }
}

/// The events that let go of every button in a mask.
pub open spec fn button_releases(mask: u64) -> Seq<EventView> {
    button_release(mask, MouseButton::Left) + button_release(mask, MouseButton::Right)
        + button_release(mask, MouseButton::Middle) + button_release(mask, MouseButton::Back)
        + button_release(mask, MouseButton::Forward)
}

/// What a list of events says.
pub open spec fn event_views(events: Seq<InputEvent>) -> Seq<EventView> {
    events.map_values(|event: InputEvent| event@)
}

/// The events that let go of a list of keys.
pub fn release_forwarded_keys(keys: &Vec<u16>) -> (r: Vec<InputEvent>)
    ensures
        event_views(r@) == key_releases(keys@),
{
    let mut events: Vec<InputEvent> = Vec::new();
    let mut i: usize = 0;
    while i < keys.len()
        invariant
            i <= keys.len(),
            events.len() == i,
            forall|j: int| 0 <= j < i ==> (#[trigger] events@[j])@ == key_releases(keys@)[j],
        decreases keys.len() - i,
    {
        events.push(InputEvent::Key { key_code: keys[i], down: false });
        i = i + 1;
    }
    assert(event_views(events@) =~= key_releases(keys@));
    events
}

fn push_release(events: &mut Vec<InputEvent>, mask: u64, button: MouseButton)
    ensures
        event_views(final(events)@) == event_views(old(events)@) + button_release(mask, button),
{
    if is_held(mask, button) {
        events.push(InputEvent::MouseButton { button, down: false });
    }
    assert(event_views(events@) =~= event_views(old(events)@) + button_release(mask, button));
}

/// Lets go of every button that is held, and forgets them.
pub fn release_remote_buttons(mask: &mut u64) -> (r: Vec<InputEvent>)
    ensures
        *final(mask) == 0,
        event_views(r@) == button_releases(*old(mask)),
{
    let mut events: Vec<InputEvent> = Vec::new();
    assert(event_views(events@) =~= Seq::<EventView>::empty());
    push_release(&mut events, *mask, MouseButton::Left);
    push_release(&mut events, *mask, MouseButton::Right);
    push_release(&mut events, *mask, MouseButton::Middle);
    push_release(&mut events, *mask, MouseButton::Back);
    push_release(&mut events, *mask, MouseButton::Forward);
    assert(event_views(events@) =~= button_releases(*mask));
    *mask = 0;
    events
}

/// Releasing lets go of exactly the buttons that are held.
pub proof fn law_every_held_button_is_released(mask: u64, button: MouseButton)
    ensures
        button_releases(mask).contains(EventView::MouseButton { button, down: false }) == held(
            mask,
            button,
        ),
{
    let left = button_release(mask, MouseButton::Left);
    let right = button_release(mask, MouseButton::Right);
    let middle = button_release(mask, MouseButton::Middle);
    let back = button_release(mask, MouseButton::Back);
    let forward = button_release(mask, MouseButton::Forward);
    let up = EventView::MouseButton { button, down: false };
    let all = button_releases(mask);
    if held(mask, button) {
        let i = match button {
            MouseButton::Left => 0,
            MouseButton::Right => left.len() as int,
            MouseButton::Middle => (left + right).len() as int,
            MouseButton::Back => (left + right + middle).len() as int,
            MouseButton::Forward => (left + right + middle + back).len() as int,
        };
        assert(all[i] == up);
    }
}

/// Releasing lets go of every key that is held.
pub proof fn law_every_held_key_is_released(keys: Seq<u16>, key_code: u16)
    ensures
        key_releases(keys).contains(EventView::Key { key_code, down: false }) == keys.contains(
            key_code,
        ),
{
    let up = EventView::Key { key_code, down: false };
    if keys.contains(key_code) {
        let i = choose|i: int| 0 <= i < keys.len() && keys[i] == key_code;
        assert(key_releases(keys)[i] == up);
    }
    if key_releases(keys).contains(up) {
        let i = choose|i: int| 0 <= i < keys.len() && key_releases(keys)[i] == up;
        assert(keys[i] == key_code);
    }
}

} // verus!
