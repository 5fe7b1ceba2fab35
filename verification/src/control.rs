//! Taking control of another machine and giving it up: what the peer is sent,
//! where the local cursor waits, and what is left when control ends.

use crate::active::{
    crossing_from, mirrored, move_event, park_event, return_point, rows_of,
    ActiveView,
};
use crate::clipboard_target::{controlled_clipboard, ClipboardTargetView};
use crate::credentials::{attention_refusal, remote_as};
use crate::double::{difference, rounded};
use crate::edge::Point;
use crate::held::{button_releases, key_releases};
use crate::hotkeys::{switches, HotkeyModifiers};
use crate::layout::LayoutState;
use crate::macos_capture as mac;
use crate::macos_capture::{cursor_point, due_again, mac_crossing, MacView, Moment};
use crate::packet::{InputControlPacket, InputPacket};
use crate::receive::{
    control_authorized, control_received, meant_for_us, refreshed_clipboard, Reception,
};
use crate::seqs::{lemma_first, lemma_first_is};
use crate::shared_input::InputCommand;
use crate::switch::OutcomeView;
use crate::targets::{address, TargetView};
use crate::text::blank;
use crate::upkeep::law_a_controlled_mouse_stays_cut_off;
use crate::windows_capture as win;
use crate::windows_capture::WindowsView;
use crate::windows_helper::{needs_helper, HelperPipe, PipeStep};
use vstd::prelude::*;

verus! {

// ---------------------------------------------------------------------------
// Windows
// ---------------------------------------------------------------------------
/// A movement over a linked side asks the peer that it leads to: the peer is
/// sent where its cursor stands, and the local one is hidden and put where it
/// will come back. Control begins once the peer was reached, with no button
/// held, and else everything is as it was, the cursor in sight.
pub proof fn law_windows_takes_control_over_a_linked_side(
    state: WindowsView,
    p: Point,
    a: ActiveView,
    targets: Seq<TargetView>,
    layout: LayoutState,
    now: u64,
)
    requires
        state.active is None,
        state.last_point is Some,
        crossing_from(
            targets,
            0,
            p,
            Point {
                x: difference(p.x, state.last_point->0.x),
                y: difference(p.y, state.last_point->0.y),
            },
            false,
        ) == Some(a),
    ensures
        ({
            let (asked, plan) = state.moved(p, targets, layout, now);
            &&& asked.active is None
            &&& asked.last_point == Some(p)
            &&& asked.cursor_hidden
            &&& plan.to == Some(a.target)
            &&& plan.actions.last() == (win::ActionView::PlaceCursor {
                x: rounded(return_point(a).x),
                y: rounded(return_point(a).y),
            })
            &&& !state.cursor_hidden ==> plan.actions[0] == win::ActionView::HideCursor
            &&& plan.next matches win::NextView::Await { event, pending }
            &&& event == move_event(a)
            &&& {
                let (taken, rest) = asked.resumed(pending, true, layout, now);
                &&& taken.active == Some(a)
                &&& taken.remote_active
                &&& taken.anchor == Some(return_point(a))
                &&& taken.buttons == 0
                &&& taken.keys == state.keys
                &&& taken.cursor_hidden
                &&& taken.clipboard_target == controlled_clipboard(
                    state.clipboard_target,
                    layout,
                    a.target.device_id,
                )
                &&& rest.actions.len() == 0
                &&& rest.next == (win::NextView::Done { swallowed: true })
            }
            &&& {
                let (refused, rest) = asked.resumed(pending, false, layout, now);
                &&& refused.active is None
                &&& refused.remote_active == state.remote_active
                &&& !refused.cursor_hidden
                &&& rest.actions == seq![win::ActionView::ShowCursor]
                &&& rest.next == (win::NextView::Done { swallowed: false })
            }
        }),
{
    let (asked, plan) = state.moved(p, targets, layout, now);
    let pending = plan.next->pending;
    assert(asked.resumed(pending, false, layout, now).1.actions =~= seq![
        win::ActionView::ShowCursor,
    ]);
}

/// A movement that passes no linked side stays with the local machine.
pub proof fn law_windows_keeps_other_movements(
    state: WindowsView,
    p: Point,
    last: Point,
    targets: Seq<TargetView>,
    layout: LayoutState,
    now: u64,
)
    requires
        state.active is None,
        state.last_point == Some(last),
        crossing_from(
            targets,
            0,
            p,
            Point { x: difference(p.x, last.x), y: difference(p.y, last.y) },
            false,
        ) is None,
    ensures
        ({
            let (after, plan) = state.moved(p, targets, layout, now);
            &&& after == WindowsView { last_point: Some(p), ..state }
            &&& plan.to is None
            &&& plan.actions.len() == 0
            &&& plan.next == (win::NextView::Done { swallowed: false })
        }),
{
}

/// A peer that a movement does not reach is given up: nothing stays active or
/// held, and the cursor comes back in sight.
pub proof fn law_windows_gives_up_a_lost_peer(
    state: WindowsView,
    anchor: Point,
    layout: LayoutState,
    now: u64,
)
    ensures
        ({
            let (after, plan) = state.resumed(
                win::PendingView::Moved { anchor },
                false,
                layout,
                now,
            );
            &&& after.active is None
            &&& !after.remote_active
            &&& after.clipboard_target is None
            &&& after.anchor is None
            &&& after.buttons == 0
            &&& after.keys.len() == 0
            &&& !after.cursor_hidden
            &&& state.cursor_hidden ==> plan.actions == seq![win::ActionView::ShowCursor]
            &&& !state.cursor_hidden ==> plan.actions.len() == 0
            &&& plan.next == (win::NextView::Done { swallowed: false })
        }),
{
}

/// The first movement after a crossing is the cursor's own jump to its anchor:
/// it moves nothing on the other machine, and the cursor is put back there.
pub proof fn law_windows_drops_the_jump_of_a_crossing(
    state: WindowsView,
    a: ActiveView,
    anchor: Point,
    p: Point,
    targets: Seq<TargetView>,
    layout: LayoutState,
    now: u64,
)
    requires
        state.active == Some(a),
        state.anchor == Some(anchor),
        state.just_crossed,
    ensures
        ({
            let (after, plan) = state.moved(p, targets, layout, now);
            &&& after.active == Some(a)
            &&& after.anchor == Some(anchor)
            &&& plan.to is None
            &&& plan.next == (win::NextView::Done { swallowed: true })
            &&& plan.actions.len() > 0 ==> !after.just_crossed && plan.actions == seq![
                win::ActionView::PlaceCursor { x: rounded(anchor.x), y: rounded(anchor.y) },
            ]
        }),
{
}

/// A hotkey that goes to another machine asks it as a crossing does; one that
/// goes to another screen of this machine puts the cursor where it last was
/// there, and keeps in mind where it was here.
pub proof fn law_windows_hotkeys_go_where_they_say(
    state: WindowsView,
    a: ActiveView,
    from: Seq<char>,
    to: Seq<char>,
    centre: Point,
    here: Point,
)
    requires
        from != to,
    ensures
        ({
            let (after, plan) = state.switched_to(OutcomeView::Enter(a), Some(here));
            &&& after.cursor_hidden
            &&& plan.to == Some(a.target)
            &&& plan.next matches win::NextView::Await { event, .. }
            &&& event == move_event(a)
        }),
        ({
            let (after, plan) = state.switched_to(
                OutcomeView::LocalMove { from_screen_id: from, to_screen_id: to, at: centre },
                Some(here),
            );
            let known = state.points.dom().contains(to);
            let there = if known {
                state.points[to]
            } else {
                centre
            };
            &&& after.points[from] == here
            &&& known ==> after.points[to] == state.points[to]
            &&& plan.to is None
            &&& plan.actions == seq![
                win::ActionView::PlaceCursor { x: rounded(there.x), y: rounded(there.y) },
            ]
        }),
        state.switched_to(OutcomeView::Noop, Some(here)).0 == state,
{
}

// ---------------------------------------------------------------------------
// macOS
// ---------------------------------------------------------------------------
/// A movement over a linked side asks the peer that it leads to: the peer is
/// sent where its cursor stands, while the local one is cut off from the mouse,
/// hidden, and put where it will come back.
pub proof fn law_mac_asks_the_peer_over_a_linked_side(
    state: MacView,
    location: Point,
    d: Point,
    a: ActiveView,
    targets: Seq<TargetView>,
    layout: LayoutState,
    moment: Moment,
)
    requires
        state.active is None,
        due_again(state.last_return, moment.now, mac::RETURN_COOLDOWN),
        mac_crossing(targets, state.rows, location, d) == Some(a),
        !a.invert_y,
    ensures
        ({
            let (asked, plan) = state.moved(location, d, targets, layout, moment);
            &&& asked.active is None
            &&& asked.remote_active == state.remote_active
            &&& asked.clipboard_target == state.clipboard_target
            &&& asked.cursor_hidden
            &&& plan.to == Some(a.target)
            &&& plan.actions[0] == mac::ActionView::Decouple(true)
            &&& plan.actions.last() == mac::ActionView::MoveCursor(return_point(a))
            &&& !state.cursor_hidden ==> plan.actions[3] == mac::ActionView::Hide
            &&& plan.next == (mac::NextView::Await {
                event: move_event(a),
                pending: mac::PendingView::Crossing { active: a, anchor: return_point(a) },
            })
        }),
{
    lemma_asking(state, a, targets);
}

proof fn lemma_asking(state: MacView, a: ActiveView, targets: Seq<TargetView>)
    requires
        !a.invert_y,
    ensures
        ({
            let (asked, plan) = state.crossing(a, targets);
            &&& asked.active == state.active
            &&& asked.remote_active == state.remote_active
            &&& asked.clipboard_target == state.clipboard_target
            &&& asked.cursor_hidden
            &&& plan.to == Some(a.target)
            &&& plan.actions[0] == mac::ActionView::Decouple(true)
            &&& plan.actions.last() == mac::ActionView::MoveCursor(return_point(a))
            &&& !state.cursor_hidden ==> plan.actions[3] == mac::ActionView::Hide
            &&& plan.next == (mac::NextView::Await {
                event: move_event(a),
                pending: mac::PendingView::Crossing { active: a, anchor: return_point(a) },
            })
        }),
{
    let anchor = cursor_point(return_point(a), a.invert_y, targets, state.rows);
    law_turned_positions_are_turned_back(targets, state.rows, return_point(a));
    assert(anchor == return_point(a));
    let hiding = state.hid().1;
    let actions = state.crossing(a, targets).1.actions;
    let head = seq![mac::ActionView::Decouple(true), mac::ActionView::SuppressAfterWarps(false)];
    assert(actions == head + hiding + seq![mac::ActionView::MoveCursor(anchor)]);
    if !state.cursor_hidden {
        assert(hiding =~= seq![mac::ActionView::PushBlankCursor, mac::ActionView::Hide]);
    } else {
        assert(hiding.len() == 0);
    }
}

/// Control begins once the peer was reached, with no button held.
pub proof fn law_mac_takes_control_of_a_reached_peer(
    asked: MacView,
    a: ActiveView,
    anchor: Point,
    layout: LayoutState,
    moment: Moment,
)
    ensures
        ({
            let (taken, rest) = asked.resumed(
                mac::PendingView::Crossing { active: a, anchor },
                true,
                layout,
                moment,
            );
            &&& taken.active == Some(a)
            &&& taken.remote_active
            &&& taken.just_crossed
            &&& taken.anchor == Some(anchor)
            &&& taken.buttons == 0
            &&& taken.cursor_hidden == asked.cursor_hidden
            &&& taken.clipboard_target == controlled_clipboard(
                asked.clipboard_target,
                layout,
                a.target.device_id,
            )
            &&& rest.next == (mac::NextView::Done { dropped: true })
        }),
{
}

/// Where the peer was not reached, the cursor follows the mouse again, in
/// sight, and nothing is controlled that was not before.
pub proof fn law_mac_keeps_control_from_an_unreached_peer(
    asked: MacView,
    a: ActiveView,
    anchor: Point,
    layout: LayoutState,
    moment: Moment,
)
    requires
        asked.cursor_hidden,
    ensures
        ({
            let (refused, rest) = asked.resumed(
                mac::PendingView::Crossing { active: a, anchor },
                false,
                layout,
                moment,
            );
            &&& refused.active == asked.active
            &&& refused.remote_active == asked.remote_active
            &&& !refused.cursor_hidden
            &&& rest.actions == seq![
                mac::ActionView::SuppressAfterWarps(true),
                mac::ActionView::Decouple(false),
                mac::ActionView::PopBlankCursor,
                mac::ActionView::Show { times: asked.hide_depth },
            ]
            &&& rest.next == (mac::NextView::Done { dropped: false })
        }),
{
    let (refused, rest) = asked.resumed(
        mac::PendingView::Crossing { active: a, anchor },
        false,
        layout,
        moment,
    );
    assert(rest.actions =~= seq![
        mac::ActionView::SuppressAfterWarps(true),
        mac::ActionView::Decouple(false),
        mac::ActionView::PopBlankCursor,
        mac::ActionView::Show { times: asked.hide_depth },
    ]);
}

/// A movement that passes no linked side, or comes too soon after the cursor
/// came home, stays with the local machine.
pub proof fn law_mac_keeps_other_movements(
    state: MacView,
    location: Point,
    d: Point,
    targets: Seq<TargetView>,
    layout: LayoutState,
    moment: Moment,
)
    requires
        state.active is None,
        mac_crossing(targets, state.rows, location, d) is None || !due_again(
            state.last_return,
            moment.now,
            mac::RETURN_COOLDOWN,
        ),
    ensures
        ({
            let (after, plan) = state.moved(location, d, targets, layout, moment);
            &&& after == state
            &&& plan.to is None
            &&& plan.actions.len() == 0
            &&& plan.next == (mac::NextView::Done { dropped: false })
        }),
{
}

/// A peer that a movement does not reach is given up: nothing stays active or
/// held, and the cursor follows the mouse again, in sight.
pub proof fn law_mac_gives_up_a_lost_peer(
    state: MacView,
    location: Point,
    layout: LayoutState,
    moment: Moment,
)
    ensures
        ({
            let (after, plan) = state.resumed(
                mac::PendingView::Moved { location },
                false,
                layout,
                moment,
            );
            &&& after.active is None
            &&& !after.remote_active
            &&& after.clipboard_target is None
            &&& after.anchor is None
            &&& after.buttons == 0
            &&& after.modifiers.len() == 0
            &&& !after.cursor_hidden
            &&& !after.just_crossed && !after.suppress_next
            &&& plan.actions.contains(mac::ActionView::Decouple(false))
            &&& state.cursor_hidden ==> plan.actions.contains(
                mac::ActionView::Show { times: state.hide_depth },
            )
            &&& plan.next == (mac::NextView::Done { dropped: false })
        }),
{
    let plan = state.resumed(mac::PendingView::Moved { location }, false, layout, moment).1;
    assert(plan.actions[1] == mac::ActionView::Decouple(false));
    if state.cursor_hidden {
        assert(plan.actions[3] == (mac::ActionView::Show { times: state.hide_depth }));
    }
}

/// The first movement after a hotkey took control is the cursor's own jump to
/// its anchor: it moves nothing on the other machine, and the next one counts.
pub proof fn law_mac_drops_the_jump_of_a_hotkey(
    state: MacView,
    a: ActiveView,
    location: Point,
    d: Point,
    targets: Seq<TargetView>,
    layout: LayoutState,
    moment: Moment,
)
    requires
        state.active == Some(a),
        state.suppress_next,
    ensures
        ({
            let (after, plan) = state.moved(location, d, targets, layout, moment);
            &&& after.active == Some(a)
            &&& !after.suppress_next
            &&& plan.to is None
            &&& plan.next == (mac::NextView::Done { dropped: true })
        }),
{
}

/// A hotkey that comes home puts the cursor where it was when the hotkey went
/// away, and sends the peer where its own cursor is to wait.
pub proof fn law_mac_hotkeys_come_back_to_where_they_left(
    state: MacView,
    a: ActiveView,
    left_at: Point,
    targets: Seq<TargetView>,
    moment: Moment,
)
    requires
        state.active == Some(a),
        state.hotkey_return_point == Some(left_at),
    ensures
        ({
            let (after, plan) = state.switched_to(OutcomeView::Return, targets, moment);
            &&& after.active is None
            &&& !after.remote_active
            &&& after.hotkey_return_point is None
            &&& after.last_return == Some(moment.now)
            &&& after.keys.len() == 0 && after.modifiers.len() == 0 && after.buttons == 0
            &&& plan.to == Some(a.target)
            &&& plan.actions[0] == mac::ActionView::Send(park_event(a))
            &&& plan.actions.contains(mac::ActionView::MoveCursor(left_at))
            &&& plan.actions.contains(mac::ActionView::Decouple(false))
            &&& !after.cursor_hidden
        }),
{
    let (after, plan) = state.switched_to(OutcomeView::Return, targets, moment);
    let sent = mac::sends(seq![park_event(a)]);
    assert(sent[0] == mac::ActionView::Send(park_event(a)));
    assert(plan.actions[0] == sent[0]);
    let i = (sent + state.releasing()).len() as int;
    assert(plan.actions[i + 1] == mac::ActionView::MoveCursor(left_at));
    assert(plan.actions[i + 2] == mac::ActionView::Decouple(false));
}

/// A hotkey that goes to another machine sends it where its cursor stands, and
/// keeps where the local one was. Once the peer was reached it is controlled.
pub proof fn law_mac_hotkeys_enter_another_machine(
    state: MacView,
    a: ActiveView,
    targets: Seq<TargetView>,
    layout: LayoutState,
    moment: Moment,
)
    requires
        !a.invert_y,
    ensures
        ({
            let (asked, plan) = state.switched_to(OutcomeView::Enter(a), targets, moment);
            &&& asked == state
            &&& plan.to == Some(a.target)
            &&& plan.next matches mac::NextView::Await { event, pending }
            &&& event == move_event(a)
            &&& {
                let (taken, rest) = asked.resumed(pending, true, layout, moment);
                &&& taken.active == Some(a)
                &&& taken.remote_active
                &&& taken.hotkey_return_point == moment.cursor
                &&& taken.anchor == Some(return_point(a))
                &&& taken.cursor_hidden
                &&& rest.actions[0] == mac::ActionView::Decouple(true)
                &&& rest.actions.last() == mac::ActionView::MoveCursor(return_point(a))
            }
        }),
{
}

/// A hotkey that goes to another screen of this machine puts the cursor where
/// it last was there, and keeps in mind where it was here.
pub proof fn law_mac_hotkeys_go_to_another_screen(
    state: MacView,
    from: Seq<char>,
    to: Seq<char>,
    centre: Point,
    here: Point,
    targets: Seq<TargetView>,
    moment: Moment,
)
    requires
        from != to,
        moment.cursor == Some(here),
    ensures
        ({
            let (after, plan) = state.switched_to(
                OutcomeView::LocalMove { from_screen_id: from, to_screen_id: to, at: centre },
                targets,
                moment,
            );
            let known = state.points.dom().contains(to);
            let there = if known {
                state.points[to]
            } else {
                centre
            };
            &&& after.points[from] == here
            &&& known ==> after.points[to] == state.points[to]
            &&& !after.cursor_hidden
            &&& plan.to is None
            &&& plan.actions[0] == mac::ActionView::Decouple(false)
            &&& plan.actions[2] == mac::ActionView::MoveCursor(there)
        }),
        state.switched_to(OutcomeView::Noop, targets, moment).0 == state,
{
    let outcome = OutcomeView::LocalMove { from_screen_id: from, to_screen_id: to, at: centre };
    let (after, plan) = state.switched_to(outcome, targets, moment);
    assert((after, plan) == state.moved_locally(from, to, centre, Some(here)));
    assert(after.points == state.points.insert(from, here));
}

/// A crossing that is found with the rows as they are is taken so.
pub proof fn law_plain_crossings_come_first(
    targets: Seq<TargetView>,
    rows: Option<(int, int)>,
    p: Point,
    d: Point,
)
    requires
        crossing_from(targets, 0, p, d, false) is Some,
    ensures
        mac_crossing(targets, rows, p, d) == crossing_from(targets, 0, p, d, false),
{
    let found = crossing_from(targets, 0, p, d, false);
    assert(found == Some(found->0));
}

/// A position stays as it is where the rows run the same way, and is turned
/// back within the rows of the linked screens where they were turned round.
pub proof fn law_turned_positions_are_turned_back(
    targets: Seq<TargetView>,
    rows: Option<(int, int)>,
    p: Point,
)
    ensures
        cursor_point(p, false, targets, rows) == p,
        cursor_point(p, true, targets, rows).x == p.x,
        rows_of(targets, targets.len()) matches Some(span) ==> cursor_point(p, true, targets, rows)
            == (Point { x: p.x, y: mirrored(span, p.y) }),
{
    assert(cursor_point(p, false, targets, rows) == p);
}

// ---------------------------------------------------------------------------
// The end of a capture
// ---------------------------------------------------------------------------
/// A capture that ends controls nothing, holds nothing, and leaves the cursor
/// in sight.
pub proof fn law_windows_ends_with_the_cursor_in_sight(state: WindowsView)
    ensures
        ({
            let (after, plan) = state.ended();
            &&& after.active is None
            &&& !after.remote_active
            &&& after.clipboard_target is None
            &&& after.buttons == 0
            &&& after.keys.len() == 0
            &&& !after.cursor_hidden
            &&& state.cursor_hidden ==> plan.actions == seq![win::ActionView::ShowCursor]
            &&& !state.cursor_hidden ==> plan.actions.len() == 0
        }),
{
}

/// A capture that ends controls nothing, holds no button, and lets the cursor
/// follow the mouse again, in sight.
pub proof fn law_mac_ends_with_the_cursor_in_sight(state: MacView)
    ensures
        ({
            let (after, plan) = state.ended();
            &&& after.active is None
            &&& !after.remote_active
            &&& after.clipboard_target is None
            &&& after.buttons == 0
            &&& !after.cursor_hidden
            &&& plan.actions[0] == mac::ActionView::Decouple(false)
            &&& state.cursor_hidden ==> plan.actions.last() == (mac::ActionView::Show {
                times: state.hide_depth,
            })
        }),
{
}

/// A hotkey pressed while another machine is controlled gives it up: the
/// machine is sent a release of everything held, and the copies still go there.
pub proof fn law_windows_hotkeys_give_control_back(
    state: WindowsView,
    a: ActiveView,
    key_code: u16,
    modifiers: HotkeyModifiers,
    layout: LayoutState,
)
    requires
        state.active == Some(a),
        switches(layout, key_code, modifiers),
    ensures
        ({
            let (after, plan) = state.key_message(0x100, key_code, modifiers, layout);
            &&& after.active is None
            &&& !after.remote_active
            &&& after.buttons == 0 && after.keys.len() == 0
            &&& !after.cursor_hidden && !after.just_crossed
            &&& after.clipboard_target == state.clipboard_target
            &&& after.points == state.points
            &&& plan.to == Some(a.target)
            &&& plan.actions == win::sends(key_releases(state.keys)) + win::sends(
                button_releases(state.buttons),
            ) + (if state.cursor_hidden {
                seq![win::ActionView::ShowCursor]
            } else {
                Seq::empty()
            })
            &&& plan.next == (win::NextView::Done { swallowed: true })
        }),
{
}

// ---------------------------------------------------------------------------
// Gestures and modifiers on a Mac
// ---------------------------------------------------------------------------
/// The raw events that are caught are the system's own, the gestures of a
/// trackpad, and touches.
pub proof fn law_trackpad_gestures_are_caught(kind: u32)
    ensures
        mac::raw_gesture_types().contains(kind) <==> kind == 14 || 18 <= kind <= 20 || 29 <= kind
            <= 34 || kind == 37 || kind == 38,
{
    let kinds = mac::raw_gesture_types();
    assert(kinds.len() == 12);
    assert(kinds[0] == 14 && kinds[1] == 18 && kinds[2] == 19 && kinds[3] == 20);
    assert(kinds[4] == 29 && kinds[5] == 30 && kinds[6] == 31 && kinds[7] == 32);
    assert(kinds[8] == 33 && kinds[9] == 34 && kinds[10] == 37 && kinds[11] == 38);
}

/// While another machine is controlled a gesture does not reach this one, and
/// the cursor stays cut off from the mouse. Otherwise gestures pass.
pub proof fn law_gestures_stay_with_the_controlled_machine(
    state: MacView,
    kind: u32,
    moment: Moment,
)
    requires
        mac::raw_gesture_types().contains(kind),
    ensures
        ({
            let (after, plan) = state.gestured(kind, moment);
            &&& after.active == state.active
            &&& !after.tap_disabled || state.tap_disabled
            &&& state.remote_active ==> {
                &&& plan.next == (mac::NextView::Done { dropped: true })
                &&& plan.actions[0] == mac::ActionView::Decouple(true)
            }
            &&& !state.remote_active ==> {
                &&& after == state
                &&& plan.actions.len() == 0
                &&& plan.next == (mac::NextView::Done { dropped: false })
            }
        }),
{
    law_trackpad_gestures_are_caught(kind);
    law_a_controlled_mouse_stays_cut_off(state, moment);
    let guard = state.guarded(moment).1;
    assert(Seq::<mac::ActionView>::empty() + guard =~= guard);
}

/// Modifiers that change while nothing is controlled are kept in mind and left
/// to this machine.
pub proof fn law_modifiers_are_noted_at_home(
    state: MacView,
    mac_code: u16,
    flags: u64,
    targets: Seq<TargetView>,
    layout: LayoutState,
    moment: Moment,
)
    requires
        state.active is None,
    ensures
        ({
            let (after, plan) = state.handled(
                mac::MacEvent::FlagsChanged { mac_code, flags },
                targets,
                layout,
                moment,
            );
            &&& after == MacView { modifiers: mac::modifier_vks(flags), ..state }
            &&& plan.to is None && plan.actions.len() == 0
            &&& plan.next == (mac::NextView::Done { dropped: false })
        }),
{
}

// ---------------------------------------------------------------------------
// Control packets, the clipboard and the helper
// ---------------------------------------------------------------------------
/// A request for the secure attention sequence is carried out where it is in
/// its own protocol, its sender proves the pairing, and it is meant for this
/// machine; each thing that lacks is told from the others.
pub proof fn law_attention_requests_are_checked(
    layout: LayoutState,
    packet: InputControlPacket,
    local_id: Seq<char>,
)
    ensures
        ({
            let ours = packet.protocol@ == "mykvm.input-control.v1"@;
            let proven = control_authorized(layout, packet);
            let meant = meant_for_us(layout, packet.target_device_id@, local_id);
            let answer = control_received(layout, packet, local_id);
            &&& answer == Reception::SecureAttention <==> ours && proven && meant
            &&& answer == Reception::Ignored <==> ours && proven && !meant
            &&& answer == Reception::Unauthorized <==> ours && !proven
            &&& answer == Reception::NotOurs <==> !ours
        }),
{
}

/// Whoever controls this machine gets its copies: under the id that it gives,
/// at the address that its packet came from, with its own key and version.
pub proof fn law_copies_go_back_to_the_controller(
    before: Option<ClipboardTargetView>,
    layout: LayoutState,
    packet: InputPacket,
    source_ip: Seq<char>,
)
    requires
        packet.origin_port > 0,
        !blank(packet.origin_transport_public_key@),
        !blank(packet.origin_device_id@),
    ensures
        ({
            let after = refreshed_clipboard(before, layout, packet, source_ip);
            &&& after is Some
            &&& after->0.device_id == packet.origin_device_id@
            &&& after->0.transport_public_key == packet.origin_transport_public_key@
            &&& after->0.protocol_version == packet.origin_protocol_version
            &&& after != before ==> {
                &&& after->0.addr == address(source_ip, packet.origin_port)
                &&& after->0.cluster_id == layout.cluster_id@
                &&& after->0.pair_secret == layout.pair_secret@
                &&& after->0.expires_at is None
            }
        }),
{
}

/// A sender without a port or a key is sent no copies.
pub proof fn law_a_nameless_controller_gets_no_copies(
    before: Option<ClipboardTargetView>,
    layout: LayoutState,
    packet: InputPacket,
    source_ip: Seq<char>,
)
    requires
        packet.origin_port == 0 || blank(packet.origin_transport_public_key@),
    ensures
        refreshed_clipboard(before, layout, packet, source_ip) == before,
{
}

/// The secure attention sequence is refused for a device exactly where it is
/// not a remote Windows machine that is online, ready, keyed and paired with
/// this one.
pub proof fn law_attention_goes_to_paired_windows_machines(
    layout: LayoutState,
    device_id: Seq<char>,
    i: int,
)
    requires
        0 <= i < layout.devices@.len(),
        layout.devices@[i].id@ == device_id,
        layout.devices@[i].role@ != "local"@,
        forall|j: int| 0 <= j < i ==> (#[trigger] layout.devices@[j]).id@ != device_id,
    ensures
        ({
            let device = layout.devices@[i];
            attention_refusal(layout, device_id) is None <==> device.platform@ == "windows"@
                && device.online && device.input_ready && !blank(device.transport_public_key@)
                && !blank(layout.cluster_id@) && !blank(layout.pair_secret@)
        }),
{
    lemma_first_is(layout.devices@, remote_as(device_id), i);
}

/// No device, no secure attention sequence.
pub proof fn law_attention_needs_a_device(layout: LayoutState, device_id: Seq<char>)
    requires
        forall|i: int|
            0 <= i < layout.devices@.len() ==> (#[trigger] layout.devices@[i]).id@ != device_id
                || layout.devices@[i].role@ == "local"@,
    ensures
        attention_refusal(layout, device_id) is Some,
{
    lemma_first(layout.devices@, remote_as(device_id));
}

/// The helper is asked for the secure attention sequence always, and for other
/// input only away from the user's own desktop. A pipe that is open is written
/// to, one that is closed is opened again once its time came.
pub proof fn law_the_helper_is_asked_where_it_is_needed(
    command: InputCommand,
    pipe: HelperPipe,
    now: u64,
)
    ensures
        needs_helper(command, false),
        command is SecureAttention ==> needs_helper(command, true),
        !(command is SecureAttention) ==> !needs_helper(command, true),
        pipe.open <==> pipe.first_step(now) == PipeStep::Write,
        !pipe.open && now >= pipe.retry_after <==> pipe.first_step(now) == PipeStep::Open,
        !pipe.open && now < pipe.retry_after <==> pipe.first_step(now) == PipeStep::CoolingDown,
{
}

} // verus!
