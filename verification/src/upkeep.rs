//! What keeps a running capture in order: the barriers that are armed, the
//! devices of a compositor that come and go, the cursor that is held in place,
//! and the peers and targets that drop out.

use crate::active::ActiveView;
use crate::addresses::AddressRank;
use crate::clipboard_target::{expired, ClipboardTarget};
use crate::credentials::{one_more, taken_for_offline};
use crate::double::Double;
use crate::edge::{Edge, Point};
use crate::interfaces::{best_first, pinned_name, CandidateView};
use crate::layout::{local_device_of, Device, LayoutState, Screen};
use crate::linux_capture::{
    capture_begun, edges_fit, law_barriers_are_numbered, planned, segment, LinuxStartView, LinuxView,
};
use crate::linux_inject::{
    devices_after, next_number, with_resumed, DeviceChange, EisDevice, Interfaces,
};
use crate::linux_input::{next_generation, unheard, with_ids, BarrierSpec, CaptureEvent, Reaction};
use crate::macos_capture as mac;
use crate::macos_capture::{drifted, due_again, MacView, Moment};
use crate::targets::TargetView;
use crate::text::{blank, trimmed};
use vstd::prelude::*;

verus! {

// ---------------------------------------------------------------------------
// Barriers
// ---------------------------------------------------------------------------
/// Whether an armed barrier stands for a target: it lies along the side of the
/// local screen that the target is reached over, and that side and screen are
/// what its number is known for.
pub open spec fn armed_for(
    barrier: BarrierSpec,
    edge: (u32, Seq<char>, Edge),
    target: TargetView,
) -> bool {
    &&& barrier.id == edge.0
    &&& (barrier.x1 as int, barrier.y1 as int, barrier.x2 as int, barrier.y2 as int) == segment(
        target.local_screen.rect(),
        target.edge,
    )
    &&& edge.1 == target.layout_local_screen.id@
    &&& edge.2 == target.edge
}

/// Every barrier that is armed stands for one of the targets.
pub proof fn law_barriers_stand_for_targets(
    targets: Seq<TargetView>,
    local_screens: Seq<Screen>,
    n: nat,
    i: int,
) -> (k: int)
    requires
        n <= targets.len() < u32::MAX,
        forall|k: int|
            0 <= k < targets.len() ==> edges_fit((#[trigger] targets[k]).local_screen.rect()),
        0 <= i < planned(targets, local_screens, n).barriers.len(),
    ensures
        0 <= k < n,
        planned(targets, local_screens, n).edges.len() == planned(
            targets,
            local_screens,
            n,
        ).barriers.len() <= n,
        armed_for(
            planned(targets, local_screens, n).barriers[i],
            planned(targets, local_screens, n).edges[i],
            targets[k],
        ),
    decreases n,
{
    law_barriers_are_numbered(targets, local_screens, n);
    law_barriers_are_numbered(targets, local_screens, (n - 1) as nat);
    let before = planned(targets, local_screens, (n - 1) as nat);
    let plan = planned(targets, local_screens, n);
    if i < before.barriers.len() {
        let k = law_barriers_stand_for_targets(targets, local_screens, (n - 1) as nat, i);
        assert(plan.barriers[i] == before.barriers[i]);
        assert(plan.edges[i] == before.edges[i]);
        k
    } else {
        let target = targets[n - 1];
        assert(edges_fit(target.local_screen.rect()));
        n - 1
    }
}

/// A capture whose session failed says why; one with no target idles; every
/// other arms the barriers of its targets around the machine's own screens.
pub proof fn law_a_capture_arms_its_own_screens(
    session: Result<(), String>,
    targets: Seq<TargetView>,
    native_layout: LayoutState,
)
    ensures
        ({
            let start = capture_begun(session, targets, native_layout);
            let screens = match local_device_of(native_layout) {
                Some(device) => device.screens@,
                None => Seq::empty(),
            };
            &&& session matches Err(reason) ==> start == LinuxStartView::Failed(
                ("error"@, reason@),
            )
            &&& session is Ok && targets.len() == 0 ==> start is Idle
            &&& session is Ok && targets.len() > 0 ==> start == LinuxStartView::Arm(
                planned(targets, screens, targets.len()),
            )
        }),
{
}

/// A capture that is called off, or whose cursor left over a link, controls
/// nothing any more.
pub proof fn law_an_ended_capture_controls_nothing(
    state: LinuxView,
    a: ActiveView,
    dx: Double,
    dy: Double,
    targets: Seq<TargetView>,
    edges: Seq<(u32, Seq<char>, Edge)>,
    layout: LayoutState,
)
    requires
        state.active == Some(a),
    ensures
        ({
            let (after, step) = state.handled(CaptureEvent::Deactivated, targets, edges, layout);
            &&& after.active is None
            &&& !after.remote_active
            &&& after.clipboard_target is None
            &&& step.send is None
            &&& step.reaction == Reaction::Continue
        }),
        ({
            let (after, step) = state.handled(
                CaptureEvent::Motion { dx, dy },
                targets,
                edges,
                layout,
            );
            step.reaction is Release ==> {
                &&& after.active is None
                &&& !after.remote_active
                &&& after.clipboard_target is None
                &&& step.send is None
            }
        }),
{
}

/// Of the barriers that a portal was given, those count that it numbered.
pub proof fn law_numbered_barriers_are_kept(barriers: Seq<BarrierSpec>, barrier: BarrierSpec)
    ensures
        with_ids(barriers).contains(barrier) <==> barriers.contains(barrier) && barrier.id != 0,
        with_ids(barriers).len() <= barriers.len(),
{
    let numbered = |barrier: BarrierSpec| barrier.id != 0;
    barriers.lemma_filter_len(numbered);
    if with_ids(barriers).contains(barrier) {
        let k = choose|k: int| 0 <= k < with_ids(barriers).len() && with_ids(barriers)[k] == barrier;
        barriers.lemma_filter_pred(numbered, k);
        barriers.lemma_filter_contains_rev(numbered, barrier);
    }
    if barriers.contains(barrier) && barrier.id != 0 {
        let k = choose|k: int| 0 <= k < barriers.len() && barriers[k] == barrier;
        barriers.lemma_filter_contains(numbered, k);
    }
}

/// Where nobody listens, a cursor that a barrier caught is handed back right
/// where it was caught.
pub proof fn law_an_unheard_cursor_is_handed_back(event: CaptureEvent)
    ensures
        match event {
            CaptureEvent::Activated { x, y, .. } => unheard(event) == (Reaction::Release { x, y }),
            _ => unheard(event) == Reaction::Continue,
        },
{
}

/// Running numbers go up by one and begin again at zero after the last one.
pub proof fn law_running_numbers_go_up_by_one(n: u32, generation: u64, events: u64)
    ensures
        next_number(n) == (n + 1) % 0x1_0000_0000,
        next_generation(generation) == (generation + 1) % 0x1_0000_0000_0000_0000,
        one_more(events) == (events + 1) % 0x1_0000_0000_0000_0000,
{
}

// ---------------------------------------------------------------------------
// The devices of a compositor
// ---------------------------------------------------------------------------
/// A device that a compositor adds comes last and waits; the others stay as
/// they are.
pub proof fn law_a_new_device_waits(devices: Seq<EisDevice>, id: u64, interfaces: Interfaces)
    ensures
        ({
            let after = devices_after(devices, DeviceChange::Added { id, interfaces });
            &&& after.len() == devices.len() + 1
            &&& after.drop_last() == devices
            &&& after.last().id == id
            &&& after.last().interfaces == interfaces
            &&& !after.last().resumed
            &&& !after.last().emulating
        }),
{
    let after = devices_after(devices, DeviceChange::Added { id, interfaces });
    assert(after.drop_last() =~= devices);
}

/// A device that a compositor takes away is gone, and every other one stays.
pub proof fn law_a_removed_device_is_gone(devices: Seq<EisDevice>, id: u64, device: EisDevice)
    ensures
        devices_after(devices, DeviceChange::Removed { id }).contains(device)
            <==> devices.contains(device) && device.id != id,
{
    let others = |device: EisDevice| device.id != id;
    let after = devices.filter(others);
    if after.contains(device) {
        let k = choose|k: int| 0 <= k < after.len() && after[k] == device;
        devices.lemma_filter_pred(others, k);
        devices.lemma_filter_contains_rev(others, device);
    }
    if devices.contains(device) && device.id != id {
        let k = choose|k: int| 0 <= k < devices.len() && devices[k] == device;
        devices.lemma_filter_contains(others, k);
    }
}

/// A device that a compositor resumes takes events, one that it pauses takes
/// none, and either has to be announced anew. No other device changes.
pub proof fn law_resuming_and_pausing_touch_one_device(
    devices: Seq<EisDevice>,
    id: u64,
    resumed: bool,
    i: int,
)
    requires
        0 <= i < devices.len(),
        forall|j: int| 0 <= j < i ==> (#[trigger] devices[j]).id != id,
    ensures
        ({
            let after = devices_after(
                devices,
                if resumed {
                    DeviceChange::Resumed { id }
                } else {
                    DeviceChange::Paused { id }
                },
            );
            &&& after.len() == devices.len()
            &&& devices[i].id != id ==> after[i] == devices[i]
            &&& devices[i].id == id ==> {
                &&& after[i] == (EisDevice { resumed, emulating: false, ..devices[i] })
                &&& forall|j: int| 0 <= j < devices.len() && j != i ==> after[j] == #[trigger] devices[j]
            }
        }),
    decreases devices.len(),
{
    if devices[0].id != id {
        let rest = devices.drop_first();
        let tail = with_resumed(rest, id, resumed);
        let after = with_resumed(devices, id, resumed);
        assert(after == seq![devices[0]] + tail);
        if i > 0 {
            assert forall|j: int| 0 <= j < i - 1 implies (#[trigger] rest[j]).id != id by {
                assert(rest[j] == devices[j + 1]);
            }
            law_resuming_and_pausing_touch_one_device(rest, id, resumed, i - 1);
            assert(rest[i - 1] == devices[i]);
            assert(after[i] == tail[i - 1]);
            if devices[i].id == id {
                assert forall|j: int| 0 <= j < devices.len() && j != i implies after[j]
                    == #[trigger] devices[j] by {
                    if j > 0 {
                        assert(rest[j - 1] == devices[j]);
                        assert(after[j] == tail[j - 1]);
                    }
                }
            }
        } else {
            lemma_resumed_length(rest, id, resumed);
        }
    }
}

proof fn lemma_resumed_length(devices: Seq<EisDevice>, id: u64, resumed: bool)
    ensures
        with_resumed(devices, id, resumed).len() == devices.len(),
    decreases devices.len(),
{
    if devices.len() > 0 && devices[0].id != id {
        lemma_resumed_length(devices.drop_first(), id, resumed);
    }
}

// ---------------------------------------------------------------------------
// The held cursor
// ---------------------------------------------------------------------------
/// A cursor that drifted from its anchor is cut off from the mouse and put
/// back, as often as that may be done; one that did not drift is left alone.
pub proof fn law_a_drifted_cursor_is_put_back(
    state: MacView,
    anchor: Point,
    location: Point,
    now: u64,
)
    requires
        state.anchor == Some(anchor),
    ensures
        ({
            let (after, actions, moved) = state.repinned(location, now);
            let due = due_again(state.last_repin, now, mac::REPIN_INTERVAL);
            &&& drifted(anchor, location) && due ==> {
                &&& moved
                &&& actions.last() == mac::ActionView::MoveCursor(anchor)
                &&& actions[0] == mac::ActionView::Decouple(true)
                &&& after.last_repin == Some(now)
            }
            &&& !drifted(anchor, location) || !due ==> {
                &&& !moved
                &&& actions.len() == 0
                &&& after == state
            }
            &&& after.active == state.active
            &&& after.cursor_hidden == state.cursor_hidden
        }),
{
}

/// A hidden cursor is hidden again now and then, and counted each time, so that
/// it can be shown as often as it was hidden. A cursor in sight stays so.
pub proof fn law_a_hidden_cursor_stays_hidden(state: MacView, blank_now: bool, now: u64)
    ensures
        ({
            let (after, actions) = state.reasserted(blank_now, now);
            let due = due_again(state.last_reassert, now, mac::HIDE_REASSERT_INTERVAL);
            &&& after.cursor_hidden == state.cursor_hidden
            &&& state.cursor_hidden && due ==> {
                &&& actions.last() == mac::ActionView::Hide
                &&& after.last_reassert == Some(now)
                &&& state.hide_depth < u64::MAX ==> after.hide_depth == state.hide_depth + 1
            }
            &&& !state.cursor_hidden ==> after == state && actions.len() == 0
            &&& state.cursor_hidden && !due ==> after == state
        }),
        ({
            let (hidden, actions) = state.hid();
            &&& hidden.cursor_hidden
            &&& !state.cursor_hidden ==> actions.contains(mac::ActionView::Hide)
            &&& !state.cursor_hidden && state.hide_depth < u64::MAX ==> hidden.hide_depth
                == state.hide_depth + 1
            &&& state.cursor_hidden ==> hidden == state && actions.len() == 0
        }),
{
    if !state.cursor_hidden {
        assert(state.hid().1[1] == mac::ActionView::Hide);
    }
}

/// While another machine is controlled, whatever the mouse does starts with
/// cutting the cursor off from it again.
pub proof fn law_a_controlled_mouse_stays_cut_off(state: MacView, moment: Moment)
    ensures
        ({
            let (after, actions) = state.guarded(moment);
            &&& actions.len() > 0
            &&& actions[0] == mac::ActionView::Decouple(true)
            &&& after.active == state.active
            &&& after.anchor == state.anchor
            &&& after.cursor_hidden == state.cursor_hidden
        }),
{
}

// ---------------------------------------------------------------------------
// What drops out
// ---------------------------------------------------------------------------
/// A clipboard target without an end lasts, and one with an end lasts until
/// then.
pub proof fn law_a_clipboard_target_lasts_until_its_end(target: ClipboardTarget, now: u64)
    ensures
        target.expires_at is None ==> !expired(target, now),
        target.expires_at matches Some(end) ==> (now < end <==> !expired(target, now)),
{
}

/// A device that is taken for offline is so in the layout, and nothing else of
/// the layout changes.
pub proof fn law_a_lost_device_is_offline(
    before: LayoutState,
    id: Seq<char>,
    after: LayoutState,
    i: int,
)
    requires
        taken_for_offline(before, id, after),
        0 <= i < before.devices@.len(),
        forall|j: int| 0 <= j < i ==> (#[trigger] before.devices@[j]).id@ != id,
    ensures
        after.devices@.len() == before.devices@.len(),
        before.devices@[i].id@ == id ==> after.devices@[i] == (Device {
            online: false,
            ..before.devices@[i]
        }),
        before.devices@[i].id@ != id ==> after.devices@[i] == before.devices@[i],
        after.input_mode == before.input_mode,
        after.cluster_id == before.cluster_id,
{
}

/// The interface that is pinned is the one that was named, without the white
/// space around the name. A blank name pins none.
pub proof fn law_a_blank_name_pins_nothing(name: Seq<char>)
    ensures
        blank(name) ==> pinned_name(Some(name)) is None,
        !blank(name) ==> pinned_name(Some(name)) == Some(trimmed(name)),
        pinned_name(None) is None,
{
}

/// Of two addresses the one of the better rank is listed first, and of two of
/// one rank the lower one.
pub proof fn law_better_interfaces_are_listed_first(x: CandidateView, y: CandidateView)
    ensures
        x.rank == AddressRank::Lan && y.rank != AddressRank::Lan ==> best_first()(x, y)
            && !best_first()(y, x),
        x.rank == AddressRank::Routable && (y.rank == AddressRank::Virtual || y.rank
            == AddressRank::Tunnel) ==> best_first()(x, y) && !best_first()(y, x),
        x.rank == AddressRank::Virtual && y.rank == AddressRank::Tunnel ==> best_first()(x, y)
            && !best_first()(y, x),
        x.rank == y.rank && x.address.number() < y.address.number() ==> best_first()(x, y)
            && !best_first()(y, x),
{
}

} // verus!
