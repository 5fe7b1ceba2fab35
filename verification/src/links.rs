//! What a link leads to, end by end.
//!
//! A link names two ends: a device, a screen of it, a side and a stretch. From
//! the machine at one end it leads to the other, whichever of the two was drawn
//! first.

use crate::edge::{touching, Edge, EdgeSpan};
use crate::landing::forward;
use crate::layout::{local_device_of, Device, LayoutState, LinkView, Screen};
use crate::meeting::{
    alongside, law_drawn_stretches_are_kept, law_overlapping_screens_share_a_pixel,
    law_screens_touch_where_they_stand_side_by_side,
    law_shared_stretches_are_where_both_screens_are, marks, stands_at,
};
use crate::landing::{side_length, side_start};
use crate::directions::law_screens_are_found_by_their_id;
use crate::platform::{native_form, Platform};
use crate::seqs::{first, lemma_first};
use crate::targets::{
    implied_link, implied_links, links_in_force, links_of_device, links_of_devices,
    links_of_screen, native_screen_of, reachable_as, reachable_device, refreshed, target_of_link,
    targets_of, targets_of_links, TargetView,
};
use crate::text::{blank, decimal};
use crate::transport::PROTOCOL_VERSION;
use vstd::prelude::*;

verus! {

/// The side that faces another across the gap between two screens.
pub open spec fn across(edge: Edge) -> Edge {
    match edge {
        Edge::Left => Edge::Right,
        Edge::Right => Edge::Left,
        Edge::Top => Edge::Bottom,
        Edge::Bottom => Edge::Top,
    }
}

/// A link with its ends written the other way round.
pub open spec fn turned(link: LinkView) -> LinkView {
    LinkView { id: link.id, a: link.b, b: link.a }
}

/// It does not matter which end of a link was drawn first.
pub proof fn law_links_lead_both_ways(
    layout: LayoutState,
    native_layout: LayoutState,
    origin_id: Seq<char>,
    platform: Platform,
    own: Device,
    link: LinkView,
)
    ensures
        target_of_link(layout, native_layout, origin_id, platform, own, turned(link))
            == target_of_link(layout, native_layout, origin_id, platform, own, link),
{
}

/// Whether a device of the layout can be sent input: another machine, online,
/// ready, of this version, with a key.
pub open spec fn can_be_sent_input(device: Device) -> bool {
    &&& device.role@ != "local"@
    &&& device.online
    &&& device.input_ready
    &&& device.protocol_version == PROTOCOL_VERSION
    &&& !blank(device.transport_public_key@)
}

/// What a target that a link leads to is: the local end's screen, side and
/// stretch here, the remote end's there, and the address, the system and the key
/// of the device at the remote end.
pub proof fn law_a_link_leads_from_end_to_end(
    layout: LayoutState,
    native_layout: LayoutState,
    origin_id: Seq<char>,
    platform: Platform,
    own: Device,
    link: LinkView,
)
    requires
        link.a.device_id == own.id@,
    ensures
        target_of_link(layout, native_layout, origin_id, platform, own, link) matches Some(t) ==> {
            let (here, there) = (link.a, link.b);
            &&& there.device_id != own.id@
            &&& Edge::named(here.side) == Some(t.edge)
            &&& Edge::named(there.side) == Some(t.remote_edge)
            &&& own.screens@.contains(t.layout_local_screen)
            &&& t.layout_local_screen.id@ == here.screen_id
            &&& t.remote_screen.id@ == there.screen_id
            &&& t.local_screen == native_screen_of(native_layout, platform, t.layout_local_screen)
            &&& t.device_id == there.device_id
            &&& t.origin_device_id == origin_id
            &&& t.cluster_id == layout.cluster_id@
            &&& t.pair_secret == layout.pair_secret@
            &&& exists|d: int|
                {
                    &&& 0 <= d < layout.devices@.len()
                    &&& #[trigger] layout.devices@[d].id@ == there.device_id
                    &&& can_be_sent_input(layout.devices@[d])
                    &&& layout.devices@[d].screens@.contains(t.remote_screen)
                    &&& t.target_platform == layout.devices@[d].platform@
                    &&& t.transport_public_key == layout.devices@[d].transport_public_key@
                    &&& t.target_addr == layout.devices@[d].host@ + ":"@ + decimal(
                        if layout.devices@[d].quic_port == 0 {
                            layout.devices@[d].transport_port as nat
                        } else {
                            layout.devices@[d].quic_port as nat
                        },
                    )
                }
            &&& forward(EdgeSpan { start: here.start, end: here.end }) ==> {
                &&& t.local_span.start.value() == here.start.value()
                &&& t.local_span.end.value() == here.end.value()
            }
            &&& forward(EdgeSpan { start: there.start, end: there.end }) ==> {
                &&& t.remote_span.start.value() == there.start.value()
                &&& t.remote_span.end.value() == there.end.value()
            }
        },
{
    let (here, there) = (link.a, link.b);
    match target_of_link(layout, native_layout, origin_id, platform, own, link) {
        Some(t) => {
            lemma_first(layout.devices@, reachable_as(there.device_id));
            let device = reachable_device(layout, there.device_id)->0;
            let d = choose|d: int|
                0 <= d < layout.devices@.len() && #[trigger] layout.devices@[d] == device;
            law_screens_are_found_by_their_id(own.screens@, here.screen_id);
            law_screens_are_found_by_their_id(device.screens@, there.screen_id);
            assert(layout.devices@[d].id@ == there.device_id);
            if forward(EdgeSpan { start: here.start, end: here.end }) {
                law_drawn_stretches_are_kept(here.start, here.end);
            }
            if forward(EdgeSpan { start: there.start, end: there.end }) {
                law_drawn_stretches_are_kept(there.start, there.end);
            }
        },
        None => {},
    }
}

/// A link between a side of a screen of this machine and a side of a screen of
/// one that can be sent input leads somewhere.
pub proof fn law_a_sound_link_leads_somewhere(
    layout: LayoutState,
    native_layout: LayoutState,
    origin_id: Seq<char>,
    platform: Platform,
    own: Device,
    link: LinkView,
    d: int,
    screen: int,
    i: int,
)
    requires
        link.a.device_id == own.id@,
        link.b.device_id != own.id@,
        Edge::named(link.a.side) is Some,
        Edge::named(link.b.side) is Some,
        0 <= screen < own.screens@.len(),
        own.screens@[screen].id@ == link.a.screen_id,
        0 <= d < layout.devices@.len(),
        layout.devices@[d].id@ == link.b.device_id,
        can_be_sent_input(layout.devices@[d]),
        forall|j: int|
            0 <= j < layout.devices@.len() && j != d ==> (#[trigger] layout.devices@[j]).id@
                != link.b.device_id,
        0 <= i < layout.devices@[d].screens@.len(),
        layout.devices@[d].screens@[i].id@ == link.b.screen_id,
    ensures
        target_of_link(layout, native_layout, origin_id, platform, own, link) is Some,
{
    let test = reachable_as(link.b.device_id);
    lemma_first(layout.devices@, test);
    assert(test(layout.devices@[d]));
    law_screens_are_found_by_their_id(own.screens@, link.a.screen_id);
    law_screens_are_found_by_their_id(layout.devices@[d].screens@, link.b.screen_id);
}

/// The targets are those that the links lead to, each link's in its turn.
pub proof fn law_every_link_gives_its_target(
    layout: LayoutState,
    native_layout: LayoutState,
    origin_id: Seq<char>,
    platform: Platform,
    own: Device,
    links: Seq<LinkView>,
    n: nat,
    target: TargetView,
)
    requires
        n <= links.len(),
    ensures
        targets_of_links(layout, native_layout, origin_id, platform, own, links, n).contains(target)
            <==> exists|i: int|
            0 <= i < n && target_of_link(
                layout,
                native_layout,
                origin_id,
                platform,
                own,
                #[trigger] links[i],
            ) == Some(target),
    decreases n,
{
    if n > 0 {
        let m = (n - 1) as nat;
        law_every_link_gives_its_target(
            layout,
            native_layout,
            origin_id,
            platform,
            own,
            links,
            m,
            target,
        );
        let before = targets_of_links(layout, native_layout, origin_id, platform, own, links, m);
        let all = targets_of_links(layout, native_layout, origin_id, platform, own, links, n);
        let last = target_of_link(layout, native_layout, origin_id, platform, own, links[n - 1]);
        match last {
            Some(t) => {
                assert(all == before.push(t));
                assert(all[before.len() as int] == t);
                if before.contains(target) {
                    let i = choose|i: int| 0 <= i < before.len() && before[i] == target;
                    assert(all[i] == target);
                }
                if all.contains(target) {
                    let i = choose|i: int| 0 <= i < all.len() && all[i] == target;
                    if i < before.len() {
                        assert(before[i] == target);
                    }
                }
            },
            None => {},
        }
    }
}

// ---------------------------------------------------------------------------
// Links that the arrangement implies
// ---------------------------------------------------------------------------
/// A link that the arrangement implies joins the side of the local screen at
/// which the remote one stands with the side that faces it, over the stretch
/// that both share. There is one exactly where the screens stand side by side
/// and have no pixel in common.
pub proof fn law_implied_links_join_the_sides_that_meet(
    local_device_id: Seq<char>,
    local: Screen,
    device_id: Seq<char>,
    remote: Screen,
)
    requires
        local.rect().has_area(),
        remote.rect().has_area(),
    ensures
        match implied_link(local_device_id, local, device_id, remote) {
            Some(link) => {
                &&& link.a.device_id == local_device_id
                &&& link.a.screen_id == local.id@
                &&& link.b.device_id == device_id
                &&& link.b.screen_id == remote.id@
                &&& exists|edge: Edge|
                    {
                        let a = side_start(local.rect(), edge);
                        let b = side_start(remote.rect(), edge);
                        let a_end = a + side_length(local.rect(), edge);
                        let b_end = b + side_length(remote.rect(), edge);
                        let from = if a > b {
                            a
                        } else {
                            b
                        };
                        let to = if a_end < b_end {
                            a_end
                        } else {
                            b_end
                        };
                        &&& #[trigger] stands_at(local.rect(), remote.rect(), edge)
                        &&& link.a.side == edge.side()
                        &&& link.b.side == across(edge).side()
                        &&& marks(local.rect(), edge, link.a.start, from)
                        &&& marks(local.rect(), edge, link.a.end, to)
                        &&& marks(remote.rect(), edge, link.b.start, from)
                        &&& marks(remote.rect(), edge, link.b.end, to)
                    }
                &&& forall|x: int, y: int|
                    !(#[trigger] crate::meeting::covers_pixel(local.rect(), x, y)
                        && crate::meeting::covers_pixel(remote.rect(), x, y))
            },
            None => {
                ||| exists|x: int, y: int| #[trigger]
                    crate::meeting::covers_pixel(local.rect(), x, y)
                        && crate::meeting::covers_pixel(remote.rect(), x, y)
                ||| forall|edge: Edge| !(#[trigger] stands_at(local.rect(), remote.rect(), edge))
            },
        },
{
    let (l, r) = (local.rect(), remote.rect());
    law_overlapping_screens_share_a_pixel(l, r);
    assert forall|edge: Edge| #[trigger] stands_at(l, r, edge) implies touching(l, r) is Some by {
        law_screens_touch_where_they_stand_side_by_side(l, r, edge);
    }
    match touching(l, r) {
        Some(edge) => {
            law_screens_touch_where_they_stand_side_by_side(l, r, edge);
            law_shared_stretches_are_where_both_screens_are(l, r, edge);
            assert(stands_at(l, r, edge));
            let from = choose|from: int| #[trigger] alongside(l, r, edge, from, 81);
            assert(alongside(l, r, edge, from, 1));
        },
        None => {},
    }
}

/// The arrangement implies a link for every pair of a screen of this machine and
/// a screen of another that implies one, and no other.
pub proof fn law_every_meeting_pair_is_linked(own: Device, devices: Seq<Device>, n: nat, link: LinkView)
    requires
        n <= devices.len(),
    ensures
        links_of_devices(own, devices, n).contains(link) <==> exists|d: int, i: int, j: int|
            0 <= d < n && devices[d].role@ != "local"@ && 0 <= i < own.screens@.len() && 0 <= j
                < devices[d].screens@.len() && #[trigger] pair_link(own, devices[d], i, j) == Some(
                link,
            ),
    decreases n,
{
    if n > 0 {
        law_every_meeting_pair_is_linked(own, devices, (n - 1) as nat, link);
        let device = devices[n - 1];
        let before = links_of_devices(own, devices, (n - 1) as nat);
        let more = links_of_device(own, device, own.screens@.len());
        lemma_links_of_device(own, device, own.screens@.len(), link);
        if device.role@ != "local"@ {
            lemma_contains_either(before, more, link);
            if more.contains(link) {
                let (i, j) = choose|i: int, j: int|
                    0 <= i < own.screens@.len() && 0 <= j < device.screens@.len()
                        && #[trigger] pair_link(own, device, i, j) == Some(link);
                assert(pair_link(own, devices[n - 1], i, j) == Some(link));
            }
        }
    }
}

/// The link that two screens of different devices imply.
pub open spec fn pair_link(own: Device, device: Device, i: int, j: int) -> Option<LinkView> {
    implied_link(own.id@, own.screens@[i], device.id@, device.screens@[j])
}

proof fn lemma_contains_either<T>(a: Seq<T>, b: Seq<T>, x: T)
    ensures
        (a + b).contains(x) <==> a.contains(x) || b.contains(x),
{
    if a.contains(x) {
        let i = choose|i: int| 0 <= i < a.len() && a[i] == x;
        assert((a + b)[i] == x);
    }
    if b.contains(x) {
        let i = choose|i: int| 0 <= i < b.len() && b[i] == x;
        assert((a + b)[a.len() + i] == x);
    }
}

proof fn lemma_links_of_device(own: Device, device: Device, n: nat, link: LinkView)
    requires
        n <= own.screens@.len(),
    ensures
        links_of_device(own, device, n).contains(link) <==> exists|i: int, j: int|
            0 <= i < n && 0 <= j < device.screens@.len() && #[trigger] pair_link(own, device, i, j)
                == Some(link),
    decreases n,
{
    if n > 0 {
        lemma_links_of_device(own, device, (n - 1) as nat, link);
        let before = links_of_device(own, device, (n - 1) as nat);
        let more = links_of_screen(own.id@, own.screens@[n - 1], device, device.screens@.len());
        lemma_links_of_screen(own, device, n - 1, device.screens@.len(), link);
        lemma_contains_either(before, more, link);
        if more.contains(link) {
            let j = choose|j: int|
                0 <= j < device.screens@.len() && #[trigger] pair_link(own, device, n - 1, j)
                    == Some(link);
            assert(pair_link(own, device, n - 1, j) == Some(link));
        }
    }
}

proof fn lemma_links_of_screen(own: Device, device: Device, i: int, n: nat, link: LinkView)
    requires
        0 <= i < own.screens@.len(),
        n <= device.screens@.len(),
    ensures
        links_of_screen(own.id@, own.screens@[i], device, n).contains(link) <==> exists|j: int|
            0 <= j < n && #[trigger] pair_link(own, device, i, j) == Some(link),
    decreases n,
{
    if n > 0 {
        lemma_links_of_screen(own, device, i, (n - 1) as nat, link);
        let before = links_of_screen(own.id@, own.screens@[i], device, (n - 1) as nat);
        let all = links_of_screen(own.id@, own.screens@[i], device, n);
        let last = pair_link(own, device, i, n - 1);
        match last {
            Some(t) => {
                assert(all == before.push(t));
                assert(all =~= before + seq![t]);
                lemma_contains_either(before, seq![t], link);
                assert(seq![t].contains(link) <==> t == link) by {
                    assert(seq![t][0] == t);
                }
            },
            None => {},
        }
    }
}

/// What the user drew is what is in force, down to nothing at all; only a layout
/// in which nothing was ever drawn is linked by its arrangement.
pub proof fn law_drawn_links_are_in_force(layout: LayoutState)
    ensures
        layout.edge_links matches Some(links) ==> links_in_force(layout).len() == links@.len()
            && forall|i: int|
            0 <= i < links@.len() ==> #[trigger] links_in_force(layout)[i] == links@[i]@,
        layout.edge_links is None ==> links_in_force(layout) == implied_links(layout),
{
}

// ---------------------------------------------------------------------------
// Native screens and the cache
// ---------------------------------------------------------------------------
/// A screen of the layout stands for the native one of its own id, wherever the
/// machine has one.
pub proof fn law_native_screens_go_by_the_same_id(
    native_layout: LayoutState,
    platform: Platform,
    screen: Screen,
)
    ensures
        native_screen_of(native_layout, platform, screen).id@ == screen.id@,
        local_device_of(native_layout) matches Some(device) ==> forall|i: int|
            0 <= i < device.screens@.len() && (#[trigger] device.screens@[i]).id@ == screen.id@
                ==> exists|k: int|
                0 <= k <= i && native_screen_of(native_layout, platform, screen) == native_form(
                    platform,
                    #[trigger] device.screens@[k],
                ),
{
    match local_device_of(native_layout) {
        Some(device) => {
            law_screens_are_found_by_their_id(device.screens@, screen.id@);
        },
        None => {},
    }
}

/// Targets are used for a quarter of a second, and built anew from the layout
/// after that; while the layout is busy those at hand stay.
pub proof fn law_targets_are_built_anew_four_times_a_second(
    built_at: u64,
    targets: Seq<TargetView>,
    layout: Option<&LayoutState>,
    native_layout: LayoutState,
    origin_id: Seq<char>,
    platform: Platform,
    now: u64,
)
    ensures
        ({
            let r = refreshed(
                Some(built_at),
                targets,
                layout,
                native_layout,
                origin_id,
                platform,
                now,
            );
            &&& now - built_at < 250_000_000 || layout is None ==> r == (Some(built_at), targets)
            &&& now - built_at >= 250_000_000 && layout is Some ==> r == (
                Some(now),
                targets_of(*layout->0, native_layout, origin_id, platform),
            )
        }),
{
}

} // verus!
