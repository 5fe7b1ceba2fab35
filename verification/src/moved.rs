//! Screens that move.
//!
//! Where no link was drawn, a screen that moves takes links with it: some go,
//! some come, some cover another stretch. Whatever becomes of them, a screen
//! that a target leads to or from cannot move unnoticed.

use crate::layout::{
    goes_by, is_local, own_device_of, Device, LayoutState, LinkView, Rect, Screen,
};
use crate::platform::Platform;
use crate::seqs::{first, lemma_first, lemma_first_is, lemma_first_of_both};
use crate::targets::{
    fingerprint_of, implied_link, implied_links, link_ends, links_in_force, links_of_device,
    links_of_devices, links_of_screen, native_screen_of, reachable_as, reachable_device,
    takes_input, target_of_link, targets_of, targets_of_links, wire_screen_id, TargetView,
};
use crate::wiring::{
    all_named_alike, all_wired_alike, law_a_fingerprint_tells_the_wiring,
    law_redrawing_keeps_the_targets, named_alike, plainly_named, same_device,
    same_devices, same_screen, wired_alike,
};
use vstd::prelude::*;

verus! {

// ---------------------------------------------------------------------------
// Adding up over links
// ---------------------------------------------------------------------------
/// What a list of links is worth, link by link.
spec fn tally(links: Seq<LinkView>, worth: spec_fn(LinkView) -> nat) -> nat
    decreases links.len(),
{
    if links.len() == 0 {
        0
    } else {
        tally(links.drop_last(), worth) + worth(links.last())
    }
}

/// What a link is worth, if there is one.
spec fn worth_of(link: Option<LinkView>, worth: spec_fn(LinkView) -> nat) -> nat {
    match link {
        Some(link) => worth(link),
        None => 0,
    }
}

proof fn lemma_tally_of_both(a: Seq<LinkView>, b: Seq<LinkView>, worth: spec_fn(LinkView) -> nat)
    ensures
        tally(a + b, worth) == tally(a, worth) + tally(b, worth),
    decreases b.len(),
{
    if b.len() == 0 {
        assert(a + b =~= a);
    } else {
        lemma_tally_of_both(a, b.drop_last(), worth);
        assert((a + b).drop_last() =~= a + b.drop_last());
    }
}

proof fn lemma_tally_has(links: Seq<LinkView>, worth: spec_fn(LinkView) -> nat, i: int)
    requires
        0 <= i < links.len(),
    ensures
        tally(links, worth) >= worth(links[i]),
    decreases links.len(),
{
    if i < links.len() - 1 {
        lemma_tally_has(links.drop_last(), worth, i);
    }
}

proof fn lemma_tally_of_the_same(
    links: Seq<LinkView>,
    before: spec_fn(LinkView) -> nat,
    later: spec_fn(LinkView) -> nat,
    more: spec_fn(LinkView) -> nat,
)
    requires
        forall|link: LinkView| #[trigger] before(link) >= later(link) + more(link),
    ensures
        tally(links, before) >= tally(links, later) + tally(links, more),
    decreases links.len(),
{
    if links.len() > 0 {
        lemma_tally_of_the_same(links.drop_last(), before, later, more);
        assert(before(links.last()) >= later(links.last()) + more(links.last()));
    }
}

/// The link that two screens of two devices imply.
spec fn link_between(own: Device, l: int, device: Device, r: int) -> Option<LinkView> {
    implied_link(own.id@, own.screens@[l], device.id@, device.screens@[r])
}

/// Whether a pair of screens is worth as much before as it is afterwards, with
/// something on top.
spec fn holds_its_worth(
    own: Device,
    l: int,
    device: Device,
    r: int,
    own_later: Device,
    device_later: Device,
    before: spec_fn(LinkView) -> nat,
    later: spec_fn(LinkView) -> nat,
    more: spec_fn(LinkView) -> nat,
) -> bool {
    worth_of(link_between(own, l, device, r), before) >= worth_of(
        link_between(own_later, l, device_later, r),
        later,
    ) + worth_of(link_between(own, l, device, r), more)
}

proof fn lemma_tally_of_screen(
    own: Device,
    l: int,
    device: Device,
    own_later: Device,
    device_later: Device,
    before: spec_fn(LinkView) -> nat,
    later: spec_fn(LinkView) -> nat,
    more: spec_fn(LinkView) -> nat,
    n: nat,
)
    requires
        forall|r: int|
            0 <= r < n ==> #[trigger] holds_its_worth(
                own,
                l,
                device,
                r,
                own_later,
                device_later,
                before,
                later,
                more,
            ),
    ensures
        tally(links_of_screen(own.id@, own.screens@[l], device, n), before) >= tally(
            links_of_screen(own_later.id@, own_later.screens@[l], device_later, n),
            later,
        ) + tally(links_of_screen(own.id@, own.screens@[l], device, n), more),
    decreases n,
{
    if n > 0 {
        let m = (n - 1) as nat;
        lemma_tally_of_screen(
            own,
            l,
            device,
            own_later,
            device_later,
            before,
            later,
            more,
            m,
        );
        assert(holds_its_worth(
            own,
            l,
            device,
            m as int,
            own_later,
            device_later,
            before,
            later,
            more,
        ));
        let links = links_of_screen(own.id@, own.screens@[l], device, n);
        let links_later = links_of_screen(
            own_later.id@,
            own_later.screens@[l],
            device_later,
            n,
        );
        if link_between(own, l, device, m as int) is Some {
            assert(links.drop_last() =~= links_of_screen(own.id@, own.screens@[l], device, m));
        }
        if link_between(own_later, l, device_later, m as int) is Some {
            assert(links_later.drop_last() =~= links_of_screen(
                own_later.id@,
                own_later.screens@[l],
                device_later,
                m,
            ));
        }
    }
}

proof fn lemma_tally_of_device(
    own: Device,
    device: Device,
    own_later: Device,
    device_later: Device,
    before: spec_fn(LinkView) -> nat,
    later: spec_fn(LinkView) -> nat,
    more: spec_fn(LinkView) -> nat,
    n: nat,
)
    requires
        device.screens@.len() == device_later.screens@.len(),
        forall|l: int, r: int|
            0 <= l < n && 0 <= r < device.screens@.len() ==> #[trigger] holds_its_worth(
                own,
                l,
                device,
                r,
                own_later,
                device_later,
                before,
                later,
                more,
            ),
    ensures
        tally(links_of_device(own, device, n), before) >= tally(
            links_of_device(own_later, device_later, n),
            later,
        ) + tally(links_of_device(own, device, n), more),
    decreases n,
{
    if n > 0 {
        let m = (n - 1) as nat;
        let count = device.screens@.len();
        lemma_tally_of_device(own, device, own_later, device_later, before, later, more, m);
        lemma_tally_of_screen(
            own,
            m as int,
            device,
            own_later,
            device_later,
            before,
            later,
            more,
            count,
        );
        let front = links_of_device(own, device, m);
        let last = links_of_screen(own.id@, own.screens@[m as int], device, count);
        lemma_tally_of_both(front, last, before);
        lemma_tally_of_both(front, last, more);
        lemma_tally_of_both(
            links_of_device(own_later, device_later, m),
            links_of_screen(own_later.id@, own_later.screens@[m as int], device_later, count),
            later,
        );
    }
}

proof fn lemma_tally_of_devices(
    own: Device,
    devices: Seq<Device>,
    own_later: Device,
    devices_later: Seq<Device>,
    before: spec_fn(LinkView) -> nat,
    later: spec_fn(LinkView) -> nat,
    more: spec_fn(LinkView) -> nat,
    n: nat,
)
    requires
        n <= devices.len(),
        devices.len() == devices_later.len(),
        own.screens@.len() == own_later.screens@.len(),
        forall|i: int|
            0 <= i < devices.len() ==> is_local(#[trigger] devices[i]) == is_local(
                devices_later[i],
            ) && devices[i].screens@.len() == devices_later[i].screens@.len(),
        forall|i: int, l: int, r: int|
            0 <= i < devices.len() && !is_local(devices[i]) && 0 <= l < own.screens@.len() && 0
                <= r < devices[i].screens@.len() ==> #[trigger] holds_its_worth(
                own,
                l,
                devices[i],
                r,
                own_later,
                devices_later[i],
                before,
                later,
                more,
            ),
    ensures
        tally(links_of_devices(own, devices, n), before) >= tally(
            links_of_devices(own_later, devices_later, n),
            later,
        ) + tally(links_of_devices(own, devices, n), more),
    decreases n,
{
    if n > 0 {
        let m = (n - 1) as nat;
        lemma_tally_of_devices(
            own,
            devices,
            own_later,
            devices_later,
            before,
            later,
            more,
            m,
        );
        let device = devices[m as int];
        let device_later = devices_later[m as int];
        assert(is_local(device) == is_local(device_later));
        if !is_local(device) {
            let count = own.screens@.len();
            lemma_tally_of_device(
                own,
                device,
                own_later,
                device_later,
                before,
                later,
                more,
                count,
            );
            let front = links_of_devices(own, devices, m);
            let last = links_of_device(own, device, count);
            lemma_tally_of_both(front, last, before);
            lemma_tally_of_both(front, last, more);
            lemma_tally_of_both(
                links_of_devices(own_later, devices_later, m),
                links_of_device(own_later, device_later, count),
                later,
            );
        }
    }
}

// ---------------------------------------------------------------------------
// Counting targets
// ---------------------------------------------------------------------------
/// How many targets satisfy a test.
spec fn count(targets: Seq<TargetView>, test: spec_fn(TargetView) -> bool) -> nat
    decreases targets.len(),
{
    if targets.len() == 0 {
        0
    } else {
        count(targets.drop_last(), test) + if test(targets.last()) {
            1nat
        } else {
            0
        }
    }
}

/// A layout, seen from the machine that holds it.
struct Scene {
    layout: LayoutState,
    native_layout: LayoutState,
    origin_id: Seq<char>,
    platform: Platform,
    own: Device,
}

impl Scene {
    spec fn target(self, link: LinkView) -> Option<TargetView> {
        target_of_link(
            self.layout,
            self.native_layout,
            self.origin_id,
            self.platform,
            self.own,
            link,
        )
    }

    /// What a link is worth that is worth something exactly where its target
    /// satisfies a test.
    spec fn worth(self, test: spec_fn(TargetView) -> bool) -> spec_fn(LinkView) -> nat {
        |link: LinkView|
            match self.target(link) {
                Some(target) => if test(target) {
                    1nat
                } else {
                    0
                },
                None => 0,
            }
    }

    spec fn targets(self, links: Seq<LinkView>, n: nat) -> Seq<TargetView> {
        targets_of_links(
            self.layout,
            self.native_layout,
            self.origin_id,
            self.platform,
            self.own,
            links,
            n,
        )
    }
}

proof fn lemma_count_is_tally(
    scene: Scene,
    links: Seq<LinkView>,
    test: spec_fn(TargetView) -> bool,
    n: nat,
)
    requires
        n <= links.len(),
    ensures
        count(scene.targets(links, n), test) == tally(links.take(n as int), scene.worth(test)),
    decreases n,
{
    if n > 0 {
        let m = (n - 1) as nat;
        lemma_count_is_tally(scene, links, test, m);
        assert(links.take(n as int).drop_last() =~= links.take(m as int));
        if scene.target(links[n - 1]) is Some {
            assert(scene.targets(links, n).drop_last() =~= scene.targets(links, m));
        }
    }
}

proof fn lemma_target_has_a_link(scene: Scene, links: Seq<LinkView>, n: nat, i: int) -> (k: int)
    requires
        n <= links.len(),
        0 <= i < scene.targets(links, n).len(),
    ensures
        0 <= k < n,
        scene.target(links[k]) == Some(scene.targets(links, n)[i]),
    decreases n,
{
    let m = (n - 1) as nat;
    if i < scene.targets(links, m).len() {
        lemma_target_has_a_link(scene, links, m, i)
    } else {
        n - 1
    }
}

proof fn lemma_same_count(
    a: Seq<TargetView>,
    b: Seq<TargetView>,
    test: spec_fn(TargetView) -> bool,
)
    requires
        a.len() == b.len(),
        forall|i: int| 0 <= i < a.len() ==> test(#[trigger] a[i]) == test(b[i]),
    ensures
        count(a, test) == count(b, test),
    decreases a.len(),
{
    if a.len() > 0 {
        assert(test(a[a.len() - 1]) == test(b[a.len() - 1]));
        assert forall|i: int| 0 <= i < a.len() - 1 implies test(#[trigger] a.drop_last()[i])
            == test(b.drop_last()[i]) by {
            assert(test(a[i]) == test(b[i]));
        }
        lemma_same_count(a.drop_last(), b.drop_last(), test);
    }
}

/// Where the links of a layout are worth more than those of another, by the
/// targets that satisfy a test, more targets satisfy it.
proof fn lemma_fewer_than_before(
    scene: Scene,
    later: Scene,
    links: Seq<LinkView>,
    links_later: Seq<LinkView>,
    test: spec_fn(TargetView) -> bool,
    hit: spec_fn(TargetView) -> bool,
    i: int,
)
    requires
        tally(links, scene.worth(test)) >= tally(links_later, later.worth(test)) + tally(
            links,
            scene.worth(hit),
        ),
        0 <= i < scene.targets(links, links.len()).len(),
        hit(scene.targets(links, links.len())[i]),
    ensures
        count(scene.targets(links, links.len()), test) > count(
            later.targets(links_later, links_later.len()),
            test,
        ),
{
    lemma_count_is_tally(scene, links, test, links.len());
    lemma_count_is_tally(later, links_later, test, links_later.len());
    assert(links.take(links.len() as int) =~= links);
    assert(links_later.take(links_later.len() as int) =~= links_later);
    let n = lemma_target_has_a_link(scene, links, links.len(), i);
    lemma_tally_has(links, scene.worth(hit), n);
    assert(scene.worth(hit)(links[n]) == 1);
}

/// Where another number of targets satisfies a test that goes by the wiring, the
/// fingerprints differ.
proof fn lemma_another_count_shows(
    layout: LayoutState,
    native_layout: LayoutState,
    other: LayoutState,
    other_native: LayoutState,
    origin_id: Seq<char>,
    platform: Platform,
    test: spec_fn(TargetView) -> bool,
)
    requires
        forall|a: TargetView, b: TargetView| #[trigger]
            wired_alike(a, b) ==> test(a) == test(b),
        ({
            let a = targets_of(layout, native_layout, origin_id, platform);
            let b = targets_of(other, other_native, origin_id, platform);
            (all_named_alike(a, b) || (plainly_named(a) && plainly_named(b))) && count(a, test)
                != count(b, test)
        }),
    ensures
        fingerprint_of(targets_of(layout, native_layout, origin_id, platform)) != fingerprint_of(
            targets_of(other, other_native, origin_id, platform),
        ),
{
    let a = targets_of(layout, native_layout, origin_id, platform);
    let b = targets_of(other, other_native, origin_id, platform);
    if fingerprint_of(a) == fingerprint_of(b) {
        law_a_fingerprint_tells_the_wiring(
            layout,
            native_layout,
            other,
            other_native,
            origin_id,
            platform,
        );
        assert(all_wired_alike(a, b));
        assert forall|j: int| 0 <= j < a.len() implies test(#[trigger] a[j]) == test(b[j]) by {
            assert(wired_alike(a[j], b[j]));
        }
        lemma_same_count(a, b, test);
    }
}

// ---------------------------------------------------------------------------
// One screen moves
// ---------------------------------------------------------------------------
/// Whether a screen is another one after it was moved or resized.
pub open spec fn moved_or_resized(before: Screen, after: Screen) -> bool {
    after == (Screen {
        x: after.x,
        y: after.y,
        width: after.width,
        height: after.height,
        ..before
    })
}

/// Whether a layout is another one after the screen of one number on the device
/// of one number was moved or resized, and nothing else.
pub open spec fn rearranged(before: LayoutState, d: int, k: int, after: LayoutState) -> bool {
    let device = before.devices@[d];
    let device_after = after.devices@[d];
    &&& after == (LayoutState { devices: after.devices, ..before })
    &&& after.devices@.len() == before.devices@.len()
    &&& 0 <= d < before.devices@.len()
    &&& forall|i: int|
        0 <= i < before.devices@.len() && i != d ==> #[trigger] after.devices@[i]
            == before.devices@[i]
    &&& device_after == (Device { screens: device_after.screens, ..device })
    &&& device_after.screens@.len() == device.screens@.len()
    &&& 0 <= k < device.screens@.len()
    &&& forall|r: int|
        0 <= r < device.screens@.len() && r != k ==> #[trigger] device_after.screens@[r]
            == device.screens@[r]
    &&& moved_or_resized(device.screens@[k], device_after.screens@[k])
}

/// Whether links lead to a screen by its id and the id of its device: nothing
/// before it goes by the same.
pub open spec fn leads_to(layout: LayoutState, d: int, k: int) -> bool {
    let device = layout.devices@[d];
    &&& takes_input(device)
    &&& forall|j: int|
        0 <= j < d && takes_input(#[trigger] layout.devices@[j]) ==> layout.devices@[j].id@
            != device.id@
    &&& forall|r: int|
        0 <= r < k ==> (#[trigger] device.screens@[r]).id@ != device.screens@[k].id@
}

/// A target that goes by the ids of a screen that links lead to is that screen.
proof fn lemma_target_is_the_screen(scene: Scene, link: LinkView, d: int, k: int)
    requires
        0 <= d < scene.layout.devices@.len(),
        0 <= k < scene.layout.devices@[d].screens@.len(),
        leads_to(scene.layout, d, k),
        scene.target(link) is Some,
        scene.target(link)->0.device_id == scene.layout.devices@[d].id@,
        scene.target(link)->0.remote_screen.id@ == scene.layout.devices@[d].screens@[k].id@,
    ensures
        scene.target(link)->0.remote_screen == scene.layout.devices@[d].screens@[k],
{
    let device = scene.layout.devices@[d];
    let (_, remote) = link_ends(scene.own.id@, link)->0;
    lemma_first(scene.layout.devices@, reachable_as(remote.device_id));
    assert(remote.device_id == device.id@);
    lemma_first_is(scene.layout.devices@, reachable_as(device.id@), d);
    lemma_first(device.screens@, goes_by(remote.screen_id));
    assert(remote.screen_id == device.screens@[k].id@);
    lemma_first_is(device.screens@, goes_by(remote.screen_id), k);
}

/// A link leads from and to the same screens before and after a move of a
/// remote one.
proof fn lemma_target_after_a_remote_move(
    scene: Scene,
    later: Scene,
    link: LinkView,
    d: int,
    k: int,
)
    requires
        rearranged(scene.layout, d, k, later.layout),
        later == (Scene { layout: later.layout, ..scene }),
    ensures
        match scene.target(link) {
            Some(target) => later.target(link) matches Some(target_later) && named_alike(
                target,
                target_later,
            ) && target.remote_screen.id == target_later.remote_screen.id
                && (target.remote_screen == target_later.remote_screen || (target.device_id
                == scene.layout.devices@[d].id@ && target.remote_screen
                == scene.layout.devices@[d].screens@[k])),
            None => later.target(link) is None,
        },
{
    match link_ends(scene.own.id@, link) {
        None => {},
        Some((_, remote)) => {
            let devices = scene.layout.devices@;
            let devices_later = later.layout.devices@;
            let p = reachable_as(remote.device_id);
            assert forall|i: int| 0 <= i < devices.len() implies p(#[trigger] devices[i]) == p(
                devices_later[i],
            ) by {
                if i != d {
                    assert(devices_later[i] == devices[i]);
                }
            }
            lemma_first_of_both(devices, devices_later, p);
            match first(devices, p) {
                None => {},
                Some(device) => {
                    let i = choose|i: int|
                        0 <= i < devices.len() && #[trigger] devices[i] == device && p(device)
                            && first(devices_later, p) == Some(devices_later[i]);
                    if i != d {
                        assert(devices_later[i] == devices[i]);
                    } else {
                        let screens = devices[d].screens@;
                        let screens_later = devices_later[d].screens@;
                        let q = goes_by(remote.screen_id);
                        assert forall|r: int| 0 <= r < screens.len() implies q(
                            #[trigger] screens[r],
                        ) == q(screens_later[r]) by {
                            if r != k {
                                assert(screens_later[r] == screens[r]);
                            }
                        }
                        lemma_first_of_both(screens, screens_later, q);
                        match first(screens, q) {
                            None => {},
                            Some(screen) => {
                                let r = choose|r: int|
                                    0 <= r < screens.len() && #[trigger] screens[r] == screen && q(
                                        screen,
                                    ) && first(screens_later, q) == Some(screens_later[r]);
                                if r != k {
                                    assert(screens_later[r] == screens[r]);
                                }
                            },
                        }
                    }
                },
            }
        },
    }
}

/// A target whose remote screen holds certain pixels.
spec fn shows_there(rect: Rect) -> spec_fn(TargetView) -> bool {
    |target: TargetView| target.remote_screen.rect() == rect
}

/// A target that goes by the ids of a remote screen.
spec fn goes_there(device_id: Seq<char>, screen_id: Seq<char>) -> spec_fn(TargetView) -> bool {
    |target: TargetView| target.device_id == device_id && target.remote_screen.id@ == screen_id
}

proof fn lemma_still_leads_to(layout: LayoutState, later: LayoutState, d: int, k: int)
    requires
        rearranged(layout, d, k, later),
        leads_to(layout, d, k),
    ensures
        leads_to(later, d, k),
{
    let devices = layout.devices@;
    let devices_later = later.devices@;
    assert forall|j: int| 0 <= j < d && takes_input(#[trigger] devices_later[j]) implies devices_later[j].id@
        != devices[d].id@ by {
        assert(devices_later[j] == devices[j]);
    }
    assert forall|s: int| 0 <= s < k implies (#[trigger] devices_later[d].screens@[s]).id@
        != devices[d].screens@[k].id@ by {
        assert(devices_later[d].screens@[s] == devices[d].screens@[s]);
    }
}

/// A link is worth less by the pixels of a screen once the screen moved, if it
/// led there.
proof fn lemma_link_to_a_moved_screen(scene: Scene, later: Scene, link: LinkView, d: int, k: int)
    requires
        rearranged(scene.layout, d, k, later.layout),
        later == (Scene { layout: later.layout, ..scene }),
        leads_to(scene.layout, d, k),
        scene.layout.devices@[d].screens@[k].rect() != later.layout.devices@[d].screens@[k].rect(),
    ensures
        ({
            let device = scene.layout.devices@[d];
            let screen = device.screens@[k];
            scene.worth(shows_there(screen.rect()))(link) >= later.worth(
                shows_there(screen.rect()),
            )(link) + scene.worth(goes_there(device.id@, screen.id@))(link)
        }),
{
    let device = scene.layout.devices@[d];
    let screen = device.screens@[k];
    lemma_still_leads_to(scene.layout, later.layout, d, k);
    lemma_target_after_a_remote_move(scene, later, link, d, k);
    if scene.target(link) is Some {
        let target = scene.target(link)->0;
        if target.device_id == device.id@ && target.remote_screen.id@ == screen.id@ {
            lemma_target_is_the_screen(scene, link, d, k);
            lemma_target_is_the_screen(later, link, d, k);
        }
    }
}

proof fn lemma_worth_of_a_remote_move(
    scene: Scene,
    later: Scene,
    d: int,
    k: int,
    i: int,
    l: int,
    r: int,
)
    requires
        rearranged(scene.layout, d, k, later.layout),
        later == (Scene { layout: later.layout, ..scene }),
        leads_to(scene.layout, d, k),
        scene.layout.devices@[d].screens@[k].rect() != later.layout.devices@[d].screens@[k].rect(),
        0 <= i < scene.layout.devices@.len(),
        0 <= r < scene.layout.devices@[i].screens@.len(),
    ensures
        ({
            let device = scene.layout.devices@[d];
            let screen = device.screens@[k];
            holds_its_worth(
                scene.own,
                l,
                scene.layout.devices@[i],
                r,
                later.own,
                later.layout.devices@[i],
                scene.worth(shows_there(screen.rect())),
                later.worth(shows_there(screen.rect())),
                scene.worth(goes_there(device.id@, screen.id@)),
            )
        }),
{
    let devices = scene.layout.devices@;
    let devices_later = later.layout.devices@;
    let device = devices[d];
    let screen = device.screens@[k];
    let before = link_between(scene.own, l, devices[i], r);
    let after = link_between(scene.own, l, devices_later[i], r);
    lemma_still_leads_to(scene.layout, later.layout, d, k);
    if before is Some && scene.target(before->0) is Some {
        let target = scene.target(before->0)->0;
        if target.device_id == device.id@ && target.remote_screen.id@ == screen.id@ {
            lemma_target_is_the_screen(scene, before->0, d, k);
        }
    }
    if after is Some && later.target(after->0) is Some {
        let target = later.target(after->0)->0;
        if target.device_id == device.id@ && target.remote_screen.id@ == screen.id@ {
            lemma_target_is_the_screen(later, after->0, d, k);
        }
    }
    if i != d || r != k {
        if i != d {
            assert(devices_later[i] == devices[i]);
        } else {
            assert(devices_later[d].screens@[r] == device.screens@[r]);
        }
        assert(before == after);
        if before is Some {
            lemma_link_to_a_moved_screen(scene, later, before->0, d, k);
        }
    } else {
        lemma_ends_of_a_pair(scene, before, device.id@, screen.id@);
        lemma_ends_of_a_pair(later, after, device.id@, screen.id@);
    }
}

/// The target of the link that a pair of screens implies goes by the remote
/// screen's ids.
proof fn lemma_ends_of_a_pair(
    scene: Scene,
    link: Option<LinkView>,
    device_id: Seq<char>,
    screen_id: Seq<char>,
)
    requires
        link matches Some(link) ==> link.a.device_id == scene.own.id@ && link.b.device_id
            == device_id && link.b.screen_id == screen_id,
    ensures
        link matches Some(link) ==> (scene.target(link) matches Some(target) ==> target.device_id
            == device_id && target.remote_screen.id@ == screen_id),
{
    if link is Some && scene.target(link->0) is Some {
        lemma_first(scene.layout.devices@, reachable_as(device_id));
        let device = reachable_device(scene.layout, device_id)->0;
        lemma_first(device.screens@, goes_by(screen_id));
    }
}

proof fn lemma_rearranged_devices(layout: LayoutState, d: int, k: int, other: LayoutState)
    requires
        rearranged(layout, d, k, other),
    ensures
        same_devices(layout.devices@, other.devices@),
{
    let devices = layout.devices@;
    let devices_later = other.devices@;
    assert forall|i: int| 0 <= i < devices.len() implies same_device(
        #[trigger] devices[i],
        devices_later[i],
    ) by {
        if i != d {
            assert(devices_later[i] == devices[i]);
        } else {
            assert forall|r: int| 0 <= r < devices[d].screens@.len() implies same_screen(
                #[trigger] devices[d].screens@[r],
                devices_later[d].screens@[r],
            ) by {
                if r != k {
                    assert(devices_later[d].screens@[r] == devices[d].screens@[r]);
                }
            }
        }
    }
}

proof fn lemma_tally_of_a_remote_move(scene: Scene, later: Scene, d: int, k: int)
    requires
        rearranged(scene.layout, d, k, later.layout),
        later == (Scene { layout: later.layout, ..scene }),
        leads_to(scene.layout, d, k),
        scene.layout.devices@[d].screens@[k].rect() != later.layout.devices@[d].screens@[k].rect(),
        own_device_of(scene.layout) == Some(scene.own),
        own_device_of(later.layout) == Some(scene.own),
    ensures
        ({
            let device = scene.layout.devices@[d];
            let screen = device.screens@[k];
            tally(implied_links(scene.layout), scene.worth(shows_there(screen.rect()))) >= tally(
                implied_links(later.layout),
                later.worth(shows_there(screen.rect())),
            ) + tally(
                implied_links(scene.layout),
                scene.worth(goes_there(device.id@, screen.id@)),
            )
        }),
{
    let devices = scene.layout.devices@;
    let devices_later = later.layout.devices@;
    let own = scene.own;
    let screen = devices[d].screens@[k];
    let test = shows_there(screen.rect());
    let hit = goes_there(devices[d].id@, screen.id@);
    assert forall|m: int, l: int, r: int|
        0 <= m < devices.len() && !is_local(devices[m]) && 0 <= l < own.screens@.len() && 0 <= r
            < devices[m].screens@.len() implies #[trigger] holds_its_worth(
        own,
        l,
        devices[m],
        r,
        own,
        devices_later[m],
        scene.worth(test),
        later.worth(test),
        scene.worth(hit),
    ) by {
        lemma_worth_of_a_remote_move(scene, later, d, k, m, l, r);
    }
    assert forall|m: int| 0 <= m < devices.len() implies is_local(#[trigger] devices[m])
        == is_local(devices_later[m]) && devices[m].screens@.len()
        == devices_later[m].screens@.len() by {
        if m != d {
            assert(devices_later[m] == devices[m]);
        }
    }
    lemma_tally_of_devices(
        own,
        devices,
        own,
        devices_later,
        scene.worth(test),
        later.worth(test),
        scene.worth(hit),
        devices.len(),
    );
}

/// A remote screen that moves or is resized shows in the fingerprint, if a
/// target leads to it and, where no link was drawn, no id holds a separator.
pub proof fn law_a_moved_remote_screen_shows(
    layout: LayoutState,
    other: LayoutState,
    native_layout: LayoutState,
    origin_id: Seq<char>,
    platform: Platform,
    d: int,
    k: int,
    i: int,
)
    requires
        rearranged(layout, d, k, other),
        layout.devices@[d].screens@[k].rect() != other.devices@[d].screens@[k].rect(),
        leads_to(layout, d, k),
        ({
            let a = targets_of(layout, native_layout, origin_id, platform);
            let b = targets_of(other, native_layout, origin_id, platform);
            &&& 0 <= i < a.len()
            &&& a[i].device_id == layout.devices@[d].id@
            &&& a[i].remote_screen.id@ == layout.devices@[d].screens@[k].id@
            &&& layout.edge_links is None ==> plainly_named(a) && plainly_named(b)
        }),
    ensures
        fingerprint_of(targets_of(layout, native_layout, origin_id, platform)) != fingerprint_of(
            targets_of(other, native_layout, origin_id, platform),
        ),
{
    let devices = layout.devices@;
    let devices_later = other.devices@;
    let device = devices[d];
    let screen = device.screens@[k];
    let local = |x: Device| is_local(x);
    assert forall|j: int| 0 <= j < devices.len() implies local(#[trigger] devices[j]) == local(
        devices_later[j],
    ) by {
        if j != d {
            assert(devices_later[j] == devices[j]);
        }
    }
    lemma_first_of_both(devices, devices_later, local);
    let own = own_device_of(layout)->0;
    let o = choose|o: int|
        0 <= o < devices.len() && #[trigger] devices[o] == own && local(own) && first(
            devices_later,
            local,
        ) == Some(devices_later[o]);
    assert(o != d);
    assert(devices_later[o] == devices[o]);
    assert(own_device_of(other) == Some(own));
    let scene = Scene { layout, native_layout, origin_id, platform, own };
    let later = Scene { layout: other, native_layout, origin_id, platform, own };
    let test = shows_there(screen.rect());
    let hit = goes_there(device.id@, screen.id@);
    let links = links_in_force(layout);
    let links_later = links_in_force(other);
    if layout.edge_links is Some {
        assert forall|link: LinkView| #[trigger]
            scene.worth(test)(link) >= later.worth(test)(link) + scene.worth(hit)(link) by {
            lemma_link_to_a_moved_screen(scene, later, link, d, k);
        }
        lemma_tally_of_the_same(links, scene.worth(test), later.worth(test), scene.worth(hit));
        lemma_rearranged_devices(layout, d, k, other);
        law_redrawing_keeps_the_targets(
            layout,
            native_layout,
            other,
            native_layout,
            origin_id,
            platform,
        );
    } else {
        lemma_tally_of_a_remote_move(scene, later, d, k);
    }
    lemma_fewer_than_before(scene, later, links, links_later, test, hit, i);
    lemma_another_count_shows(
        layout,
        native_layout,
        other,
        native_layout,
        origin_id,
        platform,
        test,
    );
}

/// Whether links lead from a screen by its id: its device is the machine that
/// holds the layout, and no screen before it goes by the same id.
pub open spec fn leads_from(layout: LayoutState, d: int, k: int) -> bool {
    let device = layout.devices@[d];
    &&& is_local(device)
    &&& forall|j: int| 0 <= j < d ==> !is_local(#[trigger] layout.devices@[j])
    &&& forall|r: int|
        0 <= r < k ==> (#[trigger] device.screens@[r]).id@ != device.screens@[k].id@
}

/// Whether the pixels that the compositor gives the screens of a machine are the
/// same but for those that go by one id.
pub open spec fn elsewhere_the_same(
    own: Device,
    id: Seq<char>,
    native_layout: LayoutState,
    other_native: LayoutState,
    platform: Platform,
) -> bool {
    forall|l: int|
        0 <= l < own.screens@.len() && (#[trigger] own.screens@[l]).id@ != id ==> native_screen_of(
            native_layout,
            platform,
            own.screens@[l],
        ).rect() == native_screen_of(other_native, platform, own.screens@[l]).rect()
}

/// A target whose local screen holds certain pixels.
spec fn shows_here(rect: Rect) -> spec_fn(TargetView) -> bool {
    |target: TargetView| target.local_screen.rect() == rect
}

/// A target that is reached from a screen of the layout.
spec fn goes_from_here(screen_id: Seq<char>) -> spec_fn(TargetView) -> bool {
    |target: TargetView| target.layout_local_screen.id@ == screen_id
}

proof fn lemma_target_is_from_the_screen(scene: Scene, link: LinkView, k: int)
    requires
        0 <= k < scene.own.screens@.len(),
        forall|r: int|
            0 <= r < k ==> (#[trigger] scene.own.screens@[r]).id@ != scene.own.screens@[k].id@,
        scene.target(link) is Some,
        scene.target(link)->0.layout_local_screen.id@ == scene.own.screens@[k].id@,
    ensures
        scene.target(link)->0.layout_local_screen == scene.own.screens@[k],
        scene.target(link)->0.local_screen == native_screen_of(
            scene.native_layout,
            scene.platform,
            scene.own.screens@[k],
        ),
{
    let (local, _) = link_ends(scene.own.id@, link)->0;
    lemma_first(scene.own.screens@, goes_by(local.screen_id));
    assert(local.screen_id == scene.own.screens@[k].id@);
    lemma_first_is(scene.own.screens@, goes_by(local.screen_id), k);
}

/// A link that does not lead from a screen leads from and to the same pixels
/// before and after a move of it.
proof fn lemma_target_after_a_local_move(
    scene: Scene,
    later: Scene,
    link: LinkView,
    d: int,
    k: int,
)
    requires
        rearranged(scene.layout, d, k, later.layout),
        leads_from(scene.layout, d, k),
        scene.own == scene.layout.devices@[d],
        later.own == later.layout.devices@[d],
        later.origin_id == scene.origin_id,
        later.platform == scene.platform,
        elsewhere_the_same(
            scene.own,
            scene.own.screens@[k].id@,
            scene.native_layout,
            later.native_layout,
            scene.platform,
        ),
    ensures
        match scene.target(link) {
            Some(target) => later.target(link) matches Some(target_later)
                && target.layout_local_screen.id == target_later.layout_local_screen.id && (
            target.layout_local_screen.id@ != scene.own.screens@[k].id@
                ==> target.local_screen.rect() == target_later.local_screen.rect()),
            None => later.target(link) is None,
        },
{
    match link_ends(scene.own.id@, link) {
        None => {},
        Some((local, remote)) => {
            let devices = scene.layout.devices@;
            let devices_later = later.layout.devices@;
            let p = reachable_as(remote.device_id);
            assert forall|i: int| 0 <= i < devices.len() implies p(#[trigger] devices[i]) == p(
                devices_later[i],
            ) by {
                if i != d {
                    assert(devices_later[i] == devices[i]);
                }
            }
            lemma_first_of_both(devices, devices_later, p);
            if first(devices, p) is Some {
                let device = first(devices, p)->0;
                let i = choose|i: int|
                    0 <= i < devices.len() && #[trigger] devices[i] == device && p(device)
                        && first(devices_later, p) == Some(devices_later[i]);
                assert(devices_later[i] == devices[i]);
            }
            let screens = scene.own.screens@;
            let screens_later = later.own.screens@;
            let q = goes_by(local.screen_id);
            assert forall|r: int| 0 <= r < screens.len() implies q(#[trigger] screens[r]) == q(
                screens_later[r],
            ) by {
                if r != k {
                    assert(screens_later[r] == screens[r]);
                }
            }
            lemma_first_of_both(screens, screens_later, q);
            if first(screens, q) is Some {
                let screen = first(screens, q)->0;
                let r = choose|r: int|
                    0 <= r < screens.len() && #[trigger] screens[r] == screen && q(screen)
                        && first(screens_later, q) == Some(screens_later[r]);
                if r != k {
                    assert(screens_later[r] == screens[r]);
                }
            }
        },
    }
}

proof fn lemma_still_leads_from(layout: LayoutState, later: LayoutState, d: int, k: int)
    requires
        rearranged(layout, d, k, later),
        leads_from(layout, d, k),
    ensures
        leads_from(later, d, k),
{
    let devices = layout.devices@;
    let devices_later = later.devices@;
    assert forall|j: int| 0 <= j < d implies !is_local(#[trigger] devices_later[j]) by {
        assert(devices_later[j] == devices[j]);
    }
    assert forall|s: int| 0 <= s < k implies (#[trigger] devices_later[d].screens@[s]).id@
        != devices[d].screens@[k].id@ by {
        assert(devices_later[d].screens@[s] == devices[d].screens@[s]);
    }
}

/// Whether a scene is another one after a local screen got other pixels.
spec fn shifted_here(scene: Scene, d: int, k: int, later: Scene) -> bool {
    &&& rearranged(scene.layout, d, k, later.layout)
    &&& leads_from(scene.layout, d, k)
    &&& scene.own == scene.layout.devices@[d]
    &&& later.own == later.layout.devices@[d]
    &&& later.origin_id == scene.origin_id
    &&& later.platform == scene.platform
    &&& elsewhere_the_same(
        scene.own,
        scene.own.screens@[k].id@,
        scene.native_layout,
        later.native_layout,
        scene.platform,
    )
    &&& native_screen_of(scene.native_layout, scene.platform, scene.own.screens@[k]).rect()
        != native_screen_of(later.native_layout, scene.platform, later.own.screens@[k]).rect()
}

/// A link is worth less by the pixels of a local screen once the screen moved,
/// if it led from there.
proof fn lemma_link_from_a_moved_screen(scene: Scene, later: Scene, link: LinkView, d: int, k: int)
    requires
        shifted_here(scene, d, k, later),
    ensures
        ({
            let screen = scene.own.screens@[k];
            let rect = native_screen_of(scene.native_layout, scene.platform, screen).rect();
            scene.worth(shows_here(rect))(link) >= later.worth(shows_here(rect))(link)
                + scene.worth(goes_from_here(screen.id@))(link)
        }),
{
    lemma_still_leads_from(scene.layout, later.layout, d, k);
    lemma_target_after_a_local_move(scene, later, link, d, k);
    if scene.target(link) is Some {
        if scene.target(link)->0.layout_local_screen.id@ == scene.own.screens@[k].id@ {
            lemma_target_is_from_the_screen(scene, link, k);
            lemma_target_is_from_the_screen(later, link, k);
        }
    }
}

proof fn lemma_worth_of_a_local_move(
    scene: Scene,
    later: Scene,
    d: int,
    k: int,
    i: int,
    l: int,
    r: int,
)
    requires
        shifted_here(scene, d, k, later),
        0 <= i < scene.layout.devices@.len(),
        !is_local(scene.layout.devices@[i]),
        0 <= l < scene.own.screens@.len(),
    ensures
        ({
            let screen = scene.own.screens@[k];
            let rect = native_screen_of(scene.native_layout, scene.platform, screen).rect();
            holds_its_worth(
                scene.own,
                l,
                scene.layout.devices@[i],
                r,
                later.own,
                later.layout.devices@[i],
                scene.worth(shows_here(rect)),
                later.worth(shows_here(rect)),
                scene.worth(goes_from_here(screen.id@)),
            )
        }),
{
    let device = scene.layout.devices@[i];
    let screen = scene.own.screens@[k];
    assert(later.layout.devices@[i] == device);
    let before = link_between(scene.own, l, device, r);
    let after = link_between(later.own, l, device, r);
    lemma_still_leads_from(scene.layout, later.layout, d, k);
    if before is Some && scene.target(before->0) is Some {
        if scene.target(before->0)->0.layout_local_screen.id@ == screen.id@ {
            lemma_target_is_from_the_screen(scene, before->0, k);
        }
        lemma_first(scene.own.screens@, goes_by(before->0.a.screen_id));
    }
    if after is Some && later.target(after->0) is Some {
        if later.target(after->0)->0.layout_local_screen.id@ == screen.id@ {
            lemma_target_is_from_the_screen(later, after->0, k);
        }
        lemma_first(later.own.screens@, goes_by(after->0.a.screen_id));
    }
    if l != k {
        assert(later.own.screens@[l] == scene.own.screens@[l]);
        assert(before == after);
        if before is Some {
            lemma_link_from_a_moved_screen(scene, later, before->0, d, k);
        }
    }
}

proof fn lemma_tally_of_a_local_move(scene: Scene, later: Scene, d: int, k: int)
    requires
        shifted_here(scene, d, k, later),
        own_device_of(scene.layout) == Some(scene.own),
        own_device_of(later.layout) == Some(later.own),
    ensures
        ({
            let screen = scene.own.screens@[k];
            let rect = native_screen_of(scene.native_layout, scene.platform, screen).rect();
            tally(implied_links(scene.layout), scene.worth(shows_here(rect))) >= tally(
                implied_links(later.layout),
                later.worth(shows_here(rect)),
            ) + tally(implied_links(scene.layout), scene.worth(goes_from_here(screen.id@)))
        }),
{
    let devices = scene.layout.devices@;
    let devices_later = later.layout.devices@;
    let own = scene.own;
    let screen = own.screens@[k];
    let rect = native_screen_of(scene.native_layout, scene.platform, screen).rect();
    let test = shows_here(rect);
    let hit = goes_from_here(screen.id@);
    assert forall|m: int, l: int, r: int|
        0 <= m < devices.len() && !is_local(devices[m]) && 0 <= l < own.screens@.len() && 0 <= r
            < devices[m].screens@.len() implies #[trigger] holds_its_worth(
        own,
        l,
        devices[m],
        r,
        later.own,
        devices_later[m],
        scene.worth(test),
        later.worth(test),
        scene.worth(hit),
    ) by {
        lemma_worth_of_a_local_move(scene, later, d, k, m, l, r);
    }
    assert forall|m: int| 0 <= m < devices.len() implies is_local(#[trigger] devices[m])
        == is_local(devices_later[m]) && devices[m].screens@.len()
        == devices_later[m].screens@.len() by {
        if m != d {
            assert(devices_later[m] == devices[m]);
        }
    }
    lemma_tally_of_devices(
        own,
        devices,
        later.own,
        devices_later,
        scene.worth(test),
        later.worth(test),
        scene.worth(hit),
        devices.len(),
    );
}

/// A local screen that moves or is resized shows in the fingerprint, if a target
/// is reached from it, its pixels on the compositor are others then and, where
/// no link was drawn, no id holds a separator. Its pixels may come from the
/// layout itself or from the compositor's own.
pub proof fn law_a_moved_local_screen_shows(
    layout: LayoutState,
    native_layout: LayoutState,
    other: LayoutState,
    other_native: LayoutState,
    origin_id: Seq<char>,
    platform: Platform,
    d: int,
    k: int,
    i: int,
)
    requires
        rearranged(layout, d, k, other),
        leads_from(layout, d, k),
        native_screen_of(native_layout, platform, layout.devices@[d].screens@[k]).rect()
            != native_screen_of(other_native, platform, other.devices@[d].screens@[k]).rect(),
        elsewhere_the_same(
            layout.devices@[d],
            layout.devices@[d].screens@[k].id@,
            native_layout,
            other_native,
            platform,
        ),
        ({
            let a = targets_of(layout, native_layout, origin_id, platform);
            let b = targets_of(other, other_native, origin_id, platform);
            &&& 0 <= i < a.len()
            &&& a[i].layout_local_screen.id@ == layout.devices@[d].screens@[k].id@
            &&& layout.edge_links is None ==> plainly_named(a) && plainly_named(b)
        }),
    ensures
        fingerprint_of(targets_of(layout, native_layout, origin_id, platform)) != fingerprint_of(
            targets_of(other, other_native, origin_id, platform),
        ),
{
    let devices = layout.devices@;
    let devices_later = other.devices@;
    let own = devices[d];
    let own_later = devices_later[d];
    let screen = own.screens@[k];
    let rect = native_screen_of(native_layout, platform, screen).rect();
    let local = |x: Device| is_local(x);
    assert forall|j: int| 0 <= j < d implies !local(#[trigger] devices_later[j]) by {
        assert(devices_later[j] == devices[j]);
    }
    lemma_first_is(devices, local, d);
    lemma_first_is(devices_later, local, d);
    assert(own_device_of(layout) == Some(own));
    assert(own_device_of(other) == Some(own_later));
    let scene = Scene { layout, native_layout, origin_id, platform, own };
    let later = Scene {
        layout: other,
        native_layout: other_native,
        origin_id,
        platform,
        own: own_later,
    };
    let test = shows_here(rect);
    let hit = goes_from_here(screen.id@);
    let links = links_in_force(layout);
    let links_later = links_in_force(other);
    if layout.edge_links is Some {
        assert forall|link: LinkView| #[trigger]
            scene.worth(test)(link) >= later.worth(test)(link) + scene.worth(hit)(link) by {
            lemma_link_from_a_moved_screen(scene, later, link, d, k);
        }
        lemma_tally_of_the_same(links, scene.worth(test), later.worth(test), scene.worth(hit));
        lemma_rearranged_devices(layout, d, k, other);
        law_redrawing_keeps_the_targets(
            layout,
            native_layout,
            other,
            other_native,
            origin_id,
            platform,
        );
    } else {
        lemma_tally_of_a_local_move(scene, later, d, k);
    }
    lemma_fewer_than_before(scene, later, links, links_later, test, hit, i);
    lemma_another_count_shows(
        layout,
        native_layout,
        other,
        other_native,
        origin_id,
        platform,
        test,
    );
}

// ---------------------------------------------------------------------------
// Many screens move
// ---------------------------------------------------------------------------
/// However many screens move and however the links change, a remote screen that
/// is elsewhere or of another size shows in the fingerprint, if a target leads
/// to it, its device knows no other screen by the same id, and no id holds a
/// separator.
pub proof fn law_a_moved_screen_shows_among_others(
    layout: LayoutState,
    native_layout: LayoutState,
    other: LayoutState,
    other_native: LayoutState,
    origin_id: Seq<char>,
    platform: Platform,
    d: int,
    k: int,
    i: int,
)
    requires
        same_devices(layout.devices@, other.devices@),
        0 <= d < layout.devices@.len(),
        0 <= k < layout.devices@[d].screens@.len(),
        leads_to(layout, d, k),
        layout.devices@[d].screens@[k].rect() != other.devices@[d].screens@[k].rect(),
        ({
            let device = other.devices@[d];
            forall|r: int|
                0 <= r < device.screens@.len() && r != k ==> wire_screen_id(
                    device.id@,
                    (#[trigger] device.screens@[r]).id@,
                ) != wire_screen_id(device.id@, device.screens@[k].id@)
        }),
        ({
            let a = targets_of(layout, native_layout, origin_id, platform);
            let b = targets_of(other, other_native, origin_id, platform);
            &&& 0 <= i < a.len()
            &&& a[i].device_id == layout.devices@[d].id@
            &&& a[i].remote_screen.id@ == layout.devices@[d].screens@[k].id@
            &&& plainly_named(a)
            &&& plainly_named(b)
        }),
    ensures
        fingerprint_of(targets_of(layout, native_layout, origin_id, platform)) != fingerprint_of(
            targets_of(other, other_native, origin_id, platform),
        ),
{
    let a = targets_of(layout, native_layout, origin_id, platform);
    let b = targets_of(other, other_native, origin_id, platform);
    let devices = layout.devices@;
    let devices_later = other.devices@;
    let id = devices[d].id@;
    if fingerprint_of(a) == fingerprint_of(b) {
        law_a_fingerprint_tells_the_wiring(
            layout,
            native_layout,
            other,
            other_native,
            origin_id,
            platform,
        );
        assert(all_wired_alike(a, b));
        assert(named_alike(a[i], b[i]) && wired_alike(a[i], b[i]));
        let links = links_in_force(layout);
        let scene = Scene {
            layout,
            native_layout,
            origin_id,
            platform,
            own: own_device_of(layout)->0,
        };
        let n = lemma_target_has_a_link(scene, links, links.len(), i);
        lemma_target_is_the_screen(scene, links[n], d, k);
        assert(same_device(devices[d], devices_later[d]));
        assert(same_screen(devices[d].screens@[k], devices_later[d].screens@[k]));
        let links_later = links_in_force(other);
        let later = Scene {
            layout: other,
            native_layout: other_native,
            origin_id,
            platform,
            own: own_device_of(other)->0,
        };
        let m = lemma_target_has_a_link(later, links_later, links_later.len(), i);
        let (_, remote) = link_ends(later.own.id@, links_later[m])->0;
        lemma_first(devices_later, reachable_as(remote.device_id));
        assert(remote.device_id == id);
        assert forall|j: int| 0 <= j < d implies !reachable_as(id)(
            #[trigger] devices_later[j],
        ) by {
            assert(same_device(devices[j], devices_later[j]));
        }
        lemma_first_is(devices_later, reachable_as(id), d);
        let screens = devices_later[d].screens@;
        lemma_first(screens, goes_by(remote.screen_id));
        let r = choose|r: int| 0 <= r < screens.len() && #[trigger] screens[r] == b[i].remote_screen;
        assert(b[i].screen_id == wire_screen_id(id, screens[r].id@));
        assert(a[i].screen_id == wire_screen_id(id, devices[d].screens@[k].id@)) by {
            lemma_wire_id_of_target(scene, links[n]);
        }
        assert(r == k);
    }
}

proof fn lemma_wire_id_of_target(scene: Scene, link: LinkView)
    requires
        scene.target(link) is Some,
    ensures
        scene.target(link)->0.screen_id == wire_screen_id(
            scene.target(link)->0.device_id,
            scene.target(link)->0.remote_screen.id@,
        ),
{
}

} // verus!
