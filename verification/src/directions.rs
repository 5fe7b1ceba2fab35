//! Where a hotkey leads, told by the places of the screens.

use crate::active::reachable;
use crate::edge::{falls_on, Edge, Point};
use crate::landing::fine;
use crate::layout::{goes_by, local_device_of, screen_named, LayoutState, Screen};
use crate::meeting::{
    half_way, law_overlapping_screens_share_a_pixel, law_screens_touch_where_they_stand_side_by_side,
    law_the_middle_is_half_way, lemma_half_of, stands_at,
};
use crate::order::{close, unit};
use crate::platform::{native_form, Platform};
use crate::receive::{primary, primary_or_first, screen_or_primary};
use crate::seqs::{first, lemma_first, lemma_first_is};
use crate::switch::{
    beside, entered_target, known_under, local_move, move_source, over_side, source_id_of,
    source_screen, switched, under, OutcomeView, SwitchDirection,
};
use crate::targets::{native_screen_of, targets_of};
use vstd::prelude::*;

verus! {

/// The side that one faces in a direction.
pub open spec fn faced(direction: SwitchDirection) -> Edge {
    match direction {
        SwitchDirection::Left => Edge::Left,
        SwitchDirection::Right => Edge::Right,
        SwitchDirection::Up => Edge::Top,
        SwitchDirection::Down => Edge::Bottom,
    }
}

/// A screen is found by its id: the first that has it, wherever one does.
pub proof fn law_screens_are_found_by_their_id(screens: Seq<Screen>, id: Seq<char>)
    ensures
        match screen_named(screens, id) {
            Some(screen) => {
                &&& screen.id@ == id
                &&& exists|i: int|
                    0 <= i < screens.len() && #[trigger] screens[i] == screen && forall|j: int|
                        0 <= j < i ==> (#[trigger] screens[j]).id@ != id
            },
            None => forall|i: int| 0 <= i < screens.len() ==> (#[trigger] screens[i]).id@ != id,
        },
{
    lemma_first(screens, goes_by(id));
    match first(screens, goes_by(id)) {
        Some(screen) => {
            let i = choose|i: int|
                0 <= i < screens.len() && #[trigger] screens[i] == screen && forall|j: int|
                    0 <= j < i ==> !goes_by(id)(#[trigger] screens[j]);
            assert forall|j: int| 0 <= j < i implies (#[trigger] screens[j]).id@ != id by {
                assert(!goes_by(id)(screens[j]));
            }
        },
        None => {
            assert forall|i: int| 0 <= i < screens.len() implies (#[trigger] screens[i]).id@
                != id by {
                assert(!goes_by(id)(screens[i]));
            }
        },
    }
}

/// The screen that stands for all of a machine's: its primary one, or the first
/// where none is.
pub proof fn law_the_primary_screen_comes_first(screens: Seq<Screen>)
    ensures
        match primary_or_first(screens) {
            Some(screen) => {
                &&& screens.contains(screen)
                &&& !screen.is_primary ==> screen == screens[0] && forall|i: int|
                    0 <= i < screens.len() ==> !(#[trigger] screens[i]).is_primary
            },
            None => screens.len() == 0,
        },
{
    lemma_first(screens, primary());
    match first(screens, primary()) {
        Some(screen) => {},
        None => {
            assert forall|i: int| 0 <= i < screens.len() implies !(
            #[trigger] screens[i]).is_primary by {
                assert(!primary()(screens[i]));
            }
            if screens.len() > 0 {
                assert(screens.contains(screens[0]));
            }
        },
    }
}

/// An event's screen is the one of its id wherever there is one.
pub proof fn law_an_event_means_the_screen_it_names(screens: Seq<Screen>, id: Seq<char>)
    ensures
        match screen_or_primary(screens, id) {
            Some(screen) => {
                &&& screens.contains(screen)
                &&& screen.id@ == id || forall|i: int|
                    0 <= i < screens.len() ==> (#[trigger] screens[i]).id@ != id
            },
            None => screens.len() == 0,
        },
{
    law_the_primary_screen_comes_first(screens);
    law_screens_are_found_by_their_id(screens, id);
}

/// A switch between local screens goes to one that stands at the faced side of
/// the screen it starts from, shares no pixel with it, and is another one; the
/// cursor goes to the middle of its native form. There is such a switch wherever
/// there is such a screen.
pub proof fn law_a_local_switch_goes_to_the_faced_screen(
    direction: SwitchDirection,
    layout: LayoutState,
    native_layout: LayoutState,
    platform: Platform,
    source_id: Option<Seq<char>>,
)
    requires
        local_device_of(layout) is Some,
        forall|i: int|
            0 <= i < (local_device_of(layout)->0).screens@.len() ==> {
                let screen = #[trigger] (local_device_of(layout)->0).screens@[i];
                let native = native_screen_of(native_layout, platform, screen).rect();
                &&& screen.rect().has_area()
                &&& reachable(native)
                &&& native.width >= 2
                &&& native.height >= 2
            },
    ensures
        ({
            let screens = (local_device_of(layout)->0).screens@;
            let source = move_source(screens, source_id);
            match local_move(direction, layout, native_layout, platform, source_id) {
                Some((from, to, at)) => {
                    &&& source matches Some(here) && here.id@ == from
                    &&& exists|i: int|
                        0 <= i < screens.len() && (#[trigger] screens[i]).id@ == to
                            && screens[i].id@ != from && stands_at(
                            (source->0).rect(),
                            screens[i].rect(),
                            faced(direction),
                        ) && (forall|x: int, y: int|
                            !(#[trigger] crate::meeting::covers_pixel((source->0).rect(), x, y)
                                && crate::meeting::covers_pixel(screens[i].rect(), x, y)))
                            && half_way(
                            native_screen_of(native_layout, platform, screens[i]).rect(),
                            at,
                        )
                },
                None => true,
            }
        }),
{
    let screens = (local_device_of(layout)->0).screens@;
    match move_source(screens, source_id) {
        Some(source) => {
            law_the_primary_screen_comes_first(screens);
            match source_id {
                Some(id) => law_screens_are_found_by_their_id(screens, id),
                None => {},
            }
            let test = beside(source, direction.side());
            lemma_first(screens, test);
            match first(screens, test) {
                Some(screen) => {
                    let i = choose|i: int| 0 <= i < screens.len() && #[trigger] screens[i] == screen;
                    law_screens_touch_where_they_stand_side_by_side(
                        source.rect(),
                        screen.rect(),
                        faced(direction),
                    );
                    let k = choose|k: int| 0 <= k < screens.len() && #[trigger] screens[k] == source;
                    law_overlapping_screens_share_a_pixel(source.rect(), screen.rect());
                    law_the_middle_is_half_way(
                        native_screen_of(native_layout, platform, screen).rect(),
                    );
                },
                None => {},
            }
        },
        None => {},
    }
}

/// A switch starts from the screen under the cursor: the first native screen
/// that holds the position and is known in the layout says which.
pub proof fn law_a_switch_starts_under_the_cursor(
    layout: LayoutState,
    native_layout: LayoutState,
    platform: Platform,
    p: Point,
    i: int,
)
    requires
        local_device_of(layout) is Some,
        local_device_of(native_layout) is Some,
        0 <= i < (local_device_of(native_layout)->0).screens@.len(),
        ({
            let screens = (local_device_of(layout)->0).screens@;
            let natives = (local_device_of(native_layout)->0).screens@;
            &&& falls_on(native_form(platform, natives[i]).rect(), p)
            &&& screen_named(screens, natives[i].id@) is Some
            &&& forall|j: int|
                0 <= j < i ==> !falls_on(native_form(platform, #[trigger] natives[j]).rect(), p)
        }),
    ensures
        ({
            let screens = (local_device_of(layout)->0).screens@;
            let natives = (local_device_of(native_layout)->0).screens@;
            source_screen(layout, native_layout, platform, Some(p)) == screen_named(
                screens,
                natives[i].id@,
            )
        }),
{
    let screens = (local_device_of(layout)->0).screens@;
    let natives = (local_device_of(native_layout)->0).screens@;
    lemma_first_is(natives, known_under(platform, screens, p), i);
}

/// Where no native layout is known, the first screen of the layout that holds
/// the position is the one that a switch starts from.
pub proof fn law_a_switch_starts_under_the_cursor_in_the_layout(
    layout: LayoutState,
    native_layout: LayoutState,
    platform: Platform,
    p: Point,
    i: int,
)
    requires
        local_device_of(layout) is Some,
        local_device_of(native_layout) is None,
        0 <= i < (local_device_of(layout)->0).screens@.len(),
        ({
            let screens = (local_device_of(layout)->0).screens@;
            &&& falls_on(screens[i].rect(), p)
            &&& forall|j: int| 0 <= j < i ==> !falls_on((#[trigger] screens[j]).rect(), p)
        }),
    ensures
        source_screen(layout, native_layout, platform, Some(p)) == Some(
            (local_device_of(layout)->0).screens@[i],
        ),
{
    lemma_first_is((local_device_of(layout)->0).screens@, under(p), i);
}

/// A switch starts from a local screen; without a cursor it is the one that
/// stands for all of them.
pub proof fn law_a_switch_starts_from_a_local_screen(
    layout: LayoutState,
    native_layout: LayoutState,
    platform: Platform,
    point: Option<Point>,
)
    requires
        local_device_of(layout) is Some,
    ensures
        ({
            let screens = (local_device_of(layout)->0).screens@;
            let source = source_screen(layout, native_layout, platform, point);
            &&& source matches Some(screen) ==> screens.contains(screen)
            &&& source is None ==> screens.len() == 0
            &&& point is None ==> source == primary_or_first(screens)
        }),
{
    let screens = (local_device_of(layout)->0).screens@;
    law_the_primary_screen_comes_first(screens);
    match point {
        Some(p) => {
            lemma_first(screens, under(p));
            match local_device_of(native_layout) {
                Some(native) => {
                    match first(
                        native.screens@,
                        known_under(platform, screens, p),
                    ) {
                        Some(screen) => law_screens_are_found_by_their_id(screens, screen.id@),
                        None => {},
                    }
                },
                None => {},
            }
        },
        None => {},
    }
}

/// A switch to another machine enters a target over the faced side, in the
/// middle of its screen; one of the screen that it starts from wherever that
/// has one there. There is such a switch wherever there is a target over the
/// faced side and no local screen is in the way.
pub proof fn law_a_switch_enters_the_faced_machine(
    direction: SwitchDirection,
    layout: LayoutState,
    native_layout: LayoutState,
    origin_id: Seq<char>,
    platform: Platform,
    point: Option<Point>,
    i: int,
)
    requires
        0 <= i < targets_of(layout, native_layout, origin_id, platform).len(),
        targets_of(layout, native_layout, origin_id, platform)[i].edge == faced(direction),
        local_move(
            direction,
            layout,
            native_layout,
            platform,
            source_id_of(layout, native_layout, platform, point),
        ) is None,
    ensures
        ({
            let targets = targets_of(layout, native_layout, origin_id, platform);
            let source = source_id_of(layout, native_layout, platform, point);
            let outcome = switched(
                direction,
                layout,
                native_layout,
                origin_id,
                platform,
                false,
                point,
            );
            &&& outcome matches OutcomeView::Enter(a)
            &&& a.target.edge == faced(direction)
            &&& targets.contains(a.target)
            &&& a.screen == a.target.remote_screen.rect()
            &&& a.screen_id == a.target.screen_id
            &&& source is Some && targets[i].layout_local_screen.id@ == source->0
                ==> a.target.layout_local_screen.id@ == source->0
            &&& reachable(a.screen) && a.screen.width >= 2 && a.screen.height >= 2 ==> {
                &&& a.at.x.finite()
                &&& a.at.y.finite()
                &&& close(
                    4 * fine() * a.at.x.value(),
                    2 * fine() * (a.screen.width * unit()),
                    unit(),
                )
                &&& close(
                    4 * fine() * a.at.y.value(),
                    2 * fine() * (a.screen.height * unit()),
                    unit(),
                )
            }
        }),
{
    let targets = targets_of(layout, native_layout, origin_id, platform);
    let source = source_id_of(layout, native_layout, platform, point);
    let edge = faced(direction);
    lemma_first(targets, over_side(source, edge));
    lemma_first(targets, over_side(None, edge));
    assert(over_side(None, edge)(targets[i]));
    let target = entered_target(targets, source, edge)->0;
    if source is Some && targets[i].layout_local_screen.id@ == source->0 {
        assert(over_side(source, edge)(targets[i]));
    }
    let screen = target.remote_screen.rect();
    if reachable(screen) && screen.width >= 2 && screen.height >= 2 {
        lemma_half_of(screen.width);
        lemma_half_of(screen.height);
    }
}

} // verus!
