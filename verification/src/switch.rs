//! Switching screens by hotkey.

use crate::active::{
    active_target_at, handed_over, is_sound, on_target_screen, sound, ActiveTarget, ActiveView,
};
use crate::double::{clamped, lemma_whole_ordered, lemma_whole_zero, quotient, whole, zero, Double};
use crate::edge::{
    falls_on, middle_of, overlapping, point_in_screen, screen_center_point, screens_overlap,
    touching, touching_edge, two, Edge, Point,
};
use crate::layout::{
    find_screen, local_device, local_device_of, screen_named, LayoutState, Rect, Screen,
};
use crate::platform::{native_form, platform_native_screen, Platform};
use crate::receive::{find_primary_or_first, primary_or_first};
use crate::seqs::{find, first, lemma_first};
use crate::targets::{
    build_input_targets, find_target, native_screen_for, native_screen_of, target_views,
    targets_of, InputTarget, TargetView,
};
use crate::text::same;
use vstd::prelude::*;

verus! {

/// The direction that a hotkey asks for.
#[derive(Debug, Clone, Copy, PartialEq, Eq, Structural)]
pub enum SwitchDirection {
    Left,
    Right,
    Up,
    Down,
}

impl SwitchDirection {
    /// The side of the local screen that lies in a direction.
    pub open spec fn side(self) -> Edge {
        match self {
            SwitchDirection::Left => Edge::Left,
            SwitchDirection::Right => Edge::Right,
            SwitchDirection::Up => Edge::Top,
            SwitchDirection::Down => Edge::Bottom,
        }
    }

    pub fn matches_edge(self, edge: Edge) -> (r: bool)
        ensures
            r == (self.side() == edge),
    {
        match (self, edge) {
            (SwitchDirection::Left, Edge::Left) => true,
            (SwitchDirection::Right, Edge::Right) => true,
            (SwitchDirection::Up, Edge::Top) => true,
            (SwitchDirection::Down, Edge::Bottom) => true,
            _ => false,
        }
    }
}

/// What becomes of a request to switch.
#[derive(Debug)]
pub enum SwitchOutcome {
    /// A remote screen takes over.
    Enter(ActiveTarget),
    /// The cursor goes to another local screen.
    LocalMove { from_screen_id: String, to_screen_id: String, at: Point },
    /// Control comes home.
    Return,
    Noop,
}

/// The same, as texts and numbers.
pub enum OutcomeView {
    Enter(ActiveView),
    LocalMove { from_screen_id: Seq<char>, to_screen_id: Seq<char>, at: Point },
    Return,
    Noop,
}

impl View for SwitchOutcome {
    type V = OutcomeView;

    open spec fn view(&self) -> OutcomeView {
        match self {
            SwitchOutcome::Enter(active) => OutcomeView::Enter(active@),
            SwitchOutcome::LocalMove { from_screen_id, to_screen_id, at } => OutcomeView::LocalMove {
                from_screen_id: from_screen_id@,
                to_screen_id: to_screen_id@,
                at: *at,
            },
            SwitchOutcome::Return => OutcomeView::Return,
            SwitchOutcome::Noop => OutcomeView::Noop,
        }
    }
}

/// The test for a native screen that holds a point and is known in the layout.
pub open spec fn known_under(platform: Platform, screens: Seq<Screen>, p: Point) -> spec_fn(
    Screen,
) -> bool {
    |native: Screen|
        falls_on(native_form(platform, native).rect(), p) && screen_named(screens, native.id@) is Some
}

/// The test for a screen that holds a point.
pub open spec fn under(p: Point) -> spec_fn(Screen) -> bool {
    |screen: Screen| falls_on(screen.rect(), p)
}

/// The layout's screen under a native position: the one whose native form holds
/// it.
pub open spec fn natively_under(
    screens: Seq<Screen>,
    native_layout: LayoutState,
    platform: Platform,
    p: Point,
) -> Option<Screen> {
    match local_device_of(native_layout) {
        Some(native) => match first(native.screens@, known_under(platform, screens, p)) {
            Some(screen) => screen_named(screens, screen.id@),
            None => None,
        },
        None => None,
    }
}

/// The local screen that a switch starts from: the one under the cursor, or the
/// primary one.
pub open spec fn source_screen(
    layout: LayoutState,
    native_layout: LayoutState,
    platform: Platform,
    point: Option<Point>,
) -> Option<Screen> {
    match local_device_of(layout) {
        None => None,
        Some(local) => {
            let by_point = match point {
                None => None,
                Some(p) => match natively_under(local.screens@, native_layout, platform, p) {
                    Some(screen) => Some(screen),
                    None => first(local.screens@, under(p)),
                },
            };
            match by_point {
                Some(screen) => Some(screen),
                None => primary_or_first(local.screens@),
            }
        },
    }
}

fn find_natively_under<'a>(
    screens: &'a Vec<Screen>,
    native_layout: &LayoutState,
    platform: Platform,
    p: Point,
) -> (r: Option<&'a Screen>)
    ensures
        match r {
            Some(screen) => natively_under(screens@, *native_layout, platform, p) == Some(*screen),
            None => natively_under(screens@, *native_layout, platform, p) is None,
        },
{
    let native = match local_device(native_layout) {
        Some(native) => native,
        None => {
            return None;
        },
    };
    let test = |native: &Screen| -> (b: bool)
        ensures
            b == (falls_on(native_form(platform, *native).rect(), p) && screen_named(
                screens@,
                native.id@,
            ) is Some),
        {
            point_in_screen(&platform_native_screen(platform, native), p) && find_screen(
                screens,
                native.id.as_str(),
            ).is_some()
        };
    match find(&native.screens, test, Ghost(known_under(platform, screens@, p))) {
        Some(found) => find_screen(screens, found.id.as_str()),
        None => None,
    }
}

pub fn source_local_screen<'a>(
    layout: &'a LayoutState,
    native_layout: &LayoutState,
    platform: Platform,
    current_point: Option<Point>,
) -> (r: Option<&'a Screen>)
    ensures
        match r {
            Some(screen) => source_screen(*layout, *native_layout, platform, current_point) == Some(
                *screen,
            ),
            None => source_screen(*layout, *native_layout, platform, current_point) is None,
        },
{
    let local = match local_device(layout) {
        Some(local) => local,
        None => {
            return None;
        },
    };
    match current_point {
        Some(p) => {
            match find_natively_under(&local.screens, native_layout, platform, p) {
                Some(screen) => {
                    return Some(screen);
                },
                None => {},
            }
            let test = |screen: &Screen| -> (b: bool)
                ensures
                    b == falls_on(screen.rect(), p),
                { point_in_screen(screen, p) };
            match find(&local.screens, test, Ghost(under(p))) {
                Some(screen) => {
                    return Some(screen);
                },
                None => {},
            }
        },
        None => {},
    }
    find_primary_or_first(&local.screens)
}

/// A way from one local screen to another.
#[derive(Debug)]
pub struct LocalScreenMove {
    pub from_screen_id: String,
    pub to_screen_id: String,
    pub at: Point,
}

/// The test for a screen that touches another one on a given side.
pub open spec fn beside(source: Screen, edge: Edge) -> spec_fn(Screen) -> bool {
    |screen: Screen|
        {
            &&& screen.id@ != source.id@
            &&& !overlapping(source.rect(), screen.rect())
            &&& touching(source.rect(), screen.rect()) == Some(edge)
        }
}

/// The screen that a move starts from.
pub open spec fn move_source(screens: Seq<Screen>, id: Option<Seq<char>>) -> Option<Screen> {
    let named = match id {
        Some(id) => screen_named(screens, id),
        None => None,
    };
    match named {
        Some(screen) => Some(screen),
        None => primary_or_first(screens),
    }
}

/// The local screen in a direction, if there is one, and the middle of its
/// native form.
pub open spec fn local_move(
    direction: SwitchDirection,
    layout: LayoutState,
    native_layout: LayoutState,
    platform: Platform,
    source_id: Option<Seq<char>>,
) -> Option<(Seq<char>, Seq<char>, Point)> {
    match local_device_of(layout) {
        None => None,
        Some(local) => match move_source(local.screens@, source_id) {
            None => None,
            Some(source) => match first(local.screens@, beside(source, direction.side())) {
                None => None,
                Some(screen) => Some(
                    (
                        source.id@,
                        screen.id@,
                        middle_of(native_screen_of(native_layout, platform, screen).rect()),
                    ),
                ),
            },
        },
    }
}

pub fn local_screen_switch_point(
    direction: SwitchDirection,
    layout: &LayoutState,
    native_layout: &LayoutState,
    platform: Platform,
    source_screen_id: Option<&str>,
) -> (r: Option<LocalScreenMove>)
    ensures
        local_move(
            direction,
            *layout,
            *native_layout,
            platform,
            match source_screen_id {
                Some(id) => Some(id@),
                None => None,
            },
        ) == match r {
            Some(way) => Some((way.from_screen_id@, way.to_screen_id@, way.at)),
            None => None,
        },
{
    let local = match local_device(layout) {
        Some(local) => local,
        None => {
            return None;
        },
    };
    let named = match source_screen_id {
        Some(id) => find_screen(&local.screens, id),
        None => None,
    };
    let source = match named {
        Some(screen) => screen,
        None => match find_primary_or_first(&local.screens) {
            Some(screen) => screen,
            None => {
                return None;
            },
        },
    };
    let test = |screen: &Screen| -> (b: bool)
        ensures
            b == (screen.id@ != source.id@ && !overlapping(source.rect(), screen.rect())
                && touching(source.rect(), screen.rect()) == Some(direction.side())),
        {
            !same(screen.id.as_str(), source.id.as_str()) && !screens_overlap(source, screen)
                && match touching_edge(source, screen) {
                Some(edge) => direction.matches_edge(edge),
                None => false,
            }
        };
    let screen = match find(&local.screens, test, Ghost(beside(*source, direction.side()))) {
        Some(screen) => screen,
        None => {
            return None;
        },
    };
    let native = native_screen_for(native_layout, platform, screen);
    Some(
        LocalScreenMove {
            from_screen_id: source.id.clone(),
            to_screen_id: screen.id.clone(),
            at: screen_center_point(&native),
        },
    )
}

/// The test for a target over a side, of one local screen where it is known.
pub open spec fn over_side(source_id: Option<Seq<char>>, edge: Edge) -> spec_fn(TargetView) -> bool {
    |target: TargetView|
        (source_id matches Some(id) ==> target.layout_local_screen.id@ == id) && target.edge == edge
}

/// The target that a switch enters: one over that side of the screen it starts
/// from, or else of any local screen.
pub open spec fn entered_target(
    targets: Seq<TargetView>,
    source_id: Option<Seq<char>>,
    edge: Edge,
) -> Option<TargetView> {
    match first(targets, over_side(source_id, edge)) {
        Some(target) => Some(target),
        None => first(targets, over_side(None, edge)),
    }
}

/// The middle of a screen, relative to its origin.
pub open spec fn centre_of(screen: Rect) -> Point {
    Point {
        x: clamped(quotient(whole(screen.width), two()), zero(), whole(screen.width - 1)),
        y: clamped(quotient(whole(screen.height), two()), zero(), whole(screen.height - 1)),
    }
}

fn screen_centre(screen: &Screen) -> (r: Point)
    requires
        screen.rect().has_area(),
    ensures
        r == centre_of(screen.rect()),
{
    proof {
        lemma_whole_zero();
        lemma_whole_ordered(0, screen.width - 1);
        lemma_whole_ordered(0, screen.height - 1);
    }
    let halved = Double { bits: 0x4000_0000_0000_0000 };
    Point {
        x: Double::from_int(screen.width as i64).over(halved).clamp(
            Double::zero(),
            Double::from_int(screen.width as i64 - 1),
        ),
        y: Double::from_int(screen.height as i64).over(halved).clamp(
            Double::zero(),
            Double::from_int(screen.height as i64 - 1),
        ),
    }
}

/// The id of the screen that a switch starts from.
pub open spec fn source_id_of(
    layout: LayoutState,
    native_layout: LayoutState,
    platform: Platform,
    point: Option<Point>,
) -> Option<Seq<char>> {
    match source_screen(layout, native_layout, platform, point) {
        Some(screen) => Some(screen.id@),
        None => None,
    }
}

/// The target that a request enters while this machine is not controlling
/// another.
pub open spec fn switch_target(
    direction: SwitchDirection,
    layout: LayoutState,
    native_layout: LayoutState,
    origin_id: Seq<char>,
    platform: Platform,
    point: Option<Point>,
) -> Option<TargetView> {
    entered_target(
        targets_of(layout, native_layout, origin_id, platform),
        source_id_of(layout, native_layout, platform, point),
        direction.side(),
    )
}

/// What a request to switch does: it ends remote control, or goes to the local
/// screen in that direction, or to the middle of a remote one.
pub open spec fn switched(
    direction: SwitchDirection,
    layout: LayoutState,
    native_layout: LayoutState,
    origin_id: Seq<char>,
    platform: Platform,
    remote: bool,
    point: Option<Point>,
) -> OutcomeView {
    if remote {
        OutcomeView::Return
    } else {
        match local_move(
            direction,
            layout,
            native_layout,
            platform,
            source_id_of(layout, native_layout, platform, point),
        ) {
            Some((from_screen_id, to_screen_id, at)) => OutcomeView::LocalMove {
                from_screen_id,
                to_screen_id,
                at,
            },
            None => match switch_target(
                direction,
                layout,
                native_layout,
                origin_id,
                platform,
                point,
            ) {
                Some(target) => OutcomeView::Enter(
                    handed_over(target, centre_of(target.remote_screen.rect()), false),
                ),
                None => OutcomeView::Noop,
            },
        }
    }
}

fn find_entered_target(targets: &Vec<InputTarget>, source_id: Option<&str>, direction: SwitchDirection) -> (r:
    Option<usize>)
    ensures
        match r {
            Some(i) => i < targets.len() && entered_target(
                target_views(targets@),
                match source_id {
                    Some(id) => Some(id@),
                    None => None,
                },
                direction.side(),
            ) == Some(targets@[i as int]@),
            None => entered_target(
                target_views(targets@),
                match source_id {
                    Some(id) => Some(id@),
                    None => None,
                },
                direction.side(),
            ) is None,
        },
{
    let ghost id = match source_id {
        Some(id) => Some(id@),
        None => None,
    };
    let here = |target: &InputTarget| -> (b: bool)
        ensures
            b == ((source_id matches Some(id) ==> target.layout_local_screen.id@ == id@)
                && target.edge == direction.side()),
        {
            (match source_id {
                Some(id) => same(target.layout_local_screen.id.as_str(), id),
                None => true,
            }) && direction.matches_edge(target.edge)
        };
    match find_target(targets, here, Ghost(over_side(id, direction.side()))) {
        Some(i) => {
            return Some(i);
        },
        None => {},
    }
    let anywhere = |target: &InputTarget| -> (b: bool)
        ensures
            b == (target.edge == direction.side()),
        { direction.matches_edge(target.edge) };
    find_target(targets, anywhere, Ghost(over_side(None, direction.side())))
}

/// Where a request leads.
enum Way {
    Return,
    Local(LocalScreenMove),
    Remote(InputTarget),
    Nowhere,
}

fn find_way(
    direction: SwitchDirection,
    layout: &LayoutState,
    native_layout: &LayoutState,
    origin_device_id: &str,
    platform: Platform,
    currently_remote: bool,
    current_point: Option<Point>,
) -> (r: Way)
    ensures
        switched(
            direction,
            *layout,
            *native_layout,
            origin_device_id@,
            platform,
            currently_remote,
            current_point,
        ) == match r {
            Way::Return => OutcomeView::Return,
            Way::Local(way) => OutcomeView::LocalMove {
                from_screen_id: way.from_screen_id@,
                to_screen_id: way.to_screen_id@,
                at: way.at,
            },
            Way::Remote(target) => OutcomeView::Enter(
                handed_over(target@, centre_of(target.remote_screen.rect()), false),
            ),
            Way::Nowhere => OutcomeView::Noop,
        },
{
    if currently_remote {
        return Way::Return;
    }
    let source_id: Option<&str> = match source_local_screen(
        layout,
        native_layout,
        platform,
        current_point,
    ) {
        Some(screen) => Some(screen.id.as_str()),
        None => None,
    };
    match local_screen_switch_point(direction, layout, native_layout, platform, source_id) {
        Some(way) => {
            return Way::Local(way);
        },
        None => {},
    }
    let targets = build_input_targets(layout, native_layout, origin_device_id, platform);
    match find_entered_target(&targets, source_id, direction) {
        Some(i) => Way::Remote(targets[i].clone()),
        None => Way::Nowhere,
    }
}

/// Whether a request that enters a remote screen lands where there are pixels,
/// and can come home from there.
pub fn switch_lands(
    direction: SwitchDirection,
    layout: &LayoutState,
    native_layout: &LayoutState,
    origin_device_id: &str,
    platform: Platform,
    currently_remote: bool,
    current_point: Option<Point>,
) -> (r: bool)
    ensures
        r == (switched(
            direction,
            *layout,
            *native_layout,
            origin_device_id@,
            platform,
            currently_remote,
            current_point,
        ) matches OutcomeView::Enter(a) ==> sound(a)),
{
    match find_way(
        direction,
        layout,
        native_layout,
        origin_device_id,
        platform,
        currently_remote,
        current_point,
    ) {
        Way::Remote(target) => is_sound(&target),
        _ => true,
    }
}

pub fn request_screen_switch_from_point(
    direction: SwitchDirection,
    layout: &LayoutState,
    native_layout: &LayoutState,
    origin_device_id: &str,
    platform: Platform,
    currently_remote: bool,
    current_point: Option<Point>,
) -> (r: SwitchOutcome)
    requires
        switched(
            direction,
            *layout,
            *native_layout,
            origin_device_id@,
            platform,
            currently_remote,
            current_point,
        ) matches OutcomeView::Enter(a) ==> a.screen.has_area(),
    ensures
        r@ == switched(
            direction,
            *layout,
            *native_layout,
            origin_device_id@,
            platform,
            currently_remote,
            current_point,
        ),
        r matches SwitchOutcome::Enter(active) ==> on_target_screen(active),
{
    match find_way(
        direction,
        layout,
        native_layout,
        origin_device_id,
        platform,
        currently_remote,
        current_point,
    ) {
        Way::Return => SwitchOutcome::Return,
        Way::Local(way) => SwitchOutcome::LocalMove {
            from_screen_id: way.from_screen_id,
            to_screen_id: way.to_screen_id,
            at: way.at,
        },
        Way::Remote(target) => {
            let centre = screen_centre(&target.remote_screen);
            SwitchOutcome::Enter(active_target_at(&target, centre, false))
        },
        Way::Nowhere => SwitchOutcome::Noop,
    }
}

/// The same without a cursor to start from.
pub fn request_screen_switch(
    direction: SwitchDirection,
    layout: &LayoutState,
    native_layout: &LayoutState,
    origin_device_id: &str,
    platform: Platform,
    currently_remote: bool,
) -> (r: SwitchOutcome)
    requires
        switched(
            direction,
            *layout,
            *native_layout,
            origin_device_id@,
            platform,
            currently_remote,
            None,
        ) matches OutcomeView::Enter(a) ==> a.screen.has_area(),
    ensures
        r@ == switched(
            direction,
            *layout,
            *native_layout,
            origin_device_id@,
            platform,
            currently_remote,
            None,
        ),
        r matches SwitchOutcome::Enter(active) ==> on_target_screen(active),
{
    request_screen_switch_from_point(
        direction,
        layout,
        native_layout,
        origin_device_id,
        platform,
        currently_remote,
        None,
    )
}

/// While another machine is being controlled every request brings control home;
/// else one never does, and what it enters lies in the direction asked for.
pub proof fn law_a_switch_returns_or_goes_that_way(
    direction: SwitchDirection,
    layout: LayoutState,
    native_layout: LayoutState,
    origin_id: Seq<char>,
    platform: Platform,
    remote: bool,
    point: Option<Point>,
)
    ensures
        ({
            let outcome = switched(
                direction,
                layout,
                native_layout,
                origin_id,
                platform,
                remote,
                point,
            );
            &&& remote == (outcome is Return)
            &&& outcome matches OutcomeView::Enter(active) ==> active.target.edge
                == direction.side()
        }),
{
    let targets = targets_of(layout, native_layout, origin_id, platform);
    let id = source_id_of(layout, native_layout, platform, point);
    lemma_first(targets, over_side(id, direction.side()));
    lemma_first(targets, over_side(None, direction.side()));
}

// ---------------------------------------------------------------------------
// Where the cursor was on each local screen
// ---------------------------------------------------------------------------
/// The last cursor position on each local screen.
#[derive(Debug)]
pub struct ScreenPoints {
    entries: Vec<(String, Point)>,
}

/// The positions of a list of entries by screen; a later entry hides an earlier
/// one.
pub open spec fn last_points(entries: Seq<(String, Point)>) -> Map<Seq<char>, Point>
    decreases entries.len(),
{
    if entries.len() == 0 {
        Map::empty()
    } else {
        last_points(entries.drop_last()).insert(entries.last().0@, entries.last().1)
    }
}

impl View for ScreenPoints {
    type V = Map<Seq<char>, Point>;

    closed spec fn view(&self) -> Map<Seq<char>, Point> {
        last_points(self.entries@)
    }
}

proof fn lemma_last_points(entries: Seq<(String, Point)>, name: Seq<char>, i: int)
    requires
        0 <= i <= entries.len(),
        forall|j: int| i <= j < entries.len() ==> (#[trigger] entries[j]).0@ != name,
    ensures
        last_points(entries).dom().contains(name) == last_points(entries.take(i)).dom().contains(
            name,
        ),
        last_points(entries).dom().contains(name) ==> last_points(entries)[name] == last_points(
            entries.take(i),
        )[name],
    decreases entries.len(),
{
    if i == entries.len() {
        assert(entries.take(i) =~= entries);
    } else {
        let front = entries.drop_last();
        lemma_last_points(front, name, i);
        assert(front.take(i) =~= entries.take(i));
        assert(entries.last() == entries[entries.len() - 1]);
    }
}

impl ScreenPoints {
    pub fn new() -> (r: ScreenPoints)
        ensures
            r@ == Map::<Seq<char>, Point>::empty(),
    {
        ScreenPoints { entries: Vec::new() }
    }

    /// The position on a screen.
    pub fn get(&self, screen_id: &str) -> (r: Option<Point>)
        ensures
            match r {
                Some(p) => self@.dom().contains(screen_id@) && self@[screen_id@] == p,
                None => !self@.dom().contains(screen_id@),
            },
    {
        let mut i: usize = self.entries.len();
        while i > 0
            invariant
                i <= self.entries.len(),
                forall|j: int|
                    i <= j < self.entries.len() ==> (#[trigger] self.entries@[j]).0@ != screen_id@,
            decreases i,
        {
            if same(self.entries[i - 1].0.as_str(), screen_id) {
                proof {
                    lemma_last_points(self.entries@, screen_id@, i as int);
                    assert(self.entries@.take(i as int).last() == self.entries@[i - 1]);
                }
                return Some(self.entries[i - 1].1);
            }
            i = i - 1;
        }
        proof {
            lemma_last_points(self.entries@, screen_id@, 0);
            assert(self.entries@.take(0) =~= Seq::<(String, Point)>::empty());
        }
        None
    }

    /// Notes the position on a screen.
    pub fn put(&mut self, screen_id: &str, p: Point)
        ensures
            final(self)@ == old(self)@.insert(screen_id@, p),
    {
        let mut i: usize = 0;
        while i < self.entries.len()
            invariant
                i <= self.entries.len(),
                *self == *old(self),
                forall|j: int| 0 <= j < i ==> (#[trigger] self.entries@[j]).0@ != screen_id@,
            decreases self.entries.len() - i,
        {
            if same(self.entries[i].0.as_str(), screen_id) {
                let ghost before = self.entries@;
                let _ = self.entries.remove(i);
                proof {
                    lemma_without(before, i as int);
                }
                let ghost kept = self.entries@;
                self.entries.push((String::from_str(screen_id), p));
                assert(self.entries@.drop_last() =~= kept);
                proof {
                    let name = screen_id@;
                    assert(last_points(kept).insert(name, p) =~= last_points(kept).remove(
                        name,
                    ).insert(name, p));
                    assert(last_points(before).insert(name, p) =~= last_points(before).remove(
                        name,
                    ).insert(name, p));
                }
                return;
            }
            i = i + 1;
        }
        let ghost kept = self.entries@;
        self.entries.push((String::from_str(screen_id), p));
        assert(self.entries@.drop_last() =~= kept);
    }
}

proof fn lemma_without(entries: Seq<(String, Point)>, i: int)
    requires
        0 <= i < entries.len(),
    ensures
        last_points(entries).remove(entries[i].0@) == last_points(entries.remove(i)).remove(
            entries[i].0@,
        ),
    decreases entries.len(),
{
    let front = entries.drop_last();
    let name = entries[i].0@;
    if i == entries.len() - 1 {
        assert(entries.remove(i) =~= front);
        assert(last_points(entries).remove(name) =~= last_points(front).remove(name));
    } else {
        lemma_without(front, i);
        let rest = entries.remove(i);
        let last = entries.last();
        assert(rest.drop_last() =~= front.remove(i));
        assert(rest.last() == last);
        let before = last_points(front).remove(name);
        let after = last_points(front.remove(i)).remove(name);
        assert(before == after);
        if last.0@ == name {
            assert(last_points(entries).remove(name) =~= before);
            assert(last_points(rest).remove(name) =~= after);
        } else {
            assert(last_points(entries).remove(name) =~= before.insert(last.0@, last.1));
            assert(last_points(rest).remove(name) =~= after.insert(last.0@, last.1));
        }
    }
}

/// The positions after leaving a screen for another.
pub open spec fn points_left(
    points: Map<Seq<char>, Point>,
    from_id: Seq<char>,
    current: Option<Point>,
) -> Map<Seq<char>, Point> {
    match current {
        Some(p) => points.insert(from_id, p),
        None => points,
    }
}

/// The position on the screen that is entered: where the cursor was last, or a
/// fallback.
pub open spec fn point_or(points: Map<Seq<char>, Point>, id: Seq<char>, fallback: Point) -> Point {
    if points.dom().contains(id) {
        points[id]
    } else {
        fallback
    }
}

pub fn remembered_local_screen_point(
    points: &mut ScreenPoints,
    from_screen_id: &str,
    to_screen_id: &str,
    current_point: Option<Point>,
    fallback: Point,
) -> (r: Point)
    ensures
        final(points)@ == points_left(old(points)@, from_screen_id@, current_point),
        r == point_or(final(points)@, to_screen_id@, fallback),
{
    match current_point {
        Some(p) => points.put(from_screen_id, p),
        None => {},
    }
    match points.get(to_screen_id) {
        Some(p) => p,
        None => fallback,
    }
}

/// Going to another screen and back puts the cursor where it was.
pub proof fn law_screens_remember_their_cursor(
    points: Map<Seq<char>, Point>,
    here: Seq<char>,
    there: Seq<char>,
    left_at: Point,
    back_from: Option<Point>,
    fallback: Point,
)
    requires
        here != there,
    ensures
        point_or(
            points_left(points_left(points, here, Some(left_at)), there, back_from),
            here,
            fallback,
        ) == left_at,
{
}

} // verus!
