//! Handing the cursor over to a remote screen, following it there, and bringing
//! it home.

use crate::double::{
    absolute, clamped, difference, half, larger, law_integers_add_exactly, lemma_whole_at_most,
    lemma_whole_of_eight_digits, lemma_whole_one, lemma_whole_ordered, lemma_whole_zero, negated,
    one, product, quotient, rounded, smaller, sum, whole, zero, Double,
};
use crate::edge::{
    at_least_one, edge_entry_point, edge_entry_point_pushed, entry_point, falls_on, fraction_along,
    length_or_one, middle_of, on_screen, point_in_local_bounds, point_in_screen,
    screen_center_point, side_fraction, Edge, Point,
};
use crate::layout::{Device, LayoutState, Rect, Screen};
use crate::rounding::lemma_nearest_of_nothing;
use crate::seqs::{find, first, lemma_first, lemma_first_step, position};
use crate::shared_input::{EventView, InputEvent};
use crate::targets::{peer_screen_id, target_views, wire_screen_id, InputTarget, TargetView};
use crate::text::{lowered, same, same_ignoring_ascii_case};
use vstd::arithmetic::power2::{lemma_pow2_pos, pow2};
use vstd::prelude::*;

verus! {

/// A remote screen that is being controlled, and where its cursor is.
#[derive(Debug)]
pub struct ActiveTarget {
    pub target: InputTarget,
    /// The remote screen under the cursor. It starts as the one that was
    /// crossed into and changes as the cursor roams over the device's others.
    pub current_screen: Screen,
    /// The id that is sent for that screen.
    pub current_screen_id: String,
    /// The cursor, relative to that screen.
    pub x: Double,
    pub y: Double,
    /// Whether vertical movement arrives upside down.
    pub invert_y: bool,
}

/// What a hand-over says, as texts and numbers.
pub struct ActiveView {
    pub target: TargetView,
    pub screen: Rect,
    pub screen_name: Seq<char>,
    pub screen_id: Seq<char>,
    pub at: Point,
    pub invert_y: bool,
}

impl View for ActiveTarget {
    type V = ActiveView;

    open spec fn view(&self) -> ActiveView {
        ActiveView {
            target: self.target@,
            screen: self.current_screen.rect(),
            screen_name: self.current_screen.id@,
            screen_id: self.current_screen_id@,
            at: Point { x: self.x, y: self.y },
            invert_y: self.invert_y,
        }
    }
}

impl Clone for ActiveTarget {
    fn clone(&self) -> (r: ActiveTarget)
        ensures
            r == *self,
    {
        ActiveTarget {
            target: self.target.clone(),
            current_screen: self.current_screen.clone(),
            current_screen_id: self.current_screen_id.clone(),
            x: self.x,
            y: self.y,
            invert_y: self.invert_y,
        }
    }
}

/// Whether a side of a screen holds pixels.
pub open spec fn bordered(screen: Rect, edge: Edge) -> bool {
    if edge.horizontal() {
        screen.width >= 1
    } else {
        screen.height >= 1
    }
}

/// Whether a hand-over can be followed and brought home: its screen holds
/// pixels, and so does the local side that it came over.
pub open spec fn sound(a: ActiveView) -> bool {
    a.screen.has_area() && bordered(a.target.local_screen.rect(), a.target.edge)
}

/// Whether a hand-over over a target is sound.
pub fn is_sound(target: &InputTarget) -> (r: bool)
    ensures
        r == (target.remote_screen.rect().has_area() && bordered(
            target.local_screen.rect(),
            target.edge,
        )),
{
    let remote = &target.remote_screen;
    let local = &target.local_screen;
    remote.width >= 1 && remote.height >= 1 && if target.edge.runs_horizontally() {
        local.width >= 1
    } else {
        local.height >= 1
    }
}

/// A position kept on a screen, relative to its origin.
pub open spec fn kept_on(screen: Rect, p: Point) -> Point {
    Point {
        x: clamped(p.x, zero(), whole(screen.width - 1)),
        y: clamped(p.y, zero(), whole(screen.height - 1)),
    }
}

pub fn keep_on(screen: &Screen, p: Point) -> (r: Point)
    requires
        screen.rect().has_area(),
    ensures
        r == kept_on(screen.rect(), p),
{
    proof {
        lemma_whole_zero();
        lemma_whole_ordered(0, screen.width - 1);
        lemma_whole_ordered(0, screen.height - 1);
    }
    Point {
        x: p.x.clamp(Double::zero(), Double::from_int(screen.width as i64 - 1)),
        y: p.y.clamp(Double::zero(), Double::from_int(screen.height as i64 - 1)),
    }
}

/// A position that is a pair of numbers lands on the screen it is kept on.
pub proof fn law_kept_positions_are_on_screen(screen: Rect, p: Point)
    requires
        screen.has_area(),
        screen.width <= i32::MAX,
        screen.height <= i32::MAX,
        !p.x.not_a_number(),
        !p.y.not_a_number(),
    ensures
        on_screen(screen, kept_on(screen, p)),
{
    lemma_whole_zero();
    lemma_whole_ordered(0, screen.width - 1);
    lemma_whole_ordered(0, screen.height - 1);
}

// ---------------------------------------------------------------------------
// Crossing over
// ---------------------------------------------------------------------------
/// A hand-over to the screen of a target, at a position on it.
pub open spec fn handed_over(target: TargetView, at: Point, invert_y: bool) -> ActiveView {
    ActiveView {
        target,
        screen: target.remote_screen.rect(),
        screen_name: target.screen_id,
        screen_id: target.screen_id,
        at,
        invert_y,
    }
}

/// Whether a hand-over is over a target's own screen: that screen in full,
/// under the id that is sent for it.
pub open spec fn on_target_screen(active: ActiveTarget) -> bool {
    active.current_screen == (Screen {
        id: active.current_screen.id,
        ..active.target.remote_screen
    })
}

pub fn active_target_at(target: &InputTarget, at: Point, invert_y: bool) -> (r: ActiveTarget)
    ensures
        r@ == handed_over(target@, at, invert_y),
        r.target == *target,
        on_target_screen(r),
{
    let remote = &target.remote_screen;
    ActiveTarget {
        target: target.clone(),
        current_screen: Screen {
            id: target.screen_id.clone(),
            device_id: remote.device_id.clone(),
            name: remote.name.clone(),
            x: remote.x,
            y: remote.y,
            width: remote.width,
            height: remote.height,
            scale: remote.scale,
            is_primary: remote.is_primary,
        },
        current_screen_id: target.screen_id.clone(),
        x: at.x,
        y: at.y,
        invert_y,
    }
}

/// A native position in layout coordinates.
pub open spec fn in_layout(target: TargetView, p: Point) -> Point {
    let native = target.local_screen.rect();
    let layout = target.layout_local_screen.rect();
    let ratio_x = quotient(difference(p.x, whole(native.x)), whole(at_least_one(native.width)));
    let ratio_y = quotient(difference(p.y, whole(native.y)), whole(at_least_one(native.height)));
    Point {
        x: sum(whole(layout.x), product(ratio_x, whole(at_least_one(layout.width)))),
        y: sum(whole(layout.y), product(ratio_y, whole(at_least_one(layout.height)))),
    }
}

pub fn native_to_layout_point(target: &InputTarget, p: Point) -> (r: Point)
    ensures
        r == in_layout(target@, p),
{
    let native = &target.local_screen;
    let layout = &target.layout_local_screen;
    let ratio_x = p.x.minus(Double::from_int(native.x as i64)).over(
        Double::from_int(length_or_one(native.width)),
    );
    let ratio_y = p.y.minus(Double::from_int(native.y as i64)).over(
        Double::from_int(length_or_one(native.height)),
    );
    Point {
        x: Double::from_int(layout.x as i64).plus(
            ratio_x.times(Double::from_int(length_or_one(layout.width))),
        ),
        y: Double::from_int(layout.y as i64).plus(
            ratio_y.times(Double::from_int(length_or_one(layout.height))),
        ),
    }
}

/// Where a crossing of the local side of a link lands on its remote side: both
/// spans are stretched to each other, so the two sides need not be of one size.
pub open spec fn entry_over_link(target: TargetView, p: Point, push: Double) -> Point {
    let fraction = fraction_along(target.layout_local_screen.rect(), target.edge, p);
    let position = target.local_span.inside(fraction);
    entry_point(
        target.remote_screen.rect(),
        target.remote_edge,
        target.remote_span.along(position),
        push,
    )
}

pub fn link_entry_point(target: &InputTarget, p: Point, push: Double) -> (r: Point)
    ensures
        r == entry_over_link(target@, p, push),
{
    let fraction = side_fraction(&target.layout_local_screen, target.edge, p);
    let position = target.local_span.position_of(fraction);
    edge_entry_point_pushed(
        &target.remote_screen,
        target.remote_edge,
        target.remote_span.fraction_at(position),
        push,
    )
}

/// The width of the band around a side from which a crossing may start.
pub open spec fn activation_band() -> Double {
    Double { bits: 0x4064_0000_0000_0000 }
}

/// Whether a movement along one axis is at least half as large as along the
/// other.
pub open spec fn dominates(along: Double, across: Double) -> bool {
    product(absolute(across), half()).at_most(absolute(along))
}

/// Whether a value lies within a distance of a bound, on either side.
pub open spec fn around(value: Double, bound: Double, distance: Double) -> bool {
    difference(bound, distance).at_most(value) && value.at_most(sum(bound, distance))
}

/// Whether a movement that ended at `p` pushes over a side of a screen. The
/// cursor has to sit flush against the side and to have come from the band
/// around it: the inner bound rejects a jump out of the middle of the screen,
/// the outer one a position that is nowhere near the screen.
pub open spec fn pushes_over(screen: Rect, edge: Edge, p: Point, d: Point) -> bool {
    let left = whole(screen.x);
    let right = whole(screen.right());
    let top = whole(screen.y);
    let bottom = whole(screen.bottom());
    let rows = difference(top, one()).at_most(p.y) && p.y.at_most(sum(bottom, one()));
    let columns = difference(left, one()).at_most(p.x) && p.x.at_most(sum(right, one()));
    let previous_x = difference(p.x, d.x);
    let previous_y = difference(p.y, d.y);
    match edge {
        Edge::Right => {
            &&& one().at_most(d.x)
            &&& dominates(d.x, d.y)
            &&& around(previous_x, right, activation_band())
            &&& difference(right, one()).at_most(p.x)
            &&& rows
        },
        Edge::Left => {
            &&& d.x.at_most(negated(one()))
            &&& dominates(d.x, d.y)
            &&& around(previous_x, left, activation_band())
            &&& p.x.at_most(sum(left, one()))
            &&& rows
        },
        Edge::Bottom => {
            &&& one().at_most(d.y)
            &&& dominates(d.y, d.x)
            &&& around(previous_y, bottom, activation_band())
            &&& difference(bottom, one()).at_most(p.y)
            &&& columns
        },
        Edge::Top => {
            &&& d.y.at_most(negated(one()))
            &&& dominates(d.y, d.x)
            &&& around(previous_y, top, activation_band())
            &&& p.y.at_most(sum(top, one()))
            &&& columns
        },
    }
}

/// Whether a screen lies where 32-bit coordinates reach.
pub open spec fn reachable(screen: Rect) -> bool {
    i32::MIN <= screen.x <= i32::MAX && i32::MIN <= screen.y <= i32::MAX && i32::MIN
        <= screen.width <= i32::MAX && i32::MIN <= screen.height <= i32::MAX
}

/// Whether a pixel is the last one of a screen on a side.
pub open spec fn flush(screen: Rect, edge: Edge, x: int, y: int) -> bool {
    match edge {
        Edge::Right => x >= screen.right() - 1,
        Edge::Left => x <= screen.x + 1,
        Edge::Bottom => y >= screen.bottom() - 1,
        Edge::Top => y <= screen.y + 1,
    }
}

/// The cursor has to reach the edge before it crosses: no movement that ends
/// further inside pushes over a side.
pub proof fn law_a_crossing_starts_at_the_edge(screen: Rect, edge: Edge, x: int, y: int, d: Point)
    requires
        reachable(screen),
        i32::MIN <= x <= i32::MAX,
        i32::MIN <= y <= i32::MAX,
        pushes_over(screen, edge, Point { x: whole(x), y: whole(y) }, d),
    ensures
        flush(screen, edge, x, y),
{
    lemma_whole_one();
    law_integers_add_exactly(screen.right(), 1);
    law_integers_add_exactly(screen.x, 1);
    law_integers_add_exactly(screen.bottom(), 1);
    law_integers_add_exactly(screen.y, 1);
    lemma_whole_at_most(screen.right() - 1, x);
    lemma_whole_at_most(x, screen.x + 1);
    lemma_whole_at_most(screen.bottom() - 1, y);
    lemma_whole_at_most(y, screen.y + 1);
}

fn is_dominant(along: Double, across: Double) -> (r: bool)
    ensures
        r == dominates(along, across),
{
    across.abs().times(Double::half()).less_or_equal(along.abs())
}

fn is_around(value: Double, bound: Double, distance: Double) -> (r: bool)
    ensures
        r == around(value, bound, distance),
{
    bound.minus(distance).less_or_equal(value) && value.less_or_equal(bound.plus(distance))
}

pub fn is_crossing_screen(screen: &Screen, edge: Edge, p: Point, d: Point) -> (r: bool)
    ensures
        r == pushes_over(screen.rect(), edge, p, d),
{
    let margin = Double::one();
    let band = Double { bits: 0x4064_0000_0000_0000 };
    let left = Double::from_int(screen.x as i64);
    let right = Double::from_int(screen.right_edge());
    let top = Double::from_int(screen.y as i64);
    let bottom = Double::from_int(screen.bottom_edge());
    let rows: bool = top.minus(margin).less_or_equal(p.y) && p.y.less_or_equal(bottom.plus(margin));
    let columns: bool = left.minus(margin).less_or_equal(p.x) && p.x.less_or_equal(
        right.plus(margin),
    );
    let previous_x = p.x.minus(d.x);
    let previous_y = p.y.minus(d.y);
    match edge {
        Edge::Right => Double::one().less_or_equal(d.x) && is_dominant(d.x, d.y) && is_around(
            previous_x,
            right,
            band,
        ) && right.minus(margin).less_or_equal(p.x) && rows,
        Edge::Left => d.x.less_or_equal(Double::one().neg()) && is_dominant(d.x, d.y) && is_around(
            previous_x,
            left,
            band,
        ) && p.x.less_or_equal(left.plus(margin)) && rows,
        Edge::Bottom => Double::one().less_or_equal(d.y) && is_dominant(d.y, d.x) && is_around(
            previous_y,
            bottom,
            band,
        ) && bottom.minus(margin).less_or_equal(p.y) && columns,
        Edge::Top => d.y.less_or_equal(Double::one().neg()) && is_dominant(d.y, d.x) && is_around(
            previous_y,
            top,
            band,
        ) && p.y.less_or_equal(top.plus(margin)) && columns,
    }
}

/// A native length along x or y as one in the layout.
pub open spec fn scaled_to_layout(d: Double, layout_length: int, native_length: int) -> Double {
    quotient(product(d, whole(at_least_one(layout_length))), whole(at_least_one(native_length)))
}

fn scale_to_layout(d: Double, layout_length: i32, native_length: i32) -> (r: Double)
    ensures
        r == scaled_to_layout(d, layout_length as int, native_length as int),
{
    d.times(Double::from_int(length_or_one(layout_length))).over(
        Double::from_int(length_or_one(native_length)),
    )
}

/// A movement on the native screen as one in the layout.
pub open spec fn movement_in_layout(target: TargetView, d: Point) -> Point {
    let native = target.local_screen.rect();
    let layout = target.layout_local_screen.rect();
    Point {
        x: scaled_to_layout(d.x, layout.width, native.width),
        y: scaled_to_layout(d.y, layout.height, native.height),
    }
}

/// Where a movement that pushes over the edge of a target stands in the layout,
/// judged natively first and in the layout next.
pub open spec fn crossing_in_layout(target: TargetView, p: Point, d: Point) -> Option<Point> {
    let mapped = in_layout(target, p);
    if pushes_over(target.local_screen.rect(), target.edge, p, d) || pushes_over(
        target.layout_local_screen.rect(),
        target.edge,
        mapped,
        movement_in_layout(target, d),
    ) {
        Some(mapped)
    } else {
        None
    }
}

pub fn crossing_layout_point(target: &InputTarget, p: Point, d: Point) -> (r: Option<Point>)
    ensures
        r == crossing_in_layout(target@, p, d),
{
    let mapped = native_to_layout_point(target, p);
    if is_crossing_screen(&target.local_screen, target.edge, p, d) {
        return Some(mapped);
    }
    let native = &target.local_screen;
    let layout = &target.layout_local_screen;
    let mapped_d = Point {
        x: scale_to_layout(d.x, layout.width, native.width),
        y: scale_to_layout(d.y, layout.height, native.height),
    };
    if is_crossing_screen(layout, target.edge, mapped, mapped_d) {
        return Some(mapped);
    }
    None
}

/// The hand-over that a movement over the edge of a target starts. The link
/// decides where it lands, and what went past the edge is carried along.
pub open spec fn crossing_over(target: TargetView, mapped: Point, d: Point, invert_y: bool) -> ActiveView {
    let movement = movement_in_layout(target, d);
    let push = if target.edge.horizontal() {
        movement.y
    } else {
        movement.x
    };
    let entered = entry_over_link(target, mapped, push);
    handed_over(target, kept_on(target.remote_screen.rect(), entered), invert_y)
}

/// The hand-over of the first target whose edge a movement pushes over, among
/// those from index `i` on.
pub open spec fn crossing_from(
    targets: Seq<TargetView>,
    i: int,
    p: Point,
    d: Point,
    invert_y: bool,
) -> Option<ActiveView>
    decreases targets.len() - i,
{
    if i < 0 || i >= targets.len() {
        None
    } else {
        match crossing_in_layout(targets[i], p, d) {
            Some(mapped) => Some(crossing_over(targets[i], mapped, d, invert_y)),
            None => crossing_from(targets, i + 1, p, d, invert_y),
        }
    }
}

/// The first target whose edge a movement pushes over.
pub fn find_crossed(targets: &Vec<InputTarget>, p: Point, d: Point) -> (r: Option<usize>)
    ensures
        match r {
            Some(i) => i < targets.len() && forall|invert_y: bool| #[trigger]
                crossing_from(target_views(targets@), 0, p, d, invert_y) == Some(
                    crossing_over(
                        targets@[i as int]@,
                        in_layout(targets@[i as int]@, p),
                        d,
                        invert_y,
                    ),
                ),
            None => forall|invert_y: bool|
                (#[trigger] crossing_from(target_views(targets@), 0, p, d, invert_y)) is None,
        },
{
    let mut i: usize = 0;
    while i < targets.len()
        invariant
            i <= targets.len(),
            forall|invert_y: bool| #[trigger]
                crossing_from(target_views(targets@), 0, p, d, invert_y) == crossing_from(
                    target_views(targets@),
                    i as int,
                    p,
                    d,
                    invert_y,
                ),
        decreases targets.len() - i,
    {
        assert(target_views(targets@)[i as int] == targets@[i as int]@);
        if crossing_layout_point(&targets[i], p, d).is_some() {
            return Some(i);
        }
        i = i + 1;
    }
    None
}

pub fn crossing_target_with_transform(
    targets: &Vec<InputTarget>,
    p: Point,
    d: Point,
    invert_y: bool,
) -> (r: Option<ActiveTarget>)
    requires
        crossing_from(target_views(targets@), 0, p, d, invert_y) matches Some(a)
            ==> a.screen.has_area(),
    ensures
        match r {
            Some(active) => crossing_from(target_views(targets@), 0, p, d, invert_y) == Some(
                active@,
            ),
            None => crossing_from(target_views(targets@), 0, p, d, invert_y) is None,
        },
        r matches Some(active) ==> on_target_screen(active),
{
    let target = match find_crossed(targets, p, d) {
        Some(i) => &targets[i],
        None => {
            return None;
        },
    };
    let push = if target.edge.runs_horizontally() {
        scale_to_layout(d.y, target.layout_local_screen.height, target.local_screen.height)
    } else {
        scale_to_layout(d.x, target.layout_local_screen.width, target.local_screen.width)
    };
    let entered = link_entry_point(target, native_to_layout_point(target, p), push);
    let kept = keep_on(&target.remote_screen, entered);
    Some(active_target_at(target, kept, invert_y))
}

pub fn crossing_target(targets: &Vec<InputTarget>, p: Point, d: Point) -> (r: Option<ActiveTarget>)
    requires
        crossing_from(target_views(targets@), 0, p, d, false) matches Some(a)
            ==> a.screen.has_area(),
    ensures
        match r {
            Some(active) => crossing_from(target_views(targets@), 0, p, d, false) == Some(active@),
            None => crossing_from(target_views(targets@), 0, p, d, false) is None,
        },
        r matches Some(active) ==> on_target_screen(active),
{
    crossing_target_with_transform(targets, p, d, false)
}

/// Whether a movement that crosses an edge lands where there are pixels, and can
/// come home from there.
pub fn crossing_lands(targets: &Vec<InputTarget>, p: Point, d: Point) -> (r: bool)
    ensures
        forall|invert_y: bool|
            r == (#[trigger] crossing_from(target_views(targets@), 0, p, d, invert_y) matches Some(
                a,
            ) ==> sound(a)),
{
    match find_crossed(targets, p, d) {
        Some(i) => is_sound(&targets[i]),
        None => true,
    }
}

/// The rows that the local screens of the first `n` targets span.
pub open spec fn rows_of(targets: Seq<TargetView>, n: nat) -> Option<(int, int)>
    decreases n,
{
    if n == 0 {
        None
    } else {
        let screen = targets[n - 1].local_screen.rect();
        match rows_of(targets, (n - 1) as nat) {
            None => Some((screen.y, screen.bottom())),
            Some((top, bottom)) => Some(
                (
                    if screen.y < top {
                        screen.y
                    } else {
                        top
                    },
                    if screen.bottom() > bottom {
                        screen.bottom()
                    } else {
                        bottom
                    },
                ),
            ),
        }
    }
}

/// The first row of the local screens, and the first one below them.
pub fn local_y_bounds(targets: &Vec<InputTarget>) -> (r: Option<(i64, i64)>)
    ensures
        match r {
            Some((top, bottom)) => rows_of(target_views(targets@), targets@.len()) == Some(
                (top as int, bottom as int),
            ),
            None => rows_of(target_views(targets@), targets@.len()) is None,
        },
        match r {
            Some((top, bottom)) => -0x1_0000_0000 <= top <= 0x1_0000_0000 && -0x1_0000_0000
                <= bottom <= 0x1_0000_0000,
            None => true,
        },
{
    let mut bounds: Option<(i64, i64)> = None;
    let mut i: usize = 0;
    while i < targets.len()
        invariant
            i <= targets.len(),
            match bounds {
                Some((top, bottom)) => rows_of(target_views(targets@), i as nat) == Some(
                    (top as int, bottom as int),
                ) && -0x1_0000_0000 <= top <= 0x1_0000_0000 && -0x1_0000_0000 <= bottom
                    <= 0x1_0000_0000,
                None => rows_of(target_views(targets@), i as nat) is None,
            },
        decreases targets.len() - i,
    {
        let screen = &targets[i].local_screen;
        assert(target_views(targets@)[i as int] == targets@[i as int]@);
        let top: i64 = screen.y as i64;
        let bottom: i64 = screen.bottom_edge();
        bounds = match bounds {
            None => Some((top, bottom)),
            Some((first_row, end_row)) => Some(
                (
                    if top < first_row {
                        top
                    } else {
                        first_row
                    },
                    if bottom > end_row {
                        bottom
                    } else {
                        end_row
                    },
                ),
            ),
        };
        i = i + 1;
    }
    bounds
}

/// A row mirrored between the first local row and the end of the last.
pub open spec fn mirrored(bounds: (int, int), y: Double) -> Double {
    difference(sum(whole(bounds.0), whole(bounds.1)), y)
}

pub fn mirror(bounds: (i64, i64), y: Double) -> (r: Double)
    ensures
        r == mirrored((bounds.0 as int, bounds.1 as int), y),
{
    Double::from_int(bounds.0).plus(Double::from_int(bounds.1)).minus(y)
}

// ---------------------------------------------------------------------------
// Roaming and returning
// ---------------------------------------------------------------------------
/// The id and the pixels of a screen, as its peer knows it.
pub open spec fn wire_screen(device: Device, screen: Screen) -> (Seq<char>, Rect) {
    (wire_screen_id(device.id@, screen.id@), screen.rect())
}

/// The test for the device that goes by an id.
pub open spec fn known_as(id: Seq<char>) -> spec_fn(Device) -> bool {
    |device: Device| device.id@ == id
}

/// The screens of the device that goes by an id, as that peer knows them.
pub open spec fn wire_screens(layout: LayoutState, device_id: Seq<char>) -> Seq<
    (Seq<char>, Rect),
> {
    match first(layout.devices@, known_as(device_id)) {
        Some(device) => device.screens@.map_values(|screen: Screen| wire_screen(device, screen)),
        None => seq![],
    }
}

pub fn find_device<'a>(layout: &'a LayoutState, id: &str) -> (r: Option<&'a Device>)
    ensures
        match r {
            Some(device) => first(layout.devices@, known_as(id@)) == Some(*device),
            None => first(layout.devices@, known_as(id@)) is None,
        },
{
    let test = |device: &Device| -> (b: bool)
        ensures
            b == (device.id@ == id@),
        { same(device.id.as_str(), id) };
    find(&layout.devices, test, Ghost(known_as(id@)))
}

/// What a list of screens says of ids and pixels.
pub open spec fn screen_views(screens: Seq<Screen>) -> Seq<(Seq<char>, Rect)> {
    screens.map_values(|screen: Screen| (screen.id@, screen.rect()))
}

/// Whether a screen is the one of that number on the device that goes by an id,
/// in all but its own id.
pub open spec fn stands_for(layout: LayoutState, device_id: Seq<char>, k: int, screen: Screen) -> bool {
    &&& first(layout.devices@, known_as(device_id)) matches Some(device)
    &&& 0 <= k < device.screens@.len()
    &&& screen == (Screen { id: screen.id, ..device.screens@[k] })
}

/// The remote device's screens under the ids that the receiving side matches
/// against.
pub fn remote_device_screens(layout: &LayoutState, device_id: &str) -> (r: Vec<Screen>)
    ensures
        screen_views(r@) == wire_screens(*layout, device_id@),
        forall|k: int| 0 <= k < r.len() ==> stands_for(*layout, device_id@, k, #[trigger] r@[k]),
{
    let mut out: Vec<Screen> = Vec::new();
    let device = match find_device(layout, device_id) {
        Some(device) => device,
        None => {
            assert(screen_views(out@) =~= seq![]);
            return out;
        },
    };
    let mut i: usize = 0;
    while i < device.screens.len()
        invariant
            i <= device.screens.len(),
            out.len() == i,
            forall|k: int|
                0 <= k < i ==> ((#[trigger] out@[k]).id@, out@[k].rect()) == wire_screen(
                    *device,
                    device.screens@[k],
                ),
            first(layout.devices@, known_as(device_id@)) == Some(*device),
            forall|k: int|
                0 <= k < i ==> stands_for(*layout, device_id@, k, #[trigger] out@[k]),
        decreases device.screens.len() - i,
    {
        let screen = &device.screens[i];
        out.push(
            Screen {
                id: peer_screen_id(device, screen),
                device_id: screen.device_id.clone(),
                name: screen.name.clone(),
                x: screen.x,
                y: screen.y,
                width: screen.width,
                height: screen.height,
                scale: screen.scale,
                is_primary: screen.is_primary,
            },
        );
        i = i + 1;
    }
    assert(screen_views(out@) =~= wire_screens(*layout, device_id@));
    out
}

/// Whether the cursor left the entry screen over the side that borders the
/// local machine, while moving that way.
pub open spec fn left_by_entry(edge: Edge, screen: Rect, p: Point, d: Point) -> bool {
    match edge {
        Edge::Right => p.x.at_most(zero()) && d.x.below(zero()),
        Edge::Left => whole(screen.width - 1).at_most(p.x) && zero().below(d.x),
        Edge::Bottom => p.y.at_most(zero()) && d.y.below(zero()),
        Edge::Top => whole(screen.height - 1).at_most(p.y) && zero().below(d.y),
    }
}

pub fn exited_entry_edge(edge: Edge, screen: &Screen, p: Point, d: Point) -> (r: bool)
    ensures
        r == left_by_entry(edge, screen.rect(), p, d),
{
    match edge {
        Edge::Right => p.x.less_or_equal(Double::zero()) && d.x.less(Double::zero()),
        Edge::Left => Double::from_int(screen.width as i64 - 1).less_or_equal(p.x)
            && Double::zero().less(d.x),
        Edge::Bottom => p.y.less_or_equal(Double::zero()) && d.y.less(Double::zero()),
        Edge::Top => Double::from_int(screen.height as i64 - 1).less_or_equal(p.y)
            && Double::zero().less(d.y),
    }
}

/// A position on the side of a screen that borders the local machine.
pub open spec fn pinned(edge: Edge, screen: Rect, p: Point) -> Point {
    let kept = kept_on(screen, p);
    match edge {
        Edge::Right => Point { x: zero(), y: kept.y },
        Edge::Left => Point { x: whole(screen.width - 1), y: kept.y },
        Edge::Bottom => Point { x: kept.x, y: zero() },
        Edge::Top => Point { x: kept.x, y: whole(screen.height - 1) },
    }
}

pub fn pin_active_to_entry_edge(active: &mut ActiveTarget)
    requires
        old(active).current_screen.rect().has_area(),
    ensures
        final(active)@ == (ActiveView {
            at: pinned(old(active).target.edge, old(active)@.screen, old(active)@.at),
            ..old(active)@
        }),
        final(active).target == old(active).target,
        final(active).current_screen == old(active).current_screen,
{
    let kept = keep_on(&active.current_screen, Point { x: active.x, y: active.y });
    match active.target.edge {
        Edge::Right => {
            active.x = Double::zero();
            active.y = kept.y;
        },
        Edge::Left => {
            active.x = Double::from_int(active.current_screen.width as i64 - 1);
            active.y = kept.y;
        },
        Edge::Bottom => {
            active.x = kept.x;
            active.y = Double::zero();
        },
        Edge::Top => {
            active.x = kept.x;
            active.y = Double::from_int(active.current_screen.height as i64 - 1);
        },
    }
}

/// The cursor in the layout space that a remote device's screens share.
pub open spec fn global_point(a: ActiveView) -> Point {
    Point { x: sum(whole(a.screen.x), a.at.x), y: sum(whole(a.screen.y), a.at.y) }
}

/// The test for a sibling screen that holds a point.
pub open spec fn sibling_under(name: Seq<char>, p: Point) -> spec_fn((Seq<char>, Rect)) -> bool {
    |screen: (Seq<char>, Rect)| screen.0 != name && falls_on(screen.1, p)
}

/// Reconciles a moved cursor with the remote screens: it stays, roams onto a
/// sibling screen that holds it, or, off the entry screen by the way it came,
/// returns. Every other outer side just holds the cursor.
pub open spec fn roamed(a: ActiveView, d: Point, screens: Seq<(Seq<char>, Rect)>) -> (
    ActiveView,
    bool,
) {
    let global = global_point(a);
    if on_screen(a.screen, a.at) {
        (a, false)
    } else {
        match first(screens, sibling_under(a.screen_name, global)) {
            Some((name, screen)) => (
                ActiveView {
                    screen,
                    screen_name: name,
                    screen_id: name,
                    at: Point {
                        x: difference(global.x, whole(screen.x)),
                        y: difference(global.y, whole(screen.y)),
                    },
                    ..a
                },
                false,
            ),
            None => if a.screen_id == a.target.screen_id && left_by_entry(
                a.target.edge,
                a.screen,
                a.at,
                d,
            ) {
                (ActiveView { at: pinned(a.target.edge, a.screen, a.at), ..a }, true)
            } else {
                (a, false)
            },
        }
    }
}

/// Which screen the cursor is over once it is reconciled: the one before, or in
/// full the first sibling that holds it.
pub open spec fn moved_screen(a: ActiveView, before: Screen, layout: LayoutState, after: Screen) -> bool {
    let device_id = a.target.device_id;
    let screens = wire_screens(layout, device_id);
    let holds = sibling_under(a.screen_name, global_point(a));
    if on_screen(a.screen, a.at) || first(screens, holds) is None {
        after == before
    } else {
        exists|k: int|
            #![trigger screens[k]]
            0 <= k < screens.len() && holds(screens[k]) && (forall|j: int|
                0 <= j < k ==> !holds(#[trigger] screens[j])) && stands_for(
                layout,
                device_id,
                k,
                after,
            )
    }
}

pub fn update_active_remote_screen(active: &mut ActiveTarget, d: Point, layout: &LayoutState) -> (r:
    bool)
    requires
        roamed(old(active)@, d, wire_screens(*layout, old(active).target.device_id@)).1
            ==> old(active).current_screen.rect().has_area(),
    ensures
        (final(active)@, r) == roamed(
            old(active)@,
            d,
            wire_screens(*layout, old(active).target.device_id@),
        ),
        final(active).target == old(active).target,
        moved_screen(
            old(active)@,
            old(active).current_screen,
            *layout,
            final(active).current_screen,
        ),
{
    let here = Point { x: active.x, y: active.y };
    if point_in_local_bounds(&active.current_screen, here) {
        return false;
    }
    let mut screens = remote_device_screens(layout, active.target.device_id.as_str());
    let global = Point {
        x: Double::from_int(active.current_screen.x as i64).plus(active.x),
        y: Double::from_int(active.current_screen.y as i64).plus(active.y),
    };
    let ghost p = sibling_under(active.current_screen.id@, global);
    let ghost views = screen_views(screens@);
    let mut i: usize = 0;
    assert(views.skip(0) =~= views);
    while i < screens.len()
        invariant
            i <= screens.len(),
            views == screen_views(screens@),
            views == wire_screens(*layout, old(active).target.device_id@),
            *active == *old(active),
            global == global_point(active@),
            p == sibling_under(active.current_screen.id@, global),
            !on_screen(active@.screen, active@.at),
            first(views, p) == first(views.skip(i as int), p),
            forall|j: int| 0 <= j < i ==> !p(#[trigger] views[j]),
            forall|k: int|
                0 <= k < screens.len() ==> stands_for(
                    *layout,
                    old(active).target.device_id@,
                    k,
                    #[trigger] screens@[k],
                ),
        decreases screens.len() - i,
    {
        proof {
            lemma_first_step(views, p, i as int);
            assert(views[i as int] == (screens@[i as int].id@, screens@[i as int].rect()));
        }
        if !same(screens[i].id.as_str(), active.current_screen.id.as_str()) && point_in_screen(
            &screens[i],
            global,
        ) {
            assert(p(views[i as int]));
            let screen = screens.remove(i);
            active.x = global.x.minus(Double::from_int(screen.x as i64));
            active.y = global.y.minus(Double::from_int(screen.y as i64));
            active.current_screen_id = screen.id.clone();
            active.current_screen = screen;
            return false;
        }
        i = i + 1;
    }
    if same(active.current_screen_id.as_str(), active.target.screen_id.as_str())
        && exited_entry_edge(active.target.edge, &active.current_screen, here, d) {
        pin_active_to_entry_edge(active);
        return true;
    }
    false
}

/// Control goes home only from the entry screen, over the side that borders the
/// local machine, and only while no sibling screen holds the cursor; the cursor
/// is then left on that side of the screen.
pub proof fn law_return_only_over_the_entry_side(
    a: ActiveView,
    d: Point,
    screens: Seq<(Seq<char>, Rect)>,
)
    ensures
        roamed(a, d, screens).1 ==> {
            &&& a.screen_id == a.target.screen_id
            &&& left_by_entry(a.target.edge, a.screen, a.at, d)
            &&& first(screens, sibling_under(a.screen_name, global_point(a))) is None
            &&& roamed(a, d, screens).0.at == pinned(a.target.edge, a.screen, a.at)
        },
        roamed(a, d, screens).0.target == a.target,
{
}

/// Where the local cursor reappears: flush on the edge that was crossed, at the
/// height or width that the remote cursor has in the layout.
pub open spec fn return_point(a: ActiveView) -> Point {
    let local = a.target.local_screen.rect();
    let layout = a.target.layout_local_screen.rect();
    let remote = a.target.remote_screen.rect();
    let global_x = sum(whole(remote.x), a.at.x);
    let global_y = sum(whole(remote.y), a.at.y);
    let ratio_x = quotient(difference(global_x, whole(layout.x)), whole(at_least_one(layout.width)));
    let ratio_y = quotient(
        difference(global_y, whole(layout.y)),
        whole(at_least_one(layout.height)),
    );
    let native_x = sum(whole(local.x), product(ratio_x, whole(at_least_one(local.width))));
    let native_y = sum(whole(local.y), product(ratio_y, whole(at_least_one(local.height))));
    let row = clamped(native_y, whole(local.y), whole(local.bottom() - 1));
    let column = clamped(native_x, whole(local.x), whole(local.right() - 1));
    match a.target.edge {
        Edge::Right => Point { x: whole(local.right() - 1), y: row },
        Edge::Left => Point { x: whole(local.x), y: row },
        Edge::Bottom => Point { x: column, y: whole(local.bottom() - 1) },
        Edge::Top => Point { x: column, y: whole(local.y) },
    }
}

pub fn local_return_point(active: &ActiveTarget) -> (r: Point)
    requires
        bordered(active.target.local_screen.rect(), active.target.edge),
    ensures
        r == return_point(active@),
{
    let local = &active.target.local_screen;
    let layout = &active.target.layout_local_screen;
    let remote = &active.target.remote_screen;
    let global_x = Double::from_int(remote.x as i64).plus(active.x);
    let global_y = Double::from_int(remote.y as i64).plus(active.y);
    let ratio_x = global_x.minus(Double::from_int(layout.x as i64)).over(
        Double::from_int(length_or_one(layout.width)),
    );
    let ratio_y = global_y.minus(Double::from_int(layout.y as i64)).over(
        Double::from_int(length_or_one(layout.height)),
    );
    let left = Double::from_int(local.x as i64);
    let top = Double::from_int(local.y as i64);
    let last_x = Double::from_int(local.right_edge() - 1);
    let last_y = Double::from_int(local.bottom_edge() - 1);
    let native_x = left.plus(ratio_x.times(Double::from_int(length_or_one(local.width))));
    let native_y = top.plus(ratio_y.times(Double::from_int(length_or_one(local.height))));
    proof {
        if local.width >= 1 {
            lemma_whole_ordered(local.x as int, local.rect().right() - 1);
        }
        if local.height >= 1 {
            lemma_whole_ordered(local.y as int, local.rect().bottom() - 1);
        }
    }
    match active.target.edge {
        Edge::Right => Point { x: last_x, y: native_y.clamp(top, last_y) },
        Edge::Left => Point { x: left, y: native_y.clamp(top, last_y) },
        Edge::Bottom => Point { x: native_x.clamp(left, last_x), y: last_y },
        Edge::Top => Point { x: native_x.clamp(left, last_x), y: top },
    }
}

/// The local cursor reappears on the local screen that was left, flush with the
/// side that was crossed, unless the remote position is not a number.
pub proof fn law_return_lands_on_the_local_screen(a: ActiveView)
    requires
        a.target.local_screen.rect().has_area(),
        !return_point(a).x.not_a_number(),
        !return_point(a).y.not_a_number(),
    ensures
        falls_on(a.target.local_screen.rect(), return_point(a)),
        ({
            let local = a.target.local_screen.rect();
            match a.target.edge {
                Edge::Right => return_point(a).x == whole(local.right() - 1),
                Edge::Left => return_point(a).x == whole(local.x),
                Edge::Bottom => return_point(a).y == whole(local.bottom() - 1),
                Edge::Top => return_point(a).y == whole(local.y),
            }
        }),
{
    let local = a.target.local_screen.rect();
    lemma_whole_ordered(local.x, local.right() - 1);
    lemma_whole_ordered(local.y, local.bottom() - 1);
}

/// Where the hotkey brings the local cursor: back where it was, or to the
/// middle of the screen that was left.
pub open spec fn hotkey_return_point(a: ActiveView, recorded: Option<Point>) -> Point {
    match recorded {
        Some(point) => point,
        None => middle_of(a.target.local_screen.rect()),
    }
}

pub fn local_center_point(active: &ActiveTarget) -> (r: Point)
    ensures
        r == middle_of(active.target.local_screen.rect()),
{
    screen_center_point(&active.target.local_screen)
}

pub fn local_hotkey_return_point(active: &ActiveTarget, recorded_point: Option<Point>) -> (r: Point)
    ensures
        r == hotkey_return_point(active@, recorded_point),
{
    match recorded_point {
        Some(point) => point,
        None => local_center_point(active),
    }
}

/// Whether the first movement after a crossing is only the echo of the cursor
/// being moved back to the edge.
pub open spec fn echo_of_anchoring(edge: Edge, d: Point) -> bool {
    match edge {
        Edge::Right => d.x.at_most(negated(one())) && dominates(d.x, d.y),
        Edge::Left => one().at_most(d.x) && dominates(d.x, d.y),
        Edge::Bottom => d.y.at_most(negated(one())) && dominates(d.y, d.x),
        Edge::Top => one().at_most(d.y) && dominates(d.y, d.x),
    }
}

pub fn should_ignore_initial_anchor_warp_delta(edge: Edge, d: Point) -> (r: bool)
    ensures
        r == echo_of_anchoring(edge, d),
{
    match edge {
        Edge::Right => d.x.less_or_equal(Double::one().neg()) && is_dominant(d.x, d.y),
        Edge::Left => Double::one().less_or_equal(d.x) && is_dominant(d.x, d.y),
        Edge::Bottom => d.y.less_or_equal(Double::one().neg()) && is_dominant(d.y, d.x),
        Edge::Top => Double::one().less_or_equal(d.y) && is_dominant(d.y, d.x),
    }
}

// ---------------------------------------------------------------------------
// Parking the remote cursor
// ---------------------------------------------------------------------------
/// How far a parked cursor keeps from the corners of a screen, where macOS
/// would take it for a gesture.
pub const PARK_CORNER_CLEARANCE: i32 = 64;

/// A position along a side that keeps clear of its ends.
pub open spec fn clear_of_corners(position: int, extent: int) -> int {
    let middle = if extent / 2 > 0 {
        extent / 2
    } else {
        0
    };
    let low = if PARK_CORNER_CLEARANCE < middle {
        PARK_CORNER_CLEARANCE as int
    } else {
        middle
    };
    let high = if extent - 1 - PARK_CORNER_CLEARANCE > middle {
        extent - 1 - PARK_CORNER_CLEARANCE
    } else {
        middle
    };
    if position < low {
        low
    } else if position > high {
        high
    } else {
        position
    }
}

/// Whether a position keeps its distance from both ends of a side that is long
/// enough for it.
pub open spec fn keeps_clear(position: int, extent: int) -> bool {
    extent > 2 * PARK_CORNER_CLEARANCE ==> PARK_CORNER_CLEARANCE <= position <= extent - 1
        - PARK_CORNER_CLEARANCE
}

pub open spec fn or_zero(n: int) -> int {
    if n > 0 {
        n
    } else {
        0
    }
}

/// Where the controlled cursor is tucked away when control goes home. On macOS
/// only the right and the bottom side clip the arrow, so it is put on the one
/// of them nearest this machine, clear of the corners; elsewhere it goes to the
/// far corner.
pub open spec fn park_point(a: ActiveView) -> (int, int) {
    let width = a.screen.width;
    let height = a.screen.height;
    let last_x = or_zero(width - 1);
    let last_y = or_zero(height - 1);
    if lowered(a.target.target_platform) != lowered("macos"@) {
        (last_x, last_y)
    } else {
        match a.target.edge {
            Edge::Right => (clear_of_corners(0, width), last_y),
            Edge::Left => (last_x, clear_of_corners(rounded(a.at.y) as int, height)),
            Edge::Bottom => (last_x, clear_of_corners(0, height)),
            Edge::Top => (clear_of_corners(rounded(a.at.x) as int, width), last_y),
        }
    }
}

fn clear_of_ends(position: i64, extent: i64) -> (r: i64)
    requires
        -0x1_0000_0000 <= extent <= 0x1_0000_0000,
    ensures
        r == clear_of_corners(position as int, extent as int),
{
    let middle: i64 = if extent > 1 {
        extent / 2
    } else {
        0
    };
    let clearance: i64 = PARK_CORNER_CLEARANCE as i64;
    let low: i64 = if clearance < middle {
        clearance
    } else {
        middle
    };
    let high: i64 = if extent - 1 - clearance > middle {
        extent - 1 - clearance
    } else {
        middle
    };
    if position < low {
        low
    } else if position > high {
        high
    } else {
        position
    }
}

pub fn remote_park_point(active: &ActiveTarget) -> (r: (i32, i32))
    ensures
        (r.0 as int, r.1 as int) == park_point(active@),
{
    let width: i64 = active.current_screen.width as i64;
    let height: i64 = active.current_screen.height as i64;
    let last_x: i64 = if width > 1 {
        width - 1
    } else {
        0
    };
    let last_y: i64 = if height > 1 {
        height - 1
    } else {
        0
    };
    if !same_ignoring_ascii_case(active.target.target_platform.as_str(), "macos") {
        return (last_x as i32, last_y as i32);
    }
    match active.target.edge {
        Edge::Right => (clear_of_ends(0, width) as i32, last_y as i32),
        Edge::Left => (last_x as i32, clear_of_ends(active.y.round() as i64, height) as i32),
        Edge::Bottom => (last_x as i32, clear_of_ends(0, height) as i32),
        Edge::Top => (clear_of_ends(active.x.round() as i64, width) as i32, last_y as i32),
    }
}

/// A cursor parked on a controlled macOS machine lies on the right or the bottom
/// side of the screen, and keeps its distance from both corners of that side
/// where the side is long enough for it.
pub proof fn law_a_mac_parks_on_a_clipping_side(a: ActiveView)
    requires
        a.screen.has_area(),
        lowered(a.target.target_platform) == lowered("macos"@),
    ensures
        ({
            let (x, y) = park_point(a);
            &&& (a.target.edge == Edge::Left || a.target.edge == Edge::Bottom) ==> x
                == a.screen.width - 1 && keeps_clear(y, a.screen.height)
            &&& (a.target.edge == Edge::Right || a.target.edge == Edge::Top) ==> y
                == a.screen.height - 1 && keeps_clear(x, a.screen.width)
        }),
{
}

/// A parked cursor lies on its screen.
pub proof fn law_parked_cursor_is_on_screen(a: ActiveView)
    requires
        a.screen.has_area(),
    ensures
        0 <= park_point(a).0 < a.screen.width,
        0 <= park_point(a).1 < a.screen.height,
{
}

// ---------------------------------------------------------------------------
// Barriers of the compositor
// ---------------------------------------------------------------------------
/// The target, among the first `n`, that a test keeps and whose stretch is
/// nearest; the earliest one where several are.
pub open spec fn nearest_kept(
    targets: Seq<TargetView>,
    n: nat,
    keep: spec_fn(TargetView) -> bool,
    distance: spec_fn(TargetView) -> Double,
) -> Option<int>
    decreases n,
{
    if n == 0 {
        None
    } else {
        let before = nearest_kept(targets, (n - 1) as nat, keep, distance);
        if !keep(targets[n - 1]) {
            before
        } else {
            match before {
                None => Some(n - 1),
                Some(best) => if distance(targets[n - 1]).below(distance(targets[best])) {
                    Some(n - 1)
                } else {
                    Some(best)
                },
            }
        }
    }
}

pub proof fn lemma_nearest_kept(
    targets: Seq<TargetView>,
    n: nat,
    keep: spec_fn(TargetView) -> bool,
    distance: spec_fn(TargetView) -> Double,
)
    ensures
        nearest_kept(targets, n, keep, distance) matches Some(best) ==> 0 <= best < n && keep(
            targets[best],
        ),
        nearest_kept(targets, n, keep, distance) is None ==> forall|i: int|
            0 <= i < n ==> !keep(#[trigger] targets[i]),
    decreases n,
{
    if n > 0 {
        lemma_nearest_kept(targets, (n - 1) as nat, keep, distance);
    }
}

/// The test for the targets behind one edge of one local screen.
pub open spec fn behind(screen_id: Seq<char>, edge: Edge) -> spec_fn(TargetView) -> bool {
    |target: TargetView| target.layout_local_screen.id@ == screen_id && target.edge == edge
}

/// How far a fraction of the local side lies from the stretch of a target.
pub open spec fn distance_to_local(fraction: Double) -> spec_fn(TargetView) -> Double {
    |target: TargetView| target.local_span.distance_from(fraction)
}

/// How far a reported overshoot may push the cursor into the remote screen.
pub open spec fn max_entry_push() -> Double {
    Double { bits: 0x4044_0000_0000_0000 }
}

/// A reported position pulled back onto an edge of a screen.
pub open spec fn on_edge(screen: Rect, edge: Edge, p: Point) -> Point {
    let max_x = whole(screen.right() - 1);
    let max_y = whole(screen.bottom() - 1);
    match edge {
        Edge::Top => Point { x: clamped(p.x, whole(screen.x), max_x), y: whole(screen.y) },
        Edge::Bottom => Point { x: clamped(p.x, whole(screen.x), max_x), y: max_y },
        Edge::Left => Point { x: whole(screen.x), y: clamped(p.y, whole(screen.y), max_y) },
        Edge::Right => Point { x: max_x, y: clamped(p.y, whole(screen.y), max_y) },
    }
}

/// How far a reported position lies past an edge.
pub open spec fn overshoot(screen: Rect, edge: Edge, p: Point) -> Double {
    match edge {
        Edge::Top => larger(difference(whole(screen.y), p.y), zero()),
        Edge::Bottom => larger(difference(p.y, whole(screen.bottom() - 1)), zero()),
        Edge::Left => larger(difference(whole(screen.x), p.x), zero()),
        Edge::Right => larger(difference(p.x, whole(screen.right() - 1)), zero()),
    }
}

/// The step by one pixel that leaves a screen across an edge.
pub open spec fn outward(edge: Edge) -> Point {
    match edge {
        Edge::Left => Point { x: whole(-1), y: zero() },
        Edge::Right => Point { x: whole(1), y: zero() },
        Edge::Top => Point { x: zero(), y: whole(-1) },
        Edge::Bottom => Point { x: zero(), y: whole(1) },
    }
}

pub fn linux_outward_delta(edge: Edge) -> (r: Point)
    ensures
        r == outward(edge),
{
    match edge {
        Edge::Left => Point { x: Double::from_int(-1), y: Double::zero() },
        Edge::Right => Point { x: Double::from_int(1), y: Double::zero() },
        Edge::Top => Point { x: Double::zero(), y: Double::from_int(-1) },
        Edge::Bottom => Point { x: Double::zero(), y: Double::from_int(1) },
    }
}

/// From the outermost pixels of a screen a step outward is a crossing.
pub proof fn law_a_step_outward_crosses(screen: Rect, edge: Edge, x: int, y: int)
    requires
        reachable(screen),
        screen.x <= x < screen.right(),
        screen.y <= y < screen.bottom(),
        match edge {
            Edge::Right => x == screen.right() - 1,
            Edge::Left => x == screen.x,
            Edge::Bottom => y == screen.bottom() - 1,
            Edge::Top => y == screen.y,
        },
    ensures
        pushes_over(screen, edge, Point { x: whole(x), y: whole(y) }, outward(edge)),
{
    lemma_whole_one();
    lemma_whole_zero();
    lemma_whole_of_eight_digits(160);
    assert(whole(160) == activation_band());
    lemma_pushed_along(screen.x, screen.right(), x, screen.y, screen.bottom(), y);
    lemma_pushed_along(screen.y, screen.bottom(), y, screen.x, screen.right(), x);
    assert(product(absolute(zero()), half()) == zero()) by {
        lemma_pow2_pos(1074);
        lemma_nearest_of_nothing(pow2(1074));
        assert(zero().units() == 0);
        assert(0 * half().units() == 0);
    }
    assert(zero().at_most(one()));
    assert(absolute(negated(one())) == one());
    assert(dominates(one(), zero()));
    assert(dominates(negated(one()), zero()));
}

/// One axis of such a step, and the place on the other.
proof fn lemma_pushed_along(start: int, end: int, at: int, low: int, high: int, across: int)
    requires
        -0x1_0000_0000 <= start <= at < end <= 0x1_0000_0000,
        -0x1_0000_0000 <= low <= across < high <= 0x1_0000_0000,
    ensures
        at == end - 1 ==> around(difference(whole(at), whole(1)), whole(end), whole(160)),
        at == start ==> around(difference(whole(at), whole(-1)), whole(start), whole(160)),
        at == end - 1 ==> difference(whole(end), whole(1)).at_most(whole(at)),
        at == start ==> whole(at).at_most(sum(whole(start), whole(1))),
        difference(whole(low), whole(1)).at_most(whole(across)),
        whole(across).at_most(sum(whole(high), whole(1))),
{
    law_integers_add_exactly(at, 1);
    law_integers_add_exactly(at, -1);
    law_integers_add_exactly(end, 160);
    law_integers_add_exactly(start, 160);
    law_integers_add_exactly(end, 1);
    law_integers_add_exactly(start, 1);
    law_integers_add_exactly(low, 1);
    law_integers_add_exactly(high, 1);
    lemma_whole_at_most(end - 160, at - 1);
    lemma_whole_at_most(at - 1, end + 160);
    lemma_whole_at_most(start - 160, at + 1);
    lemma_whole_at_most(at + 1, start + 160);
    lemma_whole_at_most(end - 1, at);
    lemma_whole_at_most(at, start + 1);
    lemma_whole_at_most(low - 1, across);
    lemma_whole_at_most(across, high + 1);
}

/// The hand-over that an activated barrier stands for. The barrier names the
/// edge; of the reported position only the place along it counts, and that
/// selects the link whose stretch holds it or is nearest.
pub open spec fn entry_from_barrier(
    targets: Seq<TargetView>,
    screen_id: Seq<char>,
    edge: Edge,
    p: Point,
) -> Option<ActiveView> {
    match first(targets, behind(screen_id, edge)) {
        None => None,
        Some(front) => {
            let native = front.local_screen.rect();
            let point = on_edge(native, edge, p);
            let push = smaller(overshoot(native, edge, p), max_entry_push());
            let fraction = fraction_along(
                front.layout_local_screen.rect(),
                edge,
                in_layout(front, point),
            );
            match nearest_kept(
                targets,
                targets.len(),
                behind(screen_id, edge),
                distance_to_local(fraction),
            ) {
                None => None,
                Some(best) => {
                    let chosen = targets[best];
                    let entered = entry_over_link(chosen, in_layout(chosen, point), push);
                    Some(
                        handed_over(
                            chosen,
                            kept_on(chosen.remote_screen.rect(), entered),
                            false,
                        ),
                    )
                },
            }
        },
    }
}

fn pull_onto_edge(screen: &Screen, edge: Edge, p: Point) -> (r: (Point, Double))
    requires
        bordered(screen.rect(), edge),
    ensures
        r.0 == on_edge(screen.rect(), edge, p),
        r.1 == overshoot(screen.rect(), edge, p),
{
    proof {
        if screen.width >= 1 {
            lemma_whole_ordered(screen.x as int, screen.rect().right() - 1);
        }
        if screen.height >= 1 {
            lemma_whole_ordered(screen.y as int, screen.rect().bottom() - 1);
        }
    }
    let left = Double::from_int(screen.x as i64);
    let top = Double::from_int(screen.y as i64);
    let max_x = Double::from_int(screen.right_edge() - 1);
    let max_y = Double::from_int(screen.bottom_edge() - 1);
    match edge {
        Edge::Top => (
            Point { x: p.x.clamp(left, max_x), y: top },
            top.minus(p.y).max(Double::zero()),
        ),
        Edge::Bottom => (
            Point { x: p.x.clamp(left, max_x), y: max_y },
            p.y.minus(max_y).max(Double::zero()),
        ),
        Edge::Left => (
            Point { x: left, y: p.y.clamp(top, max_y) },
            left.minus(p.x).max(Double::zero()),
        ),
        Edge::Right => (
            Point { x: max_x, y: p.y.clamp(top, max_y) },
            p.x.minus(max_x).max(Double::zero()),
        ),
    }
}

fn first_behind(targets: &Vec<InputTarget>, screen_id: &str, edge: Edge) -> (r: Option<usize>)
    ensures
        match r {
            Some(i) => i < targets.len() && first(
                target_views(targets@),
                behind(screen_id@, edge),
            ) == Some(targets@[i as int]@),
            None => first(target_views(targets@), behind(screen_id@, edge)) is None,
        },
{
    let ghost views = target_views(targets@);
    let ghost keep = behind(screen_id@, edge);
    let mut i: usize = 0;
    assert(views.skip(0) =~= views);
    while i < targets.len()
        invariant
            i <= targets.len(),
            views == target_views(targets@),
            keep == behind(screen_id@, edge),
            first(views, keep) == first(views.skip(i as int), keep),
        decreases targets.len() - i,
    {
        proof {
            lemma_first_step(views, keep, i as int);
            assert(views[i as int] == targets@[i as int]@);
        }
        if same(targets[i].layout_local_screen.id.as_str(), screen_id) && targets[i].edge == edge {
            return Some(i);
        }
        i = i + 1;
    }
    None
}

fn nearest_behind(targets: &Vec<InputTarget>, screen_id: &str, edge: Edge, fraction: Double) -> (r:
    Option<usize>)
    ensures
        match r {
            Some(b) => b < targets.len() && nearest_kept(
                target_views(targets@),
                targets@.len(),
                behind(screen_id@, edge),
                distance_to_local(fraction),
            ) == Some(b as int),
            None => nearest_kept(
                target_views(targets@),
                targets@.len(),
                behind(screen_id@, edge),
                distance_to_local(fraction),
            ) is None,
        },
{
    let ghost views = target_views(targets@);
    let ghost keep = behind(screen_id@, edge);
    let ghost distance = distance_to_local(fraction);
    let mut best: Option<usize> = None;
    let mut i: usize = 0;
    while i < targets.len()
        invariant
            i <= targets.len(),
            views == target_views(targets@),
            keep == behind(screen_id@, edge),
            distance == distance_to_local(fraction),
            match best {
                Some(b) => b < targets.len() && nearest_kept(views, i as nat, keep, distance)
                    == Some(b as int),
                None => nearest_kept(views, i as nat, keep, distance) is None,
            },
        decreases targets.len() - i,
    {
        assert(views[i as int] == targets@[i as int]@);
        if same(targets[i].layout_local_screen.id.as_str(), screen_id) && targets[i].edge == edge {
            match best {
                None => {
                    best = Some(i);
                },
                Some(b) => {
                    assert(views[b as int] == targets@[b as int]@);
                    if targets[i].local_span.distance(fraction).less(
                        targets[b].local_span.distance(fraction),
                    ) {
                        best = Some(i);
                    }
                },
            }
        }
        i = i + 1;
    }
    best
}

/// Whether an activated barrier stands on a side that holds pixels, and hands
/// over to a screen that does.
pub open spec fn entry_fits(
    targets: Seq<TargetView>,
    screen_id: Seq<char>,
    edge: Edge,
    p: Point,
) -> bool {
    &&& first(targets, behind(screen_id, edge)) matches Some(front) ==> bordered(
        front.local_screen.rect(),
        edge,
    )
    &&& entry_from_barrier(targets, screen_id, edge, p) matches Some(a) ==> a.screen.has_area()
}

/// Whether [`linux_entry_from_barrier`] can be asked.
pub fn barrier_entry_fits(
    targets: &Vec<InputTarget>,
    local_screen_id: &str,
    edge: Edge,
    p: Point,
) -> (r: bool)
    ensures
        r == entry_fits(target_views(targets@), local_screen_id@, edge, p),
{
    let front = match first_behind(targets, local_screen_id, edge) {
        Some(i) => &targets[i],
        None => {
            return true;
        },
    };
    let holds: bool = if edge.runs_horizontally() {
        front.local_screen.width >= 1
    } else {
        front.local_screen.height >= 1
    };
    if !holds {
        return false;
    }
    let (point, _) = pull_onto_edge(&front.local_screen, edge, p);
    let mapped = native_to_layout_point(front, point);
    let fraction = side_fraction(&front.layout_local_screen, edge, mapped);
    match nearest_behind(targets, local_screen_id, edge, fraction) {
        None => true,
        Some(b) => {
            assert(target_views(targets@)[b as int] == targets@[b as int]@);
            let remote = &targets[b].remote_screen;
            remote.width >= 1 && remote.height >= 1
        },
    }
}

pub fn linux_entry_from_barrier(
    targets: &Vec<InputTarget>,
    local_screen_id: &str,
    edge: Edge,
    p: Point,
) -> (r: Option<ActiveTarget>)
    requires
        entry_fits(target_views(targets@), local_screen_id@, edge, p),
    ensures
        match r {
            Some(active) => entry_from_barrier(
                target_views(targets@),
                local_screen_id@,
                edge,
                p,
            ) == Some(active@),
            None => entry_from_barrier(
                target_views(targets@),
                local_screen_id@,
                edge,
                p,
            ) is None,
        },
        r matches Some(active) ==> on_target_screen(active),
{
    let front = match first_behind(targets, local_screen_id, edge) {
        Some(i) => &targets[i],
        None => {
            return None;
        },
    };
    let (point, past) = pull_onto_edge(&front.local_screen, edge, p);
    let push = past.min(Double { bits: 0x4044_0000_0000_0000 });
    let mapped = native_to_layout_point(front, point);
    let fraction = side_fraction(&front.layout_local_screen, edge, mapped);
    match nearest_behind(targets, local_screen_id, edge, fraction) {
        None => None,
        Some(b) => {
            let chosen = &targets[b];
            assert(target_views(targets@)[b as int] == chosen@);
            let entered = link_entry_point(chosen, native_to_layout_point(chosen, point), push);
            let kept = keep_on(&chosen.remote_screen, entered);
            Some(active_target_at(chosen, kept, false))
        },
    }
}

/// A barrier that covers an edge of a local screen with a target behind it
/// always hands over, to one of the targets behind that edge.
pub proof fn law_a_barrier_with_a_link_hands_over(
    targets: Seq<TargetView>,
    screen_id: Seq<char>,
    edge: Edge,
    p: Point,
    i: int,
)
    requires
        0 <= i < targets.len(),
        targets[i].layout_local_screen.id@ == screen_id,
        targets[i].edge == edge,
    ensures
        ({
            &&& entry_from_barrier(targets, screen_id, edge, p) matches Some(active)
            &&& active.target.layout_local_screen.id@ == screen_id
            &&& active.target.edge == edge
            &&& active.screen_id == active.target.screen_id
        }),
{
    let keep = behind(screen_id, edge);
    crate::seqs::lemma_first(targets, keep);
    assert(keep(targets[i]));
    let front = first(targets, keep)->0;
    let native = front.local_screen.rect();
    let point = on_edge(native, edge, p);
    let fraction = fraction_along(front.layout_local_screen.rect(), edge, in_layout(front, point));
    lemma_nearest_kept(targets, targets.len(), keep, distance_to_local(fraction));
}

/// The side by which a position has left a screen, and where along it.
pub open spec fn way_out(screen: Rect, p: Point) -> Option<(Edge, Double)> {
    let max_x = whole(screen.width - 1);
    let max_y = whole(screen.height - 1);
    let rows = clamped(quotient(p.y, larger(max_y, one())), zero(), one());
    let columns = clamped(quotient(p.x, larger(max_x, one())), zero(), one());
    if p.x.below(zero()) {
        Some((Edge::Left, rows))
    } else if max_x.below(p.x) {
        Some((Edge::Right, rows))
    } else if p.y.below(zero()) {
        Some((Edge::Top, columns))
    } else if max_y.below(p.y) {
        Some((Edge::Bottom, columns))
    } else {
        None
    }
}

/// The test for the targets that a side of a remote screen leads to. Device and
/// screen both have to match: screen ids travel without the device prefix, so
/// the first screen of every peer goes by one id.
pub open spec fn attached_to(
    device_id: Seq<char>,
    screen_id: Seq<char>,
    edge: Edge,
) -> spec_fn(TargetView) -> bool {
    |target: TargetView|
        target.remote_edge == edge && target.screen_id == screen_id && target.device_id
            == device_id
}

/// How far a fraction of the remote side lies from the stretch of a target.
pub open spec fn distance_to_remote(fraction: Double) -> spec_fn(TargetView) -> Double {
    |target: TargetView| target.remote_span.distance_from(fraction)
}

/// Which link a cursor that ran off a remote screen comes home by, and where it
/// reappears: the entry mapping read backwards.
pub open spec fn exit_over_link(
    targets: Seq<TargetView>,
    device_id: Seq<char>,
    screen_id: Seq<char>,
    remote: Rect,
    p: Point,
) -> Option<(int, Point)> {
    match way_out(remote, p) {
        None => None,
        Some((edge, fraction)) => match nearest_kept(
            targets,
            targets.len(),
            attached_to(device_id, screen_id, edge),
            distance_to_remote(fraction),
        ) {
            None => None,
            Some(best) => {
                let chosen = targets[best];
                let native = chosen.local_screen.rect();
                let local_fraction = chosen.local_span.along(chosen.remote_span.inside(fraction));
                let offset = entry_point(native, chosen.edge, local_fraction, zero());
                Some(
                    (
                        best,
                        Point {
                            x: sum(whole(native.x), offset.x),
                            y: sum(whole(native.y), offset.y),
                        },
                    ),
                )
            },
        },
    }
}

fn leave_by(screen: &Screen, p: Point) -> (r: Option<(Edge, Double)>)
    ensures
        r == way_out(screen.rect(), p),
{
    let max_x = Double::from_int(screen.width as i64 - 1);
    let max_y = Double::from_int(screen.height as i64 - 1);
    let rows = p.y.over(max_y.max(Double::one())).clamp(Double::zero(), Double::one());
    let columns = p.x.over(max_x.max(Double::one())).clamp(Double::zero(), Double::one());
    if p.x.less(Double::zero()) {
        Some((Edge::Left, rows))
    } else if max_x.less(p.x) {
        Some((Edge::Right, rows))
    } else if p.y.less(Double::zero()) {
        Some((Edge::Top, columns))
    } else if max_y.less(p.y) {
        Some((Edge::Bottom, columns))
    } else {
        None
    }
}

/// Picks where the local cursor reappears after running off the remote screen;
/// `None` while it is still on it, or where no link is attached to that side.
pub fn linux_exit_return<'a>(
    targets: &'a Vec<InputTarget>,
    device_id: &str,
    screen_id: &str,
    remote: &Screen,
    p: Point,
) -> (r: Option<(&'a InputTarget, Point)>)
    ensures
        match (
            r,
            exit_over_link(target_views(targets@), device_id@, screen_id@, remote.rect(), p),
        ) {
            (Some((target, home)), Some((best, point))) => 0 <= best < targets.len() && *target
                == targets@[best] && home == point,
            (None, None) => true,
            _ => false,
        },
{
    let (edge, fraction) = match leave_by(remote, p) {
        Some(out) => out,
        None => {
            return None;
        },
    };
    let ghost views = target_views(targets@);
    let ghost keep = attached_to(device_id@, screen_id@, edge);
    let ghost distance = distance_to_remote(fraction);
    let mut best: Option<usize> = None;
    let mut i: usize = 0;
    while i < targets.len()
        invariant
            i <= targets.len(),
            views == target_views(targets@),
            keep == attached_to(device_id@, screen_id@, edge),
            distance == distance_to_remote(fraction),
            match best {
                Some(b) => b < targets.len() && nearest_kept(views, i as nat, keep, distance)
                    == Some(b as int),
                None => nearest_kept(views, i as nat, keep, distance) is None,
            },
        decreases targets.len() - i,
    {
        assert(views[i as int] == targets@[i as int]@);
        let target = &targets[i];
        if target.remote_edge == edge && same(target.screen_id.as_str(), screen_id) && same(
            target.device_id.as_str(),
            device_id,
        ) {
            match best {
                None => {
                    best = Some(i);
                },
                Some(b) => {
                    assert(views[b as int] == targets@[b as int]@);
                    if target.remote_span.distance(fraction).less(
                        targets[b].remote_span.distance(fraction),
                    ) {
                        best = Some(i);
                    }
                },
            }
        }
        i = i + 1;
    }
    match best {
        None => None,
        Some(b) => {
            let chosen = &targets[b];
            assert(views[b as int] == chosen@);
            let local_fraction = chosen.local_span.fraction_at(
                chosen.remote_span.position_of(fraction),
            );
            let native = &chosen.local_screen;
            let offset = edge_entry_point(native, chosen.edge, local_fraction);
            Some(
                (
                    chosen,
                    Point {
                        x: Double::from_int(native.x as i64).plus(offset.x),
                        y: Double::from_int(native.y as i64).plus(offset.y),
                    },
                ),
            )
        },
    }
}

/// A cursor that ran off a peer's screen comes home over a link of that very
/// device, screen and side; and it does come home where there is one.
pub proof fn law_exit_uses_the_peers_own_link(
    targets: Seq<TargetView>,
    device_id: Seq<char>,
    screen_id: Seq<char>,
    remote: Rect,
    p: Point,
)
    ensures
        match exit_over_link(targets, device_id, screen_id, remote, p) {
            Some((best, _)) => {
                &&& 0 <= best < targets.len()
                &&& way_out(remote, p) matches Some((edge, _))
                &&& targets[best].device_id == device_id
                &&& targets[best].screen_id == screen_id
                &&& targets[best].remote_edge == edge
            },
            None => way_out(remote, p) matches Some((edge, _)) ==> forall|i: int|
                0 <= i < targets.len() ==> !(#[trigger] targets[i].device_id == device_id
                    && targets[i].screen_id == screen_id && targets[i].remote_edge == edge),
        },
{
    match way_out(remote, p) {
        Some((edge, fraction)) => {
            let keep = attached_to(device_id, screen_id, edge);
            lemma_nearest_kept(targets, targets.len(), keep, distance_to_remote(fraction));
            if exit_over_link(targets, device_id, screen_id, remote, p) is None {
                assert forall|i: int| 0 <= i < targets.len() implies !(
                #[trigger] targets[i].device_id == device_id && targets[i].screen_id == screen_id
                    && targets[i].remote_edge == edge) by {
                    assert(!keep(targets[i]));
                }
            }
        },
        None => {},
    }
}

// ---------------------------------------------------------------------------
// Following the cursor
// ---------------------------------------------------------------------------
/// Roaming over a device's screens stays sound: a screen that holds the cursor
/// holds pixels.
pub proof fn lemma_roaming_stays_sound(
    a: ActiveView,
    d: Point,
    layout: LayoutState,
    device_id: Seq<char>,
)
    requires
        sound(a),
    ensures
        sound(roamed(a, d, wire_screens(layout, device_id)).0),
{
    let screens = wire_screens(layout, device_id);
    let p = sibling_under(a.screen_name, global_point(a));
    lemma_first(screens, p);
    match first(screens, p) {
        Some((name, screen)) => {
            let i = choose|i: int| 0 <= i < screens.len() && #[trigger] screens[i] == (name, screen);
            let global = global_point(a);
            if screen.width <= 0 {
                lemma_whole_ordered(screen.right() - 1, screen.x);
            }
            if screen.height <= 0 {
                lemma_whole_ordered(screen.bottom() - 1, screen.y);
            }
        },
        None => {},
    }
}

/// The event that puts the remote cursor where it is followed to.
pub open spec fn move_event(a: ActiveView) -> EventView {
    EventView::MouseMove {
        screen_id: a.screen_id,
        x: rounded(a.at.x),
        y: rounded(a.at.y),
    }
}

pub fn remote_mouse_move(active: &ActiveTarget) -> (r: InputEvent)
    ensures
        r@ == move_event(active@),
{
    InputEvent::MouseMove {
        screen_id: active.current_screen_id.clone(),
        x: active.x.round(),
        y: active.y.round(),
    }
}

/// The event that puts the remote cursor out of the way.
pub open spec fn park_event(a: ActiveView) -> EventView {
    EventView::MouseMove {
        screen_id: a.screen_id,
        x: park_point(a).0 as i32,
        y: park_point(a).1 as i32,
    }
}

pub fn remote_cursor_park(active: &ActiveTarget) -> (r: InputEvent)
    ensures
        r@ == park_event(active@),
{
    let (x, y) = remote_park_point(active);
    InputEvent::MouseMove { screen_id: active.current_screen_id.clone(), x, y }
}

/// A hand-over moved by a distance, before it is reconciled with the screens.
pub open spec fn shifted(a: ActiveView, d: Point) -> ActiveView {
    ActiveView { at: Point { x: sum(a.at.x, d.x), y: sum(a.at.y, d.y) }, ..a }
}

/// A hand-over kept on the screen that it is over.
pub open spec fn held_on_screen(a: ActiveView) -> ActiveView {
    ActiveView { at: kept_on(a.screen, a.at), ..a }
}

/// Moves the remote cursor by a distance. Says whether it went home; if it did
/// not, it is on a screen of the device.
pub open spec fn followed(a: ActiveView, d: Point, screens: Seq<(Seq<char>, Rect)>) -> (
    ActiveView,
    bool,
) {
    let (moved, home) = roamed(shifted(a, d), d, screens);
    if home {
        (moved, true)
    } else {
        (held_on_screen(moved), false)
    }
}

pub fn follow(active: &mut ActiveTarget, d: Point, layout: &LayoutState) -> (r: bool)
    requires
        sound(old(active)@),
    ensures
        (final(active)@, r) == followed(
            old(active)@,
            d,
            wire_screens(*layout, old(active)@.target.device_id),
        ),
        final(active).target == old(active).target,
        moved_screen(
            shifted(old(active)@, d),
            old(active).current_screen,
            *layout,
            final(active).current_screen,
        ),
        sound(final(active)@),
{
    active.x = active.x.plus(d.x);
    active.y = active.y.plus(d.y);
    let ghost before = active@;
    proof {
        assert(before == shifted(old(active)@, d));
        lemma_roaming_stays_sound(before, d, *layout, before.target.device_id);
    }
    if update_active_remote_screen(active, d, layout) {
        return true;
    }
    let kept = keep_on(&active.current_screen, Point { x: active.x, y: active.y });
    active.x = kept.x;
    active.y = kept.y;
    false
}

/// Where the cursor ends up after a movement is on a screen of the device that
/// is controlled, unless it went home or a coordinate is no number.
pub proof fn law_the_followed_cursor_stays_on_screen(
    a: ActiveView,
    d: Point,
    layout: LayoutState,
    device_id: Seq<char>,
)
    requires
        sound(a),
        a.screen.width <= i32::MAX,
        a.screen.height <= i32::MAX,
    ensures
        ({
            let (moved, home) = followed(a, d, wire_screens(layout, device_id));
            home || on_screen(moved.screen, moved.at) || moved.at.x.not_a_number()
                || moved.at.y.not_a_number()
        }),
{
    let screens = wire_screens(layout, device_id);
    let p = sibling_under(a.screen_name, global_point(shifted(a, d)));
    lemma_roaming_stays_sound(shifted(a, d), d, layout, device_id);
    lemma_first(screens, p);
    let (moved, home) = roamed(shifted(a, d), d, screens);
    if !home {
        if !moved.at.x.not_a_number() && !moved.at.y.not_a_number() {
            law_kept_positions_are_on_screen(moved.screen, moved.at);
        }
    }
}

} // verus!
