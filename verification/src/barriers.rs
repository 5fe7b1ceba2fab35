//! Leaving and coming home over the links of a layout, pixel by pixel.
//!
//! Which link a barrier or a side of a remote screen leads to, where the cursor
//! comes out, how rows are mirrored, and where a cursor is parked meanwhile.

use crate::active::{
    attached_to, behind, crossing_from, distance_to_local, distance_to_remote, echo_of_anchoring,
    entry_from_barrier, exit_over_link, in_layout, max_entry_push, mirrored, movement_in_layout,
    nearest_kept, on_edge, outward, overshoot, park_event, park_point, pushes_over, reachable,
    rows_of, way_out, ActiveView,
};
use crate::double::{
    clamped, difference, larger, law_integers_add_exactly, lemma_whole_at_most, lemma_whole_one,
    lemma_whole_value, lemma_whole_zero, one, quotient, smaller, sum, whole, zero, Double,
};
use crate::edge::{entry_point, Edge, Point};
use crate::landing::{
    across_side, along_side, fine, forward, keeps_the_level, law_entries_lie_on_the_named_side,
    law_full_links_keep_the_level, lemma_fraction, lemma_inside, lemma_along, lemma_whole_side,
    linked, pixel_inside, placed, side_length, side_start, whole_side,
};
use crate::layout::Rect;
use crate::order::{
    close, digits53, lemma_clamped, lemma_exact_sum, lemma_one_value, lemma_sum_near,
    lemma_values_ordered, unit,
};
use crate::roaming::{
    at, extent, held, lemma_half_at_most, lemma_order, lemma_rounded, ordinary, out_and_along,
    pixel_of,
};
use crate::seqs::{first, lemma_first};
use crate::shared_input::EventView;
use crate::targets::TargetView;
use crate::text::lowered;
use vstd::arithmetic::power2::*;
use vstd::prelude::*;

verus! {

// ---------------------------------------------------------------------------
// Which link
// ---------------------------------------------------------------------------
/// Of the links that are in question the nearest is taken, and of those that are
/// equally near the first.
pub proof fn law_the_nearest_link_is_taken(
    targets: Seq<TargetView>,
    n: nat,
    keep: spec_fn(TargetView) -> bool,
    distance: spec_fn(TargetView) -> Double,
)
    requires
        n <= targets.len(),
        forall|i: int| 0 <= i < n ==> !distance(#[trigger] targets[i]).not_a_number(),
    ensures
        match nearest_kept(targets, n, keep, distance) {
            Some(best) => {
                &&& 0 <= best < n
                &&& keep(targets[best])
                &&& forall|i: int|
                    0 <= i < n && keep(#[trigger] targets[i]) ==> distance(targets[best]).at_most(
                        distance(targets[i]),
                    )
                &&& forall|i: int|
                    0 <= i < best && keep(#[trigger] targets[i]) ==> distance(targets[best]).below(
                        distance(targets[i]),
                    )
            },
            None => forall|i: int| 0 <= i < n ==> !keep(#[trigger] targets[i]),
        },
    decreases n,
{
    if n > 0 {
        law_the_nearest_link_is_taken(targets, (n - 1) as nat, keep, distance);
    }
}

/// Whether a movement goes over the side of a target, natively or in the layout.
#[verifier::opaque]
pub open spec fn goes_over(target: TargetView, p: Point, d: Point) -> bool {
    ||| pushes_over(target.local_screen.rect(), target.edge, p, d)
    ||| pushes_over(
        target.layout_local_screen.rect(),
        target.edge,
        in_layout(target, p),
        movement_in_layout(target, d),
    )
}

#[verifier::rlimit(40)]
proof fn lemma_crossing_step(targets: Seq<TargetView>, from: int, p: Point, d: Point, invert_y: bool)
    requires
        0 <= from < targets.len(),
    ensures
        ({
            let r = crossing_from(targets, from, p, d, invert_y);
            if goes_over(targets[from], p, d) {
                &&& r matches Some(a)
                &&& a.target == targets[from]
                &&& a.screen == a.target.remote_screen.rect()
                &&& a.screen_id == a.target.screen_id
                &&& a.screen_name == a.target.screen_id
                &&& a.invert_y == invert_y
            } else {
                r == crossing_from(targets, from + 1, p, d, invert_y)
            }
        }),
{
    reveal(goes_over);
}

/// A crossing is that of the first target whose side the movement goes over,
/// and it starts on that target's own screen. There is one wherever the movement
/// goes over some target's side.
pub proof fn law_the_first_crossed_target_takes_the_cursor(
    targets: Seq<TargetView>,
    p: Point,
    d: Point,
    invert_y: bool,
    i: int,
)
    requires
        0 <= i < targets.len(),
        goes_over(targets[i], p, d),
        forall|j: int| 0 <= j < i ==> !goes_over(#[trigger] targets[j], p, d),
    ensures
        ({
            &&& crossing_from(targets, 0, p, d, invert_y) matches Some(a)
            &&& a.target == targets[i]
            &&& a.screen == a.target.remote_screen.rect()
            &&& a.screen_id == a.target.screen_id
            &&& a.screen_name == a.target.screen_id
            &&& a.invert_y == invert_y
        }),
{
    lemma_crossing_skips(targets, p, d, invert_y, 0, i);
    lemma_crossing_step(targets, i, p, d, invert_y);
}

#[verifier::spinoff_prover]
proof fn lemma_crossing_skips(
    targets: Seq<TargetView>,
    p: Point,
    d: Point,
    invert_y: bool,
    from: int,
    i: int,
)
    requires
        0 <= from <= i <= targets.len(),
        forall|j: int| from <= j < i ==> !goes_over(#[trigger] targets[j], p, d),
    ensures
        crossing_from(targets, from, p, d, invert_y) == crossing_from(targets, i, p, d, invert_y),
    decreases i - from,
{
    if from < i {
        assert(!goes_over(targets[from], p, d));
        lemma_crossing_step(targets, from, p, d, invert_y);
        lemma_crossing_skips(targets, p, d, invert_y, from + 1, i);
    }
}

/// A movement over no target's side is no crossing.
pub proof fn law_no_crossing_without_a_crossed_side(
    targets: Seq<TargetView>,
    p: Point,
    d: Point,
    invert_y: bool,
)
    requires
        forall|j: int| 0 <= j < targets.len() ==> !goes_over(#[trigger] targets[j], p, d),
    ensures
        crossing_from(targets, 0, p, d, invert_y) is None,
{
    lemma_crossing_skips(targets, p, d, invert_y, 0, targets.len() as int);
}

// ---------------------------------------------------------------------------
// In over a barrier
// ---------------------------------------------------------------------------
/// The pixel of a screen's side that is nearest to a point, as a point of the
/// desk.
pub open spec fn side_pixel(screen: Rect, edge: Edge, x: int, y: int) -> (int, int) {
    match edge {
        Edge::Left => (screen.x, screen.y + held(y - screen.y, screen.height)),
        Edge::Right => (
            screen.x + screen.width - 1,
            screen.y + held(y - screen.y, screen.height),
        ),
        Edge::Top => (screen.x + held(x - screen.x, screen.width), screen.y),
        Edge::Bottom => (
            screen.x + held(x - screen.x, screen.width),
            screen.y + screen.height - 1,
        ),
    }
}

/// A reported position is pulled onto the nearest pixel of the barrier's side,
/// and what it was past that pixel is how far the cursor is pushed.
pub proof fn law_a_barrier_is_hit_on_its_side(screen: Rect, edge: Edge, x: int, y: int)
    requires
        reachable(screen),
        screen.has_area(),
        i32::MIN <= x <= i32::MAX,
        i32::MIN <= y <= i32::MAX,
    ensures
        ({
            let (px, py) = side_pixel(screen, edge, x, y);
            on_edge(screen, edge, at(x, y)) == at(px, py)
        }),
        overshoot(screen, edge, at(x, y)) == whole(
            match edge {
                Edge::Left => if x < screen.x {
                    screen.x - x
                } else {
                    0
                },
                Edge::Right => if x > screen.x + screen.width - 1 {
                    x - (screen.x + screen.width - 1)
                } else {
                    0
                },
                Edge::Top => if y < screen.y {
                    screen.y - y
                } else {
                    0
                },
                Edge::Bottom => if y > screen.y + screen.height - 1 {
                    y - (screen.y + screen.height - 1)
                } else {
                    0
                },
            },
        ),
{
    let (left, top) = (screen.x, screen.y);
    let (right, bottom) = (screen.right() - 1, screen.bottom() - 1);
    lemma_pulled(x, left, right);
    lemma_pulled(y, top, bottom);
    lemma_past(top, y);
    lemma_past(left, x);
    lemma_past(y, bottom);
    lemma_past(x, right);
}

proof fn lemma_pulled(n: int, low: int, high: int)
    requires
        ordinary(n),
        ordinary(low),
        ordinary(high),
        low <= high,
    ensures
        clamped(whole(n), whole(low), whole(high)) == whole(low + held(n - low, high - low + 1)),
{
    lemma_order(n, low);
    lemma_order(high, n);
}

proof fn lemma_past(a: int, b: int)
    requires
        ordinary(a),
        ordinary(b),
    ensures
        larger(difference(whole(a), whole(b)), zero()) == whole(if a > b {
            a - b
        } else {
            0
        }),
{
    lemma_whole_zero();
    law_integers_add_exactly(a, b);
    lemma_whole_value(a - b);
    lemma_whole_at_most(a - b, 0);
    lemma_whole_at_most(0, a - b);
}

proof fn lemma_forty()
    ensures
        max_entry_push() == whole(40),
{
    lemma_pow2_adds(1027, 47);
    lemma_pow2_pos(1027);
    lemma2_to64_rest();
    lemma2_to64();
    lemma_one_value();
    lemma_whole_value(40);
    let m = max_entry_push();
    assert(m.magnitude() == 1028 * 0x10_0000_0000_0000 + 0x4_0000_0000_0000);
    assert(m.units() == 0x14_0000_0000_0000 * pow2(1027));
    assert(pow2(47) == 0x8000_0000_0000);
    let p = pow2(1027) as int;
    assert(unit() == 0x8000_0000_0000 * p);
    assert(m.value() == 40 * unit());
    lemma_values_ordered(m, whole(40));
    lemma_values_ordered(whole(40), m);
    assert(m.rank() == whole(40).rank());
}

/// A push by an overshoot is never more than forty pixels.
pub proof fn law_a_barrier_pushes_forty_pixels_at_most(n: int)
    requires
        0 <= n <= 0x1_0000_0000,
    ensures
        smaller(whole(n), max_entry_push()) == whole(if n < 40 {
            n
        } else {
            40
        }),
{
    lemma_forty();
    lemma_order(40, n);
}

/// A barrier hands over on the level where it was hit: with its side linked in
/// full to the peer's, as far along the one as the reported place is along the
/// other, each to its length.
pub proof fn law_a_barrier_keeps_the_level(
    targets: Seq<TargetView>,
    screen_id: Seq<char>,
    edge: Edge,
    x: int,
    y: int,
    native: Rect,
)
    requires
        entry_from_barrier(targets, screen_id, edge, at(x, y)) is Some,
        reachable(native),
        native.has_area(),
        i32::MIN <= x <= i32::MAX,
        i32::MIN <= y <= i32::MAX,
        forall|i: int|
            0 <= i < targets.len() && behind(screen_id, edge)(#[trigger] targets[i]) ==> {
                &&& targets[i].local_screen.rect() == native
                &&& placed(targets[i])
                &&& linked(targets[i])
                &&& targets[i].local_span == whole_side()
                &&& targets[i].remote_span == whole_side()
            },
    ensures
        ({
            let a = entry_from_barrier(targets, screen_id, edge, at(x, y))->0;
            let (px, py) = side_pixel(native, edge, x, y);
            &&& a.target.edge == edge
            &&& a.target.layout_local_screen.id@ == screen_id
            &&& keeps_the_level(a.target, at(px, py), a.at)
        }),
{
    let keep = behind(screen_id, edge);
    let p = at(x, y);
    lemma_first(targets, keep);
    let front = first(targets, keep)->0;
    assert(front.local_screen.rect() == native);
    law_a_barrier_is_hit_on_its_side(native, edge, x, y);
    let (px, py) = side_pixel(native, edge, x, y);
    let point = on_edge(native, edge, p);
    let push = smaller(overshoot(native, edge, p), max_entry_push());
    let fraction = crate::edge::fraction_along(
        front.layout_local_screen.rect(),
        edge,
        in_layout(front, point),
    );
    crate::active::lemma_nearest_kept(targets, targets.len(), keep, distance_to_local(fraction));
    let best = nearest_kept(targets, targets.len(), keep, distance_to_local(fraction))->0;
    let chosen = targets[best];
    assert(keep(targets[best]));
    let u = unit();
    lemma_one_value();
    lemma_whole_value(px);
    lemma_whole_value(py);
    assert(native.x <= px <= native.x + native.width);
    assert(native.y <= py <= native.y + native.height);
    assert(native.x * u <= px * u <= (native.x + native.width) * u) by (nonlinear_arith)
        requires
            native.x <= px <= native.x + native.width,
            u > 0,
    ;
    assert(native.y * u <= py * u <= (native.y + native.height) * u) by (nonlinear_arith)
        requires
            native.y <= py <= native.y + native.height,
            u > 0,
    ;
    law_full_links_keep_the_level(chosen, at(px, py), push);
}

// ---------------------------------------------------------------------------
// Out over a side of the remote screen
// ---------------------------------------------------------------------------
/// A whole position has left a screen by the side that it is past, and by none
/// while it is on one of the screen's pixels. Where along that side it left is
/// told in proportion.
pub proof fn law_the_way_out_is_the_side_that_was_passed(screen: Rect, x: int, y: int)
    requires
        reachable(screen),
        screen.width >= 2,
        screen.height >= 2,
        i32::MIN <= x <= i32::MAX,
        i32::MIN <= y <= i32::MAX,
    ensures
        way_out(screen, at(x, y)) is None <==> pixel_of(screen, x, y),
        way_out(screen, at(x, y)) matches Some((edge, fraction)) ==> {
            let place = match edge {
                Edge::Left => y,
                Edge::Right => y,
                Edge::Top => x,
                Edge::Bottom => x,
            };
            let last = side_length(screen, edge) - 1;
            &&& match edge {
                Edge::Left => x < 0,
                Edge::Right => x >= screen.width,
                Edge::Top => y < 0 && 0 <= x < screen.width,
                Edge::Bottom => y >= screen.height && 0 <= x < screen.width,
            }
            &&& fraction.finite()
            &&& 0 <= fraction.value() <= unit()
            &&& close(
                2 * fine() * (fraction.value() * last),
                2 * fine() * (held(place, last + 1) * unit()),
                unit(),
            )
        },
{
    lemma_whole_zero();
    lemma_whole_one();
    let (w, h) = (screen.width - 1, screen.height - 1);
    lemma_order(x, 0);
    lemma_order(w, x);
    lemma_order(y, 0);
    lemma_order(h, y);
    lemma_order(w, 1);
    lemma_order(h, 1);
    lemma_ratio_of(y, h);
    lemma_ratio_of(x, w);
}

proof fn lemma_ratio_of(place: int, last: int)
    requires
        i32::MIN <= place <= i32::MAX,
        1 <= last <= i32::MAX,
    ensures
        ({
            let f = clamped(quotient(whole(place), whole(last)), zero(), one());
            &&& f.finite()
            &&& 0 <= f.value() <= unit()
            &&& close(
                2 * fine() * (f.value() * last),
                2 * fine() * (held(place, last + 1) * unit()),
                unit(),
            )
        }),
{
    law_integers_add_exactly(place, 0);
    lemma_whole_value(place);
    lemma_one_value();
    let u = unit();
    assert(close(place * u, 0, 0x100_0000_0000 * u)) by (nonlinear_arith)
        requires
            -0x8000_0000 <= place <= 0x7fff_ffff,
            u > 0,
    ;
    lemma_fraction(whole(place), 0, last);
    let n = held(place, last + 1);
    assert(crate::landing::within(place * u - 0 * u, last * u) == n * u) by (nonlinear_arith)
        requires
            n == held(place, last + 1),
            last >= 1,
            u > 0,
    ;
}

/// Where a cursor that ran off a peer's screen comes home: on the side of the
/// native screen that its link leaves by, one pixel inside.
pub proof fn law_the_way_home_ends_on_the_linked_side(
    targets: Seq<TargetView>,
    device_id: Seq<char>,
    screen_id: Seq<char>,
    remote: Rect,
    x: int,
    y: int,
)
    requires
        reachable(remote),
        remote.width >= 2,
        remote.height >= 2,
        i32::MIN <= x <= i32::MAX,
        i32::MIN <= y <= i32::MAX,
        exit_over_link(targets, device_id, screen_id, remote, at(x, y)) is Some,
        forall|i: int|
            0 <= i < targets.len() ==> {
                &&& reachable((#[trigger] targets[i]).local_screen.rect())
                &&& targets[i].local_screen.rect().has_area()
                &&& forward(targets[i].local_span)
                &&& forward(targets[i].remote_span)
            },
    ensures
        ({
            let (best, home) = exit_over_link(targets, device_id, screen_id, remote, at(x, y))->0;
            let chosen = targets[best];
            let native = chosen.local_screen.rect();
            let origin = match chosen.edge {
                Edge::Left => native.x,
                Edge::Right => native.x,
                Edge::Top => native.y,
                Edge::Bottom => native.y,
            };
            &&& across_side(chosen.edge, home).finite()
            &&& across_side(chosen.edge, home).value() == (origin + pixel_inside(
                native,
                chosen.edge,
                1,
            )) * unit()
        }),
{
    let p = at(x, y);
    law_the_way_out_is_the_side_that_was_passed(remote, x, y);
    let (edge, fraction) = way_out(remote, p)->0;
    let keep = attached_to(device_id, screen_id, edge);
    crate::active::lemma_nearest_kept(targets, targets.len(), keep, distance_to_remote(fraction));
    let best = nearest_kept(targets, targets.len(), keep, distance_to_remote(fraction))->0;
    let chosen = targets[best];
    let native = chosen.local_screen.rect();
    lemma_inside(chosen.remote_span, fraction, fraction);
    let position = chosen.remote_span.inside(fraction);
    lemma_along(chosen.local_span, position, position);
    let f = chosen.local_span.along(position);
    lemma_one_value();
    lemma_clamped(f, zero(), one());
    let g = clamped(f, zero(), one());
    lemma_clamped(g, zero(), one());
    let u = unit();
    assert(0 * u == 0);
    law_entries_lie_on_the_named_side(native, chosen.edge, g, zero(), 0);
    let offset = entry_point(native, chosen.edge, f, zero());
    assert(across_side(chosen.edge, offset) == across_side(
        chosen.edge,
        entry_point(native, chosen.edge, g, zero()),
    ));
    let n = pixel_inside(native, chosen.edge, 1);
    let origin = match chosen.edge {
        Edge::Left => native.x,
        Edge::Right => native.x,
        Edge::Top => native.y,
        Edge::Bottom => native.y,
    };
    lemma_whole_value(origin);
    lemma_whole_value(origin + n);
    assert((origin + n) * u == origin * u + n * u) by (nonlinear_arith);
    lemma_exact_sum(whole(origin), across_side(chosen.edge, offset), whole(origin + n));
}

/// With its sides linked in full, a cursor that ran off a peer's screen comes
/// home as far along the native side as it left along the remote one, each to
/// its last pixel.
pub proof fn law_the_way_home_keeps_the_level(
    targets: Seq<TargetView>,
    device_id: Seq<char>,
    screen_id: Seq<char>,
    remote: Rect,
    x: int,
    y: int,
)
    requires
        reachable(remote),
        remote.width >= 2,
        remote.height >= 2,
        i32::MIN <= x <= i32::MAX,
        i32::MIN <= y <= i32::MAX,
        exit_over_link(targets, device_id, screen_id, remote, at(x, y)) is Some,
        forall|i: int|
            0 <= i < targets.len() ==> {
                &&& reachable((#[trigger] targets[i]).local_screen.rect())
                &&& targets[i].local_screen.rect().has_area()
                &&& targets[i].local_span == whole_side()
                &&& targets[i].remote_span == whole_side()
            },
    ensures
        ({
            let (best, home) = exit_over_link(targets, device_id, screen_id, remote, at(x, y))->0;
            let chosen = targets[best];
            let native = chosen.local_screen.rect();
            let side = chosen.remote_edge;
            let last = side_length(remote, side) - 1;
            let native_last = side_length(native, chosen.edge) - 1;
            let place = held(
                match side {
                    Edge::Left => y,
                    Edge::Right => y,
                    Edge::Top => x,
                    Edge::Bottom => x,
                },
                last + 1,
            );
            let v = along_side(chosen.edge, home).value() - side_start(native, chosen.edge)
                * unit();
            &&& along_side(chosen.edge, home).finite()
            &&& close(
                fine() * (v * last),
                fine() * ((place * unit()) * native_last),
                (last + native_last) * unit(),
            )
        }),
{
    let p = at(x, y);
    law_the_way_out_is_the_side_that_was_passed(remote, x, y);
    let (edge, fraction) = way_out(remote, p)->0;
    let keep = attached_to(device_id, screen_id, edge);
    crate::active::lemma_nearest_kept(targets, targets.len(), keep, distance_to_remote(fraction));
    let best = nearest_kept(targets, targets.len(), keep, distance_to_remote(fraction))->0;
    let chosen = targets[best];
    assert(keep(chosen));
    let native = chosen.local_screen.rect();
    let last = side_length(remote, edge) - 1;
    let native_last = side_length(native, chosen.edge) - 1;
    lemma_whole_side(fraction);
    let f = whole_side().along(whole_side().inside(fraction));
    lemma_one_value();
    let u = unit();
    assert(0 * u == 0);
    law_entries_lie_on_the_named_side(native, chosen.edge, f, zero(), 0);
    let offset = entry_point(native, chosen.edge, f, zero());
    let o = along_side(chosen.edge, offset);
    let start = side_start(native, chosen.edge);
    lemma_whole_value(start);
    lemma2_to64();
    lemma2_to64_rest();
    let ov = o.value();
    assert(close(start * u + ov, 0, 0x1_0000_0000 * u)) by (nonlinear_arith)
        requires
            -0x8000_0000 <= start <= 0x7fff_ffff,
            0 <= ov <= native_last * u,
            native_last <= 0x7fff_ffff,
            u > 0,
    ;
    lemma_sum_near(whole(start), o, 32);
    let h = sum(whole(start), o);
    let v = h.value() - start * u;
    let fv = fraction.value();
    let k = digits53();
    assert(close(4 * fine() * v, 4 * fine() * (fv * native_last), 3 * u)) by (nonlinear_arith)
        requires
            close(k * h.value(), k * (start * u + ov), 0x1_0000_0000 * u),
            close(4 * fine() * ov, 4 * fine() * (fv * native_last), u),
            v == h.value() - start * u,
            k == 0x20_0000_0000_0000,
            fine() == 0x10_0000,
            u > 0,
    ;
    let place = held(
        match edge {
            Edge::Left => y,
            Edge::Right => y,
            Edge::Top => x,
            Edge::Bottom => x,
        },
        last + 1,
    );
    crate::landing::lemma_compose_wide(v, fv, place * u, last, native_last, u);
}

// ---------------------------------------------------------------------------
// Small steps
// ---------------------------------------------------------------------------
/// A step outward goes one pixel out over the side and none along it.
pub proof fn law_a_step_outward_is_one_pixel(edge: Edge, dx: int, dy: int)
    requires
        i32::MIN <= dx <= i32::MAX,
        i32::MIN <= dy <= i32::MAX,
        outward(edge) == at(dx, dy),
    ensures
        out_and_along(edge, dx, dy) == (1int, 0int),
{
    lemma_whole_zero();
    lemma_order(dx, 0);
    lemma_order(0, dx);
    lemma_order(dy, 0);
    lemma_order(0, dy);
    lemma_order(dx, 1);
    lemma_order(1, dx);
    lemma_order(dy, 1);
    lemma_order(1, dy);
    lemma_order(dx, -1);
    lemma_order(-1, dx);
    lemma_order(dy, -1);
    lemma_order(-1, dy);
}

/// The echo of putting the cursor back to the edge goes inward, away from the
/// side that was crossed, and at least half as far as along it. (A movement
/// along the side that is longer than twice the way in by less than two pixels
/// is left open here.)
pub proof fn law_an_echo_goes_inward(edge: Edge, dx: int, dy: int)
    requires
        i32::MIN <= dx <= i32::MAX,
        i32::MIN <= dy <= i32::MAX,
    ensures
        ({
            let (out, along) = out_and_along(edge, dx, dy);
            let echo = echo_of_anchoring(edge, at(dx, dy));
            &&& echo ==> out <= -1 && extent(along) <= 2 * extent(out) + 1
            &&& out <= -1 && extent(along) <= 2 * extent(out) ==> echo
        }),
{
    lemma_whole_one();
    lemma_order(dx, -1);
    lemma_order(1, dx);
    lemma_order(dy, -1);
    lemma_order(1, dy);
    lemma_half_at_most(dx, dy);
    lemma_half_at_most(dy, dx);
}

// ---------------------------------------------------------------------------
// Rows
// ---------------------------------------------------------------------------
/// The rows of the local screens reach from the highest top to the lowest
/// bottom.
pub proof fn law_the_rows_hold_every_screen(targets: Seq<TargetView>, n: nat)
    requires
        n <= targets.len(),
    ensures
        rows_of(targets, n) is None <==> n == 0,
        rows_of(targets, n) matches Some((top, bottom)) ==> {
            &&& forall|i: int|
                0 <= i < n ==> top <= (#[trigger] targets[i]).local_screen.y
                    && targets[i].local_screen.y + targets[i].local_screen.height <= bottom
            &&& exists|i: int| 0 <= i < n && top == (#[trigger] targets[i]).local_screen.y
            &&& exists|i: int|
                0 <= i < n && bottom == (#[trigger] targets[i]).local_screen.y
                    + targets[i].local_screen.height
        },
    decreases n,
{
    if n > 0 {
        law_the_rows_hold_every_screen(targets, (n - 1) as nat);
        let screen = targets[n - 1].local_screen;
        assert(screen.rect().y == screen.y && screen.rect().bottom() == screen.y + screen.height);
    }
}

/// Mirroring a whole row swaps the first local row with the line below the last
/// and keeps the distances between; twice it is no change.
pub proof fn law_mirroring_turns_the_rows_round(top: int, bottom: int, y: int)
    requires
        ordinary(top),
        ordinary(bottom),
        ordinary(y),
    ensures
        mirrored((top, bottom), whole(y)) == whole(bottom - (y - top)),
        mirrored((top, bottom), mirrored((top, bottom), whole(y))) == whole(y),
{
    law_integers_add_exactly(top, bottom);
    law_integers_add_exactly(top + bottom, y);
    law_integers_add_exactly(top + bottom, top + bottom - y);
}

// ---------------------------------------------------------------------------
// Parking
// ---------------------------------------------------------------------------
/// A cursor is parked in the far corner of its screen, but on a Mac: there on the
/// right or the bottom side, at its own place along it where it stands between
/// the corners' clearances, or, on the side that leads away from this machine,
/// as near to this machine as the clearance allows.
pub proof fn law_a_cursor_is_parked_out_of_the_way(a: ActiveView, x: int, y: int)
    requires
        a.at == at(x, y),
        i32::MIN <= x <= i32::MAX,
        i32::MIN <= y <= i32::MAX,
        a.screen.width > 128,
        a.screen.height > 128,
        reachable(a.screen),
    ensures
        ({
            let mac = lowered(a.target.target_platform) == lowered("macos"@);
            let (right, bottom) = (a.screen.width - 1, a.screen.height - 1);
            let clear = |n: int, last: int|
                if n < 64 {
                    64
                } else if n > last - 64 {
                    last - 64
                } else {
                    n
                };
            &&& !mac ==> park_point(a) == (right, bottom)
            &&& mac && a.target.edge == Edge::Right ==> park_point(a) == (64int, bottom)
            &&& mac && a.target.edge == Edge::Bottom ==> park_point(a) == (right, 64int)
            &&& mac && a.target.edge == Edge::Left ==> park_point(a) == (right, clear(y, bottom))
            &&& mac && a.target.edge == Edge::Top ==> park_point(a) == (clear(x, right), bottom)
            &&& park_event(a) matches EventView::MouseMove { screen_id, x: column, y: row }
                && screen_id == a.screen_id && (column as int, row as int) == park_point(a)
        }),
{
    lemma_rounded(x);
    lemma_rounded(y);
}

} // verus!
