//! Following the cursor over whole pixels.
//!
//! The positions that screens report are whole, and on them the arithmetic of
//! numbers is that of integers. So what crossing, roaming and returning come to
//! can be said in columns and rows: a step onto a sibling screen leaves the
//! cursor where it is on the desk, and every other side holds it.

use crate::active::{
    activation_band, followed, global_point, kept_on, move_event, pinned, pushes_over, reachable,
    roamed, shifted, sibling_under, ActiveView,
};
use crate::double::{
    absolute, difference, half, law_integers_add_exactly, lemma_whole_at_most,
    lemma_whole_of_eight_digits, lemma_whole_one, lemma_whole_ordered, lemma_whole_value,
    lemma_whole_zero, one, rounded, whole,
};
use crate::edge::{falls_on, on_screen, Edge, Point};
use crate::shared_input::EventView;
use crate::layout::Rect;
use crate::order::{
    lemma_one_value, lemma_product_rank, lemma_rank_near_ordered, lemma_rank_of_value, unit,
};
use crate::seqs::{first, lemma_first};
use vstd::arithmetic::power2::*;
use vstd::prelude::*;

verus! {

/// A point of whole coordinates.
pub open spec fn at(x: int, y: int) -> Point {
    Point { x: whole(x), y: whole(y) }
}

/// Whether a coordinate or a distance is one that screens can have.
pub open spec fn ordinary(n: int) -> bool {
    -0x1_0000_0000 <= n <= 0x1_0000_0000
}

/// Whether a column and a row are pixels of a screen, counted from its corner.
pub open spec fn pixel_of(screen: Rect, x: int, y: int) -> bool {
    0 <= x < screen.width && 0 <= y < screen.height
}

/// A number kept between nothing and the last pixel.
pub open spec fn held(n: int, length: int) -> int {
    if n < 0 {
        0
    } else if n >= length {
        length - 1
    } else {
        n
    }
}

// ---------------------------------------------------------------------------
// On a screen and off it
// ---------------------------------------------------------------------------
/// A whole position is on a screen when it is one of its pixels, counted from
/// its corner; a whole point of the desk falls on a screen when it is one of its
/// pixels, counted from the screen's place.
pub proof fn law_a_screen_holds_its_pixels(screen: Rect, x: int, y: int)
    requires
        reachable(screen),
        ordinary(x),
        ordinary(y),
    ensures
        on_screen(screen, at(x, y)) <==> pixel_of(screen, x, y),
        falls_on(screen, at(x, y)) <==> pixel_of(screen, x - screen.x, y - screen.y),
{
    lemma_whole_zero();
    lemma_whole_at_most(0, x);
    lemma_whole_at_most(x, screen.width - 1);
    lemma_whole_at_most(0, y);
    lemma_whole_at_most(y, screen.height - 1);
    lemma_whole_at_most(screen.x, x);
    lemma_whole_at_most(x, screen.right() - 1);
    lemma_whole_at_most(screen.y, y);
    lemma_whole_at_most(y, screen.bottom() - 1);
}

/// Holding a cursor on a screen moves it only as far as the nearest pixel of
/// each axis.
pub proof fn law_a_held_cursor_goes_to_the_nearest_pixel(screen: Rect, x: int, y: int)
    requires
        reachable(screen),
        screen.has_area(),
        ordinary(x),
        ordinary(y),
    ensures
        kept_on(screen, at(x, y)) == at(held(x, screen.width), held(y, screen.height)),
{
    lemma_whole_zero();
    lemma_order(x, 0);
    lemma_order(screen.width - 1, x);
    lemma_order(y, 0);
    lemma_order(screen.height - 1, y);
}

pub proof fn lemma_order(i: int, j: int)
    requires
        ordinary(i),
        ordinary(j),
    ensures
        whole(i).below(whole(j)) <==> i < j,
        whole(i).at_most(whole(j)) <==> i <= j,
        !whole(i).not_a_number(),
{
    lemma_whole_at_most(i, j);
    lemma_whole_at_most(j, i);
    lemma_whole_value(i);
    lemma_whole_value(j);
    if i <= j {
        lemma_whole_ordered(i, j);
    } else {
        lemma_whole_ordered(j, i);
    }
}

// ---------------------------------------------------------------------------
// Crossing a side
// ---------------------------------------------------------------------------
/// How large a movement is.
pub open spec fn extent(n: int) -> int {
    if n < 0 {
        -n
    } else {
        n
    }
}

/// How far a movement goes outward over a side, and how far along it.
pub open spec fn out_and_along(edge: Edge, dx: int, dy: int) -> (int, int) {
    match edge {
        Edge::Right => (dx, dy),
        Edge::Left => (-dx, dy),
        Edge::Bottom => (dy, dx),
        Edge::Top => (-dy, dx),
    }
}

/// How far outside a side a point is: nought on its line, less inside.
pub open spec fn beyond(screen: Rect, edge: Edge, x: int, y: int) -> int {
    match edge {
        Edge::Right => x - (screen.x + screen.width),
        Edge::Left => screen.x - x,
        Edge::Bottom => y - (screen.y + screen.height),
        Edge::Top => screen.y - y,
    }
}

/// Whether a point is between the ends of a side, give or take a pixel.
pub open spec fn beside(screen: Rect, edge: Edge, x: int, y: int) -> bool {
    match edge {
        Edge::Right => screen.y - 1 <= y <= screen.y + screen.height + 1,
        Edge::Left => screen.y - 1 <= y <= screen.y + screen.height + 1,
        Edge::Bottom => screen.x - 1 <= x <= screen.x + screen.width + 1,
        Edge::Top => screen.x - 1 <= x <= screen.x + screen.width + 1,
    }
}

proof fn lemma_half_value()
    ensures
        half().finite(),
        2 * half().value() == unit(),
        half().value() > 0,
{
    lemma_one_value();
    lemma_pow2_unfold(1022);
    lemma_pow2_pos(1021);
    let (h, o) = (half(), one());
    assert(h.magnitude() == 1022 * 0x10_0000_0000_0000);
    assert(o.magnitude() == 1023 * 0x10_0000_0000_0000);
    assert(h.units() == 0x10_0000_0000_0000 * pow2(1021));
    assert(o.units() == 0x10_0000_0000_0000 * pow2(1022));
    assert(pow2(1022) == 2 * pow2(1021));
    assert(o.units() == 2 * h.units());
    assert(o.value() == o.units() && h.value() == h.units());
}

/// Half of one whole size against another.
pub proof fn lemma_half_at_most(across: int, along: int)
    requires
        ordinary(across),
        ordinary(along),
    ensures
        extent(across) <= 2 * extent(along) ==> crate::active::dominates(
            whole(along),
            whole(across),
        ),
        extent(across) >= 2 * extent(along) + 2 ==> !crate::active::dominates(
            whole(along),
            whole(across),
        ),
{
    let n = extent(across);
    let m = extent(along);
    lemma_absolute(across);
    lemma_absolute(along);
    lemma_whole_value(n);
    lemma_whole_value(m);
    lemma_whole_value(m + 1);
    lemma_one_value();
    lemma_half_value();
    lemma_product_rank(whole(n), half());
    lemma_rank_of_value(whole(m));
    lemma_rank_of_value(whole(m + 1));
    let u = unit();
    let h = half().value();
    let p = pow2(1074);
    assert((n * u) * h * 2 == (n * u) * u) by (nonlinear_arith)
        requires
            2 * h == u,
    ;
    if n <= 2 * m {
        assert((n * u) * h * 1 <= (m * u) * p) by (nonlinear_arith)
            requires
                (n * u) * h * 2 == (n * u) * u,
                n <= 2 * m,
                u == p,
                u > 0,
        ;
        lemma_rank_near_ordered((n * u) * h, p, m * u, 1);
    }
    if n >= 2 * m + 2 {
        assert(((m + 1) * u) * p <= (n * u) * h * 1) by (nonlinear_arith)
            requires
                (n * u) * h * 2 == (n * u) * u,
                n >= 2 * m + 2,
                u == p,
                u > 0,
        ;
        lemma_rank_near_ordered((m + 1) * u, 1, (n * u) * h, p);
        lemma_order(m, m + 1);
    }
}

proof fn lemma_absolute(n: int)
    requires
        ordinary(n),
    ensures
        absolute(whole(n)) == whole(extent(n)),
{
    lemma_whole_value(n);
    lemma_whole_value(-n);
    lemma_whole_zero();
}

proof fn lemma_banded(start: int, d: int, bound: int)
    requires
        ordinary(start),
        ordinary(d),
        ordinary(bound),
    ensures
        crate::active::around(difference(whole(start), whole(d)), whole(bound), activation_band())
            <==> bound - 160 <= start - d <= bound + 160,
{
    lemma_whole_of_eight_digits(160);
    assert(whole(160) == activation_band());
    law_integers_add_exactly(start, d);
    law_integers_add_exactly(bound, 160);
    lemma_whole_at_most(bound - 160, start - d);
    lemma_whole_at_most(start - d, bound + 160);
}

/// When a movement over whole pixels crosses a side: it goes outward, by at
/// least a pixel and at least half as far as along the side; it comes from no
/// more than 160 pixels off the side and ends no more than one pixel inside it,
/// beside the screen. (A movement along the side that is longer than twice the
/// way out by less than two pixels is left open here.)
pub proof fn law_a_crossing_goes_outward_at_the_side(
    screen: Rect,
    edge: Edge,
    x: int,
    y: int,
    dx: int,
    dy: int,
)
    requires
        reachable(screen),
        i32::MIN <= x <= i32::MAX,
        i32::MIN <= y <= i32::MAX,
        i32::MIN <= dx <= i32::MAX,
        i32::MIN <= dy <= i32::MAX,
    ensures
        ({
            let (out, along) = out_and_along(edge, dx, dy);
            let now = beyond(screen, edge, x, y);
            let holds = {
                &&& out >= 1
                &&& now >= -1
                &&& -160 <= now - out <= 160
                &&& beside(screen, edge, x, y)
            };
            let crosses = pushes_over(screen, edge, at(x, y), at(dx, dy));
            &&& crosses ==> holds && extent(along) <= 2 * out + 1
            &&& holds && extent(along) <= 2 * out ==> crosses
        }),
{
    lemma_whole_one();
    lemma_whole_zero();
    let (left, top) = (screen.x, screen.y);
    let (right, bottom) = (screen.right(), screen.bottom());
    law_integers_add_exactly(right, 1);
    law_integers_add_exactly(left, 1);
    law_integers_add_exactly(bottom, 1);
    law_integers_add_exactly(top, 1);
    lemma_whole_at_most(right - 1, x);
    lemma_whole_at_most(x, left + 1);
    lemma_whole_at_most(bottom - 1, y);
    lemma_whole_at_most(y, top + 1);
    lemma_whole_at_most(top - 1, y);
    lemma_whole_at_most(y, bottom + 1);
    lemma_whole_at_most(left - 1, x);
    lemma_whole_at_most(x, right + 1);
    lemma_whole_at_most(1, dx);
    lemma_whole_at_most(dx, -1);
    lemma_whole_at_most(1, dy);
    lemma_whole_at_most(dy, -1);
    lemma_banded(x, dx, right);
    lemma_banded(x, dx, left);
    lemma_banded(y, dy, bottom);
    lemma_banded(y, dy, top);
    lemma_half_at_most(dx, dy);
    lemma_half_at_most(dy, dx);
}

// ---------------------------------------------------------------------------
// Over the screens of a device
// ---------------------------------------------------------------------------
/// Whether a screen other than the named one holds a point of the desk.
pub open spec fn sibling_at(screen: (Seq<char>, Rect), name: Seq<char>, x: int, y: int) -> bool {
    screen.0 != name && pixel_of(screen.1, x - screen.1.x, y - screen.1.y)
}

/// Whether a position lies on or past the side of the entry screen that faces
/// the machine the cursor came from.
pub open spec fn at_the_way_home(edge: Edge, screen: Rect, x: int, y: int) -> bool {
    match edge {
        Edge::Right => x <= 0,
        Edge::Left => x >= screen.width - 1,
        Edge::Bottom => y <= 0,
        Edge::Top => y >= screen.height - 1,
    }
}

/// Whether a movement goes back over that side.
pub open spec fn heads_home(edge: Edge, dx: int, dy: int) -> bool {
    match edge {
        Edge::Right => dx < 0,
        Edge::Left => dx > 0,
        Edge::Bottom => dy < 0,
        Edge::Top => dy > 0,
    }
}

pub open spec fn whole_screens(screens: Seq<(Seq<char>, Rect)>) -> bool {
    forall|i: int| 0 <= i < screens.len() ==> reachable((#[trigger] screens[i]).1)
}

/// A cursor on a pixel of its screen stays. One that left it for a pixel of a
/// sibling is over the first such sibling, where it is on the desk unmoved, on
/// both axes, and on a pixel of that screen. Where there is no such sibling it
/// goes home if it left the entry screen over the side that it came by, heading
/// back; and stays on its screen, to be held there, if not.
pub proof fn law_roaming_leaves_the_cursor_in_place(
    a: ActiveView,
    x: int,
    y: int,
    dx: int,
    dy: int,
    screens: Seq<(Seq<char>, Rect)>,
)
    requires
        a.at == at(x, y),
        reachable(a.screen),
        whole_screens(screens),
        i32::MIN <= x <= i32::MAX,
        i32::MIN <= y <= i32::MAX,
        ordinary(dx),
        ordinary(dy),
    ensures
        ({
            let (r, home) = roamed(a, at(dx, dy), screens);
            let (gx, gy) = (a.screen.x + x, a.screen.y + y);
            let found = exists|i: int|
                0 <= i < screens.len() && sibling_at(#[trigger] screens[i], a.screen_name, gx, gy);
            &&& r.target == a.target
            &&& r.invert_y == a.invert_y
            &&& pixel_of(a.screen, x, y) ==> r == a && !home
            &&& !pixel_of(a.screen, x, y) && found ==> {
                &&& !home
                &&& global_point(r) == global_point(a)
                &&& r.at == at(gx - r.screen.x, gy - r.screen.y)
                &&& pixel_of(r.screen, gx - r.screen.x, gy - r.screen.y)
                &&& on_screen(r.screen, r.at)
                &&& r.screen_name != a.screen_name
                &&& r.screen_id == r.screen_name
                &&& exists|i: int|
                    0 <= i < screens.len() && #[trigger] screens[i] == (r.screen_name, r.screen)
                        && forall|j: int|
                        0 <= j < i ==> !sibling_at(#[trigger] screens[j], a.screen_name, gx, gy)
            }
            &&& !pixel_of(a.screen, x, y) && !found ==> {
                &&& home <==> a.screen_id == a.target.screen_id && at_the_way_home(
                    a.target.edge,
                    a.screen,
                    x,
                    y,
                ) && heads_home(a.target.edge, dx, dy)
                &&& !home ==> r == a
                &&& r.screen == a.screen
                &&& r.screen_id == a.screen_id
                &&& r.screen_name == a.screen_name
            }
        }),
{
    let d = at(dx, dy);
    let (r, home) = roamed(a, d, screens);
    let (gx, gy) = (a.screen.x + x, a.screen.y + y);
    law_a_screen_holds_its_pixels(a.screen, x, y);
    law_integers_add_exactly(a.screen.x, x);
    law_integers_add_exactly(a.screen.y, y);
    assert(global_point(a) == at(gx, gy));
    let p = sibling_under(a.screen_name, at(gx, gy));
    assert forall|i: int| 0 <= i < screens.len() implies p(#[trigger] screens[i]) == sibling_at(
        screens[i],
        a.screen_name,
        gx,
        gy,
    ) by {
        law_a_screen_holds_its_pixels(screens[i].1, gx, gy);
    }
    lemma_first(screens, p);
    match first(screens, p) {
        Some((name, screen)) => {
            let i = choose|i: int|
                0 <= i < screens.len() && #[trigger] screens[i] == (name, screen) && forall|j: int|
                    0 <= j < i ==> !p(#[trigger] screens[j]);
            assert(sibling_at(screens[i], a.screen_name, gx, gy));
            law_integers_add_exactly(gx, screen.x);
            law_integers_add_exactly(gy, screen.y);
            law_integers_add_exactly(screen.x, gx - screen.x);
            law_integers_add_exactly(screen.y, gy - screen.y);
            law_a_screen_holds_its_pixels(screen, gx - screen.x, gy - screen.y);
        },
        None => {
            lemma_whole_zero();
            lemma_order(x, 0);
            lemma_order(y, 0);
            lemma_order(a.screen.width - 1, x);
            lemma_order(a.screen.height - 1, y);
            lemma_order(dx, 0);
            lemma_order(0, dx);
            lemma_order(dy, 0);
            lemma_order(0, dy);
        },
    }
}

/// A cursor that goes home is left on the side of the entry screen that it went
/// over, level with where it was.
pub proof fn law_the_way_home_leaves_the_cursor_on_the_side(edge: Edge, screen: Rect, x: int, y: int)
    requires
        reachable(screen),
        screen.has_area(),
        ordinary(x),
        ordinary(y),
    ensures
        pinned(edge, screen, at(x, y)) == match edge {
            Edge::Right => at(0, held(y, screen.height)),
            Edge::Left => at(screen.width - 1, held(y, screen.height)),
            Edge::Bottom => at(held(x, screen.width), 0),
            Edge::Top => at(held(x, screen.width), screen.height - 1),
        },
{
    law_a_held_cursor_goes_to_the_nearest_pixel(screen, x, y);
    lemma_whole_zero();
}

/// A movement that ends on a pixel of the same screen moves the cursor by just
/// that much; one that ends on a pixel of a sibling puts it on that pixel of the
/// desk; any other leaves it, unless it goes home, at the nearest pixel of its
/// screen.
pub proof fn law_the_cursor_follows_the_movement(
    a: ActiveView,
    x: int,
    y: int,
    dx: int,
    dy: int,
    screens: Seq<(Seq<char>, Rect)>,
)
    requires
        a.at == at(x, y),
        reachable(a.screen),
        a.screen.has_area(),
        whole_screens(screens),
        i32::MIN <= x <= i32::MAX,
        i32::MIN <= y <= i32::MAX,
        i32::MIN <= dx <= i32::MAX,
        i32::MIN <= dy <= i32::MAX,
        i32::MIN <= x + dx <= i32::MAX,
        i32::MIN <= y + dy <= i32::MAX,
    ensures
        ({
            let (r, home) = followed(a, at(dx, dy), screens);
            let (gx, gy) = (a.screen.x + x + dx, a.screen.y + y + dy);
            let found = exists|i: int|
                0 <= i < screens.len() && sibling_at(#[trigger] screens[i], a.screen_name, gx, gy);
            &&& pixel_of(a.screen, x + dx, y + dy) ==> {
                &&& !home
                &&& r.screen == a.screen
                &&& r.screen_id == a.screen_id
                &&& r.at == at(x + dx, y + dy)
            }
            &&& !pixel_of(a.screen, x + dx, y + dy) && found ==> {
                &&& !home
                &&& r.screen_name != a.screen_name
                &&& r.at == at(gx - r.screen.x, gy - r.screen.y)
                &&& pixel_of(r.screen, gx - r.screen.x, gy - r.screen.y)
            }
            &&& !pixel_of(a.screen, x + dx, y + dy) && !found && !home ==> {
                &&& r.screen == a.screen
                &&& r.screen_id == a.screen_id
                &&& r.at == at(held(x + dx, a.screen.width), held(y + dy, a.screen.height))
            }
        }),
{
    let d = at(dx, dy);
    law_integers_add_exactly(x, dx);
    law_integers_add_exactly(y, dy);
    let b = shifted(a, d);
    law_roaming_leaves_the_cursor_in_place(b, x + dx, y + dy, dx, dy, screens);
    let (m, home) = roamed(b, d, screens);
    law_a_held_cursor_goes_to_the_nearest_pixel(a.screen, x + dx, y + dy);
    let (gx, gy) = (a.screen.x + x + dx, a.screen.y + y + dy);
    let found = exists|i: int|
        0 <= i < screens.len() && sibling_at(#[trigger] screens[i], a.screen_name, gx, gy);
    if !pixel_of(a.screen, x + dx, y + dy) && found {
        let i = choose|i: int|
            0 <= i < screens.len() && #[trigger] screens[i] == (m.screen_name, m.screen);
        law_a_held_cursor_goes_to_the_nearest_pixel(m.screen, gx - m.screen.x, gy - m.screen.y);
    }
}

/// The peer is told the screen and the pixel that the cursor is over.
pub proof fn law_the_peer_is_told_the_pixel(a: ActiveView, x: int, y: int)
    requires
        a.at == at(x, y),
        i32::MIN <= x <= i32::MAX,
        i32::MIN <= y <= i32::MAX,
    ensures
        move_event(a) == (EventView::MouseMove { screen_id: a.screen_id, x: x as i32, y: y as i32 }),
{
    lemma_rounded(x);
    lemma_rounded(y);
}

/// A whole number is its own nearest integer.
pub proof fn lemma_rounded(n: int)
    requires
        i32::MIN <= n <= i32::MAX,
    ensures
        rounded(whole(n)) == n,
{
    lemma_whole_value(n);
    lemma_pow2_pos(1074);
    let p = pow2(1074);
    let m = extent(n);
    assert(whole(n).units() == m * p) by (nonlinear_arith)
        requires
            whole(n).value() == n * p,
            m == extent(n),
            p > 0,
            whole(n).value() == (if n < 0 {
                -(whole(n).units() as int)
            } else {
                whole(n).units() as int
            }),
    ;
    assert((2 * (m * p) + p) / (2 * p as int) == m) by (nonlinear_arith)
        requires
            p > 0,
            m >= 0,
    ;
}

} // verus!
