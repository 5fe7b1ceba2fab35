//! Where a crossing lands, in plain arithmetic.
//!
//! The cursor that leaves over a stretch of one side arrives on the linked
//! stretch of another, at the matching place: in proportion, in order, and a
//! pixel inside the side that was named. Positions are numbers, so what is
//! proportional is so up to a rounding that no pixel sees.

use crate::active::{
    crossing_over, entry_over_link, in_layout, kept_on, movement_in_layout, reachable,
    return_point, scaled_to_layout, ActiveView,
};
use crate::double::{
    absolute, clamped, difference, larger, law_integers_add_exactly, lemma_whole_value,
    lemma_whole_zero, one, product, quotient, smaller, sum, whole, zero, Double,
};
use crate::edge::{entry_point, epsilon, fraction_along, Edge, EdgeSpan, Point};
use crate::layout::Rect;
use crate::order::{
    close, digits53, lemma_clamped, lemma_difference_near, lemma_difference_rank,
    lemma_exact_difference, lemma_exact_product, lemma_exact_quotient, lemma_exact_sum,
    lemma_one_value, lemma_product_near, lemma_product_ordered, lemma_quotient_near,
    lemma_quotient_ordered, lemma_quotient_rank, lemma_rank_near_ordered, lemma_rank_of_value,
    lemma_sum_near, lemma_sum_ordered, lemma_values_ordered, unit,
};
use crate::targets::TargetView;
use vstd::arithmetic::power2::*;
use vstd::prelude::*;

verus! {

/// About a millionth.
pub open spec fn fine() -> int {
    0x10_0000
}

/// An amount kept between nothing and a length.
pub open spec fn within(amount: int, length: int) -> int {
    if amount < 0 {
        0
    } else if amount > length {
        length
    } else {
        amount
    }
}

/// A coordinate along a side: that of the columns where the side lies flat, that
/// of the rows where it stands.
pub open spec fn along_side(edge: Edge, p: Point) -> Double {
    match edge {
        Edge::Left => p.y,
        Edge::Right => p.y,
        Edge::Top => p.x,
        Edge::Bottom => p.x,
    }
}

/// Where a side begins.
pub open spec fn side_start(screen: Rect, edge: Edge) -> int {
    match edge {
        Edge::Left => screen.y,
        Edge::Right => screen.y,
        Edge::Top => screen.x,
        Edge::Bottom => screen.x,
    }
}

/// How long a side is.
pub open spec fn side_length(screen: Rect, edge: Edge) -> int {
    match edge {
        Edge::Left => screen.height,
        Edge::Right => screen.height,
        Edge::Top => screen.width,
        Edge::Bottom => screen.width,
    }
}

/// A number that stands for a position on some desk.
pub open spec fn on_a_desk(c: Double) -> bool {
    c.finite() && close(c.value(), 0, 0x100_0000_0000 * unit())
}

// ---------------------------------------------------------------------------
// Along one axis
// ---------------------------------------------------------------------------
pub open spec fn fraction_of(c: Double, start: int, length: int) -> Double {
    clamped(quotient(difference(c, whole(start)), whole(length)), zero(), one())
}

proof fn lemma_small_powers()
    ensures
        pow2(0) == 1,
        pow2(31) == 0x8000_0000,
        pow2(32) == 0x1_0000_0000,
        pow2(41) == 0x200_0000_0000,
{
    lemma2_to64();
    lemma2_to64_rest();
}

/// The steps to a fraction, by value.
proof fn lemma_fraction_steps(c: Double, start: int, length: int)
    requires
        on_a_desk(c),
        -0x8000_0000 <= start <= 0x8000_0000,
        1 <= length <= 0x8000_0000,
    ensures
        difference(c, whole(start)).finite(),
        whole(length).finite(),
        whole(length).value() == length * unit(),
        whole(length).value() > 0,
        ({
            let d = difference(c, whole(start)).value();
            let e = c.value() - start * unit();
            &&& e <= 0 ==> d <= 0
            &&& e >= length * unit() ==> d >= length * unit()
            &&& 0 <= e <= length * unit() ==> 0 <= d <= length * unit() && close(
                digits53() * d,
                digits53() * e,
                0x8000_0000 * unit(),
            )
        }),
{
    lemma_small_powers();
    lemma_one_value();
    lemma_whole_value(start);
    lemma_whole_value(length);
    let u = unit();
    let e = c.value() - start * u;
    assert(close(start * u, 0, 0x8000_0000 * u)) by (nonlinear_arith)
        requires
            -0x8000_0000 <= start <= 0x8000_0000,
            u > 0,
    ;
    assert(0 < length * u <= 0x8000_0000 * u) by (nonlinear_arith)
        requires
            1 <= length <= 0x8000_0000,
            u > 0,
    ;
    let d = difference(c, whole(start));
    lemma_difference_near(c, whole(start), 41);
    lemma_difference_rank(c, whole(start));
    lemma_rank_of_value(zero());
    lemma_rank_of_value(whole(length));
    lemma_values_ordered(d, zero());
    lemma_values_ordered(zero(), d);
    lemma_values_ordered(whole(length), d);
    lemma_values_ordered(d, whole(length));
    if e <= 0 {
        lemma_rank_near_ordered(e, 1, 0, 1);
    }
    if e >= 0 {
        lemma_rank_near_ordered(0, 1, e, 1);
    }
    if e >= length * u {
        lemma_rank_near_ordered(length * u, 1, e, 1);
    }
    if e <= length * u {
        lemma_rank_near_ordered(e, 1, length * u, 1);
    }
    if 0 <= e <= length * u {
        lemma_difference_near(c, whole(start), 31);
    }
}

/// A coordinate between the ends of a length.
pub open spec fn lies_within(c: Double, start: int, length: int) -> bool {
    c.finite() && start * unit() <= c.value() <= (start + length) * unit()
}

pub proof fn lemma_within_is_on_a_desk(c: Double, start: int, length: int)
    requires
        lies_within(c, start, length),
        -0x8000_0000 <= start <= 0x8000_0000,
        1 <= length <= 0x8000_0000,
    ensures
        on_a_desk(c),
{
    lemma_one_value();
    let u = unit();
    assert(start * u >= -0x8000_0000 * u && (start + length) * u <= 0x1_0000_0000 * u)
        by (nonlinear_arith)
        requires
            -0x8000_0000 <= start <= 0x8000_0000,
            1 <= length <= 0x8000_0000,
            u > 0,
    ;
}

/// Between the ends of a length, the ratio to it is the distance from where it
/// begins over the length.
proof fn lemma_ratio(c: Double, start: int, length: int)
    requires
        lies_within(c, start, length),
        -0x8000_0000 <= start <= 0x8000_0000,
        1 <= length <= 0x8000_0000,
    ensures
        ({
            let q = quotient(difference(c, whole(start)), whole(length));
            let e = c.value() - start * unit();
            &&& q.finite()
            &&& 0 <= q.value() <= unit()
            &&& e == 0 ==> q.value() == 0
            &&& e == length * unit() ==> q.value() == unit()
            &&& close(2 * fine() * (q.value() * length), 2 * fine() * e, unit())
        }),
{
    lemma_small_powers();
    lemma_one_value();
    lemma_within_is_on_a_desk(c, start, length);
    lemma_fraction_steps(c, start, length);
    lemma_whole_value(start);
    let u = unit();
    let e = c.value() - start * u;
    let d = difference(c, whole(start));
    let q = quotient(d, whole(length));
    let l = whole(length);
    assert((start + length) * u == start * u + length * u) by (nonlinear_arith);
    let dv = d.value();
    let lv = l.value();
    assert(close(dv * u, 0, lv * (1 * u))) by (nonlinear_arith)
        requires
            0 <= dv <= length * u,
            lv == length * u,
            u > 0,
    ;
    lemma_quotient_near(d, l, 0);
    lemma_quotient_rank(d, l);
    lemma_rank_of_value(zero());
    lemma_rank_of_value(one());
    assert(0 * l.value() <= (dv * u) * 1) by (nonlinear_arith)
        requires
            dv >= 0,
            u > 0,
    ;
    assert((dv * u) * 1 <= u * l.value()) by (nonlinear_arith)
        requires
            dv <= length * u,
            l.value() == length * u,
            u > 0,
    ;
    lemma_rank_near_ordered(0, 1, dv * u, l.value() as nat);
    lemma_rank_near_ordered(dv * u, l.value() as nat, u, 1);
    lemma_values_ordered(zero(), q);
    lemma_values_ordered(q, one());
    let qv = q.value();
    let k = digits53();
    assert(close(k * (qv * length), k * dv, length * u)) by (nonlinear_arith)
        requires
            close(k * (qv * lv), k * (dv * u), lv * (1 * u)),
            lv == length * u,
            u > 0,
    ;
    assert(close(2 * fine() * (qv * length), 2 * fine() * e, u)) by (nonlinear_arith)
        requires
            close(k * (qv * length), k * dv, length * u),
            close(k * dv, k * e, 0x8000_0000 * u),
            1 <= length <= 0x8000_0000,
            u > 0,
            k == 0x20_0000_0000_0000,
            fine() == 0x10_0000,
    ;
    if e == 0 {
        lemma_exact_difference(c, whole(start), zero());
        assert(0 * u == 0 * l.value());
        lemma_exact_quotient(d, l, zero());
    }
    if e == length * u {
        lemma_exact_difference(c, whole(start), l);
        assert(l.value() * u == u * l.value()) by (nonlinear_arith);
        lemma_exact_quotient(d, l, one());
    }
}

/// A fraction of a side times its length is the distance from where it begins.
pub proof fn lemma_fraction(c: Double, start: int, length: int)
    requires
        on_a_desk(c),
        -0x8000_0000 <= start <= 0x8000_0000,
        1 <= length <= 0x8000_0000,
    ensures
        fraction_of(c, start, length).finite(),
        0 <= fraction_of(c, start, length).value() <= unit(),
        c.value() <= start * unit() ==> fraction_of(c, start, length).value() == 0,
        c.value() >= (start + length) * unit() ==> fraction_of(c, start, length).value() == unit(),
        close(
            2 * fine() * (fraction_of(c, start, length).value() * length),
            2 * fine() * within(c.value() - start * unit(), length * unit()),
            unit(),
        ),
{
    lemma_one_value();
    lemma_fraction_steps(c, start, length);
    let u = unit();
    let d = difference(c, whole(start));
    let q = quotient(d, whole(length));
    assert((start + length) * u == start * u + length * u) by (nonlinear_arith);
    if lies_within(c, start, length) {
        lemma_ratio(c, start, length);
        lemma_clamped(q, zero(), one());
    } else {
        lemma_quotient_by_length(d, length);
        let f = fraction_of(c, start, length).value();
        let e = within(c.value() - start * u, length * u);
        assert(f * length == e) by (nonlinear_arith)
            requires
                f == 0 && e == 0 || f == u && e == length * u,
        ;
    }
}

/// Outside a side a fraction stays at the end that is nearer.
proof fn lemma_quotient_by_length(d: Double, length: int)
    requires
        d.finite(),
        1 <= length <= 0x8000_0000,
        d.value() <= 0 || d.value() >= length * unit(),
    ensures
        ({
            let f = clamped(quotient(d, whole(length)), zero(), one());
            &&& f.finite()
            &&& d.value() <= 0 ==> f.value() == 0
            &&& d.value() >= length * unit() ==> f.value() == unit()
        }),
{
    lemma_one_value();
    lemma_whole_value(length);
    let u = unit();
    let l = whole(length);
    let dv = d.value();
    assert(l.value() > 0) by (nonlinear_arith)
        requires
            l.value() == length * u,
            length >= 1,
            u > 0,
    ;
    let q = quotient(d, l);
    lemma_quotient_rank(d, l);
    lemma_rank_of_value(zero());
    lemma_rank_of_value(one());
    if dv <= 0 {
        assert((dv * u) * 1 <= 0 * l.value()) by (nonlinear_arith)
            requires
                dv <= 0,
                u > 0,
        ;
        lemma_rank_near_ordered(dv * u, l.value() as nat, 0, 1);
        assert(q.rank() <= zero().rank());
    } else {
        assert(u * l.value() <= (dv * u) * 1) by (nonlinear_arith)
            requires
                dv >= length * u,
                l.value() == length * u,
                u > 0,
        ;
        lemma_rank_near_ordered(u, 1, dv * u, l.value() as nat);
        assert(q.rank() >= one().rank());
    }
    let f = clamped(q, zero(), one());
    assert(f.rank() == zero().rank() || f.rank() == one().rank());
    assert(f.finite());
    lemma_values_ordered(f, zero());
    lemma_values_ordered(f, one());
}

/// A fraction of the last pixel's number is that much of it.
pub proof fn lemma_into_pixels(f: Double, last: int)
    requires
        f.finite(),
        0 <= f.value() <= unit(),
        0 <= last <= 0x8000_0000,
    ensures
        product(f, whole(last)).finite(),
        0 <= product(f, whole(last)).value() <= last * unit(),
        close(
            4 * fine() * product(f, whole(last)).value(),
            4 * fine() * (f.value() * last),
            unit(),
        ),
        f.value() == 0 ==> product(f, whole(last)).value() == 0,
        f.value() == unit() ==> product(f, whole(last)).value() == last * unit(),
{
    lemma_small_powers();
    lemma_one_value();
    lemma_whole_value(last);
    let u = unit();
    let l = whole(last);
    let fv = f.value();
    let lv = l.value();
    assert(lv >= 0) by (nonlinear_arith)
        requires
            lv == last * u,
            last >= 0,
            u > 0,
    ;
    assert(close(fv * lv, 0, u * (0x8000_0000 * u))) by (nonlinear_arith)
        requires
            0 <= fv <= u,
            lv == last * u,
            0 <= last <= 0x8000_0000,
            u > 0,
    ;
    lemma_product_near(f, l, 31);
    let x = product(f, l);
    let xv = x.value();
    let k = digits53();
    assert(close(4 * fine() * xv, 4 * fine() * (fv * last), u)) by (nonlinear_arith)
        requires
            close(k * (xv * u), k * (fv * lv), u * (0x8000_0000 * u)),
            lv == last * u,
            u > 0,
            k == 0x20_0000_0000_0000,
            fine() == 0x10_0000,
    ;
    lemma_product_ordered(zero(), f, l);
    lemma_product_ordered(f, one(), l);
    assert(0 * lv == 0 * u);
    lemma_exact_product(zero(), l, zero());
    assert(u * lv == lv * u) by (nonlinear_arith);
    lemma_exact_product(one(), l, l);
    lemma_values_ordered(product(zero(), l), x);
    lemma_values_ordered(x, product(one(), l));
    if fv == 0 {
        lemma_exact_product(f, l, zero());
    }
    if fv == u {
        lemma_exact_product(f, l, l);
    }
}

// ---------------------------------------------------------------------------
// On a side
// ---------------------------------------------------------------------------
proof fn lemma_fraction_along(screen: Rect, edge: Edge, p: Point)
    requires
        side_length(screen, edge) >= 1,
    ensures
        fraction_along(screen, edge, p) == fraction_of(
            along_side(edge, p),
            side_start(screen, edge),
            side_length(screen, edge),
        ),
{
}

/// Where along a side a point sits is told in proportion: its fraction of the
/// side is its distance from where the side begins over the side's length. What
/// lies before the side or behind it is at that end.
pub proof fn law_a_fraction_is_a_proportion(screen: Rect, edge: Edge, p: Point)
    requires
        reachable(screen),
        side_length(screen, edge) >= 1,
        on_a_desk(along_side(edge, p)),
    ensures
        ({
            let f = fraction_along(screen, edge, p);
            let start = side_start(screen, edge) * unit();
            let length = side_length(screen, edge);
            let at = along_side(edge, p).value();
            &&& f.finite()
            &&& 0 <= f.value() <= unit()
            &&& close(
                2 * fine() * (f.value() * length),
                2 * fine() * within(at - start, length * unit()),
                unit(),
            )
        }),
{
    lemma_fraction_along(screen, edge, p);
    lemma_fraction(along_side(edge, p), side_start(screen, edge), side_length(screen, edge));
}

/// A point further along a side has no smaller a fraction of it.
pub proof fn law_fractions_keep_the_order(screen: Rect, edge: Edge, p: Point, q: Point)
    requires
        reachable(screen),
        side_length(screen, edge) >= 1,
        on_a_desk(along_side(edge, p)),
        on_a_desk(along_side(edge, q)),
        along_side(edge, p).at_most(along_side(edge, q)),
    ensures
        fraction_along(screen, edge, p).at_most(fraction_along(screen, edge, q)),
{
    let a = along_side(edge, p);
    let b = along_side(edge, q);
    let start = side_start(screen, edge);
    let length = side_length(screen, edge);
    lemma_fraction_along(screen, edge, p);
    lemma_fraction_along(screen, edge, q);
    lemma_fraction_steps(a, start, length);
    lemma_fraction_steps(b, start, length);
    lemma_whole_value(start);
    lemma_values_ordered(a, b);
    lemma_sum_ordered(a, b, whole(start));
    lemma_values_ordered(difference(a, whole(start)), difference(b, whole(start)));
    lemma_quotient_ordered(
        difference(a, whole(start)),
        difference(b, whole(start)),
        whole(length),
    );
}

proof fn lemma_absolute(a: Double)
    requires
        a.finite(),
    ensures
        absolute(a).finite(),
        absolute(a).value() == (if a.value() < 0 {
            -a.value()
        } else {
            a.value()
        }),
{
    assert(absolute(a).magnitude() == a.magnitude());
}

pub proof fn lemma_nearer_end(a: Double, b: Double)
    requires
        a.finite(),
        b.finite(),
    ensures
        smaller(a, b).finite(),
        larger(a, b).finite(),
        smaller(a, b).value() == (if a.value() < b.value() {
            a.value()
        } else {
            b.value()
        }),
        larger(a, b).value() == (if a.value() < b.value() {
            b.value()
        } else {
            a.value()
        }),
{
    lemma_values_ordered(a, b);
    lemma_values_ordered(b, a);
}

/// A coordinate across a side: how far from the left or from the top.
pub open spec fn across_side(edge: Edge, p: Point) -> Double {
    match edge {
        Edge::Left => p.x,
        Edge::Right => p.x,
        Edge::Top => p.y,
        Edge::Bottom => p.y,
    }
}

/// The pixel that lies so many pixels inside a side of a screen, the far one
/// where the screen is too small for that.
pub open spec fn pixel_inside(screen: Rect, edge: Edge, inward: int) -> int {
    match edge {
        Edge::Left => if inward < screen.width {
            inward
        } else {
            screen.width - 1
        },
        Edge::Right => if inward < screen.width {
            screen.width - 1 - inward
        } else {
            0
        },
        Edge::Top => if inward < screen.height {
            inward
        } else {
            screen.height - 1
        },
        Edge::Bottom => if inward < screen.height {
            screen.height - 1 - inward
        } else {
            0
        },
    }
}

/// How large a whole movement is.
pub open spec fn size_of(n: int) -> int {
    if n < 0 {
        -n
    } else {
        n
    }
}

/// The cursor enters on the side that was named, one pixel inside it and as many
/// more as the movement carried it, and at the asked-for fraction of the side.
pub proof fn law_entries_lie_on_the_named_side(
    screen: Rect,
    edge: Edge,
    fraction: Double,
    push: Double,
    pixels: int,
)
    requires
        reachable(screen),
        screen.has_area(),
        fraction.finite(),
        0 <= fraction.value() <= unit(),
        push.finite(),
        push.value() == pixels * unit(),
        -0x8000_0000 <= pixels <= 0x8000_0000,
    ensures
        ({
            let p = entry_point(screen, edge, fraction, push);
            let last = side_length(screen, edge) - 1;
            let v = along_side(edge, p).value();
            &&& across_side(edge, p).finite()
            &&& across_side(edge, p).value() == pixel_inside(screen, edge, 1 + size_of(pixels))
                * unit()
            &&& along_side(edge, p).finite()
            &&& 0 <= v <= last * unit()
            &&& close(4 * fine() * v, 4 * fine() * (fraction.value() * last), unit())
        }),
{
    let last_x = screen.width - 1;
    let last_y = screen.height - 1;
    let size = size_of(pixels);
    let u = unit();
    lemma_one_value();
    lemma_absolute(push);
    assert(size * u == if pixels * u < 0 {
        -(pixels * u)
    } else {
        pixels * u
    }) by (nonlinear_arith)
        requires
            size == size_of(pixels),
            u > 0,
    ;
    lemma_whole_value(1 + size);
    assert((1 + size) * u == u + size * u) by (nonlinear_arith);
    lemma_exact_sum(one(), absolute(push), whole(1 + size));
    let inward = sum(one(), absolute(push));
    lemma_across(inward, 1 + size, last_x);
    lemma_across(inward, 1 + size, last_y);
    lemma_clamped(fraction, zero(), one());
    let along = clamped(fraction, zero(), one());
    lemma_into_pixels(along, last_x);
    lemma_into_pixels(along, last_y);
}

proof fn lemma_across(inward: Double, n: int, last: int)
    requires
        inward.finite(),
        inward.value() == n * unit(),
        1 <= n <= 0x8000_0001,
        0 <= last <= 0x8000_0000,
    ensures
        smaller(inward, whole(last)).finite(),
        smaller(inward, whole(last)).value() == (if n <= last {
            n
        } else {
            last
        }) * unit(),
        larger(difference(whole(last), inward), zero()).finite(),
        larger(difference(whole(last), inward), zero()).value() == (if n <= last {
            last - n
        } else {
            0
        }) * unit(),
{
    let u = unit();
    lemma_one_value();
    lemma_whole_value(last);
    lemma_whole_value(last - n);
    assert((last - n) * u == last * u - n * u) by (nonlinear_arith);
    assert(n <= last ==> n * u <= last * u) by (nonlinear_arith)
        requires
            u > 0,
    ;
    assert(n > last ==> n * u > last * u) by (nonlinear_arith)
        requires
            u > 0,
    ;
    lemma_exact_difference(whole(last), inward, whole(last - n));
    lemma_nearer_end(inward, whole(last));
    lemma_nearer_end(difference(whole(last), inward), zero());
    assert(0 * u == 0);
}

// ---------------------------------------------------------------------------
// Over a link
// ---------------------------------------------------------------------------
/// A stretch of a side that runs forward.
pub open spec fn forward(span: EdgeSpan) -> bool {
    &&& span.start.finite()
    &&& span.end.finite()
    &&& 0 <= span.start.value() <= span.end.value() <= unit()
}

/// A stretch that is no mere point.
pub open spec fn stretches(span: EdgeSpan) -> bool {
    forward(span) && !difference(span.end, span.start).at_most(epsilon())
}

/// A whole side.
pub open spec fn whole_side() -> EdgeSpan {
    EdgeSpan { start: zero(), end: one() }
}

proof fn lemma_span_width(span: EdgeSpan)
    requires
        forward(span),
    ensures
        ({
            let w = difference(span.end, span.start);
            &&& w.finite()
            &&& 0 <= w.value() <= unit()
            &&& close(
                digits53() * w.value(),
                digits53() * (span.end.value() - span.start.value()),
                unit(),
            )
            &&& stretches(span) ==> w.value() > 0
        }),
{
    lemma_small_powers();
    lemma_one_value();
    let w = difference(span.end, span.start);
    let v = span.end.value() - span.start.value();
    assert(1 * unit() == unit());
    lemma_difference_near(span.end, span.start, 0);
    lemma_difference_rank(span.end, span.start);
    lemma_rank_of_value(zero());
    lemma_rank_of_value(one());
    lemma_rank_near_ordered(0, 1, v, 1);
    lemma_rank_near_ordered(v, 1, unit(), 1);
    lemma_values_ordered(zero(), w);
    lemma_values_ordered(w, one());
    lemma_values_ordered(w, zero());
}

/// The place inside a stretch, by value.
pub proof fn lemma_inside(span: EdgeSpan, f: Double, g: Double)
    requires
        forward(span),
        f.finite(),
        g.finite(),
        0 <= f.value() <= g.value() <= unit(),
    ensures
        span.inside(f).finite(),
        span.inside(g).finite(),
        0 <= span.inside(f).value() <= span.inside(g).value() <= unit(),
        stretches(span) && f.value() <= span.start.value() ==> span.inside(f).value() == 0,
        stretches(span) && g.value() >= span.end.value() ==> span.inside(g).value() == unit(),
{
    lemma_one_value();
    lemma_span_width(span);
    let w = difference(span.end, span.start);
    if w.at_most(epsilon()) {
        lemma_half_value();
    } else {
        let df = difference(f, span.start);
        let dg = difference(g, span.start);
        lemma_small_powers();
        assert(1 * unit() == unit());
        lemma_difference_near(f, span.start, 0);
        lemma_difference_near(g, span.start, 0);
        lemma_sum_ordered(f, g, span.start);
        lemma_values_ordered(df, dg);
        lemma_quotient_ordered(df, dg, w);
        let qf = quotient(df, w);
        let qg = quotient(dg, w);
        lemma_unit_clamp(qf, qg);
        if f.value() <= span.start.value() {
            lemma_sum_ordered(f, span.start, span.start);
            lemma_exact_difference(span.start, span.start, zero());
            lemma_values_ordered(df, difference(span.start, span.start));
            lemma_quotient_ordered(df, zero(), w);
            assert(0 * unit() == 0 * w.value());
            lemma_exact_quotient(zero(), w, zero());
            lemma_values_ordered(quotient(zero(), w), zero());
            assert(qf.rank() <= zero().rank());
        }
        if g.value() >= span.end.value() {
            lemma_sum_ordered(span.end, g, span.start);
            lemma_values_ordered(w, dg);
            lemma_quotient_ordered(w, dg, w);
            assert(w.value() * unit() == unit() * w.value()) by (nonlinear_arith);
            lemma_exact_quotient(w, w, one());
            lemma_values_ordered(quotient(w, w), one());
            assert(qg.rank() >= one().rank());
        }
        lemma_values_ordered(span.inside(f), zero());
        lemma_values_ordered(span.inside(g), one());
    }
}

proof fn lemma_half_value()
    ensures
        crate::double::half().finite(),
        0 <= crate::double::half().value() <= unit(),
{
    lemma_one_value();
    lemma_values_ordered(zero(), crate::double::half());
    lemma_values_ordered(crate::double::half(), one());
}

/// Numbers kept between zero and one stay in order.
proof fn lemma_unit_clamp(a: Double, b: Double)
    requires
        !a.not_a_number(),
        !b.not_a_number(),
        a.rank() <= b.rank(),
    ensures
        ({
            let x = clamped(a, zero(), one());
            let y = clamped(b, zero(), one());
            x.finite() && y.finite() && 0 <= x.value() <= y.value() <= unit()
        }),
{
    lemma_one_value();
    let x = clamped(a, zero(), one());
    let y = clamped(b, zero(), one());
    assert(zero().rank() <= x.rank() <= y.rank() <= one().rank());
    assert(x.finite() && y.finite());
    lemma_values_ordered(zero(), x);
    lemma_values_ordered(x, y);
    lemma_values_ordered(y, one());
}

/// A place inside a stretch as a fraction of the side, by value.
pub proof fn lemma_along(span: EdgeSpan, a: Double, b: Double)
    requires
        forward(span),
        a.finite(),
        b.finite(),
        0 <= a.value() <= b.value() <= unit(),
    ensures
        span.along(a).finite(),
        span.along(b).finite(),
        span.along(a).value() <= span.along(b).value(),
        span.along(a).value() >= span.start.value(),
        a.value() == 0 ==> span.along(a).value() == span.start.value(),
        b.value() == unit() ==> close(
            digits53() * span.along(b).value(),
            digits53() * span.end.value(),
            3 * unit(),
        ),
{
    lemma_one_value();
    lemma_small_powers();
    lemma_span_width(span);
    let u = unit();
    let w = difference(span.end, span.start);
    let ka = clamped(a, zero(), one());
    let kb = clamped(b, zero(), one());
    lemma_clamped(a, zero(), one());
    lemma_clamped(b, zero(), one());
    let pa = product(ka, w);
    let pb = product(kb, w);
    lemma_part_of(ka, w);
    lemma_part_of(kb, w);
    lemma_product_ordered(ka, kb, w);
    lemma_values_ordered(pa, pb);
    lemma2_to64();
    assert(pow2(1) == 2);
    lemma_sum_near(span.start, pa, 1);
    lemma_sum_near(span.start, pb, 1);
    lemma_sum_ordered(pa, pb, span.start);
    lemma_values_ordered(span.along(a), span.along(b));
    lemma_sum_ordered(zero(), pa, span.start);
    lemma_exact_sum(span.start, zero(), span.start);
    lemma_values_ordered(sum(span.start, zero()), span.along(a));
    if a.value() == 0 {
        lemma_exact_sum(span.start, pa, span.start);
    }
}

/// A part of a width is no more than the width.
proof fn lemma_part_of(a: Double, w: Double)
    requires
        a.finite(),
        w.finite(),
        0 <= a.value() <= unit(),
        0 <= w.value() <= unit(),
    ensures
        product(a, w).finite(),
        0 <= product(a, w).value() <= w.value(),
        a.value() == 0 ==> product(a, w).value() == 0,
        a.value() == unit() ==> product(a, w).value() == w.value(),
{
    lemma_one_value();
    lemma_small_powers();
    let u = unit();
    let (x, y) = (a.value(), w.value());
    assert(close(x * y, 0, u * (1 * u))) by (nonlinear_arith)
        requires
            0 <= x <= u,
            0 <= y <= u,
    ;
    lemma_product_near(a, w, 0);
    lemma_product_ordered(zero(), a, w);
    lemma_product_ordered(a, one(), w);
    assert(0 * y == 0 * u);
    lemma_exact_product(zero(), w, zero());
    assert(u * y == y * u) by (nonlinear_arith);
    lemma_exact_product(one(), w, w);
    lemma_values_ordered(product(zero(), w), product(a, w));
    lemma_values_ordered(product(a, w), product(one(), w));
    if x == 0 {
        lemma_exact_product(a, w, zero());
    }
    if x == u {
        lemma_exact_product(a, w, w);
    }
}

/// Whether a target's screens and stretches are such as a layout gives.
pub open spec fn linked(target: TargetView) -> bool {
    &&& reachable(target.layout_local_screen.rect())
    &&& reachable(target.remote_screen.rect())
    &&& target.layout_local_screen.rect().has_area()
    &&& target.remote_screen.rect().has_area()
    &&& forward(target.local_span)
    &&& forward(target.remote_span)
}

/// Where along the remote side a crossing lands.
pub open spec fn landing(target: TargetView, p: Point, push: Double) -> Double {
    along_side(target.remote_edge, entry_over_link(target, p, push))
}

#[verifier::rlimit(40)]
proof fn lemma_landing(target: TargetView, p: Point, push: Double)
    requires
        linked(target),
        on_a_desk(along_side(target.edge, p)),
    ensures
        ({
            let f = fraction_along(target.layout_local_screen.rect(), target.edge, p);
            let g = clamped(target.remote_span.along(target.local_span.inside(f)), zero(), one());
            let last = side_length(target.remote_screen.rect(), target.remote_edge) - 1;
            &&& f.finite() && 0 <= f.value() <= unit()
            &&& g.finite() && 0 <= g.value() <= unit()
            &&& landing(target, p, push) == product(g, whole(last))
        }),
{
    let local = target.layout_local_screen.rect();
    let f = fraction_along(local, target.edge, p);
    law_a_fraction_is_a_proportion(local, target.edge, p);
    lemma_inside(target.local_span, f, f);
    let position = target.local_span.inside(f);
    lemma_along(target.remote_span, position, position);
    let a = target.remote_span.along(position);
    lemma_one_value();
    lemma_clamped(a, zero(), one());
}

/// A crossing further along the local side lands at least as far along the
/// remote one, whichever sides they are: a link never turns the desk round.
pub proof fn law_landings_keep_the_order(target: TargetView, p: Point, q: Point, push: Double)
    requires
        linked(target),
        on_a_desk(along_side(target.edge, p)),
        on_a_desk(along_side(target.edge, q)),
        along_side(target.edge, p).at_most(along_side(target.edge, q)),
    ensures
        landing(target, p, push).at_most(landing(target, q, push)),
{
    let local = target.layout_local_screen.rect();
    let f = fraction_along(local, target.edge, p);
    let g = fraction_along(local, target.edge, q);
    lemma_landing(target, p, push);
    lemma_landing(target, q, push);
    law_fractions_keep_the_order(local, target.edge, p, q);
    lemma_values_ordered(f, g);
    lemma_inside(target.local_span, f, g);
    lemma_along(target.remote_span, target.local_span.inside(f), target.local_span.inside(g));
    let a = target.remote_span.along(target.local_span.inside(f));
    let b = target.remote_span.along(target.local_span.inside(g));
    lemma_one_value();
    lemma_values_ordered(a, b);
    lemma_unit_clamp(a, b);
    let last = side_length(target.remote_screen.rect(), target.remote_edge) - 1;
    lemma_whole_value(last);
    assert(last * unit() >= 0) by (nonlinear_arith)
        requires
            last >= 0,
            unit() > 0,
    ;
    lemma_product_ordered(
        clamped(a, zero(), one()),
        clamped(b, zero(), one()),
        whole(last),
    );
}

/// The ends of the local stretch lead to the same ends of the remote one: a
/// crossing at or before its start lands where the remote stretch starts, one
/// at or behind its end where that ends.
pub proof fn law_landings_meet_the_ends(target: TargetView, p: Point, push: Double)
    requires
        linked(target),
        stretches(target.local_span),
        on_a_desk(along_side(target.edge, p)),
    ensures
        ({
            let f = fraction_along(target.layout_local_screen.rect(), target.edge, p);
            let last = side_length(target.remote_screen.rect(), target.remote_edge) - 1;
            let v = landing(target, p, push).value();
            &&& f.at_most(target.local_span.start) ==> close(
                fine() * v,
                fine() * (target.remote_span.start.value() * last),
                unit(),
            )
            &&& target.local_span.end.at_most(f) ==> close(
                fine() * v,
                fine() * (target.remote_span.end.value() * last),
                unit(),
            )
        }),
{
    let local = target.layout_local_screen.rect();
    let f = fraction_along(local, target.edge, p);
    lemma_landing(target, p, push);
    lemma_inside(target.local_span, f, f);
    let position = target.local_span.inside(f);
    lemma_along(target.remote_span, position, position);
    let a = target.remote_span.along(position);
    lemma_one_value();
    lemma_clamped(a, zero(), one());
    let g = clamped(a, zero(), one());
    let last = side_length(target.remote_screen.rect(), target.remote_edge) - 1;
    lemma_into_pixels(g, last);
    lemma_values_ordered(f, target.local_span.start);
    lemma_values_ordered(target.local_span.end, f);
    let u = unit();
    let v = landing(target, p, push).value();
    let gv = g.value();
    if f.value() <= target.local_span.start.value() {
        let start = target.remote_span.start.value();
        assert(gv == start);
        assert(close(fine() * v, fine() * (start * last), u)) by (nonlinear_arith)
            requires
                close(4 * fine() * v, 4 * fine() * (start * last), u),
                u > 0,
                fine() == 0x10_0000,
        ;
    }
    if target.local_span.end.value() <= f.value() {
        let e = target.remote_span.end.value();
        let k = digits53();
        assert(close(k * gv, k * e, 3 * u));
        assert(close(fine() * v, fine() * (e * last), u)) by (nonlinear_arith)
            requires
                close(4 * fine() * v, 4 * fine() * (gv * last), u),
                close(k * gv, k * e, 3 * u),
                0 <= last <= 0x7fff_ffff,
                u > 0,
                k == 0x20_0000_0000_0000,
                fine() == 0x10_0000,
        ;
    }
}

/// Sides that are linked in full are stretched to each other: how far along the
/// local side the cursor left, to the length of that side, is how far along the
/// remote one it lands, to its last pixel.
pub proof fn law_full_links_keep_proportions(target: TargetView, p: Point, push: Double)
    requires
        linked(target),
        target.local_span == whole_side(),
        target.remote_span == whole_side(),
        on_a_desk(along_side(target.edge, p)),
    ensures
        ({
            let local = target.layout_local_screen.rect();
            let length = side_length(local, target.edge);
            let last = side_length(target.remote_screen.rect(), target.remote_edge) - 1;
            let left_at = within(
                along_side(target.edge, p).value() - side_start(local, target.edge) * unit(),
                length * unit(),
            );
            let v = landing(target, p, push).value();
            &&& landing(target, p, push).finite()
            &&& 0 <= v <= last * unit()
            &&& close(fine() * (v * length), fine() * (left_at * last), (length + last) * unit())
        }),
{
    let local = target.layout_local_screen.rect();
    let f = fraction_along(local, target.edge, p);
    law_a_fraction_is_a_proportion(local, target.edge, p);
    lemma_landing(target, p, push);
    lemma_whole_side(f);
    lemma_one_value();
    let a = whole_side().along(whole_side().inside(f));
    lemma_clamped(a, zero(), one());
    let g = clamped(a, zero(), one());
    let last = side_length(target.remote_screen.rect(), target.remote_edge) - 1;
    lemma_into_pixels(g, last);
    let u = unit();
    let length = side_length(local, target.edge);
    let fv = f.value();
    let v = landing(target, p, push).value();
    let e = within(
        along_side(target.edge, p).value() - side_start(local, target.edge) * u,
        length * u,
    );
    lemma_compose(v, fv, e, length, last, u);
}

proof fn lemma_compose(v: int, f: int, e: int, length: int, last: int, u: int)
    requires
        close(4 * fine() * v, 4 * fine() * (f * last), u),
        close(2 * fine() * (f * length), 2 * fine() * e, u),
        length >= 1,
        last >= 0,
        u > 0,
    ensures
        close(fine() * (v * length), fine() * (e * last), (length + last) * u),
{
    let k = fine();
    assert(close((4 * k * v) * length, (4 * k * (f * last)) * length, u * length))
        by (nonlinear_arith)
        requires
            close(4 * k * v, 4 * k * (f * last), u),
            length >= 1,
    ;
    assert(close((2 * k * (f * length)) * last, (2 * k * e) * last, u * last)) by (nonlinear_arith)
        requires
            close(2 * k * (f * length), 2 * k * e, u),
            last >= 0,
    ;
    assert((4 * k * v) * length == 4 * (k * (v * length))) by (nonlinear_arith);
    assert((4 * k * (f * last)) * length == 2 * ((2 * k * (f * length)) * last)) by (nonlinear_arith);
    assert((2 * k * e) * last == 2 * (k * (e * last))) by (nonlinear_arith);
    assert(u * length >= 0 && u * last >= 0) by (nonlinear_arith)
        requires
            u > 0,
            length >= 1,
            last >= 0,
    ;
    assert((length + last) * u == u * length + u * last) by (nonlinear_arith);
}

pub proof fn lemma_whole_side(f: Double)
    requires
        f.finite(),
        0 <= f.value() <= unit(),
    ensures
        whole_side().inside(f).value() == f.value(),
        whole_side().inside(f).finite(),
        whole_side().along(whole_side().inside(f)).value() == f.value(),
        whole_side().along(whole_side().inside(f)).finite(),
{
    lemma_one_value();
    let u = unit();
    let w = difference(one(), zero());
    lemma_exact_difference(one(), zero(), one());
    lemma_values_ordered(w, one());
    assert(!w.at_most(epsilon()));
    let d = difference(f, zero());
    lemma_exact_difference(f, zero(), f);
    assert(d.value() * u == f.value() * w.value());
    lemma_exact_quotient(d, w, f);
    let q = quotient(d, w);
    lemma_clamped(q, zero(), one());
    let i = whole_side().inside(f);
    lemma_clamped(i, zero(), one());
    let k = clamped(i, zero(), one());
    assert(k.value() * w.value() == f.value() * u);
    lemma_exact_product(k, w, f);
    lemma_exact_sum(zero(), product(k, w), f);
}

// ---------------------------------------------------------------------------
// From one screen to another of a different size
// ---------------------------------------------------------------------------
/// A coordinate of one length carried over to another.
pub open spec fn stretched(c: Double, start: int, length: int, to: int, to_length: int) -> Double {
    sum(
        whole(to),
        product(quotient(difference(c, whole(start)), whole(length)), whole(to_length)),
    )
}

/// What a coordinate is that was carried over from one length to another: as
/// far along the second, in proportion, as it was along the first.
pub open spec fn in_proportion(
    c: int,
    start: int,
    length: int,
    r: int,
    to: int,
    to_length: int,
) -> bool {
    &&& to * unit() <= r <= (to + to_length) * unit()
    &&& c == start * unit() ==> r == to * unit()
    &&& c == (start + length) * unit() ==> r == (to + to_length) * unit()
    &&& close(
        fine() * ((r - to * unit()) * length),
        fine() * ((c - start * unit()) * to_length),
        (length + to_length) * unit(),
    )
}

pub proof fn lemma_stretched(c: Double, start: int, length: int, to: int, to_length: int)
    requires
        lies_within(c, start, length),
        -0x8000_0000 <= start <= 0x8000_0000,
        1 <= length <= 0x8000_0000,
        -0x8000_0000 <= to <= 0x8000_0000,
        1 <= to_length <= 0x8000_0000,
    ensures
        stretched(c, start, length, to, to_length).finite(),
        in_proportion(
            c.value(),
            start,
            length,
            stretched(c, start, length, to, to_length).value(),
            to,
            to_length,
        ),
{
    lemma_small_powers();
    lemma_one_value();
    lemma_ratio(c, start, length);
    lemma_whole_value(to);
    let u = unit();
    let e = c.value() - start * u;
    assert((start + length) * u == start * u + length * u) by (nonlinear_arith);
    let q = quotient(difference(c, whole(start)), whole(length));
    lemma_into_pixels(q, to_length);
    let x = product(q, whole(to_length));
    let r = stretched(c, start, length, to, to_length);
    let (qv, xv) = (q.value(), x.value());
    assert(close(to * u + xv, 0, 0x1_0000_0000 * u)) by (nonlinear_arith)
        requires
            -0x8000_0000 <= to <= 0x8000_0000,
            0 <= xv <= to_length * u,
            to_length <= 0x8000_0000,
            u > 0,
    ;
    lemma_sum_near(whole(to), x, 32);
    let rv = r.value();
    lemma_whole_value(to + to_length);
    assert((to + to_length) * u == to * u + to_length * u) by (nonlinear_arith);
    lemma_whole_value(to_length);
    lemma_sum_ordered(zero(), x, whole(to));
    lemma_exact_sum(whole(to), zero(), whole(to));
    lemma_values_ordered(sum(whole(to), zero()), r);
    lemma_sum_ordered(x, whole(to_length), whole(to));
    lemma_exact_sum(whole(to), whole(to_length), whole(to + to_length));
    lemma_values_ordered(r, sum(whole(to), whole(to_length)));
    if e == 0 {
        lemma_exact_sum(whole(to), x, whole(to));
    }
    if e == length * u {
        lemma_exact_sum(whole(to), x, whole(to + to_length));
    }
    let f = rv - to * u;
    let k = digits53();
    assert(close(2 * fine() * f, 2 * fine() * xv, u)) by (nonlinear_arith)
        requires
            close(k * rv, k * (to * u + xv), 0x1_0000_0000 * u),
            f == rv - to * u,
            u > 0,
            k == 0x20_0000_0000_0000,
            fine() == 0x10_0000,
    ;
    assert(close(4 * fine() * f, 4 * fine() * (qv * to_length), 3 * u));
    lemma_compose_wide(f, qv, e, length, to_length, u);
}

pub proof fn lemma_compose_wide(v: int, f: int, e: int, length: int, last: int, u: int)
    requires
        close(4 * fine() * v, 4 * fine() * (f * last), 3 * u),
        close(2 * fine() * (f * length), 2 * fine() * e, u),
        length >= 1,
        last >= 0,
        u > 0,
    ensures
        close(fine() * (v * length), fine() * (e * last), (length + last) * u),
{
    let k = fine();
    assert(close((4 * k * v) * length, (4 * k * (f * last)) * length, 3 * u * length))
        by (nonlinear_arith)
        requires
            close(4 * k * v, 4 * k * (f * last), 3 * u),
            length >= 1,
    ;
    assert(close((2 * k * (f * length)) * last, (2 * k * e) * last, u * last)) by (nonlinear_arith)
        requires
            close(2 * k * (f * length), 2 * k * e, u),
            last >= 0,
    ;
    assert((4 * k * v) * length == 4 * (k * (v * length))) by (nonlinear_arith);
    assert((4 * k * (f * last)) * length == 2 * ((2 * k * (f * length)) * last)) by (nonlinear_arith);
    assert((2 * k * e) * last == 2 * (k * (e * last))) by (nonlinear_arith);
    assert(u * length >= 0 && u * last >= 0) by (nonlinear_arith)
        requires
            u > 0,
            length >= 1,
            last >= 0,
    ;
    assert(3 * u * length == 3 * (u * length)) by (nonlinear_arith);
    assert((length + last) * u == u * length + u * last) by (nonlinear_arith);
}

pub proof fn lemma_stretched_ordered(
    a: Double,
    b: Double,
    start: int,
    length: int,
    to: int,
    to_length: int,
)
    requires
        lies_within(a, start, length),
        lies_within(b, start, length),
        a.at_most(b),
        -0x8000_0000 <= start <= 0x8000_0000,
        1 <= length <= 0x8000_0000,
        -0x8000_0000 <= to <= 0x8000_0000,
        1 <= to_length <= 0x8000_0000,
    ensures
        stretched(a, start, length, to, to_length).at_most(
            stretched(b, start, length, to, to_length),
        ),
{
    lemma_one_value();
    lemma_values_ordered(a, b);
    lemma_within_is_on_a_desk(a, start, length);
    lemma_within_is_on_a_desk(b, start, length);
    lemma_fraction_steps(a, start, length);
    lemma_fraction_steps(b, start, length);
    lemma_whole_value(start);
    lemma_whole_value(to);
    lemma_whole_value(to_length);
    lemma_ratio(a, start, length);
    lemma_ratio(b, start, length);
    let da = difference(a, whole(start));
    let db = difference(b, whole(start));
    lemma_sum_ordered(a, b, whole(start));
    lemma_values_ordered(da, db);
    lemma_quotient_ordered(da, db, whole(length));
    let qa = quotient(da, whole(length));
    let qb = quotient(db, whole(length));
    lemma_values_ordered(qa, qb);
    lemma_into_pixels(qa, to_length);
    lemma_into_pixels(qb, to_length);
    assert(to_length * unit() >= 0) by (nonlinear_arith)
        requires
            to_length >= 0,
            unit() > 0,
    ;
    lemma_product_ordered(qa, qb, whole(to_length));
    let xa = product(qa, whole(to_length));
    let xb = product(qb, whole(to_length));
    lemma_values_ordered(xa, xb);
    lemma_sum_ordered(xa, xb, whole(to));
}

/// Whether a target's own screens are such as a machine reports: the native one
/// and its place in the layout.
pub open spec fn placed(target: TargetView) -> bool {
    &&& reachable(target.local_screen.rect())
    &&& reachable(target.layout_local_screen.rect())
    &&& target.local_screen.rect().has_area()
    &&& target.layout_local_screen.rect().has_area()
}

/// Whether a point lies on a screen, its far sides included.
pub open spec fn upon(screen: Rect, p: Point) -> bool {
    &&& lies_within(p.x, screen.x, screen.width)
    &&& lies_within(p.y, screen.y, screen.height)
}

/// A point of the native screen stands in the layout at the same place of the
/// screen: columns by the widths, rows by the heights, corners on corners.
pub proof fn law_the_layout_keeps_the_place_on_the_screen(target: TargetView, p: Point)
    requires
        placed(target),
        upon(target.local_screen.rect(), p),
    ensures
        ({
            let native = target.local_screen.rect();
            let layout = target.layout_local_screen.rect();
            let q = in_layout(target, p);
            &&& upon(layout, q)
            &&& in_proportion(
                p.x.value(),
                native.x,
                native.width,
                q.x.value(),
                layout.x,
                layout.width,
            )
            &&& in_proportion(
                p.y.value(),
                native.y,
                native.height,
                q.y.value(),
                layout.y,
                layout.height,
            )
        }),
{
    let native = target.local_screen.rect();
    let layout = target.layout_local_screen.rect();
    lemma_stretched(p.x, native.x, native.width, layout.x, layout.width);
    lemma_stretched(p.y, native.y, native.height, layout.y, layout.height);
}

/// What lies further right or further down natively does so in the layout.
pub proof fn law_the_layout_keeps_the_order(target: TargetView, p: Point, q: Point)
    requires
        placed(target),
        upon(target.local_screen.rect(), p),
        upon(target.local_screen.rect(), q),
    ensures
        p.x.at_most(q.x) ==> in_layout(target, p).x.at_most(in_layout(target, q).x),
        p.y.at_most(q.y) ==> in_layout(target, p).y.at_most(in_layout(target, q).y),
{
    let native = target.local_screen.rect();
    let layout = target.layout_local_screen.rect();
    if p.x.at_most(q.x) {
        lemma_stretched_ordered(p.x, q.x, native.x, native.width, layout.x, layout.width);
    }
    if p.y.at_most(q.y) {
        lemma_stretched_ordered(p.y, q.y, native.y, native.height, layout.y, layout.height);
    }
}

// ---------------------------------------------------------------------------
// A crossing as a whole
// ---------------------------------------------------------------------------
/// How long the native counterpart of the local side is.
pub open spec fn native_length(target: TargetView) -> int {
    side_length(target.local_screen.rect(), target.edge)
}

/// How far along the native side a point is.
pub open spec fn left_at(target: TargetView, p: Point) -> int {
    along_side(target.edge, p).value() - side_start(target.local_screen.rect(), target.edge)
        * unit()
}

pub proof fn lemma_kept(screen: Rect, edge: Edge, p: Point)
    requires
        reachable(screen),
        screen.has_area(),
        along_side(edge, p).finite(),
        0 <= along_side(edge, p).value() <= (side_length(screen, edge) - 1) * unit(),
    ensures
        along_side(edge, kept_on(screen, p)).finite(),
        along_side(edge, kept_on(screen, p)).value() == along_side(edge, p).value(),
{
    lemma_one_value();
    lemma_whole_value(screen.width - 1);
    lemma_whole_value(screen.height - 1);
    lemma_whole_zero();
    let last = side_length(screen, edge) - 1;
    assert(last * unit() >= 0) by (nonlinear_arith)
        requires
            last >= 0,
            unit() > 0,
    ;
    lemma_clamped(along_side(edge, p), zero(), whole(last));
}

/// Whether a position is as far along the remote side of a link as another is
/// along the native side, each to its length.
pub open spec fn keeps_the_level(target: TargetView, p: Point, at: Point) -> bool {
    let native = native_length(target);
    let length = side_length(target.layout_local_screen.rect(), target.edge);
    let last = side_length(target.remote_screen.rect(), target.remote_edge) - 1;
    let v = along_side(target.remote_edge, at).value();
    &&& along_side(target.remote_edge, at).finite()
    &&& 0 <= v <= last * unit()
    &&& close(
        fine() * (v * (length * native)),
        fine() * (left_at(target, p) * (length * last)),
        ((native + length) * last + (length + last) * native) * unit(),
    )
}

/// The entry over a link that joins two sides in full keeps the level, whatever
/// the movement was.
pub proof fn law_full_links_keep_the_level(target: TargetView, p: Point, push: Double)
    requires
        placed(target),
        linked(target),
        target.local_span == whole_side(),
        target.remote_span == whole_side(),
        upon(target.local_screen.rect(), p),
    ensures
        keeps_the_level(
            target,
            p,
            kept_on(
                target.remote_screen.rect(),
                entry_over_link(target, in_layout(target, p), push),
            ),
        ),
{
    let native = native_length(target);
    let layout = target.layout_local_screen.rect();
    let length = side_length(layout, target.edge);
    let remote = target.remote_screen.rect();
    let last = side_length(remote, target.remote_edge) - 1;
    let mapped = in_layout(target, p);
    law_the_layout_keeps_the_place_on_the_screen(target, p);
    lemma_within_is_on_a_desk(mapped.x, layout.x, layout.width);
    lemma_within_is_on_a_desk(mapped.y, layout.y, layout.height);
    law_full_links_keep_proportions(target, mapped, push);
    lemma_kept(remote, target.remote_edge, entry_over_link(target, mapped, push));
    let u = unit();
    let start = side_start(layout, target.edge);
    let f = along_side(target.edge, mapped).value() - start * u;
    assert((start + length) * u == start * u + length * u) by (nonlinear_arith);
    let v = landing(target, mapped, push).value();
    let e = left_at(target, p);
    lemma_compose_lengths(v, f, e, native, length, last, u);
}

/// Where a crossing of two sides that are linked in full hands the cursor over:
/// as far along the remote side as it left the native one, each to its length.
pub proof fn law_a_crossing_keeps_its_level(target: TargetView, p: Point, d: Point, invert_y: bool)
    requires
        placed(target),
        linked(target),
        target.local_span == whole_side(),
        target.remote_span == whole_side(),
        upon(target.local_screen.rect(), p),
    ensures
        keeps_the_level(target, p, crossing_over(target, in_layout(target, p), d, invert_y).at),
{
    let movement = movement_in_layout(target, d);
    law_full_links_keep_the_level(
        target,
        p,
        if target.edge.horizontal() {
            movement.y
        } else {
            movement.x
        },
    );
}

proof fn lemma_compose_lengths(
    v: int,
    f: int,
    e: int,
    native: int,
    length: int,
    last: int,
    u: int,
)
    requires
        close(fine() * (v * length), fine() * (f * last), (length + last) * u),
        close(fine() * (f * native), fine() * (e * length), (native + length) * u),
        native >= 1,
        length >= 1,
        last >= 0,
    ensures
        close(
            fine() * (v * (length * native)),
            fine() * (e * (length * last)),
            ((native + length) * last + (length + last) * native) * u,
        ),
{
    let k = fine();
    let (a, b, c) = (k * (v * length), k * (f * last), (length + last) * u);
    assert(close(a * native, b * native, c * native)) by (nonlinear_arith)
        requires
            close(a, b, c),
            native >= 1,
    ;
    let (a2, b2, c2) = (k * (f * native), k * (e * length), (native + length) * u);
    assert(close(a2 * last, b2 * last, c2 * last)) by (nonlinear_arith)
        requires
            close(a2, b2, c2),
            last >= 0,
    ;
    assert(a * native == k * (v * (length * native))) by (nonlinear_arith)
        requires
            a == k * (v * length),
    ;
    assert(b * native == a2 * last) by (nonlinear_arith)
        requires
            b == k * (f * last),
            a2 == k * (f * native),
    ;
    assert(b2 * last == k * (e * (length * last))) by (nonlinear_arith)
        requires
            b2 == k * (e * length),
    ;
    assert(((native + length) * last + (length + last) * native) * u == c2 * last + c * native)
        by (nonlinear_arith)
        requires
            c == (length + last) * u,
            c2 == (native + length) * u,
    ;
}

/// Between sides of one length that are linked in full, the cursor comes out at
/// the row or column at which it left, or less than a pixel before it: the last
/// pixel stands for the whole way.
pub proof fn law_a_level_crossing_keeps_the_row(
    target: TargetView,
    p: Point,
    d: Point,
    invert_y: bool,
)
    requires
        placed(target),
        linked(target),
        target.local_span == whole_side(),
        target.remote_span == whole_side(),
        upon(target.local_screen.rect(), p),
        native_length(target) == side_length(target.layout_local_screen.rect(), target.edge),
        native_length(target) == side_length(target.remote_screen.rect(), target.remote_edge),
    ensures
        ({
            let at = crossing_over(target, in_layout(target, p), d, invert_y).at;
            let v = along_side(target.remote_edge, at).value();
            let e = left_at(target, p);
            fine() * (e - unit()) - 4 * unit() <= fine() * v <= fine() * e + 4 * unit()
        }),
{
    law_a_crossing_keeps_its_level(target, p, d, invert_y);
    let n = native_length(target);
    let at = crossing_over(target, in_layout(target, p), d, invert_y).at;
    let v = along_side(target.remote_edge, at).value();
    let e = left_at(target, p);
    let u = unit();
    lemma_one_value();
    let start = side_start(target.local_screen.rect(), target.edge);
    assert((start + n) * u == start * u + n * u) by (nonlinear_arith);
    lemma_one_pixel(v, e, n, u);
}

proof fn lemma_one_pixel(v: int, e: int, n: int, u: int)
    requires
        close(
            fine() * (v * (n * n)),
            fine() * (e * (n * (n - 1))),
            ((n + n) * (n - 1) + (n + (n - 1)) * n) * u,
        ),
        0 <= e <= n * u,
        n >= 1,
        u > 0,
    ensures
        fine() * (e - u) - 4 * u <= fine() * v <= fine() * e + 4 * u,
{
    let k = fine();
    let a = k * (v * n);
    let b = k * (e * (n - 1));
    let c = ((n + n) + (n + n)) * u;
    assert(k * (v * (n * n)) == a * n) by (nonlinear_arith)
        requires
            a == k * (v * n),
    ;
    assert(k * (e * (n * (n - 1))) == b * n) by (nonlinear_arith)
        requires
            b == k * (e * (n - 1)),
    ;
    assert(((n + n) * (n - 1) + (n + (n - 1)) * n) * u <= c * n) by (nonlinear_arith)
        requires
            c == ((n + n) + (n + n)) * u,
            n >= 1,
            u > 0,
    ;
    assert(close(a, b, c)) by (nonlinear_arith)
        requires
            close(a * n, b * n, c * n),
            n >= 1,
    ;
    let x = k * v - k * e;
    assert(x * n == a - b - k * e) by (nonlinear_arith)
        requires
            a == k * (v * n),
            b == k * (e * (n - 1)),
            x == k * v - k * e,
    ;
    assert(0 <= k * e <= k * (n * u)) by (nonlinear_arith)
        requires
            0 <= e <= n * u,
            k == 0x10_0000,
    ;
    assert(k * (n * u) == (k * u) * n && c == (4 * u) * n) by (nonlinear_arith)
        requires
            c == ((n + n) + (n + n)) * u,
    ;
    assert(x <= 4 * u) by (nonlinear_arith)
        requires
            x * n <= (4 * u) * n,
            n >= 1,
    ;
    let w = 0 - (4 * u + k * u);
    assert(w * n == 0 - (4 * u) * n - (k * u) * n) by (nonlinear_arith)
        requires
            w == 0 - (4 * u + k * u),
    ;
    assert(x >= w) by (nonlinear_arith)
        requires
            x * n >= w * n,
            n >= 1,
    ;
    assert(k * (e - u) == k * e - k * u) by (nonlinear_arith);
}

proof fn lemma_unscaled(d: int, length: int)
    requires
        -0x10_0000 <= d <= 0x10_0000,
        1 <= length <= 0x8000_0000,
    ensures
        scaled_to_layout(whole(d), length, length).finite(),
        scaled_to_layout(whole(d), length, length).value() == d * unit(),
{
    lemma_one_value();
    lemma_whole_value(d);
    lemma_whole_value(length);
    lemma_small_powers();
    let u = unit();
    assert(-0x10_0000_0000_0000 < d * length < 0x10_0000_0000_0000) by (nonlinear_arith)
        requires
            -0x10_0000 <= d <= 0x10_0000,
            1 <= length <= 0x8000_0000,
    ;
    lemma_whole_value(d * length);
    assert((d * u) * (length * u) == ((d * length) * u) * u) by (nonlinear_arith);
    lemma_exact_product(whole(d), whole(length), whole(d * length));
    let x = product(whole(d), whole(length));
    assert(((d * length) * u) * u == (d * u) * (length * u)) by (nonlinear_arith);
    assert(length * u > 0) by (nonlinear_arith)
        requires
            length >= 1,
            u > 0,
    ;
    lemma_exact_quotient(x, whole(length), whole(d));
}

/// A crossing brings the cursor onto the linked side of the remote screen: one
/// pixel inside, and further by what the movement had over the local side. What
/// it moved along the side does not count.
#[verifier::rlimit(40)]
pub proof fn law_a_crossing_lands_inside_the_linked_side(
    target: TargetView,
    mapped: Point,
    dx: int,
    dy: int,
    invert_y: bool,
)
    requires
        placed(target),
        linked(target),
        on_a_desk(along_side(target.edge, mapped)),
        target.local_screen.rect().width == target.layout_local_screen.rect().width,
        target.local_screen.rect().height == target.layout_local_screen.rect().height,
        -0x10_0000 <= dx <= 0x10_0000,
        -0x10_0000 <= dy <= 0x10_0000,
    ensures
        ({
            let d = Point { x: whole(dx), y: whole(dy) };
            let over = match target.edge {
                Edge::Left => dx,
                Edge::Right => dx,
                Edge::Top => dy,
                Edge::Bottom => dy,
            };
            let remote = target.remote_screen.rect();
            let at = crossing_over(target, mapped, d, invert_y).at;
            &&& across_side(target.remote_edge, at).finite()
            &&& across_side(target.remote_edge, at).value() == pixel_inside(
                remote,
                target.remote_edge,
                1 + size_of(over),
            ) * unit()
        }),
{
    let d = Point { x: whole(dx), y: whole(dy) };
    let native = target.local_screen.rect();
    let remote = target.remote_screen.rect();
    lemma_unscaled(dx, native.width);
    lemma_unscaled(dy, native.height);
    let movement = movement_in_layout(target, d);
    let (push, over) = match target.edge {
        Edge::Left => (movement.x, dx),
        Edge::Right => (movement.x, dx),
        Edge::Top => (movement.y, dy),
        Edge::Bottom => (movement.y, dy),
    };
    lemma_landing(target, mapped, push);
    let f = fraction_along(target.layout_local_screen.rect(), target.edge, mapped);
    lemma_inside(target.local_span, f, f);
    let position = target.local_span.inside(f);
    lemma_along(target.remote_span, position, position);
    let fraction = target.remote_span.along(position);
    lemma_one_value();
    lemma_clamped(fraction, zero(), one());
    let g = clamped(fraction, zero(), one());
    lemma_clamped(g, zero(), one());
    law_entries_lie_on_the_named_side(remote, target.remote_edge, g, push, over);
    let entered = entry_over_link(target, mapped, push);
    assert(across_side(target.remote_edge, entered) == across_side(
        target.remote_edge,
        entry_point(remote, target.remote_edge, g, push),
    ));
    let n = pixel_inside(remote, target.remote_edge, 1 + size_of(over));
    let other = match target.remote_edge {
        Edge::Left => remote.width - 1,
        Edge::Right => remote.width - 1,
        Edge::Top => remote.height - 1,
        Edge::Bottom => remote.height - 1,
    };
    assert(0 <= n <= other);
    lemma_whole_value(other);
    lemma_whole_zero();
    assert(0 <= n * unit() <= other * unit()) by (nonlinear_arith)
        requires
            0 <= n <= other,
            unit() > 0,
    ;
    lemma_clamped(across_side(target.remote_edge, entered), zero(), whole(other));
}

// ---------------------------------------------------------------------------
// The way back
// ---------------------------------------------------------------------------
/// The cursor comes back on the side that it left by, and stays level: the row
/// (or column) that it has in the layout, in proportion, is the one it takes on
/// the native screen, the last pixel where it stood behind that.
pub proof fn law_a_return_keeps_its_level(a: ActiveView, x: int, y: int)
    requires
        placed(a.target),
        reachable(a.target.remote_screen.rect()),
        a.at == (Point { x: whole(x), y: whole(y) }),
        i32::MIN <= x <= i32::MAX,
        i32::MIN <= y <= i32::MAX,
    ensures
        ({
            let local = a.target.local_screen.rect();
            let layout = a.target.layout_local_screen.rect();
            let remote = a.target.remote_screen.rect();
            let edge = a.target.edge;
            let r = return_point(a);
            // where the cursor stands in the layout, along the local side
            let level = match edge {
                Edge::Left => remote.y + y,
                Edge::Right => remote.y + y,
                Edge::Top => remote.x + x,
                Edge::Bottom => remote.x + x,
            };
            let from = side_start(layout, edge);
            let length = side_length(layout, edge);
            let to = side_start(local, edge);
            let to_length = side_length(local, edge);
            let v = along_side(edge, r).value();
            &&& across_side(edge, r) == whole(
                match edge {
                    Edge::Left => local.x,
                    Edge::Right => local.x + local.width - 1,
                    Edge::Top => local.y,
                    Edge::Bottom => local.y + local.height - 1,
                },
            )
            &&& from <= level <= from + length ==> exists|row: int|
                #![trigger row * 1]
                {
                    &&& in_proportion(level * unit(), from, length, row, to, to_length)
                    &&& v == if row < (to + to_length - 1) * unit() {
                        row
                    } else {
                        (to + to_length - 1) * unit()
                    }
                }
        }),
{
    let local = a.target.local_screen.rect();
    let layout = a.target.layout_local_screen.rect();
    let remote = a.target.remote_screen.rect();
    let edge = a.target.edge;
    let (offset, origin) = match edge {
        Edge::Left => (y, remote.y),
        Edge::Right => (y, remote.y),
        Edge::Top => (x, remote.x),
        Edge::Bottom => (x, remote.x),
    };
    let level = origin + offset;
    let from = side_start(layout, edge);
    let length = side_length(layout, edge);
    let to = side_start(local, edge);
    let to_length = side_length(local, edge);
    law_integers_add_exactly(origin, offset);
    lemma_whole_value(level);
    lemma_one_value();
    let u = unit();
    if from <= level <= from + length {
        assert(from * u <= level * u <= (from + length) * u) by (nonlinear_arith)
            requires
                from <= level <= from + length,
                u > 0,
        ;
        lemma_stretched(whole(level), from, length, to, to_length);
        let s = stretched(whole(level), from, length, to, to_length);
        lemma_whole_value(to);
        lemma_whole_value(to + to_length - 1);
        assert(to * u <= (to + to_length - 1) * u) by (nonlinear_arith)
            requires
                to_length >= 1,
                u > 0,
        ;
        lemma_clamped(s, whole(to), whole(to + to_length - 1));
        assert(s.value() * 1 == s.value());
    }
}

} // verus!
