//! Where screens meet, in plain arithmetic.
//!
//! What it means that two screens touch or overlap, which stretch of a side
//! they share, and where the middle of a screen is, all told by pixels.

use crate::double::{
    clamped, difference, half, law_integers_add_exactly, lemma_whole_value, one, quotient, sum,
    whole, zero, Double,
};
use crate::edge::{
    middle_of, overlapping, shared_stretch, span_slack, spans_by_geometry, touching, two, Edge,
    EdgeSpan, Point,
};
use crate::landing::{
    fine, forward, lemma_fraction, lemma_within_is_on_a_desk, side_length, side_start,
};
use crate::layout::Rect;
use crate::order::{
    close, digits53, lemma_clamped, lemma_difference_near, lemma_one_value, lemma_quotient_near,
    lemma_sum_near, lemma_values_ordered, unit,
};
use crate::active::reachable;
use vstd::arithmetic::power2::*;
use vstd::prelude::*;

verus! {

// ---------------------------------------------------------------------------
// Names
// ---------------------------------------------------------------------------
/// A side is written by its plain name, and read from it alone.
pub proof fn law_sides_go_by_their_plain_names(edge: Edge, text: Seq<char>)
    ensures
        edge.side() == match edge {
            Edge::Left => "left"@,
            Edge::Right => "right"@,
            Edge::Top => "top"@,
            Edge::Bottom => "bottom"@,
        },
        Edge::named(text) == Some(edge) <==> text == match edge {
            Edge::Left => "left"@,
            Edge::Right => "right"@,
            Edge::Top => "top"@,
            Edge::Bottom => "bottom"@,
        },
        edge.label() == match edge {
            Edge::Left => "Left"@,
            Edge::Right => "Right"@,
            Edge::Top => "Top"@,
            Edge::Bottom => "Bottom"@,
        },
{
    reveal_strlit("left");
    reveal_strlit("right");
    reveal_strlit("top");
    reveal_strlit("bottom");
    assert("left"@.len() == 4 && "right"@.len() == 5 && "top"@.len() == 3 && "bottom"@.len() == 6);
}

// ---------------------------------------------------------------------------
// Touching
// ---------------------------------------------------------------------------
/// How far the near side of one screen stands off a side of another: nought
/// where they touch, less where they overlap.
pub open spec fn gap(local: Rect, remote: Rect, edge: Edge) -> int {
    match edge {
        Edge::Right => remote.x - (local.x + local.width),
        Edge::Left => local.x - (remote.x + remote.width),
        Edge::Bottom => remote.y - (local.y + local.height),
        Edge::Top => local.y - (remote.y + remote.height),
    }
}

/// Whether two screens stand side by side along a side for so many pixels from
/// one on.
pub open spec fn alongside(local: Rect, remote: Rect, edge: Edge, from: int, pixels: int) -> bool {
    &&& side_start(local, edge) <= from
    &&& side_start(remote, edge) <= from
    &&& from + pixels <= side_start(local, edge) + side_length(local, edge)
    &&& from + pixels <= side_start(remote, edge) + side_length(remote, edge)
}

/// Whether a screen stands at a side of another: 80 pixels off at most, and
/// beside it for more than 80.
pub open spec fn stands_at(local: Rect, remote: Rect, edge: Edge) -> bool {
    -80 <= gap(local, remote, edge) <= 80 && exists|from: int| #[trigger]
        alongside(local, remote, edge, from, 81)
}

/// The side at which another screen is said to touch is one at which it stands;
/// and it is said to touch wherever it stands at some side.
pub proof fn law_screens_touch_where_they_stand_side_by_side(local: Rect, remote: Rect, edge: Edge)
    ensures
        touching(local, remote) matches Some(found) ==> stands_at(local, remote, found),
        stands_at(local, remote, edge) ==> touching(local, remote) is Some,
{
    match touching(local, remote) {
        Some(found) => {
            let a = side_start(local, found);
            let b = side_start(remote, found);
            let from = if a > b {
                a
            } else {
                b
            };
            assert(alongside(local, remote, found, from, 81));
        },
        None => {
            if stands_at(local, remote, edge) {
                let from = choose|from: int| #[trigger] alongside(local, remote, edge, from, 81);
                assert(alongside(local, remote, edge, from, 81));
            }
        },
    }
}

/// Whether a pixel of the desk is one of a screen's.
pub open spec fn covers_pixel(screen: Rect, x: int, y: int) -> bool {
    screen.x <= x < screen.x + screen.width && screen.y <= y < screen.y + screen.height
}

/// Screens overlap when some pixel is on both.
pub proof fn law_overlapping_screens_share_a_pixel(a: Rect, b: Rect)
    requires
        a.has_area(),
        b.has_area(),
    ensures
        overlapping(a, b) <==> exists|x: int, y: int| #[trigger]
            covers_pixel(a, x, y) && covers_pixel(b, x, y),
{
    if overlapping(a, b) {
        let x = if a.x > b.x {
            a.x
        } else {
            b.x
        };
        let y = if a.y > b.y {
            a.y
        } else {
            b.y
        };
        assert(covers_pixel(a, x, y) && covers_pixel(b, x, y));
    }
}

// ---------------------------------------------------------------------------
// The shared stretch
// ---------------------------------------------------------------------------
/// Whether a fraction of a side of a screen is the place of a pixel line of the
/// desk.
pub open spec fn marks(screen: Rect, edge: Edge, fraction: Double, line: int) -> bool {
    let start = side_start(screen, edge);
    let length = side_length(screen, edge);
    &&& fraction.finite()
    &&& 0 <= fraction.value() <= unit()
    &&& line == start ==> fraction.value() == 0
    &&& line == start + length ==> fraction.value() == unit()
    &&& close(
        2 * fine() * (fraction.value() * length),
        2 * fine() * ((line - start) * unit()),
        unit(),
    )
}

/// Two screens share a stretch of a side exactly when some pixels of theirs
/// stand side by side. It runs from the first pixel line that both have to the
/// last, and each of the two spans marks these lines on its own screen.
pub proof fn law_shared_stretches_are_where_both_screens_are(local: Rect, remote: Rect, edge: Edge)
    requires
        reachable(local),
        reachable(remote),
        local.has_area(),
        remote.has_area(),
    ensures
        spans_by_geometry(local, remote, edge) is Some <==> exists|from: int| #[trigger]
            alongside(local, remote, edge, from, 1),
        spans_by_geometry(local, remote, edge) matches Some((here, there)) ==> {
            let a = side_start(local, edge);
            let b = side_start(remote, edge);
            let a_end = a + side_length(local, edge);
            let b_end = b + side_length(remote, edge);
            let from = if a > b {
                a
            } else {
                b
            };
            let to = if a_end < b_end {
                a_end
            } else {
                b_end
            };
            &&& marks(local, edge, here.start, from)
            &&& marks(local, edge, here.end, to)
            &&& marks(remote, edge, there.start, from)
            &&& marks(remote, edge, there.end, to)
        },
{
    let a = side_start(local, edge);
    let b = side_start(remote, edge);
    let a_length = side_length(local, edge);
    let b_length = side_length(remote, edge);
    let from = if a > b {
        a
    } else {
        b
    };
    let to = if a + a_length < b + b_length {
        a + a_length
    } else {
        b + b_length
    };
    assert(shared_stretch(local, remote, edge) == (from, to));
    if from < to {
        assert(alongside(local, remote, edge, from, 1));
        lemma_mark(from, a, a_length);
        lemma_mark(to, a, a_length);
        lemma_mark(from, b, b_length);
        lemma_mark(to, b, b_length);
    } else {
        assert forall|from: int| !(#[trigger] alongside(local, remote, edge, from, 1)) by {}
    }
}

proof fn lemma_mark(line: int, start: int, length: int)
    requires
        start <= line <= start + length,
        i32::MIN <= start <= i32::MAX,
        1 <= length <= i32::MAX,
    ensures
        ({
            let f = clamped(
                quotient(
                    whole(line - start),
                    whole(
                        if length > 1 {
                            length
                        } else {
                            1
                        },
                    ),
                ),
                zero(),
                one(),
            );
            &&& f.finite()
            &&& 0 <= f.value() <= unit()
            &&& line == start ==> f.value() == 0
            &&& line == start + length ==> f.value() == unit()
            &&& close(
                2 * fine() * (f.value() * length),
                2 * fine() * ((line - start) * unit()),
                unit(),
            )
        }),
{
    law_integers_add_exactly(line, start);
    lemma_whole_value(line);
    lemma_one_value();
    let u = unit();
    assert(start * u <= line * u <= (start + length) * u) by (nonlinear_arith)
        requires
            start <= line <= start + length,
            u > 0,
    ;
    assert((line - start) * u == line * u - start * u) by (nonlinear_arith);
    assert((start + length) * u == start * u + length * u) by (nonlinear_arith);
    lemma_within_is_on_a_desk(whole(line), start, length);
    lemma_fraction(whole(line), start, length);
}

// ---------------------------------------------------------------------------
// Drawn stretches
// ---------------------------------------------------------------------------
/// A stretch that is drawn forward on its side is taken as it is, and one that
/// is drawn backward is turned round.
pub proof fn law_drawn_stretches_are_kept(start: Double, end: Double)
    requires
        forward(EdgeSpan { start, end }),
    ensures
        ({
            let span = EdgeSpan::between(start, end);
            let turned = EdgeSpan::between(end, start);
            &&& span.start.value() == start.value()
            &&& span.end.value() == end.value()
            &&& turned.start.value() == start.value()
            &&& turned.end.value() == end.value()
        }),
{
    lemma_one_value();
    lemma_values_ordered(start, end);
    lemma_values_ordered(end, start);
    lemma_clamped(start, zero(), one());
    lemma_clamped(end, zero(), one());
}

proof fn lemma_slack()
    ensures
        span_slack().finite(),
        19 * unit() < 10000 * span_slack().value() < 21 * unit(),
{
    let s = span_slack();
    assert(s.magnitude() == 1014 * 0x10_0000_0000_0000 + 0x624d_d2f1_a9fc);
    assert(s.units() == 0x10_624d_d2f1_a9fc * pow2(1013));
    lemma_pow2_adds(61, 1013);
    lemma_pow2_pos(1013);
    lemma2_to64_rest();
    lemma2_to64();
    assert(pow2(61) == 0x2000_0000_0000_0000);
    let p = pow2(1013) as int;
    assert(unit() == 0x2000_0000_0000_0000 * p);
}

/// A fraction counts as inside a stretch where it lies between its ends, and
/// does not where it is more than a quarter of a hundredth off.
pub proof fn law_a_stretch_covers_what_lies_between_its_ends(span: EdgeSpan, fraction: Double)
    requires
        forward(span),
        fraction.finite(),
        0 <= fraction.value() <= unit(),
    ensures
        span.start.value() <= fraction.value() <= span.end.value() ==> span.covers(fraction),
        400 * fraction.value() < 400 * span.start.value() - unit() ==> !span.covers(fraction),
        400 * fraction.value() > 400 * span.end.value() + unit() ==> !span.covers(fraction),
{
    lemma_one_value();
    lemma_slack();
    lemma2_to64();
    let s = span_slack();
    let u = unit();
    let (a, b, f) = (span.start, span.end, fraction);
    assert(pow2(1) == 2);
    lemma_difference_near(a, s, 1);
    lemma_sum_near(b, s, 1);
    let low = difference(a, s);
    let high = sum(b, s);
    let k = digits53();
    assert(low.value() <= a.value() && 400 * low.value() >= 400 * a.value() - u)
        by (nonlinear_arith)
        requires
            close(k * low.value(), k * (a.value() - s.value()), 2 * u),
            19 * u < 10000 * s.value() < 21 * u,
            k == 0x20_0000_0000_0000,
            u > 0,
    ;
    assert(high.value() >= b.value() && 400 * high.value() <= 400 * b.value() + u)
        by (nonlinear_arith)
        requires
            close(k * high.value(), k * (b.value() + s.value()), 2 * u),
            19 * u < 10000 * s.value() < 21 * u,
            k == 0x20_0000_0000_0000,
            u > 0,
    ;
    lemma_values_ordered(low, f);
    lemma_values_ordered(f, high);
}

/// Inside a stretch the distance to it is nought; outside it is that to the
/// nearer end.
pub proof fn law_distances_are_to_the_nearer_end(span: EdgeSpan, fraction: Double)
    requires
        forward(span),
        fraction.finite(),
        0 <= fraction.value() <= unit(),
    ensures
        ({
            let d = span.distance_from(fraction);
            let off = if fraction.value() < span.start.value() {
                span.start.value() - fraction.value()
            } else if fraction.value() > span.end.value() {
                fraction.value() - span.end.value()
            } else {
                0
            };
            d.finite() && close(digits53() * d.value(), digits53() * off, unit())
        }),
{
    lemma_one_value();
    lemma2_to64();
    assert(pow2(0) == 1);
    assert(1 * unit() == unit());
    lemma_values_ordered(fraction, span.start);
    lemma_values_ordered(span.end, fraction);
    lemma_values_ordered(span.start, fraction);
    lemma_values_ordered(fraction, span.end);
    lemma_difference_near(span.start, fraction, 0);
    lemma_difference_near(fraction, span.end, 0);
}

// ---------------------------------------------------------------------------
// The middle
// ---------------------------------------------------------------------------
pub proof fn lemma_two()
    ensures
        two().finite(),
        two().value() == 2 * unit(),
{
    lemma_one_value();
    lemma_pow2_unfold(1023);
    lemma_pow2_pos(1022);
    let (t, o) = (two(), one());
    assert(t.magnitude() == 1024 * 0x10_0000_0000_0000);
    assert(o.magnitude() == 1023 * 0x10_0000_0000_0000);
    assert(t.units() == 0x10_0000_0000_0000 * pow2(1023));
    assert(o.units() == 0x10_0000_0000_0000 * pow2(1022));
    assert(pow2(1023) == 2 * pow2(1022));
    assert(t.units() == 2 * o.units());
    assert(o.value() == o.units() && t.value() == t.units());
}

/// Half a length, as a number of pixels that a screen has.
pub proof fn lemma_half_of(length: int)
    requires
        2 <= length <= i32::MAX,
    ensures
        ({
            let m = clamped(quotient(whole(length), two()), zero(), whole(length - 1));
            &&& m.finite()
            &&& 0 <= m.value() <= (length - 1) * unit()
            &&& close(4 * fine() * m.value(), 2 * fine() * (length * unit()), unit())
        }),
{
    lemma_one_value();
    lemma_two();
    lemma2_to64();
    lemma2_to64_rest();
    lemma_whole_value(length);
    lemma_whole_value(length - 1);
    let u = unit();
    let l = whole(length);
    let q = quotient(l, two());
    assert(close((length * u) * u, 0, (2 * u) * (0x4000_0000 * u))) by (nonlinear_arith)
        requires
            2 <= length <= 0x7fff_ffff,
            u > 0,
    ;
    assert(pow2(30) == 0x4000_0000);
    lemma_quotient_near(l, two(), 30);
    let qv = q.value();
    let k = digits53();
    assert(close(4 * fine() * qv, 2 * fine() * (length * u), u)) by (nonlinear_arith)
        requires
            close(k * (qv * (2 * u)), k * ((length * u) * u), (2 * u) * (0x4000_0000 * u)),
            k == 0x20_0000_0000_0000,
            fine() == 0x10_0000,
            u > 0,
    ;
    let kept = clamped(q, zero(), whole(length - 1));
    assert(0 <= (length - 1) * u && length * u == (length - 1) * u + u && length * u >= 2 * u)
        by (nonlinear_arith)
        requires
            2 <= length <= 0x7fff_ffff,
            u > 0,
    ;
    lemma_clamped(q, zero(), whole(length - 1));
    let kv = kept.value();
    assert(close(4 * fine() * kv, 2 * fine() * (length * u), u)) by (nonlinear_arith)
        requires
            close(4 * fine() * qv, 2 * fine() * (length * u), u),
            kv == (if qv < 0 {
                0
            } else if qv > (length - 1) * u {
                (length - 1) * u
            } else {
                qv
            }),
            length * u == (length - 1) * u + u,
            length * u >= 2 * u,
            fine() == 0x10_0000,
            u > 0,
    ;
}

proof fn lemma_middle(start: int, length: int)
    requires
        i32::MIN <= start <= i32::MAX,
        2 <= length <= i32::MAX,
    ensures
        ({
            let m = sum(
                whole(start),
                clamped(quotient(whole(length), two()), zero(), whole(length - 1)),
            );
            &&& m.finite()
            &&& close(2 * fine() * (m.value() - start * unit()), fine() * (length * unit()), 2 * unit())
        }),
{
    lemma_one_value();
    lemma2_to64();
    lemma2_to64_rest();
    lemma_half_of(length);
    lemma_whole_value(start);
    let u = unit();
    let kept = clamped(quotient(whole(length), two()), zero(), whole(length - 1));
    let kv = kept.value();
    let k = digits53();
    assert(close(start * u + kv, 0, 0x1_0000_0000 * u)) by (nonlinear_arith)
        requires
            -0x8000_0000 <= start <= 0x7fff_ffff,
            0 <= kv <= (length - 1) * u,
            2 <= length <= 0x7fff_ffff,
            u > 0,
    ;
    lemma_sum_near(whole(start), kept, 32);
    let m = sum(whole(start), kept);
    assert(close(2 * fine() * (m.value() - start * u), fine() * (length * u), 2 * u))
        by (nonlinear_arith)
        requires
            close(k * m.value(), k * (start * u + kv), 0x1_0000_0000 * u),
            close(4 * fine() * kv, 2 * fine() * (length * u), u),
            k == 0x20_0000_0000_0000,
            fine() == 0x10_0000,
            u > 0,
    ;
}

/// Whether a point is half a screen's width and half its height from its corner.
pub open spec fn half_way(screen: Rect, m: Point) -> bool {
    let u = unit();
    &&& m.x.finite()
    &&& m.y.finite()
    &&& close(2 * fine() * (m.x.value() - screen.x * u), fine() * (screen.width * u), 2 * u)
    &&& close(2 * fine() * (m.y.value() - screen.y * u), fine() * (screen.height * u), 2 * u)
}

/// The middle of a screen is half its width and half its height from its corner.
pub proof fn law_the_middle_is_half_way(screen: Rect)
    requires
        reachable(screen),
        screen.width >= 2,
        screen.height >= 2,
    ensures
        half_way(screen, middle_of(screen)),
{
    lemma_middle(screen.x, screen.width);
    lemma_middle(screen.y, screen.height);
}

} // verus!
