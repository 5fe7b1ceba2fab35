//! Sides of screens, the stretches of them that links occupy, and where
//! screens meet.

use crate::double::{
    clamped, difference, lemma_whole_ordered, lemma_whole_zero, one, product, quotient, sum, whole,
    zero, Double,
};
use crate::layout::{EdgeAnchor, Rect, Screen};
use crate::text::same;
use vstd::prelude::*;

verus! {

/// How far apart two sides may stand, in pixels, and still count as touching.
pub const EDGE_TOLERANCE: i32 = 80;

/// A side of a screen.
#[derive(Debug, Clone, Copy, PartialEq, Eq, Structural)]
pub enum Edge {
    Left,
    Right,
    Top,
    Bottom,
}

impl Edge {
    /// The side that a name stands for.
    pub open spec fn named(side: Seq<char>) -> Option<Edge> {
        if side == "left"@ {
            Some(Edge::Left)
        } else if side == "right"@ {
            Some(Edge::Right)
        } else if side == "top"@ {
            Some(Edge::Top)
        } else if side == "bottom"@ {
            Some(Edge::Bottom)
        } else {
            None
        }
    }

    /// The name of a side in a layout.
    pub open spec fn side(self) -> Seq<char> {
        match self {
            Edge::Left => "left"@,
            Edge::Right => "right"@,
            Edge::Top => "top"@,
            Edge::Bottom => "bottom"@,
        }
    }

    /// The name of a side in a message.
    pub open spec fn label(self) -> Seq<char> {
        match self {
            Edge::Left => "Left"@,
            Edge::Right => "Right"@,
            Edge::Top => "Top"@,
            Edge::Bottom => "Bottom"@,
        }
    }

    pub open spec fn facing(self) -> Edge {
        match self {
            Edge::Left => Edge::Right,
            Edge::Right => Edge::Left,
            Edge::Top => Edge::Bottom,
            Edge::Bottom => Edge::Top,
        }
    }

    pub open spec fn horizontal(self) -> bool {
        self == Edge::Top || self == Edge::Bottom
    }

    pub fn from_side(side: &str) -> (r: Option<Edge>)
        ensures
            r == Edge::named(side@),
    {
        if same(side, "left") {
            Some(Edge::Left)
        } else if same(side, "right") {
            Some(Edge::Right)
        } else if same(side, "top") {
            Some(Edge::Top)
        } else if same(side, "bottom") {
            Some(Edge::Bottom)
        } else {
            None
        }
    }

    pub fn as_side(self) -> (r: &'static str)
        ensures
            r@ == self.side(),
    {
        match self {
            Edge::Left => "left",
            Edge::Right => "right",
            Edge::Top => "top",
            Edge::Bottom => "bottom",
        }
    }

    pub fn as_label(self) -> (r: &'static str)
        ensures
            r@ == self.label(),
    {
        match self {
            Edge::Left => "Left",
            Edge::Right => "Right",
            Edge::Top => "Top",
            Edge::Bottom => "Bottom",
        }
    }

    pub fn opposite(self) -> (r: Edge)
        ensures
            r == self.facing(),
    {
        match self {
            Edge::Left => Edge::Right,
            Edge::Right => Edge::Left,
            Edge::Top => Edge::Bottom,
            Edge::Bottom => Edge::Top,
        }
    }

    /// Horizontal sides run along x, vertical sides along y.
    pub fn runs_horizontally(self) -> (r: bool)
        ensures
            r == self.horizontal(),
    {
        match self {
            Edge::Top => true,
            Edge::Bottom => true,
            _ => false,
        }
    }
}

/// The side facing the facing side is the side itself, and both run alike.
pub proof fn law_opposite_is_an_involution(edge: Edge)
    ensures
        edge.facing().facing() == edge,
        edge.facing() != edge,
        edge.facing().horizontal() == edge.horizontal(),
{
}

/// A side is read back from the name it is written under.
pub proof fn law_side_names_read_back(edge: Edge)
    ensures
        Edge::named(edge.side()) == Some(edge),
{
    reveal_strlit("left");
    reveal_strlit("right");
    reveal_strlit("top");
    reveal_strlit("bottom");
    assert("left"@.len() == 4 && "right"@.len() == 5 && "top"@.len() == 3 && "bottom"@.len() == 6);
}

/// A position on a screen or a desktop.
#[derive(Debug, Clone, Copy, PartialEq, Eq, Structural)]
pub struct Point {
    pub x: Double,
    pub y: Double,
}

/// The stretch of a screen side that a link occupies, as fractions of that
/// side.
#[derive(Debug, Clone, Copy, PartialEq, Eq, Structural)]
pub struct EdgeSpan {
    pub start: Double,
    pub end: Double,
}

/// How far outside a span a position still counts as inside: spans are drawn
/// by hand, and a position right on a boundary belongs to one.
pub open spec fn span_slack() -> Double {
    Double { bits: 0x3f60_624d_d2f1_a9fc }
}

/// The distance from one to the next larger number.
pub open spec fn epsilon() -> Double {
    Double { bits: 0x3cb0_0000_0000_0000 }
}

impl EdgeSpan {
    /// The ends of a drawn stretch in order, kept on the side.
    pub open spec fn between(start: Double, end: Double) -> EdgeSpan {
        let (low, high) = if start.at_most(end) {
            (start, end)
        } else {
            (end, start)
        };
        EdgeSpan { start: clamped(low, zero(), one()), end: clamped(high, zero(), one()) }
    }

    pub open spec fn covers(self, fraction: Double) -> bool {
        &&& difference(self.start, span_slack()).at_most(fraction)
        &&& fraction.at_most(sum(self.end, span_slack()))
    }

    pub open spec fn inside(self, fraction: Double) -> Double {
        let width = difference(self.end, self.start);
        if width.at_most(epsilon()) {
            crate::double::half()
        } else {
            clamped(quotient(difference(fraction, self.start), width), zero(), one())
        }
    }

    pub open spec fn along(self, position: Double) -> Double {
        sum(
            self.start,
            product(clamped(position, zero(), one()), difference(self.end, self.start)),
        )
    }

    /// How far outside the span a fraction lies; zero inside it.
    pub open spec fn distance_from(self, fraction: Double) -> Double {
        if fraction.below(self.start) {
            difference(self.start, fraction)
        } else if self.end.below(fraction) {
            difference(fraction, self.end)
        } else {
            zero()
        }
    }

    pub fn whole() -> (r: EdgeSpan)
        ensures
            r == (EdgeSpan { start: zero(), end: one() }),
    {
        EdgeSpan { start: Double::zero(), end: Double::one() }
    }

    pub fn from_anchor(anchor: &EdgeAnchor) -> (r: EdgeSpan)
        ensures
            r == EdgeSpan::between(anchor.start, anchor.end),
    {
        let (low, high) = if anchor.start.less_or_equal(anchor.end) {
            (anchor.start, anchor.end)
        } else {
            (anchor.end, anchor.start)
        };
        EdgeSpan {
            start: low.clamp(Double::zero(), Double::one()),
            end: high.clamp(Double::zero(), Double::one()),
        }
    }

    pub fn contains(&self, fraction: Double) -> (r: bool)
        ensures
            r == self.covers(fraction),
    {
        let slack = Double { bits: 0x3f60_624d_d2f1_a9fc };
        self.start.minus(slack).less_or_equal(fraction) && fraction.less_or_equal(
            self.end.plus(slack),
        )
    }

    /// Where a fraction of the whole side sits inside this span, from 0 to 1.
    pub fn position_of(&self, fraction: Double) -> (r: Double)
        ensures
            r == self.inside(fraction),
    {
        let width = self.end.minus(self.start);
        if width.less_or_equal(Double { bits: 0x3cb0_0000_0000_0000 }) {
            return Double::half();
        }
        fraction.minus(self.start).over(width).clamp(Double::zero(), Double::one())
    }

    /// A position inside this span, from 0 to 1, as a fraction of the side.
    pub fn fraction_at(&self, position: Double) -> (r: Double)
        ensures
            r == self.along(position),
    {
        let kept = position.clamp(Double::zero(), Double::one());
        self.start.plus(kept.times(self.end.minus(self.start)))
    }

    pub fn distance(&self, fraction: Double) -> (r: Double)
        ensures
            r == self.distance_from(fraction),
    {
        if fraction.less(self.start) {
            self.start.minus(fraction)
        } else if self.end.less(fraction) {
            fraction.minus(self.end)
        } else {
            Double::zero()
        }
    }
}

/// A span drawn between two numbers runs forward and stays on its side.
pub proof fn law_spans_are_ordered_and_on_the_side(start: Double, end: Double)
    requires
        !start.not_a_number(),
        !end.not_a_number(),
    ensures
        ({
            let span = EdgeSpan::between(start, end);
            span.start.in_unit() && span.end.in_unit() && span.start.at_most(span.end)
        }),
        EdgeSpan::between(start, end).start.rank() == EdgeSpan::between(end, start).start.rank(),
        EdgeSpan::between(start, end).end.rank() == EdgeSpan::between(end, start).end.rank(),
{
}

// ---------------------------------------------------------------------------
// Where screens meet
// ---------------------------------------------------------------------------
pub open spec fn stand_near(a: int, b: int) -> bool {
    -EDGE_TOLERANCE <= a - b <= EDGE_TOLERANCE
}

/// The length that two ranges have in common.
pub open spec fn overlap(a_start: int, a_end: int, b_start: int, b_end: int) -> int {
    (if a_end < b_end {
        a_end
    } else {
        b_end
    }) - (if a_start > b_start {
        a_start
    } else {
        b_start
    })
}

pub open spec fn rows_shared(a: Rect, b: Rect) -> bool {
    overlap(a.y, a.bottom(), b.y, b.bottom()) > EDGE_TOLERANCE
}

pub open spec fn columns_shared(a: Rect, b: Rect) -> bool {
    overlap(a.x, a.right(), b.x, b.right()) > EDGE_TOLERANCE
}

/// The side of `local` that `remote` touches: near it, and alongside it for
/// more than the tolerance.
pub open spec fn touching(local: Rect, remote: Rect) -> Option<Edge> {
    if stand_near(local.right(), remote.x) && rows_shared(local, remote) {
        Some(Edge::Right)
    } else if stand_near(local.x, remote.right()) && rows_shared(local, remote) {
        Some(Edge::Left)
    } else if stand_near(local.bottom(), remote.y) && columns_shared(local, remote) {
        Some(Edge::Bottom)
    } else if stand_near(local.y, remote.bottom()) && columns_shared(local, remote) {
        Some(Edge::Top)
    } else {
        None
    }
}

/// Whether two screens have a pixel in common.
pub open spec fn overlapping(a: Rect, b: Rect) -> bool {
    a.x < b.right() && a.right() > b.x && a.y < b.bottom() && a.bottom() > b.y
}

fn near(a: i64, b: i64) -> (r: bool)
    requires
        -0x1_0000_0000 <= a <= 0x1_0000_0000,
        -0x1_0000_0000 <= b <= 0x1_0000_0000,
    ensures
        r == stand_near(a as int, b as int),
{
    let apart: i64 = a - b;
    -(EDGE_TOLERANCE as i64) <= apart && apart <= EDGE_TOLERANCE as i64
}

fn ranges_overlap(a_start: i64, a_end: i64, b_start: i64, b_end: i64) -> (r: bool)
    requires
        -0x1_0000_0000 <= a_start <= 0x1_0000_0000,
        -0x1_0000_0000 <= a_end <= 0x1_0000_0000,
        -0x1_0000_0000 <= b_start <= 0x1_0000_0000,
        -0x1_0000_0000 <= b_end <= 0x1_0000_0000,
    ensures
        r == (overlap(a_start as int, a_end as int, b_start as int, b_end as int)
            > EDGE_TOLERANCE),
{
    let end: i64 = if a_end < b_end {
        a_end
    } else {
        b_end
    };
    let start: i64 = if a_start > b_start {
        a_start
    } else {
        b_start
    };
    end - start > EDGE_TOLERANCE as i64
}

pub fn touching_edge(local: &Screen, remote: &Screen) -> (r: Option<Edge>)
    ensures
        r == touching(local.rect(), remote.rect()),
{
    let rows: bool = ranges_overlap(
        local.y as i64,
        local.bottom_edge(),
        remote.y as i64,
        remote.bottom_edge(),
    );
    let columns: bool = ranges_overlap(
        local.x as i64,
        local.right_edge(),
        remote.x as i64,
        remote.right_edge(),
    );
    if near(local.right_edge(), remote.x as i64) && rows {
        return Some(Edge::Right);
    }
    if near(local.x as i64, remote.right_edge()) && rows {
        return Some(Edge::Left);
    }
    if near(local.bottom_edge(), remote.y as i64) && columns {
        return Some(Edge::Bottom);
    }
    if near(local.y as i64, remote.bottom_edge()) && columns {
        return Some(Edge::Top);
    }
    None
}

pub fn screens_overlap(local: &Screen, remote: &Screen) -> (r: bool)
    ensures
        r == overlapping(local.rect(), remote.rect()),
{
    (local.x as i64) < remote.right_edge() && local.right_edge() > remote.x as i64 && (
    local.y as i64) < remote.bottom_edge() && local.bottom_edge() > remote.y as i64
}

/// Overlap does not depend on which screen is asked first.
pub proof fn law_overlap_is_symmetric(a: Rect, b: Rect)
    ensures
        overlapping(a, b) == overlapping(b, a),
{
}

/// Seen from the other screen, two screens meet on the facing side, unless
/// both together are so narrow or so low that either side is near.
pub proof fn law_touching_is_symmetric(a: Rect, b: Rect)
    requires
        a.width + b.width > 2 * EDGE_TOLERANCE,
        a.height + b.height > 2 * EDGE_TOLERANCE,
    ensures
        match touching(a, b) {
            Some(edge) => touching(b, a) == Some(edge.facing()),
            None => touching(b, a) is None,
        },
{
}

/// The ends of the stretch that two screens share along a side, in pixels.
pub open spec fn shared_stretch(local: Rect, remote: Rect, edge: Edge) -> (int, int) {
    let (a, a_end, b, b_end) = if edge.horizontal() {
        (local.x, local.right(), remote.x, remote.right())
    } else {
        (local.y, local.bottom(), remote.y, remote.bottom())
    };
    (
        if a > b {
            a
        } else {
            b
        },
        if a_end < b_end {
            a_end
        } else {
            b_end
        },
    )
}

/// The stretch from `from` to `to` as fractions of a side that starts at
/// `start` and is `extent` long.
pub open spec fn fractions(from: int, to: int, start: int, extent: int) -> EdgeSpan {
    let length = whole(if extent > 1 {
        extent
    } else {
        1
    });
    EdgeSpan {
        start: clamped(quotient(whole(from - start), length), zero(), one()),
        end: clamped(quotient(whole(to - start), length), zero(), one()),
    }
}

/// The stretch that two screens share along a side, as fractions of each
/// screen's own side.
pub open spec fn spans_by_geometry(
    local: Rect,
    remote: Rect,
    edge: Edge,
) -> Option<(EdgeSpan, EdgeSpan)> {
    let (from, to) = shared_stretch(local, remote, edge);
    if to <= from {
        None
    } else if edge.horizontal() {
        Some(
            (
                fractions(from, to, local.x, local.width),
                fractions(from, to, remote.x, remote.width),
            ),
        )
    } else {
        Some(
            (
                fractions(from, to, local.y, local.height),
                fractions(from, to, remote.y, remote.height),
            ),
        )
    }
}

fn fractions_of(from: i64, to: i64, start: i64, extent: i64) -> (r: EdgeSpan)
    requires
        -0x1_0000_0000 <= from <= 0x1_0000_0000,
        -0x1_0000_0000 <= to <= 0x1_0000_0000,
        -0x1_0000_0000 <= start <= 0x1_0000_0000,
    ensures
        r == fractions(from as int, to as int, start as int, extent as int),
{
    let length = Double::from_int(if extent > 1 {
        extent
    } else {
        1
    });
    EdgeSpan {
        start: Double::from_int(from - start).over(length).clamp(Double::zero(), Double::one()),
        end: Double::from_int(to - start).over(length).clamp(Double::zero(), Double::one()),
    }
}

pub fn geometric_spans(local: &Screen, remote: &Screen, edge: Edge) -> (r: Option<
    (EdgeSpan, EdgeSpan),
>)
    ensures
        r == spans_by_geometry(local.rect(), remote.rect(), edge),
{
    let (local_start, local_extent, remote_start, remote_extent): (i64, i64, i64, i64) =
        if edge.runs_horizontally() {
        (local.x as i64, local.width as i64, remote.x as i64, remote.width as i64)
    } else {
        (local.y as i64, local.height as i64, remote.y as i64, remote.height as i64)
    };
    let from: i64 = if local_start > remote_start {
        local_start
    } else {
        remote_start
    };
    let local_end: i64 = local_start + local_extent;
    let remote_end: i64 = remote_start + remote_extent;
    let to: i64 = if local_end < remote_end {
        local_end
    } else {
        remote_end
    };
    if to <= from {
        return None;
    }
    Some(
        (
            fractions_of(from, to, local_start, local_extent),
            fractions_of(from, to, remote_start, remote_extent),
        ),
    )
}

// ---------------------------------------------------------------------------
// Positions along and near a side
// ---------------------------------------------------------------------------
pub open spec fn at_least_one(length: int) -> int {
    if length > 1 {
        length
    } else {
        1
    }
}

pub fn length_or_one(length: i32) -> (r: i64)
    ensures
        r == at_least_one(length as int),
{
    if length > 1 {
        length as i64
    } else {
        1
    }
}

/// Where along a side a point sits, as a fraction of that side.
pub open spec fn fraction_along(screen: Rect, edge: Edge, p: Point) -> Double {
    if edge.horizontal() {
        clamped(
            quotient(difference(p.x, whole(screen.x)), whole(at_least_one(screen.width))),
            zero(),
            one(),
        )
    } else {
        clamped(
            quotient(difference(p.y, whole(screen.y)), whole(at_least_one(screen.height))),
            zero(),
            one(),
        )
    }
}

pub fn side_fraction(screen: &Screen, edge: Edge, p: Point) -> (r: Double)
    ensures
        r == fraction_along(screen.rect(), edge, p),
{
    let (value, start, extent) = if edge.runs_horizontally() {
        (p.x, screen.x, screen.width)
    } else {
        (p.y, screen.y, screen.height)
    };
    value.minus(Double::from_int(start as i64)).over(
        Double::from_int(length_or_one(extent)),
    ).clamp(Double::zero(), Double::one())
}

pub open spec fn last_column(screen: Rect) -> int {
    if screen.width > 1 {
        screen.width - 1
    } else {
        0
    }
}

pub open spec fn last_row(screen: Rect) -> int {
    if screen.height > 1 {
        screen.height - 1
    } else {
        0
    }
}

impl Screen {
    pub fn last_x(&self) -> (r: i64)
        ensures
            r == last_column(self.rect()),
    {
        if self.width > 1 {
            self.width as i64 - 1
        } else {
            0
        }
    }

    pub fn last_y(&self) -> (r: i64)
        ensures
            r == last_row(self.rect()),
    {
        if self.height > 1 {
            self.height as i64 - 1
        } else {
            0
        }
    }
}

/// The point on a screen's side at a fraction of it, relative to the screen's
/// own origin: one pixel inside the side, and `push` pixels further in.
pub open spec fn entry_point(screen: Rect, edge: Edge, fraction: Double, push: Double) -> Point {
    let max_x = whole(last_column(screen));
    let max_y = whole(last_row(screen));
    let along = clamped(fraction, zero(), one());
    let inward = sum(one(), crate::double::absolute(push));
    match edge {
        Edge::Top => Point {
            x: product(along, max_x),
            y: crate::double::smaller(inward, max_y),
        },
        Edge::Bottom => Point {
            x: product(along, max_x),
            y: crate::double::larger(difference(max_y, inward), zero()),
        },
        Edge::Left => Point {
            x: crate::double::smaller(inward, max_x),
            y: product(along, max_y),
        },
        Edge::Right => Point {
            x: crate::double::larger(difference(max_x, inward), zero()),
            y: product(along, max_y),
        },
    }
}

/// A fast flick at the edge is one large movement; dropping it would leave the
/// pointer stuck at the border for a moment, so `push` carries it along.
pub fn edge_entry_point_pushed(
    screen: &Screen,
    edge: Edge,
    fraction: Double,
    push: Double,
) -> (r: Point)
    ensures
        r == entry_point(screen.rect(), edge, fraction, push),
{
    let max_x = Double::from_int(screen.last_x());
    let max_y = Double::from_int(screen.last_y());
    let along = fraction.clamp(Double::zero(), Double::one());
    let inward = Double::one().plus(push.abs());
    match edge {
        Edge::Top => Point { x: along.times(max_x), y: inward.min(max_y) },
        Edge::Bottom => Point {
            x: along.times(max_x),
            y: max_y.minus(inward).max(Double::zero()),
        },
        Edge::Left => Point { x: inward.min(max_x), y: along.times(max_y) },
        Edge::Right => Point {
            x: max_x.minus(inward).max(Double::zero()),
            y: along.times(max_y),
        },
    }
}

/// The point one pixel inside a side. One pixel rather than none, so that the
/// cursor lands on the screen: a coordinate exactly on the boundary can round
/// onto the neighbouring monitor.
pub fn edge_entry_point(screen: &Screen, edge: Edge, fraction: Double) -> (r: Point)
    ensures
        r == entry_point(screen.rect(), edge, fraction, zero()),
{
    edge_entry_point_pushed(screen, edge, fraction, Double::zero())
}

/// Whether a point relative to the screen's origin lies on the screen.
pub open spec fn on_screen(screen: Rect, p: Point) -> bool {
    &&& zero().at_most(p.x)
    &&& p.x.at_most(whole(screen.width - 1))
    &&& zero().at_most(p.y)
    &&& p.y.at_most(whole(screen.height - 1))
}

pub fn point_in_local_bounds(screen: &Screen, p: Point) -> (r: bool)
    ensures
        r == on_screen(screen.rect(), p),
{
    Double::zero().less_or_equal(p.x) && p.x.less_or_equal(
        Double::from_int(screen.width as i64 - 1),
    ) && Double::zero().less_or_equal(p.y) && p.y.less_or_equal(
        Double::from_int(screen.height as i64 - 1),
    )
}

/// Whether a point of the shared layout space falls on a screen.
pub open spec fn falls_on(screen: Rect, p: Point) -> bool {
    &&& whole(screen.x).at_most(p.x)
    &&& p.x.at_most(whole(screen.right() - 1))
    &&& whole(screen.y).at_most(p.y)
    &&& p.y.at_most(whole(screen.bottom() - 1))
}

pub fn point_in_screen(screen: &Screen, p: Point) -> (r: bool)
    ensures
        r == falls_on(screen.rect(), p),
{
    Double::from_int(screen.x as i64).less_or_equal(p.x) && p.x.less_or_equal(
        Double::from_int(screen.right_edge() - 1),
    ) && Double::from_int(screen.y as i64).less_or_equal(p.y) && p.y.less_or_equal(
        Double::from_int(screen.bottom_edge() - 1),
    )
}

/// The middle of a screen, kept on it.
pub open spec fn middle_of(screen: Rect) -> Point {
    Point {
        x: sum(
            whole(screen.x),
            clamped(quotient(whole(screen.width), two()), zero(), whole(last_column(screen))),
        ),
        y: sum(
            whole(screen.y),
            clamped(quotient(whole(screen.height), two()), zero(), whole(last_row(screen))),
        ),
    }
}

pub open spec fn two() -> Double {
    Double { bits: 0x4000_0000_0000_0000 }
}

pub fn screen_center_point(screen: &Screen) -> (r: Point)
    ensures
        r == middle_of(screen.rect()),
{
    proof {
        lemma_whole_zero();
        lemma_whole_ordered(0, last_column(screen.rect()));
        lemma_whole_ordered(0, last_row(screen.rect()));
    }
    let halved = Double { bits: 0x4000_0000_0000_0000 };
    Point {
        x: Double::from_int(screen.x as i64).plus(
            Double::from_int(screen.width as i64).over(halved).clamp(
                Double::zero(),
                Double::from_int(screen.last_x()),
            ),
        ),
        y: Double::from_int(screen.y as i64).plus(
            Double::from_int(screen.height as i64).over(halved).clamp(
                Double::zero(),
                Double::from_int(screen.last_y()),
            ),
        ),
    }
}

} // verus!
