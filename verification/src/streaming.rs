//! What captured input on Linux comes to, event by event.

use crate::active::{held_on_screen, move_event, reachable, shifted, ActiveView};
use crate::barriers::law_the_way_out_is_the_side_that_was_passed;
use crate::double::{
    law_integers_add_exactly, lemma_whole_value, lemma_whole_zero, product, quotient, rounded,
    whole, zero, Double,
};
use crate::edge::{Edge, Point};
use crate::keyboard::{
    button_place, key_of_event_code, law_linux_buttons_are_numbered_in_order,
    law_linux_keys_are_sent_as_themselves, virtual_key, Key,
};
use crate::landing::{side_length, side_start};
use crate::layout::{LayoutState, Rect};
use crate::linux_capture::{borders, segment, LinuxView};
use crate::linux_input::{
    pixels_per_notch, smooth_notches, smooth_rest, translated, CaptureEvent, Reaction, ScrollState,
    StreamEvent,
};
use crate::meeting::alongside;
use crate::order::{
    lemma_exact_product, lemma_exact_quotient, lemma_one_value, lemma_values_ordered, unit,
};
use crate::roaming::{
    at, beyond, law_a_held_cursor_goes_to_the_nearest_pixel, law_the_peer_is_told_the_pixel,
    lemma_rounded, pixel_of,
};
use crate::rounding::{bit_length, lemma_bit_length, lemma_rounding_scales, rounded_half_even};
use crate::shared_input::{EventView, MouseButton};
use crate::single::{last_place, lemma_length_shifted, single, truncated};
use crate::targets::TargetView;
use vstd::arithmetic::power2::*;
use vstd::prelude::*;

verus! {

// ---------------------------------------------------------------------------
// What the compositor streams
// ---------------------------------------------------------------------------
/// A key of the stream is that key, pressed or released as it was; a code of no
/// key is nothing.
pub proof fn law_streamed_keys_are_captured(
    code: u32,
    press: bool,
    last: Option<Point>,
    scroll: ScrollState,
)
    ensures
        ({
            let (after, rest, event) = translated(
                StreamEvent::KeyboardKey { code, press },
                last,
                scroll,
            );
            &&& after == last
            &&& rest == scroll
            &&& match key_of_event_code(code as int) {
                Some(key) => event == Some(
                    CaptureEvent::Key { vk: virtual_key(key) as u16, down: press },
                ),
                None => event is None,
            }
        }),
{
    law_linux_keys_are_sent_as_themselves(code);
}

/// A button of the stream is that button, pressed or released as it was.
pub proof fn law_streamed_buttons_are_captured(
    button: MouseButton,
    press: bool,
    last: Option<Point>,
    scroll: ScrollState,
)
    ensures
        ({
            let code = (0x110 + button_place(button)) as u32;
            let (after, rest, event) = translated(StreamEvent::Button { code, press }, last, scroll);
            &&& after == last
            &&& rest == scroll
            &&& event matches Some(CaptureEvent::Button { button: read, down }) && read.button()
                == button && down == press
        }),
{
    law_linux_buttons_are_numbered_in_order(button);
}

/// A relative movement of the stream is that movement, on both axes; of absolute
/// positions it is the way from the last one, and the first is none.
pub proof fn law_streamed_movements_are_captured(
    dx: Double,
    dy: Double,
    x: int,
    y: int,
    from: Option<(int, int)>,
    scroll: ScrollState,
)
    requires
        i32::MIN <= x <= i32::MAX,
        i32::MIN <= y <= i32::MAX,
        from matches Some(p) ==> i32::MIN <= p.0 <= i32::MAX && i32::MIN <= p.1 <= i32::MAX,
    ensures
        ({
            let last = match from {
                Some(p) => Some(at(p.0, p.1)),
                None => None,
            };
            let relative = translated(StreamEvent::PointerMotion { dx, dy }, last, scroll);
            let absolute = translated(
                StreamEvent::PointerMotionAbsolute { x: whole(x), y: whole(y) },
                last,
                scroll,
            );
            &&& relative == (last, scroll, Some(CaptureEvent::Motion { dx, dy }))
            &&& absolute.0 == Some(at(x, y))
            &&& absolute.1 == scroll
            &&& match from {
                Some(p) => absolute.2 == Some(
                    CaptureEvent::Motion { dx: whole(x - p.0), dy: whole(y - p.1) },
                ),
                None => absolute.2 is None,
            }
        }),
{
    match from {
        Some(p) => {
            law_integers_add_exactly(x, p.0);
            law_integers_add_exactly(y, p.1);
        },
        None => {},
    }
}

/// Fractions of a notch add up, axis by axis, to notches and a rest of less than
/// one: to the right as they are, and up as less, for the stream counts downward.
pub proof fn law_streamed_steps_add_up(
    time: u64,
    steps_x: i32,
    steps_y: i32,
    last: Option<Point>,
    scroll: ScrollState,
)
    requires
        -120 < scroll.residue_v120_x < 120,
        -120 < scroll.residue_v120_y < 120,
    ensures
        ({
            let (after, rest, event) = translated(
                StreamEvent::ScrollDiscrete { time, steps_x, steps_y },
                last,
                scroll,
            );
            let (right, up) = match event {
                Some(CaptureEvent::Scroll { delta_x, delta_y }) => (delta_x as int, delta_y as int),
                _ => (0, 0),
            };
            &&& after == last
            &&& event is None || event->0 is Scroll
            &&& scroll.residue_v120_x + steps_x == 120 * right + rest.residue_v120_x
            &&& scroll.residue_v120_y + steps_y == rest.residue_v120_y - 120 * up
            &&& -120 < rest.residue_v120_x < 120
            &&& -120 < rest.residue_v120_y < 120
        }),
{
}

/// When the stream ends or its device pauses, so does the capture.
pub proof fn law_a_paused_stream_ends_the_capture(last: Option<Point>, scroll: ScrollState)
    ensures
        translated(StreamEvent::DevicePaused, last, scroll).2 == Some(CaptureEvent::Deactivated),
        translated(StreamEvent::Disconnected, last, scroll).2 == Some(CaptureEvent::Deactivated),
        translated(StreamEvent::SeatAdded, last, scroll) == (last, scroll, None::<CaptureEvent>),
        translated(StreamEvent::Other, last, scroll) == (last, scroll, None::<CaptureEvent>),
{
}

// ---------------------------------------------------------------------------
// Smooth scrolling
// ---------------------------------------------------------------------------
proof fn lemma_single_of_whole(m: int)
    requires
        -0x100_0000 < m < 0x100_0000,
    ensures
        single(whole(m)) == whole(m),
{
    lemma_whole_value(m);
    lemma_pow2_pos(1074);
    let p = pow2(1074);
    let n = (if m < 0 {
        -m
    } else {
        m
    }) as nat;
    let d = whole(m);
    assert(d.units() == n * p) by (nonlinear_arith)
        requires
            d.value() == m * p,
            d.value() == (if m < 0 {
                -(d.units() as int)
            } else {
                d.units() as int
            }),
            n == (if m < 0 {
                -m
            } else {
                m
            }),
            p > 0,
    ;
    lemma_pow2_pos(1202);
    if n == 0 {
        lemma_whole_zero();
        assert(d == zero());
        assert(bit_length(0) == 0);
        lemma_pow2_pos(925);
        assert(0nat / pow2(925) == 0 && 0nat % pow2(925) == 0) by (nonlinear_arith)
            requires
                pow2(925) > 0,
        ;
        assert(rounded_half_even(0, pow2(925)) == 0);
        assert(0 * pow2(925) == 0);
        crate::rounding::lemma_nearest_of_nothing(1);
    } else {
        lemma_length_shifted(n, 1074);
        lemma_bit_length(n);
        let l = bit_length(n);
        lemma2_to64();
        assert(pow2(24) == 0x100_0000);
        if l > 24 {
            if l > 25 {
                lemma_pow2_strictly_increases(24, (l - 1) as nat);
            }
        }
        assert(l <= 24);
        let place = (l + 1050) as nat;
        assert(last_place(d.units()) == place);
        let up = (1074 - place) as nat;
        lemma_pow2_adds(up, place);
        lemma_pow2_pos(place);
        let q = n * pow2(up);
        assert(n * p == q * pow2(place)) by (nonlinear_arith)
            requires
                p == pow2(up) * pow2(place),
                q == n * pow2(up),
        ;
        lemma_rounding_scales(q, 1, pow2(place));
        assert(1 * pow2(place) == pow2(place));
        assert(rounded_half_even(q, 1) == q) by {
            assert(q / 1 == q && q % 1 == 0);
        }
        lemma_pow2_adds(24, 1074);
        lemma_pow2_strictly_increases(1098, 1202);
        assert(n * p < pow2(24) * p) by (nonlinear_arith)
            requires
                n < pow2(24),
                p > 0,
        ;
    }
}

proof fn lemma_fifteen()
    ensures
        pixels_per_notch() == whole(15),
{
    lemma_pow2_adds(1025, 49);
    lemma_pow2_pos(1025);
    lemma2_to64_rest();
    lemma2_to64();
    lemma_one_value();
    lemma_whole_value(15);
    let m = pixels_per_notch();
    assert(m.magnitude() == 1026 * 0x10_0000_0000_0000 + 0xe_0000_0000_0000);
    assert(m.units() == 0x1e_0000_0000_0000 * pow2(1025));
    assert(pow2(49) == 0x2_0000_0000_0000);
    let p = pow2(1025) as int;
    assert(unit() == 0x2_0000_0000_0000 * p);
    assert(m.value() == 15 * unit());
    lemma_values_ordered(m, whole(15));
    lemma_values_ordered(whole(15), m);
    assert(m.rank() == whole(15).rank());
}

proof fn lemma_whole_notches(k: int)
    requires
        -1000 <= k <= 1000,
    ensures
        rounded(smooth_notches(whole(15 * k))) == k,
        smooth_rest(whole(15 * k)) == zero(),
{
    lemma_fifteen();
    lemma_one_value();
    lemma_whole_zero();
    let u = unit();
    let n = whole(15 * k);
    lemma_whole_value(15 * k);
    lemma_whole_value(15);
    lemma_whole_value(k);
    assert(((15 * k) * u) * u == (k * u) * (15 * u)) by (nonlinear_arith);
    assert(15 * u > 0);
    lemma_exact_quotient(n, whole(15), whole(k));
    let q = quotient(n, whole(15));
    lemma_values_ordered(q, whole(k));
    lemma_values_ordered(whole(k), q);
    assert(q.rank() == whole(k).rank());
    if k == 0 {
        assert(n == zero());
        assert(q == zero()) by {
            assert(zero().units() == 0);
            assert(0 * pow2(1074) == 0);
            crate::rounding::lemma_nearest_of_nothing(whole(15).units());
        }
    } else {
        assert(k * u != 0) by (nonlinear_arith)
            requires
                k != 0,
                u > 0,
        ;
        assert(q.negative() == whole(k).negative());
        assert(q == whole(k));
    }
    assert(q == whole(k));
    lemma_single_of_whole(k);
    lemma_truncated(k);
    lemma_rounded(k);
    assert((k * u) * (15 * u) == ((15 * k) * u) * u) by (nonlinear_arith);
    lemma_exact_product(whole(k), whole(15), n);
    let b = product(whole(k), whole(15));
    lemma_values_ordered(b, n);
    lemma_values_ordered(n, b);
    assert(b.rank() == n.rank());
    if k == 0 {
        assert(b == zero()) by {
            assert(zero().units() == 0);
            assert(0 * whole(15).units() == 0);
            lemma_pow2_pos(1074);
            crate::rounding::lemma_nearest_of_nothing(pow2(1074));
        }
    } else {
        assert((15 * k) * u != 0) by (nonlinear_arith)
            requires
                k != 0,
                u > 0,
        ;
        assert(b == n);
    }
    lemma_single_of_whole(15 * k);
    law_integers_add_exactly(15 * k, 15 * k);
    lemma_single_of_whole(0);
}

proof fn lemma_truncated(k: int)
    requires
        -1000 <= k <= 1000,
    ensures
        truncated(whole(k)) == whole(k),
{
    lemma_whole_value(k);
    lemma_pow2_pos(1074);
    let p = pow2(1074);
    let n = (if k < 0 {
        -k
    } else {
        k
    }) as nat;
    let d = whole(k);
    assert(d.units() == n * p) by (nonlinear_arith)
        requires
            d.value() == k * p,
            d.value() == (if k < 0 {
                -(d.units() as int)
            } else {
                d.units() as int
            }),
            n == (if k < 0 {
                -k
            } else {
                k
            }),
            p > 0,
    ;
    assert((n * p) / p == n) by (nonlinear_arith)
        requires
            p > 0,
    ;
}

/// Pixels that make whole notches of fifteen are given out as these, axis by
/// axis: to the right as they are, and up as less, for the stream counts
/// downward. Nothing of them is kept.
pub proof fn law_smooth_scrolling_counts_fifteen_pixels_a_notch(
    state: ScrollState,
    time: u64,
    kept_x: int,
    kept_y: int,
    dx: int,
    dy: int,
    right: int,
    down: int,
)
    requires
        state.pending == Some((time, whole(dx), whole(dy))),
        state.residue_x == whole(kept_x),
        state.residue_y == whole(kept_y),
        -0x1_0000 <= kept_x <= 0x1_0000,
        -0x1_0000 <= kept_y <= 0x1_0000,
        -0x1_0000 <= dx <= 0x1_0000,
        -0x1_0000 <= dy <= 0x1_0000,
        kept_x + dx == 15 * right,
        kept_y + dy == 15 * down,
        -1000 <= right <= 1000,
        -1000 <= down <= 1000,
    ensures
        ({
            let (after, event) = state.flushed();
            &&& after.pending is None
            &&& after.residue_x == zero()
            &&& after.residue_y == zero()
            &&& after.residue_v120_x == state.residue_v120_x
            &&& after.residue_v120_y == state.residue_v120_y
            &&& right == 0 && down == 0 ==> event is None
            &&& right != 0 || down != 0 ==> event == Some(
                CaptureEvent::Scroll { delta_x: right as i32, delta_y: (-down) as i32 },
            )
        }),
{
    law_integers_add_exactly(kept_x, dx);
    law_integers_add_exactly(kept_y, dy);
    lemma_single_of_whole(kept_x + dx);
    lemma_single_of_whole(kept_y + dy);
    lemma_whole_notches(right);
    lemma_whole_notches(down);
}

// ---------------------------------------------------------------------------
// What is sent
// ---------------------------------------------------------------------------
/// While a screen is controlled, a button, a scroll or a key is sent to its
/// machine as it was captured, and nothing else changes; while none is, nothing
/// is sent.
pub proof fn law_captured_input_is_sent_as_it_is(
    state: LinuxView,
    event: CaptureEvent,
    targets: Seq<TargetView>,
    edges: Seq<(u32, Seq<char>, Edge)>,
    layout: LayoutState,
)
    requires
        event is Button || event is Scroll || event is Key,
    ensures
        ({
            let (after, step) = state.handled(event, targets, edges, layout);
            &&& after == state
            &&& step.reaction is Continue
            &&& match state.active {
                None => step.send is None,
                Some(a) => step.send == Some(
                    (
                        a.target,
                        match event {
                            CaptureEvent::Button { button, down } => EventView::MouseButton {
                                button: button.button(),
                                down,
                            },
                            CaptureEvent::Scroll { delta_x, delta_y } => EventView::Scroll {
                                delta_x,
                                delta_y,
                            },
                            CaptureEvent::Key { vk, down } => EventView::Key { key_code: vk, down },
                            _ => arbitrary(),
                        },
                    ),
                ),
            }
        }),
{
}

/// A captured movement that ends on the same screen moves the remote cursor by
/// just that much, and its machine is told the pixel.
pub proof fn law_captured_movements_move_the_remote_cursor(
    state: LinuxView,
    a: ActiveView,
    x: int,
    y: int,
    dx: int,
    dy: int,
    targets: Seq<TargetView>,
    edges: Seq<(u32, Seq<char>, Edge)>,
    layout: LayoutState,
)
    requires
        state.active == Some(a),
        a.at == at(x, y),
        reachable(a.screen),
        a.screen.width >= 2,
        a.screen.height >= 2,
        i32::MIN <= x <= i32::MAX,
        i32::MIN <= y <= i32::MAX,
        i32::MIN <= dx <= i32::MAX,
        i32::MIN <= dy <= i32::MAX,
        pixel_of(a.screen, x + dx, y + dy),
    ensures
        ({
            let (after, step) = state.handled(
                CaptureEvent::Motion { dx: whole(dx), dy: whole(dy) },
                targets,
                edges,
                layout,
            );
            &&& after.active matches Some(b)
            &&& b.at == at(x + dx, y + dy)
            &&& b.screen == a.screen
            &&& b.screen_id == a.screen_id
            &&& b.target == a.target
            &&& after.remote_active == state.remote_active
            &&& step.reaction is Continue
            &&& step.send == Some(
                (
                    a.target,
                    EventView::MouseMove {
                        screen_id: a.screen_id,
                        x: (x + dx) as i32,
                        y: (y + dy) as i32,
                    },
                ),
            )
        }),
{
    law_integers_add_exactly(x, dx);
    law_integers_add_exactly(y, dy);
    law_the_way_out_is_the_side_that_was_passed(a.screen, x + dx, y + dy);
    law_a_held_cursor_goes_to_the_nearest_pixel(a.screen, x + dx, y + dy);
    let moved = shifted(a, at(dx, dy));
    assert(moved.at == at(x + dx, y + dy));
    law_the_peer_is_told_the_pixel(held_on_screen(moved), x + dx, y + dy);
}

/// An activation that leads to a screen controls it from then on and tells its
/// machine where the cursor is; one that leads nowhere is handed back where it
/// was; and an end of the capture leaves nothing controlled.
pub proof fn law_activations_take_control_or_give_back(
    state: LinuxView,
    barrier_id: u32,
    x: Double,
    y: Double,
    targets: Seq<TargetView>,
    edges: Seq<(u32, Seq<char>, Edge)>,
    layout: LayoutState,
)
    ensures
        ({
            let (after, step) = state.handled(
                CaptureEvent::Activated { barrier_id, x, y },
                targets,
                edges,
                layout,
            );
            match after.active {
                Some(a) => {
                    &&& after.remote_active
                    &&& step.reaction is Continue
                    &&& step.send == Some((a.target, move_event(a)))
                },
                None => step.send is None && step.reaction == (Reaction::Release { x, y }),
            }
        }),
        ({
            let (after, step) = state.handled(CaptureEvent::Deactivated, targets, edges, layout);
            after.active is None && !after.remote_active && step.send is None
        }),
{
}

// ---------------------------------------------------------------------------
// Barriers
// ---------------------------------------------------------------------------
/// A barrier lies on the line of its side, from the first pixel along it to the
/// last.
pub proof fn law_barriers_lie_on_their_side(screen: Rect, edge: Edge)
    ensures
        ({
            let (x1, y1, x2, y2) = segment(screen, edge);
            let (first, last) = match edge {
                Edge::Left => (y1, y2),
                Edge::Right => (y1, y2),
                Edge::Top => (x1, x2),
                Edge::Bottom => (x1, x2),
            };
            &&& beyond(screen, edge, x1, y1) == 0
            &&& beyond(screen, edge, x2, y2) == 0
            &&& first == side_start(screen, edge)
            &&& last == side_start(screen, edge) + side_length(screen, edge) - 1
        }),
{
}

/// A screen borders a side when a line of its own lies on that side's and some
/// pixels of the two stand side by side there.
pub proof fn law_bordering_screens_share_a_line(screen: Rect, edge: Edge, other: Rect)
    requires
        screen.has_area(),
        other.has_area(),
    ensures
        borders(screen, edge, other) <==> {
            let (x1, y1, x2, y2) = segment(screen, edge);
            &&& exists|from: int| #[trigger] alongside(screen, other, edge, from, 1)
            &&& match edge {
                Edge::Left => x1 == other.x || x1 == other.x + other.width,
                Edge::Right => x1 == other.x || x1 == other.x + other.width,
                Edge::Top => y1 == other.y || y1 == other.y + other.height,
                Edge::Bottom => y1 == other.y || y1 == other.y + other.height,
            }
        },
{
    let a = side_start(screen, edge);
    let b = side_start(other, edge);
    let from = if a > b {
        a
    } else {
        b
    };
    if borders(screen, edge, other) {
        assert(alongside(screen, other, edge, from, 1));
    }
}

} // verus!
