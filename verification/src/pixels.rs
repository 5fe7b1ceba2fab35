//! Positions to the nearest pixel.
//!
//! A position that a peer gives relative to a screen of the layout is carried
//! out on the native screen, which may have another size and another scale. What
//! comes out is the pixel nearest to the same share of the native screen.

use crate::double::{
    law_integers_add_exactly, lemma_whole_value, one, product, rounded, whole, zero, Double,
};
use crate::landing::{fine, lemma_stretched, lemma_stretched_ordered, stretched};
use crate::layout::{LayoutState, Screen};
use crate::order::{
    close, digits53, lemma_exact_product, lemma_one_value, lemma_product_near, lemma_values_ordered,
    unit,
};
use crate::platform::{native_form, native_position, scaled_position, scaled_size, Platform};
use crate::receive::{command_for, event_screen, RemoteMouse};
use crate::shared_input::{EventView, InputCommand};
use vstd::arithmetic::power2::*;
use vstd::prelude::*;

verus! {

// ---------------------------------------------------------------------------
// Rounding
// ---------------------------------------------------------------------------
/// The nearest integer is at most half of one off.
pub proof fn law_rounding_is_to_the_nearest(d: Double)
    requires
        d.finite(),
        close(d.value(), 0, i32::MAX * unit()),
    ensures
        close(2 * (rounded(d) * unit()), 2 * d.value(), unit()),
{
    lemma_pow2_pos(1074);
    let p = pow2(1074) as int;
    let n = d.units() as int;
    let k = (2 * n + p) / (2 * p);
    assert(2 * (k * p) <= 2 * n + p < 2 * (k * p) + 2 * p && 0 <= k) by (nonlinear_arith)
        requires
            k == (2 * n + p) / (2 * p),
            n >= 0,
            p > 0,
    ;
    assert(k <= i32::MAX) by (nonlinear_arith)
        requires
            2 * (k * p) <= 2 * n + p,
            n <= i32::MAX * p,
            p > 0,
    ;
    assert((-k) * p == -(k * p)) by (nonlinear_arith);
}

/// Rounding keeps the order.
pub proof fn law_rounding_keeps_the_order(a: Double, b: Double)
    requires
        a.at_most(b),
    ensures
        rounded(a) <= rounded(b),
{
    lemma_pow2_pos(1074);
    let p = pow2(1074) as int;
    if a.finite() && b.finite() {
        lemma_values_ordered(a, b);
        let m = a.units() as int;
        let n = b.units() as int;
        if m <= n {
            assert((2 * m + p) / (2 * p) <= (2 * n + p) / (2 * p)) by (nonlinear_arith)
                requires
                    m <= n,
                    p > 0,
            ;
        }
        if n <= m {
            assert((2 * n + p) / (2 * p) <= (2 * m + p) / (2 * p)) by (nonlinear_arith)
                requires
                    n <= m,
                    p > 0,
            ;
        }
        assert((2 * m + p) / (2 * p) >= 0 && (2 * n + p) / (2 * p) >= 0) by (nonlinear_arith)
            requires
                m >= 0,
                n >= 0,
                p > 0,
        ;
        if m == 0 {
            assert(p / (2 * p) == 0) by (nonlinear_arith)
                requires
                    p > 0,
            ;
        }
    }
}

// ---------------------------------------------------------------------------
// From a screen of the layout to the native one
// ---------------------------------------------------------------------------
/// The pixel that stands for the same share of another length: at its ends for
/// the ends, and half a pixel off at most.
pub open spec fn same_share(relative: int, size: int, r: int, start: int, native_size: int) -> bool {
    &&& start <= r <= start + native_size
    &&& relative == 0 ==> r == start
    &&& relative == size ==> r == start + native_size
    &&& native_size == size ==> r == start + relative
    &&& close(
        2 * fine() * ((r - start) * size),
        2 * fine() * (relative * native_size),
        fine() * size + 2 * (size + native_size),
    )
}

proof fn lemma_native_position(relative: int, size: int, start: int, native_size: int)
    requires
        i32::MIN <= relative <= i32::MAX,
        1 <= size <= i32::MAX,
        1 <= native_size <= i32::MAX,
    ensures
        native_position(relative, size, start, native_size) == rounded(
            stretched(whole(relative), 0, size, start, native_size),
        ),
{
    law_integers_add_exactly(relative, 0);
}

/// A position relative to a screen stands for the same share of the native one.
pub proof fn law_positions_keep_their_share(relative: int, size: int, start: int, native_size: int)
    requires
        0 <= relative <= size,
        1 <= size <= i32::MAX,
        1 <= native_size <= i32::MAX,
        -i32::MAX <= start,
        start + native_size <= i32::MAX,
    ensures
        same_share(
            relative,
            size,
            native_position(relative, size, start, native_size) as int,
            start,
            native_size,
        ),
{
    let c = whole(relative);
    let s = stretched(c, 0, size, start, native_size);
    let u = unit();
    lemma_one_value();
    lemma_native_position(relative, size, start, native_size);
    lemma_whole_value(relative);
    assert(0 * u == 0);
    assert(0 <= relative * u <= (0 + size) * u) by (nonlinear_arith)
        requires
            0 <= relative <= size,
            u > 0,
    ;
    lemma_stretched(c, 0, size, start, native_size);
    let v = s.value();
    assert(-i32::MAX * u <= start * u && (start + native_size) * u <= i32::MAX * u)
        by (nonlinear_arith)
        requires
            -i32::MAX <= start,
            start + native_size <= i32::MAX,
            u > 0,
    ;
    law_rounding_is_to_the_nearest(s);
    let r = rounded(s) as int;
    assert(r >= start) by (nonlinear_arith)
        requires
            2 * (r * u) >= 2 * v - u,
            v >= start * u,
            u > 0,
    ;
    assert(r <= start + native_size) by (nonlinear_arith)
        requires
            2 * (r * u) <= 2 * v + u,
            v <= (start + native_size) * u,
            u > 0,
    ;
    if relative == 0 {
        assert(r <= start) by (nonlinear_arith)
            requires
                2 * (r * u) <= 2 * v + u,
                v == start * u,
                u > 0,
        ;
    }
    if relative == size {
        assert(r >= start + native_size) by (nonlinear_arith)
            requires
                2 * (r * u) >= 2 * v - u,
                v == (start + native_size) * u,
                u > 0,
        ;
    }
    lemma_share(relative, size, r, start, native_size, v, u);
    if native_size == size {
        lemma_same_size(relative, size, r, start);
    }
}

proof fn lemma_share(
    relative: int,
    size: int,
    r: int,
    start: int,
    native_size: int,
    v: int,
    u: int,
)
    requires
        close(2 * (r * u), 2 * v, u),
        close(
            fine() * ((v - start * u) * size),
            fine() * ((relative * u - 0 * u) * native_size),
            (size + native_size) * u,
        ),
        size >= 1,
        u > 0,
    ensures
        close(
            2 * fine() * ((r - start) * size),
            2 * fine() * (relative * native_size),
            fine() * size + 2 * (size + native_size),
        ),
{
    let k = fine();
    let f = v - start * u;
    let g = (r - start) * u;
    assert((r - start) * u == r * u - start * u) by (nonlinear_arith);
    assert(close(2 * g, 2 * f, u));
    assert(close((2 * g) * (k * size), (2 * f) * (k * size), u * (k * size))) by (nonlinear_arith)
        requires
            close(2 * g, 2 * f, u),
            k * size >= 0,
    ;
    assert(k * size >= 0);
    let a = 2 * k * ((r - start) * size);
    let b = 2 * k * (relative * native_size);
    let c = k * size + 2 * (size + native_size);
    assert(a * u == (2 * g) * (k * size)) by (nonlinear_arith)
        requires
            a == 2 * k * ((r - start) * size),
            g == (r - start) * u,
    ;
    assert((2 * f) * (k * size) == 2 * (k * (f * size))) by (nonlinear_arith);
    assert(b * u == 2 * (k * ((relative * u - 0 * u) * native_size))) by (nonlinear_arith)
        requires
            b == 2 * k * (relative * native_size),
    ;
    assert(c * u == u * (k * size) + 2 * ((size + native_size) * u)) by (nonlinear_arith)
        requires
            c == k * size + 2 * (size + native_size),
    ;
    assert(close(a * u, b * u, c * u));
    assert(close(a, b, c)) by (nonlinear_arith)
        requires
            close(a * u, b * u, c * u),
            u > 0,
    ;
}

proof fn lemma_same_size(relative: int, size: int, r: int, start: int)
    requires
        close(
            2 * fine() * ((r - start) * size),
            2 * fine() * (relative * size),
            fine() * size + 2 * (size + size),
        ),
        size >= 1,
    ensures
        r == start + relative,
{
    let k = fine();
    let x = r - start - relative;
    assert(2 * k * ((r - start) * size) - 2 * k * (relative * size) == (2 * k * x) * size)
        by (nonlinear_arith)
        requires
            x == r - start - relative,
    ;
    assert(-(k + 4) <= 2 * k * x <= k + 4) by (nonlinear_arith)
        requires
            close((2 * k * x) * size, 0, (k + 4) * size),
            size >= 1,
    ;
    assert(x == 0) by (nonlinear_arith)
        requires
            -(k + 4) <= 2 * k * x <= k + 4,
            k == 0x10_0000,
    ;
}

/// A position further right, or further down, is so natively.
pub proof fn law_positions_keep_their_order(a: int, b: int, size: int, start: int, native_size: int)
    requires
        0 <= a <= b <= size,
        1 <= size <= i32::MAX,
        1 <= native_size <= i32::MAX,
        i32::MIN <= start <= i32::MAX,
    ensures
        native_position(a, size, start, native_size) <= native_position(b, size, start, native_size),
{
    let u = unit();
    lemma_one_value();
    lemma_native_position(a, size, start, native_size);
    lemma_native_position(b, size, start, native_size);
    lemma_whole_value(a);
    lemma_whole_value(b);
    assert(0 * u == 0);
    assert(0 <= a * u <= b * u && b * u <= (0 + size) * u) by (nonlinear_arith)
        requires
            0 <= a <= b <= size,
            u > 0,
    ;
    lemma_values_ordered(whole(a), whole(b));
    lemma_stretched_ordered(whole(a), whole(b), 0, size, start, native_size);
    law_rounding_keeps_the_order(
        stretched(whole(a), 0, size, start, native_size),
        stretched(whole(b), 0, size, start, native_size),
    );
}

// ---------------------------------------------------------------------------
// Physical pixels
// ---------------------------------------------------------------------------
/// The integer nearest to a number of logical pixels times a scale.
pub open spec fn times_scale(value: int, scale: Double, r: int) -> bool {
    close(
        2 * fine() * (r * unit()),
        2 * fine() * (value * scale.value()),
        (fine() + 1) * unit(),
    )
}

/// A coordinate in physical pixels is the logical one times the scale, to the
/// nearest pixel: with a scale of one it is the same.
pub proof fn law_physical_pixels_are_logical_ones_times_the_scale(value: int, scale: Double)
    requires
        i32::MIN <= value <= i32::MAX,
        scale.finite(),
        0 < scale.value(),
        close(value * scale.value(), 0, 0x7fff_fff0 * unit()),
    ensures
        times_scale(value, scale, scaled_position(value, scale) as int),
        value >= 1 ==> scaled_size(value, scale) == (if scaled_position(value, scale) < 1 {
            1
        } else {
            scaled_position(value, scale) as int
        }),
        scale == one() ==> scaled_position(value, scale) == value,
        scale == one() && value >= 1 ==> scaled_size(value, scale) == value,
{
    let u = unit();
    lemma_one_value();
    lemma_whole_value(value);
    lemma2_to64();
    lemma2_to64_rest();
    let w = whole(value);
    let s = scale.value();
    assert((value * u) * s == u * (value * s)) by (nonlinear_arith);
    assert(close(u * (value * s), 0, u * (0x8000_0000 * u))) by (nonlinear_arith)
        requires
            close(value * s, 0, 0x7fff_fff0 * u),
            u > 0,
    ;
    lemma_product_near(w, scale, 31);
    let x = product(w, scale);
    let v = x.value();
    let k = digits53();
    assert(close(4 * fine() * v, 4 * fine() * (value * s), u)) by (nonlinear_arith)
        requires
            close(k * (v * u), k * (u * (value * s)), u * (0x8000_0000 * u)),
            k == 0x20_0000_0000_0000,
            fine() == 0x10_0000,
            u > 0,
    ;
    let t = value * s;
    assert(close(v, 0, i32::MAX * u)) by (nonlinear_arith)
        requires
            close(4 * fine() * v, 4 * fine() * t, u),
            close(t, 0, 0x7fff_fff0 * u),
            fine() == 0x10_0000,
            u > 0,
    ;
    law_rounding_is_to_the_nearest(x);
    let n = rounded(x) * u;
    assert(close(2 * fine() * n, 2 * fine() * t, (fine() + 1) * u)) by (nonlinear_arith)
        requires
            close(4 * fine() * v, 4 * fine() * t, u),
            close(2 * n, 2 * v, u),
            fine() == 0x10_0000,
            u > 0,
    ;
    if scale == one() {
        assert((value * u) * u == w.value() * u);
        lemma_exact_product(w, scale, w);
        let r = rounded(x) as int;
        assert(r == value) by (nonlinear_arith)
            requires
                close(2 * (r * u), 2 * (value * u), u),
                u > 0,
        ;
    }
}

/// On Windows each of a screen's four measures is its own times the scale; on
/// any other system the screen is as it was. All else of it stays.
pub proof fn law_native_screens_keep_their_measures(platform: Platform, screen: Screen)
    requires
        screen.width >= 1,
        screen.height >= 1,
        screen.scale.finite(),
        0 < screen.scale.value(),
        close(screen.x * screen.scale.value(), 0, 0x7fff_fff0 * unit()),
        close(screen.y * screen.scale.value(), 0, 0x7fff_fff0 * unit()),
        close(screen.width * screen.scale.value(), 0, 0x7fff_fff0 * unit()),
        close(screen.height * screen.scale.value(), 0, 0x7fff_fff0 * unit()),
    ensures
        ({
            let n = native_form(platform, screen);
            let s = screen.scale;
            &&& platform != Platform::Windows ==> n == screen
            &&& platform == Platform::Windows ==> {
                &&& times_scale(screen.x as int, s, n.x as int)
                &&& times_scale(screen.y as int, s, n.y as int)
                &&& times_scale(screen.width as int, s, n.width as int) || n.width == 1
                &&& times_scale(screen.height as int, s, n.height as int) || n.height == 1
            }
            &&& n.width >= 1
            &&& n.height >= 1
            &&& n.id == screen.id
            &&& n.device_id == screen.device_id
            &&& n.scale == screen.scale
            &&& n.is_primary == screen.is_primary
        }),
{
    let s = screen.scale;
    lemma_one_value();
    lemma_values_ordered(zero(), s);
    lemma_values_ordered(s, zero());
    law_physical_pixels_are_logical_ones_times_the_scale(screen.x as int, s);
    law_physical_pixels_are_logical_ones_times_the_scale(screen.y as int, s);
    law_physical_pixels_are_logical_ones_times_the_scale(screen.width as int, s);
    law_physical_pixels_are_logical_ones_times_the_scale(screen.height as int, s);
}

// ---------------------------------------------------------------------------
// A received movement
// ---------------------------------------------------------------------------
/// A received movement puts the cursor on the same share of the native screen:
/// its column by the widths and its row by the heights.
pub proof fn law_a_received_movement_keeps_its_share(
    layout: LayoutState,
    native_layout: LayoutState,
    platform: Platform,
    mouse: RemoteMouse,
    screen_id: Seq<char>,
    x: i32,
    y: i32,
    native: Screen,
)
    requires
        event_screen(layout, screen_id) is Some,
        native == native_form(
            platform,
            match event_screen(native_layout, screen_id) {
                Some(screen) => screen,
                None => event_screen(layout, screen_id)->0,
            },
        ),
        0 <= x <= (event_screen(layout, screen_id)->0).width,
        0 <= y <= (event_screen(layout, screen_id)->0).height,
        (event_screen(layout, screen_id)->0).width >= 1,
        (event_screen(layout, screen_id)->0).height >= 1,
        native.width >= 1,
        native.height >= 1,
        -i32::MAX <= native.x,
        -i32::MAX <= native.y,
        native.x + native.width <= i32::MAX,
        native.y + native.height <= i32::MAX,
    ensures
        ({
            let screen = event_screen(layout, screen_id)->0;
            let (after, command) = command_for(
                layout,
                native_layout,
                platform,
                mouse,
                EventView::MouseMove { screen_id, x, y },
            );
            &&& after.buttons == mouse.buttons
            &&& command matches Some(InputCommand::MouseMove { x: column, y: row, .. })
            &&& same_share(
                x as int,
                screen.width as int,
                column as int,
                native.x as int,
                native.width as int,
            )
            &&& same_share(
                y as int,
                screen.height as int,
                row as int,
                native.y as int,
                native.height as int,
            )
        }),
{
    let screen = event_screen(layout, screen_id)->0;
    law_positions_keep_their_share(
        x as int,
        screen.width as int,
        native.x as int,
        native.width as int,
    );
    law_positions_keep_their_share(
        y as int,
        screen.height as int,
        native.y as int,
        native.height as int,
    );
}

} // verus!
