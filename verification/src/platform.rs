//! The operating systems that peers run on, and how each one counts pixels.

use crate::double::{product, quotient, rounded, sum, whole, zero, Double};
use crate::edge::{at_least_one, length_or_one};
use crate::layout::Screen;
use vstd::prelude::*;

verus! {

/// The operating system of this machine.
#[derive(Debug, Clone, Copy, PartialEq, Eq, Structural)]
pub enum Platform {
    MacOs,
    Windows,
    Linux,
    Other,
}

impl Platform {
    /// The name under which a peer announces its platform.
    pub open spec fn named(self) -> Seq<char> {
        match self {
            Platform::MacOs => "macos"@,
            Platform::Windows => "windows"@,
            Platform::Linux => "linux"@,
            Platform::Other => "unknown"@,
        }
    }

    pub fn name(self) -> (r: &'static str)
        ensures
            r@ == self.named(),
    {
        match self {
            Platform::MacOs => "macos",
            Platform::Windows => "windows",
            Platform::Linux => "linux",
            Platform::Other => "unknown",
        }
    }
}

/// The scale of a display, or one where it is no positive finite number.
pub open spec fn usable_scale(scale: Double) -> Double {
    if scale.finite() && zero().below(scale) {
        scale
    } else {
        crate::double::one()
    }
}

/// A coordinate in physical pixels.
pub open spec fn scaled_position(value: int, scale: Double) -> i32 {
    rounded(product(whole(value), scale))
}

/// A length in physical pixels, which is at least one.
pub open spec fn scaled_size(value: int, scale: Double) -> i32 {
    let size = rounded(product(whole(at_least_one(value)), scale));
    if size < 1 {
        1
    } else {
        size
    }
}

/// A screen in the coordinates that the platform's input functions use:
/// physical pixels on Windows, the layout's own elsewhere.
pub open spec fn native_form(platform: Platform, screen: Screen) -> Screen {
    if platform == Platform::Windows {
        let scale = usable_scale(screen.scale);
        Screen {
            x: scaled_position(screen.x as int, scale),
            y: scaled_position(screen.y as int, scale),
            width: scaled_size(screen.width as int, scale),
            height: scaled_size(screen.height as int, scale),
            ..screen
        }
    } else {
        screen
    }
}

pub fn scale_position(value: i32, scale: Double) -> (r: i32)
    ensures
        r == scaled_position(value as int, scale),
{
    Double::from_int(value as i64).times(scale).round()
}

pub fn scale_size(value: i32, scale: Double) -> (r: i32)
    ensures
        r == scaled_size(value as int, scale),
        r >= 1,
{
    let size: i32 = Double::from_int(length_or_one(value)).times(scale).round();
    if size < 1 {
        1
    } else {
        size
    }
}

pub fn platform_native_screen(platform: Platform, screen: &Screen) -> (r: Screen)
    ensures
        r == native_form(platform, *screen),
{
    if platform == Platform::Windows {
        let scale = if screen.scale.is_finite() && Double::zero().less(screen.scale) {
            screen.scale
        } else {
            Double::one()
        };
        Screen {
            id: screen.id.clone(),
            device_id: screen.device_id.clone(),
            name: screen.name.clone(),
            x: scale_position(screen.x, scale),
            y: scale_position(screen.y, scale),
            width: scale_size(screen.width, scale),
            height: scale_size(screen.height, scale),
            scale: screen.scale,
            is_primary: screen.is_primary,
        }
    } else {
        screen.clone()
    }
}

/// The native coordinate of a position given relative to a screen: the same
/// share of the native length as of the logical one, to the nearest pixel.
pub open spec fn native_position(
    relative: int,
    logical_size: int,
    native_start: int,
    native_size: int,
) -> i32 {
    let ratio = quotient(whole(relative), whole(at_least_one(logical_size)));
    rounded(sum(whole(native_start), product(ratio, whole(at_least_one(native_size)))))
}

pub fn map_relative_to_native_axis(
    relative: i32,
    logical_size: i32,
    native_start: i32,
    native_size: i32,
) -> (r: i32)
    ensures
        r == native_position(
            relative as int,
            logical_size as int,
            native_start as int,
            native_size as int,
        ),
{
    let ratio = Double::from_int(relative as i64).over(
        Double::from_int(length_or_one(logical_size)),
    );
    Double::from_int(native_start as i64).plus(
        ratio.times(Double::from_int(length_or_one(native_size))),
    ).round()
}

} // verus!
