//! The events that peers exchange and the commands that carry them out.

use vstd::prelude::*;

verus! {

/// A mouse button.
#[derive(Debug, Clone, Copy, PartialEq, Eq, Structural)]
pub enum MouseButton {
    Left,
    Right,
    Middle,
    Back,
    Forward,
}

/// One thing that a user did with the mouse or the keyboard.
#[derive(Debug, PartialEq, Eq)]
pub enum InputEvent {
    /// The cursor is at a position relative to a screen of the receiver.
    MouseMove { screen_id: String, x: i32, y: i32 },
    MouseButton { button: MouseButton, down: bool },
    /// Whole wheel notches; positive is right and up.
    Scroll { delta_x: i32, delta_y: i32 },
    /// A Windows virtual key.
    Key { key_code: u16, down: bool },
}

/// What an event says, as texts and numbers.
pub enum EventView {
    MouseMove { screen_id: Seq<char>, x: i32, y: i32 },
    MouseButton { button: MouseButton, down: bool },
    Scroll { delta_x: i32, delta_y: i32 },
    Key { key_code: u16, down: bool },
}

impl View for InputEvent {
    type V = EventView;

    open spec fn view(&self) -> EventView {
        match *self {
            InputEvent::MouseMove { screen_id, x, y } => EventView::MouseMove {
                screen_id: screen_id@,
                x,
                y,
            },
            InputEvent::MouseButton { button, down } => EventView::MouseButton { button, down },
            InputEvent::Scroll { delta_x, delta_y } => EventView::Scroll { delta_x, delta_y },
            InputEvent::Key { key_code, down } => EventView::Key { key_code, down },
        }
    }
}

/// One thing to do on the receiving machine, in its native coordinates.
#[derive(Debug, Clone, Copy, PartialEq, Eq, Structural)]
pub enum InputCommand {
    MouseMove { x: i32, y: i32, drag_button: Option<MouseButton> },
    MouseButton { button: MouseButton, down: bool, x: i32, y: i32 },
    Scroll { delta_x: i32, delta_y: i32 },
    Key { key_code: u16, down: bool },
    ReleaseAll,
    SecureAttention,
}

// ---------------------------------------------------------------------------
// Held buttons
// ---------------------------------------------------------------------------
pub const LEFT_BUTTON_MASK: u64 = 1;

pub const RIGHT_BUTTON_MASK: u64 = 2;

pub const MIDDLE_BUTTON_MASK: u64 = 4;

pub const BACK_BUTTON_MASK: u64 = 8;

pub const FORWARD_BUTTON_MASK: u64 = 16;

/// The bit that stands for a button in a set of held ones.
pub open spec fn bit_of(button: MouseButton) -> u64 {
    match button {
        MouseButton::Left => LEFT_BUTTON_MASK,
        MouseButton::Right => RIGHT_BUTTON_MASK,
        MouseButton::Middle => MIDDLE_BUTTON_MASK,
        MouseButton::Back => BACK_BUTTON_MASK,
        MouseButton::Forward => FORWARD_BUTTON_MASK,
    }
}

pub fn mouse_button_mask(button: MouseButton) -> (r: u64)
    ensures
        r == bit_of(button),
{
    match button {
        MouseButton::Left => LEFT_BUTTON_MASK,
        MouseButton::Right => RIGHT_BUTTON_MASK,
        MouseButton::Middle => MIDDLE_BUTTON_MASK,
        MouseButton::Back => BACK_BUTTON_MASK,
        MouseButton::Forward => FORWARD_BUTTON_MASK,
    }
}

/// Whether a button is among the held ones.
pub open spec fn held(mask: u64, button: MouseButton) -> bool {
    mask & bit_of(button) != 0
}

/// The set with one button pressed or released.
pub open spec fn with_button(mask: u64, button: MouseButton, down: bool) -> u64 {
    if down {
        mask | bit_of(button)
    } else {
        mask & !bit_of(button)
    }
}

pub fn is_held(mask: u64, button: MouseButton) -> (r: bool)
    ensures
        r == held(mask, button),
{
    mask & mouse_button_mask(button) != 0
}

/// Pressing or releasing a button changes whether that button is held, and no
/// other: the buttons have bits of their own.
pub proof fn law_buttons_are_independent(
    mask: u64,
    button: MouseButton,
    down: bool,
    other: MouseButton,
)
    ensures
        held(with_button(mask, button, down), other) == (if other == button {
            down
        } else {
            held(mask, other)
        }),
        bit_of(button) == bit_of(other) ==> button == other,
{
    let a = bit_of(button);
    let b = bit_of(other);
    assert(((mask | a) & b != 0) == (mask & b != 0 || a & b != 0)) by (bit_vector);
    assert(b & a == 0 ==> ((mask & !a) & b) == mask & b) by (bit_vector);
    assert(((mask & !a) & a) == 0) by (bit_vector);
    assert(1u64 & 1 != 0 && 2u64 & 2 != 0 && 4u64 & 4 != 0 && 8u64 & 8 != 0 && 16u64 & 16 != 0)
        by (bit_vector);
    assert(1u64 & 2 == 0 && 1u64 & 4 == 0 && 1u64 & 8 == 0 && 1u64 & 16 == 0) by (bit_vector);
    assert(2u64 & 1 == 0 && 2u64 & 4 == 0 && 2u64 & 8 == 0 && 2u64 & 16 == 0) by (bit_vector);
    assert(4u64 & 1 == 0 && 4u64 & 2 == 0 && 4u64 & 8 == 0 && 4u64 & 16 == 0) by (bit_vector);
    assert(8u64 & 1 == 0 && 8u64 & 2 == 0 && 8u64 & 4 == 0 && 8u64 & 16 == 0) by (bit_vector);
    assert(16u64 & 1 == 0 && 16u64 & 2 == 0 && 16u64 & 4 == 0 && 16u64 & 8 == 0) by (bit_vector);
}

/// Nothing is held in the empty set.
pub proof fn law_empty_mask_holds_nothing(button: MouseButton)
    ensures
        !held(0, button),
{
    let b = bit_of(button);
    assert(0u64 & b == 0) by (bit_vector);
}

/// The button that a movement drags with. Side buttons do not drag.
pub open spec fn dragged_button(mask: u64) -> Option<MouseButton> {
    if held(mask, MouseButton::Left) {
        Some(MouseButton::Left)
    } else if held(mask, MouseButton::Right) {
        Some(MouseButton::Right)
    } else if held(mask, MouseButton::Middle) {
        Some(MouseButton::Middle)
    } else {
        None
    }
}

pub fn button_from_mask(mask: u64) -> (r: Option<MouseButton>)
    ensures
        r == dragged_button(mask),
{
    if is_held(mask, MouseButton::Left) {
        Some(MouseButton::Left)
    } else if is_held(mask, MouseButton::Right) {
        Some(MouseButton::Right)
    } else if is_held(mask, MouseButton::Middle) {
        Some(MouseButton::Middle)
    } else {
        None
    }
}

} // verus!
