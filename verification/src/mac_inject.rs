//! Injecting received input on macOS: click counts, modifier flags, and which
//! events are posted.

use crate::double::{Double};
use crate::keys::{mac_key_of_vk, windows_vk_to_mac_key};
use crate::recency::{age, elapsed};
use crate::shared_input::MouseButton;
use vstd::prelude::*;

verus! {

// ---------------------------------------------------------------------------
// Click counts
// ---------------------------------------------------------------------------
/// A button that went down.
#[derive(Debug, Clone, Copy, PartialEq, Eq, Structural)]
pub struct MacClickDown {
    pub button: MouseButton,
    pub x: i32,
    pub y: i32,
    pub at: u64,
    pub count: u8,
}

/// Counts the clicks of injected buttons, which macOS does not do by itself: a
/// press shortly after another one and near it raises the count, up to three,
/// and a release repeats the count of its press.
#[derive(Debug, Clone, Copy, PartialEq, Eq, Structural)]
pub struct MacClickTracker {
    pub last_down: Option<MacClickDown>,
    pub left: Option<MacClickDown>,
    pub right: Option<MacClickDown>,
    pub middle: Option<MacClickDown>,
}

/// How far apart two clicks on one spot are at most, in pixels.
pub const MAX_CLICK_DISTANCE: i32 = 8;

impl Default for MacClickTracker {
    fn default() -> (r: MacClickTracker)
        ensures
            r == no_clicks(),
    {
        MacClickTracker { last_down: None, left: None, right: None, middle: None }
    }
}

pub open spec fn no_clicks() -> MacClickTracker {
    MacClickTracker { last_down: None, left: None, right: None, middle: None }
}

/// Whether two positions are within a distance of each other.
pub open spec fn near(x1: int, y1: int, x2: int, y2: int, distance: int) -> bool {
    (x1 - x2) * (x1 - x2) + (y1 - y2) * (y1 - y2) <= distance * distance
}

pub fn click_points_are_near(x1: i32, y1: i32, x2: i32, y2: i32, max_distance: i32) -> (r: bool)
    ensures
        r == near(x1 as int, y1 as int, x2 as int, y2 as int, max_distance as int),
{
    let dx: i128 = x1 as i128 - x2 as i128;
    let dy: i128 = y1 as i128 - y2 as i128;
    let max: i128 = max_distance as i128;
    assert(dx * dx <= 0x1_0000_0000 * 0x1_0000_0000) by (nonlinear_arith)
        requires
            -0x1_0000_0000 <= dx <= 0x1_0000_0000,
    ;
    assert(dy * dy <= 0x1_0000_0000 * 0x1_0000_0000) by (nonlinear_arith)
        requires
            -0x1_0000_0000 <= dy <= 0x1_0000_0000,
    ;
    assert(max * max <= 0x1_0000_0000 * 0x1_0000_0000) by (nonlinear_arith)
        requires
            -0x1_0000_0000 <= max <= 0x1_0000_0000,
    ;
    assert(dx * dx >= 0 && dy * dy >= 0 && max * max >= 0) by (nonlinear_arith);
    dx * dx + dy * dy <= max * max
}

impl MacClickTracker {
    /// The press of a button that is still held.
    pub open spec fn pressed(self, button: MouseButton) -> Option<MacClickDown> {
        match button {
            MouseButton::Left => self.left,
            MouseButton::Right => self.right,
            MouseButton::Middle => self.middle,
            _ => None,
        }
    }

    /// The tracker with another press of a button.
    pub open spec fn with_pressed(self, button: MouseButton, press: Option<MacClickDown>) -> MacClickTracker {
        match button {
            MouseButton::Left => MacClickTracker { left: press, ..self },
            MouseButton::Right => MacClickTracker { right: press, ..self },
            MouseButton::Middle => MacClickTracker { middle: press, ..self },
            _ => self,
        }
    }

    /// Whether a press continues the clicks before it.
    pub open spec fn continues(
        self,
        button: MouseButton,
        x: i32,
        y: i32,
        now: u64,
        interval: u64,
    ) -> bool {
        self.last_down matches Some(last) && last.button == button && age(now, last.at) <= interval
            && near(last.x as int, last.y as int, x as int, y as int, MAX_CLICK_DISTANCE as int)
    }

    /// What a button event does, and the count that it carries. Side buttons are
    /// not counted. A button that moved while it was held was dragged: its
    /// release carries nothing, and no click follows on.
    pub open spec fn counted(
        self,
        button: MouseButton,
        down: bool,
        x: i32,
        y: i32,
        now: u64,
        interval: u64,
    ) -> (MacClickTracker, int) {
        if button == MouseButton::Back || button == MouseButton::Forward {
            (
                self,
                if down {
                    1
                } else {
                    0
                },
            )
        } else if down {
            let count = if self.continues(button, x, y, now, interval) {
                let raised = self.last_down->0.count + 1;
                if raised > 3 {
                    3
                } else {
                    raised
                }
            } else {
                1
            };
            let click = MacClickDown { button, x, y, at: now, count: count as u8 };
            (
                MacClickTracker { last_down: Some(click), ..self.with_pressed(button, Some(click)) },
                count,
            )
        } else {
            match self.pressed(button) {
                None => (self, 0),
                Some(click) => if near(
                    click.x as int,
                    click.y as int,
                    x as int,
                    y as int,
                    MAX_CLICK_DISTANCE as int,
                ) {
                    (self.with_pressed(button, None), click.count as int)
                } else {
                    (
                        MacClickTracker { last_down: None, ..self.with_pressed(button, None) },
                        0,
                    )
                },
            }
        }
    }

    pub fn event_count(
        &mut self,
        button: MouseButton,
        down: bool,
        x: i32,
        y: i32,
        now: u64,
        double_click_interval: u64,
    ) -> (r: i64)
        ensures
            (*final(self), r as int) == old(self).counted(
                button,
                down,
                x,
                y,
                now,
                double_click_interval,
            ),
    {
        match button {
            MouseButton::Back | MouseButton::Forward => {
                return if down {
                    1
                } else {
                    0
                };
            },
            _ => {},
        }
        if down {
            let count: u8 = match self.last_down {
                Some(last) => if last.button == button && elapsed(now, last.at)
                    <= double_click_interval && click_points_are_near(
                    last.x,
                    last.y,
                    x,
                    y,
                    MAX_CLICK_DISTANCE,
                ) {
                    if last.count >= 3 {
                        3
                    } else {
                        last.count + 1
                    }
                } else {
                    1
                },
                None => 1,
            };
            let click = MacClickDown { button, x, y, at: now, count };
            self.last_down = Some(click);
            self.set_pressed(button, Some(click));
            return count as i64;
        }
        let pressed = match button {
            MouseButton::Left => self.left,
            MouseButton::Right => self.right,
            MouseButton::Middle => self.middle,
            _ => None,
        };
        let click = match pressed {
            Some(click) => click,
            None => {
                return 0;
            },
        };
        self.set_pressed(button, None);
        if click_points_are_near(click.x, click.y, x, y, MAX_CLICK_DISTANCE) {
            click.count as i64
        } else {
            self.last_down = None;
            0
        }
    }

    fn set_pressed(&mut self, button: MouseButton, press: Option<MacClickDown>)
        ensures
            *final(self) == old(self).with_pressed(button, press),
    {
        match button {
            MouseButton::Left => {
                self.left = press;
            },
            MouseButton::Right => {
                self.right = press;
            },
            MouseButton::Middle => {
                self.middle = press;
            },
            _ => {},
        }
    }
}

/// Every count is one of nothing, single, double and triple.
pub proof fn law_clicks_count_to_three(
    tracker: MacClickTracker,
    button: MouseButton,
    down: bool,
    x: i32,
    y: i32,
    now: u64,
    interval: u64,
)
    requires
        tracker.pressed(button) matches Some(click) ==> click.count <= 3,
    ensures
        0 <= tracker.counted(button, down, x, y, now, interval).1 <= 3,
        ({
            let after = tracker.counted(button, down, x, y, now, interval).0;
            after.pressed(button) matches Some(click) ==> click.count <= 3
        }),
        down ==> tracker.counted(button, down, x, y, now, interval).1 >= 1,
{
}

/// A release on the spot carries the count of its press.
pub proof fn law_a_release_repeats_its_press(
    tracker: MacClickTracker,
    button: MouseButton,
    x: i32,
    y: i32,
    pressed_at: u64,
    released_at: u64,
    interval: u64,
)
    requires
        button != MouseButton::Back,
        button != MouseButton::Forward,
    ensures
        ({
            let (after, count) = tracker.counted(button, true, x, y, pressed_at, interval);
            after.counted(button, false, x, y, released_at, interval).1 == count
        }),
{
}

/// The longest and shortest usable double-click times, and the usual one, in
/// seconds.
pub open spec fn usable_double_click(seconds: Double) -> Double {
    let shortest = Double { bits: 0x3fb9_9999_9999_999a };
    let longest = Double { bits: 0x4000_0000_0000_0000 };
    if seconds.finite() && shortest.at_most(seconds) && seconds.at_most(longest) {
        seconds
    } else {
        crate::double::half()
    }
}

pub fn double_click_seconds(seconds: Double) -> (r: Double)
    ensures
        r == usable_double_click(seconds),
{
    let shortest = Double { bits: 0x3fb9_9999_9999_999a };
    let longest = Double { bits: 0x4000_0000_0000_0000 };
    if seconds.is_finite() && shortest.less_or_equal(seconds) && seconds.less_or_equal(longest) {
        seconds
    } else {
        Double::half()
    }
}

// ---------------------------------------------------------------------------
// Modifier flags
// ---------------------------------------------------------------------------
pub const FLAG_SHIFT: u64 = 0x2_0000;

pub const FLAG_CONTROL: u64 = 0x4_0000;

pub const FLAG_ALTERNATE: u64 = 0x8_0000;

pub const FLAG_COMMAND: u64 = 0x10_0000;

pub const FLAG_NUMERIC_PAD: u64 = 0x20_0000;

pub const FLAG_SECONDARY_FN: u64 = 0x80_0000;

/// The flag of a modifier's virtual key.
pub open spec fn flag_of_vk(vk: u16) -> Option<u64> {
    if vk == 0x10 || vk == 0xA0 || vk == 0xA1 {
        Some(FLAG_SHIFT)
    } else if vk == 0x11 || vk == 0xA2 || vk == 0xA3 {
        Some(FLAG_CONTROL)
    } else if vk == 0x12 || vk == 0xA4 || vk == 0xA5 {
        Some(FLAG_ALTERNATE)
    } else if vk == 0x5B || vk == 0x5C {
        Some(FLAG_COMMAND)
    } else {
        None
    }
}

pub fn windows_vk_to_mac_flag(vk: u16) -> (r: Option<u64>)
    ensures
        r == flag_of_vk(vk),
{
    match vk {
        0x10 | 0xA0 | 0xA1 => Some(FLAG_SHIFT),
        0x11 | 0xA2 | 0xA3 => Some(FLAG_CONTROL),
        0x12 | 0xA4 | 0xA5 => Some(FLAG_ALTERNATE),
        0x5B | 0x5C => Some(FLAG_COMMAND),
        _ => None,
    }
}

/// The flags that a keyboard sets for a key of its function section: arrows
/// carry two, the other navigation keys one.
pub open spec fn section_flags(mac_code: u16) -> u64 {
    if 123 <= mac_code <= 126 {
        FLAG_SECONDARY_FN | FLAG_NUMERIC_PAD
    } else if mac_code == 115 || mac_code == 116 || mac_code == 117 || mac_code == 119 || mac_code
        == 121 {
        FLAG_SECONDARY_FN
    } else {
        0
    }
}

pub fn mac_function_section_flags(mac_code: u16) -> (r: u64)
    ensures
        r == section_flags(mac_code),
{
    if 123 <= mac_code && mac_code <= 126 {
        FLAG_SECONDARY_FN | FLAG_NUMERIC_PAD
    } else if mac_code == 115 || mac_code == 116 || mac_code == 117 || mac_code == 119 || mac_code
        == 121 {
        FLAG_SECONDARY_FN
    } else {
        0
    }
}

/// The flags with a modifier pressed or released.
pub open spec fn flags_with(flags: u64, flag: u64, down: bool) -> u64 {
    if down {
        flags | flag
    } else {
        flags & !flag
    }
}

// ---------------------------------------------------------------------------
// Keys
// ---------------------------------------------------------------------------
/// A keyboard event to post.
#[derive(Debug, Clone, Copy, PartialEq, Eq, Structural)]
pub struct KeyPost {
    pub mac_code: u16,
    pub down: bool,
    pub flags: u64,
}

/// The virtual key that locks capitals.
pub const VK_CAPITAL: u16 = 0x14;

pub const MAC_KEY_CONTROL: u16 = 59;

pub const MAC_KEY_SPACE: u16 = 49;

/// The chord that selects the previous input source.
pub open spec fn input_source_chord() -> Seq<KeyPost> {
    seq![
        KeyPost { mac_code: MAC_KEY_CONTROL, down: true, flags: FLAG_CONTROL },
        KeyPost { mac_code: MAC_KEY_SPACE, down: true, flags: FLAG_CONTROL },
        KeyPost { mac_code: MAC_KEY_SPACE, down: false, flags: FLAG_CONTROL },
        KeyPost { mac_code: MAC_KEY_CONTROL, down: false, flags: 0 },
    ]
}

pub fn macos_select_previous_input_source() -> (r: Vec<KeyPost>)
    ensures
        r@ == input_source_chord(),
{
    let mut posts: Vec<KeyPost> = Vec::new();
    posts.push(KeyPost { mac_code: MAC_KEY_CONTROL, down: true, flags: FLAG_CONTROL });
    posts.push(KeyPost { mac_code: MAC_KEY_SPACE, down: true, flags: FLAG_CONTROL });
    posts.push(KeyPost { mac_code: MAC_KEY_SPACE, down: false, flags: FLAG_CONTROL });
    posts.push(KeyPost { mac_code: MAC_KEY_CONTROL, down: false, flags: 0 });
    assert(posts@ =~= input_source_chord());
    posts
}

/// What injection remembers between events.
#[derive(Debug, Clone, Copy, PartialEq, Eq, Structural)]
pub struct MacInjector {
    /// The flags of the modifiers that are held.
    pub flags: u64,
    /// Whether the key that locks capitals is held.
    pub caps_lock_down: bool,
    pub clicks: MacClickTracker,
}

/// Nothing is held.
pub open spec fn nothing_injected() -> MacInjector {
    MacInjector { flags: 0, caps_lock_down: false, clicks: no_clicks() }
}

impl MacInjector {
    pub fn new() -> (r: MacInjector)
        ensures
            r == nothing_injected(),
    {
        MacInjector { flags: 0, caps_lock_down: false, clicks: MacClickTracker::default() }
    }

    /// Forgets what is held, so that a release that got lost leaves nothing
    /// stuck.
    pub fn reset_injected_modifiers(&mut self)
        ensures
            *final(self) == nothing_injected(),
    {
        *self = MacInjector::new();
    }

    /// What a key does. The key that locks capitals switches the input source
    /// instead, once until it is released; a key that macOS does not have is
    /// dropped.
    pub open spec fn keyed(self, key_code: u16, down: bool) -> (MacInjector, Seq<KeyPost>) {
        if key_code == VK_CAPITAL {
            (
                MacInjector { caps_lock_down: down, ..self },
                if down && !self.caps_lock_down {
                    input_source_chord()
                } else {
                    Seq::empty()
                },
            )
        } else {
            let flags = match flag_of_vk(key_code) {
                Some(flag) => flags_with(self.flags, flag, down),
                None => self.flags,
            };
            (
                MacInjector { flags, ..self },
                match mac_key_of_vk(key_code) {
                    Some(mac_code) => seq![
                        KeyPost { mac_code, down, flags: flags | section_flags(mac_code) },
                    ],
                    None => Seq::empty(),
                },
            )
        }
    }

    pub fn inject_key(&mut self, key_code: u16, down: bool) -> (r: Vec<KeyPost>)
        ensures
            (*final(self), r@) == old(self).keyed(key_code, down),
    {
        if key_code == VK_CAPITAL {
            let switch: bool = down && !self.caps_lock_down;
            self.caps_lock_down = down;
            if switch {
                return macos_select_previous_input_source();
            }
            let none: Vec<KeyPost> = Vec::new();
            assert(none@ =~= Seq::<KeyPost>::empty());
            return none;
        }
        match windows_vk_to_mac_flag(key_code) {
            Some(flag) => {
                if down {
                    self.flags = self.flags | flag;
                } else {
                    self.flags = self.flags & !flag;
                }
            },
            None => {},
        }
        let mut posts: Vec<KeyPost> = Vec::new();
        match windows_vk_to_mac_key(key_code) {
            Some(mac_code) => {
                let flags: u64 = self.flags | mac_function_section_flags(mac_code);
                posts.push(KeyPost { mac_code, down, flags });
            },
            None => {},
        }
        assert(posts@ =~= old(self).keyed(key_code, down).1);
        posts
    }

    /// The click count that a button event carries.
    pub fn macos_click_state(
        &mut self,
        button: MouseButton,
        down: bool,
        x: i32,
        y: i32,
        now: u64,
        double_click_interval: u64,
    ) -> (r: i64)
        ensures
            ({
                let (clicks, count) = old(self).clicks.counted(
                    button,
                    down,
                    x,
                    y,
                    now,
                    double_click_interval,
                );
                *final(self) == (MacInjector { clicks, ..*old(self) }) && r == count
            }),
    {
        self.clicks.event_count(button, down, x, y, now, double_click_interval)
    }
}

/// A held modifier is stamped on the keys that follow it, and not on those that
/// follow its release.
pub proof fn law_modifiers_are_stamped_while_held(injector: MacInjector, vk: u16, key_code: u16)
    requires
        flag_of_vk(vk) is Some,
        flag_of_vk(key_code) is None,
        key_code != VK_CAPITAL,
        mac_key_of_vk(key_code) is Some,
    ensures
        ({
            let flag = flag_of_vk(vk)->0;
            let held = injector.keyed(vk, true).0;
            let let_go = held.keyed(vk, false).0;
            &&& held.keyed(key_code, true).1[0].flags & flag == flag
            &&& let_go.keyed(key_code, true).1[0].flags & flag == 0
        }),
{
    let flag = flag_of_vk(vk)->0;
    let flags = injector.flags;
    let section = section_flags(mac_key_of_vk(key_code)->0);
    assert(((flags | flag) | section) & flag == flag) by (bit_vector);
    assert((((flags | flag) & !flag) | section) & flag == 0) by (bit_vector)
        requires
            flag == 0x2_0000u64 || flag == 0x4_0000u64 || flag == 0x8_0000u64 || flag
                == 0x10_0000u64,
            section == 0u64 || section == 0x80_0000u64 || section == (0x80_0000u64 | 0x20_0000u64),
    ;
}

/// Holding the key that locks capitals switches the input source once.
pub proof fn law_caps_lock_switches_once(injector: MacInjector)
    ensures
        ({
            let held = injector.keyed(VK_CAPITAL, true).0;
            held.keyed(VK_CAPITAL, true) == (held, Seq::<KeyPost>::empty())
        }),
        injector.keyed(VK_CAPITAL, false).0.keyed(VK_CAPITAL, true).1 == input_source_chord(),
{
}

// ---------------------------------------------------------------------------
// Mouse events
// ---------------------------------------------------------------------------
/// The kind of a mouse event.
#[derive(Debug, Clone, Copy, PartialEq, Eq, Structural)]
pub enum MacMouseEvent {
    Moved,
    LeftDown,
    LeftUp,
    LeftDragged,
    RightDown,
    RightUp,
    RightDragged,
    OtherDown,
    OtherUp,
    OtherDragged,
}

/// The event that moves the cursor, with a button held or without.
pub open spec fn motion_event(drag_button: Option<MouseButton>) -> MacMouseEvent {
    match drag_button {
        Some(MouseButton::Left) => MacMouseEvent::LeftDragged,
        Some(MouseButton::Right) => MacMouseEvent::RightDragged,
        Some(_) => MacMouseEvent::OtherDragged,
        None => MacMouseEvent::Moved,
    }
}

pub fn mac_motion_event(drag_button: Option<MouseButton>) -> (r: MacMouseEvent)
    ensures
        r == motion_event(drag_button),
{
    match drag_button {
        Some(MouseButton::Left) => MacMouseEvent::LeftDragged,
        Some(MouseButton::Right) => MacMouseEvent::RightDragged,
        Some(_) => MacMouseEvent::OtherDragged,
        None => MacMouseEvent::Moved,
    }
}

/// The event of a button, and the number that is stamped on it: side buttons
/// differ from the middle one by their number only.
pub open spec fn button_event(button: MouseButton, down: bool) -> (MacMouseEvent, Option<i64>) {
    match button {
        MouseButton::Left => (
            if down {
                MacMouseEvent::LeftDown
            } else {
                MacMouseEvent::LeftUp
            },
            None,
        ),
        MouseButton::Right => (
            if down {
                MacMouseEvent::RightDown
            } else {
                MacMouseEvent::RightUp
            },
            None,
        ),
        _ => (
            if down {
                MacMouseEvent::OtherDown
            } else {
                MacMouseEvent::OtherUp
            },
            match button {
                MouseButton::Back => Some(3),
                MouseButton::Forward => Some(4),
                _ => None,
            },
        ),
    }
}

pub fn mac_button_event(button: MouseButton, down: bool) -> (r: (MacMouseEvent, Option<i64>))
    ensures
        r == button_event(button, down),
{
    match (button, down) {
        (MouseButton::Left, true) => (MacMouseEvent::LeftDown, None),
        (MouseButton::Left, false) => (MacMouseEvent::LeftUp, None),
        (MouseButton::Right, true) => (MacMouseEvent::RightDown, None),
        (MouseButton::Right, false) => (MacMouseEvent::RightUp, None),
        (MouseButton::Middle, true) => (MacMouseEvent::OtherDown, None),
        (MouseButton::Middle, false) => (MacMouseEvent::OtherUp, None),
        (MouseButton::Back, true) => (MacMouseEvent::OtherDown, Some(3)),
        (MouseButton::Back, false) => (MacMouseEvent::OtherUp, Some(3)),
        (MouseButton::Forward, true) => (MacMouseEvent::OtherDown, Some(4)),
        (MouseButton::Forward, false) => (MacMouseEvent::OtherUp, Some(4)),
    }
}

} // verus!
