//! Capturing the mouse and keyboard of a Mac.
//!
//! The event tap hands every local event to a [`MacCapture`], which answers with
//! a [`Plan`]: what to do with the cursor, what to send, and whether the event
//! is dropped. Where the answer depends on whether a send succeeds, the plan
//! waits for it, and [`MacCapture::resume`] goes on from there.
//!
//! While another machine is controlled the cursor is decoupled from the mouse,
//! hidden, and held at an anchor.

use crate::active::{
    crossing_from, crossing_lands, crossing_target_with_transform, echo_of_anchoring,
    find_crossed, follow, followed, hotkey_return_point, is_sound, local_hotkey_return_point,
    local_return_point, local_y_bounds, mirror, mirrored, move_event, park_event,
    remote_cursor_park, remote_mouse_move, return_point, rows_of,
    should_ignore_initial_anchor_warp_delta, sound, wire_screens, ActiveTarget, ActiveView,
};
use crate::clipboard_target::{
    clipboard_view, controlled_clipboard, set_control_clipboard_target, ClipboardTarget,
    ClipboardTargetView,
};
use crate::double::{absolute, difference, half, negated, Double};
use crate::edge::Point;
use crate::held::{
    button_releases, event_views, holds_key, key_releases, keys_after,
    law_every_held_button_is_released, law_every_held_key_is_released, move_due,
    release_forwarded_keys, release_remote_buttons, should_send_mouse_move, track_forwarded_key,
    update_remote_button_mask,
};
use crate::hotkeys::{screen_switch_hotkey_matches_vk, switches, HotkeyModifiers};
use crate::keys::{mac_key_to_windows_vk, vk_of_mac_key};
use crate::layout::LayoutState;
use crate::mac_inject::{FLAG_ALTERNATE, FLAG_COMMAND, FLAG_CONTROL, FLAG_SHIFT};
use crate::platform::Platform;
use crate::recency::{age, elapsed};
use crate::shared_input::{held, with_button, EventView, InputEvent, MouseButton};
use crate::switch::{
    point_or, points_left, remembered_local_screen_point, request_screen_switch_from_point,
    switched, OutcomeView, ScreenPoints, SwitchDirection, SwitchOutcome,
};
use crate::targets::{target_views, InputTarget, TargetView};
use vstd::prelude::*;

verus! {

// ---------------------------------------------------------------------------
// Flags
// ---------------------------------------------------------------------------
/// Whether a flag is set.
pub open spec fn has_flag(flags: u64, flag: u64) -> bool {
    flags & flag != 0
}

/// The key that a flag stands for, where it is set.
pub open spec fn key_of_flag(flags: u64, flag: u64, vk: u16) -> Seq<u16> {
    if has_flag(flags, flag) {
        seq![vk]
    } else {
        Seq::empty()
    }
}

/// The modifiers that are held, as virtual keys.
pub open spec fn modifier_vks(flags: u64) -> Seq<u16> {
    key_of_flag(flags, FLAG_SHIFT, 0x10) + key_of_flag(flags, FLAG_CONTROL, 0x11) + key_of_flag(
        flags,
        FLAG_ALTERNATE,
        0x12,
    ) + key_of_flag(flags, FLAG_COMMAND, 0x5B)
}

pub fn mac_modifier_vks(flags: u64) -> (r: Vec<u16>)
    ensures
        r@ == modifier_vks(flags),
{
    let mut keys: Vec<u16> = Vec::new();
    if flags & FLAG_SHIFT != 0 {
        keys.push(0x10);
    }
    if flags & FLAG_CONTROL != 0 {
        keys.push(0x11);
    }
    if flags & FLAG_ALTERNATE != 0 {
        keys.push(0x12);
    }
    if flags & FLAG_COMMAND != 0 {
        keys.push(0x5B);
    }
    assert(keys@ =~= modifier_vks(flags));
    keys
}

/// The modifiers of a chord that are held.
pub open spec fn chord_modifiers(flags: u64) -> HotkeyModifiers {
    HotkeyModifiers {
        ctrl: has_flag(flags, FLAG_CONTROL),
        alt: has_flag(flags, FLAG_ALTERNATE),
        shift: has_flag(flags, FLAG_SHIFT),
        meta: has_flag(flags, FLAG_COMMAND),
    }
}

/// Whether a key asks for another screen.
pub open spec fn is_hotkey(layout: LayoutState, mac_code: u16, flags: u64) -> bool {
    vk_of_mac_key(mac_code) matches Some(vk) && switches(layout, vk, chord_modifiers(flags))
}

pub fn macos_event_matches_screen_switch_hotkey(
    layout: &LayoutState,
    mac_code: u16,
    flags: u64,
) -> (r: bool)
    ensures
        r == is_hotkey(*layout, mac_code, flags),
{
    let key_code: u16 = match mac_key_to_windows_vk(mac_code) {
        Some(key_code) => key_code,
        None => {
            return false;
        },
    };
    let modifiers = HotkeyModifiers {
        ctrl: flags & FLAG_CONTROL != 0,
        alt: flags & FLAG_ALTERNATE != 0,
        shift: flags & FLAG_SHIFT != 0,
        meta: flags & FLAG_COMMAND != 0,
    };
    screen_switch_hotkey_matches_vk(layout, key_code, modifiers)
}

/// The Mac key that locks capitals.
pub const MAC_KEY_CAPS_LOCK: u16 = 57;

/// The keys of one list that another one lacks, each going down or up.
pub open spec fn key_changes(keys: Seq<u16>, lacking: Seq<u16>, down: bool) -> Seq<EventView>
    decreases keys.len(),
{
    if keys.len() == 0 {
        Seq::empty()
    } else {
        let before = key_changes(keys.drop_last(), lacking, down);
        if lacking.contains(keys.last()) {
            before
        } else {
            before.push(EventView::Key { key_code: keys.last(), down })
        }
    }
}

fn changed_keys(keys: &Vec<u16>, lacking: &Vec<u16>, down: bool) -> (r: Vec<InputEvent>)
    ensures
        event_views(r@) == key_changes(keys@, lacking@, down),
{
    let mut events: Vec<InputEvent> = Vec::new();
    let mut i: usize = 0;
    assert(event_views(events@) =~= Seq::<EventView>::empty());
    while i < keys.len()
        invariant
            i <= keys.len(),
            event_views(events@) == key_changes(keys@.take(i as int), lacking@, down),
        decreases keys.len() - i,
    {
        assert(keys@.take(i + 1).drop_last() =~= keys@.take(i as int));
        let ghost before = events@;
        if !holds_key(lacking, keys[i]) {
            events.push(InputEvent::Key { key_code: keys[i], down });
            assert(event_views(events@) =~= event_views(before).push(
                EventView::Key { key_code: keys@[i as int], down },
            ));
        }
        i = i + 1;
    }
    assert(keys@.take(keys.len() as int) =~= keys@);
    events
}

// ---------------------------------------------------------------------------
// The run loop
// ---------------------------------------------------------------------------
pub const MACOS_IDLE_CAPTURE_LOOP_MS: u64 = 100;

pub const MACOS_VISIBLE_REMOTE_CAPTURE_LOOP_MS: u64 = 16;

pub const MACOS_HIDDEN_REMOTE_CAPTURE_LOOP_MS: u64 = 50;

/// How long the run loop waits at most, in milliseconds.
pub fn macos_capture_loop_ms(remote_active: bool, main_window_visible: bool) -> (r: u64)
    ensures
        r == if !remote_active {
            MACOS_IDLE_CAPTURE_LOOP_MS
        } else if main_window_visible {
            MACOS_VISIBLE_REMOTE_CAPTURE_LOOP_MS
        } else {
            MACOS_HIDDEN_REMOTE_CAPTURE_LOOP_MS
        },
{
    if !remote_active {
        return MACOS_IDLE_CAPTURE_LOOP_MS;
    }
    if main_window_visible {
        MACOS_VISIBLE_REMOTE_CAPTURE_LOOP_MS
    } else {
        MACOS_HIDDEN_REMOTE_CAPTURE_LOOP_MS
    }
}

/// Whether the application has to be kept from napping, or may nap again; what
/// is in force already is left alone.
pub fn app_nap_change(suppressed: bool, remote_active: bool) -> (r: Option<bool>)
    ensures
        r == if suppressed != remote_active {
            Some(remote_active)
        } else {
            None
        },
{
    if suppressed != remote_active {
        Some(remote_active)
    } else {
        None
    }
}

/// The types of the events that trackpads and the system send besides mouse and
/// keyboard events.
pub open spec fn raw_gesture_types() -> Seq<u32> {
    seq![14, 18, 19, 20, 29, 30, 31, 32, 33, 34, 37, 38]
}

pub fn macos_raw_gesture_event_types() -> (r: [u32; 12])
    ensures
        r@ == raw_gesture_types(),
{
    let types: [u32; 12] = [14, 18, 19, 20, 29, 30, 31, 32, 33, 34, 37, 38];
    assert(types@ =~= raw_gesture_types());
    types
}

/// The mask with a bit for each of the first `n` types of a list.
pub open spec fn mask_of(types: Seq<u32>, n: nat) -> u64
    decreases n,
{
    if n == 0 {
        0
    } else {
        mask_of(types, (n - 1) as nat) | (1u64 << (types[n - 1] as u64))
    }
}

/// The mask of the events that are tapped raw.
pub fn macos_raw_gesture_event_mask() -> (r: u64)
    ensures
        r == mask_of(raw_gesture_types(), raw_gesture_types().len()),
        forall|i: int|
            0 <= i < raw_gesture_types().len() ==> r & (1u64 << (
            #[trigger] raw_gesture_types()[i] as u64)) != 0,
{
    let types = macos_raw_gesture_event_types();
    let mut mask: u64 = 0;
    let mut i: usize = 0;
    while i < 12
        invariant
            i <= 12,
            types@ == raw_gesture_types(),
            mask == mask_of(raw_gesture_types(), i as nat),
            forall|j: int|
                0 <= j < i ==> mask & (1u64 << (#[trigger] raw_gesture_types()[j] as u64)) != 0,
        decreases 12 - i,
    {
        assert(types[i as int] < 64);
        let bit: u64 = 1u64 << (types[i] as u64);
        let ghost kind = types@[i as int] as u64;
        proof {
            assert forall|j: int| 0 <= j < i + 1 implies (mask | bit) & (1u64 << (
            #[trigger] raw_gesture_types()[j] as u64)) != 0 by {
                let other = 1u64 << (raw_gesture_types()[j] as u64);
                if j < i {
                    assert(mask & other != 0 ==> (mask | bit) & other != 0) by (bit_vector);
                } else {
                    assert((mask | (1u64 << kind)) & (1u64 << kind) != 0) by (bit_vector)
                        requires
                            kind < 64,
                    ;
                }
            }
        }
        mask = mask | bit;
        i = i + 1;
    }
    mask
}

/// A raw event that says that the tap was disabled.
pub const MACOS_RAW_EVENT_TAP_DISABLED_BY_TIMEOUT: u32 = 0xFFFF_FFFE;

pub const MACOS_RAW_EVENT_TAP_DISABLED_BY_USER_INPUT: u32 = 0xFFFF_FFFF;

/// A display, by its number and its corners.
#[derive(Debug, Clone, Copy, PartialEq, Eq, Structural)]
pub struct MacDisplaySnapshot {
    pub id: u32,
    pub origin: Point,
    pub max: Point,
}

/// Whether a display holds a position.
pub open spec fn shows(display: MacDisplaySnapshot, p: Point) -> bool {
    &&& display.origin.x.at_most(p.x)
    &&& p.x.at_most(display.max.x)
    &&& display.origin.y.at_most(p.y)
    &&& p.y.at_most(display.max.y)
}

/// The displays that hold a position, each with the position on it.
pub open spec fn placements(displays: Seq<MacDisplaySnapshot>, p: Point) -> Seq<(u32, Point)>
    decreases displays.len(),
{
    if displays.len() == 0 {
        Seq::empty()
    } else {
        let before = placements(displays.drop_last(), p);
        let display = displays.last();
        if shows(display, p) {
            before.push(
                (
                    display.id,
                    Point {
                        x: difference(p.x, display.origin.x),
                        y: difference(p.y, display.origin.y),
                    },
                ),
            )
        } else {
            before
        }
    }
}

/// Where the cursor can be moved to by display, in the order in which that is
/// tried.
pub fn cursor_placements(displays: &Vec<MacDisplaySnapshot>, p: Point) -> (r: Vec<(u32, Point)>)
    ensures
        r@ == placements(displays@, p),
{
    let mut found: Vec<(u32, Point)> = Vec::new();
    let mut i: usize = 0;
    assert(found@ =~= Seq::<(u32, Point)>::empty());
    while i < displays.len()
        invariant
            i <= displays.len(),
            found@ == placements(displays@.take(i as int), p),
        decreases displays.len() - i,
    {
        assert(displays@.take(i + 1).drop_last() =~= displays@.take(i as int));
        let display = displays[i];
        if display.origin.x.less_or_equal(p.x) && p.x.less_or_equal(display.max.x)
            && display.origin.y.less_or_equal(p.y) && p.y.less_or_equal(display.max.y) {
            found.push(
                (
                    display.id,
                    Point { x: p.x.minus(display.origin.x), y: p.y.minus(display.origin.y) },
                ),
            );
        }
        i = i + 1;
    }
    assert(displays@.take(displays.len() as int) =~= displays@);
    found
}

// ---------------------------------------------------------------------------
// Plans
// ---------------------------------------------------------------------------
/// One thing to do.
#[derive(Debug)]
pub enum Action {
    /// Send an event to the plan's target; whether that succeeds does not
    /// matter.
    Send(InputEvent),
    /// Take the cursor off the mouse, or put it back on.
    Decouple(bool),
    /// Let macOS ignore the mouse for a moment after the cursor is moved, or
    /// not.
    SuppressAfterWarps(bool),
    MoveCursor(Point),
    /// Put a cursor in place that shows nothing.
    PushBlankCursor,
    PopBlankCursor,
    /// Set the cursor that shows nothing again.
    RefreshBlankCursor,
    /// Hide the cursor once more.
    Hide,
    /// Show the cursor as often as it was hidden.
    Show { times: u64 },
}

/// The same, as texts and numbers.
pub enum ActionView {
    Send(EventView),
    Decouple(bool),
    SuppressAfterWarps(bool),
    MoveCursor(Point),
    PushBlankCursor,
    PopBlankCursor,
    RefreshBlankCursor,
    Hide,
    Show { times: u64 },
}

impl View for Action {
    type V = ActionView;

    open spec fn view(&self) -> ActionView {
        match self {
            Action::Send(event) => ActionView::Send(event@),
            Action::Decouple(decoupled) => ActionView::Decouple(*decoupled),
            Action::SuppressAfterWarps(suppress) => ActionView::SuppressAfterWarps(*suppress),
            Action::MoveCursor(p) => ActionView::MoveCursor(*p),
            Action::PushBlankCursor => ActionView::PushBlankCursor,
            Action::PopBlankCursor => ActionView::PopBlankCursor,
            Action::RefreshBlankCursor => ActionView::RefreshBlankCursor,
            Action::Hide => ActionView::Hide,
            Action::Show { times } => ActionView::Show { times: *times },
        }
    }
}

/// Why a plan waits for a send.
#[derive(Debug)]
pub enum Pending {
    /// The remote cursor moved, with the local one there.
    Moved { location: Point },
    /// An edge is being crossed.
    Crossing { active: ActiveTarget, anchor: Point },
    /// A remote screen is being entered by hotkey.
    Entering { active: ActiveTarget, anchor: Point, return_point: Option<Point> },
    /// The cursor is brought to where a button goes down or up.
    BeforeButton { button: MouseButton, down: bool },
    Button { button: MouseButton, down: bool },
    /// The cursor is brought to where a wheel turns.
    BeforeScroll { delta_x: i32, delta_y: i32 },
    Scroll,
    Key { key_code: u16, down: bool },
}

/// The same, as texts and numbers.
pub enum PendingView {
    Moved { location: Point },
    Crossing { active: ActiveView, anchor: Point },
    Entering { active: ActiveView, anchor: Point, return_point: Option<Point> },
    BeforeButton { button: MouseButton, down: bool },
    Button { button: MouseButton, down: bool },
    BeforeScroll { delta_x: i32, delta_y: i32 },
    Scroll,
    Key { key_code: u16, down: bool },
}

impl View for Pending {
    type V = PendingView;

    open spec fn view(&self) -> PendingView {
        match self {
            Pending::Moved { location } => PendingView::Moved { location: *location },
            Pending::Crossing { active, anchor } => PendingView::Crossing {
                active: active@,
                anchor: *anchor,
            },
            Pending::Entering { active, anchor, return_point } => PendingView::Entering {
                active: active@,
                anchor: *anchor,
                return_point: *return_point,
            },
            Pending::BeforeButton { button, down } => PendingView::BeforeButton {
                button: *button,
                down: *down,
            },
            Pending::Button { button, down } => PendingView::Button { button: *button, down: *down },
            Pending::BeforeScroll { delta_x, delta_y } => PendingView::BeforeScroll {
                delta_x: *delta_x,
                delta_y: *delta_y,
            },
            Pending::Scroll => PendingView::Scroll,
            Pending::Key { key_code, down } => PendingView::Key { key_code: *key_code, down: *down },
        }
    }
}

/// How a plan ends.
#[derive(Debug)]
pub enum Next {
    /// It is over; the local event is dropped or kept.
    Done { dropped: bool },
    /// An event is sent to the plan's target, and whether that succeeds is
    /// handed to `resume`.
    Await { event: InputEvent, pending: Pending },
}

/// The same, as texts and numbers.
pub enum NextView {
    Done { dropped: bool },
    Await { event: EventView, pending: PendingView },
}

impl View for Next {
    type V = NextView;

    open spec fn view(&self) -> NextView {
        match self {
            Next::Done { dropped } => NextView::Done { dropped: *dropped },
            Next::Await { event, pending } => NextView::Await { event: event@, pending: pending@ },
        }
    }
}

/// What to do about a local event, in this order.
#[derive(Debug)]
pub struct Plan {
    /// Where sends go.
    pub to: Option<InputTarget>,
    pub actions: Vec<Action>,
    pub next: Next,
}

/// The same, as texts and numbers.
pub struct PlanView {
    pub to: Option<TargetView>,
    pub actions: Seq<ActionView>,
    pub next: NextView,
}

/// What a list of actions says.
pub open spec fn action_views(actions: Seq<Action>) -> Seq<ActionView> {
    actions.map_values(|action: Action| action@)
}

impl View for Plan {
    type V = PlanView;

    open spec fn view(&self) -> PlanView {
        PlanView {
            to: match self.to {
                Some(target) => Some(target@),
                None => None,
            },
            actions: action_views(self.actions@),
            next: self.next@,
        }
    }
}

/// The actions that send a list of events.
pub open spec fn sends(events: Seq<EventView>) -> Seq<ActionView> {
    events.map_values(|event: EventView| ActionView::Send(event))
}

/// A plan that does nothing.
pub open spec fn nothing(dropped: bool) -> PlanView {
    PlanView { to: None, actions: Seq::empty(), next: NextView::Done { dropped } }
}

fn idle(dropped: bool) -> (r: Plan)
    ensures
        r@ == nothing(dropped),
{
    let plan = Plan { to: None, actions: Vec::new(), next: Next::Done { dropped } };
    assert(plan@.actions =~= Seq::<ActionView>::empty());
    plan
}

fn no_actions() -> (r: Vec<Action>)
    ensures
        action_views(r@) == Seq::<ActionView>::empty(),
{
    let actions: Vec<Action> = Vec::new();
    assert(action_views(actions@) =~= Seq::<ActionView>::empty());
    actions
}

fn add(actions: &mut Vec<Action>, action: Action)
    ensures
        action_views(final(actions)@) == action_views(old(actions)@).push(action@),
{
    actions.push(action);
    assert(action_views(actions@) =~= action_views(old(actions)@).push(action@));
}

fn push_sends(actions: &mut Vec<Action>, events: Vec<InputEvent>)
    ensures
        action_views(final(actions)@) == action_views(old(actions)@) + sends(event_views(events@)),
{
    let ghost all = event_views(events@);
    let mut rest = events;
    let ghost mut done: int = 0;
    assert(all.skip(0) =~= all);
    assert(action_views(actions@) =~= action_views(old(actions)@) + sends(all.take(0)));
    while rest.len() > 0
        invariant
            0 <= done <= all.len(),
            event_views(rest@) == all.skip(done),
            action_views(actions@) == action_views(old(actions)@) + sends(all.take(done)),
        decreases rest.len(),
    {
        let ghost before = actions@;
        let ghost left = rest@;
        let event = rest.remove(0);
        proof {
            assert(event_views(left).len() == left.len());
            assert(event_views(left)[0] == left[0]@);
            assert(all.skip(done)[0] == all[done]);
            assert forall|j: int| 0 <= j < rest.len() implies event_views(rest@)[j] == all.skip(
                done + 1,
            )[j] by {
                assert(event_views(left)[j + 1] == left[j + 1]@);
                assert(all.skip(done)[j + 1] == all[done + 1 + j]);
            }
            assert(event_views(rest@) =~= all.skip(done + 1));
        }
        self::add(actions, Action::Send(event));
        proof {
            assert(sends(all.take(done + 1)) =~= sends(all.take(done)).push(
                ActionView::Send(all[done]),
            ));
            assert(action_views(actions@) =~= action_views(old(actions)@) + sends(
                all.take(done + 1),
            ));
            done = done + 1;
        }
    }
    assert(event_views(rest@).len() == 0);
    assert(all.take(done) =~= all);
}

// ---------------------------------------------------------------------------
// The capture
// ---------------------------------------------------------------------------
/// How long after coming home no edge is crossed, in nanoseconds.
pub const RETURN_COOLDOWN: u64 = 150_000_000;

/// How far apart the cursor is put back at least, in nanoseconds.
pub const REPIN_INTERVAL: u64 = 8_000_000;

/// How far apart hiding is insisted on at least, in nanoseconds.
pub const HIDE_REASSERT_INTERVAL: u64 = 250_000_000;

/// What the tap remembers between events.
#[derive(Debug)]
pub struct MacCapture {
    /// The remote screen that is being controlled.
    pub active: Option<ActiveTarget>,
    pub remote_active: bool,
    pub clipboard_target: Option<ClipboardTarget>,
    /// Where the local cursor is held while another machine is controlled.
    pub anchor: Option<Point>,
    pub cursor_hidden: bool,
    /// How often the cursor was hidden.
    pub cursor_hide_depth: u64,
    pub last_cursor_hide_reassert: Option<u64>,
    pub last_mouse_move_sent: Option<u64>,
    pub last_cursor_repin: Option<u64>,
    /// When control last came home.
    pub last_return: Option<u64>,
    pub remote_button_mask: u64,
    pub pressed_modifiers: Vec<u16>,
    pub pressed_keys: Vec<u16>,
    /// Whether macOS disabled the tap.
    pub tap_disabled: bool,
    pub just_crossed: bool,
    pub suppress_next_mouse_delta: bool,
    /// Where the cursor was when a hotkey took it away.
    pub hotkey_return_point: Option<Point>,
    pub local_screen_points: ScreenPoints,
    /// The rows of the local screens when the capture started.
    pub local_y_bounds: Option<(i64, i64)>,
}

/// The same, as texts and numbers.
pub struct MacView {
    pub active: Option<ActiveView>,
    pub remote_active: bool,
    pub clipboard_target: Option<ClipboardTargetView>,
    pub anchor: Option<Point>,
    pub cursor_hidden: bool,
    pub hide_depth: u64,
    pub last_reassert: Option<u64>,
    pub last_mouse_move_sent: Option<u64>,
    pub last_repin: Option<u64>,
    pub last_return: Option<u64>,
    pub buttons: u64,
    pub modifiers: Seq<u16>,
    pub keys: Seq<u16>,
    pub tap_disabled: bool,
    pub just_crossed: bool,
    pub suppress_next: bool,
    pub hotkey_return_point: Option<Point>,
    pub points: Map<Seq<char>, Point>,
    pub rows: Option<(int, int)>,
}

impl View for MacCapture {
    type V = MacView;

    open spec fn view(&self) -> MacView {
        MacView {
            active: match self.active {
                Some(active) => Some(active@),
                None => None,
            },
            remote_active: self.remote_active,
            clipboard_target: clipboard_view(self.clipboard_target),
            anchor: self.anchor,
            cursor_hidden: self.cursor_hidden,
            hide_depth: self.cursor_hide_depth,
            last_reassert: self.last_cursor_hide_reassert,
            last_mouse_move_sent: self.last_mouse_move_sent,
            last_repin: self.last_cursor_repin,
            last_return: self.last_return,
            buttons: self.remote_button_mask,
            modifiers: self.pressed_modifiers@,
            keys: self.pressed_keys@,
            tap_disabled: self.tap_disabled,
            just_crossed: self.just_crossed,
            suppress_next: self.suppress_next_mouse_delta,
            hotkey_return_point: self.hotkey_return_point,
            points: self.local_screen_points@,
            rows: match self.local_y_bounds {
                Some((top, bottom)) => Some((top as int, bottom as int)),
                None => None,
            },
        }
    }
}

/// The largest distance from the anchor that counts as being there.
pub open spec fn drift_threshold() -> Double {
    Double { bits: 0x3ff8_0000_0000_0000 }
}

/// Whether the cursor is away from its anchor.
pub open spec fn drifted(anchor: Point, location: Point) -> bool {
    !(absolute(difference(location.x, anchor.x)).at_most(drift_threshold()) && absolute(
        difference(location.y, anchor.y),
    ).at_most(drift_threshold()))
}

/// Whether something may happen again, given when it last did.
pub open spec fn due_again(last: Option<u64>, now: u64, interval: u64) -> bool {
    !(last matches Some(at) && age(now, at) < interval)
}

fn is_due_again(last: Option<u64>, now: u64, interval: u64) -> (r: bool)
    ensures
        r == due_again(last, now, interval),
{
    match last {
        Some(at) => elapsed(now, at) >= interval,
        None => true,
    }
}

/// The rows of the local screens: those of the targets, or else those known
/// from the start.
pub open spec fn rows_or(targets: Seq<TargetView>, rows: Option<(int, int)>) -> Option<(int, int)> {
    match rows_of(targets, targets.len()) {
        Some(rows) => Some(rows),
        None => rows,
    }
}

/// Where the cursor goes for a position: mirrored where vertical movement
/// arrives upside down.
pub open spec fn cursor_point(
    p: Point,
    invert_y: bool,
    targets: Seq<TargetView>,
    rows: Option<(int, int)>,
) -> Point {
    match rows_or(targets, rows) {
        Some(rows) if invert_y => Point { x: p.x, y: mirrored(rows, p.y) },
        _ => p,
    }
}

/// The crossing of an edge, with the vertical axis as it is or else mirrored.
pub open spec fn mac_crossing(
    targets: Seq<TargetView>,
    rows: Option<(int, int)>,
    p: Point,
    d: Point,
) -> Option<ActiveView> {
    match crossing_from(targets, 0, p, d, false) {
        Some(a) => Some(a),
        None => match rows_or(targets, rows) {
            None => None,
            Some(rows) => {
                let flipped = mirrored(rows, p.y);
                if absolute(difference(flipped, p.y)).below(half()) {
                    None
                } else {
                    crossing_from(
                        targets,
                        0,
                        Point { x: p.x, y: flipped },
                        Point { x: d.x, y: negated(d.y) },
                        true,
                    )
                }
            },
        },
    }
}

/// What the system says about the moment that an event arrives in.
#[derive(Debug, Clone, Copy, PartialEq, Eq, Structural)]
pub struct Moment {
    /// Where the cursor is, if that is known.
    pub cursor: Option<Point>,
    pub main_window_visible: bool,
    pub now: u64,
}

impl MacView {
    /// What always holds: this machine counts as controlling another exactly
    /// while there is a screen that it controls, and no button is held there
    /// otherwise.
    pub open spec fn well_formed(self) -> bool {
        &&& self.remote_active == (self.active is Some)
        &&& self.active matches Some(a) ==> sound(a)
        &&& self.active is None ==> self.buttons == 0
    }

    /// Whether the capture waits for the result of a send in this way.
    pub open spec fn waits_for(self, pending: PendingView) -> bool {
        match pending {
            PendingView::Crossing { active, .. } => self.active is None && sound(active),
            PendingView::Entering { active, .. } => self.active is None && sound(active),
            _ => self.active is Some,
        }
    }

    pub open spec fn target(self) -> Option<TargetView> {
        match self.active {
            Some(a) => Some(a.target),
            None => None,
        }
    }

    /// One more hiding of the cursor.
    pub open spec fn deeper(self) -> MacView {
        MacView {
            hide_depth: if self.hide_depth == u64::MAX {
                u64::MAX
            } else {
                (self.hide_depth + 1) as u64
            },
            ..self
        }
    }

    /// The cursor is hidden, if it is not.
    pub open spec fn hid(self) -> (MacView, Seq<ActionView>) {
        if self.cursor_hidden {
            (self, Seq::empty())
        } else {
            (
                MacView { cursor_hidden: true, last_reassert: None, ..self.deeper() },
                seq![ActionView::PushBlankCursor, ActionView::Hide],
            )
        }
    }

    /// The cursor is shown, if it is hidden.
    pub open spec fn showed(self) -> (MacView, Seq<ActionView>) {
        if self.cursor_hidden {
            (
                MacView { cursor_hidden: false, last_reassert: None, hide_depth: 0, ..self },
                seq![
                    ActionView::PopBlankCursor,
                    ActionView::Show { times: self.hide_depth },
                ],
            )
        } else {
            (self, Seq::empty())
        }
    }

    /// The cursor is put back to its anchor where it drifted, not too often.
    pub open spec fn repinned(self, location: Point, now: u64) -> (MacView, Seq<ActionView>, bool) {
        match self.anchor {
            Some(anchor) if drifted(anchor, location) && due_again(
                self.last_repin,
                now,
                REPIN_INTERVAL,
            ) => (
                MacView { last_repin: Some(now), ..self },
                seq![ActionView::Decouple(true), ActionView::MoveCursor(anchor)],
                true,
            ),
            _ => (self, Seq::empty(), false),
        }
    }

    /// Hiding is insisted on while the window is out of sight, not too often.
    pub open spec fn reasserted(self, blank_now: bool, now: u64) -> (MacView, Seq<ActionView>) {
        let refresh = if blank_now {
            seq![ActionView::RefreshBlankCursor]
        } else {
            Seq::empty()
        };
        if !self.cursor_hidden {
            (self, Seq::empty())
        } else if due_again(self.last_reassert, now, HIDE_REASSERT_INTERVAL) {
            (
                MacView { last_reassert: Some(now), ..self.deeper() },
                refresh + seq![ActionView::RefreshBlankCursor, ActionView::Hide],
            )
        } else {
            (self, refresh)
        }
    }

    /// The cursor is kept off the mouse, at its anchor and out of sight.
    pub open spec fn guarded(self, moment: Moment) -> (MacView, Seq<ActionView>) {
        let off = seq![ActionView::Decouple(true)];
        match moment.cursor {
            Some(location) => {
                let (pinned, back, moved) = self.repinned(location, moment.now);
                if moment.main_window_visible {
                    (pinned, off + back)
                } else {
                    let (state, hiding) = pinned.reasserted(moved, moment.now);
                    (state, off + back + hiding)
                }
            },
            None => if moment.main_window_visible {
                (self, off)
            } else {
                let back = match self.anchor {
                    Some(anchor) => seq![ActionView::MoveCursor(anchor)],
                    None => Seq::empty(),
                };
                let (state, hiding) = self.reasserted(true, moment.now);
                (state, off + back + hiding)
            },
        }
    }

    /// A local event is dropped while another machine is controlled.
    pub open spec fn kept_away(self, before: Seq<ActionView>, moment: Moment) -> (
        MacView,
        PlanView,
    ) {
        let (state, guard) = self.guarded(moment);
        (
            state,
            PlanView {
                to: if before.len() > 0 {
                    self.target()
                } else {
                    None
                },
                actions: before + guard,
                next: NextView::Done { dropped: true },
            },
        )
    }

    /// Letting go of everything that is held down on the controlled machine.
    pub open spec fn releasing(self) -> Seq<ActionView> {
        sends(key_releases(self.modifiers)) + sends(key_releases(self.keys)) + sends(
            button_releases(self.buttons),
        )
    }

    /// Control comes home from a screen, with the local cursor there.
    pub open spec fn came_home(self, from: ActiveView, at: Point, now: u64) -> (MacView, PlanView) {
        let left = MacView {
            active: None,
            remote_active: false,
            just_crossed: false,
            suppress_next: false,
            last_return: Some(now),
            modifiers: Seq::empty(),
            keys: Seq::empty(),
            buttons: 0,
            last_mouse_move_sent: None,
            last_repin: None,
            anchor: None,
            ..self
        };
        let (state, showing) = left.showed();
        (
            state,
            PlanView {
                to: Some(from.target),
                actions: sends(seq![park_event(from)]) + self.releasing() + seq![
                    ActionView::SuppressAfterWarps(false),
                    ActionView::MoveCursor(at),
                    ActionView::Decouple(false),
                    ActionView::SuppressAfterWarps(true),
                ] + showing,
                next: NextView::Done { dropped: true },
            },
        )
    }

    /// Giving the cursor back to the user after a failure.
    pub open spec fn giving_back(self) -> (MacView, Seq<ActionView>) {
        let (state, showing) = self.showed();
        (
            state,
            seq![ActionView::SuppressAfterWarps(true), ActionView::Decouple(false)] + showing,
        )
    }

    /// The controlled machine cannot be reached any more.
    pub open spec fn lost(self) -> (MacView, PlanView) {
        let left = MacView {
            active: None,
            remote_active: false,
            just_crossed: false,
            suppress_next: false,
            clipboard_target: None,
            last_mouse_move_sent: None,
            last_repin: None,
            buttons: 0,
            modifiers: Seq::empty(),
            anchor: None,
            ..self
        };
        let (state, actions) = left.giving_back();
        (state, PlanView { to: None, actions, next: NextView::Done { dropped: false } })
    }

    /// The remote cursor was moved; the local one is looked after.
    pub open spec fn settled(self, location: Point, moment: Moment) -> (MacView, PlanView) {
        let (pinned, back, moved) = self.repinned(location, moment.now);
        let (state, hiding) = if moved && !moment.main_window_visible {
            pinned.reasserted(true, moment.now)
        } else {
            (pinned, Seq::empty())
        };
        (
            state,
            PlanView { to: None, actions: back + hiding, next: NextView::Done { dropped: true } },
        )
    }

    /// The mouse moved while another machine is controlled.
    pub open spec fn moved_there(
        self,
        a: ActiveView,
        location: Point,
        d: Point,
        targets: Seq<TargetView>,
        layout: LayoutState,
        moment: Moment,
    ) -> (MacView, PlanView) {
        let turned = Point {
            x: d.x,
            y: if a.invert_y {
                negated(d.y)
            } else {
                d.y
            },
        };
        if self.suppress_next {
            let (state, back, _) = MacView { suppress_next: false, ..self }.repinned(
                location,
                moment.now,
            );
            (
                state,
                PlanView { to: None, actions: back, next: NextView::Done { dropped: true } },
            )
        } else if self.just_crossed && echo_of_anchoring(a.target.edge, turned) {
            (MacView { just_crossed: false, ..self }, nothing(true))
        } else {
            let steady = MacView { just_crossed: false, ..self };
            let (moved, home) = followed(a, turned, wire_screens(layout, a.target.device_id));
            if home {
                steady.came_home(
                    moved,
                    cursor_point(return_point(moved), moved.invert_y, targets, self.rows),
                    moment.now,
                )
            } else if move_due(self.last_mouse_move_sent, self.buttons != 0, moment.now) {
                (
                    MacView {
                        active: Some(moved),
                        last_mouse_move_sent: Some(moment.now),
                        ..steady
                    },
                    PlanView {
                        to: Some(moved.target),
                        actions: Seq::empty(),
                        next: NextView::Await {
                            event: move_event(moved),
                            pending: PendingView::Moved { location },
                        },
                    },
                )
            } else {
                MacView { active: Some(moved), ..steady }.settled(location, moment)
            }
        }
    }

    /// Asking a remote screen to take the cursor over an edge.
    pub open spec fn crossing(self, a: ActiveView, targets: Seq<TargetView>) -> (MacView, PlanView) {
        let anchor = cursor_point(return_point(a), a.invert_y, targets, self.rows);
        let (state, hiding) = self.hid();
        (
            state,
            PlanView {
                to: Some(a.target),
                actions: seq![
                    ActionView::Decouple(true),
                    ActionView::SuppressAfterWarps(false),
                ] + hiding + seq![ActionView::MoveCursor(anchor)],
                next: NextView::Await {
                    event: move_event(a),
                    pending: PendingView::Crossing { active: a, anchor },
                },
            },
        )
    }

    /// Whether a movement of the mouse crosses no edge, or lands where there are
    /// pixels and can come home from there.
    pub open spec fn move_fits(
        self,
        location: Point,
        d: Point,
        targets: Seq<TargetView>,
        now: u64,
    ) -> bool {
        self.active is Some || !due_again(self.last_return, now, RETURN_COOLDOWN) || (mac_crossing(
            targets,
            self.rows,
            location,
            d,
        ) matches Some(a) ==> sound(a))
    }

    /// The mouse moved while this machine is at home.
    pub open spec fn moved_here(
        self,
        location: Point,
        d: Point,
        targets: Seq<TargetView>,
        now: u64,
    ) -> (MacView, PlanView) {
        if !due_again(self.last_return, now, RETURN_COOLDOWN) {
            (self, nothing(false))
        } else {
            match mac_crossing(targets, self.rows, location, d) {
                None => (self, nothing(false)),
                Some(a) => self.crossing(a, targets),
            }
        }
    }

    /// The mouse moved by `d`, with the cursor there.
    pub open spec fn moved(
        self,
        location: Point,
        d: Point,
        targets: Seq<TargetView>,
        layout: LayoutState,
        moment: Moment,
    ) -> (MacView, PlanView) {
        match self.active {
            Some(a) => self.moved_there(a, location, d, targets, layout, moment),
            None => self.moved_here(location, d, targets, moment.now),
        }
    }

    /// A remote screen took the cursor.
    pub open spec fn controlling(self, a: ActiveView, anchor: Point, layout: LayoutState) -> MacView {
        MacView {
            active: Some(a),
            remote_active: true,
            clipboard_target: controlled_clipboard(
                self.clipboard_target,
                layout,
                a.target.device_id,
            ),
            anchor: Some(anchor),
            last_mouse_move_sent: None,
            last_repin: None,
            buttons: 0,
            ..self
        }
    }

    /// A remote screen did not take the cursor.
    pub open spec fn not_entered(self, by_hotkey: bool) -> (MacView, PlanView) {
        let left = MacView {
            last_mouse_move_sent: None,
            buttons: 0,
            last_repin: None,
            just_crossed: false,
            suppress_next: if by_hotkey {
                false
            } else {
                self.suppress_next
            },
            hotkey_return_point: if by_hotkey {
                None
            } else {
                self.hotkey_return_point
            },
            ..self
        };
        let (state, actions) = left.giving_back();
        (state, PlanView { to: None, actions, next: NextView::Done { dropped: false } })
    }

    /// A remote screen was entered by hotkey.
    pub open spec fn entered(
        self,
        a: ActiveView,
        anchor: Point,
        return_point: Option<Point>,
        layout: LayoutState,
    ) -> (MacView, PlanView) {
        let (hidden, hiding) = self.hid();
        (
            MacView {
                hotkey_return_point: return_point,
                just_crossed: false,
                suppress_next: true,
                ..hidden.controlling(a, anchor, layout)
            },
            PlanView {
                to: None,
                actions: seq![ActionView::Decouple(true), ActionView::SuppressAfterWarps(false)]
                    + hiding + seq![ActionView::MoveCursor(anchor)],
                next: NextView::Done { dropped: true },
            },
        )
    }

    /// A hotkey brings control home: to where the cursor was taken from, or to
    /// the middle of the screen.
    pub open spec fn returned(self, targets: Seq<TargetView>, now: u64) -> (MacView, PlanView) {
        match self.active {
            None => (self, nothing(true)),
            Some(a) => {
                let at = match self.hotkey_return_point {
                    Some(point) => point,
                    None => cursor_point(
                        hotkey_return_point(a, None),
                        a.invert_y,
                        targets,
                        self.rows,
                    ),
                };
                MacView { hotkey_return_point: None, ..self }.came_home(a, at, now)
            },
        }
    }

    /// The sends for changed modifiers, and the modifiers that are then held.
    /// The key that locks capitals is sent as one stroke.
    pub open spec fn modifier_changes(self, mac_code: u16, flags: u64) -> (
        Seq<u16>,
        Seq<EventView>,
    ) {
        if mac_code == MAC_KEY_CAPS_LOCK {
            (
                self.modifiers,
                match vk_of_mac_key(mac_code) {
                    Some(key_code) => seq![
                        EventView::Key { key_code, down: true },
                        EventView::Key { key_code, down: false },
                    ],
                    None => Seq::empty(),
                },
            )
        } else {
            let next = modifier_vks(flags);
            (
                next,
                key_changes(next, self.modifiers, true) + key_changes(self.modifiers, next, false),
            )
        }
    }

    /// Asking to send an event to what is controlled.
    pub open spec fn asking(self, event: EventView, pending: PendingView) -> PlanView {
        PlanView {
            to: self.target(),
            actions: Seq::empty(),
            next: NextView::Await { event, pending },
        }
    }

    /// A local event other than a movement arrived.
    pub open spec fn handled(
        self,
        event: MacEvent,
        targets: Seq<TargetView>,
        layout: LayoutState,
        moment: Moment,
    ) -> (MacView, PlanView) {
        match (self.active, event) {
            (_, MacEvent::TapDisabled) => (MacView { tap_disabled: true, ..self }, nothing(false)),
            (None, MacEvent::FlagsChanged { flags, .. }) => (
                MacView { modifiers: modifier_vks(flags), ..self },
                nothing(false),
            ),
            (None, _) => (self, nothing(false)),
            (Some(a), MacEvent::Button { button, down }) => (
                self,
                self.asking(move_event(a), PendingView::BeforeButton { button, down }),
            ),
            (Some(a), MacEvent::Scroll { delta_x, delta_y }) => (
                self,
                self.asking(move_event(a), PendingView::BeforeScroll { delta_x, delta_y }),
            ),
            (Some(a), MacEvent::Key { mac_code, flags, down }) => if down && is_hotkey(
                layout,
                mac_code,
                flags,
            ) {
                self.returned(targets, moment.now)
            } else {
                match vk_of_mac_key(mac_code) {
                    Some(key_code) => (
                        self,
                        self.asking(
                            EventView::Key { key_code, down },
                            PendingView::Key { key_code, down },
                        ),
                    ),
                    None => self.kept_away(Seq::empty(), moment),
                }
            },
            (Some(a), MacEvent::FlagsChanged { mac_code, flags }) => {
                let (modifiers, changes) = self.modifier_changes(mac_code, flags);
                MacView { modifiers, ..self }.kept_away(sends(changes), moment)
            },
            (Some(a), MacEvent::Other) => self.kept_away(Seq::empty(), moment),
        }
    }

    /// A send was waited for.
    pub open spec fn resumed(
        self,
        pending: PendingView,
        sent: bool,
        layout: LayoutState,
        moment: Moment,
    ) -> (MacView, PlanView) {
        match pending {
            PendingView::Moved { location } => if sent {
                self.settled(location, moment)
            } else {
                self.lost()
            },
            PendingView::Crossing { active, anchor } => if sent {
                (
                    MacView { just_crossed: true, ..self.controlling(active, anchor, layout) },
                    nothing(true),
                )
            } else {
                self.not_entered(false)
            },
            PendingView::Entering { active, anchor, return_point } => if sent {
                self.entered(active, anchor, return_point, layout)
            } else {
                self.not_entered(true)
            },
            PendingView::BeforeButton { button, down } => if sent {
                (
                    MacView { last_mouse_move_sent: Some(moment.now), ..self },
                    self.asking(
                        EventView::MouseButton { button, down },
                        PendingView::Button { button, down },
                    ),
                )
            } else {
                self.kept_away(Seq::empty(), moment)
            },
            PendingView::Button { button, down } => if sent {
                MacView { buttons: with_button(self.buttons, button, down), ..self }.kept_away(
                    Seq::empty(),
                    moment,
                )
            } else {
                self.kept_away(Seq::empty(), moment)
            },
            PendingView::BeforeScroll { delta_x, delta_y } => if sent {
                (
                    MacView { last_mouse_move_sent: Some(moment.now), ..self },
                    self.asking(EventView::Scroll { delta_x, delta_y }, PendingView::Scroll),
                )
            } else {
                self.kept_away(Seq::empty(), moment)
            },
            PendingView::Scroll => self.kept_away(Seq::empty(), moment),
            PendingView::Key { key_code, down } => if sent {
                MacView { keys: keys_after(self.keys, key_code, down), ..self }.kept_away(
                    Seq::empty(),
                    moment,
                )
            } else {
                self.kept_away(Seq::empty(), moment)
            },
        }
    }

    /// The cursor goes to another local screen.
    pub open spec fn moved_locally(
        self,
        from_screen_id: Seq<char>,
        to_screen_id: Seq<char>,
        at: Point,
        cursor: Option<Point>,
    ) -> (MacView, PlanView) {
        let points = points_left(self.points, from_screen_id, cursor);
        let (state, showing) = MacView { points, ..self }.showed();
        (
            state,
            PlanView {
                to: None,
                actions: seq![
                    ActionView::Decouple(false),
                    ActionView::SuppressAfterWarps(false),
                    ActionView::MoveCursor(point_or(points, to_screen_id, at)),
                    ActionView::SuppressAfterWarps(true),
                ] + showing,
                next: NextView::Done { dropped: true },
            },
        )
    }

    /// A hotkey asks for another screen.
    pub open spec fn switched_to(
        self,
        outcome: OutcomeView,
        targets: Seq<TargetView>,
        moment: Moment,
    ) -> (MacView, PlanView) {
        match outcome {
            OutcomeView::Enter(a) => (
                self,
                PlanView {
                    to: Some(a.target),
                    actions: Seq::empty(),
                    next: NextView::Await {
                        event: move_event(a),
                        pending: PendingView::Entering {
                            active: a,
                            anchor: cursor_point(
                                return_point(a),
                                a.invert_y,
                                targets,
                                self.rows,
                            ),
                            return_point: moment.cursor,
                        },
                    },
                },
            ),
            OutcomeView::Return => self.returned(targets, moment.now),
            OutcomeView::LocalMove { from_screen_id, to_screen_id, at } => self.moved_locally(
                from_screen_id,
                to_screen_id,
                at,
                moment.cursor,
            ),
            OutcomeView::Noop => (self, nothing(false)),
        }
    }

    /// A raw event of a trackpad or the system arrived.
    pub open spec fn gestured(self, event_type: u32, moment: Moment) -> (MacView, PlanView) {
        if event_type == MACOS_RAW_EVENT_TAP_DISABLED_BY_TIMEOUT || event_type
            == MACOS_RAW_EVENT_TAP_DISABLED_BY_USER_INPUT {
            (MacView { tap_disabled: true, ..self }, nothing(false))
        } else if self.remote_active {
            self.kept_away(Seq::empty(), moment)
        } else {
            (self, nothing(false))
        }
    }

    /// The capture ends.
    pub open spec fn ended(self) -> (MacView, PlanView) {
        let (shown, showing) = self.showed();
        (
            MacView {
                active: None,
                remote_active: false,
                clipboard_target: None,
                buttons: 0,
                ..shown
            },
            PlanView {
                to: None,
                actions: seq![ActionView::Decouple(false), ActionView::SuppressAfterWarps(true)]
                    + showing,
                next: NextView::Done { dropped: false },
            },
        )
    }
}

/// A local event other than a movement.
#[derive(Debug, Clone, Copy, PartialEq, Eq, Structural)]
pub enum MacEvent {
    /// macOS disabled the tap.
    TapDisabled,
    Button { button: MouseButton, down: bool },
    Scroll { delta_x: i32, delta_y: i32 },
    Key { mac_code: u16, flags: u64, down: bool },
    FlagsChanged { mac_code: u16, flags: u64 },
    Other,
}

impl MacCapture {
    /// A capture that controls nothing yet, started with some targets.
    pub fn new(targets: &Vec<InputTarget>) -> (r: MacCapture)
        ensures
            r@ == (MacView {
                active: None,
                remote_active: false,
                clipboard_target: None,
                anchor: None,
                cursor_hidden: false,
                hide_depth: 0,
                last_reassert: None,
                last_mouse_move_sent: None,
                last_repin: None,
                last_return: None,
                buttons: 0,
                modifiers: Seq::empty(),
                keys: Seq::empty(),
                tap_disabled: false,
                just_crossed: false,
                suppress_next: false,
                hotkey_return_point: None,
                points: Map::empty(),
                rows: rows_of(target_views(targets@), targets@.len()),
            }),
            r@.well_formed(),
    {
        let capture = MacCapture {
            active: None,
            remote_active: false,
            clipboard_target: None,
            anchor: None,
            cursor_hidden: false,
            cursor_hide_depth: 0,
            last_cursor_hide_reassert: None,
            last_mouse_move_sent: None,
            last_cursor_repin: None,
            last_return: None,
            remote_button_mask: 0,
            pressed_modifiers: Vec::new(),
            pressed_keys: Vec::new(),
            tap_disabled: false,
            just_crossed: false,
            suppress_next_mouse_delta: false,
            hotkey_return_point: None,
            local_screen_points: ScreenPoints::new(),
            local_y_bounds: local_y_bounds(targets),
        };
        assert(capture@.keys =~= Seq::<u16>::empty());
        assert(capture@.modifiers =~= Seq::<u16>::empty());
        capture
    }

    fn push_macos_cursor_hide(&mut self, actions: &mut Vec<Action>)
        ensures
            final(self)@ == old(self)@.deeper(),
            final(self).active == old(self).active,
            action_views(final(actions)@) == action_views(old(actions)@).push(ActionView::Hide),
    {
        self::add(actions, Action::Hide);
        if self.cursor_hide_depth < u64::MAX {
            self.cursor_hide_depth = self.cursor_hide_depth + 1;
        }
    }

    fn hide_macos_cursor_if_needed(&mut self, actions: &mut Vec<Action>)
        ensures
            final(self)@ == old(self)@.hid().0,
            final(self).active == old(self).active,
            action_views(final(actions)@) == action_views(old(actions)@) + old(self)@.hid().1,
    {
        if !self.cursor_hidden {
            self::add(actions, Action::PushBlankCursor);
            self.push_macos_cursor_hide(actions);
            self.last_cursor_hide_reassert = None;
            self.cursor_hidden = true;
        }
        assert(action_views(actions@) =~= action_views(old(actions)@) + old(self)@.hid().1);
    }

    fn show_macos_cursor_if_needed(&mut self, actions: &mut Vec<Action>)
        ensures
            final(self)@ == old(self)@.showed().0,
            final(self).active == old(self).active,
            action_views(final(actions)@) == action_views(old(actions)@) + old(self)@.showed().1,
    {
        if self.cursor_hidden {
            self::add(actions, Action::PopBlankCursor);
            self::add(actions, Action::Show { times: self.cursor_hide_depth });
            self.cursor_hide_depth = 0;
            self.last_cursor_hide_reassert = None;
            self.cursor_hidden = false;
        }
        assert(action_views(actions@) =~= action_views(old(actions)@) + old(self)@.showed().1);
    }

    fn repin_macos_cursor_if_drifted(
        &mut self,
        location: Point,
        now: u64,
        actions: &mut Vec<Action>,
    ) -> (r: bool)
        ensures
            final(self)@ == old(self)@.repinned(location, now).0,
            final(self).active == old(self).active,
            action_views(final(actions)@) == action_views(old(actions)@) + old(self)@.repinned(
                location,
                now,
            ).1,
            r == old(self)@.repinned(location, now).2,
    {
        let anchor = match self.anchor {
            Some(anchor) => anchor,
            None => {
                assert(action_views(actions@) =~= action_views(actions@)
                    + Seq::<ActionView>::empty());
                return false;
            },
        };
        let threshold = Double { bits: 0x3ff8_0000_0000_0000 };
        let still: bool = location.x.minus(anchor.x).abs().less_or_equal(threshold)
            && location.y.minus(anchor.y).abs().less_or_equal(threshold);
        if still || !is_due_again(self.last_cursor_repin, now, REPIN_INTERVAL) {
            assert(action_views(actions@) =~= action_views(actions@) + Seq::<ActionView>::empty());
            return false;
        }
        self.last_cursor_repin = Some(now);
        self::add(actions, Action::Decouple(true));
        self::add(actions, Action::MoveCursor(anchor));
        assert(action_views(actions@) =~= action_views(old(actions)@) + old(self)@.repinned(
            location,
            now,
        ).1);
        true
    }

    fn reassert_macos_hidden_window_cursor(
        &mut self,
        blank_now: bool,
        now: u64,
        actions: &mut Vec<Action>,
    )
        ensures
            final(self)@ == old(self)@.reasserted(blank_now, now).0,
            final(self).active == old(self).active,
            action_views(final(actions)@) == action_views(old(actions)@) + old(self)@.reasserted(
                blank_now,
                now,
            ).1,
    {
        if self.cursor_hidden {
            if blank_now {
                self::add(actions, Action::RefreshBlankCursor);
            }
            if is_due_again(self.last_cursor_hide_reassert, now, HIDE_REASSERT_INTERVAL) {
                self.last_cursor_hide_reassert = Some(now);
                self::add(actions, Action::RefreshBlankCursor);
                self.push_macos_cursor_hide(actions);
            }
        }
        assert(action_views(actions@) =~= action_views(old(actions)@) + old(self)@.reasserted(
            blank_now,
            now,
        ).1);
    }

    /// Keeps the cursor off the mouse, at its anchor and out of sight.
    fn repin_macos_cursor_while_remote(&mut self, moment: Moment, actions: &mut Vec<Action>)
        ensures
            final(self)@ == old(self)@.guarded(moment).0,
            final(self).active == old(self).active,
            action_views(final(actions)@) == action_views(old(actions)@) + old(self)@.guarded(
                moment,
            ).1,
    {
        self::add(actions, Action::Decouple(true));
        match moment.cursor {
            Some(location) => {
                let moved: bool = self.repin_macos_cursor_if_drifted(
                    location,
                    moment.now,
                    actions,
                );
                if !moment.main_window_visible {
                    self.reassert_macos_hidden_window_cursor(moved, moment.now, actions);
                }
            },
            None => {
                if !moment.main_window_visible {
                    match self.anchor {
                        Some(anchor) => {
                            self::add(actions, Action::MoveCursor(anchor));
                        },
                        None => {},
                    }
                    self.reassert_macos_hidden_window_cursor(true, moment.now, actions);
                }
            },
        }
        assert(action_views(actions@) =~= action_views(old(actions)@) + old(self)@.guarded(
            moment,
        ).1);
    }

    fn keep_away(&mut self, moment: Moment) -> (r: Plan)
        ensures
            (final(self)@, r@) == old(self)@.kept_away(Seq::empty(), moment),
            final(self).active == old(self).active,
    {
        let mut actions = no_actions();
        self.repin_macos_cursor_while_remote(moment, &mut actions);
        let plan = Plan { to: None, actions, next: Next::Done { dropped: true } };
        assert(plan@.actions =~= old(self)@.kept_away(Seq::empty(), moment).1.actions);
        plan
    }

    fn release_held_remote_inputs_macos(&mut self, actions: &mut Vec<Action>)
        ensures
            final(self)@ == (MacView {
                modifiers: Seq::empty(),
                keys: Seq::empty(),
                buttons: 0,
                ..old(self)@
            }),
            final(self).active == old(self).active,
            action_views(final(actions)@) == action_views(old(actions)@) + old(self)@.releasing(),
    {
        let modifiers = release_forwarded_keys(&self.pressed_modifiers);
        push_sends(actions, modifiers);
        self.pressed_modifiers = Vec::new();
        let keys = release_forwarded_keys(&self.pressed_keys);
        push_sends(actions, keys);
        self.pressed_keys = Vec::new();
        let buttons = release_remote_buttons(&mut self.remote_button_mask);
        push_sends(actions, buttons);
        assert(action_views(actions@) =~= action_views(old(actions)@) + old(self)@.releasing());
        assert(self@.keys =~= Seq::<u16>::empty());
        assert(self@.modifiers =~= Seq::<u16>::empty());
    }

    fn mac_cursor_point(&self, p: Point, invert_y: bool, targets: &Vec<InputTarget>) -> (r: Point)
        ensures
            r == cursor_point(p, invert_y, target_views(targets@), self@.rows),
    {
        if !invert_y {
            return p;
        }
        let bounds = match local_y_bounds(targets) {
            Some(bounds) => Some(bounds),
            None => self.local_y_bounds,
        };
        match bounds {
            Some(bounds) => Point { x: p.x, y: mirror(bounds, p.y) },
            None => p,
        }
    }

    fn mac_crossing_target(&self, targets: &Vec<InputTarget>, p: Point, d: Point) -> (r: Option<
        ActiveTarget,
    >)
        requires
            mac_crossing(target_views(targets@), self@.rows, p, d) matches Some(a) ==> sound(a),
        ensures
            match r {
                Some(active) => mac_crossing(target_views(targets@), self@.rows, p, d) == Some(
                    active@,
                ),
                None => mac_crossing(target_views(targets@), self@.rows, p, d) is None,
            },
    {
        match crossing_target_with_transform(targets, p, d, false) {
            Some(active) => {
                return Some(active);
            },
            None => {},
        }
        match self.turned_over(targets, p, d) {
            Some((there, turned)) => crossing_target_with_transform(targets, there, turned, true),
            None => None,
        }
    }

    /// A movement with the vertical axis mirrored, where that makes a
    /// difference.
    fn turned_over(&self, targets: &Vec<InputTarget>, p: Point, d: Point) -> (r: Option<
        (Point, Point),
    >)
        ensures
            r == match rows_or(target_views(targets@), self@.rows) {
                Some(rows) if !absolute(difference(mirrored(rows, p.y), p.y)).below(half()) => Some(
                    (Point { x: p.x, y: mirrored(rows, p.y) }, Point { x: d.x, y: negated(d.y) }),
                ),
                _ => None,
            },
    {
        let bounds = match local_y_bounds(targets) {
            Some(bounds) => bounds,
            None => match self.local_y_bounds {
                Some(bounds) => bounds,
                None => {
                    return None;
                },
            },
        };
        let flipped = mirror(bounds, p.y);
        if flipped.minus(p.y).abs().less(Double::half()) {
            return None;
        }
        Some((Point { x: p.x, y: flipped }, Point { x: d.x, y: d.y.neg() }))
    }

    /// Whether a mouse movement by `d`, with the cursor at `location`, can be
    /// handled.
    pub fn mouse_move_fits(
        &self,
        location: Point,
        d: Point,
        targets: &Vec<InputTarget>,
        now: u64,
    ) -> (r: bool)
        ensures
            r == self@.move_fits(location, d, target_views(targets@), now),
    {
        if self.active.is_some() || !is_due_again(self.last_return, now, RETURN_COOLDOWN) {
            return true;
        }
        match find_crossed(targets, location, d) {
            Some(i) => is_sound(&targets[i]),
            None => match self.turned_over(targets, location, d) {
                Some((there, turned)) => crossing_lands(targets, there, turned),
                None => true,
            },
        }
    }

    fn come_home(&mut self, from: ActiveTarget, at: Point, now: u64) -> (r: Plan)
        requires
            old(self).active is None,
        ensures
            (final(self)@, r@) == old(self)@.came_home(from@, at, now),
            final(self)@.well_formed(),
    {
        let mut actions = no_actions();
        self::add(&mut actions, Action::Send(remote_cursor_park(&from)));
        assert(action_views(actions@) =~= sends(seq![park_event(from@)]));
        self.remote_active = false;
        self.just_crossed = false;
        self.suppress_next_mouse_delta = false;
        self.last_return = Some(now);
        self.release_held_remote_inputs_macos(&mut actions);
        self.last_mouse_move_sent = None;
        self.last_cursor_repin = None;
        self.anchor = None;
        self::add(&mut actions, Action::SuppressAfterWarps(false));
        self::add(&mut actions, Action::MoveCursor(at));
        self::add(&mut actions, Action::Decouple(false));
        self::add(&mut actions, Action::SuppressAfterWarps(true));
        self.show_macos_cursor_if_needed(&mut actions);
        let plan = Plan { to: Some(from.target), actions, next: Next::Done { dropped: true } };
        assert(plan@.actions =~= old(self)@.came_home(from@, at, now).1.actions);
        plan
    }

    fn give_back(&mut self) -> (r: Plan)
        ensures
            final(self)@ == old(self)@.giving_back().0,
            final(self).active == old(self).active,
            r@ == (PlanView {
                to: None,
                actions: old(self)@.giving_back().1,
                next: NextView::Done { dropped: false },
            }),
    {
        let mut actions = no_actions();
        self::add(&mut actions, Action::SuppressAfterWarps(true));
        self::add(&mut actions, Action::Decouple(false));
        self.show_macos_cursor_if_needed(&mut actions);
        let plan = Plan { to: None, actions, next: Next::Done { dropped: false } };
        assert(plan@.actions =~= old(self)@.giving_back().1);
        plan
    }

    fn lose(&mut self) -> (r: Plan)
        ensures
            (final(self)@, r@) == old(self)@.lost(),
            final(self)@.well_formed(),
    {
        self.active = None;
        self.remote_active = false;
        self.just_crossed = false;
        self.suppress_next_mouse_delta = false;
        self.clipboard_target = None;
        self.last_mouse_move_sent = None;
        self.last_cursor_repin = None;
        self.remote_button_mask = 0;
        self.pressed_modifiers = Vec::new();
        self.anchor = None;
        assert(self@.modifiers =~= Seq::<u16>::empty());
        self.give_back()
    }

    fn settle(&mut self, location: Point, moment: Moment) -> (r: Plan)
        ensures
            (final(self)@, r@) == old(self)@.settled(location, moment),
            final(self).active == old(self).active,
    {
        let mut actions = no_actions();
        if self.repin_macos_cursor_if_drifted(location, moment.now, &mut actions)
            && !moment.main_window_visible {
            self.reassert_macos_hidden_window_cursor(true, moment.now, &mut actions);
        }
        let plan = Plan { to: None, actions, next: Next::Done { dropped: true } };
        assert(plan@.actions =~= old(self)@.settled(location, moment).1.actions);
        plan
    }

    fn moved_there(
        &mut self,
        active: ActiveTarget,
        location: Point,
        d: Point,
        targets: &Vec<InputTarget>,
        layout: &LayoutState,
        moment: Moment,
    ) -> (r: Plan)
        requires
            old(self).active is None,
            old(self).remote_active,
            sound(active@),
        ensures
            (final(self)@, r@) == (MacView { active: Some(active@), ..old(self)@ }).moved_there(
                active@,
                location,
                d,
                target_views(targets@),
                *layout,
                moment,
            ),
            final(self)@.well_formed(),
            r@.next matches NextView::Await { pending, .. } ==> final(self)@.waits_for(pending),
    {
        let mut active = active;
        let turned = Point {
            x: d.x,
            y: if active.invert_y {
                d.y.neg()
            } else {
                d.y
            },
        };
        if self.suppress_next_mouse_delta {
            self.suppress_next_mouse_delta = false;
            self.active = Some(active);
            let mut actions = no_actions();
            let _ = self.repin_macos_cursor_if_drifted(location, moment.now, &mut actions);
            let plan = Plan { to: None, actions, next: Next::Done { dropped: true } };
            assert(plan@.actions =~= (MacView {
                active: Some(active@),
                suppress_next: false,
                ..old(self)@
            }).repinned(location, moment.now).1);
            return plan;
        }
        if self.just_crossed {
            self.just_crossed = false;
            if should_ignore_initial_anchor_warp_delta(active.target.edge, turned) {
                self.active = Some(active);
                return idle(true);
            }
        }
        if follow(&mut active, turned, layout) {
            let invert_y: bool = active.invert_y;
            let at = self.mac_cursor_point(local_return_point(&active), invert_y, targets);
            return self.come_home(active, at, moment.now);
        }
        let dragging: bool = self.remote_button_mask != 0;
        if should_send_mouse_move(&mut self.last_mouse_move_sent, dragging, moment.now) {
            let plan = Plan {
                to: Some(active.target.clone()),
                actions: no_actions(),
                next: Next::Await {
                    event: remote_mouse_move(&active),
                    pending: Pending::Moved { location },
                },
            };
            self.active = Some(active);
            return plan;
        }
        self.active = Some(active);
        self.settle(location, moment)
    }

    fn cross(&mut self, active: ActiveTarget, targets: &Vec<InputTarget>) -> (r: Plan)
        requires
            sound(active@),
        ensures
            (final(self)@, r@) == old(self)@.crossing(active@, target_views(targets@)),
            final(self).active == old(self).active,
    {
        let anchor = self.mac_cursor_point(local_return_point(&active), active.invert_y, targets);
        let mut actions = no_actions();
        self::add(&mut actions, Action::Decouple(true));
        self::add(&mut actions, Action::SuppressAfterWarps(false));
        self.hide_macos_cursor_if_needed(&mut actions);
        self::add(&mut actions, Action::MoveCursor(anchor));
        let plan = Plan {
            to: Some(active.target.clone()),
            actions,
            next: Next::Await {
                event: remote_mouse_move(&active),
                pending: Pending::Crossing { active, anchor },
            },
        };
        assert(plan@.actions =~= old(self)@.crossing(active@, target_views(targets@)).1.actions);
        plan
    }

    fn moved_here(&mut self, location: Point, d: Point, targets: &Vec<InputTarget>, now: u64) -> (r:
        Plan)
        requires
            old(self)@.well_formed(),
            old(self).active is None,
            old(self)@.move_fits(location, d, target_views(targets@), now),
        ensures
            (final(self)@, r@) == old(self)@.moved_here(
                location,
                d,
                target_views(targets@),
                now,
            ),
            final(self)@.well_formed(),
            r@.next matches NextView::Await { pending, .. } ==> final(self)@.waits_for(pending),
    {
        if !is_due_again(self.last_return, now, RETURN_COOLDOWN) {
            return idle(false);
        }
        let active = match self.mac_crossing_target(targets, location, d) {
            Some(active) => active,
            None => {
                return idle(false);
            },
        };
        self.cross(active, targets)
    }

    /// Handles a mouse movement by `d`, with the cursor at `location`.
    pub fn handle_macos_mouse_move(
        &mut self,
        location: Point,
        d: Point,
        targets: &Vec<InputTarget>,
        layout: &LayoutState,
        moment: Moment,
    ) -> (r: Plan)
        requires
            old(self)@.well_formed(),
            old(self)@.move_fits(location, d, target_views(targets@), moment.now),
        ensures
            (final(self)@, r@) == old(self)@.moved(
                location,
                d,
                target_views(targets@),
                *layout,
                moment,
            ),
            final(self)@.well_formed(),
            r@.next matches NextView::Await { pending, .. } ==> final(self)@.waits_for(pending),
    {
        match self.active.take() {
            Some(active) => {
                assert((MacView { active: Some(active@), ..self@ }) == old(self)@);
                self.moved_there(active, location, d, targets, layout, moment)
            },
            None => self.moved_here(location, d, targets, moment.now),
        }
    }

    fn ask(&self, event: InputEvent, pending: Pending) -> (r: Plan)
        ensures
            r@ == self@.asking(event@, pending@),
    {
        let to = match self.active.as_ref() {
            Some(active) => Some(active.target.clone()),
            None => None,
        };
        Plan { to, actions: no_actions(), next: Next::Await { event, pending } }
    }

    /// Brings control home for a hotkey.
    pub fn return_to_local_macos(&mut self, targets: &Vec<InputTarget>, now: u64) -> (r: Plan)
        requires
            old(self)@.well_formed(),
        ensures
            (final(self)@, r@) == old(self)@.returned(target_views(targets@), now),
            final(self)@.well_formed(),
            r@.next is Done,
    {
        let active = match self.active.take() {
            Some(active) => active,
            None => {
                return idle(true);
            },
        };
        let recorded = self.hotkey_return_point;
        self.hotkey_return_point = None;
        let point = local_hotkey_return_point(&active, recorded);
        let at = match recorded {
            Some(_) => point,
            None => self.mac_cursor_point(point, active.invert_y, targets),
        };
        let ghost before = self@;
        let plan = self.come_home(active, at, now);
        assert(old(self)@.returned(target_views(targets@), now) == (MacView {
            hotkey_return_point: None,
            ..old(self)@
        }).came_home(active@, at, now));
        assert(before.came_home(active@, at, now) == (MacView {
            hotkey_return_point: None,
            ..old(self)@
        }).came_home(active@, at, now));
        plan
    }

    fn send_modifier_changes(&mut self, mac_code: u16, flags: u64, moment: Moment) -> (r: Plan)
        requires
            old(self).active is Some,
        ensures
            (final(self)@, r@) == ({
                let (modifiers, changes) = old(self)@.modifier_changes(mac_code, flags);
                (MacView { modifiers, ..old(self)@ }).kept_away(sends(changes), moment)
            }),
            final(self).active == old(self).active,
    {
        let mut actions = no_actions();
        let ghost (modifiers, changes) = self@.modifier_changes(mac_code, flags);
        if mac_code == MAC_KEY_CAPS_LOCK {
            match mac_key_to_windows_vk(mac_code) {
                Some(key_code) => {
                    self::add(&mut actions, Action::Send(InputEvent::Key { key_code, down: true }));
                    self::add(&mut actions, Action::Send(InputEvent::Key { key_code, down: false }));
                },
                None => {},
            }
            assert(action_views(actions@) =~= sends(changes));
        } else {
            let next = mac_modifier_vks(flags);
            let downs = changed_keys(&next, &self.pressed_modifiers, true);
            push_sends(&mut actions, downs);
            let ups = changed_keys(&self.pressed_modifiers, &next, false);
            push_sends(&mut actions, ups);
            assert(action_views(actions@) =~= sends(changes));
            self.pressed_modifiers = next;
        }
        let ghost middle = self@;
        assert(middle == (MacView { modifiers, ..old(self)@ }));
        let to = if actions.len() > 0 {
            match self.active.as_ref() {
                Some(active) => Some(active.target.clone()),
                None => None,
            }
        } else {
            None
        };
        assert(sends(changes).len() == actions.len());
        self.repin_macos_cursor_while_remote(moment, &mut actions);
        let plan = Plan { to, actions, next: Next::Done { dropped: true } };
        assert(plan@.actions =~= middle.kept_away(sends(changes), moment).1.actions);
        plan
    }

    /// Handles a local event other than a movement.
    pub fn handle_macos_event(
        &mut self,
        event: MacEvent,
        targets: &Vec<InputTarget>,
        layout: &LayoutState,
        moment: Moment,
    ) -> (r: Plan)
        requires
            old(self)@.well_formed(),
        ensures
            (final(self)@, r@) == old(self)@.handled(
                event,
                target_views(targets@),
                *layout,
                moment,
            ),
            final(self)@.well_formed(),
            r@.next matches NextView::Await { pending, .. } ==> final(self)@.waits_for(pending),
    {
        match event {
            MacEvent::TapDisabled => {
                self.tap_disabled = true;
                return idle(false);
            },
            _ => {},
        }
        let moving: InputEvent = match self.active.as_ref() {
            Some(active) => remote_mouse_move(active),
            None => {
                match event {
                    MacEvent::FlagsChanged { flags, .. } => {
                        self.pressed_modifiers = mac_modifier_vks(flags);
                    },
                    _ => {},
                }
                return idle(false);
            },
        };
        match event {
            MacEvent::Button { button, down } => self.ask(
                moving,
                Pending::BeforeButton { button, down },
            ),
            MacEvent::Scroll { delta_x, delta_y } => self.ask(
                moving,
                Pending::BeforeScroll { delta_x, delta_y },
            ),
            MacEvent::Key { mac_code, flags, down } => {
                if down && macos_event_matches_screen_switch_hotkey(layout, mac_code, flags) {
                    return self.return_to_local_macos(targets, moment.now);
                }
                match mac_key_to_windows_vk(mac_code) {
                    Some(key_code) => self.ask(
                        InputEvent::Key { key_code, down },
                        Pending::Key { key_code, down },
                    ),
                    None => self.keep_away(moment),
                }
            },
            MacEvent::FlagsChanged { mac_code, flags } => self.send_modifier_changes(
                mac_code,
                flags,
                moment,
            ),
            _ => self.keep_away(moment),
        }
    }

    fn control(&mut self, active: ActiveTarget, anchor: Point, layout: &LayoutState)
        ensures
            final(self)@ == old(self)@.controlling(active@, anchor, *layout),
    {
        self.last_mouse_move_sent = None;
        self.last_cursor_repin = None;
        self.remote_button_mask = 0;
        self.remote_active = true;
        set_control_clipboard_target(&mut self.clipboard_target, &active, layout);
        self.active = Some(active);
        self.anchor = Some(anchor);
    }

    fn stay(&mut self, by_hotkey: bool) -> (r: Plan)
        ensures
            (final(self)@, r@) == old(self)@.not_entered(by_hotkey),
            final(self).active == old(self).active,
    {
        self.last_mouse_move_sent = None;
        self.remote_button_mask = 0;
        self.last_cursor_repin = None;
        self.just_crossed = false;
        if by_hotkey {
            self.suppress_next_mouse_delta = false;
            self.hotkey_return_point = None;
        }
        self.give_back()
    }

    fn enter_remote_target_macos(
        &mut self,
        active: ActiveTarget,
        anchor: Point,
        return_point: Option<Point>,
        layout: &LayoutState,
    ) -> (r: Plan)
        ensures
            (final(self)@, r@) == old(self)@.entered(active@, anchor, return_point, *layout),
    {
        let mut actions = no_actions();
        self::add(&mut actions, Action::Decouple(true));
        self::add(&mut actions, Action::SuppressAfterWarps(false));
        self.hide_macos_cursor_if_needed(&mut actions);
        self::add(&mut actions, Action::MoveCursor(anchor));
        let ghost a = active@;
        self.control(active, anchor, layout);
        self.hotkey_return_point = return_point;
        self.just_crossed = false;
        self.suppress_next_mouse_delta = true;
        let plan = Plan { to: None, actions, next: Next::Done { dropped: true } };
        assert(plan@.actions =~= old(self)@.entered(a, anchor, return_point, *layout).1.actions);
        plan
    }

    /// Goes on once it is known whether the awaited event was sent.
    #[verifier::rlimit(60)]
    pub fn resume(&mut self, pending: Pending, sent: bool, layout: &LayoutState, moment: Moment) -> (r:
        Plan)
        requires
            old(self)@.well_formed(),
            old(self)@.waits_for(pending@),
        ensures
            (final(self)@, r@) == old(self)@.resumed(pending@, sent, *layout, moment),
            final(self)@.well_formed(),
            r@.next matches NextView::Await { pending, .. } ==> final(self)@.waits_for(pending),
    {
        match pending {
            Pending::Moved { location } => if sent {
                self.settle(location, moment)
            } else {
                self.lose()
            },
            Pending::Crossing { active, anchor } => {
                if !sent {
                    return self.stay(false);
                }
                self.control(active, anchor, layout);
                self.just_crossed = true;
                idle(true)
            },
            Pending::Entering { active, anchor, return_point } => {
                if !sent {
                    return self.stay(true);
                }
                self.enter_remote_target_macos(active, anchor, return_point, layout)
            },
            Pending::BeforeButton { button, down } => {
                if !sent {
                    return self.keep_away(moment);
                }
                self.last_mouse_move_sent = Some(moment.now);
                self.ask(InputEvent::MouseButton { button, down }, Pending::Button { button, down })
            },
            Pending::Button { button, down } => {
                if sent {
                    update_remote_button_mask(&mut self.remote_button_mask, button, down);
                }
                self.keep_away(moment)
            },
            Pending::BeforeScroll { delta_x, delta_y } => {
                if !sent {
                    return self.keep_away(moment);
                }
                self.last_mouse_move_sent = Some(moment.now);
                self.ask(InputEvent::Scroll { delta_x, delta_y }, Pending::Scroll)
            },
            Pending::Scroll => self.keep_away(moment),
            Pending::Key { key_code, down } => {
                if sent {
                    track_forwarded_key(&mut self.pressed_keys, key_code, down);
                }
                self.keep_away(moment)
            },
        }
    }

    fn move_locally(
        &mut self,
        from_screen_id: &str,
        to_screen_id: &str,
        at: Point,
        cursor: Option<Point>,
    ) -> (r: Plan)
        ensures
            (final(self)@, r@) == old(self)@.moved_locally(
                from_screen_id@,
                to_screen_id@,
                at,
                cursor,
            ),
            final(self).active == old(self).active,
    {
        let p = remembered_local_screen_point(
            &mut self.local_screen_points,
            from_screen_id,
            to_screen_id,
            cursor,
            at,
        );
        let mut actions = no_actions();
        self::add(&mut actions, Action::Decouple(false));
        self::add(&mut actions, Action::SuppressAfterWarps(false));
        self::add(&mut actions, Action::MoveCursor(p));
        self::add(&mut actions, Action::SuppressAfterWarps(true));
        self.show_macos_cursor_if_needed(&mut actions);
        let plan = Plan { to: None, actions, next: Next::Done { dropped: true } };
        assert(plan@.actions =~= old(self)@.moved_locally(
            from_screen_id@,
            to_screen_id@,
            at,
            cursor,
        ).1.actions);
        plan
    }

    /// Handles a hotkey that asks for another screen.
    pub fn drain_switch_request_macos(
        &mut self,
        direction: SwitchDirection,
        targets: &Vec<InputTarget>,
        layout: &LayoutState,
        native_layout: &LayoutState,
        origin_device_id: &str,
        moment: Moment,
    ) -> (r: Plan)
        requires
            old(self)@.well_formed(),
            switched(
                direction,
                *layout,
                *native_layout,
                origin_device_id@,
                Platform::MacOs,
                old(self)@.active is Some,
                moment.cursor,
            ) matches OutcomeView::Enter(a) ==> sound(a),
        ensures
            (final(self)@, r@) == old(self)@.switched_to(
                switched(
                    direction,
                    *layout,
                    *native_layout,
                    origin_device_id@,
                    Platform::MacOs,
                    old(self)@.active is Some,
                    moment.cursor,
                ),
                target_views(targets@),
                moment,
            ),
            final(self)@.well_formed(),
            r@.next matches NextView::Await { pending, .. } ==> final(self)@.waits_for(pending),
    {
        let remote: bool = self.active.is_some();
        match request_screen_switch_from_point(
            direction,
            layout,
            native_layout,
            origin_device_id,
            Platform::MacOs,
            remote,
            moment.cursor,
        ) {
            SwitchOutcome::Enter(active) => {
                let anchor = self.mac_cursor_point(
                    local_return_point(&active),
                    active.invert_y,
                    targets,
                );
                Plan {
                    to: Some(active.target.clone()),
                    actions: no_actions(),
                    next: Next::Await {
                        event: remote_mouse_move(&active),
                        pending: Pending::Entering {
                            active,
                            anchor,
                            return_point: moment.cursor,
                        },
                    },
                }
            },
            SwitchOutcome::Return => self.return_to_local_macos(targets, moment.now),
            SwitchOutcome::LocalMove { from_screen_id, to_screen_id, at } => {
                self.move_locally(from_screen_id.as_str(), to_screen_id.as_str(), at, moment.cursor)
            },
            SwitchOutcome::Noop => idle(false),
        }
    }

    /// Handles a raw event of a trackpad or the system.
    pub fn handle_macos_gesture(&mut self, event_type: u32, moment: Moment) -> (r: Plan)
        requires
            old(self)@.well_formed(),
        ensures
            (final(self)@, r@) == old(self)@.gestured(event_type, moment),
            final(self)@.well_formed(),
    {
        if event_type == MACOS_RAW_EVENT_TAP_DISABLED_BY_TIMEOUT || event_type
            == MACOS_RAW_EVENT_TAP_DISABLED_BY_USER_INPUT {
            self.tap_disabled = true;
            return idle(false);
        }
        if self.remote_active {
            return self.keep_away(moment);
        }
        idle(false)
    }

    /// One turn of the run loop: keeps the cursor away while another machine is
    /// controlled.
    pub fn run_loop_turned(&mut self, moment: Moment) -> (r: Plan)
        requires
            old(self)@.well_formed(),
        ensures
            old(self)@.active is Some ==> (final(self)@, r@) == old(self)@.kept_away(
                Seq::empty(),
                moment,
            ),
            old(self)@.active is None ==> final(self)@ == old(self)@ && r@ == nothing(false),
            final(self)@.well_formed(),
    {
        if self.remote_active {
            return self.keep_away(moment);
        }
        idle(false)
    }

    /// Says whether the tap was disabled, and regards it as enabled again.
    pub fn take_tap_disabled(&mut self) -> (r: bool)
        ensures
            r == old(self)@.tap_disabled,
            final(self)@ == (MacView { tap_disabled: false, ..old(self)@ }),
    {
        let disabled: bool = self.tap_disabled;
        self.tap_disabled = false;
        disabled
    }

    /// Ends the capture.
    pub fn stop(&mut self) -> (r: Plan)
        ensures
            (final(self)@, r@) == old(self)@.ended(),
            final(self)@.well_formed(),
    {
        let mut actions = no_actions();
        self::add(&mut actions, Action::Decouple(false));
        self::add(&mut actions, Action::SuppressAfterWarps(true));
        self.show_macos_cursor_if_needed(&mut actions);
        self.active = None;
        self.remote_active = false;
        self.clipboard_target = None;
        self.remote_button_mask = 0;
        let plan = Plan { to: None, actions, next: Next::Done { dropped: false } };
        assert(plan@.actions =~= old(self)@.ended().1.actions);
        plan
    }
}

// ---------------------------------------------------------------------------
// Laws
// ---------------------------------------------------------------------------
/// How the system treats the mouse.
pub struct Mouse {
    /// Whether the cursor is off the mouse.
    pub decoupled: bool,
    /// Whether its movements are held back for a moment after the cursor was
    /// moved, which is the default.
    pub suppressed: bool,
}

impl Mouse {
    /// Whether the mouse is the user's, just as they know it.
    pub open spec fn free(self) -> bool {
        !self.decoupled && self.suppressed
    }
}

/// How the system treats the mouse after a list of actions.
pub open spec fn mouse_after(before: Mouse, actions: Seq<ActionView>) -> Mouse
    decreases actions.len(),
{
    if actions.len() == 0 {
        before
    } else {
        let earlier = mouse_after(before, actions.drop_last());
        match actions.last() {
            ActionView::Decouple(decoupled) => Mouse { decoupled, ..earlier },
            ActionView::SuppressAfterWarps(suppressed) => Mouse { suppressed, ..earlier },
            _ => earlier,
        }
    }
}

proof fn lemma_mouse_after_both(before: Mouse, a: Seq<ActionView>, b: Seq<ActionView>)
    ensures
        mouse_after(before, a + b) == mouse_after(mouse_after(before, a), b),
    decreases b.len(),
{
    if b.len() == 0 {
        assert(a + b =~= a);
    } else {
        lemma_mouse_after_both(before, a, b.drop_last());
        assert((a + b).drop_last() =~= a + b.drop_last());
    }
}

proof fn lemma_showing_leaves_the_mouse(v: MacView, before: Mouse)
    ensures
        mouse_after(before, v.showed().1) == before,
{
    reveal_with_fuel(mouse_after, 3);
}

proof fn lemma_coming_home_frees(v: MacView, from: ActiveView, at: Point, now: u64, before: Mouse)
    ensures
        mouse_after(before, v.came_home(from, at, now).1.actions).free(),
{
    reveal_with_fuel(mouse_after, 5);
    let sent = sends(seq![park_event(from)]) + v.releasing();
    let steps = seq![
        ActionView::SuppressAfterWarps(false),
        ActionView::MoveCursor(at),
        ActionView::Decouple(false),
        ActionView::SuppressAfterWarps(true),
    ];
    let left = MacView {
        active: None,
        remote_active: false,
        just_crossed: false,
        suppress_next: false,
        last_return: Some(now),
        modifiers: Seq::empty(),
        keys: Seq::empty(),
        buttons: 0,
        last_mouse_move_sent: None,
        last_repin: None,
        anchor: None,
        ..v
    };
    let showing = left.showed().1;
    assert(v.came_home(from, at, now).1.actions =~= sent + steps + showing);
    lemma_mouse_after_both(before, sent + steps, showing);
    lemma_mouse_after_both(before, sent, steps);
    lemma_showing_leaves_the_mouse(left, mouse_after(before, sent + steps));
}

proof fn lemma_giving_back_frees(v: MacView, before: Mouse)
    ensures
        mouse_after(before, v.giving_back().1).free(),
{
    reveal_with_fuel(mouse_after, 3);
    let steps = seq![ActionView::SuppressAfterWarps(true), ActionView::Decouple(false)];
    lemma_mouse_after_both(before, steps, v.showed().1);
    lemma_showing_leaves_the_mouse(v, mouse_after(before, steps));
}

/// Whether the mouse is the user's while this machine is at home.
pub open spec fn mouse_is_free(v: MacView, mouse: Mouse) -> bool {
    v.active is None ==> mouse.free()
}

/// The user's mouse is never left dead by a movement: once it is dealt with, the
/// mouse moves the cursor and is held back after a move of the cursor as by
/// default, or another machine is being controlled.
pub proof fn law_movements_leave_the_mouse_free(
    v: MacView,
    mouse: Mouse,
    location: Point,
    d: Point,
    targets: Seq<TargetView>,
    layout: LayoutState,
    moment: Moment,
)
    requires
        v.well_formed(),
        mouse_is_free(v, mouse),
    ensures
        ({
            let (state, plan) = v.moved(location, d, targets, layout, moment);
            plan.next is Done ==> mouse_is_free(state, mouse_after(mouse, plan.actions))
        }),
{
    match v.active {
        Some(a) => {
            let turned = Point {
                x: d.x,
                y: if a.invert_y {
                    negated(d.y)
                } else {
                    d.y
                },
            };
            let (moved, _) = followed(a, turned, wire_screens(layout, a.target.device_id));
            let at = cursor_point(return_point(moved), moved.invert_y, targets, v.rows);
            lemma_coming_home_frees(
                MacView { just_crossed: false, ..v },
                moved,
                at,
                moment.now,
                mouse,
            );
        },
        None => {},
    }
}

proof fn lemma_guarding_keeps_control(v: MacView, moment: Moment)
    ensures
        v.guarded(moment).0.active == v.active,
{
}

proof fn lemma_kept_away_keeps_control(v: MacView, before: Seq<ActionView>, moment: Moment)
    ensures
        v.kept_away(before, moment).0.active == v.active,
{
    lemma_guarding_keeps_control(v, moment);
}

/// Nor is it left dead by a button, a wheel or a key.
pub proof fn law_events_leave_the_mouse_free(
    v: MacView,
    mouse: Mouse,
    event: MacEvent,
    targets: Seq<TargetView>,
    layout: LayoutState,
    moment: Moment,
)
    requires
        v.well_formed(),
        mouse_is_free(v, mouse),
    ensures
        ({
            let (state, plan) = v.handled(event, targets, layout, moment);
            plan.next is Done ==> mouse_is_free(state, mouse_after(mouse, plan.actions))
        }),
{
    lemma_returning_frees(v, targets, moment.now, mouse);
    lemma_kept_away_keeps_control(v, Seq::empty(), moment);
    match event {
        MacEvent::FlagsChanged { mac_code, flags } => {
            let (modifiers, changes) = v.modifier_changes(mac_code, flags);
            lemma_kept_away_keeps_control(MacView { modifiers, ..v }, sends(changes), moment);
        },
        _ => {},
    }
}

/// Nor is it left dead by a gesture.
pub proof fn law_gestures_leave_the_mouse_free(
    v: MacView,
    mouse: Mouse,
    event_type: u32,
    moment: Moment,
)
    requires
        v.well_formed(),
        mouse_is_free(v, mouse),
    ensures
        ({
            let (state, plan) = v.gestured(event_type, moment);
            mouse_is_free(state, mouse_after(mouse, plan.actions))
        }),
{
    lemma_kept_away_keeps_control(v, Seq::empty(), moment);
}

proof fn lemma_returning_frees(v: MacView, targets: Seq<TargetView>, now: u64, mouse: Mouse)
    requires
        mouse_is_free(v, mouse),
    ensures
        ({
            let (state, plan) = v.returned(targets, now);
            mouse_is_free(state, mouse_after(mouse, plan.actions))
        }),
{
    match v.active {
        Some(a) => {
            let at = match v.hotkey_return_point {
                Some(point) => point,
                None => cursor_point(hotkey_return_point(a, None), a.invert_y, targets, v.rows),
            };
            lemma_coming_home_frees(
                MacView { hotkey_return_point: None, ..v },
                a,
                at,
                now,
                mouse,
            );
        },
        None => {},
    }
}

proof fn lemma_moving_locally_frees(
    v: MacView,
    from_screen_id: Seq<char>,
    to_screen_id: Seq<char>,
    at: Point,
    cursor: Option<Point>,
    mouse: Mouse,
)
    ensures
        mouse_after(
            mouse,
            v.moved_locally(from_screen_id, to_screen_id, at, cursor).1.actions,
        ).free(),
{
    reveal_with_fuel(mouse_after, 5);
    let points = points_left(v.points, from_screen_id, cursor);
    let steps = seq![
        ActionView::Decouple(false),
        ActionView::SuppressAfterWarps(false),
        ActionView::MoveCursor(point_or(points, to_screen_id, at)),
        ActionView::SuppressAfterWarps(true),
    ];
    let left = MacView { points, ..v };
    lemma_mouse_after_both(mouse, steps, left.showed().1);
    lemma_showing_leaves_the_mouse(left, mouse_after(mouse, steps));
}

/// Nor is it left dead by a hotkey.
pub proof fn law_switching_leaves_the_mouse_free(
    v: MacView,
    mouse: Mouse,
    outcome: OutcomeView,
    targets: Seq<TargetView>,
    moment: Moment,
)
    requires
        v.well_formed(),
        mouse_is_free(v, mouse),
    ensures
        ({
            let (state, plan) = v.switched_to(outcome, targets, moment);
            plan.next is Done ==> mouse_is_free(state, mouse_after(mouse, plan.actions))
        }),
{
    match outcome {
        OutcomeView::Return => {
            lemma_returning_frees(v, targets, moment.now, mouse);
        },
        OutcomeView::LocalMove { from_screen_id, to_screen_id, at } => {
            lemma_moving_locally_frees(
                v,
                from_screen_id,
                to_screen_id,
                at,
                moment.cursor,
                mouse,
            );
        },
        _ => {},
    }
}

/// Nor is it left dead when the capture ends.
pub proof fn law_ending_leaves_the_mouse_free(v: MacView, mouse: Mouse)
    ensures
        mouse_after(mouse, v.ended().1.actions).free(),
{
    reveal_with_fuel(mouse_after, 3);
    let last = seq![ActionView::Decouple(false), ActionView::SuppressAfterWarps(true)];
    lemma_mouse_after_both(mouse, last, v.showed().1);
    lemma_showing_leaves_the_mouse(v, mouse_after(mouse, last));
}

/// Nor is it left dead after a send that was waited for, whether it succeeded or
/// not.
pub proof fn law_awaited_sends_leave_the_mouse_free(
    v: MacView,
    mouse: Mouse,
    pending: PendingView,
    sent: bool,
    layout: LayoutState,
    moment: Moment,
)
    requires
        v.well_formed(),
        v.waits_for(pending),
    ensures
        ({
            let (state, plan) = v.resumed(pending, sent, layout, moment);
            mouse_is_free(state, mouse_after(mouse, plan.actions))
        }),
{
    match pending {
        PendingView::Moved { .. } => {
            lemma_giving_back_frees(
                MacView {
                    active: None,
                    remote_active: false,
                    just_crossed: false,
                    suppress_next: false,
                    clipboard_target: None,
                    last_mouse_move_sent: None,
                    last_repin: None,
                    buttons: 0,
                    modifiers: Seq::empty(),
                    anchor: None,
                    ..v
                },
                mouse,
            );
        },
        PendingView::Crossing { .. } => {
            lemma_giving_back_frees(
                MacView {
                    last_mouse_move_sent: None,
                    buttons: 0,
                    last_repin: None,
                    just_crossed: false,
                    ..v
                },
                mouse,
            );
        },
        PendingView::Entering { .. } => {
            lemma_giving_back_frees(
                MacView {
                    last_mouse_move_sent: None,
                    buttons: 0,
                    last_repin: None,
                    just_crossed: false,
                    suppress_next: false,
                    hotkey_return_point: None,
                    ..v
                },
                mouse,
            );
        },
        _ => {},
    }
}

/// When control comes home every modifier, key and button that is held on the
/// controlled machine is let go of there, and none is remembered as held.
pub proof fn law_nothing_stays_held(
    v: MacView,
    from: ActiveView,
    at: Point,
    now: u64,
    button: MouseButton,
    key_code: u16,
)
    ensures
        ({
            let (state, plan) = v.came_home(from, at, now);
            &&& state.buttons == 0 && state.keys.len() == 0 && state.modifiers.len() == 0
            &&& held(v.buttons, button) ==> plan.actions.contains(
                ActionView::Send(EventView::MouseButton { button, down: false }),
            )
            &&& v.keys.contains(key_code) || v.modifiers.contains(key_code)
                ==> plan.actions.contains(
                ActionView::Send(EventView::Key { key_code, down: false }),
            )
        }),
{
    let actions = v.came_home(from, at, now).1.actions;
    let park = sends(seq![park_event(from)]);
    let modifiers = sends(key_releases(v.modifiers));
    let keys = sends(key_releases(v.keys));
    let buttons = sends(button_releases(v.buttons));
    law_every_held_button_is_released(v.buttons, button);
    law_every_held_key_is_released(v.keys, key_code);
    law_every_held_key_is_released(v.modifiers, key_code);
    if held(v.buttons, button) {
        let up = EventView::MouseButton { button, down: false };
        let all = button_releases(v.buttons);
        let i = choose|i: int| 0 <= i < all.len() && all[i] == up;
        assert(buttons[i] == ActionView::Send(up));
        assert(actions[park.len() + modifiers.len() + keys.len() + i] == ActionView::Send(up));
    }
    let up = EventView::Key { key_code, down: false };
    if v.keys.contains(key_code) {
        let all = key_releases(v.keys);
        let i = choose|i: int| 0 <= i < all.len() && all[i] == up;
        assert(keys[i] == ActionView::Send(up));
        assert(actions[park.len() + modifiers.len() + i] == ActionView::Send(up));
    } else if v.modifiers.contains(key_code) {
        let all = key_releases(v.modifiers);
        let i = choose|i: int| 0 <= i < all.len() && all[i] == up;
        assert(modifiers[i] == ActionView::Send(up));
        assert(actions[park.len() + i] == ActionView::Send(up));
    }
}

/// Showing the cursor undoes every hiding: it is shown as often as it was
/// hidden.
pub proof fn law_showing_undoes_hiding(v: MacView)
    requires
        v.cursor_hidden,
    ensures
        v.showed().1.contains(ActionView::Show { times: v.hide_depth }),
        v.showed().0.hide_depth == 0,
        !v.showed().0.cursor_hidden,
{
    assert(v.showed().1[1] == ActionView::Show { times: v.hide_depth });
}

/// Right after coming home no edge is crossed.
pub proof fn law_no_crossing_right_after_returning(
    v: MacView,
    from: ActiveView,
    at: Point,
    now: u64,
    location: Point,
    d: Point,
    targets: Seq<TargetView>,
    later: u64,
)
    requires
        age(later, now) < RETURN_COOLDOWN,
    ensures
        v.came_home(from, at, now).0.moved_here(location, d, targets, later).1 == nothing(false),
{
}

} // verus!
