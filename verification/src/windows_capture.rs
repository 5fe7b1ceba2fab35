//! Capturing the mouse and keyboard of a Windows machine.
//!
//! The hooks hand every local event to a [`WindowsCapture`], which answers with
//! a [`Plan`]: what to do with the cursor, what to send, and whether the event
//! is swallowed. Where the answer depends on whether a send succeeds, the plan
//! waits for it, and [`WindowsCapture::resume`] goes on from there.

use crate::active::{
    crossing_from, crossing_lands, crossing_target, follow, followed, local_return_point,
    move_event, park_event, remote_cursor_park, remote_mouse_move, return_point, sound,
    wire_screens, ActiveTarget, ActiveView,
};
use crate::clipboard_target::{
    clipboard_view, controlled_clipboard, set_control_clipboard_target, ClipboardTarget,
    ClipboardTargetView,
};
use crate::double::{absolute, difference, rounded, zero, Double};
use crate::edge::Point;
use crate::held::{
    button_releases, event_views, key_releases, keys_after, law_every_held_button_is_released,
    law_every_held_key_is_released, move_due, release_forwarded_keys, release_remote_buttons,
    should_send_mouse_move, track_forwarded_key, update_remote_button_mask,
};
use crate::hotkeys::{screen_switch_hotkey_matches_vk, switches, HotkeyModifiers};
use crate::layout::LayoutState;
use crate::platform::Platform;
use crate::shared_input::{held, with_button, EventView, InputEvent, MouseButton};
use crate::switch::{
    point_or, points_left, remembered_local_screen_point, request_screen_switch_from_point,
    switched, OutcomeView, ScreenPoints, SwitchDirection, SwitchOutcome,
};
use crate::targets::{target_views, InputTarget, TargetView};
use vstd::prelude::*;

verus! {

// ---------------------------------------------------------------------------
// Messages
// ---------------------------------------------------------------------------
pub const WM_KEYDOWN: u32 = 0x0100;

pub const WM_KEYUP: u32 = 0x0101;

pub const WM_SYSKEYDOWN: u32 = 0x0104;

pub const WM_SYSKEYUP: u32 = 0x0105;

pub const WM_MOUSEMOVE: u32 = 0x0200;

pub const WM_LBUTTONDOWN: u32 = 0x0201;

pub const WM_LBUTTONUP: u32 = 0x0202;

pub const WM_RBUTTONDOWN: u32 = 0x0204;

pub const WM_RBUTTONUP: u32 = 0x0205;

pub const WM_MBUTTONDOWN: u32 = 0x0207;

pub const WM_MBUTTONUP: u32 = 0x0208;

pub const WM_MOUSEWHEEL: u32 = 0x020A;

pub const WM_XBUTTONDOWN: u32 = 0x020B;

pub const WM_XBUTTONUP: u32 = 0x020C;

pub const WM_MOUSEHWHEEL: u32 = 0x020E;

/// The first side button, in the upper half of a message's data.
pub const XBUTTON1: u32 = 1;

/// What one notch of a wheel counts.
pub const WHEEL_DELTA: i32 = 120;

/// The side button that a message means.
pub open spec fn side_button(mouse_data: u32) -> MouseButton {
    if mouse_data / 0x1_0000 == XBUTTON1 {
        MouseButton::Back
    } else {
        MouseButton::Forward
    }
}

/// The button that a message presses or releases.
pub open spec fn button_of_message(message: u32, mouse_data: u32) -> Option<(MouseButton, bool)> {
    if message == WM_LBUTTONDOWN {
        Some((MouseButton::Left, true))
    } else if message == WM_LBUTTONUP {
        Some((MouseButton::Left, false))
    } else if message == WM_RBUTTONDOWN {
        Some((MouseButton::Right, true))
    } else if message == WM_RBUTTONUP {
        Some((MouseButton::Right, false))
    } else if message == WM_MBUTTONDOWN {
        Some((MouseButton::Middle, true))
    } else if message == WM_MBUTTONUP {
        Some((MouseButton::Middle, false))
    } else if message == WM_XBUTTONDOWN {
        Some((side_button(mouse_data), true))
    } else if message == WM_XBUTTONUP {
        Some((side_button(mouse_data), false))
    } else {
        None
    }
}

pub fn windows_button(message: u32, mouse_data: u32) -> (r: Option<(MouseButton, bool)>)
    ensures
        r == button_of_message(message, mouse_data),
{
    let side = if mouse_data / 0x1_0000 == XBUTTON1 {
        MouseButton::Back
    } else {
        MouseButton::Forward
    };
    if message == WM_LBUTTONDOWN {
        Some((MouseButton::Left, true))
    } else if message == WM_LBUTTONUP {
        Some((MouseButton::Left, false))
    } else if message == WM_RBUTTONDOWN {
        Some((MouseButton::Right, true))
    } else if message == WM_RBUTTONUP {
        Some((MouseButton::Right, false))
    } else if message == WM_MBUTTONDOWN {
        Some((MouseButton::Middle, true))
    } else if message == WM_MBUTTONUP {
        Some((MouseButton::Middle, false))
    } else if message == WM_XBUTTONDOWN {
        Some((side, true))
    } else if message == WM_XBUTTONUP {
        Some((side, false))
    } else {
        None
    }
}

/// The signed amount in the upper half of a wheel message's data.
pub open spec fn wheel_amount(mouse_data: u32) -> int {
    let high = mouse_data as int / 0x1_0000;
    if high >= 0x8000 {
        high - 0x1_0000
    } else {
        high
    }
}

/// The whole notches in an amount, counted towards zero.
pub open spec fn whole_notches(amount: int) -> int {
    if amount >= 0 {
        amount / WHEEL_DELTA as int
    } else {
        -((-amount) / WHEEL_DELTA as int)
    }
}

/// The scrolling that a message means, across and along.
pub open spec fn scroll_of_message(message: u32, mouse_data: u32) -> Option<(int, int)> {
    let notches = whole_notches(wheel_amount(mouse_data));
    if message == WM_MOUSEHWHEEL {
        Some((notches, 0))
    } else if message == WM_MOUSEWHEEL {
        Some((0, notches))
    } else {
        None
    }
}

pub fn windows_wheel(message: u32, mouse_data: u32) -> (r: Option<(i32, i32)>)
    ensures
        match r {
            Some((x, y)) => scroll_of_message(message, mouse_data) == Some((x as int, y as int)),
            None => scroll_of_message(message, mouse_data) is None,
        },
{
    let high: i32 = (mouse_data / 0x1_0000) as i32;
    let notches: i32 = if high >= 0x8000 {
        -((0x1_0000 - high) / WHEEL_DELTA)
    } else {
        high / WHEEL_DELTA
    };
    if message == WM_MOUSEHWHEEL {
        Some((notches, 0))
    } else if message == WM_MOUSEWHEEL {
        Some((0, notches))
    } else {
        None
    }
}

/// Whether a message is about a key, and whether it goes down.
pub open spec fn key_of_message(message: u32) -> Option<bool> {
    if message == WM_KEYDOWN || message == WM_SYSKEYDOWN {
        Some(true)
    } else if message == WM_KEYUP || message == WM_SYSKEYUP {
        Some(false)
    } else {
        None
    }
}

pub fn windows_key(message: u32) -> (r: Option<bool>)
    ensures
        r == key_of_message(message),
{
    if message == WM_KEYDOWN || message == WM_SYSKEYDOWN {
        Some(true)
    } else if message == WM_KEYUP || message == WM_SYSKEYUP {
        Some(false)
    } else {
        None
    }
}

// ---------------------------------------------------------------------------
// Plans
// ---------------------------------------------------------------------------
/// One thing to do.
#[derive(Debug)]
pub enum Action {
    /// Send an event to the plan's target; whether that succeeds does not
    /// matter.
    Send(InputEvent),
    PlaceCursor { x: i32, y: i32 },
    HideCursor,
    ShowCursor,
}

/// The same, as texts and numbers.
pub enum ActionView {
    Send(EventView),
    PlaceCursor { x: i32, y: i32 },
    HideCursor,
    ShowCursor,
}

impl View for Action {
    type V = ActionView;

    open spec fn view(&self) -> ActionView {
        match self {
            Action::Send(event) => ActionView::Send(event@),
            Action::PlaceCursor { x, y } => ActionView::PlaceCursor { x: *x, y: *y },
            Action::HideCursor => ActionView::HideCursor,
            Action::ShowCursor => ActionView::ShowCursor,
        }
    }
}

/// Why a plan waits for a send.
#[derive(Debug)]
pub enum Pending {
    /// The remote cursor moved.
    Moved { anchor: Point },
    /// A remote screen is being entered, by crossing an edge or by hotkey.
    Entering { active: ActiveTarget, anchor: Point, crossing: bool },
    /// The cursor is brought to where a button goes down or up.
    BeforeButton { button: MouseButton, down: bool },
    Button { button: MouseButton, down: bool },
    /// The cursor is brought to where a wheel turns.
    BeforeScroll { delta_x: i32, delta_y: i32 },
    Scroll,
    Key { key_code: u16, down: bool },
}

/// The same, as texts and numbers.
pub enum PendingView {
    Moved { anchor: Point },
    Entering { active: ActiveView, anchor: Point, crossing: bool },
    BeforeButton { button: MouseButton, down: bool },
    Button { button: MouseButton, down: bool },
    BeforeScroll { delta_x: i32, delta_y: i32 },
    Scroll,
    Key { key_code: u16, down: bool },
}

impl View for Pending {
    type V = PendingView;

    open spec fn view(&self) -> PendingView {
        match self {
            Pending::Moved { anchor } => PendingView::Moved { anchor: *anchor },
            Pending::Entering { active, anchor, crossing } => PendingView::Entering {
                active: active@,
                anchor: *anchor,
                crossing: *crossing,
            },
            Pending::BeforeButton { button, down } => PendingView::BeforeButton {
                button: *button,
                down: *down,
            },
            Pending::Button { button, down } => PendingView::Button { button: *button, down: *down },
            Pending::BeforeScroll { delta_x, delta_y } => PendingView::BeforeScroll {
                delta_x: *delta_x,
                delta_y: *delta_y,
            },
            Pending::Scroll => PendingView::Scroll,
            Pending::Key { key_code, down } => PendingView::Key { key_code: *key_code, down: *down },
        }
    }
}

/// How a plan ends.
#[derive(Debug)]
pub enum Next {
    /// It is over; the local event is swallowed or passed on.
    Done { swallowed: bool },
    /// An event is sent to the plan's target, and whether that succeeds is
    /// handed to `resume`.
    Await { event: InputEvent, pending: Pending },
}

/// The same, as texts and numbers.
pub enum NextView {
    Done { swallowed: bool },
    Await { event: EventView, pending: PendingView },
}

impl View for Next {
    type V = NextView;

    open spec fn view(&self) -> NextView {
        match self {
            Next::Done { swallowed } => NextView::Done { swallowed: *swallowed },
            Next::Await { event, pending } => NextView::Await { event: event@, pending: pending@ },
        }
    }
}

/// What to do about a local event, in this order.
#[derive(Debug)]
pub struct Plan {
    /// Where sends go.
    pub to: Option<InputTarget>,
    pub actions: Vec<Action>,
    pub next: Next,
}

/// The same, as texts and numbers.
pub struct PlanView {
    pub to: Option<TargetView>,
    pub actions: Seq<ActionView>,
    pub next: NextView,
}

/// What a list of actions says.
pub open spec fn action_views(actions: Seq<Action>) -> Seq<ActionView> {
    actions.map_values(|action: Action| action@)
}

impl View for Plan {
    type V = PlanView;

    open spec fn view(&self) -> PlanView {
        PlanView {
            to: match self.to {
                Some(target) => Some(target@),
                None => None,
            },
            actions: action_views(self.actions@),
            next: self.next@,
        }
    }
}

/// The actions that send a list of events.
pub open spec fn sends(events: Seq<EventView>) -> Seq<ActionView> {
    events.map_values(|event: EventView| ActionView::Send(event))
}

fn push_sends(actions: &mut Vec<Action>, events: Vec<InputEvent>)
    ensures
        action_views(final(actions)@) == action_views(old(actions)@) + sends(event_views(events@)),
{
    let ghost all = event_views(events@);
    let mut rest = events;
    let ghost mut done: int = 0;
    assert(all.skip(0) =~= all);
    while rest.len() > 0
        invariant
            0 <= done <= all.len(),
            event_views(rest@) == all.skip(done),
            action_views(actions@) == action_views(old(actions)@) + sends(all.take(done)),
        decreases rest.len(),
    {
        let ghost before = actions@;
        let ghost left = rest@;
        let event = rest.remove(0);
        proof {
            assert(event_views(left).len() == left.len());
            assert(event_views(left)[0] == left[0]@);
            assert(all.skip(done)[0] == all[done]);
            assert forall|j: int| 0 <= j < rest.len() implies event_views(rest@)[j] == all.skip(
                done + 1,
            )[j] by {
                assert(event_views(left)[j + 1] == left[j + 1]@);
                assert(all.skip(done)[j + 1] == all[done + 1 + j]);
            }
            assert(event_views(rest@) =~= all.skip(done + 1));
        }
        actions.push(Action::Send(event));
        proof {
            assert(sends(all.take(done + 1)) =~= sends(all.take(done)).push(
                ActionView::Send(all[done]),
            ));
            assert(action_views(actions@) =~= action_views(before).push(
                ActionView::Send(all[done]),
            ));
            assert(action_views(actions@) =~= action_views(old(actions)@) + sends(
                all.take(done + 1),
            ));
            done = done + 1;
        }
    }
    assert(event_views(rest@).len() == 0);
    assert(all.take(done) =~= all);
}

// ---------------------------------------------------------------------------
// The capture
// ---------------------------------------------------------------------------
/// What the hooks remember between events.
#[derive(Debug)]
pub struct WindowsCapture {
    /// The remote screen that is being controlled.
    pub active: Option<ActiveTarget>,
    /// Whether the rest of the application regards this machine as controlling
    /// another.
    pub remote_active: bool,
    pub clipboard_target: Option<ClipboardTarget>,
    /// Where the local cursor is held while another machine is controlled.
    pub anchor: Option<Point>,
    /// Where the local cursor was last seen.
    pub last_point: Option<Point>,
    pub last_mouse_move_sent: Option<u64>,
    pub remote_button_mask: u64,
    pub pressed_keys: Vec<u16>,
    /// Whether the next movement is what is left of the one that crossed over.
    pub just_crossed: bool,
    pub cursor_hidden: bool,
    pub local_screen_points: ScreenPoints,
}

/// The same, as texts and numbers.
pub struct WindowsView {
    pub active: Option<ActiveView>,
    pub remote_active: bool,
    pub clipboard_target: Option<ClipboardTargetView>,
    pub anchor: Option<Point>,
    pub last_point: Option<Point>,
    pub last_mouse_move_sent: Option<u64>,
    pub buttons: u64,
    pub keys: Seq<u16>,
    pub just_crossed: bool,
    pub cursor_hidden: bool,
    pub points: Map<Seq<char>, Point>,
}

impl View for WindowsCapture {
    type V = WindowsView;

    open spec fn view(&self) -> WindowsView {
        WindowsView {
            active: match self.active {
                Some(active) => Some(active@),
                None => None,
            },
            remote_active: self.remote_active,
            clipboard_target: clipboard_view(self.clipboard_target),
            anchor: self.anchor,
            last_point: self.last_point,
            last_mouse_move_sent: self.last_mouse_move_sent,
            buttons: self.remote_button_mask,
            keys: self.pressed_keys@,
            just_crossed: self.just_crossed,
            cursor_hidden: self.cursor_hidden,
            points: self.local_screen_points@,
        }
    }
}

impl WindowsView {
    /// What always holds: this machine counts as controlling another exactly
    /// while there is a screen that it controls, and nothing is held down there
    /// otherwise.
    pub open spec fn well_formed(self) -> bool {
        &&& self.remote_active == (self.active is Some)
        &&& self.active matches Some(a) ==> sound(a)
        &&& self.active is None ==> self.buttons == 0 && self.keys.len() == 0
    }

    /// Whether the capture waits for the result of a send in this way.
    pub open spec fn waits_for(self, pending: PendingView) -> bool {
        match pending {
            PendingView::Entering { active, .. } => self.active is None && sound(active),
            _ => self.active is Some,
        }
    }

    /// The target of what is controlled.
    pub open spec fn target(self) -> Option<TargetView> {
        match self.active {
            Some(a) => Some(a.target),
            None => None,
        }
    }

    /// What the capture is once the cursor is shown.
    pub open spec fn shown(self) -> WindowsView {
        WindowsView { cursor_hidden: false, ..self }
    }

    /// What the capture is once the cursor is hidden.
    pub open spec fn hidden(self) -> WindowsView {
        WindowsView { cursor_hidden: true, ..self }
    }

    /// Showing the cursor, where it is hidden.
    pub open spec fn showing(self) -> Seq<ActionView> {
        if self.cursor_hidden {
            seq![ActionView::ShowCursor]
        } else {
            Seq::empty()
        }
    }

    /// Hiding the cursor, where it is shown.
    pub open spec fn hiding(self) -> Seq<ActionView> {
        if self.cursor_hidden {
            Seq::empty()
        } else {
            seq![ActionView::HideCursor]
        }
    }

    /// Letting go of everything that is held down on the controlled machine.
    pub open spec fn releasing(self) -> Seq<ActionView> {
        sends(key_releases(self.keys)) + sends(button_releases(self.buttons))
    }

    /// Control comes home, and everything held is let go of.
    pub open spec fn released(self, clear_clipboard: bool) -> (WindowsView, PlanView) {
        (
            WindowsView {
                active: None,
                remote_active: false,
                clipboard_target: if clear_clipboard {
                    None
                } else {
                    self.clipboard_target
                },
                anchor: None,
                last_point: None,
                last_mouse_move_sent: None,
                buttons: 0,
                keys: Seq::empty(),
                just_crossed: false,
                cursor_hidden: false,
                points: self.points,
            },
            PlanView {
                to: self.target(),
                actions: if self.active is Some {
                    self.releasing() + self.showing()
                } else {
                    self.showing()
                },
                next: NextView::Done { swallowed: true },
            },
        )
    }

    /// The controlled machine cannot be reached any more.
    pub open spec fn lost(self) -> (WindowsView, PlanView) {
        (
            WindowsView {
                active: None,
                remote_active: false,
                clipboard_target: None,
                anchor: None,
                last_mouse_move_sent: None,
                buttons: 0,
                keys: Seq::empty(),
                cursor_hidden: false,
                ..self
            },
            PlanView {
                to: None,
                actions: self.showing(),
                next: NextView::Done { swallowed: false },
            },
        )
    }

    /// The cursor came home over the edge that it left by.
    pub open spec fn came_home(self, moved: ActiveView) -> (WindowsView, PlanView) {
        (
            WindowsView {
                active: None,
                remote_active: false,
                anchor: None,
                last_mouse_move_sent: None,
                buttons: 0,
                keys: Seq::empty(),
                cursor_hidden: false,
                ..self
            },
            PlanView {
                to: Some(moved.target),
                actions: sends(seq![park_event(moved)]) + self.releasing() + self.showing()
                    + seq![placing(return_point(moved))],
                next: NextView::Done { swallowed: true },
            },
        )
    }

    /// The local cursor is put back, out of sight.
    pub open spec fn held_back(self, anchor: Point) -> (WindowsView, PlanView) {
        (
            self.hidden(),
            PlanView {
                to: None,
                actions: self.hiding() + seq![placing(anchor)],
                next: NextView::Done { swallowed: true },
            },
        )
    }

    /// Asking a remote screen to take the cursor.
    pub open spec fn entering(self, a: ActiveView, crossing: bool) -> (WindowsView, PlanView) {
        let anchor = return_point(a);
        (
            self.hidden(),
            PlanView {
                to: Some(a.target),
                actions: self.hiding() + seq![placing(anchor)],
                next: NextView::Await {
                    event: move_event(a),
                    pending: PendingView::Entering { active: a, anchor, crossing },
                },
            },
        )
    }

    /// A remote screen took the cursor.
    pub open spec fn entered(
        self,
        a: ActiveView,
        anchor: Point,
        crossing: bool,
        layout: LayoutState,
        now: u64,
    ) -> (WindowsView, PlanView) {
        (
            WindowsView {
                active: Some(a),
                remote_active: true,
                clipboard_target: controlled_clipboard(
                    self.clipboard_target,
                    layout,
                    a.target.device_id,
                ),
                anchor: Some(anchor),
                last_mouse_move_sent: if crossing {
                    Some(now)
                } else {
                    self.last_mouse_move_sent
                },
                buttons: if crossing {
                    0
                } else {
                    self.buttons
                },
                just_crossed: crossing,
                ..self
            },
            PlanView { to: None, actions: Seq::empty(), next: NextView::Done { swallowed: true } },
        )
    }

    /// A remote screen did not take the cursor.
    pub open spec fn not_entered(self) -> (WindowsView, PlanView) {
        (
            WindowsView { last_mouse_move_sent: None, buttons: 0, cursor_hidden: false, ..self },
            PlanView {
                to: None,
                actions: self.showing(),
                next: NextView::Done { swallowed: false },
            },
        )
    }

    /// The mouse moved while another machine is controlled. The local cursor is
    /// held at the anchor, so its distance from there is the movement.
    pub open spec fn moved_there(
        self,
        a: ActiveView,
        p: Point,
        layout: LayoutState,
        now: u64,
    ) -> (WindowsView, PlanView) {
        let anchor = match self.anchor {
            Some(anchor) => anchor,
            None => p,
        };
        let d = Point { x: difference(p.x, anchor.x), y: difference(p.y, anchor.y) };
        if absolute(d.x).below(stillness()) && absolute(d.y).below(stillness()) {
            (self, nothing(true))
        } else if self.just_crossed {
            (
                WindowsView { just_crossed: false, ..self },
                PlanView {
                    to: None,
                    actions: seq![placing(anchor)],
                    next: NextView::Done { swallowed: true },
                },
            )
        } else {
            let (moved, home) = followed(a, d, wire_screens(layout, a.target.device_id));
            if home {
                self.came_home(moved)
            } else if move_due(self.last_mouse_move_sent, self.buttons != 0, now) {
                (
                    WindowsView {
                        active: Some(moved),
                        last_mouse_move_sent: Some(now),
                        ..self
                    },
                    PlanView {
                        to: Some(moved.target),
                        actions: Seq::empty(),
                        next: NextView::Await {
                            event: move_event(moved),
                            pending: PendingView::Moved { anchor },
                        },
                    },
                )
            } else {
                WindowsView { active: Some(moved), ..self }.held_back(anchor)
            }
        }
    }

    /// The way from where the mouse was last seen.
    pub open spec fn way_to(self, p: Point) -> Point {
        match self.last_point {
            Some(last) => Point { x: difference(p.x, last.x), y: difference(p.y, last.y) },
            None => Point { x: zero(), y: zero() },
        }
    }

    /// Whether a movement of the mouse crosses no edge, or lands where there are
    /// pixels and can come home from there.
    pub open spec fn move_fits(self, p: Point, targets: Seq<TargetView>) -> bool {
        self.active is Some || (crossing_from(targets, 0, p, self.way_to(p), false) matches Some(a)
            ==> sound(a))
    }

    /// The mouse moved while this machine is at home.
    pub open spec fn moved_here(self, p: Point, targets: Seq<TargetView>) -> (
        WindowsView,
        PlanView,
    ) {
        let seen = WindowsView { last_point: Some(p), ..self };
        match crossing_from(targets, 0, p, self.way_to(p), false) {
            Some(a) => seen.entering(a, true),
            None => (seen, nothing(false)),
        }
    }

    /// The mouse moved.
    pub open spec fn moved(
        self,
        p: Point,
        targets: Seq<TargetView>,
        layout: LayoutState,
        now: u64,
    ) -> (WindowsView, PlanView) {
        match self.active {
            Some(a) => self.moved_there(a, p, layout, now),
            None => self.moved_here(p, targets),
        }
    }

    /// Something happens where the remote cursor is, so the cursor is brought
    /// there first.
    pub open spec fn bringing_cursor(self, pending: PendingView) -> (WindowsView, PlanView) {
        match self.active {
            Some(a) => (
                self,
                PlanView {
                    to: Some(a.target),
                    actions: Seq::empty(),
                    next: NextView::Await { event: move_event(a), pending },
                },
            ),
            None => (self, nothing(false)),
        }
    }

    /// A mouse message arrived.
    pub open spec fn mouse_message(
        self,
        message: u32,
        mouse_data: u32,
        p: Point,
        targets: Seq<TargetView>,
        layout: LayoutState,
        now: u64,
    ) -> (WindowsView, PlanView) {
        if message == WM_MOUSEMOVE {
            self.moved(p, targets, layout, now)
        } else {
            match (
                button_of_message(message, mouse_data),
                scroll_of_message(message, mouse_data),
            ) {
                (Some((button, down)), _) => self.bringing_cursor(
                    PendingView::BeforeButton { button, down },
                ),
                (None, Some((x, y))) => self.bringing_cursor(
                    PendingView::BeforeScroll { delta_x: x as i32, delta_y: y as i32 },
                ),
                (None, None) => (self, nothing(false)),
            }
        }
    }

    /// A key message arrived. A hotkey that goes down brings control home.
    pub open spec fn key_message(
        self,
        message: u32,
        key_code: u16,
        modifiers: HotkeyModifiers,
        layout: LayoutState,
    ) -> (WindowsView, PlanView) {
        match (self.active, key_of_message(message)) {
            (Some(a), Some(down)) => if down && switches(layout, key_code, modifiers) {
                self.released(false)
            } else {
                (
                    self,
                    PlanView {
                        to: Some(a.target),
                        actions: Seq::empty(),
                        next: NextView::Await {
                            event: EventView::Key { key_code, down },
                            pending: PendingView::Key { key_code, down },
                        },
                    },
                )
            },
            _ => (self, nothing(false)),
        }
    }

    /// A send was waited for.
    pub open spec fn resumed(
        self,
        pending: PendingView,
        sent: bool,
        layout: LayoutState,
        now: u64,
    ) -> (WindowsView, PlanView) {
        match pending {
            PendingView::Moved { anchor } => if sent {
                self.held_back(anchor)
            } else {
                self.lost()
            },
            PendingView::Entering { active, anchor, crossing } => if sent {
                self.entered(active, anchor, crossing, layout, now)
            } else {
                self.not_entered()
            },
            PendingView::BeforeButton { button, down } => if sent {
                (
                    WindowsView { last_mouse_move_sent: Some(now), ..self },
                    PlanView {
                        to: self.target(),
                        actions: Seq::empty(),
                        next: NextView::Await {
                            event: EventView::MouseButton { button, down },
                            pending: PendingView::Button { button, down },
                        },
                    },
                )
            } else {
                (self, nothing(false))
            },
            PendingView::Button { button, down } => if sent {
                (
                    WindowsView { buttons: with_button(self.buttons, button, down), ..self },
                    nothing(true),
                )
            } else {
                (self, nothing(false))
            },
            PendingView::BeforeScroll { delta_x, delta_y } => if sent {
                (
                    WindowsView { last_mouse_move_sent: Some(now), ..self },
                    PlanView {
                        to: self.target(),
                        actions: Seq::empty(),
                        next: NextView::Await {
                            event: EventView::Scroll { delta_x, delta_y },
                            pending: PendingView::Scroll,
                        },
                    },
                )
            } else {
                (self, nothing(false))
            },
            PendingView::Scroll => (self, nothing(sent)),
            PendingView::Key { key_code, down } => if sent {
                (
                    WindowsView { keys: keys_after(self.keys, key_code, down), ..self },
                    nothing(true),
                )
            } else {
                (self, nothing(false))
            },
        }
    }

    /// A hotkey asks for another screen.
    pub open spec fn switched_to(self, outcome: OutcomeView, point: Option<Point>) -> (
        WindowsView,
        PlanView,
    ) {
        match outcome {
            OutcomeView::Enter(a) => self.entering(a, false),
            OutcomeView::Return => self.released(false),
            OutcomeView::LocalMove { from_screen_id, to_screen_id, at } => {
                let points = points_left(self.points, from_screen_id, point);
                (
                    WindowsView { points, ..self },
                    PlanView {
                        to: None,
                        actions: seq![placing(point_or(points, to_screen_id, at))],
                        next: NextView::Done { swallowed: true },
                    },
                )
            },
            OutcomeView::Noop => (self, nothing(false)),
        }
    }

    /// The capture ends.
    pub open spec fn ended(self) -> (WindowsView, PlanView) {
        (
            WindowsView {
                active: None,
                remote_active: false,
                clipboard_target: None,
                buttons: 0,
                keys: Seq::empty(),
                cursor_hidden: false,
                ..self
            },
            PlanView {
                to: None,
                actions: self.showing(),
                next: NextView::Done { swallowed: false },
            },
        )
    }
}

/// The largest distance that counts as no movement.
pub open spec fn stillness() -> Double {
    Double { bits: 0x3fb9_9999_9999_999a }
}

/// Putting the local cursor on a position.
pub open spec fn placing(p: Point) -> ActionView {
    ActionView::PlaceCursor { x: rounded(p.x), y: rounded(p.y) }
}

/// A plan that does nothing.
pub open spec fn nothing(swallowed: bool) -> PlanView {
    PlanView { to: None, actions: Seq::empty(), next: NextView::Done { swallowed } }
}

fn place(p: Point) -> (r: Action)
    ensures
        r@ == placing(p),
{
    Action::PlaceCursor { x: p.x.round(), y: p.y.round() }
}

fn idle(swallowed: bool) -> (r: Plan)
    ensures
        r@ == nothing(swallowed),
{
    let plan = Plan { to: None, actions: Vec::new(), next: Next::Done { swallowed } };
    assert(plan@.actions =~= Seq::<ActionView>::empty());
    plan
}

impl WindowsCapture {
    /// A capture that controls nothing yet.
    pub fn new() -> (r: WindowsCapture)
        ensures
            r@ == (WindowsView {
                active: None,
                remote_active: false,
                clipboard_target: None,
                anchor: None,
                last_point: None,
                last_mouse_move_sent: None,
                buttons: 0,
                keys: Seq::empty(),
                just_crossed: false,
                cursor_hidden: false,
                points: Map::empty(),
            }),
            r@.well_formed(),
    {
        let capture = WindowsCapture {
            active: None,
            remote_active: false,
            clipboard_target: None,
            anchor: None,
            last_point: None,
            last_mouse_move_sent: None,
            remote_button_mask: 0,
            pressed_keys: Vec::new(),
            just_crossed: false,
            cursor_hidden: false,
            local_screen_points: ScreenPoints::new(),
        };
        assert(capture@.keys =~= Seq::<u16>::empty());
        capture
    }

    fn show_windows_cursor_if_needed(&mut self, actions: &mut Vec<Action>)
        ensures
            final(self)@ == old(self)@.shown(),
            action_views(final(actions)@) == action_views(old(actions)@) + old(self)@.showing(),
            final(self).active == old(self).active,
    {
        if self.cursor_hidden {
            actions.push(Action::ShowCursor);
            self.cursor_hidden = false;
        }
        assert(action_views(actions@) =~= action_views(old(actions)@) + old(self)@.showing());
    }

    fn hide_windows_cursor_if_needed(&mut self, actions: &mut Vec<Action>)
        ensures
            final(self)@ == old(self)@.hidden(),
            action_views(final(actions)@) == action_views(old(actions)@) + old(self)@.hiding(),
            final(self).active == old(self).active,
    {
        if !self.cursor_hidden {
            actions.push(Action::HideCursor);
            self.cursor_hidden = true;
        }
        assert(action_views(actions@) =~= action_views(old(actions)@) + old(self)@.hiding());
    }

    fn release_held(&mut self, actions: &mut Vec<Action>)
        ensures
            final(self)@ == (WindowsView { buttons: 0, keys: Seq::empty(), ..old(self)@ }),
            action_views(final(actions)@) == action_views(old(actions)@) + old(self)@.releasing(),
            final(self).active == old(self).active,
    {
        let keys = release_forwarded_keys(&self.pressed_keys);
        push_sends(actions, keys);
        self.pressed_keys = Vec::new();
        let buttons = release_remote_buttons(&mut self.remote_button_mask);
        push_sends(actions, buttons);
        assert(action_views(actions@) =~= action_views(old(actions)@) + old(self)@.releasing());
        assert(self@.keys =~= Seq::<u16>::empty());
    }

    /// Brings control home and lets go of everything.
    pub fn release_windows_remote_control(&mut self, clear_clipboard: bool) -> (r: Plan)
        requires
            old(self)@.well_formed(),
        ensures
            (final(self)@, r@) == old(self)@.released(clear_clipboard),
            final(self)@.well_formed(),
    {
        let mut actions: Vec<Action> = Vec::new();
        assert(action_views(actions@) =~= Seq::<ActionView>::empty());
        let to = match self.active.take() {
            Some(active) => {
                self.release_held(&mut actions);
                Some(active.target)
            },
            None => None,
        };
        self.remote_button_mask = 0;
        self.pressed_keys = Vec::new();
        self.remote_active = false;
        self.just_crossed = false;
        self.last_mouse_move_sent = None;
        self.show_windows_cursor_if_needed(&mut actions);
        self.anchor = None;
        self.last_point = None;
        if clear_clipboard {
            self.clipboard_target = None;
        }
        let plan = Plan { to, actions, next: Next::Done { swallowed: true } };
        proof {
            let (state, answer) = old(self)@.released(clear_clipboard);
            assert(self@.keys =~= state.keys);
            assert(plan@.actions =~= answer.actions);
        }
        plan
    }

    fn hold_back(&mut self, anchor: Point) -> (r: Plan)
        ensures
            (final(self)@, r@) == old(self)@.held_back(anchor),
    {
        let mut actions: Vec<Action> = Vec::new();
        assert(action_views(actions@) =~= Seq::<ActionView>::empty());
        self.hide_windows_cursor_if_needed(&mut actions);
        actions.push(place(anchor));
        let plan = Plan { to: None, actions, next: Next::Done { swallowed: true } };
        assert(plan@.actions =~= old(self)@.held_back(anchor).1.actions);
        plan
    }

    fn enter(&mut self, active: ActiveTarget, crossing: bool) -> (r: Plan)
        requires
            sound(active@),
        ensures
            (final(self)@, r@) == old(self)@.entering(active@, crossing),
    {
        let mut actions: Vec<Action> = Vec::new();
        assert(action_views(actions@) =~= Seq::<ActionView>::empty());
        let anchor = local_return_point(&active);
        self.hide_windows_cursor_if_needed(&mut actions);
        actions.push(place(anchor));
        let plan = Plan {
            to: Some(active.target.clone()),
            actions,
            next: Next::Await {
                event: remote_mouse_move(&active),
                pending: Pending::Entering { active, anchor, crossing },
            },
        };
        assert(plan@.actions =~= old(self)@.entering(active@, crossing).1.actions);
        plan
    }

    fn come_home(&mut self, active: ActiveTarget) -> (r: Plan)
        requires
            old(self).active is None,
            sound(active@),
        ensures
            (final(self)@, r@) == old(self)@.came_home(active@),
    {
        let mut actions: Vec<Action> = Vec::new();
        let point = local_return_point(&active);
        actions.push(Action::Send(remote_cursor_park(&active)));
        assert(action_views(actions@) =~= sends(seq![park_event(active@)]));
        self.remote_active = false;
        self.release_held(&mut actions);
        self.last_mouse_move_sent = None;
        self.show_windows_cursor_if_needed(&mut actions);
        actions.push(place(point));
        self.anchor = None;
        let plan = Plan { to: Some(active.target), actions, next: Next::Done { swallowed: true } };
        proof {
            let (state, answer) = old(self)@.came_home(active@);
            assert(self@.keys =~= state.keys);
            assert(plan@.actions =~= answer.actions);
        }
        plan
    }

    fn moved_there(&mut self, active: ActiveTarget, p: Point, layout: &LayoutState, now: u64) -> (r:
        Plan)
        requires
            old(self).active is None,
            old(self).remote_active,
            sound(active@),
        ensures
            (final(self)@, r@) == (WindowsView { active: Some(active@), ..old(self)@ }).moved_there(
                active@,
                p,
                *layout,
                now,
            ),
            final(self)@.well_formed(),
            r@.next matches NextView::Await { pending, .. } ==> final(self)@.waits_for(pending),
    {
        let ghost start = WindowsView { active: Some(active@), ..self@ };
        let ghost a = active@;
        let mut active = active;
        let anchor = match self.anchor {
            Some(anchor) => anchor,
            None => p,
        };
        let d = Point { x: p.x.minus(anchor.x), y: p.y.minus(anchor.y) };
        let still = Double { bits: 0x3fb9_9999_9999_999a };
        if d.x.abs().less(still) && d.y.abs().less(still) {
            self.active = Some(active);
            return idle(true);
        }
        if self.just_crossed {
            self.just_crossed = false;
            self.active = Some(active);
            let mut actions: Vec<Action> = Vec::new();
            actions.push(place(anchor));
            let plan = Plan { to: None, actions, next: Next::Done { swallowed: true } };
            assert(plan@.actions =~= seq![placing(anchor)]);
            return plan;
        }
        if follow(&mut active, d, layout) {
            return self.come_home(active);
        }
        let dragging: bool = self.remote_button_mask != 0;
        if should_send_mouse_move(&mut self.last_mouse_move_sent, dragging, now) {
            let plan = Plan {
                to: Some(active.target.clone()),
                actions: Vec::new(),
                next: Next::Await {
                    event: remote_mouse_move(&active),
                    pending: Pending::Moved { anchor },
                },
            };
            assert(plan@.actions =~= Seq::<ActionView>::empty());
            self.active = Some(active);
            return plan;
        }
        self.active = Some(active);
        self.hold_back(anchor)
    }

    fn way_from_last(&self, p: Point) -> (r: Point)
        ensures
            r == self@.way_to(p),
    {
        match self.last_point {
            Some(last) => Point { x: p.x.minus(last.x), y: p.y.minus(last.y) },
            None => Point { x: Double::zero(), y: Double::zero() },
        }
    }

    /// Whether a mouse movement to `p` can be handled.
    pub fn mouse_move_fits(&self, p: Point, targets: &Vec<InputTarget>) -> (r: bool)
        ensures
            r == self@.move_fits(p, target_views(targets@)),
    {
        self.active.is_some() || crossing_lands(targets, p, self.way_from_last(p))
    }

    /// Handles a mouse movement to `p`.
    pub fn handle_windows_mouse_move(
        &mut self,
        p: Point,
        targets: &Vec<InputTarget>,
        layout: &LayoutState,
        now: u64,
    ) -> (r: Plan)
        requires
            old(self)@.well_formed(),
            old(self)@.move_fits(p, target_views(targets@)),
        ensures
            (final(self)@, r@) == old(self)@.moved(p, target_views(targets@), *layout, now),
            final(self)@.well_formed(),
            r@.next matches NextView::Await { pending, .. } ==> final(self)@.waits_for(pending),
    {
        match self.active.take() {
            Some(active) => {
                assert((WindowsView { active: Some(active@), ..self@ }) == old(self)@);
                self.moved_there(active, p, layout, now)
            },
            None => {
                let d = self.way_from_last(p);
                self.last_point = Some(p);
                match crossing_target(targets, p, d) {
                    Some(active) => self.enter(active, true),
                    None => idle(false),
                }
            },
        }
    }

    fn bring_cursor(&self, pending: Pending) -> (r: Plan)
        ensures
            (self@, r@) == self@.bringing_cursor(pending@),
    {
        match self.active.as_ref() {
            Some(active) => {
                let plan = Plan {
                    to: Some(active.target.clone()),
                    actions: Vec::new(),
                    next: Next::Await { event: remote_mouse_move(active), pending },
                };
                assert(plan@.actions =~= Seq::<ActionView>::empty());
                plan
            },
            None => idle(false),
        }
    }

    /// Handles a button message.
    pub fn handle_windows_mouse_button(&self, button: MouseButton, down: bool) -> (r: Plan)
        ensures
            (self@, r@) == self@.bringing_cursor(PendingView::BeforeButton { button, down }),
    {
        self.bring_cursor(Pending::BeforeButton { button, down })
    }

    /// Handles a wheel message.
    pub fn handle_windows_scroll(&self, delta_x: i32, delta_y: i32) -> (r: Plan)
        ensures
            (self@, r@) == self@.bringing_cursor(PendingView::BeforeScroll { delta_x, delta_y }),
    {
        self.bring_cursor(Pending::BeforeScroll { delta_x, delta_y })
    }

    /// Handles any mouse message.
    pub fn handle_windows_mouse_message(
        &mut self,
        message: u32,
        mouse_data: u32,
        p: Point,
        targets: &Vec<InputTarget>,
        layout: &LayoutState,
        now: u64,
    ) -> (r: Plan)
        requires
            old(self)@.well_formed(),
            message == WM_MOUSEMOVE ==> old(self)@.move_fits(p, target_views(targets@)),
        ensures
            (final(self)@, r@) == old(self)@.mouse_message(
                message,
                mouse_data,
                p,
                target_views(targets@),
                *layout,
                now,
            ),
            final(self)@.well_formed(),
            r@.next matches NextView::Await { pending, .. } ==> final(self)@.waits_for(pending),
    {
        if message == WM_MOUSEMOVE {
            return self.handle_windows_mouse_move(p, targets, layout, now);
        }
        match windows_button(message, mouse_data) {
            Some((button, down)) => {
                return self.handle_windows_mouse_button(button, down);
            },
            None => {},
        }
        match windows_wheel(message, mouse_data) {
            Some((delta_x, delta_y)) => self.handle_windows_scroll(delta_x, delta_y),
            None => idle(false),
        }
    }

    /// Handles a key message.
    pub fn handle_windows_key(
        &mut self,
        message: u32,
        key_code: u16,
        modifiers: HotkeyModifiers,
        layout: &LayoutState,
    ) -> (r: Plan)
        requires
            old(self)@.well_formed(),
        ensures
            (final(self)@, r@) == old(self)@.key_message(message, key_code, modifiers, *layout),
            final(self)@.well_formed(),
            r@.next matches NextView::Await { pending, .. } ==> final(self)@.waits_for(pending),
    {
        let down: bool = match windows_key(message) {
            Some(down) => down,
            None => {
                return idle(false);
            },
        };
        let to = match self.active.as_ref() {
            Some(active) => active.target.clone(),
            None => {
                return idle(false);
            },
        };
        if down && screen_switch_hotkey_matches_vk(layout, key_code, modifiers) {
            return self.release_windows_remote_control(false);
        }
        let plan = Plan {
            to: Some(to),
            actions: Vec::new(),
            next: Next::Await {
                event: InputEvent::Key { key_code, down },
                pending: Pending::Key { key_code, down },
            },
        };
        assert(plan@.actions =~= Seq::<ActionView>::empty());
        plan
    }

    fn go_on(&self, event: InputEvent, pending: Pending) -> (r: Plan)
        ensures
            r@ == (PlanView {
                to: self@.target(),
                actions: Seq::empty(),
                next: NextView::Await { event: event@, pending: pending@ },
            }),
    {
        let to = match self.active.as_ref() {
            Some(active) => Some(active.target.clone()),
            None => None,
        };
        let plan = Plan { to, actions: Vec::new(), next: Next::Await { event, pending } };
        assert(plan@.actions =~= Seq::<ActionView>::empty());
        plan
    }

    fn lose(&mut self) -> (r: Plan)
        ensures
            (final(self)@, r@) == old(self)@.lost(),
    {
        let mut actions: Vec<Action> = Vec::new();
        assert(action_views(actions@) =~= Seq::<ActionView>::empty());
        self.active = None;
        self.remote_active = false;
        self.clipboard_target = None;
        self.last_mouse_move_sent = None;
        self.remote_button_mask = 0;
        self.pressed_keys = Vec::new();
        self.show_windows_cursor_if_needed(&mut actions);
        self.anchor = None;
        let plan = Plan { to: None, actions, next: Next::Done { swallowed: false } };
        assert(self@.keys =~= Seq::<u16>::empty());
        assert(plan@.actions =~= old(self)@.lost().1.actions);
        plan
    }

    /// Goes on once it is known whether the awaited event was sent.
    pub fn resume(&mut self, pending: Pending, sent: bool, layout: &LayoutState, now: u64) -> (r:
        Plan)
        requires
            old(self)@.well_formed(),
            old(self)@.waits_for(pending@),
        ensures
            (final(self)@, r@) == old(self)@.resumed(pending@, sent, *layout, now),
            final(self)@.well_formed(),
            r@.next matches NextView::Await { pending, .. } ==> final(self)@.waits_for(pending),
    {
        match pending {
            Pending::Moved { anchor } => if sent {
                self.hold_back(anchor)
            } else {
                self.lose()
            },
            Pending::Entering { active, anchor, crossing } => {
                if sent {
                    if crossing {
                        self.last_mouse_move_sent = Some(now);
                        self.remote_button_mask = 0;
                    }
                    self.remote_active = true;
                    set_control_clipboard_target(&mut self.clipboard_target, &active, layout);
                    self.active = Some(active);
                    self.anchor = Some(anchor);
                    self.just_crossed = crossing;
                    return idle(true);
                }
                let mut actions: Vec<Action> = Vec::new();
                assert(action_views(actions@) =~= Seq::<ActionView>::empty());
                self.last_mouse_move_sent = None;
                self.remote_button_mask = 0;
                self.show_windows_cursor_if_needed(&mut actions);
                let plan = Plan { to: None, actions, next: Next::Done { swallowed: false } };
                assert(plan@.actions =~= old(self)@.not_entered().1.actions);
                plan
            },
            Pending::BeforeButton { button, down } => {
                if !sent {
                    return idle(false);
                }
                self.last_mouse_move_sent = Some(now);
                self.go_on(
                    InputEvent::MouseButton { button, down },
                    Pending::Button { button, down },
                )
            },
            Pending::Button { button, down } => {
                if sent {
                    update_remote_button_mask(&mut self.remote_button_mask, button, down);
                }
                idle(sent)
            },
            Pending::BeforeScroll { delta_x, delta_y } => {
                if !sent {
                    return idle(false);
                }
                self.last_mouse_move_sent = Some(now);
                self.go_on(InputEvent::Scroll { delta_x, delta_y }, Pending::Scroll)
            },
            Pending::Scroll => idle(sent),
            Pending::Key { key_code, down } => {
                if sent {
                    track_forwarded_key(&mut self.pressed_keys, key_code, down);
                }
                idle(sent)
            },
        }
    }

    /// Handles a hotkey that asks for another screen, with the cursor at
    /// `point`.
    pub fn drain_switch_request_windows(
        &mut self,
        direction: SwitchDirection,
        layout: &LayoutState,
        native_layout: &LayoutState,
        origin_device_id: &str,
        point: Option<Point>,
    ) -> (r: Plan)
        requires
            old(self)@.well_formed(),
            switched(
                direction,
                *layout,
                *native_layout,
                origin_device_id@,
                Platform::Windows,
                old(self)@.active is Some,
                point,
            ) matches OutcomeView::Enter(a) ==> sound(a),
        ensures
            (final(self)@, r@) == old(self)@.switched_to(
                switched(
                    direction,
                    *layout,
                    *native_layout,
                    origin_device_id@,
                    Platform::Windows,
                    old(self)@.active is Some,
                    point,
                ),
                point,
            ),
            final(self)@.well_formed(),
            r@.next matches NextView::Await { pending, .. } ==> final(self)@.waits_for(pending),
    {
        let remote: bool = self.active.is_some();
        match request_screen_switch_from_point(
            direction,
            layout,
            native_layout,
            origin_device_id,
            Platform::Windows,
            remote,
            point,
        ) {
            SwitchOutcome::Enter(active) => self.enter(active, false),
            SwitchOutcome::Return => self.release_windows_remote_control(false),
            SwitchOutcome::LocalMove { from_screen_id, to_screen_id, at } => {
                let p = remembered_local_screen_point(
                    &mut self.local_screen_points,
                    from_screen_id.as_str(),
                    to_screen_id.as_str(),
                    point,
                    at,
                );
                let mut actions: Vec<Action> = Vec::new();
                actions.push(place(p));
                let plan = Plan { to: None, actions, next: Next::Done { swallowed: true } };
                assert(plan@.actions =~= seq![placing(p)]);
                plan
            },
            SwitchOutcome::Noop => idle(false),
        }
    }

    /// Ends the capture.
    pub fn stop(&mut self) -> (r: Plan)
        ensures
            (final(self)@, r@) == old(self)@.ended(),
            final(self)@.well_formed(),
    {
        let mut actions: Vec<Action> = Vec::new();
        assert(action_views(actions@) =~= Seq::<ActionView>::empty());
        self.show_windows_cursor_if_needed(&mut actions);
        self.active = None;
        self.remote_active = false;
        self.clipboard_target = None;
        self.remote_button_mask = 0;
        self.pressed_keys = Vec::new();
        let plan = Plan { to: None, actions, next: Next::Done { swallowed: false } };
        assert(self@.keys =~= Seq::<u16>::empty());
        assert(plan@.actions =~= old(self)@.ended().1.actions);
        plan
    }
}

// ---------------------------------------------------------------------------
// Laws
// ---------------------------------------------------------------------------
/// Whether a list of actions lets go of a button and of a key.
pub open spec fn lets_go(actions: Seq<ActionView>, event: EventView) -> bool {
    actions.contains(ActionView::Send(event))
}

proof fn lemma_sends_contain(events: Seq<EventView>, event: EventView)
    requires
        events.contains(event),
    ensures
        lets_go(sends(events), event),
{
    let i = choose|i: int| 0 <= i < events.len() && events[i] == event;
    assert(sends(events)[i] == ActionView::Send(event));
}

proof fn lemma_releasing_lets_go(
    v: WindowsView,
    before: Seq<ActionView>,
    after: Seq<ActionView>,
    button: MouseButton,
    key_code: u16,
)
    ensures
        held(v.buttons, button) ==> lets_go(
            before + v.releasing() + after,
            EventView::MouseButton { button, down: false },
        ),
        v.keys.contains(key_code) ==> lets_go(
            before + v.releasing() + after,
            EventView::Key { key_code, down: false },
        ),
{
    let all = before + v.releasing() + after;
    let keys = sends(key_releases(v.keys));
    let buttons = sends(button_releases(v.buttons));
    law_every_held_button_is_released(v.buttons, button);
    law_every_held_key_is_released(v.keys, key_code);
    if held(v.buttons, button) {
        let up = EventView::MouseButton { button, down: false };
        lemma_sends_contain(button_releases(v.buttons), up);
        let i = choose|i: int| 0 <= i < buttons.len() && buttons[i] == ActionView::Send(up);
        assert(all[before.len() + keys.len() + i] == ActionView::Send(up));
    }
    if v.keys.contains(key_code) {
        let up = EventView::Key { key_code, down: false };
        lemma_sends_contain(key_releases(v.keys), up);
        let i = choose|i: int| 0 <= i < keys.len() && keys[i] == ActionView::Send(up);
        assert(all[before.len() + i] == ActionView::Send(up));
    }
}

/// Whichever way control comes home, every key and button that is held on the
/// controlled machine is let go of there, and none is remembered as held.
pub proof fn law_nothing_stays_held(
    v: WindowsView,
    moved: ActiveView,
    clear_clipboard: bool,
    button: MouseButton,
    key_code: u16,
)
    requires
        v.active is Some,
    ensures
        ({
            let (state, plan) = v.released(clear_clipboard);
            &&& state.buttons == 0 && state.keys.len() == 0
            &&& held(v.buttons, button) ==> lets_go(
                plan.actions,
                EventView::MouseButton { button, down: false },
            )
            &&& v.keys.contains(key_code) ==> lets_go(
                plan.actions,
                EventView::Key { key_code, down: false },
            )
        }),
        ({
            let (state, plan) = v.came_home(moved);
            &&& state.buttons == 0 && state.keys.len() == 0
            &&& held(v.buttons, button) ==> lets_go(
                plan.actions,
                EventView::MouseButton { button, down: false },
            )
            &&& v.keys.contains(key_code) ==> lets_go(
                plan.actions,
                EventView::Key { key_code, down: false },
            )
        }),
{
    let none = Seq::<ActionView>::empty();
    lemma_releasing_lets_go(v, none, v.showing(), button, key_code);
    assert(none + v.releasing() + v.showing() =~= v.releasing() + v.showing());
    let park = sends(seq![park_event(moved)]);
    let rest = v.showing() + seq![placing(return_point(moved))];
    lemma_releasing_lets_go(v, park, rest, button, key_code);
    assert(park + v.releasing() + rest =~= v.came_home(moved).1.actions);
}

/// Whether the cursor is in sight while this machine is at home.
pub open spec fn cursor_in_sight(v: WindowsView) -> bool {
    v.active is None ==> !v.cursor_hidden
}

/// The local cursor is never left hidden by a mouse message: once it is dealt
/// with, the cursor is in sight or another machine is being controlled.
pub proof fn law_mouse_messages_leave_the_cursor_in_sight(
    v: WindowsView,
    message: u32,
    mouse_data: u32,
    p: Point,
    targets: Seq<TargetView>,
    layout: LayoutState,
    now: u64,
)
    requires
        v.well_formed(),
        cursor_in_sight(v),
    ensures
        ({
            let (state, plan) = v.mouse_message(message, mouse_data, p, targets, layout, now);
            plan.next is Done ==> cursor_in_sight(state)
        }),
{
    if message == WM_MOUSEMOVE {
        let (state, plan) = v.moved(p, targets, layout, now);
        match v.active {
            Some(a) => {
                assert(state == v.moved_there(a, p, layout, now).0);
            },
            None => {
                assert(state == v.moved_here(p, targets).0);
            },
        }
    }
}

/// Nor is it left hidden by a key or a hotkey.
pub proof fn law_keys_leave_the_cursor_in_sight(
    v: WindowsView,
    message: u32,
    key_code: u16,
    modifiers: HotkeyModifiers,
    outcome: OutcomeView,
    point: Option<Point>,
    layout: LayoutState,
)
    requires
        v.well_formed(),
        cursor_in_sight(v),
    ensures
        cursor_in_sight(v.key_message(message, key_code, modifiers, layout).0),
        v.switched_to(outcome, point).1.next is Done ==> cursor_in_sight(
            v.switched_to(outcome, point).0,
        ),
{
}

/// Nor is it left hidden after a send that was waited for.
pub proof fn law_awaited_sends_leave_the_cursor_in_sight(
    v: WindowsView,
    pending: PendingView,
    sent: bool,
    layout: LayoutState,
    now: u64,
)
    requires
        v.well_formed(),
        v.waits_for(pending),
    ensures
        cursor_in_sight(v.resumed(pending, sent, layout, now).0),
{
}

// ---------------------------------------------------------------------------
// The cursor's counter and the input desktop
// ---------------------------------------------------------------------------
/// How often hiding the cursor is tried at most.
pub const HIDE_CALLS: u8 = 8;

/// Whether another call is needed to hide the cursor, after a number of calls
/// of which the last left the display counter at `count`: the cursor is hidden
/// once the counter is negative.
pub fn hide_again(calls: u8, count: i32) -> (r: bool)
    ensures
        r == (calls < HIDE_CALLS && count >= 0),
{
    calls < HIDE_CALLS && count >= 0
}

/// How often a running capture looks which desktop takes input, in nanoseconds.
pub const DESKTOP_CHECK_INTERVAL: u64 = 100_000_000;

/// The same for a machine that only receives.
pub const RECEIVE_DESKTOP_CHECK_INTERVAL: u64 = 250_000_000;

/// The name of the desktop that the user works on, in code units.
pub open spec fn default_desktop() -> Seq<u16> {
    seq![100, 101, 102, 97, 117, 108, 116]
}

/// A code unit with ASCII letters in lower case.
pub open spec fn lower_unit(unit: u16) -> u16 {
    if 65 <= unit <= 90 {
        (unit + 32) as u16
    } else {
        unit
    }
}

pub open spec fn lower_units(units: Seq<u16>) -> Seq<u16> {
    units.map_values(|unit: u16| lower_unit(unit))
}

/// The name in a buffer of which `needed` bytes were filled: whole units only,
/// without the closing zero.
pub open spec fn desktop_name(buffer: Seq<u16>, needed: nat) -> Seq<u16> {
    let units = if needed / 2 < buffer.len() {
        needed / 2
    } else {
        buffer.len()
    };
    if units > 0 && buffer[units - 1] == 0 {
        buffer.take(units - 1)
    } else {
        buffer.take(units as int)
    }
}

/// Whether the desktop in a buffer is the one that the user works on.
pub fn desktop_is_default(buffer: &Vec<u16>, needed: u32) -> (r: bool)
    ensures
        r == (lower_units(desktop_name(buffer@, needed as nat)) == default_desktop()),
{
    let ghost name = desktop_name(buffer@, needed as nat);
    let ghost lowered = lower_units(name);
    let mut units: usize = if ((needed / 2) as usize) < buffer.len() {
        (needed / 2) as usize
    } else {
        buffer.len()
    };
    if units > 0 && buffer[units - 1] == 0 {
        units = units - 1;
    }
    assert(name =~= buffer@.take(units as int));
    let wanted: [u16; 7] = [100, 101, 102, 97, 117, 108, 116];
    assert(wanted@ =~= default_desktop());
    if units != 7 {
        assert(lowered.len() != default_desktop().len());
        return false;
    }
    let mut i: usize = 0;
    while i < 7
        invariant
            i <= 7,
            units == 7,
            units <= buffer.len(),
            name == buffer@.take(7),
            name == desktop_name(buffer@, needed as nat),
            lowered == lower_units(name),
            wanted@ == default_desktop(),
            forall|j: int| 0 <= j < i ==> lowered[j] == default_desktop()[j],
        decreases 7 - i,
    {
        let unit: u16 = buffer[i];
        let low: u16 = if 65 <= unit && unit <= 90 {
            unit + 32
        } else {
            unit
        };
        assert(lowered[i as int] == low);
        if low != wanted[i] {
            assert(lowered[i as int] != default_desktop()[i as int]);
            return false;
        }
        i = i + 1;
    }
    assert(lowered =~= default_desktop());
    true
}

} // verus!
