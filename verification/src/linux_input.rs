//! Input capture on Linux: the events that the compositor streams, what they
//! mean, and the session that they arrive through.

use crate::double::{difference, rounded, zero, Double};
use crate::edge::Point;
use crate::keys::{
    button_of_evdev, evdev_to_windows_vk, map_button, vk_of_evdev, LinuxButton,
};
use crate::single::{
    difference_single, product_single, quotient_single, sum_single, truncated,
};
use vstd::prelude::*;

verus! {

/// A pointer barrier along one screen edge, in the compositor's coordinates,
/// from one position to another, both included.
#[derive(Debug, Clone, Copy, PartialEq, Eq, Structural)]
pub struct BarrierSpec {
    pub id: u32,
    pub x1: i32,
    pub y1: i32,
    pub x2: i32,
    pub y2: i32,
}

/// Captured input, in the codes that go over the wire.
#[derive(Debug, Clone, Copy, PartialEq, Eq, Structural)]
pub enum CaptureEvent {
    /// A barrier was crossed, with the cursor there.
    Activated { barrier_id: u32, x: Double, y: Double },
    Motion { dx: Double, dy: Double },
    Button { button: LinuxButton, down: bool },
    /// Scrolling in whole notches.
    Scroll { delta_x: i32, delta_y: i32 },
    Key { vk: u16, down: bool },
    /// The compositor ended the capture.
    Deactivated,
}

/// What is to happen after an event.
#[derive(Debug, Clone, Copy, PartialEq, Eq, Structural)]
pub enum Reaction {
    /// Keep capturing.
    Continue,
    /// Hand control back, with the cursor there.
    Release { x: Double, y: Double },
}

/// The outcome of arming barriers.
#[derive(Debug)]
pub struct CaptureReady {
    pub accepted_barriers: usize,
    pub failed_barriers: Vec<u32>,
    /// The zones that the compositor reports: position and size.
    pub zones: Vec<(i32, i32, u32, u32)>,
}

// ---------------------------------------------------------------------------
// Scrolling
// ---------------------------------------------------------------------------
/// What one notch of a wheel counts.
pub const NOTCH: i64 = 120;

/// The whole notches in an amount of scrolling, counted towards zero.
pub open spec fn notches_in(amount: int) -> int {
    if amount >= 0 {
        amount / NOTCH as int
    } else {
        -((-amount) / NOTCH as int)
    }
}

pub fn discrete_to_notches(discrete: i64) -> (r: i64)
    requires
        discrete > i64::MIN,
    ensures
        r == notches_in(discrete as int),
{
    if discrete >= 0 {
        discrete / NOTCH
    } else {
        -((-discrete) / NOTCH)
    }
}

/// The pixels in one notch of smooth scrolling.
pub open spec fn pixels_per_notch() -> Double {
    Double { bits: 0x402e_0000_0000_0000 }
}

/// Scrolling as it goes over the wire, if there is any. The vertical axis is
/// turned round: the compositor counts down as positive, the wire up.
pub open spec fn scrolled(notches_x: int, notches_y: int) -> Option<CaptureEvent> {
    let delta_x = notches_x as i32;
    let delta_y = turned(notches_y);
    if delta_x == 0 && delta_y == 0 {
        None
    } else {
        Some(CaptureEvent::Scroll { delta_x, delta_y })
    }
}

/// The opposite of a 32-bit integer, kept within 32 bits.
pub open spec fn turned(n: int) -> i32 {
    if -n > i32::MAX {
        i32::MAX
    } else {
        (-n) as i32
    }
}

fn scroll_event(notches_x: i32, notches_y: i32) -> (r: Option<CaptureEvent>)
    ensures
        r == scrolled(notches_x as int, notches_y as int),
{
    let delta_y: i32 = if notches_y == i32::MIN {
        i32::MAX
    } else {
        -notches_y
    };
    if notches_x == 0 && delta_y == 0 {
        None
    } else {
        Some(CaptureEvent::Scroll { delta_x: notches_x, delta_y })
    }
}

/// Turns the compositor's two kinds of scrolling into whole notches.
///
/// A click of a wheel arrives twice in one frame, in pixels and in fractions of
/// a notch. So pixels are held back until the next event shows that nothing
/// else comes for them: what belongs to one frame carries the same time.
#[derive(Debug, Clone, Copy, PartialEq, Eq)]
pub struct ScrollState {
    /// Pixels of a frame that are held back, with its time.
    pub pending: Option<(u64, Double, Double)>,
    /// Pixels that did not make a notch yet.
    pub residue_x: Double,
    pub residue_y: Double,
    /// Fractions that did not make a notch yet.
    pub residue_v120_x: i32,
    pub residue_v120_y: i32,
}

impl Default for ScrollState {
    fn default() -> (r: ScrollState)
        ensures
            r == no_scrolling(),
    {
        ScrollState {
            pending: None,
            residue_x: Double::zero(),
            residue_y: Double::zero(),
            residue_v120_x: 0,
            residue_v120_y: 0,
        }
    }
}

pub open spec fn no_scrolling() -> ScrollState {
    ScrollState {
        pending: None,
        residue_x: zero(),
        residue_y: zero(),
        residue_v120_x: 0,
        residue_v120_y: 0,
    }
}

/// The notches in an amount of pixels, without a fraction.
pub open spec fn smooth_notches(pixels: Double) -> Double {
    truncated(quotient_single(pixels, pixels_per_notch()))
}

/// The pixels that are left of an amount without its notches.
pub open spec fn smooth_rest(pixels: Double) -> Double {
    difference_single(pixels, product_single(smooth_notches(pixels), pixels_per_notch()))
}

fn split_pixels(pixels: Double) -> (r: (i32, Double))
    ensures
        r.0 == rounded(smooth_notches(pixels)),
        r.1 == smooth_rest(pixels),
{
    let per_notch = Double { bits: 0x402e_0000_0000_0000 };
    let notches = pixels.over(per_notch).to_single().trunc();
    let rest = pixels.minus(notches.times(per_notch).to_single()).to_single();
    (notches.round(), rest)
}

impl ScrollState {
    /// Gives out the whole notches of what is held back, and keeps the rest.
    pub open spec fn flushed(self) -> (ScrollState, Option<CaptureEvent>) {
        match self.pending {
            None => (self, None),
            Some((_, dx, dy)) => {
                let x = sum_single(self.residue_x, dx);
                let y = sum_single(self.residue_y, dy);
                (
                    ScrollState {
                        pending: None,
                        residue_x: smooth_rest(x),
                        residue_y: smooth_rest(y),
                        ..self
                    },
                    scrolled(rounded(smooth_notches(x)) as int, rounded(smooth_notches(y)) as int),
                )
            },
        }
    }

    /// Pixels arrived. Those of one frame are added up; those of an earlier one
    /// are given out.
    pub open spec fn after_delta(self, time: u64, dx: Double, dy: Double) -> (
        ScrollState,
        Option<CaptureEvent>,
    ) {
        match self.pending {
            Some((at, x, y)) if at == time => (
                ScrollState {
                    pending: Some((at, sum_single(x, dx), sum_single(y, dy))),
                    ..self
                },
                None,
            ),
            _ => (
                ScrollState { pending: Some((time, dx, dy)), ..self.flushed().0 },
                self.flushed().1,
            ),
        }
    }

    /// Fractions of a notch arrived. They replace the pixels of their frame, and
    /// add up until they make a notch.
    pub open spec fn after_discrete(self, time: u64, dx: i32, dy: i32) -> (
        ScrollState,
        Option<CaptureEvent>,
    ) {
        let x = self.residue_v120_x + dx;
        let y = self.residue_v120_y + dy;
        (
            ScrollState {
                pending: match self.pending {
                    Some((at, _, _)) if at == time => None,
                    other => other,
                },
                residue_v120_x: (x - NOTCH * notches_in(x)) as i32,
                residue_v120_y: (y - NOTCH * notches_in(y)) as i32,
                ..self
            },
            scrolled(notches_in(x), notches_in(y)),
        )
    }

    /// The gesture is over, and with it what did not make a notch.
    pub open spec fn stopped(self) -> (ScrollState, Option<CaptureEvent>) {
        (
            ScrollState { residue_x: zero(), residue_y: zero(), ..self.flushed().0 },
            self.flushed().1,
        )
    }

    pub fn flush(&mut self) -> (r: Option<CaptureEvent>)
        ensures
            (*final(self), r) == old(self).flushed(),
    {
        match self.pending {
            None => None,
            Some((_, dx, dy)) => {
                self.pending = None;
                let (notches_x, rest_x) = split_pixels(self.residue_x.plus(dx).to_single());
                let (notches_y, rest_y) = split_pixels(self.residue_y.plus(dy).to_single());
                self.residue_x = rest_x;
                self.residue_y = rest_y;
                scroll_event(notches_x, notches_y)
            },
        }
    }

    pub fn delta(&mut self, time: u64, dx: Double, dy: Double) -> (r: Option<CaptureEvent>)
        ensures
            (*final(self), r) == old(self).after_delta(time, dx, dy),
    {
        match self.pending {
            Some((at, x, y)) => {
                if at == time {
                    self.pending = Some((at, x.plus(dx).to_single(), y.plus(dy).to_single()));
                    return None;
                }
            },
            None => {},
        }
        let flushed = self.flush();
        self.pending = Some((time, dx, dy));
        flushed
    }

    pub fn discrete(&mut self, time: u64, dx: i32, dy: i32) -> (r: Option<CaptureEvent>)
        ensures
            (*final(self), r) == old(self).after_discrete(time, dx, dy),
    {
        match self.pending {
            Some((at, _, _)) => {
                if at == time {
                    self.pending = None;
                }
            },
            None => {},
        }
        let x: i64 = self.residue_v120_x as i64 + dx as i64;
        let y: i64 = self.residue_v120_y as i64 + dy as i64;
        let notches_x: i64 = discrete_to_notches(x);
        let notches_y: i64 = discrete_to_notches(y);
        assert(-0x1000_0000 < notches_x < 0x1000_0000);
        assert(-0x1000_0000 < notches_y < 0x1000_0000);
        self.residue_v120_x = (x - NOTCH * notches_x) as i32;
        self.residue_v120_y = (y - NOTCH * notches_y) as i32;
        scroll_event(notches_x as i32, notches_y as i32)
    }

    pub fn stop(&mut self) -> (r: Option<CaptureEvent>)
        ensures
            (*final(self), r) == old(self).stopped(),
    {
        let flushed = self.flush();
        self.residue_x = Double::zero();
        self.residue_y = Double::zero();
        flushed
    }
}

/// A click of a wheel counts once, though it arrives twice: its pixels are gone
/// once its fractions arrived, so closing the frame adds nothing.
pub proof fn law_a_wheel_click_counts_once(
    state: ScrollState,
    time: u64,
    dx: Double,
    dy: Double,
    discrete_dx: i32,
    discrete_dy: i32,
)
    ensures
        ({
            let held_back = state.after_delta(time, dx, dy).0;
            let counted = held_back.after_discrete(time, discrete_dx, discrete_dy).0;
            counted.pending is None && counted.flushed() == (counted, None::<CaptureEvent>)
        }),
{
}

/// Fractions of a notch that arrive at a time.
pub struct Step {
    pub time: u64,
    pub dx: i32,
    pub dy: i32,
}

/// The fractions of a notch in a series of steps, along both axes.
pub open spec fn total(steps: Seq<Step>) -> (int, int)
    decreases steps.len(),
{
    if steps.len() == 0 {
        (0, 0)
    } else {
        let (x, y) = total(steps.drop_last());
        (x + steps.last().dx, y + steps.last().dy)
    }
}

/// The state after a series of steps, and what was returned for each of them.
pub open spec fn after_steps(state: ScrollState, steps: Seq<Step>) -> (
    ScrollState,
    Seq<Option<CaptureEvent>>,
)
    decreases steps.len(),
{
    if steps.len() == 0 {
        (state, seq![])
    } else {
        let (before, answers) = after_steps(state, steps.drop_last());
        let Step { time, dx, dy } = steps.last();
        let (after, answer) = before.after_discrete(time, dx, dy);
        (after, answers.push(answer))
    }
}

/// The notches in a series of events, along both axes and in the compositor's
/// direction: it counts downwards what an event counts upwards.
pub open spec fn given(answers: Seq<Option<CaptureEvent>>) -> (int, int)
    decreases answers.len(),
{
    if answers.len() == 0 {
        (0, 0)
    } else {
        let (x, y) = given(answers.drop_last());
        match answers.last() {
            Some(CaptureEvent::Scroll { delta_x, delta_y }) => (x + delta_x, y - delta_y),
            _ => (x, y),
        }
    }
}

/// No fraction of a notch is lost or counted twice, along either axis and
/// whenever it arrives: the events that are returned and what is kept add up to
/// what arrived, and what is kept is less than a notch.
pub proof fn law_scrolling_is_conserved(state: ScrollState, steps: Seq<Step>)
    requires
        -NOTCH < state.residue_v120_x < NOTCH,
        -NOTCH < state.residue_v120_y < NOTCH,
    ensures
        ({
            let (after, answers) = after_steps(state, steps);
            &&& state.residue_v120_x + total(steps).0 == NOTCH * given(answers).0
                + after.residue_v120_x
            &&& state.residue_v120_y + total(steps).1 == NOTCH * given(answers).1
                + after.residue_v120_y
            &&& -NOTCH < after.residue_v120_x < NOTCH
            &&& -NOTCH < after.residue_v120_y < NOTCH
        }),
    decreases steps.len(),
{
    if steps.len() > 0 {
        law_scrolling_is_conserved(state, steps.drop_last());
        let (before, answers) = after_steps(state, steps.drop_last());
        let answer = before.after_discrete(steps.last().time, steps.last().dx, steps.last().dy).1;
        assert(answers.push(answer).drop_last() =~= answers);
    }
}

// ---------------------------------------------------------------------------
// The compositor's events
// ---------------------------------------------------------------------------
/// An event of the compositor's stream, as far as it matters here.
#[derive(Debug, Clone, Copy, PartialEq, Eq, Structural)]
pub enum StreamEvent {
    SeatAdded,
    PointerMotion { dx: Double, dy: Double },
    PointerMotionAbsolute { x: Double, y: Double },
    Button { code: u32, press: bool },
    ScrollDelta { time: u64, dx: Double, dy: Double },
    ScrollDiscrete { time: u64, steps_x: i32, steps_y: i32 },
    Frame,
    ScrollStop,
    ScrollCancel,
    KeyboardKey { code: u32, press: bool },
    DevicePaused,
    Disconnected,
    Other,
}

/// What an event of the stream means. The first absolute position only tells
/// where the next ones start from.
pub open spec fn translated(
    event: StreamEvent,
    last_absolute: Option<Point>,
    scroll: ScrollState,
) -> (Option<Point>, ScrollState, Option<CaptureEvent>) {
    match event {
        StreamEvent::PointerMotion { dx, dy } => (
            last_absolute,
            scroll,
            Some(CaptureEvent::Motion { dx, dy }),
        ),
        StreamEvent::PointerMotionAbsolute { x, y } => (
            Some(Point { x, y }),
            scroll,
            match last_absolute {
                Some(last) => Some(
                    CaptureEvent::Motion {
                        dx: difference(x, last.x),
                        dy: difference(y, last.y),
                    },
                ),
                None => None,
            },
        ),
        StreamEvent::Button { code, press } => (
            last_absolute,
            scroll,
            match button_of_evdev(code) {
                Some(button) => Some(CaptureEvent::Button { button, down: press }),
                None => None,
            },
        ),
        StreamEvent::ScrollDiscrete { time, steps_x, steps_y } => {
            let (scroll, answer) = scroll.after_discrete(time, steps_x, steps_y);
            (last_absolute, scroll, answer)
        },
        StreamEvent::ScrollDelta { time, dx, dy } => {
            let (scroll, answer) = scroll.after_delta(time, dx, dy);
            (last_absolute, scroll, answer)
        },
        StreamEvent::Frame => {
            let (scroll, answer) = scroll.flushed();
            (last_absolute, scroll, answer)
        },
        StreamEvent::ScrollStop => {
            let (scroll, answer) = scroll.stopped();
            (last_absolute, scroll, answer)
        },
        StreamEvent::ScrollCancel => {
            let (scroll, answer) = scroll.stopped();
            (last_absolute, scroll, answer)
        },
        StreamEvent::KeyboardKey { code, press } => (
            last_absolute,
            scroll,
            match vk_of_evdev(code) {
                Some(vk) => Some(CaptureEvent::Key { vk, down: press }),
                None => None,
            },
        ),
        StreamEvent::DevicePaused => (last_absolute, scroll, Some(CaptureEvent::Deactivated)),
        StreamEvent::Disconnected => (last_absolute, scroll, Some(CaptureEvent::Deactivated)),
        StreamEvent::SeatAdded => (last_absolute, scroll, None),
        StreamEvent::Other => (last_absolute, scroll, None),
    }
}

pub fn translate_ei_event(
    event: StreamEvent,
    last_absolute: &mut Option<Point>,
    scroll: &mut ScrollState,
) -> (r: Option<CaptureEvent>)
    ensures
        (*final(last_absolute), *final(scroll), r) == translated(
            event,
            *old(last_absolute),
            *old(scroll),
        ),
{
    match event {
        StreamEvent::PointerMotion { dx, dy } => Some(CaptureEvent::Motion { dx, dy }),
        StreamEvent::PointerMotionAbsolute { x, y } => {
            let before = *last_absolute;
            *last_absolute = Some(Point { x, y });
            match before {
                Some(last) => Some(
                    CaptureEvent::Motion { dx: x.minus(last.x), dy: y.minus(last.y) },
                ),
                None => None,
            }
        },
        StreamEvent::Button { code, press } => match map_button(code) {
            Some(button) => Some(CaptureEvent::Button { button, down: press }),
            None => None,
        },
        StreamEvent::ScrollDiscrete { time, steps_x, steps_y } => scroll.discrete(
            time,
            steps_x,
            steps_y,
        ),
        StreamEvent::ScrollDelta { time, dx, dy } => scroll.delta(time, dx, dy),
        StreamEvent::Frame => scroll.flush(),
        StreamEvent::ScrollStop => scroll.stop(),
        StreamEvent::ScrollCancel => scroll.stop(),
        StreamEvent::KeyboardKey { code, press } => match evdev_to_windows_vk(code) {
            Some(vk) => Some(CaptureEvent::Key { vk, down: press }),
            None => None,
        },
        StreamEvent::DevicePaused => Some(CaptureEvent::Deactivated),
        StreamEvent::Disconnected => Some(CaptureEvent::Deactivated),
        StreamEvent::SeatAdded => None,
        StreamEvent::Other => None,
    }
}

// ---------------------------------------------------------------------------
// The session
// ---------------------------------------------------------------------------
/// What happens to an event when nothing listens: the cursor is handed back
/// rather than left captured.
pub open spec fn unheard(event: CaptureEvent) -> Reaction {
    match event {
        CaptureEvent::Activated { x, y, .. } => Reaction::Release { x, y },
        _ => Reaction::Continue,
    }
}

pub fn reaction_without_handler(event: CaptureEvent) -> (r: Reaction)
    ensures
        r == unheard(event),
{
    match event {
        CaptureEvent::Activated { x, y, .. } => Reaction::Release { x, y },
        _ => Reaction::Continue,
    }
}

/// The portal session: whether it is enabled, which activation is in force, and
/// what its stream left to go on from.
#[derive(Debug, Clone, Copy, PartialEq, Eq)]
pub struct CaptureSession {
    pub enabled: bool,
    pub activation_id: Option<u32>,
    pub last_absolute: Option<Point>,
    pub scroll: ScrollState,
}

/// A request to hand the cursor back.
#[derive(Debug, Clone, Copy, PartialEq, Eq, Structural)]
pub struct Release {
    pub activation_id: Option<u32>,
    pub at: Point,
}

impl CaptureSession {
    /// A session that is open and not enabled.
    pub fn new() -> (r: CaptureSession)
        ensures
            r == (CaptureSession {
                enabled: false,
                activation_id: None,
                last_absolute: None,
                scroll: no_scrolling(),
            }),
    {
        CaptureSession {
            enabled: false,
            activation_id: None,
            last_absolute: None,
            scroll: ScrollState::default(),
        }
    }

    /// Barriers can only be replaced while the session is not enabled. Says
    /// whether it has to be disabled first, and regards it as disabled.
    pub fn begin_arming(&mut self) -> (r: bool)
        ensures
            r == old(self).enabled,
            *final(self) == (CaptureSession { enabled: false, ..*old(self) }),
    {
        let disable: bool = self.enabled;
        self.enabled = false;
        disable
    }

    /// Arming ended; it succeeded if the session could be enabled.
    pub fn end_arming(&mut self, enabled: bool)
        requires
            !old(self).enabled,
        ensures
            *final(self) == (CaptureSession { enabled, activation_id: None, ..*old(self) }),
    {
        self.enabled = enabled;
        self.activation_id = None;
    }

    /// Drops the barriers. Says whether the session has to be disabled.
    pub fn disarm(&mut self) -> (r: bool)
        ensures
            r == old(self).enabled,
            *final(self) == (CaptureSession {
                enabled: false,
                activation_id: None,
                ..*old(self)
            }),
    {
        let disable: bool = self.enabled;
        self.enabled = false;
        self.activation_id = None;
        disable
    }

    /// A barrier was crossed. Absolute positions start anew.
    pub fn activated(
        &mut self,
        activation_id: Option<u32>,
        barrier_id: Option<u32>,
        cursor: Option<Point>,
    ) -> (r: CaptureEvent)
        ensures
            *final(self) == (CaptureSession { activation_id, last_absolute: None, ..*old(self) }),
            r == (CaptureEvent::Activated {
                barrier_id: match barrier_id {
                    Some(id) => id,
                    None => 0,
                },
                x: match cursor {
                    Some(p) => p.x,
                    None => zero(),
                },
                y: match cursor {
                    Some(p) => p.y,
                    None => zero(),
                },
            }),
    {
        self.activation_id = activation_id;
        self.last_absolute = None;
        let barrier_id: u32 = match barrier_id {
            Some(id) => id,
            None => 0,
        };
        match cursor {
            Some(p) => CaptureEvent::Activated { barrier_id, x: p.x, y: p.y },
            None => CaptureEvent::Activated { barrier_id, x: Double::zero(), y: Double::zero() },
        }
    }

    /// An event of the stream arrived.
    pub fn streamed(&mut self, event: StreamEvent) -> (r: Option<CaptureEvent>)
        ensures
            ({
                let (last_absolute, scroll, answer) = translated(
                    event,
                    old(self).last_absolute,
                    old(self).scroll,
                );
                &&& *final(self) == (CaptureSession { last_absolute, scroll, ..*old(self) })
                &&& r == answer
            }),
    {
        translate_ei_event(event, &mut self.last_absolute, &mut self.scroll)
    }

    /// What is left to do after an event was handled: once capture ended there
    /// is nothing to hand back; else the cursor is, if that is asked for.
    pub fn reacted(&mut self, event: CaptureEvent, reaction: Reaction) -> (r: Option<Release>)
        ensures
            r == match (event, reaction) {
                (CaptureEvent::Deactivated, _) => None,
                (_, Reaction::Release { x, y }) => Some(
                    Release { activation_id: old(self).activation_id, at: Point { x, y } },
                ),
                _ => None,
            },
            *final(self) == if event is Deactivated || reaction is Release {
                CaptureSession { activation_id: None, ..*old(self) }
            } else {
                *old(self)
            },
    {
        match event {
            CaptureEvent::Deactivated => {
                self.activation_id = None;
                return None;
            },
            _ => {},
        }
        match reaction {
            Reaction::Release { x, y } => {
                let release = Release {
                    activation_id: self.activation_id,
                    at: Point { x, y },
                };
                self.activation_id = None;
                Some(release)
            },
            Reaction::Continue => None,
        }
    }
}

/// The barriers of a list that the portal takes: those with an id.
pub open spec fn with_ids(barriers: Seq<BarrierSpec>) -> Seq<BarrierSpec> {
    barriers.filter(|barrier: BarrierSpec| barrier.id != 0)
}

pub fn portal_barriers(barriers: &Vec<BarrierSpec>) -> (r: Vec<BarrierSpec>)
    ensures
        r@ == with_ids(barriers@),
{
    let mut kept: Vec<BarrierSpec> = Vec::new();
    let mut i: usize = 0;
    assert(with_ids(barriers@.take(0)) =~= Seq::<BarrierSpec>::empty()) by {
        reveal(Seq::filter);
    }
    while i < barriers.len()
        invariant
            i <= barriers.len(),
            kept@ == with_ids(barriers@.take(i as int)),
        decreases barriers.len() - i,
    {
        proof {
            reveal(Seq::filter);
            assert(barriers@.take(i + 1).drop_last() =~= barriers@.take(i as int));
        }
        if barriers[i].id != 0 {
            kept.push(barriers[i]);
        }
        i = i + 1;
    }
    assert(barriers@.take(barriers.len() as int) =~= barriers@);
    kept
}

/// The outcome of a request for barriers of which some failed.
pub fn barriers_ready(
    requested: usize,
    failed: Vec<u32>,
    zones: Vec<(i32, i32, u32, u32)>,
) -> (r: CaptureReady)
    ensures
        r.accepted_barriers == if requested >= failed@.len() {
            requested - failed@.len()
        } else {
            0
        },
        r.failed_barriers == failed,
        r.zones == zones,
{
    let accepted: usize = if requested >= failed.len() {
        requested - failed.len()
    } else {
        0
    };
    CaptureReady { accepted_barriers: accepted, failed_barriers: failed, zones }
}

// ---------------------------------------------------------------------------
// Generations
// ---------------------------------------------------------------------------
/// Counts how often barriers were armed, so that a capture that was replaced
/// can tell that the barriers in force are not its own.
#[derive(Debug, Clone, Copy, PartialEq, Eq, Structural)]
pub struct Generations {
    pub current: u64,
}

/// The generation after another.
pub open spec fn next_generation(generation: u64) -> u64 {
    if generation == u64::MAX {
        0
    } else {
        (generation + 1) as u64
    }
}

impl Generations {
    pub fn new() -> (r: Generations)
        ensures
            r.current == 0,
    {
        Generations { current: 0 }
    }

    /// Barriers are armed. Says which generation that is.
    pub fn arm(&mut self) -> (r: u64)
        ensures
            final(self).current == next_generation(old(self).current),
            r == final(self).current,
    {
        self.current = if self.current == u64::MAX {
            0
        } else {
            self.current + 1
        };
        self.current
    }

    /// The generation that is armed.
    pub fn generation(&self) -> (r: u64)
        ensures
            r == self.current,
    {
        self.current
    }

    /// Whether the barriers of a generation are still in force, so that ending
    /// it takes them down.
    pub fn disarm_generation(&self, generation: u64) -> (r: bool)
        ensures
            r == (self.current == generation),
    {
        self.current == generation
    }
}

/// A generation after a number of armings.
pub open spec fn armed_again(generation: u64, times: nat) -> u64
    decreases times,
{
    if times == 0 {
        generation
    } else {
        next_generation(armed_again(generation, (times - 1) as nat))
    }
}

/// A capture that was replaced never takes down the barriers of the one that
/// replaced it.
pub proof fn law_a_replaced_capture_disarms_nothing(generation: u64, times: nat)
    requires
        0 < times <= u64::MAX,
    ensures
        armed_again(generation, times) != generation,
{
    lemma_armed_again(generation, times);
}

proof fn lemma_armed_again(generation: u64, times: nat)
    requires
        times <= u64::MAX,
    ensures
        armed_again(generation, times) == (if generation + times <= u64::MAX {
            generation + times
        } else {
            generation + times - 0x1_0000_0000_0000_0000
        }),
    decreases times,
{
    if times > 0 {
        lemma_armed_again(generation, (times - 1) as nat);
    }
}

} // verus!
