//! Injecting received input on Linux.
//!
//! Input goes through a libei connection where the portal offers one, with
//! absolute positions, and else through the portal's own relative calls.

use crate::keys::{evdev_of_button, evdev_of_vk, mouse_button_to_evdev, windows_vk_to_evdev};
use crate::linux_input::turned;
use crate::shared_input::MouseButton;
use crate::text::{blank, is_blank, trim, trimmed};
use vstd::prelude::*;

verus! {

// ---------------------------------------------------------------------------
// Commands
// ---------------------------------------------------------------------------
/// What one notch of a wheel counts in libei.
pub const EI_SCROLL_UNIT: i32 = 120;

/// A value kept within 32 bits.
pub open spec fn kept_in_32_bits(n: int) -> i32 {
    if n > i32::MAX {
        i32::MAX
    } else if n < i32::MIN {
        i32::MIN
    } else {
        n as i32
    }
}

fn keep_in_32_bits(n: i64) -> (r: i32)
    ensures
        r == kept_in_32_bits(n as int),
{
    if n > i32::MAX as i64 {
        i32::MAX
    } else if n < i32::MIN as i64 {
        i32::MIN
    } else {
        n as i32
    }
}

/// Scrolling in libei's unit and direction: vertically libei counts down as
/// positive, the wire up.
pub open spec fn ei_scroll(delta_x: int, delta_y: int) -> (i32, i32) {
    (kept_in_32_bits(delta_x * EI_SCROLL_UNIT), kept_in_32_bits(-delta_y * EI_SCROLL_UNIT))
}

pub fn scroll_to_ei(delta_x: i32, delta_y: i32) -> (r: (i32, i32))
    ensures
        r == ei_scroll(delta_x as int, delta_y as int),
{
    (
        keep_in_32_bits(delta_x as i64 * 120),
        keep_in_32_bits(-(delta_y as i64) * 120),
    )
}

/// A command to the injecting thread.
#[derive(Debug, Clone, Copy, PartialEq, Eq, Structural)]
pub enum InjectCommand {
    MouseMove { x: i32, y: i32 },
    MouseButton { evdev_button: u32, down: bool, x: i32, y: i32 },
    Scroll { delta_x: i32, delta_y: i32 },
    Key { evdev_code: u32, down: bool },
    Shutdown,
}

/// A movement is the same with a button held and without.
pub fn inject_mouse_move(x: i32, y: i32, _drag_button: Option<MouseButton>) -> (r: InjectCommand)
    ensures
        r == (InjectCommand::MouseMove { x, y }),
{
    InjectCommand::MouseMove { x, y }
}

pub fn inject_mouse_button(button: MouseButton, down: bool, x: i32, y: i32) -> (r: InjectCommand)
    ensures
        r == (InjectCommand::MouseButton { evdev_button: evdev_of_button(button), down, x, y }),
{
    InjectCommand::MouseButton { evdev_button: mouse_button_to_evdev(button), down, x, y }
}

pub fn inject_scroll(delta_x: i32, delta_y: i32) -> (r: InjectCommand)
    ensures
        r == (InjectCommand::Scroll { delta_x, delta_y }),
{
    InjectCommand::Scroll { delta_x, delta_y }
}

/// A key that Linux does not have is dropped.
pub fn inject_key(key_code: u16, down: bool) -> (r: Option<InjectCommand>)
    ensures
        r == match evdev_of_vk(key_code) {
            Some(evdev_code) => Some(InjectCommand::Key { evdev_code, down }),
            None => None,
        },
{
    match windows_vk_to_evdev(key_code) {
        Some(evdev_code) => Some(InjectCommand::Key { evdev_code, down }),
        None => None,
    }
}

// ---------------------------------------------------------------------------
// The libei connection
// ---------------------------------------------------------------------------
/// What a device of the connection can do.
#[derive(Debug, Clone, Copy, PartialEq, Eq, Structural)]
pub struct Interfaces {
    pub pointer_absolute: bool,
    pub button: bool,
    pub scroll: bool,
    pub keyboard: bool,
}

/// One of the things that a device can do.
#[derive(Debug, Clone, Copy, PartialEq, Eq, Structural)]
pub enum Interface {
    PointerAbsolute,
    Button,
    Scroll,
    Keyboard,
}

impl Interfaces {
    pub open spec fn offers(self, interface: Interface) -> bool {
        match interface {
            Interface::PointerAbsolute => self.pointer_absolute,
            Interface::Button => self.button,
            Interface::Scroll => self.scroll,
            Interface::Keyboard => self.keyboard,
        }
    }

    pub fn has(&self, interface: Interface) -> (r: bool)
        ensures
            r == self.offers(interface),
    {
        match interface {
            Interface::PointerAbsolute => self.pointer_absolute,
            Interface::Button => self.button,
            Interface::Scroll => self.scroll,
            Interface::Keyboard => self.keyboard,
        }
    }
}

/// A device that the compositor offers. It arrives paused, and has to be
/// resumed before anything sent on it counts.
#[derive(Debug, Clone, Copy, PartialEq, Eq, Structural)]
pub struct EisDevice {
    pub id: u64,
    pub interfaces: Interfaces,
    pub resumed: bool,
    /// Whether events on it are announced to the compositor.
    pub emulating: bool,
}

/// A change of the devices.
#[derive(Debug, Clone, Copy, PartialEq, Eq, Structural)]
pub enum DeviceChange {
    Added { id: u64, interfaces: Interfaces },
    Removed { id: u64 },
    Resumed { id: u64 },
    Paused { id: u64 },
}

/// What is sent on a device.
#[derive(Debug, Clone, Copy, PartialEq, Eq, Structural)]
pub enum EisEvent {
    MotionAbsolute { x: i32, y: i32 },
    Button { code: u32, press: bool },
    ScrollDiscrete { x: i32, y: i32 },
    Key { code: u32, press: bool },
}

/// One event on one device, in a frame of its own. Where the events on the
/// device are not announced yet, that comes first, under a number.
#[derive(Debug, Clone, Copy, PartialEq, Eq, Structural)]
pub struct Emission {
    pub device: u64,
    pub start_emulating: Option<u32>,
    pub event: EisEvent,
}

/// The sending end of the connection.
#[derive(Debug)]
pub struct EisSink {
    pub devices: Vec<EisDevice>,
    /// The number of the last announcement.
    pub sequence: u32,
}

/// The number after another; it starts again after the last.
pub open spec fn next_number(n: u32) -> u32 {
    if n == u32::MAX {
        0
    } else {
        (n + 1) as u32
    }
}

/// The position of the first device that can carry something now.
pub open spec fn carrier(devices: Seq<EisDevice>, interface: Interface) -> Option<int>
    decreases devices.len(),
{
    if devices.len() == 0 {
        None
    } else {
        match carrier(devices.drop_last(), interface) {
            Some(i) => Some(i),
            None => if devices.last().resumed && devices.last().interfaces.offers(interface) {
                Some(devices.len() - 1)
            } else {
                None
            },
        }
    }
}

/// Where a carrier is found it is a device that is resumed and can do it, and
/// no device before it is; where none is found no device is.
pub proof fn law_events_go_to_the_first_ready_device(devices: Seq<EisDevice>, interface: Interface)
    ensures
        match carrier(devices, interface) {
            Some(i) => 0 <= i < devices.len() && devices[i].resumed
                && devices[i].interfaces.offers(interface) && forall|j: int|
                0 <= j < i ==> !((#[trigger] devices[j]).resumed && devices[j].interfaces.offers(
                    interface,
                )),
            None => forall|j: int|
                0 <= j < devices.len() ==> !((#[trigger] devices[j]).resumed
                    && devices[j].interfaces.offers(interface)),
        },
    decreases devices.len(),
{
    if devices.len() > 0 {
        let front = devices.drop_last();
        law_events_go_to_the_first_ready_device(front, interface);
        assert forall|j: int| 0 <= j < front.len() implies devices[j] == front[j] by {}
    }
}

/// The devices after a change.
pub open spec fn devices_after(devices: Seq<EisDevice>, change: DeviceChange) -> Seq<EisDevice> {
    match change {
        DeviceChange::Added { id, interfaces } => devices.push(
            EisDevice { id, interfaces, resumed: false, emulating: false },
        ),
        DeviceChange::Removed { id } => devices.filter(|device: EisDevice| device.id != id),
        DeviceChange::Resumed { id } => with_resumed(devices, id, true),
        DeviceChange::Paused { id } => with_resumed(devices, id, false),
    }
}

/// The devices with the first one of an id resumed or paused. Either way its
/// events are not announced any more.
pub open spec fn with_resumed(devices: Seq<EisDevice>, id: u64, resumed: bool) -> Seq<EisDevice>
    decreases devices.len(),
{
    if devices.len() == 0 {
        devices
    } else if devices[0].id == id {
        devices.update(0, EisDevice { resumed, emulating: false, ..devices[0] })
    } else {
        seq![devices[0]] + with_resumed(devices.drop_first(), id, resumed)
    }
}

proof fn lemma_with_resumed(devices: Seq<EisDevice>, id: u64, resumed: bool, i: int)
    requires
        0 <= i <= devices.len(),
        forall|j: int| 0 <= j < i ==> (#[trigger] devices[j]).id != id,
        i < devices.len() ==> devices[i].id == id,
    ensures
        with_resumed(devices, id, resumed) == (if i < devices.len() {
            devices.update(i, EisDevice { resumed, emulating: false, ..devices[i] })
        } else {
            devices
        }),
    decreases devices.len(),
{
    if devices.len() > 0 {
        if i == 0 {
        } else {
            let rest = devices.drop_first();
            assert forall|j: int| 0 <= j < i - 1 implies (#[trigger] rest[j]).id != id by {
                assert(devices[j + 1].id != id);
            }
            lemma_with_resumed(rest, id, resumed, i - 1);
            let after = with_resumed(devices, id, resumed);
            if i < devices.len() {
                assert(after =~= devices.update(
                    i,
                    EisDevice { resumed, emulating: false, ..devices[i] },
                ));
            } else {
                assert(after =~= devices);
            }
        }
    }
}

/// A sink after an event, and what is sent for it.
pub open spec fn emitted(
    devices: Seq<EisDevice>,
    sequence: u32,
    interface: Interface,
    event: EisEvent,
) -> (Seq<EisDevice>, u32, Seq<Emission>) {
    match carrier(devices, interface) {
        None => (devices, sequence, Seq::empty()),
        Some(i) => if devices[i].emulating {
            (
                devices,
                sequence,
                seq![Emission { device: devices[i].id, start_emulating: None, event }],
            )
        } else {
            (
                devices.update(i, EisDevice { emulating: true, ..devices[i] }),
                next_number(sequence),
                seq![
                    Emission {
                        device: devices[i].id,
                        start_emulating: Some(next_number(sequence)),
                        event,
                    },
                ],
            )
        },
    }
}

/// A sink after a command, and what is sent for it. A button goes down or up
/// where the pointer is, so the pointer is placed first.
pub open spec fn carried_out(devices: Seq<EisDevice>, sequence: u32, command: InjectCommand) -> (
    Seq<EisDevice>,
    u32,
    Seq<Emission>,
) {
    match command {
        InjectCommand::Shutdown => (devices, sequence, Seq::empty()),
        InjectCommand::MouseMove { x, y } => emitted(
            devices,
            sequence,
            Interface::PointerAbsolute,
            EisEvent::MotionAbsolute { x, y },
        ),
        InjectCommand::MouseButton { evdev_button, down, x, y } => {
            let (placed, number, first) = emitted(
                devices,
                sequence,
                Interface::PointerAbsolute,
                EisEvent::MotionAbsolute { x, y },
            );
            let (after, last_number, second) = emitted(
                placed,
                number,
                Interface::Button,
                EisEvent::Button { code: evdev_button, press: down },
            );
            (after, last_number, first + second)
        },
        InjectCommand::Scroll { delta_x, delta_y } => {
            let (x, y) = ei_scroll(delta_x as int, delta_y as int);
            emitted(devices, sequence, Interface::Scroll, EisEvent::ScrollDiscrete { x, y })
        },
        InjectCommand::Key { evdev_code, down } => emitted(
            devices,
            sequence,
            Interface::Keyboard,
            EisEvent::Key { code: evdev_code, press: down },
        ),
    }
}

impl EisSink {
    /// A connection without devices yet.
    pub fn new() -> (r: EisSink)
        ensures
            r.devices@ == Seq::<EisDevice>::empty(),
            r.sequence == 0,
    {
        EisSink { devices: Vec::new(), sequence: 0 }
    }

    fn find_carrier(&self, interface: Interface) -> (r: Option<usize>)
        ensures
            match r {
                Some(i) => i < self.devices.len() && carrier(self.devices@, interface) == Some(
                    i as int,
                ),
                None => carrier(self.devices@, interface) is None,
            },
    {
        let mut i: usize = 0;
        while i < self.devices.len()
            invariant
                i <= self.devices.len(),
                forall|j: int|
                    0 <= j < i ==> !((#[trigger] self.devices@[j]).resumed
                        && self.devices@[j].interfaces.offers(interface)),
            decreases self.devices.len() - i,
        {
            if self.devices[i].resumed && self.devices[i].interfaces.has(interface) {
                proof {
                    law_events_go_to_the_first_ready_device(self.devices@, interface);
                }
                return Some(i);
            }
            i = i + 1;
        }
        proof {
            law_events_go_to_the_first_ready_device(self.devices@, interface);
        }
        None
    }

    /// Sends one event on the first device that can carry it. Without one it is
    /// dropped.
    pub fn emit(&mut self, interface: Interface, event: EisEvent) -> (r: Option<Emission>)
        ensures
            ({
                let (devices, sequence, emissions) = emitted(
                    old(self).devices@,
                    old(self).sequence,
                    interface,
                    event,
                );
                &&& final(self).devices@ == devices
                &&& final(self).sequence == sequence
                &&& emissions == match r {
                    Some(emission) => seq![emission],
                    None => Seq::empty(),
                }
            }),
    {
        let index: usize = match self.find_carrier(interface) {
            Some(index) => index,
            None => {
                return None;
            },
        };
        let id: u64 = self.devices[index].id;
        let start_emulating = self.start_emulating(index);
        Some(Emission { device: id, start_emulating, event })
    }

    /// Announces events on a device, where that was not done yet.
    fn start_emulating(&mut self, index: usize) -> (r: Option<u32>)
        requires
            index < old(self).devices.len(),
        ensures
            old(self).devices@[index as int].emulating ==> r is None && *final(self) == *old(self),
            !old(self).devices@[index as int].emulating ==> {
                &&& r == Some(next_number(old(self).sequence))
                &&& final(self).sequence == next_number(old(self).sequence)
                &&& final(self).devices@ == old(self).devices@.update(
                    index as int,
                    EisDevice { emulating: true, ..old(self).devices@[index as int] },
                )
            },
    {
        let mut device = self.devices[index];
        if device.emulating {
            return None;
        }
        self.sequence = if self.sequence == u32::MAX {
            0
        } else {
            self.sequence + 1
        };
        device.emulating = true;
        self.devices.set(index, device);
        Some(self.sequence)
    }

    /// A device came, went, was resumed or paused.
    pub fn apply_lifecycle(&mut self, change: DeviceChange)
        ensures
            final(self).devices@ == devices_after(old(self).devices@, change),
            final(self).sequence == old(self).sequence,
    {
        match change {
            DeviceChange::Added { id, interfaces } => {
                self.devices.push(EisDevice { id, interfaces, resumed: false, emulating: false });
            },
            DeviceChange::Removed { id } => {
                self.remove(id);
            },
            DeviceChange::Resumed { id } => {
                self.set_resumed(id, true);
            },
            DeviceChange::Paused { id } => {
                self.set_resumed(id, false);
            },
        }
    }

    fn remove(&mut self, id: u64)
        ensures
            final(self).devices@ == devices_after(
                old(self).devices@,
                DeviceChange::Removed { id },
            ),
            final(self).sequence == old(self).sequence,
    {
        let ghost keep = |device: EisDevice| device.id != id;
        let mut kept: Vec<EisDevice> = Vec::new();
        let mut i: usize = 0;
        assert(self.devices@.take(0).filter(keep) =~= Seq::<EisDevice>::empty()) by {
            reveal(Seq::filter);
        }
        while i < self.devices.len()
            invariant
                i <= self.devices.len(),
                keep == (|device: EisDevice| device.id != id),
                *self == *old(self),
                kept@ == self.devices@.take(i as int).filter(keep),
            decreases self.devices.len() - i,
        {
            proof {
                reveal(Seq::filter);
                assert(self.devices@.take(i + 1).drop_last() =~= self.devices@.take(i as int));
            }
            if self.devices[i].id != id {
                kept.push(self.devices[i]);
            }
            i = i + 1;
        }
        assert(self.devices@.take(self.devices.len() as int) =~= self.devices@);
        self.devices = kept;
    }

    fn set_resumed(&mut self, id: u64, resumed: bool)
        ensures
            final(self).devices@ == with_resumed(old(self).devices@, id, resumed),
            final(self).sequence == old(self).sequence,
    {
        let mut i: usize = 0;
        while i < self.devices.len()
            invariant
                i <= self.devices.len(),
                *self == *old(self),
                forall|j: int| 0 <= j < i ==> (#[trigger] self.devices@[j]).id != id,
            decreases self.devices.len() - i,
        {
            if self.devices[i].id == id {
                proof {
                    lemma_with_resumed(self.devices@, id, resumed, i as int);
                }
                let mut device = self.devices[i];
                device.resumed = resumed;
                device.emulating = false;
                self.devices.set(i, device);
                return;
            }
            i = i + 1;
        }
        proof {
            lemma_with_resumed(self.devices@, id, resumed, i as int);
        }
    }

    /// Carries out a command. What no device can carry is dropped.
    pub fn handle(&mut self, command: InjectCommand) -> (r: Vec<Emission>)
        ensures
            (final(self).devices@, final(self).sequence, r@) == carried_out(
                old(self).devices@,
                old(self).sequence,
                command,
            ),
    {
        let mut emissions: Vec<Emission> = Vec::new();
        match command {
            InjectCommand::Shutdown => {},
            InjectCommand::MouseMove { x, y } => {
                let sent = self.emit(
                    Interface::PointerAbsolute,
                    EisEvent::MotionAbsolute { x, y },
                );
                push_emission(&mut emissions, sent);
            },
            InjectCommand::MouseButton { evdev_button, down, x, y } => {
                let placed = self.emit(
                    Interface::PointerAbsolute,
                    EisEvent::MotionAbsolute { x, y },
                );
                push_emission(&mut emissions, placed);
                let pressed = self.emit(
                    Interface::Button,
                    EisEvent::Button { code: evdev_button, press: down },
                );
                push_emission(&mut emissions, pressed);
            },
            InjectCommand::Scroll { delta_x, delta_y } => {
                let (x, y) = scroll_to_ei(delta_x, delta_y);
                let sent = self.emit(Interface::Scroll, EisEvent::ScrollDiscrete { x, y });
                push_emission(&mut emissions, sent);
            },
            InjectCommand::Key { evdev_code, down } => {
                let sent = self.emit(
                    Interface::Keyboard,
                    EisEvent::Key { code: evdev_code, press: down },
                );
                push_emission(&mut emissions, sent);
            },
        }
        assert(emissions@ =~= carried_out(old(self).devices@, old(self).sequence, command).2);
        emissions
    }
}

fn push_emission(emissions: &mut Vec<Emission>, emission: Option<Emission>)
    ensures
        final(emissions)@ == old(emissions)@ + match emission {
            Some(emission) => seq![emission],
            None => Seq::empty(),
        },
{
    match emission {
        Some(emission) => {
            emissions.push(emission);
        },
        None => {},
    }
    assert(emissions@ =~= old(emissions)@ + match emission {
        Some(emission) => seq![emission],
        None => Seq::<Emission>::empty(),
    });
}

/// Nothing is ever sent on a device that is paused, and nothing on one whose
/// events are not announced: an announcement goes with the first event after a
/// pause.
pub proof fn law_events_are_announced(
    devices: Seq<EisDevice>,
    sequence: u32,
    interface: Interface,
    event: EisEvent,
)
    ensures
        ({
            let (after, number, emissions) = emitted(devices, sequence, interface, event);
            emissions.len() > 0 ==> {
                let i = carrier(devices, interface)->0;
                &&& devices[i].resumed
                &&& after[i].emulating
                &&& emissions[0].start_emulating is Some == !devices[i].emulating
            }
        }),
        forall|id: u64, resumed: bool, i: int|
            0 <= i < devices.len() && (#[trigger] devices[i]).id == id && (forall|j: int|
                0 <= j < i ==> (#[trigger] devices[j]).id != id) ==> !(#[trigger] with_resumed(
                devices,
                id,
                resumed,
            ))[i].emulating,
{
    law_events_go_to_the_first_ready_device(devices, interface);
    assert forall|id: u64, resumed: bool, i: int|
        0 <= i < devices.len() && (#[trigger] devices[i]).id == id && (forall|j: int|
            0 <= j < i ==> (#[trigger] devices[j]).id != id) implies !(#[trigger] with_resumed(
        devices,
        id,
        resumed,
    ))[i].emulating by {
        lemma_with_resumed(devices, id, resumed, i);
    }
}

// ---------------------------------------------------------------------------
// The portal's own calls
// ---------------------------------------------------------------------------
/// A call of the portal.
#[derive(Debug, Clone, Copy, PartialEq, Eq, Structural)]
pub enum PortalCall {
    PointerMotion { dx: i64, dy: i64 },
    PointerButton { code: u32, pressed: bool },
    AxisHorizontal { steps: i32 },
    AxisVertical { steps: i32 },
    KeyboardKeycode { code: u32, pressed: bool },
}

/// The movement to a position from the last one. The first position only tells
/// where the next ones start from.
pub open spec fn motion_to(last: Option<(i32, i32)>, x: i32, y: i32) -> Seq<PortalCall> {
    match last {
        Some((last_x, last_y)) if x != last_x || y != last_y => seq![
            PortalCall::PointerMotion { dx: (x - last_x) as i64, dy: (y - last_y) as i64 },
        ],
        _ => Seq::empty(),
    }
}

/// The position after a command, and the calls that it makes.
pub open spec fn called(last: Option<(i32, i32)>, command: InjectCommand) -> (
    Option<(i32, i32)>,
    Seq<PortalCall>,
) {
    match command {
        InjectCommand::Shutdown => (last, Seq::empty()),
        InjectCommand::MouseMove { x, y } => (Some((x, y)), motion_to(last, x, y)),
        InjectCommand::MouseButton { evdev_button, down, x, y } => (
            Some((x, y)),
            motion_to(last, x, y).push(
                PortalCall::PointerButton { code: evdev_button, pressed: down },
            ),
        ),
        InjectCommand::Scroll { delta_x, delta_y } => (
            last,
            (if delta_x != 0 {
                seq![PortalCall::AxisHorizontal { steps: delta_x }]
            } else {
                Seq::empty()
            }) + (if delta_y != 0 {
                seq![PortalCall::AxisVertical { steps: turned(delta_y as int) }]
            } else {
                Seq::empty()
            }),
        ),
        InjectCommand::Key { evdev_code, down } => (
            last,
            seq![PortalCall::KeyboardKeycode { code: evdev_code, pressed: down }],
        ),
    }
}

fn sync_position(calls: &mut Vec<PortalCall>, last_position: &mut Option<(i32, i32)>, x: i32, y: i32)
    ensures
        *final(last_position) == Some((x, y)),
        final(calls)@ == old(calls)@ + motion_to(*old(last_position), x, y),
{
    match *last_position {
        Some((last_x, last_y)) => {
            if x != last_x || y != last_y {
                calls.push(
                    PortalCall::PointerMotion {
                        dx: x as i64 - last_x as i64,
                        dy: y as i64 - last_y as i64,
                    },
                );
            }
        },
        None => {},
    }
    assert(calls@ =~= old(calls)@ + motion_to(*old(last_position), x, y));
    *last_position = Some((x, y));
}

/// The portal's calls for a command.
pub fn handle_command(last_position: &mut Option<(i32, i32)>, command: InjectCommand) -> (r: Vec<
    PortalCall,
>)
    ensures
        (*final(last_position), r@) == called(*old(last_position), command),
{
    let mut calls: Vec<PortalCall> = Vec::new();
    match command {
        InjectCommand::Shutdown => {},
        InjectCommand::MouseMove { x, y } => {
            sync_position(&mut calls, last_position, x, y);
        },
        InjectCommand::MouseButton { evdev_button, down, x, y } => {
            sync_position(&mut calls, last_position, x, y);
            calls.push(PortalCall::PointerButton { code: evdev_button, pressed: down });
        },
        InjectCommand::Scroll { delta_x, delta_y } => {
            if delta_x != 0 {
                calls.push(PortalCall::AxisHorizontal { steps: delta_x });
            }
            if delta_y != 0 {
                let steps: i32 = if delta_y == i32::MIN {
                    i32::MAX
                } else {
                    -delta_y
                };
                calls.push(PortalCall::AxisVertical { steps });
            }
        },
        InjectCommand::Key { evdev_code, down } => {
            calls.push(PortalCall::KeyboardKeycode { code: evdev_code, pressed: down });
        },
    }
    assert(calls@ =~= called(*old(last_position), command).1);
    calls
}

/// A movement is exactly the way from the last position, and there is none where
/// the position stays.
pub proof fn law_a_movement_is_the_way_from_the_last_position(first: (i32, i32), x: i32, y: i32)
    ensures
        ({
            let (position, calls) = called(
                Some(first),
                InjectCommand::MouseMove { x, y },
            );
            &&& position == Some((x, y))
            &&& calls.len() == 0 ==> first == (x, y)
            &&& calls.len() > 0 ==> calls[0] == (PortalCall::PointerMotion {
                dx: (x - first.0) as i64,
                dy: (y - first.1) as i64,
            })
        }),
{
}

// ---------------------------------------------------------------------------
// Permission
// ---------------------------------------------------------------------------
/// What became of asking the user for permission.
#[derive(Debug)]
pub struct InjectSession {
    pub granted: bool,
    pub denied: Option<String>,
    /// The connection, where there is one.
    pub eis: Option<EisSink>,
    /// The last position on the way through the portal.
    pub last_position: Option<(i32, i32)>,
}

/// What becomes of a command.
#[derive(Debug)]
pub enum Injection {
    /// The session ends.
    End,
    /// Permission is missing. Nothing is kept for later.
    Dropped,
    Emissions(Vec<Emission>),
    Calls(Vec<PortalCall>),
}

/// The reason that is remembered for a refusal.
pub open spec fn refusal_text(error: Seq<char>) -> Seq<char> {
    "RemoteDesktop permission was not granted: "@ + error
}

impl InjectSession {
    /// A session whose user was not asked yet.
    pub fn new() -> (r: InjectSession)
        ensures
            r == (InjectSession { granted: false, denied: None, eis: None, last_position: None }),
    {
        InjectSession { granted: false, denied: None, eis: None, last_position: None }
    }

    /// Whether an answer is still waited for.
    pub fn awaits_answer(&self) -> (r: bool)
        ensures
            r == (!self.granted && self.denied is None),
    {
        !self.granted && self.denied.is_none()
    }

    /// The user agreed, and the connection was made or not.
    pub fn grant(&mut self, eis: Option<EisSink>)
        ensures
            *final(self) == (InjectSession { granted: true, eis, ..*old(self) }),
    {
        self.granted = true;
        self.eis = eis;
    }

    /// The user refused. The first reason stands.
    pub fn deny(&mut self, error: &str)
        ensures
            old(self).denied is Some ==> *final(self) == *old(self),
            old(self).denied is None ==> {
                &&& final(self).denied matches Some(reason) && reason@ == refusal_text(error@)
                &&& *final(self) == (InjectSession { denied: final(self).denied, ..*old(self) })
            },
    {
        if self.denied.is_none() {
            let mut reason = String::from_str("RemoteDesktop permission was not granted: ");
            reason.append(error);
            self.denied = Some(reason);
        }
    }

    /// Why input cannot be injected, if the user refused.
    pub fn denial_reason(&self) -> (r: Option<String>)
        ensures
            r == self.denied,
    {
        match self.denied.as_ref() {
            Some(reason) => Some(reason.clone()),
            None => None,
        }
    }

    /// The connection was closed; the portal's own calls take over, from a
    /// position that is not known.
    pub fn disconnected(&mut self)
        ensures
            *final(self) == (InjectSession { eis: None, last_position: None, ..*old(self) }),
    {
        self.eis = None;
        self.last_position = None;
    }

    /// Handles a command.
    pub fn command(&mut self, command: InjectCommand) -> (r: Injection)
        ensures
            final(self).granted == old(self).granted,
            final(self).denied == old(self).denied,
            final(self).eis is Some == old(self).eis is Some,
            command is Shutdown ==> r is End && *final(self) == *old(self),
            !(command is Shutdown) && !old(self).granted ==> r is Dropped && *final(self) == *old(
                self,
            ),
            !(command is Shutdown) && old(self).granted ==> match old(self).eis {
                Some(before) => {
                    &&& r matches Injection::Emissions(emissions)
                    &&& final(self).eis matches Some(after)
                    &&& (after.devices@, after.sequence, emissions@) == carried_out(
                        before.devices@,
                        before.sequence,
                        command,
                    )
                    &&& final(self).last_position == old(self).last_position
                },
                None => {
                    &&& r matches Injection::Calls(calls)
                    &&& (final(self).last_position, calls@) == called(
                        old(self).last_position,
                        command,
                    )
                },
            },
    {
        match command {
            InjectCommand::Shutdown => {
                return Injection::End;
            },
            _ => {},
        }
        if !self.granted {
            return Injection::Dropped;
        }
        match self.eis.take() {
            Some(sink) => {
                let mut sink = sink;
                let emissions = sink.handle(command);
                self.eis = Some(sink);
                Injection::Emissions(emissions)
            },
            None => Injection::Calls(handle_command(&mut self.last_position, command)),
        }
    }
}

/// The token that restores a permission, as a file holds it: blanks around it
/// do not count, and nothing is no token.
pub open spec fn token_in(contents: Seq<char>) -> Option<Seq<char>> {
    if blank(contents) {
        None
    } else {
        Some(trimmed(contents))
    }
}

pub fn restore_token(contents: &str) -> (r: Option<String>)
    ensures
        match r {
            Some(token) => token_in(contents@) == Some(token@),
            None => token_in(contents@) is None,
        },
{
    if is_blank(contents) {
        return None;
    }
    Some(String::from_str(trim(contents)))
}

/// What happens to the file that holds the token: a token is spent once it was
/// used, so without a new one the file goes.
#[derive(Debug, Clone, Copy, PartialEq, Eq, Structural)]
pub enum TokenFile {
    /// There is no place for a token.
    Ignore,
    Remove,
    /// The token is written, readable by its owner alone.
    Write,
}

pub fn store_restore_token(has_path: bool, has_token: bool) -> (r: TokenFile)
    ensures
        r == if !has_path {
            TokenFile::Ignore
        } else if has_token {
            TokenFile::Write
        } else {
            TokenFile::Remove
        },
{
    if !has_path {
        TokenFile::Ignore
    } else if has_token {
        TokenFile::Write
    } else {
        TokenFile::Remove
    }
}

/// Sets the place of the token. The first one stands.
pub fn set_restore_token_path(current: &mut Option<String>, path: String)
    ensures
        *final(current) == match *old(current) {
            Some(known) => Some(known),
            None => Some(path),
        },
{
    if current.is_none() {
        *current = Some(path);
    }
}

} // verus!
