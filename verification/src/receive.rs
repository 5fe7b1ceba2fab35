//! Receiving input: who may send it, and what it does on this machine.

use crate::clipboard_target::{clipboard_view, ClipboardTarget, ClipboardTargetView};
use crate::credentials::{
    authorization_fresh, last_of, origin_authorization_fresh, INPUT_ORIGIN_CACHE_TTL,
};
use crate::layout::{
    find_screen, is_local, local_device, local_device_of, screen_named, Device, LayoutState,
    PairedController, Screen,
};
use crate::packet::{
    InputControlCommand, InputControlPacket, InputPacket, INPUT_CONTROL_PROTOCOL, INPUT_PROTOCOL,
};
use crate::platform::{
    map_relative_to_native_axis, native_form, native_position, platform_native_screen, Platform,
};
use crate::recency::{age, elapsed, younger_than, Recency};
use crate::seqs::{find, first};
use crate::shared_input::{
    button_from_mask, dragged_button, held, law_buttons_are_independent, mouse_button_mask,
    with_button, EventView, InputCommand, InputEvent, MouseButton,
};
use crate::targets::{address, address_text};
use crate::text::{blank, is_blank, same};
use vstd::prelude::*;

verus! {

// ---------------------------------------------------------------------------
// Authorisation
// ---------------------------------------------------------------------------
/// Whether this machine has a pairing at all.
pub open spec fn has_pairing(layout: LayoutState) -> bool {
    !blank(layout.cluster_id@) && !blank(layout.pair_secret@)
}

/// Whether a controller is the sender of a packet, by its key or by its id.
pub open spec fn is_controller(
    controller: PairedController,
    public_key: Seq<char>,
    device_id: Seq<char>,
) -> bool {
    ||| !blank(public_key) && controller.transport_public_key@ == public_key
    ||| !blank(device_id) && controller.id@ == device_id
}

/// The test for the controller that sent a packet.
pub open spec fn controller_as(public_key: Seq<char>, device_id: Seq<char>) -> spec_fn(
    PairedController,
) -> bool {
    |controller: PairedController| is_controller(controller, public_key, device_id)
}

/// A client with a single controller accepts one that still announces itself
/// by the old local id, whatever its key.
pub open spec fn legacy_origin(
    layout: LayoutState,
    device_id: Seq<char>,
    public_key: Seq<char>,
) -> bool {
    &&& layout.machine_role@ == "client"@
    &&& layout.paired_controllers@.len() == 1
    &&& device_id == "local-device"@
    &&& !blank(public_key)
}

/// Whether the credentials of a packet prove the pairing of this machine.
pub open spec fn proves_pairing(
    layout: LayoutState,
    cluster_id: Seq<char>,
    pair_secret: Seq<char>,
    public_key: Seq<char>,
    device_id: Seq<char>,
) -> bool {
    &&& has_pairing(layout)
    &&& cluster_id == layout.cluster_id@
    &&& pair_secret == layout.pair_secret@
    &&& first(layout.paired_controllers@, controller_as(public_key, device_id)) is Some
        || legacy_origin(layout, device_id, public_key)
}

pub fn legacy_local_device_origin_allowed(
    layout: &LayoutState,
    origin_device_id: &str,
    origin_transport_public_key: &str,
) -> (r: bool)
    ensures
        r == legacy_origin(*layout, origin_device_id@, origin_transport_public_key@),
{
    same(layout.machine_role.as_str(), "client") && layout.paired_controllers.len() == 1 && same(
        origin_device_id,
        "local-device",
    ) && !is_blank(origin_transport_public_key)
}

pub fn packet_authorized_fields(
    layout: &LayoutState,
    cluster_id: &str,
    pair_secret: &str,
    origin_transport_public_key: &str,
    origin_device_id: &str,
) -> (r: bool)
    ensures
        r == proves_pairing(
            *layout,
            cluster_id@,
            pair_secret@,
            origin_transport_public_key@,
            origin_device_id@,
        ),
{
    if is_blank(layout.cluster_id.as_str()) || is_blank(layout.pair_secret.as_str()) {
        return false;
    }
    if !same(cluster_id, layout.cluster_id.as_str()) || !same(
        pair_secret,
        layout.pair_secret.as_str(),
    ) {
        return false;
    }
    let keyed: bool = !is_blank(origin_transport_public_key);
    let named: bool = !is_blank(origin_device_id);
    let test = |controller: &PairedController| -> (b: bool)
        ensures
            b == is_controller(*controller, origin_transport_public_key@, origin_device_id@),
        {
            (keyed && same(
                controller.transport_public_key.as_str(),
                origin_transport_public_key,
            )) || (named && same(controller.id.as_str(), origin_device_id))
        };
    if find(
        &layout.paired_controllers,
        test,
        Ghost(controller_as(origin_transport_public_key@, origin_device_id@)),
    ).is_some() {
        return true;
    }
    legacy_local_device_origin_allowed(layout, origin_device_id, origin_transport_public_key)
}

/// Whether an input packet proves the pairing.
pub open spec fn authorized(layout: LayoutState, packet: InputPacket) -> bool {
    proves_pairing(
        layout,
        packet.cluster_id@,
        packet.pair_secret@,
        packet.origin_transport_public_key@,
        packet.origin_device_id@,
    )
}

pub fn packet_authorized(layout: &LayoutState, packet: &InputPacket) -> (r: bool)
    ensures
        r == authorized(*layout, *packet),
{
    packet_authorized_fields(
        layout,
        packet.cluster_id.as_str(),
        packet.pair_secret.as_str(),
        packet.origin_transport_public_key.as_str(),
        packet.origin_device_id.as_str(),
    )
}

/// Whether a control packet proves the pairing.
pub open spec fn control_authorized(layout: LayoutState, packet: InputControlPacket) -> bool {
    proves_pairing(
        layout,
        packet.cluster_id@,
        packet.pair_secret@,
        packet.origin_transport_public_key@,
        packet.origin_device_id@,
    )
}

pub fn control_packet_authorized(layout: &LayoutState, packet: &InputControlPacket) -> (r: bool)
    ensures
        r == control_authorized(*layout, *packet),
{
    packet_authorized_fields(
        layout,
        packet.cluster_id.as_str(),
        packet.pair_secret.as_str(),
        packet.origin_transport_public_key.as_str(),
        packet.origin_device_id.as_str(),
    )
}

/// Nothing is authorised on a machine without a pairing, nor with another
/// secret or cluster than this machine's, nor without naming a sender.
pub proof fn law_authorization_needs_the_secret(
    layout: LayoutState,
    cluster_id: Seq<char>,
    pair_secret: Seq<char>,
    public_key: Seq<char>,
    device_id: Seq<char>,
)
    requires
        !has_pairing(layout) || pair_secret != layout.pair_secret@ || cluster_id
            != layout.cluster_id@ || blank(pair_secret) || (blank(public_key) && blank(device_id)),
    ensures
        !proves_pairing(layout, cluster_id, pair_secret, public_key, device_id),
{
    crate::seqs::lemma_first(layout.paired_controllers@, controller_as(public_key, device_id));
}

/// Why a packet was refused, for the log.
pub open spec fn refusal(layout: LayoutState, cluster_id: Seq<char>, pair_secret: Seq<char>) -> Seq<
    char,
> {
    if !has_pairing(layout) {
        "this device has no pairing configured (empty cluster/secret) — pair it with the controller"@
    } else if cluster_id != layout.cluster_id@ || pair_secret != layout.pair_secret@ {
        "pairing secret/cluster mismatch — controller and this device are not paired with the same credentials; re-pair them (removing/re-adding the device does NOT re-pair)"@
    } else {
        "controller is not in this device's paired-controllers list (likely a rotated transport key) — re-pair"@
    }
}

/// The same for a control packet, in fewer words.
pub open spec fn control_refusal(
    layout: LayoutState,
    cluster_id: Seq<char>,
    pair_secret: Seq<char>,
) -> Seq<char> {
    if !has_pairing(layout) {
        "this device has no pairing configured"@
    } else if cluster_id != layout.cluster_id@ || pair_secret != layout.pair_secret@ {
        "pairing secret/cluster mismatch"@
    } else {
        "controller is not in this device's paired-controllers list"@
    }
}

pub fn unauthorized_control_reason(
    layout: &LayoutState,
    cluster_id: &str,
    pair_secret: &str,
) -> (r: &'static str)
    ensures
        r@ == control_refusal(*layout, cluster_id@, pair_secret@),
{
    if is_blank(layout.cluster_id.as_str()) || is_blank(layout.pair_secret.as_str()) {
        "this device has no pairing configured"
    } else if !same(cluster_id, layout.cluster_id.as_str()) || !same(
        pair_secret,
        layout.pair_secret.as_str(),
    ) {
        "pairing secret/cluster mismatch"
    } else {
        "controller is not in this device's paired-controllers list"
    }
}

pub fn unauthorized_reason(layout: &LayoutState, cluster_id: &str, pair_secret: &str) -> (r:
    &'static str)
    ensures
        r@ == refusal(*layout, cluster_id@, pair_secret@),
{
    if is_blank(layout.cluster_id.as_str()) || is_blank(layout.pair_secret.as_str()) {
        "this device has no pairing configured (empty cluster/secret) — pair it with the controller"
    } else if !same(cluster_id, layout.cluster_id.as_str()) || !same(
        pair_secret,
        layout.pair_secret.as_str(),
    ) {
        "pairing secret/cluster mismatch — controller and this device are not paired with the same credentials; re-pair them (removing/re-adding the device does NOT re-pair)"
    } else {
        "controller is not in this device's paired-controllers list (likely a rotated transport key) — re-pair"
    }
}

/// The test for the local device under an id.
pub open spec fn local_as(id: Seq<char>) -> spec_fn(Device) -> bool {
    |device: Device| is_local(device) && device.id@ == id
}

/// Whether a packet is meant for this machine: it names nobody, the peer that
/// this machine announces itself as, or its device in the layout.
pub open spec fn meant_for_us(
    layout: LayoutState,
    target_device_id: Seq<char>,
    local_peer_id: Seq<char>,
) -> bool {
    ||| blank(target_device_id)
    ||| target_device_id == local_peer_id
    ||| first(layout.devices@, local_as(target_device_id)) is Some
}

pub fn packet_targets_local(layout: &LayoutState, target_device_id: &str, local_peer_id: &str) -> (r:
    bool)
    ensures
        r == meant_for_us(*layout, target_device_id@, local_peer_id@),
{
    if is_blank(target_device_id) || same(target_device_id, local_peer_id) {
        return true;
    }
    let test = |device: &Device| -> (b: bool)
        ensures
            b == (is_local(*device) && device.id@ == target_device_id@),
        { same(device.role.as_str(), "local") && same(device.id.as_str(), target_device_id) };
    find(&layout.devices, test, Ghost(local_as(target_device_id@))).is_some()
}

// ---------------------------------------------------------------------------
// From events to commands
// ---------------------------------------------------------------------------
/// Two coordinates in one integer.
pub open spec fn packed(x: int, y: int) -> int {
    x * 0x1_0000_0000 + (if y < 0 {
        y + 0x1_0000_0000
    } else {
        y
    })
}

pub fn pack_remote_position(x: i32, y: i32) -> (r: i64)
    ensures
        r == packed(x as int, y as int),
{
    let low: i64 = if y < 0 {
        y as i64 + 0x1_0000_0000
    } else {
        y as i64
    };
    x as i64 * 0x1_0000_0000 + low
}

/// The coordinates in an integer.
pub open spec fn unpacked(p: int) -> (int, int) {
    let low = p % 0x1_0000_0000;
    (
        p / 0x1_0000_0000,
        if low >= 0x8000_0000 {
            low - 0x1_0000_0000
        } else {
            low
        },
    )
}

pub fn unpack_remote_position(position: i64) -> (r: (i32, i32))
    ensures
        (r.0 as int, r.1 as int) == unpacked(position as int),
{
    let high: i64 = position >> 32;
    assert(high * 0x1_0000_0000 <= position && position - high * 0x1_0000_0000 < 0x1_0000_0000
        && -0x8000_0000 <= high < 0x8000_0000) by (bit_vector)
        requires
            high == position >> 32,
    ;
    let low: i64 = position - high * 0x1_0000_0000;
    proof {
        vstd::arithmetic::div_mod::lemma_fundamental_div_mod_converse(
            position as int,
            0x1_0000_0000,
            high as int,
            low as int,
        );
    }
    let y: i64 = if low >= 0x8000_0000 {
        low - 0x1_0000_0000
    } else {
        low
    };
    (high as i32, y as i32)
}

/// What was packed unpacks to the same coordinates.
pub proof fn law_positions_unpack(x: i32, y: i32)
    ensures
        unpacked(packed(x as int, y as int)) == (x as int, y as int),
{
    let low = if y < 0 {
        y + 0x1_0000_0000
    } else {
        y as int
    };
    vstd::arithmetic::div_mod::lemma_fundamental_div_mod_converse(
        packed(x as int, y as int),
        0x1_0000_0000,
        x as int,
        low,
    );
}

/// Where the controlled cursor was last put, and which buttons are held.
#[derive(Debug, Clone, Copy, PartialEq, Eq, Structural)]
pub struct RemoteMouse {
    pub position: i64,
    pub buttons: u64,
}

impl RemoteMouse {
    pub fn new() -> (r: RemoteMouse)
        ensures
            r == (RemoteMouse { position: 0, buttons: 0 }),
    {
        RemoteMouse { position: 0, buttons: 0 }
    }

    /// Notes where the cursor is put, and says which button drags it there.
    pub fn update_position(&mut self, x: i32, y: i32) -> (r: Option<MouseButton>)
        ensures
            *final(self) == (RemoteMouse {
                position: packed(x as int, y as int) as i64,
                buttons: old(self).buttons,
            }),
            r == dragged_button(old(self).buttons),
    {
        self.position = pack_remote_position(x, y);
        button_from_mask(self.buttons)
    }

    /// Notes a button, and says where the cursor is.
    pub fn update_button(&mut self, button: MouseButton, down: bool) -> (r: (i32, i32))
        ensures
            *final(self) == (RemoteMouse {
                position: old(self).position,
                buttons: with_button(old(self).buttons, button, down),
            }),
            (r.0 as int, r.1 as int) == unpacked(old(self).position as int),
    {
        if down {
            self.buttons = self.buttons | mouse_button_mask(button);
        } else {
            self.buttons = self.buttons & !mouse_button_mask(button);
        }
        unpack_remote_position(self.position)
    }
}

/// The test for a primary screen.
pub open spec fn primary() -> spec_fn(Screen) -> bool {
    |screen: Screen| screen.is_primary
}

/// The screen that an event's screen id means: the one of that id, the primary
/// one, or the first.
pub open spec fn screen_or_primary(screens: Seq<Screen>, id: Seq<char>) -> Option<Screen> {
    match screen_named(screens, id) {
        Some(screen) => Some(screen),
        None => primary_or_first(screens),
    }
}

/// The primary screen of a list, or the first.
pub open spec fn primary_or_first(screens: Seq<Screen>) -> Option<Screen> {
    match first(screens, primary()) {
        Some(screen) => Some(screen),
        None => if screens.len() > 0 {
            Some(screens[0])
        } else {
            None
        },
    }
}

pub fn find_primary_or_first(screens: &Vec<Screen>) -> (r: Option<&Screen>)
    ensures
        match r {
            Some(screen) => primary_or_first(screens@) == Some(*screen),
            None => primary_or_first(screens@) is None,
        },
{
    let test = |screen: &Screen| -> (b: bool)
        ensures
            b == screen.is_primary,
        { screen.is_primary };
    match find(screens, test, Ghost(primary())) {
        Some(screen) => Some(screen),
        None => if screens.len() > 0 {
            Some(&screens[0])
        } else {
            None
        },
    }
}

pub open spec fn event_screen(layout: LayoutState, id: Seq<char>) -> Option<Screen> {
    match local_device_of(layout) {
        Some(device) => screen_or_primary(device.screens@, id),
        None => None,
    }
}

pub fn local_screen_for_event<'a>(layout: &'a LayoutState, screen_id: &str) -> (r: Option<
    &'a Screen,
>)
    ensures
        match r {
            Some(screen) => event_screen(*layout, screen_id@) == Some(*screen),
            None => event_screen(*layout, screen_id@) is None,
        },
{
    let device = match local_device(layout) {
        Some(device) => device,
        None => {
            return None;
        },
    };
    match find_screen(&device.screens, screen_id) {
        Some(screen) => Some(screen),
        None => find_primary_or_first(&device.screens),
    }
}

/// What an event does on this machine, and what the mouse is afterwards. A
/// movement is scaled from the layout's screen to the native one; only one that
/// finds no screen does nothing.
pub open spec fn command_for(
    layout: LayoutState,
    native_layout: LayoutState,
    platform: Platform,
    mouse: RemoteMouse,
    event: EventView,
) -> (RemoteMouse, Option<InputCommand>) {
    match event {
        EventView::MouseMove { screen_id, x, y } => match event_screen(layout, screen_id) {
            None => (mouse, None),
            Some(screen) => {
                let native = native_form(
                    platform,
                    match event_screen(native_layout, screen_id) {
                        Some(native) => native,
                        None => screen,
                    },
                );
                let at_x = native_position(
                    x as int,
                    screen.width as int,
                    native.x as int,
                    native.width as int,
                );
                let at_y = native_position(
                    y as int,
                    screen.height as int,
                    native.y as int,
                    native.height as int,
                );
                (
                    RemoteMouse { position: packed(at_x as int, at_y as int) as i64, ..mouse },
                    Some(
                        InputCommand::MouseMove {
                            x: at_x,
                            y: at_y,
                            drag_button: dragged_button(mouse.buttons),
                        },
                    ),
                )
            },
        },
        EventView::MouseButton { button, down } => {
            let (x, y) = unpacked(mouse.position as int);
            (
                RemoteMouse { buttons: with_button(mouse.buttons, button, down), ..mouse },
                Some(InputCommand::MouseButton { button, down, x: x as i32, y: y as i32 }),
            )
        },
        EventView::Scroll { delta_x, delta_y } => (
            mouse,
            Some(InputCommand::Scroll { delta_x, delta_y }),
        ),
        EventView::Key { key_code, down } => (mouse, Some(InputCommand::Key { key_code, down })),
    }
}

pub fn input_event_to_command(
    layout: &LayoutState,
    native_layout: &LayoutState,
    platform: Platform,
    mouse: &mut RemoteMouse,
    event: &InputEvent,
) -> (r: Option<InputCommand>)
    ensures
        (*final(mouse), r) == command_for(
            *layout,
            *native_layout,
            platform,
            *old(mouse),
            event@,
        ),
        *event matches InputEvent::Scroll { delta_x, delta_y } ==> r == Some(
            InputCommand::Scroll { delta_x, delta_y },
        ) && *final(mouse) == *old(mouse),
        *event matches InputEvent::Key { key_code, down } ==> r == Some(
            InputCommand::Key { key_code, down },
        ) && *final(mouse) == *old(mouse),
        *event matches InputEvent::MouseButton { button, down } ==> {
            &&& r matches Some(InputCommand::MouseButton { button: b, down: d, .. })
            &&& b == button
            &&& d == down
            &&& final(mouse).position == old(mouse).position
            &&& forall|other: MouseButton| #[trigger]
                held(final(mouse).buttons, other) == (if other == button {
                    down
                } else {
                    held(old(mouse).buttons, other)
                })
        },
        *event is MouseMove ==> final(mouse).buttons == old(mouse).buttons && (r is None || r->0
            is MouseMove),
{
    proof {
        if let InputEvent::MouseButton { button, down } = *event {
            assert forall|other: MouseButton| #[trigger]
                held(with_button(mouse.buttons, button, down), other) == (if other == button {
                    down
                } else {
                    held(mouse.buttons, other)
                }) by {
                law_buttons_are_independent(mouse.buttons, button, down, other);
            }
        }
    }
    match event {
        InputEvent::MouseMove { screen_id, x, y } => {
            let screen = match local_screen_for_event(layout, screen_id.as_str()) {
                Some(screen) => screen,
                None => {
                    return None;
                },
            };
            let native = match local_screen_for_event(native_layout, screen_id.as_str()) {
                Some(native) => platform_native_screen(platform, native),
                None => platform_native_screen(platform, screen),
            };
            let at_x: i32 = map_relative_to_native_axis(*x, screen.width, native.x, native.width);
            let at_y: i32 = map_relative_to_native_axis(
                *y,
                screen.height,
                native.y,
                native.height,
            );
            let drag_button = mouse.update_position(at_x, at_y);
            Some(InputCommand::MouseMove { x: at_x, y: at_y, drag_button })
        },
        InputEvent::MouseButton { button, down } => {
            let (x, y) = mouse.update_button(*button, *down);
            Some(InputCommand::MouseButton { button: *button, down: *down, x, y })
        },
        InputEvent::Scroll { delta_x, delta_y } => Some(
            InputCommand::Scroll { delta_x: *delta_x, delta_y: *delta_y },
        ),
        InputEvent::Key { key_code, down } => Some(
            InputCommand::Key { key_code: *key_code, down: *down },
        ),
    }
}

/// A click lands where the cursor was last put.
pub proof fn law_clicks_land_where_the_cursor_is(
    layout: LayoutState,
    native_layout: LayoutState,
    platform: Platform,
    mouse: RemoteMouse,
    screen_id: Seq<char>,
    x: i32,
    y: i32,
    button: MouseButton,
    down: bool,
)
    requires
        event_screen(layout, screen_id) is Some,
    ensures
        ({
            let moved = command_for(
                layout,
                native_layout,
                platform,
                mouse,
                EventView::MouseMove { screen_id, x, y },
            );
            let clicked = command_for(
                layout,
                native_layout,
                platform,
                moved.0,
                EventView::MouseButton { button, down },
            );
            &&& moved.1 matches Some(InputCommand::MouseMove { x: at_x, y: at_y, .. })
            &&& clicked.1 == Some(InputCommand::MouseButton { button, down, x: at_x, y: at_y })
        }),
{
    let moved = command_for(
        layout,
        native_layout,
        platform,
        mouse,
        EventView::MouseMove { screen_id, x, y },
    );
    match moved.1 {
        Some(InputCommand::MouseMove { x: at_x, y: at_y, .. }) => {
            law_positions_unpack(at_x, at_y);
        },
        _ => {},
    }
}

// ---------------------------------------------------------------------------
// Datagrams
// ---------------------------------------------------------------------------
/// What the receiving side remembers between packets.
#[derive(Debug)]
pub struct ReceiveState {
    /// When each source last proved the pairing.
    pub origins: Recency,
    pub mouse: RemoteMouse,
    pub clipboard_target: Option<ClipboardTarget>,
}

/// The same, as maps and texts.
pub struct ReceiveView {
    pub origins: Map<Seq<char>, u64>,
    pub mouse: RemoteMouse,
    pub clipboard_target: Option<ClipboardTargetView>,
}

impl View for ReceiveState {
    type V = ReceiveView;

    open spec fn view(&self) -> ReceiveView {
        ReceiveView {
            origins: self.origins@,
            mouse: self.mouse,
            clipboard_target: clipboard_view(self.clipboard_target),
        }
    }
}

/// What becomes of a packet.
#[derive(Debug, Clone, Copy, PartialEq, Eq, Structural)]
pub enum Reception {
    /// It is of another protocol.
    NotOurs,
    /// Its credentials do not prove the pairing.
    Unauthorized,
    /// It is ours but has no effect: its source never proved the pairing or did
    /// so too long ago, it is meant for another machine, or it names no screen.
    Ignored,
    /// It is carried out.
    Execute(InputCommand),
    /// The secure attention sequence is asked for.
    SecureAttention,
}

/// The clipboard target after an accepted packet: its sender, unless it gives no
/// port or key, or is the target already.
pub open spec fn refreshed_clipboard(
    before: Option<ClipboardTargetView>,
    layout: LayoutState,
    packet: InputPacket,
    source_ip: Seq<char>,
) -> Option<ClipboardTargetView> {
    let named = !blank(packet.origin_device_id@);
    if packet.origin_port == 0 || blank(packet.origin_transport_public_key@) {
        before
    } else if named && (before matches Some(target) && target.device_id
        == packet.origin_device_id@ && target.transport_public_key
        == packet.origin_transport_public_key@ && target.protocol_version
        == packet.origin_protocol_version) {
        before
    } else {
        Some(
            ClipboardTargetView {
                device_id: if named {
                    packet.origin_device_id@
                } else {
                    source_ip
                },
                addr: address(source_ip, packet.origin_port),
                transport_public_key: packet.origin_transport_public_key@,
                protocol_version: packet.origin_protocol_version,
                cluster_id: layout.cluster_id@,
                pair_secret: layout.pair_secret@,
                expires_at: None,
            },
        )
    }
}

pub fn refresh_clipboard_target(
    clipboard_target: &mut Option<ClipboardTarget>,
    layout: &LayoutState,
    packet: &InputPacket,
    source_ip: &str,
)
    ensures
        clipboard_view(*final(clipboard_target)) == refreshed_clipboard(
            clipboard_view(*old(clipboard_target)),
            *layout,
            *packet,
            source_ip@,
        ),
{
    if packet.origin_port == 0 || is_blank(packet.origin_transport_public_key.as_str()) {
        return;
    }
    let named: bool = !is_blank(packet.origin_device_id.as_str());
    if named {
        let known: bool = match clipboard_target.as_ref() {
            Some(target) => same(target.device_id.as_str(), packet.origin_device_id.as_str())
                && same(
                target.transport_public_key.as_str(),
                packet.origin_transport_public_key.as_str(),
            ) && target.protocol_version == packet.origin_protocol_version,
            None => false,
        };
        if known {
            return;
        }
    }
    *clipboard_target = Some(
        ClipboardTarget {
            device_id: if named {
                packet.origin_device_id.clone()
            } else {
                String::from_str(source_ip)
            },
            addr: address_text(source_ip, packet.origin_port),
            transport_public_key: packet.origin_transport_public_key.clone(),
            protocol_version: packet.origin_protocol_version,
            cluster_id: layout.cluster_id.clone(),
            pair_secret: layout.pair_secret.clone(),
            expires_at: None,
        },
    );
}

/// Whether a packet is admitted: by its own credentials where it carries any,
/// and else by those that its source gave a short while ago.
pub open spec fn admitted(
    origins: Map<Seq<char>, u64>,
    layout: LayoutState,
    packet: InputPacket,
    source: Seq<char>,
    now: u64,
) -> bool {
    if blank(packet.pair_secret@) {
        authorization_fresh(last_of(origins, source), now)
    } else {
        authorized(layout, packet)
    }
}

/// What an input packet from `source` does, and what is remembered afterwards.
pub open spec fn received(
    state: ReceiveView,
    layout: LayoutState,
    native_layout: LayoutState,
    platform: Platform,
    packet: InputPacket,
    source: Seq<char>,
    source_ip: Seq<char>,
    local_peer_id: Seq<char>,
    now: u64,
) -> (ReceiveView, Reception) {
    if packet.protocol@ != INPUT_PROTOCOL@ {
        (state, Reception::NotOurs)
    } else if !admitted(state.origins, layout, packet, source, now) {
        (
            state,
            if blank(packet.pair_secret@) {
                Reception::Ignored
            } else {
                Reception::Unauthorized
            },
        )
    } else {
        let origins = if blank(packet.pair_secret@) {
            state.origins
        } else {
            younger_than(state.origins, now, INPUT_ORIGIN_CACHE_TTL).insert(source, now)
        };
        if !meant_for_us(layout, packet.target_device_id@, local_peer_id) {
            (ReceiveView { origins, ..state }, Reception::Ignored)
        } else {
            let (mouse, command) = command_for(
                layout,
                native_layout,
                platform,
                state.mouse,
                packet.event@,
            );
            (
                ReceiveView {
                    origins,
                    mouse,
                    clipboard_target: refreshed_clipboard(
                        state.clipboard_target,
                        layout,
                        packet,
                        source_ip,
                    ),
                },
                match command {
                    Some(command) => Reception::Execute(command),
                    None => Reception::Ignored,
                },
            )
        }
    }
}

impl ReceiveState {
    pub fn new() -> (r: ReceiveState)
        ensures
            r@ == (ReceiveView {
                origins: Map::<Seq<char>, u64>::empty(),
                mouse: RemoteMouse { position: 0, buttons: 0 },
                clipboard_target: None,
            }),
    {
        ReceiveState { origins: Recency::new(), mouse: RemoteMouse::new(), clipboard_target: None }
    }

    /// Notes that a source proved the pairing.
    pub fn cache_authorized_input_origin(&mut self, source: &str, now: u64)
        ensures
            final(self)@ == (ReceiveView {
                origins: younger_than(old(self)@.origins, now, INPUT_ORIGIN_CACHE_TTL).insert(
                    source@,
                    now,
                ),
                ..old(self)@
            }),
            final(self).mouse == old(self).mouse,
            final(self).clipboard_target == old(self).clipboard_target,
    {
        self.origins.record(source, now, INPUT_ORIGIN_CACHE_TTL);
    }

    /// Whether a source proved the pairing a short while ago.
    pub fn input_origin_recently_authorized(&self, source: &str, now: u64) -> (r: bool)
        ensures
            r == authorization_fresh(last_of(self@.origins, source@), now),
    {
        origin_authorization_fresh(self.origins.last(source), now)
    }

    /// Handles one input packet.
    pub fn handle_input_packet(
        &mut self,
        layout: &LayoutState,
        native_layout: &LayoutState,
        platform: Platform,
        packet: &InputPacket,
        source: &str,
        source_ip: &str,
        local_peer_id: &str,
        now: u64,
    ) -> (r: Reception)
        ensures
            (final(self)@, r) == received(
                old(self)@,
                *layout,
                *native_layout,
                platform,
                *packet,
                source@,
                source_ip@,
                local_peer_id@,
                now,
            ),
    {
        if !same(packet.protocol.as_str(), INPUT_PROTOCOL) {
            return Reception::NotOurs;
        }
        if !is_blank(packet.pair_secret.as_str()) {
            if !packet_authorized(layout, packet) {
                return Reception::Unauthorized;
            }
            self.cache_authorized_input_origin(source, now);
        } else if !self.input_origin_recently_authorized(source, now) {
            return Reception::Ignored;
        }
        if !packet_targets_local(layout, packet.target_device_id.as_str(), local_peer_id) {
            return Reception::Ignored;
        }
        refresh_clipboard_target(&mut self.clipboard_target, layout, packet, source_ip);
        match input_event_to_command(
            layout,
            native_layout,
            platform,
            &mut self.mouse,
            &packet.event,
        ) {
            Some(command) => Reception::Execute(command),
            None => Reception::Ignored,
        }
    }
}

/// What an admitted packet for this machine does is what its event says: a
/// scroll by its own amounts, across and up; its own key, pressed or released;
/// its own button, likewise, where the cursor was last put.
pub proof fn law_events_are_carried_out_as_they_are(
    state: ReceiveView,
    layout: LayoutState,
    native_layout: LayoutState,
    platform: Platform,
    packet: InputPacket,
    source: Seq<char>,
    source_ip: Seq<char>,
    local_peer_id: Seq<char>,
    now: u64,
)
    requires
        packet.protocol@ == INPUT_PROTOCOL@,
        admitted(state.origins, layout, packet, source, now),
        meant_for_us(layout, packet.target_device_id@, local_peer_id),
    ensures
        ({
            let (after, reception) = received(
                state,
                layout,
                native_layout,
                platform,
                packet,
                source,
                source_ip,
                local_peer_id,
                now,
            );
            match packet.event {
                InputEvent::Scroll { delta_x, delta_y } => {
                    &&& reception == Reception::Execute(InputCommand::Scroll { delta_x, delta_y })
                    &&& after.mouse == state.mouse
                },
                InputEvent::Key { key_code, down } => {
                    &&& reception == Reception::Execute(InputCommand::Key { key_code, down })
                    &&& after.mouse == state.mouse
                },
                InputEvent::MouseButton { button, down } => {
                    &&& reception matches Reception::Execute(
                        InputCommand::MouseButton { button: b, down: d, x, y },
                    )
                    &&& b == button
                    &&& d == down
                    &&& after.mouse.position == state.mouse.position
                    &&& state.mouse.position == x * 0x1_0000_0000 + (if y < 0 {
                        y + 0x1_0000_0000
                    } else {
                        y as int
                    })
                    &&& forall|other: MouseButton| #[trigger]
                        held(after.mouse.buttons, other) == (if other == button {
                            down
                        } else {
                            held(state.mouse.buttons, other)
                        })
                },
                InputEvent::MouseMove { .. } => {
                    &&& after.mouse.buttons == state.mouse.buttons
                    &&& reception is Ignored || reception is Execute && reception->Execute_0
                        is MouseMove
                },
            }
        }),
{
    if let InputEvent::MouseButton { button, down } = packet.event {
        assert forall|other: MouseButton| #[trigger]
            held(with_button(state.mouse.buttons, button, down), other) == (if other == button {
                down
            } else {
                held(state.mouse.buttons, other)
            }) by {
            law_buttons_are_independent(state.mouse.buttons, button, down, other);
        }
        vstd::arithmetic::div_mod::lemma_fundamental_div_mod(
            state.mouse.position as int,
            0x1_0000_0000,
        );
    }
}

/// A packet without credentials has no effect unless its source proved the
/// pairing within the last few seconds; a source that never did is refused for
/// ever. And what is carried out was admitted and meant for this machine.
pub proof fn law_only_proven_sources_act(
    state: ReceiveView,
    layout: LayoutState,
    native_layout: LayoutState,
    platform: Platform,
    packet: InputPacket,
    source: Seq<char>,
    source_ip: Seq<char>,
    local_peer_id: Seq<char>,
    now: u64,
)
    ensures
        ({
            let (next, reception) = received(
                state,
                layout,
                native_layout,
                platform,
                packet,
                source,
                source_ip,
                local_peer_id,
                now,
            );
            &&& reception is Execute ==> admitted(state.origins, layout, packet, source, now)
                && meant_for_us(layout, packet.target_device_id@, local_peer_id)
            &&& blank(packet.pair_secret@) && !state.origins.dom().contains(source) ==> next
                == state && !(reception is Execute)
            &&& next.origins.dom().contains(source) && !state.origins.dom().contains(source)
                ==> authorized(layout, packet)
        }),
{
}

/// What a control packet asks for.
pub open spec fn control_received(
    layout: LayoutState,
    packet: InputControlPacket,
    local_peer_id: Seq<char>,
) -> Reception {
    if packet.protocol@ != INPUT_CONTROL_PROTOCOL@ {
        Reception::NotOurs
    } else if !control_authorized(layout, packet) {
        Reception::Unauthorized
    } else if !meant_for_us(layout, packet.target_device_id@, local_peer_id) {
        Reception::Ignored
    } else {
        match packet.command {
            InputControlCommand::SecureAttention => Reception::SecureAttention,
        }
    }
}

pub fn handle_control_packet(
    layout: &LayoutState,
    packet: &InputControlPacket,
    local_peer_id: &str,
) -> (r: Reception)
    ensures
        r == control_received(*layout, *packet, local_peer_id@),
{
    if !same(packet.protocol.as_str(), INPUT_CONTROL_PROTOCOL) {
        return Reception::NotOurs;
    }
    if !control_packet_authorized(layout, packet) {
        return Reception::Unauthorized;
    }
    if !packet_targets_local(layout, packet.target_device_id.as_str(), local_peer_id) {
        return Reception::Ignored;
    }
    match packet.command {
        InputControlCommand::SecureAttention => Reception::SecureAttention,
    }
}

/// A datagram, as far as it could be read.
#[derive(Debug)]
pub enum Datagram {
    Input(InputPacket),
    Control(InputControlPacket),
    Unreadable,
}

/// What a datagram does, and what is remembered afterwards. Without the layout
/// nothing of it is taken.
pub open spec fn datagram_received(
    state: ReceiveView,
    layout: Option<LayoutState>,
    native_layout: LayoutState,
    platform: Platform,
    datagram: Datagram,
    source: Seq<char>,
    source_ip: Seq<char>,
    local_peer_id: Seq<char>,
    now: u64,
) -> (ReceiveView, Reception) {
    match (layout, datagram) {
        (Some(layout), Datagram::Input(packet)) => received(
            state,
            layout,
            native_layout,
            platform,
            packet,
            source,
            source_ip,
            local_peer_id,
            now,
        ),
        (Some(layout), Datagram::Control(packet)) => (
            state,
            control_received(layout, packet, local_peer_id),
        ),
        _ => (state, Reception::NotOurs),
    }
}

/// Handles one datagram of the input plane. It was taken as one of ours unless
/// the answer is `NotOurs`.
pub fn handle_input_datagram(
    state: &mut ReceiveState,
    layout: Option<&LayoutState>,
    native_layout: &LayoutState,
    platform: Platform,
    datagram: &Datagram,
    source: &str,
    source_ip: &str,
    local_peer_id: &str,
    now: u64,
) -> (r: Reception)
    ensures
        (final(state)@, r) == datagram_received(
            old(state)@,
            match layout {
                Some(layout) => Some(*layout),
                None => None,
            },
            *native_layout,
            platform,
            *datagram,
            source@,
            source_ip@,
            local_peer_id@,
            now,
        ),
{
    let layout = match layout {
        Some(layout) => layout,
        None => {
            return Reception::NotOurs;
        },
    };
    match datagram {
        Datagram::Input(packet) => state.handle_input_packet(
            layout,
            native_layout,
            platform,
            packet,
            source,
            source_ip,
            local_peer_id,
            now,
        ),
        Datagram::Control(packet) => handle_control_packet(layout, packet, local_peer_id),
        Datagram::Unreadable => Reception::NotOurs,
    }
}

/// How long the id that this machine announces itself by is kept, in
/// nanoseconds.
pub const LOCAL_PEER_ID_TTL: u64 = 5_000_000_000;

/// The id that was derived a short while ago, if it was.
pub fn cached_local_peer_id(cached: &Option<(u64, String)>, now: u64) -> (r: Option<&String>)
    ensures
        match r {
            Some(id) => *cached matches Some((at, kept)) && age(now, at) < LOCAL_PEER_ID_TTL && *id
                == kept,
            None => !(*cached matches Some((at, _)) && age(now, at) < LOCAL_PEER_ID_TTL),
        },
{
    match cached {
        Some((at, id)) => if elapsed(now, *at) < LOCAL_PEER_ID_TTL {
            Some(id)
        } else {
            None
        },
        None => None,
    }
}

/// How seldom refusals are logged, in nanoseconds: one movement is many packets.
pub const REFUSAL_LOG_INTERVAL: u64 = 3_000_000_000;

/// Whether a refusal is logged, given when the last one was.
pub fn refusal_log_due(last: &mut Option<u64>, now: u64) -> (r: bool)
    ensures
        r == !(*old(last) matches Some(at) && age(now, at) < REFUSAL_LOG_INTERVAL),
        *final(last) == (if r {
            Some(now)
        } else {
            *old(last)
        }),
{
    let recent: bool = match *last {
        Some(at) => elapsed(now, at) < REFUSAL_LOG_INTERVAL,
        None => false,
    };
    if recent {
        return false;
    }
    *last = Some(now);
    true
}

} // verus!
