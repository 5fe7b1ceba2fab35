//! Sending input: whom a packet goes to, and when it carries the credentials
//! that prove the pairing.

use crate::active::{find_device, known_as};
use crate::keys::{remap_event_for_target_layout, remapped_event};
use crate::layout::{Device, LayoutState};
use crate::packet::{
    InputControlCommand, InputControlPacket, InputPacketRef, INPUT_CONTROL_PROTOCOL, INPUT_PROTOCOL,
};
use crate::platform::Platform;
use crate::recency::{age, elapsed, younger_than, Recency};
use crate::seqs::{find, first, position};
use crate::shared_input::{EventView, InputEvent};
use crate::targets::{device_address, device_address_text, InputTarget};
use crate::text::{blank, is_blank, same};
use crate::transport::{PeerEndpoint, PROTOCOL_VERSION};
use vstd::prelude::*;

verus! {

/// How often the full credentials ride an input packet, in nanoseconds. In
/// between packets omit them, and the receiver goes by what it remembers of the
/// source. It stays below `INPUT_ORIGIN_CACHE_TTL`, so that the authorisation
/// never lapses during a session.
pub const INPUT_FULL_CRED_REFRESH: u64 = 2_000_000_000;

/// How long a receiver treats a source as authorised after a packet with
/// credentials, in nanoseconds. A source that never proved the pairing has no
/// such time at all.
pub const INPUT_ORIGIN_CACHE_TTL: u64 = 5_000_000_000;

/// How long a sender remembers a destination.
pub const INPUT_DESTINATION_MEMORY: u64 = 20_000_000_000;

/// Whether full credentials are due for a destination.
pub open spec fn credentials_due(last_sent: Option<u64>, now: u64) -> bool {
    match last_sent {
        Some(last) => age(now, last) >= INPUT_FULL_CRED_REFRESH,
        None => true,
    }
}

/// Whether an authorisation is still in force.
pub open spec fn authorization_fresh(authorized_at: Option<u64>, now: u64) -> bool {
    match authorized_at {
        Some(at) => age(now, at) < INPUT_ORIGIN_CACHE_TTL,
        None => false,
    }
}

pub fn credential_send_due(last_sent: Option<u64>, now: u64) -> (r: bool)
    ensures
        r == credentials_due(last_sent, now),
{
    match last_sent {
        Some(last) => elapsed(now, last) >= INPUT_FULL_CRED_REFRESH,
        None => true,
    }
}

pub fn origin_authorization_fresh(authorized_at: Option<u64>, now: u64) -> (r: bool)
    ensures
        r == authorization_fresh(authorized_at, now),
{
    match authorized_at {
        Some(at) => elapsed(now, at) < INPUT_ORIGIN_CACHE_TTL,
        None => false,
    }
}

/// A packet that goes out without credentials finds the authorisation of the
/// last ones still in force, as long as it does not travel longer than the two
/// windows differ.
pub proof fn law_authorization_outlasts_the_refresh(
    sent_at: u64,
    authorized_at: u64,
    now: u64,
    arrives_at: u64,
)
    requires
        sent_at <= authorized_at,
        !credentials_due(Some(sent_at), now),
        sent_at <= now,
        arrives_at <= now + (INPUT_ORIGIN_CACHE_TTL - INPUT_FULL_CRED_REFRESH),
    ensures
        authorization_fresh(Some(authorized_at), arrives_at),
{
}

/// When a destination last got credentials.
pub open spec fn last_of(m: Map<Seq<char>, u64>, name: Seq<char>) -> Option<u64> {
    if m.dom().contains(name) {
        Some(m[name])
    } else {
        None
    }
}

/// Decides whether the packet being built for an address carries the full
/// credentials, and remembers it if so.
pub fn should_send_full_input_credentials(tracker: &mut Recency, addr: &str, now: u64) -> (r: bool)
    ensures
        r == credentials_due(last_of(old(tracker)@, addr@), now),
        final(tracker)@ == (if r {
            younger_than(old(tracker)@, now, INPUT_DESTINATION_MEMORY).insert(addr@, now)
        } else {
            old(tracker)@
        }),
{
    let due: bool = credential_send_due(tracker.last(addr), now);
    if due {
        tracker.record(addr, now, INPUT_DESTINATION_MEMORY);
    }
    due
}

// ---------------------------------------------------------------------------
// Whom a packet goes to
// ---------------------------------------------------------------------------
/// What a packet is built from.
#[derive(Debug)]
pub struct InputPacketContext {
    pub origin_device_id: String,
    pub cluster_id: String,
    pub pair_secret: String,
    pub peer: Option<PeerEndpoint>,
    pub event: InputEvent,
}

/// A peer's address, key and version.
pub open spec fn endpoint_is(
    peer: PeerEndpoint,
    addr: Seq<char>,
    public_key: Seq<char>,
    protocol_version: u16,
) -> bool {
    peer.addr@ == addr && peer.public_key@ == public_key && peer.protocol_version
        == protocol_version
}

/// The context that a target carries along: everything as it was when the
/// target was built, the event untouched.
pub open spec fn cached_context(context: InputPacketContext, target: InputTarget, event: EventView) -> bool {
    &&& context.origin_device_id@ == target.origin_device_id@
    &&& context.cluster_id@ == target.cluster_id@
    &&& context.pair_secret@ == target.pair_secret@
    &&& context.peer matches Some(peer) && endpoint_is(
        peer,
        target.target_addr@,
        target.transport_public_key@,
        target.protocol_version,
    )
    &&& context.event@ == event
}

/// The context that the layout gives now: no peer unless the device is online
/// and ready, and the event remapped for the target's platform.
pub open spec fn live_context(
    context: InputPacketContext,
    target: InputTarget,
    event: EventView,
    layout: LayoutState,
    origin_id: Seq<char>,
    platform: Platform,
) -> bool {
    &&& context.origin_device_id@ == origin_id
    &&& context.cluster_id@ == layout.cluster_id@
    &&& context.pair_secret@ == layout.pair_secret@
    &&& context.event@ == remapped_event(event, target.target_platform@, platform, layout)
    &&& match first(layout.devices@, known_as(target.device_id@)) {
        Some(device) => if device.online && device.input_ready {
            context.peer matches Some(peer) && endpoint_is(
                peer,
                device_address(device),
                device.transport_public_key@,
                device.protocol_version,
            )
        } else {
            context.peer is None
        },
        None => context.peer is None,
    }
}

/// What a packet is built from. Mouse events go by what the target carries, so
/// they never wait for the layout; key events go by the layout, where it can be
/// had at once, for the sake of the modifier map.
pub fn input_packet_context(
    target: &InputTarget,
    event: InputEvent,
    layout: Option<&LayoutState>,
    origin_device_id: &str,
    platform: Platform,
) -> (r: InputPacketContext)
    ensures
        match (event, layout) {
            (InputEvent::Key { .. }, Some(layout)) => live_context(
                r,
                *target,
                event@,
                *layout,
                origin_device_id@,
                platform,
            ),
            _ => cached_context(r, *target, event@),
        },
{
    let is_key: bool = match &event {
        InputEvent::Key { .. } => true,
        _ => false,
    };
    match layout {
        Some(layout) if is_key => {
            let peer: Option<PeerEndpoint> = match find_device(layout, target.device_id.as_str()) {
                Some(device) => if device.online && device.input_ready {
                    Some(
                        PeerEndpoint {
                            addr: device_address_text(device),
                            public_key: device.transport_public_key.clone(),
                            protocol_version: device.protocol_version,
                        },
                    )
                } else {
                    None
                },
                None => None,
            };
            InputPacketContext {
                origin_device_id: String::from_str(origin_device_id),
                cluster_id: layout.cluster_id.clone(),
                pair_secret: layout.pair_secret.clone(),
                peer,
                event: remap_event_for_target_layout(
                    event,
                    target.target_platform.as_str(),
                    platform,
                    layout,
                ),
            }
        },
        _ => InputPacketContext {
            origin_device_id: target.origin_device_id.clone(),
            cluster_id: target.cluster_id.clone(),
            pair_secret: target.pair_secret.clone(),
            peer: Some(
                PeerEndpoint {
                    addr: target.target_addr.clone(),
                    public_key: target.transport_public_key.clone(),
                    protocol_version: target.protocol_version,
                },
            ),
            event,
        },
    }
}

/// A key event is for nobody while the layout shows its device offline, not
/// ready for input, or not at all.
pub proof fn law_no_keys_for_an_absent_device(
    context: InputPacketContext,
    target: InputTarget,
    event: EventView,
    layout: LayoutState,
    origin_id: Seq<char>,
    platform: Platform,
)
    requires
        live_context(context, target, event, layout, origin_id, platform),
    ensures
        context.peer is Some <==> (first(layout.devices@, known_as(target.device_id@)) matches Some(
            device,
        ) && device.online && device.input_ready),
{
}

/// Whether a packet is the one for a context, with all of the credentials or
/// with none.
pub open spec fn goes_out(
    packet: InputPacketRef,
    context: InputPacketContext,
    target_device_id: Seq<char>,
    origin_port: u16,
    public_key: Seq<char>,
    include_credentials: bool,
) -> bool {
    &&& packet.protocol@ == INPUT_PROTOCOL@
    &&& packet.target_device_id@ == target_device_id
    &&& packet.origin_port == origin_port
    &&& packet.origin_protocol_version == PROTOCOL_VERSION
    &&& *packet.event == context.event
    &&& if include_credentials {
        &&& packet.origin_device_id@ == context.origin_device_id@
        &&& packet.origin_transport_public_key@ == public_key
        &&& packet.cluster_id@ == context.cluster_id@
        &&& packet.pair_secret@ == context.pair_secret@
    } else {
        &&& packet.origin_device_id@.len() == 0
        &&& packet.origin_transport_public_key@.len() == 0
        &&& packet.cluster_id@.len() == 0
        &&& packet.pair_secret@.len() == 0
    }
}

/// The packet that goes out for a context, with the credentials or without.
pub fn outgoing_packet<'a>(
    context: &'a InputPacketContext,
    target_device_id: &'a str,
    origin_port: u16,
    public_key: &'a str,
    include_credentials: bool,
) -> (r: InputPacketRef<'a>)
    ensures
        goes_out(
            r,
            *context,
            target_device_id@,
            origin_port,
            public_key@,
            include_credentials,
        ),
{
    proof {
        reveal_strlit("");
    }
    InputPacketRef {
        protocol: INPUT_PROTOCOL,
        target_device_id,
        origin_device_id: if include_credentials {
            context.origin_device_id.as_str()
        } else {
            ""
        },
        origin_port,
        origin_transport_public_key: if include_credentials {
            public_key
        } else {
            ""
        },
        origin_protocol_version: PROTOCOL_VERSION,
        cluster_id: if include_credentials {
            context.cluster_id.as_str()
        } else {
            ""
        },
        pair_secret: if include_credentials {
            context.pair_secret.as_str()
        } else {
            ""
        },
        event: &context.event,
    }
}

/// Builds the packet for a context and says whom it goes to, where it goes to
/// anyone. `tracker` remembers who got the credentials when.
pub fn send_packet<'a>(
    context: &'a InputPacketContext,
    target_device_id: &'a str,
    origin_port: u16,
    public_key: &'a str,
    tracker: &mut Recency,
    now: u64,
) -> (r: Option<(&'a PeerEndpoint, InputPacketRef<'a>)>)
    ensures
        match (context.peer, r) {
            (Some(peer), Some((to, packet))) => {
                let due = credentials_due(last_of(old(tracker)@, peer.addr@), now);
                &&& *to == peer
                &&& goes_out(packet, *context, target_device_id@, origin_port, public_key@, due)
                &&& final(tracker)@ == (if due {
                    younger_than(old(tracker)@, now, INPUT_DESTINATION_MEMORY).insert(
                        peer.addr@,
                        now,
                    )
                } else {
                    old(tracker)@
                })
            },
            (None, None) => final(tracker)@ == old(tracker)@,
            _ => false,
        },
{
    match &context.peer {
        Some(peer) => {
            let due: bool = should_send_full_input_credentials(tracker, peer.addr.as_str(), now);
            Some((peer, outgoing_packet(context, target_device_id, origin_port, public_key, due)))
        },
        None => None,
    }
}

/// What became of a packet.
#[derive(Debug, Clone, Copy, PartialEq, Eq, Structural)]
pub enum Fate {
    /// There was nobody to send it to.
    NoPeer,
    /// It could not be written down.
    NotEncoded,
    /// The transport did not take it.
    Refused,
    /// The transport took it.
    Accepted,
}

/// The count of events after one more; it starts over behind the largest number.
pub open spec fn one_more(events: u64) -> u64 {
    if events == u64::MAX {
        0
    } else {
        (events + 1) as u64
    }
}

/// Counts an event that was sent or carried out.
pub fn count_event(events: &mut u64)
    ensures
        *final(events) == one_more(*old(events)),
{
    *events = events.wrapping_add(1);
}

/// Settles a packet: tells whether it was sent, counts it if it was, and takes
/// its device for offline if the transport refused it. Where the layout cannot
/// be had, no device is.
pub fn packet_sent(
    fate: Fate,
    events: &mut u64,
    layout: Option<&mut LayoutState>,
    device_id: &str,
) -> (r: bool)
    ensures
        r == (fate == Fate::Accepted),
        *final(events) == (if fate == Fate::Accepted {
            one_more(*old(events))
        } else {
            *old(events)
        }),
        layout matches Some(known) ==> if fate == Fate::Refused {
            taken_for_offline(*known, device_id@, *final(known))
        } else {
            *final(known) == *known
        },
{
    match fate {
        Fate::Accepted => {
            count_event(events);
            true
        },
        Fate::Refused => {
            if let Some(layout) = layout {
                mark_target_offline(layout, device_id);
            }
            false
        },
        _ => false,
    }
}

/// Whether one layout is another after the first device that goes by an id was
/// taken for offline.
pub open spec fn taken_for_offline(before: LayoutState, id: Seq<char>, after: LayoutState) -> bool {
    &&& after == (LayoutState { devices: after.devices, ..before })
    &&& after.devices@.len() == before.devices@.len()
    &&& forall|i: int|
        0 <= i < before.devices@.len() ==> #[trigger] after.devices@[i] == (if first_known(
            before.devices@,
            id,
            i,
        ) {
            Device { online: false, ..before.devices@[i] }
        } else {
            before.devices@[i]
        })
}

/// A device whose packets could not be sent is taken for offline: the first one
/// that goes by the target's id.
pub fn mark_target_offline(layout: &mut LayoutState, device_id: &str)
    ensures
        taken_for_offline(*old(layout), device_id@, *final(layout)),
{
    let test = |device: &Device| -> (b: bool)
        ensures
            b == (device.id@ == device_id@),
        { same(device.id.as_str(), device_id) };
    match position(&layout.devices, test, Ghost(known_as(device_id@))) {
        Some(i) => {
            let device = &mut layout.devices[i];
            device.online = false;
        },
        None => {},
    }
}

/// Whether the device at an index is the first that goes by an id.
pub open spec fn first_known(devices: Seq<Device>, id: Seq<char>, i: int) -> bool {
    devices[i].id@ == id && forall|j: int| 0 <= j < i ==> (#[trigger] devices[j]).id@ != id
}

// ---------------------------------------------------------------------------
// Secure attention
// ---------------------------------------------------------------------------
/// The test for a remote device that goes by an id.
pub open spec fn remote_as(id: Seq<char>) -> spec_fn(Device) -> bool {
    |device: Device| device.id@ == id && device.role@ != "local"@
}

/// Why the secure attention sequence cannot be sent to a device, if it cannot.
pub open spec fn attention_refusal(layout: LayoutState, device_id: Seq<char>) -> Option<Seq<char>> {
    match first(layout.devices@, remote_as(device_id)) {
        None => Some("target device is not in the layout"@),
        Some(target) => if target.platform@ != "windows"@ {
            Some("Ctrl+Alt+Del control is only available for Windows targets."@)
        } else if !target.online || !target.input_ready {
            Some("target device is not online and input-ready"@)
        } else if blank(target.transport_public_key@) {
            Some("target device has no QUIC transport key; re-pair it first"@)
        } else if blank(layout.cluster_id@) || blank(layout.pair_secret@) {
            Some("this device is not paired with the target"@)
        } else {
            None
        },
    }
}

/// What is sent for the secure attention sequence, and to whom; or why nothing
/// is.
pub fn send_secure_attention_control(
    layout: &LayoutState,
    device_id: &str,
    origin_device_id: &str,
    public_key: &str,
) -> (r: Result<(InputControlPacket, PeerEndpoint), String>)
    ensures
        match r {
            Ok((packet, peer)) => {
                &&& attention_refusal(*layout, device_id@) is None
                &&& first(layout.devices@, remote_as(device_id@)) matches Some(target)
                &&& endpoint_is(
                    peer,
                    device_address(target),
                    target.transport_public_key@,
                    target.protocol_version,
                )
                &&& packet.protocol@ == INPUT_CONTROL_PROTOCOL@
                &&& packet.target_device_id@ == target.id@
                &&& packet.origin_device_id@ == origin_device_id@
                &&& packet.origin_transport_public_key@ == public_key@
                &&& packet.origin_protocol_version == PROTOCOL_VERSION
                &&& packet.cluster_id@ == layout.cluster_id@
                &&& packet.pair_secret@ == layout.pair_secret@
                &&& packet.command == InputControlCommand::SecureAttention
            },
            Err(reason) => attention_refusal(*layout, device_id@) == Some(reason@),
        },
{
    let test = |device: &Device| -> (b: bool)
        ensures
            b == (device.id@ == device_id@ && device.role@ != "local"@),
        { same(device.id.as_str(), device_id) && !same(device.role.as_str(), "local") };
    let target = match find(&layout.devices, test, Ghost(remote_as(device_id@))) {
        Some(target) => target,
        None => {
            return Err(String::from_str("target device is not in the layout"));
        },
    };
    if !same(target.platform.as_str(), "windows") {
        return Err(
            String::from_str("Ctrl+Alt+Del control is only available for Windows targets."),
        );
    }
    if !target.online || !target.input_ready {
        return Err(String::from_str("target device is not online and input-ready"));
    }
    if is_blank(target.transport_public_key.as_str()) {
        return Err(
            String::from_str("target device has no QUIC transport key; re-pair it first"),
        );
    }
    if is_blank(layout.cluster_id.as_str()) || is_blank(layout.pair_secret.as_str()) {
        return Err(String::from_str("this device is not paired with the target"));
    }
    Ok(
        (
            InputControlPacket {
                protocol: String::from_str(INPUT_CONTROL_PROTOCOL),
                target_device_id: target.id.clone(),
                origin_device_id: String::from_str(origin_device_id),
                origin_transport_public_key: String::from_str(public_key),
                origin_protocol_version: PROTOCOL_VERSION,
                cluster_id: layout.cluster_id.clone(),
                pair_secret: layout.pair_secret.clone(),
                command: InputControlCommand::SecureAttention,
            },
            PeerEndpoint {
                addr: device_address_text(target),
                public_key: target.transport_public_key.clone(),
                protocol_version: target.protocol_version,
            },
        ),
    )
}

} // verus!
