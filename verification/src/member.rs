//! What a controlled peer does with what reaches it: which input it queues,
//! what it tells of itself, whom it answers, and which copies it takes.

use crate::client::{
    answered_addresses, endpoint_of, flat, of_others, plain_packet, stream_kind_of, Acceptance,
    Answer, Arrival, ClientView, Config, LastCopyView, StreamKind, MAX_QUEUED_EVENTS,
};
use crate::clipboard::ClipboardPacketView;
use crate::clipboard_target::{awake_as, controlled_clipboard, ClipboardTargetView};
use crate::discovery::{peer_id, stream_port, DiscoveryPacketView, LanPeerView};
use crate::layout::LayoutState;
use crate::packet::InputPacket;
use crate::pairing::MembershipView;
use crate::seqs::{lemma_first, lemma_first_is};
use crate::shared_input::{dragged_button, held, EventView, MouseButton};
use crate::targets::{address, device_address};
use crate::text::{blank, trimmed};
use crate::transport::EndpointView;
use vstd::prelude::*;

verus! {

/// A flat event is three numbers: which of the four kinds it is, and its two
/// amounts, the horizontal one before the vertical one, or what was pressed
/// before whether it went down.
pub proof fn law_flat_events_hold_their_amounts_in_order(event: EventView)
    ensures
        flat(event).len() == 3,
        event matches EventView::MouseMove { x, y, .. } ==> flat(event)[0] == 1 && flat(event)[1]
            == x && flat(event)[2] == y,
        event matches EventView::MouseButton { button, down } ==> {
            &&& flat(event)[0] == 2
            &&& (button == MouseButton::Left <==> flat(event)[1] == 0)
            &&& (button == MouseButton::Right <==> flat(event)[1] == 1)
            &&& (button == MouseButton::Middle <==> flat(event)[1] == 2)
            &&& (button == MouseButton::Back <==> flat(event)[1] == 3)
            &&& (button == MouseButton::Forward <==> flat(event)[1] == 4)
            &&& (down <==> flat(event)[2] == 1)
            &&& (!down <==> flat(event)[2] == 0)
        },
        event matches EventView::Scroll { delta_x, delta_y } ==> flat(event)[0] == 3 && flat(
            event,
        )[1] == delta_x && flat(event)[2] == delta_y,
        event matches EventView::Key { key_code, down } ==> {
            &&& flat(event)[0] == 4
            &&& flat(event)[1] == key_code
            &&& (down <==> flat(event)[2] == 1)
            &&& (!down <==> flat(event)[2] == 0)
        },
{
}

/// A client queues the event of a packet in its own protocol that names it or
/// nobody, behind the events that wait already, as long as there is room.
/// Every other datagram leaves it as it was.
pub proof fn law_input_for_the_client_is_queued(client: ClientView, packet: InputPacket)
    ensures
        ({
            let arrival = Arrival::Packet(packet);
            let ours = packet.protocol@ == "mykvm.input.v1"@;
            let addressed = packet.target_device_id@.len() == 0 || packet.target_device_id@
                == client.device_id;
            let room = client.events.len() < MAX_QUEUED_EVENTS;
            let after = client.after_datagram(arrival);
            &&& client.acceptance(arrival) == Acceptance::Queued <==> ours && addressed && room
            &&& client.acceptance(arrival) == Acceptance::Dropped <==> ours && addressed && !room
            &&& client.acceptance(arrival) == Acceptance::Misdirected <==> ours && !addressed
            &&& client.acceptance(arrival) == Acceptance::Foreign <==> !ours
            &&& ours && addressed && room ==> {
                &&& after.events.len() == client.events.len() + 1
                &&& after.events.last() == packet.event@
                &&& after.events.drop_last() == client.events
                &&& after == ClientView { events: after.events, ..client }
            }
            &&& !(ours && addressed && room) ==> after == client
        }),
        client.after_datagram(Arrival::Empty) == client,
        client.after_datagram(Arrival::Undecodable) == client,
        client.acceptance(Arrival::Empty) == Acceptance::Ignored,
        client.acceptance(Arrival::Undecodable) == Acceptance::Undecodable,
{
    let after = client.after_datagram(Arrival::Packet(packet));
    if client.acceptance(Arrival::Packet(packet)) == Acceptance::Queued {
        assert(after.events.drop_last() =~= client.events);
    }
}

/// A client starts with its own name and size, at its own address, and with
/// nothing heard or queued, and this is what it tells of itself: one screen as
/// wide and as high as the one that it was set up with.
pub proof fn law_a_client_tells_what_it_was_set_up_with(
    config: Config,
    ip: Seq<char>,
    membership: MembershipView,
    version: Seq<char>,
    clock_ms: u64,
)
    ensures
        ({
            let client = ClientView::at(config, ip, membership);
            let told = client.described(version, clock_ms);
            &&& client.running && client.events.len() == 0 && client.peers_seen.len() == 0
            &&& client.challenge is None && client.clipboard is None && client.layout.len() == 0
            &&& client.membership == membership
            &&& told.id == peer_id(config.device_name@, ip)
            &&& told.name == config.device_name@ && told.host == config.device_name@
            &&& told.ip == ip
            &&& told.transport_port == config.discovery_port
            &&& told.cluster_id == membership.cluster_id
            &&& told.pairing_required == !membership.paired()
            &&& told.machine_role == "client"@
            &&& told.platform == "android"@
            &&& told.input_ready && !told.upgrading
            &&& told.screen_count == 1 && told.screens.len() == 1
            &&& told.screens[0].width == config.screen_width
            &&& told.screens[0].height == config.screen_height
            &&& told.screens[0].x == 0 && told.screens[0].y == 0
            &&& told.screens[0].is_primary
            &&& told.app_version == version
            &&& told.last_seen_ms == clock_ms
        }),
{
}

/// What a client tells of itself holds the port and the key that its transport
/// came up with, each in its own place.
pub proof fn law_a_client_tells_where_it_takes_streams(
    client: ClientView,
    version: Seq<char>,
    clock_ms: u64,
    kind: Seq<char>,
)
    ensures
        ({
            let told = plain_packet(client.described(version, clock_ms), kind);
            &&& told.kind == kind
            &&& told.peer.quic_port == client.quic_port
            &&& told.peer.transport_port == client.discovery_port
            &&& told.peer.transport_public_key == client.public_key
            &&& told.pairing_code is None && told.pair_secret is None
        }),
{
}

/// A client listens to every other peer of its protocol: it keeps in mind who
/// spoke, takes the keyboard layout that a server names and no one else's, and
/// opens a challenge only when it is asked to.
pub proof fn law_a_client_listens_to_servers(
    client: ClientView,
    packet: DiscoveryPacketView,
    now: u64,
    code: Seq<char>,
)
    requires
        client.concerns(packet),
    ensures
        ({
            let after = client.after_discovery(packet, now, code);
            let peer = packet.peer;
            let label = peer.name + " ("@ + peer.ip + ")"@;
            &&& after.peers_seen.contains(label)
            &&& client.peers_seen.is_prefix_of(after.peers_seen)
            &&& after.peers_seen.len() <= client.peers_seen.len() + 1
            &&& client.peers_seen.contains(label) ==> after.peers_seen == client.peers_seen
            &&& peer.machine_role == "server"@ && !blank(peer.keyboard_layout) ==> after.layout
                == peer.keyboard_layout
            &&& peer.machine_role != "server"@ ==> after.layout == client.layout
            &&& blank(peer.keyboard_layout) ==> after.layout == client.layout
            &&& packet.kind != "pair-request"@ ==> after.challenge == client.challenge
            &&& after.membership == client.membership
            &&& after.events == client.events
        }),
{
    let peer = packet.peer;
    let label = peer.name + " ("@ + peer.ip + ")"@;
    let after = client.after_discovery(packet, now, code);
    if !client.peers_seen.contains(label) {
        assert(after.peers_seen.last() == label);
        assert(after.peers_seen[client.peers_seen.len() as int] == label);
        assert(after.peers_seen.take(client.peers_seen.len() as int) =~= client.peers_seen);
    } else {
        assert(after.peers_seen.take(client.peers_seen.len() as int) =~= client.peers_seen);
    }
}

/// Another peer's announcement and its probe are answered with an
/// announcement. A request to pair is answered with a challenge where a server
/// makes it and the client belongs to nobody, and with silence otherwise.
pub proof fn law_whom_a_client_answers(client: ClientView, packet: DiscoveryPacketView)
    requires
        client.concerns(packet),
    ensures
        packet.kind == "announce"@ ==> client.answer(packet) == Answer::Announce,
        packet.kind == "probe"@ ==> client.answer(packet) == Answer::Announce,
        packet.kind == "pair-request"@ && packet.peer.machine_role == "server"@
            && !client.membership.paired() ==> client.answer(packet) == Answer::Challenge,
        client.answer(packet) == Answer::Challenge ==> packet.kind == "pair-request"@
            && packet.peer.machine_role == "server"@ && !client.membership.paired(),
        client.answer(packet) == Answer::Announce ==> packet.kind == "announce"@ || packet.kind
            == "probe"@,
{
    reveal_strlit("announce");
    reveal_strlit("probe");
    reveal_strlit("pair-request");
    assert("announce"@.len() != "pair-request"@.len());
    assert("probe"@.len() != "pair-request"@.len());
}

/// An answer goes first to where the packet came from, and also to the address
/// that the peer gives where that is another one. It goes nowhere else, and
/// nowhere twice.
pub proof fn law_answers_go_back_to_the_sender(source: Seq<char>, advertised: Seq<char>)
    ensures
        ({
            let to = answered_addresses(source, advertised);
            &&& 1 <= to.len() <= 2
            &&& to[0] == source
            &&& !blank(advertised) ==> to.contains(trimmed(advertised))
            &&& to.len() == 2 ==> to[1] == trimmed(advertised) && to[1] != source && !blank(
                advertised,
            )
        }),
{
    let to = answered_addresses(source, advertised);
    if !blank(advertised) {
        if trimmed(advertised) == source {
            assert(to[0] == trimmed(advertised));
        } else {
            assert(to[1] == trimmed(advertised));
        }
    }
}

/// A peer is reached by streams at the address that its packet came from, and
/// known there by its own key.
pub proof fn law_streams_go_to_the_address_that_was_seen(peer: LanPeerView, source: Seq<char>)
    ensures
        ({
            let endpoint = endpoint_of(peer, source);
            let port = stream_port(peer.transport_port, peer.quic_port);
            &&& endpoint.public_key == peer.transport_public_key
            &&& endpoint.protocol_version == peer.protocol_version
            &&& endpoint.addr == address(source, port)
        }),
{
}

/// Setting a key's endpoints aside leaves those of every other key, and none
/// of its own.
pub proof fn law_endpoints_of_others_are_kept(
    endpoints: Seq<EndpointView>,
    key: Seq<char>,
    endpoint: EndpointView,
)
    ensures
        of_others(endpoints, key).contains(endpoint) <==> endpoints.contains(endpoint)
            && endpoint.public_key != key,
        of_others(endpoints, key).len() <= endpoints.len(),
    decreases endpoints.len(),
{
    if endpoints.len() > 0 {
        let front = endpoints.drop_last();
        law_endpoints_of_others_are_kept(front, key, endpoint);
        let others = of_others(front, key);
        let all = of_others(endpoints, key);
        assert(endpoints.contains(endpoint) <==> front.contains(endpoint) || endpoints.last()
            == endpoint) by {
            if endpoints.contains(endpoint) {
                let i = choose|i: int| 0 <= i < endpoints.len() && endpoints[i] == endpoint;
                if i < front.len() {
                    assert(front[i] == endpoint);
                }
            }
            if front.contains(endpoint) {
                let i = choose|i: int| 0 <= i < front.len() && front[i] == endpoint;
                assert(endpoints[i] == endpoint);
            }
            assert(endpoints[endpoints.len() - 1] == endpoints.last());
        }
        if endpoints.last().public_key != key {
            assert(all.contains(endpoint) <==> others.contains(endpoint) || endpoints.last()
                == endpoint) by {
                if all.contains(endpoint) {
                    let i = choose|i: int| 0 <= i < all.len() && all[i] == endpoint;
                    if i < others.len() {
                        assert(others[i] == endpoint);
                    }
                }
                if others.contains(endpoint) {
                    let i = choose|i: int| 0 <= i < others.len() && others[i] == endpoint;
                    assert(all[i] == endpoint);
                }
                assert(all[others.len() as int] == endpoints.last());
            }
        }
    }
}

/// A stream that confirms a pairing is told from one that brings a copy, and
/// neither is taken for the other.
pub proof fn law_streams_are_told_apart(protocol: Seq<char>, kind: Seq<char>)
    ensures
        protocol == "mykvm.discovery.v1"@ && kind == "pair-confirm"@ ==> stream_kind_of(
            protocol,
            kind,
        ) == StreamKind::PairConfirm,
        protocol == "mykvm.clipboard.v1"@ ==> stream_kind_of(protocol, kind)
            == StreamKind::Clipboard,
        protocol != "mykvm.discovery.v1"@ && protocol != "mykvm.clipboard.v1"@ ==> stream_kind_of(
            protocol,
            kind,
        ) == StreamKind::Other,
        protocol == "mykvm.discovery.v1"@ && kind != "pair-confirm"@ ==> stream_kind_of(
            protocol,
            kind,
        ) == StreamKind::Other,
{
    reveal_strlit("mykvm.discovery.v1");
    reveal_strlit("mykvm.clipboard.v1");
    assert("mykvm.discovery.v1"@[6] != "mykvm.clipboard.v1"@[6]);
}

/// A copy is taken from a member of the client's own cluster alone, who shows
/// the cluster's secret, and the text that it carries is then on the clipboard.
/// Whatever else arrives leaves the clipboard as it was.
pub proof fn law_copies_are_taken_from_members(client: ClientView, packet: ClipboardPacketView)
    ensures
        ({
            let after = client.after_copy(packet);
            let member = packet.cluster_id == client.membership.cluster_id && packet.pair_secret
                == client.membership.pair_secret && client.membership.paired();
            &&& !member ==> after == client
            &&& packet.read_text() is None ==> after == client
            &&& client.last_copy == LastCopyView::Sent(packet.signature) ==> after == client
            &&& after != client ==> after.clipboard == packet.read_text() && after.clipboard is Some
            &&& packet.text.len() > 0 ==> packet.read_text() == Some(packet.text)
            &&& after == ClientView {
                clipboard: after.clipboard,
                last_copy: after.last_copy,
                ..client
            }
        }),
{
}

/// A copy that a client sends names the client and its cluster, carries the
/// text, and has a number of its own.
pub proof fn law_a_copy_names_its_sender(client: ClientView, text: Seq<char>)
    requires
        client.sequence < u64::MAX,
    ensures
        ({
            let copy = client.copy_of(text);
            &&& copy.text == text
            &&& copy.origin_id == client.device_id
            &&& copy.origin_transport_public_key == client.public_key
            &&& copy.cluster_id == client.membership.cluster_id
            &&& copy.pair_secret == client.membership.pair_secret
            &&& copy.target_id.len() == 0
            &&& copy.image is None
            &&& copy.sequence == client.sequence + 1
            &&& copy.formats.len() == 1
            &&& copy.formats[0].kind == "plainText"@
            &&& copy.formats[0].text == text
        }),
{
}

/// While a device is controlled, copies go to that device, under the cluster
/// of the layout and for as long as it is controlled.
pub proof fn law_copies_follow_the_controlled_device(
    before: Option<ClipboardTargetView>,
    layout: LayoutState,
    device_id: Seq<char>,
    i: int,
)
    requires
        0 <= i < layout.devices@.len(),
        layout.devices@[i].id@ == device_id,
        layout.devices@[i].online,
        layout.devices@[i].input_ready,
        forall|j: int| 0 <= j < i ==> (#[trigger] layout.devices@[j]).id@ != device_id,
    ensures
        ({
            let device = layout.devices@[i];
            let after = controlled_clipboard(before, layout, device_id);
            &&& after is Some
            &&& after->0.device_id == device_id
            &&& after->0.addr == device_address(device)
            &&& after->0.transport_public_key == device.transport_public_key@
            &&& after->0.protocol_version == device.protocol_version
            &&& after->0.cluster_id == layout.cluster_id@
            &&& after->0.pair_secret == layout.pair_secret@
            &&& after->0.expires_at is None
        }),
{
    lemma_first_is(layout.devices@, awake_as(device_id), i);
}

/// Where no device of that id is awake, copies go where they went before.
pub proof fn law_a_sleeping_device_takes_no_copies(
    before: Option<ClipboardTargetView>,
    layout: LayoutState,
    device_id: Seq<char>,
)
    requires
        forall|i: int|
            0 <= i < layout.devices@.len() ==> (#[trigger] layout.devices@[i]).id@ != device_id
                || !layout.devices@[i].online || !layout.devices@[i].input_ready,
    ensures
        controlled_clipboard(before, layout, device_id) == before,
{
    lemma_first(layout.devices@, awake_as(device_id));
}

/// A movement drags with a button that is held: the left one before the right
/// one before the middle one. The side buttons do not drag.
pub proof fn law_a_movement_drags_with_a_held_button(mask: u64)
    ensures
        held(mask, MouseButton::Left) <==> dragged_button(mask) == Some(MouseButton::Left),
        held(mask, MouseButton::Right) && !held(mask, MouseButton::Left) <==> dragged_button(mask)
            == Some(MouseButton::Right),
        held(mask, MouseButton::Middle) && !held(mask, MouseButton::Left) && !held(
            mask,
            MouseButton::Right,
        ) <==> dragged_button(mask) == Some(MouseButton::Middle),
        dragged_button(mask) != Some(MouseButton::Back),
        dragged_button(mask) != Some(MouseButton::Forward),
{
}

} // verus!
