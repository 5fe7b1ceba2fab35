//! Who is trusted, told from both ends.
//!
//! A pairing is proved by what one machine sends and the other holds. Here the
//! two sides are set against each other: what goes out is what is accepted, and
//! what is granted is what was sent.

use crate::active::known_as;
use crate::addresses::Ipv4Addr;
use crate::control::law_copies_go_back_to_the_controller;
use crate::credentials::{
    authorization_fresh, cached_context, credentials_due, goes_out, live_context,
    InputPacketContext, INPUT_ORIGIN_CACHE_TTL,
};
use crate::discovery::{
    code_from, host_beside, id_char, lemma_six_digits_sum, number_of, of_an_id, peer_id, sanitized,
    six_digits, stream_port, swept, usable_port, DiscoveryPacketView, LanPeerView,
};
use crate::layout::LayoutState;
use crate::packet::{InputControlPacket, InputPacket, InputPacketRef};
use crate::pairing::{
    challenged, confirmed, lemma_pieces_of_two_lines, repeats, shown_code, ChallengeView,
    MembershipView, PairingError,
};
use crate::platform::Platform;
use crate::receive::{
    admitted, authorized, control_authorized, controller_as, local_as, meant_for_us, received,
    ReceiveView,
};
use crate::recency::younger_than;
use crate::seqs::{first, lemma_first, lemma_first_is};
use crate::shared_input::EventView;
use crate::targets::{device_address, InputTarget};
use crate::text::{
    blank, digit, digits_value, lemma_stripped, pieces, the_char, trimmed, white_space,
};
use vstd::prelude::*;

verus! {

// ---------------------------------------------------------------------------
// What goes out and what is accepted
// ---------------------------------------------------------------------------
/// Whether a packet arrived as it was sent.
pub open spec fn arrived(sent: InputPacketRef, got: InputPacket) -> bool {
    &&& got.protocol@ == sent.protocol@
    &&& got.target_device_id@ == sent.target_device_id@
    &&& got.origin_device_id@ == sent.origin_device_id@
    &&& got.origin_transport_public_key@ == sent.origin_transport_public_key@
    &&& got.cluster_id@ == sent.cluster_id@
    &&& got.pair_secret@ == sent.pair_secret@
    &&& got.event@ == sent.event@
}

/// A packet with credentials is accepted by a machine that holds the sender's
/// pairing and lists the sender among its controllers, by key or by id.
pub proof fn law_paired_machines_accept_each_others_packets(
    sent: InputPacketRef,
    got: InputPacket,
    context: InputPacketContext,
    target_device_id: Seq<char>,
    origin_port: u16,
    public_key: Seq<char>,
    layout: LayoutState,
    i: int,
)
    requires
        goes_out(sent, context, target_device_id, origin_port, public_key, true),
        arrived(sent, got),
        layout.cluster_id@ == context.cluster_id@,
        layout.pair_secret@ == context.pair_secret@,
        !blank(context.cluster_id@),
        !blank(context.pair_secret@),
        0 <= i < layout.paired_controllers@.len(),
        !blank(public_key) && layout.paired_controllers@[i].transport_public_key@ == public_key
            || !blank(context.origin_device_id@) && layout.paired_controllers@[i].id@
            == context.origin_device_id@,
    ensures
        authorized(layout, got),
        got.event@ == context.event@,
        got.target_device_id@ == target_device_id,
{
    let test = controller_as(public_key, context.origin_device_id@);
    lemma_first(layout.paired_controllers@, test);
    assert(test(layout.paired_controllers@[i]));
}

/// A machine accepts nothing from one with another cluster or another secret,
/// nor, but for the old local id of a lone controller, from one that it does not
/// list.
pub proof fn law_strangers_are_refused(layout: LayoutState, packet: InputPacket)
    ensures
        packet.cluster_id@ != layout.cluster_id@ ==> !authorized(layout, packet),
        packet.pair_secret@ != layout.pair_secret@ ==> !authorized(layout, packet),
        blank(layout.cluster_id@) || blank(layout.pair_secret@) ==> !authorized(layout, packet),
        packet.origin_device_id@ != "local-device"@ && (forall|i: int|
            0 <= i < layout.paired_controllers@.len() ==> (
            #[trigger] layout.paired_controllers@[i]).id@ != packet.origin_device_id@
                && layout.paired_controllers@[i].transport_public_key@
                != packet.origin_transport_public_key@) ==> !authorized(layout, packet),
{
    lemma_first(
        layout.paired_controllers@,
        controller_as(packet.origin_transport_public_key@, packet.origin_device_id@),
    );
}

/// A control packet is held to the same proof as input.
pub proof fn law_control_needs_the_same_proof(
    layout: LayoutState,
    control: InputControlPacket,
    packet: InputPacket,
)
    requires
        control.cluster_id@ == packet.cluster_id@,
        control.pair_secret@ == packet.pair_secret@,
        control.origin_device_id@ == packet.origin_device_id@,
        control.origin_transport_public_key@ == packet.origin_transport_public_key@,
    ensures
        control_authorized(layout, control) == authorized(layout, packet),
{
}

/// A packet is meant for this machine when it names nobody, its announced id, or
/// the id of its own device; and not when it names another.
pub proof fn law_packets_are_for_whom_they_name(
    layout: LayoutState,
    target: Seq<char>,
    local_peer_id: Seq<char>,
)
    ensures
        blank(target) ==> meant_for_us(layout, target, local_peer_id),
        meant_for_us(layout, local_peer_id, local_peer_id),
        !blank(target) && target != local_peer_id ==> (meant_for_us(layout, target, local_peer_id)
            <==> exists|i: int|
            0 <= i < layout.devices@.len() && (#[trigger] layout.devices@[i]).id@ == target
                && layout.devices@[i].role@ == "local"@),
{
    let test = local_as(target);
    lemma_first(layout.devices@, test);
    if exists|i: int|
        0 <= i < layout.devices@.len() && (#[trigger] layout.devices@[i]).id@ == target
            && layout.devices@[i].role@ == "local"@ {
        let i = choose|i: int|
            0 <= i < layout.devices@.len() && (#[trigger] layout.devices@[i]).id@ == target
                && layout.devices@[i].role@ == "local"@;
        assert(test(layout.devices@[i]));
    }
    if first(layout.devices@, test) is Some {
        let device = first(layout.devices@, test)->0;
        let i = choose|i: int| 0 <= i < layout.devices@.len() && #[trigger] layout.devices@[i]
            == device;
        assert(layout.devices@[i].id@ == target);
    }
}

/// Credentials go out every two seconds, and prove a source for five: a sender
/// that keeps sending is never taken for a stranger in between.
pub proof fn law_credentials_are_renewed_in_time(last: u64, now: u64)
    ensures
        credentials_due(Some(last), now) <==> now - last >= 2_000_000_000,
        authorization_fresh(Some(last), now) <==> now - last < 5_000_000_000,
        credentials_due(None, now),
        !authorization_fresh(None, now),
{
}

/// A source is remembered while its last proof is younger than the span, with
/// that proof's time, and forgotten after.
pub proof fn law_old_proofs_are_forgotten(
    m: Map<Seq<char>, u64>,
    now: u64,
    span: u64,
    name: Seq<char>,
)
    requires
        span > 0,
    ensures
        younger_than(m, now, span).dom().contains(name) <==> m.dom().contains(name) && now
            - m[name] < span,
        younger_than(m, now, span).dom().contains(name) ==> younger_than(m, now, span)[name]
            == m[name],
{
}

/// A source that proved the pairing is taken at its word for five seconds from
/// then: a packet without credentials that follows from the same source is let
/// in within that time, and not after.
pub proof fn law_a_proven_source_is_remembered(
    state: ReceiveView,
    layout: LayoutState,
    native_layout: LayoutState,
    platform: Platform,
    packet: InputPacket,
    bare: InputPacket,
    source: Seq<char>,
    source_ip: Seq<char>,
    local_id: Seq<char>,
    now: u64,
    later: u64,
)
    requires
        packet.protocol@ == "mykvm.input.v1"@,
        !blank(packet.pair_secret@),
        authorized(layout, packet),
        blank(bare.pair_secret@),
        now <= later,
    ensures
        ({
            let after = received(
                state,
                layout,
                native_layout,
                platform,
                packet,
                source,
                source_ip,
                local_id,
                now,
            ).0;
            admitted(after.origins, layout, bare, source, later) <==> later - now < 5_000_000_000
        }),
{
    let origins = younger_than(state.origins, now, INPUT_ORIGIN_CACHE_TTL).insert(source, now);
    assert(origins.dom().contains(source));
    assert(origins[source] == now);
}

/// Whoever's input is carried out is where copies go: after the packet the
/// clipboard target bears the sender's id, key and version.
pub proof fn law_the_controller_gets_the_copies(
    state: ReceiveView,
    layout: LayoutState,
    native_layout: LayoutState,
    platform: Platform,
    packet: InputPacket,
    source: Seq<char>,
    source_ip: Seq<char>,
    local_id: Seq<char>,
    now: u64,
)
    requires
        packet.origin_port > 0,
        !blank(packet.origin_transport_public_key@),
        !blank(packet.origin_device_id@),
    ensures
        ({
            let (after, reception) = received(
                state,
                layout,
                native_layout,
                platform,
                packet,
                source,
                source_ip,
                local_id,
                now,
            );
            reception is Execute ==> {
                &&& after.clipboard_target is Some
                &&& after.clipboard_target->0.device_id == packet.origin_device_id@
                &&& after.clipboard_target->0.transport_public_key
                    == packet.origin_transport_public_key@
                &&& after.clipboard_target->0.protocol_version == packet.origin_protocol_version
            }
        }),
{
    law_copies_go_back_to_the_controller(state.clipboard_target, layout, packet, source_ip);
}

// ---------------------------------------------------------------------------
// Joining a cluster
// ---------------------------------------------------------------------------
/// The right code in time makes this machine a member of the cluster that the
/// confirmation names, with the secret that it carries.
pub proof fn law_a_pairing_grants_what_was_sent(
    slot: Option<ChallengeView>,
    packet: DiscoveryPacketView,
    now: u64,
)
    ensures
        confirmed(slot, packet, now).1 matches Ok(m) ==> {
            &&& packet.pair_cluster_id matches Some(cluster) && m.cluster_id == trimmed(cluster)
            &&& packet.pair_secret matches Some(secret) && m.pair_secret == trimmed(secret)
        },
{
    if confirmed(slot, packet, now).1 is Ok {
        lemma_nothing_is_blank();
    }
}

proof fn lemma_nothing_is_blank()
    ensures
        blank(Seq::<char>::empty()),
{
    let none = Seq::<char>::empty();
    lemma_stripped(none, |c: char| white_space(c));
    assert(trimmed(none).len() == 0);
}

/// Why a confirmation is refused: each reason where it holds, in this order.
pub proof fn law_refused_confirmations_say_why(
    slot: Option<ChallengeView>,
    packet: DiscoveryPacketView,
    now: u64,
)
    requires
        packet.pairing_code is Some,
        packet.pair_cluster_id is Some,
        packet.pair_secret is Some,
    ensures
        ({
            let answer = confirmed(slot, packet, now);
            let whole = !blank(packet.pairing_code->0) && !blank(packet.pair_cluster_id->0)
                && !blank(packet.pair_secret->0);
            &&& !whole ==> answer == (slot, Err::<MembershipView, _>(PairingError::Incomplete))
            &&& whole && slot is None ==> answer == (
                slot,
                Err::<MembershipView, _>(PairingError::NotInProgress),
            )
            &&& whole && slot is Some && (slot->0).expires_at <= now ==> answer == (
                None::<ChallengeView>,
                Err::<MembershipView, _>(PairingError::Expired),
            )
            &&& whole && slot is Some && (slot->0).expires_at > now && (slot->0).requester_id
                != packet.peer.id ==> answer == (
                slot,
                Err::<MembershipView, _>(PairingError::DifferentPeer),
            )
            &&& whole && slot is Some && (slot->0).expires_at > now && (slot->0).requester_id
                == packet.peer.id && (slot->0).requester_public_key
                == packet.peer.transport_public_key && (slot->0).code != trimmed(
                packet.pairing_code->0,
            ) ==> answer.1 == Err::<MembershipView, _>(PairingError::WrongCode)
        }),
{
}

/// The fifth wrong code throws a challenge away, and none before it does.
pub proof fn law_five_wrong_codes_end_a_challenge(
    slot: Option<ChallengeView>,
    packet: DiscoveryPacketView,
    now: u64,
)
    requires
        confirmed(slot, packet, now).1 == Err::<MembershipView, _>(PairingError::WrongCode),
    ensures
        slot is Some,
        (slot->0).attempts >= 4 <==> confirmed(slot, packet, now).0 is None,
{
}

/// A code that is shown now is good for a minute, for the peer that asked, and
/// none of its guesses is used up.
pub proof fn law_a_new_code_is_good_for_a_minute(
    slot: Option<ChallengeView>,
    requester: LanPeerView,
    now: u64,
    code: Seq<char>,
    later: u64,
)
    requires
        requester.machine_role == "server"@,
        !repeats(slot, requester, now),
        now <= 0xffff_0000_0000_0000,
        now <= later,
    ensures
        ({
            let after = challenged(slot, requester, false, now, code);
            &&& after matches Some(challenge)
            &&& challenge.requester_id == requester.id
            &&& challenge.attempts == 0
            &&& shown_code(after, later) == (if later - now < 60_000_000_000 {
                Some(code)
            } else {
                None
            })
        }),
{
}

/// A server that asks again while its code is good and untried finds the same
/// code, for as long as before, under the key that it now shows. Any other
/// request of a server brings a new code of its own.
pub proof fn law_a_good_code_stays_on_the_screen(
    slot: Option<ChallengeView>,
    requester: LanPeerView,
    now: u64,
    code: Seq<char>,
)
    requires
        requester.machine_role == "server"@,
    ensures
        ({
            let after = challenged(slot, requester, false, now, code);
            let good = slot is Some && slot->0.expires_at > now && slot->0.requester_id
                == requester.id && slot->0.attempts == 0;
            &&& after is Some
            &&& after->0.requester_id == requester.id
            &&& after->0.requester_public_key == requester.transport_public_key
            &&& after->0.attempts == 0
            &&& good ==> after->0.code == slot->0.code && after->0.expires_at == slot->0.expires_at
            &&& !good ==> after->0.code == code
        }),
        challenged(slot, requester, true, now, code) == slot,
{
}

/// Input goes out under the pairing that the layout holds at the time, to where
/// the layout says that the device is now, and to nobody while it sleeps.
pub proof fn law_input_goes_where_the_layout_says(
    context: InputPacketContext,
    target: InputTarget,
    event: EventView,
    layout: LayoutState,
    origin_id: Seq<char>,
    platform: Platform,
    i: int,
)
    requires
        live_context(context, target, event, layout, origin_id, platform),
        0 <= i < layout.devices@.len(),
        layout.devices@[i].id@ == target.device_id@,
        forall|j: int| 0 <= j < i ==> (#[trigger] layout.devices@[j]).id@ != target.device_id@,
    ensures
        context.origin_device_id@ == origin_id,
        context.cluster_id@ == layout.cluster_id@,
        context.pair_secret@ == layout.pair_secret@,
        ({
            let device = layout.devices@[i];
            &&& device.online && device.input_ready <==> context.peer is Some
            &&& context.peer is Some ==> {
                &&& context.peer->0.addr@ == device_address(device)
                &&& context.peer->0.public_key@ == device.transport_public_key@
                &&& context.peer->0.protocol_version == device.protocol_version
            }
        }),
{
    lemma_first_is(layout.devices@, known_as(target.device_id@), i);
}

/// Where the layout is not at hand, input goes out as the target was built.
pub proof fn law_cached_input_goes_where_the_target_says(
    context: InputPacketContext,
    target: InputTarget,
    event: EventView,
)
    requires
        cached_context(context, target, event),
    ensures
        context.origin_device_id@ == target.origin_device_id@,
        context.cluster_id@ == target.cluster_id@,
        context.pair_secret@ == target.pair_secret@,
        context.event@ == event,
        context.peer is Some,
        context.peer->0.addr@ == target.target_addr@,
        context.peer->0.public_key@ == target.transport_public_key@,
        context.peer->0.protocol_version == target.protocol_version,
{
}

/// A membership is kept with the cluster on the first line and the secret on the
/// second.
pub proof fn law_a_membership_is_kept_line_by_line(membership: MembershipView)
    requires
        !membership.cluster_id.contains('\n'),
        !membership.pair_secret.contains('\n'),
    ensures
        pieces(membership.written(), '\n').len() >= 2,
        pieces(membership.written(), '\n')[0] == membership.cluster_id,
        pieces(membership.written(), '\n')[1] == membership.pair_secret,
{
    reveal_strlit("\n");
    assert("\n"@ =~= seq!['\n']);
    lemma_pieces_of_two_lines(membership.cluster_id, membership.pair_secret, '\n');
}

// ---------------------------------------------------------------------------
// Codes
// ---------------------------------------------------------------------------
/// A code read as a number is the number that it was made of.
pub proof fn law_codes_read_as_their_number(n: int)
    requires
        0 <= n < 1_000_000,
    ensures
        digits_value(six_digits(n)) == n,
{
    let none = Seq::<char>::empty();
    let (a, b, c) = (n / 100000 % 10, n / 10000 % 10, n / 1000 % 10);
    let (d, e, f) = (n / 100 % 10, n / 10 % 10, n % 10);
    let s1 = none.push(digit(a));
    let s2 = s1.push(digit(b));
    let s3 = s2.push(digit(c));
    let s4 = s3.push(digit(d));
    let s5 = s4.push(digit(e));
    let s6 = s5.push(digit(f));
    lemma_another_digit(none, a);
    lemma_another_digit(s1, b);
    lemma_another_digit(s2, c);
    lemma_another_digit(s3, d);
    lemma_another_digit(s4, e);
    lemma_another_digit(s5, f);
    assert(digits_value(none) == 0);
    assert(six_digits(n) =~= s6);
    lemma_six_digits_sum(n);
}

proof fn lemma_another_digit(s: Seq<char>, d: int)
    requires
        0 <= d <= 9,
    ensures
        digits_value(s.push(digit(d))) == 10 * digits_value(s) + d,
{
    assert(s.push(digit(d)).drop_last() =~= s);
}

/// The number that four bytes spell has the first of them lowest.
pub proof fn law_bytes_spell_a_number_from_the_lowest(bytes: Seq<u8>)
    requires
        bytes.len() == 4,
    ensures
        number_of(bytes) % 0x100 == bytes[0],
        number_of(bytes) / 0x100 % 0x100 == bytes[1],
        number_of(bytes) / 0x1_0000 % 0x100 == bytes[2],
        number_of(bytes) / 0x100_0000 == bytes[3],
{
}

/// A code is the last six digits of the random number, or of the clock's low
/// half where there is none.
pub proof fn law_codes_are_the_last_six_digits(bytes: Seq<u8>, clock_ms: u64)
    requires
        bytes.len() == 4,
    ensures
        digits_value(code_from(Some(bytes), clock_ms)) == number_of(bytes) % 1_000_000,
        digits_value(code_from(None, clock_ms)) == clock_ms as int % 0x1_0000_0000 % 1_000_000,
        code_from(Some(bytes), clock_ms).len() == 6,
        code_from(None, clock_ms).len() == 6,
{
    law_codes_read_as_their_number(number_of(bytes) % 1_000_000);
    law_codes_read_as_their_number(clock_ms as int % 0x1_0000_0000 % 1_000_000);
}

// ---------------------------------------------------------------------------
// Ports and neighbours
// ---------------------------------------------------------------------------
/// A usable port stays as it is, and any other becomes the usable one nearest to
/// it. Streams go to their own port, or to the one after the discovery port.
pub proof fn law_ports_are_kept_usable(port: int, base: u16, quic: u16)
    ensures
        1024 <= usable_port(port) <= 65535,
        1024 <= port <= 65535 ==> usable_port(port) == port,
        port < 1024 ==> usable_port(port) == 1024,
        port > 65535 ==> usable_port(port) == 65535,
        1024 <= quic ==> stream_port(base, quic) == quic,
        quic == 0 && 1023 <= base < 65535 ==> stream_port(base, quic) == base + 1,
{
}

/// A sweep tries every other machine whose address shares three octets with this
/// one's, and neither the network's own address nor the one for all.
pub proof fn law_a_sweep_tries_every_neighbour(local: Seq<Ipv4Addr>, i: int, host: u8)
    requires
        0 <= i < local.len(),
    ensures
        ({
            let address = Ipv4Addr { a: local[i].a, b: local[i].b, c: local[i].c, d: host };
            &&& host_beside(local[i], host) == address
            &&& swept(local, address) <==> host != 0 && host != 255 && !local.contains(address)
        }),
{
    let address = Ipv4Addr { a: local[i].a, b: local[i].b, c: local[i].c, d: host };
    if !local.contains(address) {
        assert forall|j: int| 0 <= j < local.len() implies #[trigger] local[j] != address by {}
    }
    if host != 0 && host != 255 && !local.contains(address) {
        assert(address.a == local[i].a && address.b == local[i].b && address.c == local[i].c);
        assert(swept(local, address));
    }
}

// ---------------------------------------------------------------------------
// Ids
// ---------------------------------------------------------------------------
/// A label that is written as an id already is its own id.
pub proof fn law_a_proper_label_is_its_own_id(value: Seq<char>)
    requires
        value.len() > 0,
        forall|i: int| 0 <= i < value.len() ==> of_an_id(#[trigger] value[i]),
        value[0] != '-',
        value.last() != '-',
    ensures
        sanitized(value) == value,
{
    let space = |c: char| white_space(c);
    lemma_stripped(value, space);
    assert(of_an_id(value[0]));
    assert(of_an_id(value[value.len() - 1]));
    assert(!space(value[0]) && !space(value.last()));
    assert(trimmed(value) == value);
    assert(value.map_values(id_char()) =~= value) by {
        assert forall|i: int| 0 <= i < value.len() implies id_char()(#[trigger] value[i])
            == value[i] by {
            assert(of_an_id(value[i]));
        }
    }
    lemma_stripped(value, the_char('-'));
}

/// A machine announces itself by its name and then its address.
pub proof fn law_peer_ids_name_the_host_and_then_the_address(host: Seq<char>, ip: Seq<char>)
    requires
        host.len() > 0,
        ip.len() > 0,
        forall|i: int| 0 <= i < host.len() ==> of_an_id(#[trigger] host[i]),
        forall|i: int| 0 <= i < ip.len() ==> of_an_id(#[trigger] ip[i]),
        host[0] != '-',
        ip.last() != '-',
    ensures
        peer_id(host, ip) == "peer-"@ + host + "-"@ + ip,
{
    reveal_strlit("-");
    let label = host + "-"@ + ip;
    assert forall|i: int| 0 <= i < label.len() implies of_an_id(#[trigger] label[i]) by {
        if i < host.len() {
            assert(label[i] == host[i]);
        } else if i == host.len() {
            assert(label[i] == '-');
        } else {
            assert(label[i] == ip[i - host.len() - 1]);
        }
    }
    assert(label.last() == ip.last());
    law_a_proper_label_is_its_own_id(label);
    assert(peer_id(host, ip) =~= "peer-"@ + host + "-"@ + ip);
}

} // verus!
