//! A peer that is only ever controlled, such as a phone: it announces itself,
//! joins a cluster, and queues the input that arrives for it.

use crate::addresses::Ipv4Addr;
use crate::clipboard::{text_signature, ClipboardPacket, ClipboardPacketView, CLIPBOARD_PROTOCOL};
use crate::discovery::{
    local_peer_id, normalize_quic_port, peer_id, screen_views, six_digits, stream_port,
    DiscoveryPacket, DiscoveryPacketView, LanPeer, LanPeerScreen, LanPeerScreenView, LanPeerView,
    DISCOVERY_PROTOCOL,
};
use crate::double::{one, Double};
use crate::packet::{InputPacket, INPUT_PROTOCOL};
use crate::pairing::{
    begin_challenge, challenge_view, challenged, complete_pairing, confirmed, granted, may_pair,
    pending_code, shown_code, Challenge, ChallengeView, Membership, MembershipView, PairingError,
};
use crate::recency::{age, elapsed};
use crate::shared_input::{EventView, InputEvent, MouseButton};
use crate::targets::{address, address_text};
use crate::text::{
    blank, decimal, is_blank, join, joined, push_decimal, same, text_view, texts, trim, trimmed,
};
use crate::transport::{endpoint_views, EndpointView, PeerEndpoint, PROTOCOL_VERSION};
use vstd::prelude::*;

verus! {

/// How often a client announces itself, in nanoseconds.
pub const ANNOUNCE_INTERVAL: u64 = 3_000_000_000;

/// Input is dropped once this many events wait: a consumer that cannot keep up
/// should lag, not work through minutes of stale motion.
pub const MAX_QUEUED_EVENTS: usize = 512;

// ---------------------------------------------------------------------------
// The queue
// ---------------------------------------------------------------------------
/// Claims one place in the queue, where one is free.
pub fn reserve_slot(queued: &mut usize) -> (r: bool)
    ensures
        r == (*old(queued) < MAX_QUEUED_EVENTS),
        *final(queued) == (if r {
            *old(queued) + 1
        } else {
            *old(queued) as int
        }),
{
    if *queued >= MAX_QUEUED_EVENTS {
        return false;
    }
    *queued = *queued + 1;
    true
}

/// Frees one place in the queue, where one is taken.
pub fn release_slot(queued: &mut usize)
    ensures
        *final(queued) == (if *old(queued) > 0 {
            *old(queued) - 1
        } else {
            0
        }),
{
    if *queued > 0 {
        *queued = *queued - 1;
    }
}

// ---------------------------------------------------------------------------
// Events as numbers
// ---------------------------------------------------------------------------
pub const KIND_MOUSE_MOVE: i32 = 1;

pub const KIND_MOUSE_BUTTON: i32 = 2;

pub const KIND_SCROLL: i32 = 3;

pub const KIND_KEY: i32 = 4;

/// The number of a button.
pub open spec fn ordinal(button: MouseButton) -> i32 {
    match button {
        MouseButton::Left => 0,
        MouseButton::Right => 1,
        MouseButton::Middle => 2,
        MouseButton::Back => 3,
        MouseButton::Forward => 4,
    }
}

pub open spec fn as_number(down: bool) -> i32 {
    if down {
        1
    } else {
        0
    }
}

/// An event as its kind and two numbers. A client has one screen, so the name
/// of the screen says nothing and is left out.
pub open spec fn flat(event: EventView) -> Seq<i32> {
    match event {
        EventView::MouseMove { x, y, .. } => seq![KIND_MOUSE_MOVE, x, y],
        EventView::MouseButton { button, down } => seq![
            KIND_MOUSE_BUTTON,
            ordinal(button),
            as_number(down),
        ],
        EventView::Scroll { delta_x, delta_y } => seq![KIND_SCROLL, delta_x, delta_y],
        EventView::Key { key_code, down } => seq![KIND_KEY, key_code as i32, as_number(down)],
    }
}

fn button_ordinal(button: MouseButton) -> (r: i32)
    ensures
        r == ordinal(button),
{
    match button {
        MouseButton::Left => 0,
        MouseButton::Right => 1,
        MouseButton::Middle => 2,
        MouseButton::Back => 3,
        MouseButton::Forward => 4,
    }
}

fn number_of(down: bool) -> (r: i32)
    ensures
        r == as_number(down),
{
    if down {
        1
    } else {
        0
    }
}

/// An event as three integers.
pub fn flatten(event: &InputEvent) -> (r: [i32; 3])
    ensures
        r@ == flat(event@),
{
    let r: [i32; 3] = match event {
        InputEvent::MouseMove { screen_id: _, x, y } => [KIND_MOUSE_MOVE, *x, *y],
        InputEvent::MouseButton { button, down } => [
            KIND_MOUSE_BUTTON,
            button_ordinal(*button),
            number_of(*down),
        ],
        InputEvent::Scroll { delta_x, delta_y } => [KIND_SCROLL, *delta_x, *delta_y],
        InputEvent::Key { key_code, down } => [KIND_KEY, *key_code as i32, number_of(*down)],
    };
    assert(r@ =~= flat(event@));
    r
}

/// The three integers tell the event, but for the screen of a movement.
pub proof fn law_flat_events_tell_the_event(x: EventView, y: EventView)
    requires
        flat(x) == flat(y),
    ensures
        match (x, y) {
            (EventView::MouseMove { x: x1, y: y1, .. }, EventView::MouseMove { x: x2, y: y2, .. }) =>
            x1 == x2 && y1 == y2,
            _ => x == y,
        },
{
    assert(flat(x)[0] == flat(y)[0]);
    assert(flat(x)[1] == flat(y)[1]);
    assert(flat(x)[2] == flat(y)[2]);
}

// ---------------------------------------------------------------------------
// The client
// ---------------------------------------------------------------------------
/// What a client is started with.
#[derive(Debug)]
pub struct Config {
    /// What the user sees in the list of devices; it also feeds the peer's id.
    pub device_name: String,
    pub discovery_port: u16,
    pub screen_width: i32,
    pub screen_height: i32,
    /// Where the identity is kept. A new key at every start would force a new
    /// pairing, so this has to last.
    pub identity_dir: String,
}

/// The copy that last went one way or the other, by its signature.
#[derive(Debug)]
pub enum LastCopy {
    Neither,
    Sent(String),
    Applied(String),
}

pub enum LastCopyView {
    Neither,
    Sent(Seq<char>),
    Applied(Seq<char>),
}

impl View for LastCopy {
    type V = LastCopyView;

    open spec fn view(&self) -> LastCopyView {
        match *self {
            LastCopy::Neither => LastCopyView::Neither,
            LastCopy::Sent(signature) => LastCopyView::Sent(signature@),
            LastCopy::Applied(signature) => LastCopyView::Applied(signature@),
        }
    }
}

/// A running client.
#[derive(Debug)]
pub struct Client {
    running: bool,
    device_id: String,
    name: String,
    ip: String,
    discovery_port: u16,
    quic_port: u16,
    public_key: String,
    events: Vec<InputEvent>,
    queued: usize,
    peers_seen: Vec<String>,
    challenge: Option<Challenge>,
    membership: Membership,
    layout: String,
    screen: (i32, i32),
    clipboard: Option<String>,
    last_copy: LastCopy,
    sequence: u64,
}

#[verifier::ext_equal]
pub struct ClientView {
    pub running: bool,
    pub device_id: Seq<char>,
    pub name: Seq<char>,
    pub ip: Seq<char>,
    pub discovery_port: u16,
    pub quic_port: u16,
    pub public_key: Seq<char>,
    /// The events that wait, the oldest first.
    pub events: Seq<EventView>,
    /// How each peer that was heard of is shown, in the order of their arrival.
    pub peers_seen: Seq<Seq<char>>,
    pub challenge: Option<ChallengeView>,
    pub membership: MembershipView,
    /// The keyboard layout that the controlling machine announced.
    pub layout: Seq<char>,
    pub screen: (i32, i32),
    /// A text from a peer that waits for the clipboard.
    pub clipboard: Option<Seq<char>>,
    pub last_copy: LastCopyView,
    pub sequence: u64,
}

pub open spec fn event_views(v: Seq<InputEvent>) -> Seq<EventView> {
    v.map_values(|event: InputEvent| event@)
}

impl View for Client {
    type V = ClientView;

    closed spec fn view(&self) -> ClientView {
        ClientView {
            running: self.running,
            device_id: self.device_id@,
            name: self.name@,
            ip: self.ip@,
            discovery_port: self.discovery_port,
            quic_port: self.quic_port,
            public_key: self.public_key@,
            events: event_views(self.events@),
            peers_seen: texts(self.peers_seen@),
            challenge: challenge_view(self.challenge),
            membership: self.membership@,
            layout: self.layout@,
            screen: self.screen,
            clipboard: text_view(self.clipboard),
            last_copy: self.last_copy@,
            sequence: self.sequence,
        }
    }
}

/// Why a client does not start.
pub open spec fn no_address() -> Seq<char> {
    "no usable IPv4 address; is Wi-Fi connected?"@
}

impl ClientView {
    /// A client that starts at an address, before its transport is up.
    pub open spec fn at(config: Config, ip: Seq<char>, membership: MembershipView) -> ClientView {
        ClientView {
            running: true,
            device_id: peer_id(config.device_name@, ip),
            name: config.device_name@,
            ip,
            discovery_port: config.discovery_port,
            quic_port: 0,
            public_key: seq![],
            events: seq![],
            peers_seen: seq![],
            challenge: None,
            membership,
            layout: seq![],
            screen: (config.screen_width, config.screen_height),
            clipboard: None,
            last_copy: LastCopyView::Neither,
            sequence: 0,
        }
    }

    /// The one-line summary of a client.
    pub open spec fn summary(self) -> Seq<char> {
        "id="@ + self.device_id + " quic="@ + decimal(self.quic_port as nat) + " paired="@ + (
        if self.membership.paired() {
            "true"@
        } else {
            "false"@
        }) + " peers=["@ + joined(self.peers_seen, ", "@) + "]"@
    }

    /// How the client describes itself.
    pub open spec fn described(self, app_version: Seq<char>, clock_ms: u64) -> LanPeerView {
        LanPeerView {
            id: self.device_id,
            name: self.name,
            platform: "android"@,
            machine_role: "client"@,
            cluster_id: self.membership.cluster_id,
            pairing_required: !self.membership.paired(),
            host: self.name,
            ip: self.ip,
            transport_port: self.discovery_port,
            quic_port: self.quic_port,
            transport_public_key: self.public_key,
            protocol_version: PROTOCOL_VERSION,
            screen_count: 1,
            input_ready: true,
            upgrading: false,
            screens: seq![
                LanPeerScreenView {
                    id: "local-display-1"@,
                    name: self.name,
                    x: 0,
                    y: 0,
                    width: self.screen.0,
                    height: self.screen.1,
                    scale: one(),
                    is_primary: true,
                },
            ],
            app_version,
            last_seen_ms: clock_ms,
            keyboard_layout: seq![],
        }
    }
}

/// A packet of a kind that describes its sender and says nothing of a pairing.
pub open spec fn plain_packet(peer: LanPeerView, kind: Seq<char>) -> DiscoveryPacketView {
    DiscoveryPacketView {
        protocol: DISCOVERY_PROTOCOL@,
        kind,
        peer,
        pairing_code: None,
        pair_cluster_id: None,
        pair_secret: None,
        pairing_error: None,
    }
}

/// A discovery packet of that kind.
pub fn packet_for(peer: LanPeer, kind: &str) -> (r: DiscoveryPacket)
    ensures
        r@ == plain_packet(peer@, kind@),
{
    DiscoveryPacket {
        protocol: DISCOVERY_PROTOCOL.to_string(),
        kind: kind.to_string(),
        peer,
        pairing_code: None,
        pair_cluster_id: None,
        pair_secret: None,
        pairing_error: None,
    }
}

/// Starts a client. `addresses` are the local ones, the best first, and
/// `contents` is what the membership file holds, where there is one.
pub fn start(config: &Config, addresses: &Vec<Ipv4Addr>, contents: Option<&str>) -> (r: Result<
    Client,
    String,
>)
    ensures
        match r {
            Ok(client) => addresses.len() > 0 && client.well_formed() && client@ == ClientView::at(
                *config,
                addresses@[0].dotted(),
                match contents {
                    Some(text) => MembershipView::told_by(text@),
                    None => MembershipView::none(),
                },
            ),
            Err(reason) => addresses.len() == 0 && reason@ == no_address(),
        },
{
    if addresses.len() == 0 {
        return Err("no usable IPv4 address; is Wi-Fi connected?".to_string());
    }
    let ip = addresses[0].text();
    let device_id = local_peer_id(config.device_name.as_str(), ip.as_str());
    let client = Client {
        running: true,
        device_id,
        name: config.device_name.clone(),
        ip,
        discovery_port: config.discovery_port,
        quic_port: 0,
        public_key: String::new(),
        events: Vec::new(),
        queued: 0,
        peers_seen: Vec::new(),
        challenge: None,
        membership: Membership::load(contents),
        layout: String::new(),
        screen: (config.screen_width, config.screen_height),
        clipboard: None,
        last_copy: LastCopy::Neither,
        sequence: 0,
    };
    proof {
        let expected = ClientView::at(
            *config,
            addresses@[0].dotted(),
            match contents {
                Some(text) => MembershipView::told_by(text@),
                None => MembershipView::none(),
            },
        );
        assert(client@ =~= expected);
    }
    Ok(client)
}

impl Client {
    /// The count of the queue is its length, which is bounded.
    pub closed spec fn well_formed(&self) -> bool {
        self.queued == self.events.len() && self.queued <= MAX_QUEUED_EVENTS
    }

    /// At most so many events wait.
    pub proof fn law_the_queue_is_bounded(&self)
        requires
            self.well_formed(),
        ensures
            self@.events.len() <= MAX_QUEUED_EVENTS,
    {
    }

    /// Notes where the transport listens and which key it shows.
    pub fn transport_started(&mut self, quic_port: u16, public_key: String)
        requires
            old(self).well_formed(),
        ensures
            final(self).well_formed(),
            final(self)@ == (ClientView { quic_port, public_key: public_key@, ..old(self)@ }),
    {
        self.quic_port = quic_port;
        self.public_key = public_key;
    }

    /// The oldest event that waits.
    pub fn poll(&mut self) -> (r: Option<InputEvent>)
        requires
            old(self).well_formed(),
        ensures
            final(self).well_formed(),
            match r {
                Some(event) => old(self)@.events.len() > 0 && event@ == old(self)@.events[0]
                    && final(self)@ == (ClientView {
                    events: old(self)@.events.drop_first(),
                    ..old(self)@
                }),
                None => old(self)@.events.len() == 0 && final(self)@ == old(self)@,
            },
    {
        if self.events.len() == 0 {
            return None;
        }
        let ghost before = event_views(self.events@);
        let event = self.events.remove(0);
        release_slot(&mut self.queued);
        assert(event_views(self.events@) =~= before.drop_first());
        Some(event)
    }

    pub fn stop(&mut self)
        requires
            old(self).well_formed(),
        ensures
            final(self).well_formed(),
            final(self)@ == (ClientView { running: false, ..old(self)@ }),
    {
        self.running = false;
    }

    pub fn is_running(&self) -> (r: bool)
        ensures
            r == self@.running,
    {
        self.running
    }

    /// The id that the client announces itself under.
    pub fn id(&self) -> (r: &str)
        ensures
            r@ == self@.device_id,
    {
        self.device_id.as_str()
    }

    /// A one-line summary.
    pub fn status(&self) -> (r: String)
        ensures
            r@ == self@.summary(),
    {
        let peers = join(&self.peers_seen, ", ");
        let mut out = "id=".to_string();
        out.append(self.device_id.as_str());
        out.append(" quic=");
        push_decimal(&mut out, self.quic_port as u64);
        out.append(" paired=");
        out.append(
            if self.membership.is_paired() {
                "true"
            } else {
                "false"
            },
        );
        out.append(" peers=[");
        out.append(peers.as_str());
        out.append("]");
        out
    }

    /// Notes a new size of the screen, which on a phone means that it was
    /// turned, and tells whether anything changed. A size without an area is no
    /// size.
    pub fn set_screen(&mut self, width: i32, height: i32) -> (r: bool)
        requires
            old(self).well_formed(),
        ensures
            final(self).well_formed(),
            r == (width > 0 && height > 0 && old(self)@.screen != (width, height)),
            final(self)@ == (if r {
                ClientView { screen: (width, height), ..old(self)@ }
            } else {
                old(self)@
            }),
    {
        if width <= 0 || height <= 0 {
            return false;
        }
        if self.screen.0 == width && self.screen.1 == height {
            return false;
        }
        self.screen = (width, height);
        true
    }

    /// The keyboard layout that the controlling machine last announced; empty
    /// where it did not say.
    pub fn keyboard_layout(&self) -> (r: String)
        ensures
            r@ == self@.layout,
    {
        self.layout.clone()
    }

    /// The code that the user has to type on the other machine, while it is
    /// valid.
    pub fn pairing_code(&self, now: u64) -> (r: Option<String>)
        ensures
            text_view(r) == shown_code(self@.challenge, now),
    {
        pending_code(&self.challenge, now)
    }

    /// How the client describes itself. It is built anew for each use: a
    /// pairing changes what is announced.
    pub fn build_peer(&self, app_version: &str, clock_ms: u64) -> (r: LanPeer)
        ensures
            r@ == self@.described(app_version@, clock_ms),
    {
        let display = LanPeerScreen {
            id: "local-display-1".to_string(),
            name: self.name.clone(),
            x: 0,
            y: 0,
            width: self.screen.0,
            height: self.screen.1,
            scale: Double::one(),
            is_primary: true,
        };
        let ghost shown = display@;
        let mut screens: Vec<LanPeerScreen> = Vec::new();
        screens.push(display);
        assert(screen_views(screens@) =~= seq![shown]);
        let keyboard_layout = String::new();
        assert(keyboard_layout@ =~= seq![]);
        LanPeer {
            id: self.device_id.clone(),
            name: self.name.clone(),
            platform: "android".to_string(),
            machine_role: "client".to_string(),
            cluster_id: self.membership.cluster_id.clone(),
            pairing_required: !self.membership.is_paired(),
            host: self.name.clone(),
            ip: self.ip.clone(),
            transport_port: self.discovery_port,
            quic_port: self.quic_port,
            transport_public_key: self.public_key.clone(),
            protocol_version: PROTOCOL_VERSION,
            screen_count: 1,
            input_ready: true,
            upgrading: false,
            screens,
            app_version: app_version.to_string(),
            last_seen_ms: clock_ms,
            keyboard_layout,
        }
    }
}

// ---------------------------------------------------------------------------
// Datagrams
// ---------------------------------------------------------------------------
/// A datagram as it arrives.
#[derive(Debug)]
pub enum Arrival {
    /// Nothing in it: a peer keeps the connection warm.
    Empty,
    Undecodable,
    Packet(InputPacket),
}

/// What becomes of a datagram.
#[derive(Debug, Clone, Copy, PartialEq, Eq, Structural)]
pub enum Acceptance {
    Ignored,
    Undecodable,
    /// It is no input.
    Foreign,
    /// It is addressed to someone else.
    Misdirected,
    /// The queue is full.
    Dropped,
    Queued,
}

impl ClientView {
    /// What becomes of a datagram. A packet without an address is for whoever
    /// receives it.
    pub open spec fn acceptance(self, arrival: Arrival) -> Acceptance {
        match arrival {
            Arrival::Empty => Acceptance::Ignored,
            Arrival::Undecodable => Acceptance::Undecodable,
            Arrival::Packet(packet) => if packet.protocol@ != INPUT_PROTOCOL@ {
                Acceptance::Foreign
            } else if packet.target_device_id@.len() > 0 && packet.target_device_id@
                != self.device_id {
                Acceptance::Misdirected
            } else if self.events.len() >= MAX_QUEUED_EVENTS {
                Acceptance::Dropped
            } else {
                Acceptance::Queued
            },
        }
    }

    pub open spec fn after_datagram(self, arrival: Arrival) -> ClientView {
        match arrival {
            Arrival::Packet(packet) => if self.acceptance(arrival) == Acceptance::Queued {
                ClientView { events: self.events.push(packet.event@), ..self }
            } else {
                self
            },
            _ => self,
        }
    }
}

impl Client {
    /// Queues the event of a datagram that is input for this client.
    pub fn handle_datagram(&mut self, arrival: Arrival) -> (r: Acceptance)
        requires
            old(self).well_formed(),
        ensures
            final(self).well_formed(),
            r == old(self)@.acceptance(arrival),
            final(self)@ == old(self)@.after_datagram(arrival),
    {
        match arrival {
            Arrival::Empty => Acceptance::Ignored,
            Arrival::Undecodable => Acceptance::Undecodable,
            Arrival::Packet(packet) => {
                if !same(packet.protocol.as_str(), INPUT_PROTOCOL) {
                    return Acceptance::Foreign;
                }
                if !packet.target_device_id.as_str().is_empty() && !same(
                    packet.target_device_id.as_str(),
                    self.device_id.as_str(),
                ) {
                    return Acceptance::Misdirected;
                }
                if !reserve_slot(&mut self.queued) {
                    return Acceptance::Dropped;
                }
                let ghost before = event_views(self.events@);
                self.events.push(packet.event);
                assert(event_views(self.events@) =~= before.push(packet.event@));
                Acceptance::Queued
            },
        }
    }
}

/// Events come out in the order in which they went in, and polling one makes
/// room for the next: a full queue takes input again once it has been polled.
pub proof fn law_a_polled_event_makes_room(client: ClientView, packet: InputPacket)
    requires
        client.events.len() == MAX_QUEUED_EVENTS,
        packet.protocol@ == INPUT_PROTOCOL@,
        packet.target_device_id@ == client.device_id,
    ensures
        client.acceptance(Arrival::Packet(packet)) == Acceptance::Dropped,
        ({
            let polled = ClientView { events: client.events.drop_first(), ..client };
            polled.acceptance(Arrival::Packet(packet)) == Acceptance::Queued
                && polled.after_datagram(Arrival::Packet(packet)).events
                == client.events.drop_first().push(packet.event@)
        }),
{
}

// ---------------------------------------------------------------------------
// Discovery
// ---------------------------------------------------------------------------
/// How a peer that was heard of is shown.
pub open spec fn peer_label(peer: LanPeerView) -> Seq<char> {
    peer.name + " ("@ + peer.ip + ")"@
}

/// The answer to a discovery packet.
#[derive(Debug, Clone, Copy, PartialEq, Eq, Structural)]
pub enum Answer {
    Nothing,
    /// A `pair-challenge`, to where the packet came from.
    Challenge,
    /// An announcement, to every address of the peer.
    Announce,
}

impl ClientView {
    /// Whether a discovery packet is for the client: its own broadcast comes
    /// straight back to it.
    pub open spec fn concerns(self, packet: DiscoveryPacketView) -> bool {
        packet.protocol == DISCOVERY_PROTOCOL@ && packet.peer.id != self.device_id
    }

    /// The peers that were heard of, with one more.
    pub open spec fn peers_with(self, peer: LanPeerView) -> Seq<Seq<char>> {
        if self.peers_seen.contains(peer_label(peer)) {
            self.peers_seen
        } else {
            self.peers_seen.push(peer_label(peer))
        }
    }

    /// The keyboard layout after a peer was heard of. Only a server's word
    /// counts: another client's says nothing about the keys that arrive.
    pub open spec fn layout_from(self, peer: LanPeerView) -> Seq<char> {
        if peer.machine_role == "server"@ && !blank(peer.keyboard_layout) {
            peer.keyboard_layout
        } else {
            self.layout
        }
    }

    /// The client after a discovery packet, where `code` is the next pairing
    /// code.
    pub open spec fn after_discovery(
        self,
        packet: DiscoveryPacketView,
        now: u64,
        code: Seq<char>,
    ) -> ClientView {
        if self.concerns(packet) {
            ClientView {
                peers_seen: self.peers_with(packet.peer),
                layout: self.layout_from(packet.peer),
                challenge: if packet.kind == "pair-request"@ {
                    challenged(self.challenge, packet.peer, self.membership.paired(), now, code)
                } else {
                    self.challenge
                },
                ..self
            }
        } else {
            self
        }
    }

    pub open spec fn answer(self, packet: DiscoveryPacketView) -> Answer {
        if !self.concerns(packet) {
            Answer::Nothing
        } else if packet.kind == "pair-request"@ {
            if may_pair(packet.peer, self.membership.paired()) {
                Answer::Challenge
            } else {
                Answer::Nothing
            }
        } else if packet.kind == "announce"@ || packet.kind == "probe"@ {
            Answer::Announce
        } else {
            Answer::Nothing
        }
    }
}

impl ClientView {
    /// What there is to say when a peer is heard of for the first time. Where
    /// its packet did not come from the address that it advertises, only the
    /// one that it came from is known to be reachable.
    pub open spec fn news(
        self,
        packet: DiscoveryPacketView,
        source: Seq<char>,
        from: Seq<char>,
    ) -> Option<Seq<char>> {
        let label = peer_label(packet.peer);
        if !self.concerns(packet) || self.peers_seen.contains(label) {
            None
        } else if trimmed(packet.peer.ip) == source {
            Some("discovered "@ + label + " from "@ + from)
        } else {
            Some("discovered "@ + label + " but its packet came from "@ + from
                + " — answering both"@)
        }
    }
}

fn label_of(peer: &LanPeer) -> (r: String)
    ensures
        r@ == peer_label(peer@),
{
    let mut label = peer.name.clone();
    label.append(" (");
    label.append(peer.ip.as_str());
    label.append(")");
    label
}

impl Client {
    fn has_seen(&self, label: &str) -> (r: bool)
        ensures
            r == self@.peers_seen.contains(label@),
    {
        let ghost seen = texts(self.peers_seen@);
        let mut i: usize = 0;
        while i < self.peers_seen.len()
            invariant
                seen == texts(self.peers_seen@),
                i <= self.peers_seen.len(),
                forall|j: int| 0 <= j < i ==> #[trigger] seen[j] != label@,
            decreases self.peers_seen.len() - i,
        {
            if same(self.peers_seen[i].as_str(), label) {
                assert(seen[i as int] == label@);
                return true;
            }
            i = i + 1;
        }
        false
    }

    /// What to say of a discovery packet from the address `source`, at the
    /// endpoint `from`, before it is handled.
    pub fn discovered(&self, packet: &DiscoveryPacket, source: &str, from: &str) -> (r: Option<
        String,
    >)
        ensures
            text_view(r) == self@.news(packet@, source@, from@),
    {
        if !same(packet.protocol.as_str(), DISCOVERY_PROTOCOL) || same(
            packet.peer.id.as_str(),
            self.device_id.as_str(),
        ) {
            return None;
        }
        let label = label_of(&packet.peer);
        if self.has_seen(label.as_str()) {
            return None;
        }
        let mut line = "discovered ".to_string();
        line.append(label.as_str());
        if same(trim(packet.peer.ip.as_str()), source) {
            line.append(" from ");
            line.append(from);
        } else {
            line.append(" but its packet came from ");
            line.append(from);
            line.append(" — answering both");
        }
        Some(line)
    }

    /// Records a peer under the address that it advertises.
    fn remember_peer(&mut self, peer: &LanPeer)
        requires
            old(self).well_formed(),
        ensures
            final(self).well_formed(),
            final(self)@ == (ClientView {
                peers_seen: old(self)@.peers_with(peer@),
                ..old(self)@
            }),
    {
        let label = label_of(peer);
        if !self.has_seen(label.as_str()) {
            let ghost before = texts(self.peers_seen@);
            self.peers_seen.push(label);
            assert(texts(self.peers_seen@) =~= before.push(label@));
        }
    }

    /// Adopts the keyboard layout of the controlling machine.
    fn remember_layout(&mut self, peer: &LanPeer)
        requires
            old(self).well_formed(),
        ensures
            final(self).well_formed(),
            final(self)@ == (ClientView { layout: old(self)@.layout_from(peer@), ..old(self)@ }),
    {
        if !same(peer.machine_role.as_str(), "server") || is_blank(peer.keyboard_layout.as_str()) {
            return;
        }
        self.layout = peer.keyboard_layout.clone();
    }

    /// Takes note of a discovery packet and tells how to answer it. `clock_ms`
    /// is the time of day.
    pub fn handle_discovery(&mut self, packet: &DiscoveryPacket, now: u64, clock_ms: u64) -> (r:
        Answer)
        requires
            old(self).well_formed(),
        ensures
            final(self).well_formed(),
            r == old(self)@.answer(packet@),
            exists|n: int|
                0 <= n < 1_000_000 && final(self)@ == old(self)@.after_discovery(
                    packet@,
                    now,
                    #[trigger] six_digits(n),
                ),
    {
        assert(0 <= 0int < 1_000_000 && six_digits(0) == six_digits(0));
        if !same(packet.protocol.as_str(), DISCOVERY_PROTOCOL) {
            return Answer::Nothing;
        }
        if same(packet.peer.id.as_str(), self.device_id.as_str()) {
            return Answer::Nothing;
        }
        self.remember_peer(&packet.peer);
        self.remember_layout(&packet.peer);
        if same(packet.kind.as_str(), "pair-request") {
            let paired = self.membership.is_paired();
            if begin_challenge(&mut self.challenge, &packet.peer, paired, now, clock_ms) {
                return Answer::Challenge;
            }
            return Answer::Nothing;
        }
        if same(packet.kind.as_str(), "announce") || same(packet.kind.as_str(), "probe") {
            Answer::Announce
        } else {
            Answer::Nothing
        }
    }
}

/// A client neither lists nor answers itself.
pub proof fn law_a_client_ignores_itself(
    client: ClientView,
    packet: DiscoveryPacketView,
    now: u64,
    code: Seq<char>,
)
    requires
        packet.peer.id == client.device_id,
    ensures
        client.after_discovery(packet, now, code) == client,
        client.answer(packet) == Answer::Nothing,
{
}

/// Until it has joined a cluster a client announces that it needs to pair, and
/// from then on that it belongs to that cluster.
pub proof fn law_announcements_tell_the_membership(
    client: ClientView,
    app_version: Seq<char>,
    clock_ms: u64,
)
    ensures
        client.described(app_version, clock_ms).pairing_required <==> !client.membership.paired(),
        client.described(app_version, clock_ms).cluster_id == client.membership.cluster_id,
{
}

/// The addresses that an answer goes to: where the packet came from, and the
/// one that the peer advertises where that is another.
pub open spec fn answered_addresses(source: Seq<char>, advertised: Seq<char>) -> Seq<Seq<char>> {
    if blank(advertised) || trimmed(advertised) == source {
        seq![source]
    } else {
        seq![source, trimmed(advertised)]
    }
}

pub fn reply_destinations(source: &str, advertised: &str) -> (r: Vec<String>)
    ensures
        texts(r@) == answered_addresses(source@, advertised@),
{
    let mut destinations: Vec<String> = Vec::new();
    destinations.push(source.to_string());
    let other = trim(advertised);
    if !other.is_empty() && !same(other, source) {
        destinations.push(other.to_string());
    }
    assert(texts(destinations@) =~= answered_addresses(source@, advertised@));
    destinations
}

/// Where a peer takes streams, once its packet came from the address `source`.
pub open spec fn endpoint_of(peer: LanPeerView, source: Seq<char>) -> EndpointView {
    EndpointView {
        addr: address(source, stream_port(peer.transport_port, peer.quic_port)),
        public_key: peer.transport_public_key,
        protocol_version: peer.protocol_version,
    }
}

/// The endpoints that belong to other keys.
pub open spec fn of_others(endpoints: Seq<EndpointView>, public_key: Seq<char>) -> Seq<EndpointView>
    decreases endpoints.len(),
{
    if endpoints.len() == 0 {
        endpoints
    } else {
        let others = of_others(endpoints.drop_last(), public_key);
        if endpoints.last().public_key == public_key {
            others
        } else {
            others.push(endpoints.last())
        }
    }
}

/// Keeps where a peer takes streams, in place of where it did before. The
/// address that its packet came from is the one that is known to be reachable.
pub fn remember_endpoint(endpoints: &mut Vec<PeerEndpoint>, peer: &LanPeer, source: &str)
    ensures
        endpoint_views(final(endpoints)@) == of_others(
            endpoint_views(old(endpoints)@),
            peer.transport_public_key@,
        ).push(endpoint_of(peer@, source@)),
{
    let ghost before = endpoint_views(endpoints@);
    let ghost key = peer.transport_public_key@;
    let ghost mut seen: int = 0;
    let mut i: usize = 0;
    assert(before.skip(0) =~= before);
    assert(of_others(before.take(0), key) + before.skip(0) =~= before);
    while i < endpoints.len()
        invariant
            0 <= seen <= before.len(),
            i == of_others(before.take(seen), key).len(),
            key == peer.transport_public_key@,
            endpoint_views(endpoints@) == of_others(before.take(seen), key) + before.skip(seen),
        decreases endpoints.len() - i,
    {
        let ghost held = endpoints@;
        proof {
            assert(endpoint_views(held)[i as int] == held[i as int]@);
            assert(endpoint_views(held)[i as int] == before[seen]);
            assert(before.take(seen + 1).drop_last() =~= before.take(seen));
        }
        if same(endpoints[i].public_key.as_str(), peer.transport_public_key.as_str()) {
            endpoints.remove(i);
            assert(endpoint_views(endpoints@) =~= endpoint_views(held).remove(i as int));
            assert(endpoint_views(endpoints@) =~= of_others(before.take(seen), key) + before.skip(
                seen + 1,
            ));
        } else {
            i = i + 1;
            assert(endpoint_views(endpoints@) =~= of_others(before.take(seen), key).push(
                before[seen],
            ) + before.skip(seen + 1));
        }
        proof {
            assert(before.take(seen + 1).last() == before[seen]);
            seen = seen + 1;
        }
    }
    proof {
        assert(seen == before.len());
        assert(before.take(seen) =~= before);
    }
    let ghost others = endpoints@;
    endpoints.push(
        PeerEndpoint {
            addr: address_text(source, normalize_quic_port(peer.transport_port, peer.quic_port)),
            public_key: peer.transport_public_key.clone(),
            protocol_version: peer.protocol_version,
        },
    );
    assert(endpoint_views(endpoints@) =~= of_others(before, key).push(endpoint_of(peer@, source@)));
}

/// Whether it is time to announce again.
pub fn announce_due(last_announce: Option<u64>, now: u64) -> (r: bool)
    ensures
        r == (match last_announce {
            Some(last) => age(now, last) >= ANNOUNCE_INTERVAL,
            None => true,
        }),
{
    match last_announce {
        Some(last) => elapsed(now, last) >= ANNOUNCE_INTERVAL,
        None => true,
    }
}

/// Why no port could be bound.
pub fn no_free_port(preferred: u16, last_error: &str) -> (r: String)
    ensures
        r@ == "no free discovery port near "@ + decimal(preferred as nat) + ": "@ + last_error@,
{
    let mut out = "no free discovery port near ".to_string();
    push_decimal(&mut out, preferred as u64);
    out.append(": ");
    out.append(last_error);
    out
}

/// How many announcements went out the last time.
#[derive(Debug)]
pub struct BroadcastHealth {
    last_sent: Option<usize>,
}

impl View for BroadcastHealth {
    type V = Option<usize>;

    closed spec fn view(&self) -> Option<usize> {
        self.last_sent
    }
}

/// What there is to say of a round of announcements: nothing while the number
/// that went out stays the same.
pub open spec fn health_text(sent: usize, total: usize, failure: Option<(Seq<char>, Seq<char>)>) -> Seq<
    char,
> {
    match failure {
        Some((address, reason)) => if sent == 0 {
            "every announce failed ("@ + decimal(total as nat) + " targets), e.g. "@ + address
                + ": "@ + reason
        } else {
            "announced to "@ + decimal(sent as nat) + "/"@ + decimal(total as nat) + " targets; "@
                + address + " failed: "@ + reason
        },
        None => "announcing to "@ + decimal(sent as nat) + " targets"@,
    }
}

impl BroadcastHealth {
    pub fn new() -> (r: BroadcastHealth)
        ensures
            r@ is None,
    {
        BroadcastHealth { last_sent: None }
    }

    /// Reports a round of announcements where the picture changed. `failure` is
    /// the first that failed, by address and reason.
    pub fn report_broadcast_health(
        &mut self,
        sent: usize,
        total: usize,
        failure: Option<(&str, &str)>,
    ) -> (r: Option<String>)
        ensures
            final(self)@ == Some(sent),
            match r {
                Some(text) => old(self)@ != Some(sent) && text@ == health_text(
                    sent,
                    total,
                    match failure {
                        Some((address, reason)) => Some((address@, reason@)),
                        None => None,
                    },
                ),
                None => old(self)@ == Some(sent),
            },
    {
        if let Some(last) = self.last_sent {
            if last == sent {
                return None;
            }
        }
        self.last_sent = Some(sent);
        let mut out = String::new();
        match failure {
            Some((address, reason)) => {
                if sent == 0 {
                    out.append("every announce failed (");
                    push_decimal(&mut out, total as u64);
                    out.append(" targets), e.g. ");
                    out.append(address);
                    out.append(": ");
                    out.append(reason);
                } else {
                    out.append("announced to ");
                    push_decimal(&mut out, sent as u64);
                    out.append("/");
                    push_decimal(&mut out, total as u64);
                    out.append(" targets; ");
                    out.append(address);
                    out.append(" failed: ");
                    out.append(reason);
                }
            },
            None => {
                out.append("announcing to ");
                push_decimal(&mut out, sent as u64);
                out.append(" targets");
            },
        }
        proof {
            let expected = health_text(
                sent,
                total,
                match failure {
                    Some((address, reason)) => Some((address@, reason@)),
                    None => None,
                },
            );
            assert(out@ =~= expected);
        }
        Some(out)
    }
}

// ---------------------------------------------------------------------------
// Streams
// ---------------------------------------------------------------------------
/// Just enough of a stream to tell what it is.
#[derive(Debug)]
pub struct StreamProbe {
    pub protocol: String,
    pub kind: String,
}

/// What a stream carries.
#[derive(Debug, Clone, Copy, PartialEq, Eq, Structural)]
pub enum StreamKind {
    PairConfirm,
    Clipboard,
    /// Nothing that the client acts on. It is acknowledged all the same: a
    /// refused stream costs the connection, and the next input with it.
    Other,
}

pub open spec fn stream_kind_of(protocol: Seq<char>, kind: Seq<char>) -> StreamKind {
    if protocol == DISCOVERY_PROTOCOL@ && kind == "pair-confirm"@ {
        StreamKind::PairConfirm
    } else if protocol == CLIPBOARD_PROTOCOL@ {
        StreamKind::Clipboard
    } else {
        StreamKind::Other
    }
}

pub fn stream_kind(probe: &StreamProbe) -> (r: StreamKind)
    ensures
        r == stream_kind_of(probe.protocol@, probe.kind@),
{
    if same(probe.protocol.as_str(), DISCOVERY_PROTOCOL) && same(
        probe.kind.as_str(),
        "pair-confirm",
    ) {
        StreamKind::PairConfirm
    } else if same(probe.protocol.as_str(), CLIPBOARD_PROTOCOL) {
        StreamKind::Clipboard
    } else {
        StreamKind::Other
    }
}

/// The protocols of streams that nothing acts on, each noted once.
#[derive(Debug)]
pub struct UnsupportedStreams {
    seen: Vec<String>,
}

impl View for UnsupportedStreams {
    type V = Seq<Seq<char>>;

    closed spec fn view(&self) -> Seq<Seq<char>> {
        texts(self.seen@)
    }
}

impl UnsupportedStreams {
    pub fn new() -> (r: UnsupportedStreams)
        ensures
            r@ == Seq::<Seq<char>>::empty(),
    {
        let r = UnsupportedStreams { seen: Vec::new() };
        assert(texts(r.seen@) =~= seq![]);
        r
    }

    /// Whether a protocol is worth a note: it was not seen before.
    pub fn note(&mut self, protocol: &str) -> (r: bool)
        ensures
            r == !old(self)@.contains(protocol@),
            final(self)@ == (if r {
                old(self)@.push(protocol@)
            } else {
                old(self)@
            }),
    {
        let ghost before = texts(self.seen@);
        let mut i: usize = 0;
        while i < self.seen.len()
            invariant
                *self == *old(self),
                before == texts(self.seen@),
                i <= self.seen.len(),
                forall|j: int| 0 <= j < i ==> #[trigger] before[j] != protocol@,
            decreases self.seen.len() - i,
        {
            if same(self.seen[i].as_str(), protocol) {
                assert(before[i as int] == protocol@);
                return false;
            }
            i = i + 1;
        }
        self.seen.push(protocol.to_string());
        assert(texts(self.seen@) =~= before.push(protocol@));
        true
    }
}

impl Client {
    /// Checks a confirmation that arrived. The membership that it grants has to
    /// be saved, and joined then.
    pub fn confirm(&mut self, packet: &DiscoveryPacket, now: u64) -> (r: Result<
        Membership,
        PairingError,
    >)
        requires
            old(self).well_formed(),
        ensures
            final(self).well_formed(),
            granted(r) == confirmed(old(self)@.challenge, packet@, now).1,
            final(self)@ == (ClientView {
                challenge: confirmed(old(self)@.challenge, packet@, now).0,
                ..old(self)@
            }),
    {
        complete_pairing(&mut self.challenge, packet, now)
    }

    /// Joins a cluster once its membership was saved; `saved` is why that
    /// failed, where it did.
    pub fn join(&mut self, membership: Membership, saved: Result<(), String>) -> (r: Result<
        (),
        String,
    >)
        requires
            old(self).well_formed(),
        ensures
            final(self).well_formed(),
            match (saved, r) {
                (Ok(()), Ok(())) => final(self)@ == (ClientView {
                    membership: membership@,
                    ..old(self)@
                }),
                (Err(error), Err(reason)) => final(self)@ == old(self)@ && reason@
                    == "could not persist pairing: "@ + error@,
                _ => false,
            },
    {
        match saved {
            Ok(()) => {
                self.membership = membership;
                Ok(())
            },
            Err(error) => {
                let mut reason = "could not persist pairing: ".to_string();
                reason.append(error.as_str());
                Err(reason)
            },
        }
    }
}

/// Once it has joined a cluster, a client answers no request to pair.
pub proof fn law_a_member_does_not_pair_again(
    client: ClientView,
    packet: DiscoveryPacketView,
    now: u64,
    code: Seq<char>,
)
    requires
        client.membership.paired(),
    ensures
        client.answer(packet) != Answer::Challenge,
        client.after_discovery(packet, now, code).challenge == client.challenge,
{
}

// ---------------------------------------------------------------------------
// The clipboard
// ---------------------------------------------------------------------------
impl ClientView {
    /// Whether a copy comes from a member of the client's cluster.
    pub open spec fn trusts(self, packet: ClipboardPacketView) -> bool {
        self.membership.paired() && packet.cluster_id == self.membership.cluster_id
            && packet.pair_secret == self.membership.pair_secret
    }

    /// Whether a copy is put on the clipboard: a member sent it, it is not the
    /// client's own copy coming back, and there is text in it.
    pub open spec fn applies(self, packet: ClipboardPacketView) -> bool {
        packet.protocol == CLIPBOARD_PROTOCOL@ && self.trusts(packet) && self.last_copy
            != LastCopyView::Sent(packet.signature) && packet.read_text() is Some
    }

    pub open spec fn after_copy(self, packet: ClipboardPacketView) -> ClientView {
        if self.applies(packet) {
            ClientView {
                clipboard: packet.read_text(),
                last_copy: LastCopyView::Applied(packet.signature),
                ..self
            }
        } else {
            self
        }
    }

    /// Whether a copy made here is worth sending: the client is paired, knows
    /// peers, and did not just apply the same text from elsewhere.
    pub open spec fn sends(self, text: Seq<char>) -> bool {
        self.membership.paired() && self.peers_seen.len() > 0 && self.last_copy
            != LastCopyView::Applied(text_signature(text))
    }

    /// The number of the next copy.
    pub open spec fn next_sequence(self) -> u64 {
        if self.sequence == u64::MAX {
            u64::MAX
        } else {
            (self.sequence + 1) as u64
        }
    }

    pub open spec fn copy_of(self, text: Seq<char>) -> ClipboardPacketView {
        ClipboardPacketView::of_text(
            text,
            self.device_id,
            self.public_key,
            self.membership.cluster_id,
            self.membership.pair_secret,
            self.next_sequence(),
        )
    }
}

impl Client {
    /// Keeps the text of a copy for the clipboard, and tells whether it did.
    /// Images are acknowledged and left alone.
    pub fn handle_clipboard(&mut self, packet: &ClipboardPacket) -> (r: bool)
        requires
            old(self).well_formed(),
        ensures
            final(self).well_formed(),
            r == old(self)@.applies(packet@),
            final(self)@ == old(self)@.after_copy(packet@),
    {
        if !same(packet.protocol.as_str(), CLIPBOARD_PROTOCOL) || !self.membership.is_paired()
            || !same(packet.cluster_id.as_str(), self.membership.cluster_id.as_str()) || !same(
            packet.pair_secret.as_str(),
            self.membership.pair_secret.as_str(),
        ) {
            return false;
        }
        if let LastCopy::Sent(signature) = &self.last_copy {
            if same(signature.as_str(), packet.signature.as_str()) {
                return false;
            }
        }
        match packet.plain_text() {
            Some(text) => {
                self.clipboard = Some(text.to_string());
                self.last_copy = LastCopy::Applied(packet.signature.clone());
                true
            },
            None => false,
        }
    }

    /// The text that arrived from a peer, once.
    pub fn take_clipboard(&mut self) -> (r: Option<String>)
        requires
            old(self).well_formed(),
        ensures
            final(self).well_formed(),
            text_view(r) == old(self)@.clipboard,
            final(self)@ == (ClientView { clipboard: None, ..old(self)@ }),
    {
        self.clipboard.take()
    }

    /// The packet for a copy made here, where there is anything to do.
    pub fn send_clipboard(&mut self, text: &str) -> (r: Option<ClipboardPacket>)
        requires
            old(self).well_formed(),
        ensures
            final(self).well_formed(),
            match r {
                Some(packet) => old(self)@.sends(text@) && packet@ == old(self)@.copy_of(text@)
                    && final(self)@ == (ClientView {
                    last_copy: LastCopyView::Sent(text_signature(text@)),
                    sequence: old(self)@.next_sequence(),
                    ..old(self)@
                }),
                None => !old(self)@.sends(text@) && final(self)@ == old(self)@,
            },
    {
        if !self.membership.is_paired() || self.peers_seen.len() == 0 {
            return None;
        }
        let mut signature = "text:".to_string();
        signature.append(text);
        assert(signature@ =~= text_signature(text@));
        if let LastCopy::Applied(applied) = &self.last_copy {
            if same(applied.as_str(), signature.as_str()) {
                return None;
            }
        }
        let sequence: u64 = if self.sequence == u64::MAX {
            u64::MAX
        } else {
            self.sequence + 1
        };
        let packet = ClipboardPacket::text(
            text.to_string(),
            self.device_id.clone(),
            self.public_key.clone(),
            self.membership.cluster_id.clone(),
            self.membership.pair_secret.clone(),
            sequence,
        );
        self.last_copy = LastCopy::Sent(signature);
        self.sequence = sequence;
        Some(packet)
    }
}

/// A copy does not bounce between machines: what the client just applied it
/// does not send, and its own copy that comes back it does not apply.
pub proof fn law_a_copy_does_not_bounce(client: ClientView, packet: ClipboardPacketView, text: Seq<char>)
    ensures
        client.applies(packet) && packet.signature == text_signature(text) ==> !client.after_copy(
            packet,
        ).sends(text),
        client.last_copy == LastCopyView::Sent(text_signature(text)) && packet.signature
            == text_signature(text) ==> !client.applies(packet),
{
}

/// A copy that one member sends is read by another.
pub proof fn law_members_read_each_others_copies(
    sender: ClientView,
    receiver: ClientView,
    text: Seq<char>,
)
    requires
        sender.membership == receiver.membership,
        receiver.membership.paired(),
        text.len() > 0,
        receiver.last_copy != LastCopyView::Sent(text_signature(text)),
    ensures
        receiver.applies(sender.copy_of(text)),
        receiver.after_copy(sender.copy_of(text)).clipboard == Some(text),
{
}

} // verus!
