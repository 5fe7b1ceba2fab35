//! Which remote screens are reachable from which local screen edges.

use crate::double::fixed4;
use crate::edge::{
    geometric_spans, overlapping, screens_overlap, spans_by_geometry, touching, touching_edge,
    Edge, EdgeSpan,
};
use crate::layout::{
    find_screen, is_local, link_views, local_device, local_device_of, own_device, own_device_of,
    screen_named, AnchorView, Device, EdgeAnchor, EdgeLink, LayoutState, LinkView, Screen,
};
use crate::platform::{native_form, platform_native_screen, Platform};
use crate::recency::{age, elapsed};
use crate::seqs::{find, first, lemma_first, lemma_first_step};
use crate::text::{
    begins_with, blank, decimal, is_blank, joined, push_decimal, push_signed_decimal, same,
    signed_decimal, strip_prefix, texts,
};
use crate::transport::PROTOCOL_VERSION;
use vstd::prelude::*;

verus! {

/// A remote screen that the cursor reaches over a stretch of a local edge, with
/// everything needed to send input there.
#[derive(Debug)]
pub struct InputTarget {
    pub device_id: String,
    pub origin_device_id: String,
    pub cluster_id: String,
    pub pair_secret: String,
    pub target_addr: String,
    pub target_platform: String,
    pub transport_public_key: String,
    pub protocol_version: u16,
    pub screen_id: String,
    pub local_screen: Screen,
    pub layout_local_screen: Screen,
    pub remote_screen: Screen,
    pub edge: Edge,
    /// The stretch of `edge` that this target covers. Two remote screens can
    /// share one local edge, each taking part of it.
    pub local_span: EdgeSpan,
    /// The side of the remote screen that the cursor appears on. It need not
    /// be the one that faces `edge`: a link may join two bottom edges if that
    /// is how the desks stand.
    pub remote_edge: Edge,
    pub remote_span: EdgeSpan,
}

/// What a target says, as texts and numbers.
pub struct TargetView {
    pub device_id: Seq<char>,
    pub origin_device_id: Seq<char>,
    pub cluster_id: Seq<char>,
    pub pair_secret: Seq<char>,
    pub target_addr: Seq<char>,
    pub target_platform: Seq<char>,
    pub transport_public_key: Seq<char>,
    pub protocol_version: u16,
    pub screen_id: Seq<char>,
    pub local_screen: Screen,
    pub layout_local_screen: Screen,
    pub remote_screen: Screen,
    pub edge: Edge,
    pub local_span: EdgeSpan,
    pub remote_edge: Edge,
    pub remote_span: EdgeSpan,
}

impl View for InputTarget {
    type V = TargetView;

    open spec fn view(&self) -> TargetView {
        TargetView {
            device_id: self.device_id@,
            origin_device_id: self.origin_device_id@,
            cluster_id: self.cluster_id@,
            pair_secret: self.pair_secret@,
            target_addr: self.target_addr@,
            target_platform: self.target_platform@,
            transport_public_key: self.transport_public_key@,
            protocol_version: self.protocol_version,
            screen_id: self.screen_id@,
            local_screen: self.local_screen,
            layout_local_screen: self.layout_local_screen,
            remote_screen: self.remote_screen,
            edge: self.edge,
            local_span: self.local_span,
            remote_edge: self.remote_edge,
            remote_span: self.remote_span,
        }
    }
}

impl Clone for InputTarget {
    fn clone(&self) -> (r: InputTarget)
        ensures
            r == *self,
    {
        InputTarget {
            device_id: self.device_id.clone(),
            origin_device_id: self.origin_device_id.clone(),
            cluster_id: self.cluster_id.clone(),
            pair_secret: self.pair_secret.clone(),
            target_addr: self.target_addr.clone(),
            target_platform: self.target_platform.clone(),
            transport_public_key: self.transport_public_key.clone(),
            protocol_version: self.protocol_version,
            screen_id: self.screen_id.clone(),
            local_screen: self.local_screen.clone(),
            layout_local_screen: self.layout_local_screen.clone(),
            remote_screen: self.remote_screen.clone(),
            edge: self.edge,
            local_span: self.local_span,
            remote_edge: self.remote_edge,
            remote_span: self.remote_span,
        }
    }
}

/// What a list of targets says.
pub open spec fn target_views(targets: Seq<InputTarget>) -> Seq<TargetView> {
    targets.map_values(|target: InputTarget| target@)
}

/// A list with one more element, where there is one.
pub open spec fn pushed<T>(s: Seq<T>, x: Option<T>) -> Seq<T> {
    match x {
        Some(t) => s.push(t),
        None => s,
    }
}

// ---------------------------------------------------------------------------
// Addresses and wire ids
// ---------------------------------------------------------------------------
/// The port that a peer takes input on: its own, or the one it announces for
/// everything.
pub open spec fn quic_port_of(transport_port: u16, quic_port: u16) -> u16 {
    if quic_port == 0 {
        transport_port
    } else {
        quic_port
    }
}

pub fn normalize_quic_port(transport_port: u16, quic_port: u16) -> (r: u16)
    ensures
        r == quic_port_of(transport_port, quic_port),
{
    if quic_port == 0 {
        transport_port
    } else {
        quic_port
    }
}

/// A host and a port, joined by a colon.
pub open spec fn address(host: Seq<char>, port: u16) -> Seq<char> {
    host + ":"@ + decimal(port as nat)
}

pub fn address_text(host: &str, port: u16) -> (r: String)
    ensures
        r@ == address(host@, port),
{
    let mut out: String = String::from_str(host);
    out.append(":");
    push_decimal(&mut out, port as u64);
    out
}

/// The address that a device takes input on.
pub open spec fn device_address(device: Device) -> Seq<char> {
    address(device.host@, quic_port_of(device.transport_port, device.quic_port))
}

pub fn device_address_text(device: &Device) -> (r: String)
    ensures
        r@ == device_address(*device),
{
    address_text(
        device.host.as_str(),
        normalize_quic_port(device.transport_port, device.quic_port),
    )
}

/// The id that a peer knows its own screen by: the layout's, without the
/// prefix that names the device.
pub open spec fn wire_screen_id(device_id: Seq<char>, screen_id: Seq<char>) -> Seq<char> {
    let prefix = device_id + "-"@;
    if begins_with(screen_id, prefix) {
        screen_id.skip(prefix.len() as int)
    } else {
        screen_id
    }
}

pub fn peer_screen_id(device: &Device, screen: &Screen) -> (r: String)
    ensures
        r@ == wire_screen_id(device.id@, screen.id@),
{
    let mut prefix: String = device.id.clone();
    prefix.append("-");
    match strip_prefix(screen.id.as_str(), prefix.as_str()) {
        Some(rest) => String::from_str(rest),
        None => screen.id.clone(),
    }
}

/// A screen id that was prefixed with its device reads back without the prefix.
pub proof fn law_wire_ids_drop_the_device_prefix(device_id: Seq<char>, screen_id: Seq<char>)
    ensures
        wire_screen_id(device_id, device_id + "-"@ + screen_id) == screen_id,
{
    let prefix = device_id + "-"@;
    let full = device_id + "-"@ + screen_id;
    assert(full.take(prefix.len() as int) =~= prefix);
    assert(full.skip(prefix.len() as int) =~= screen_id);
}

// ---------------------------------------------------------------------------
// Links
// ---------------------------------------------------------------------------
/// The id of a link that the arrangement implies.
pub open spec fn geometry_link_id(local_id: Seq<char>, edge: Edge, remote_id: Seq<char>) -> Seq<char> {
    "geometry:"@ + local_id + ":"@ + edge.side() + ":"@ + remote_id
}

/// The link that two screens of different devices imply by where they sit.
pub open spec fn implied_link(
    local_device_id: Seq<char>,
    local: Screen,
    device_id: Seq<char>,
    remote: Screen,
) -> Option<LinkView> {
    if overlapping(local.rect(), remote.rect()) {
        None
    } else {
        match touching(local.rect(), remote.rect()) {
            None => None,
            Some(edge) => match spans_by_geometry(local.rect(), remote.rect(), edge) {
                None => None,
                Some((local_span, remote_span)) => Some(
                    LinkView {
                        id: geometry_link_id(local.id@, edge, remote.id@),
                        a: AnchorView {
                            device_id: local_device_id,
                            screen_id: local.id@,
                            side: edge.side(),
                            start: local_span.start,
                            end: local_span.end,
                        },
                        b: AnchorView {
                            device_id,
                            screen_id: remote.id@,
                            side: edge.facing().side(),
                            start: remote_span.start,
                            end: remote_span.end,
                        },
                    },
                ),
            },
        }
    }
}

/// The links of one local screen with the first `n` screens of a device.
pub open spec fn links_of_screen(
    local_device_id: Seq<char>,
    local: Screen,
    device: Device,
    n: nat,
) -> Seq<LinkView>
    decreases n,
{
    if n == 0 {
        seq![]
    } else {
        pushed(
            links_of_screen(local_device_id, local, device, (n - 1) as nat),
            implied_link(local_device_id, local, device.id@, device.screens@[n - 1]),
        )
    }
}

/// The links of the first `n` local screens with a device.
pub open spec fn links_of_device(own: Device, device: Device, n: nat) -> Seq<LinkView>
    decreases n,
{
    if n == 0 {
        seq![]
    } else {
        links_of_device(own, device, (n - 1) as nat) + links_of_screen(
            own.id@,
            own.screens@[n - 1],
            device,
            device.screens@.len(),
        )
    }
}

/// The links of this machine with the remote ones among the first `n` devices.
pub open spec fn links_of_devices(own: Device, devices: Seq<Device>, n: nat) -> Seq<LinkView>
    decreases n,
{
    if n == 0 {
        seq![]
    } else if is_local(devices[n - 1]) {
        links_of_devices(own, devices, (n - 1) as nat)
    } else {
        links_of_devices(own, devices, (n - 1) as nat) + links_of_device(
            own,
            devices[n - 1],
            own.screens@.len(),
        )
    }
}

/// The links that the arrangement of screens implies: one for each remote
/// screen that touches a local one, over the stretch that they share.
pub open spec fn implied_links(layout: LayoutState) -> Seq<LinkView> {
    match own_device_of(layout) {
        Some(own) => links_of_devices(own, layout.devices@, layout.devices@.len()),
        None => seq![],
    }
}

/// The wiring in force: what the user drew, or what the arrangement implies
/// where nothing was ever drawn.
pub open spec fn links_in_force(layout: LayoutState) -> Seq<LinkView> {
    match layout.edge_links {
        Some(links) => link_views(links@),
        None => implied_links(layout),
    }
}

fn link_by_geometry(local_device_id: &str, local: &Screen, device_id: &str, remote: &Screen) -> (r:
    Option<EdgeLink>)
    ensures
        match r {
            Some(link) => implied_link(local_device_id@, *local, device_id@, *remote) == Some(
                link@,
            ),
            None => implied_link(local_device_id@, *local, device_id@, *remote) is None,
        },
{
    if screens_overlap(local, remote) {
        return None;
    }
    let edge = match touching_edge(local, remote) {
        Some(edge) => edge,
        None => {
            return None;
        },
    };
    let (local_span, remote_span) = match geometric_spans(local, remote, edge) {
        Some(spans) => spans,
        None => {
            return None;
        },
    };
    let mut id: String = String::from_str("geometry:");
    id.append(local.id.as_str());
    id.append(":");
    id.append(edge.as_side());
    id.append(":");
    id.append(remote.id.as_str());
    Some(
        EdgeLink {
            id,
            a: EdgeAnchor {
                device_id: String::from_str(local_device_id),
                screen_id: local.id.clone(),
                side: String::from_str(edge.as_side()),
                start: local_span.start,
                end: local_span.end,
            },
            b: EdgeAnchor {
                device_id: String::from_str(device_id),
                screen_id: remote.id.clone(),
                side: String::from_str(edge.opposite().as_side()),
                start: remote_span.start,
                end: remote_span.end,
            },
        },
    )
}

/// Derives links from where the screens sit.
pub fn edge_links_from_geometry(layout: &LayoutState) -> (r: Vec<EdgeLink>)
    ensures
        link_views(r@) == implied_links(*layout),
{
    let mut links: Vec<EdgeLink> = Vec::new();
    let own = match own_device(layout) {
        Some(own) => own,
        None => {
            assert(link_views(links@) =~= seq![]);
            return links;
        },
    };
    let mut d: usize = 0;
    assert(link_views(links@) =~= seq![]);
    while d < layout.devices.len()
        invariant
            d <= layout.devices.len(),
            link_views(links@) == links_of_devices(*own, layout.devices@, d as nat),
        decreases layout.devices.len() - d,
    {
        let device = &layout.devices[d];
        if !same(device.role.as_str(), "local") {
            let ghost before = link_views(links@);
            let mut l: usize = 0;
            assert(before + links_of_device(*own, *device, 0) =~= before);
            while l < own.screens.len()
                invariant
                    l <= own.screens.len(),
                    link_views(links@) == before + links_of_device(*own, *device, l as nat),
                decreases own.screens.len() - l,
            {
                let ghost so_far = link_views(links@);
                let local = &own.screens[l];
                let mut r: usize = 0;
                assert(so_far + links_of_screen(own.id@, *local, *device, 0) =~= so_far);
                while r < device.screens.len()
                    invariant
                        r <= device.screens.len(),
                        link_views(links@) == so_far + links_of_screen(
                            own.id@,
                            *local,
                            *device,
                            r as nat,
                        ),
                    decreases device.screens.len() - r,
                {
                    let ghost held = links@;
                    match link_by_geometry(
                        own.id.as_str(),
                        local,
                        device.id.as_str(),
                        &device.screens[r],
                    ) {
                        Some(link) => {
                            links.push(link);
                            assert(link_views(links@) =~= link_views(held).push(link@));
                        },
                        None => {},
                    }
                    proof {
                        let grown = links_of_screen(own.id@, *local, *device, (r + 1) as nat);
                        assert(link_views(links@) =~= so_far + grown);
                    }
                    r = r + 1;
                }
                assert(link_views(links@) =~= before + links_of_device(
                    *own,
                    *device,
                    (l + 1) as nat,
                ));
                l = l + 1;
            }
        }
        d = d + 1;
    }
    links
}

/// Once links were drawn they are the whole truth: an empty list routes
/// nothing. Only a layout without any falls back to geometry.
pub fn effective_edge_links(layout: &LayoutState) -> (r: Vec<EdgeLink>)
    ensures
        link_views(r@) == links_in_force(*layout),
{
    match &layout.edge_links {
        Some(links) => {
            let mut copy: Vec<EdgeLink> = Vec::new();
            let mut i: usize = 0;
            while i < links.len()
                invariant
                    i <= links.len(),
                    copy@ == links@.take(i as int),
                decreases links.len() - i,
            {
                copy.push(links[i].clone());
                i = i + 1;
            }
            assert(copy@ =~= links@);
            copy
        },
        None => edge_links_from_geometry(layout),
    }
}

// ---------------------------------------------------------------------------
// Targets
// ---------------------------------------------------------------------------
/// Whether a device can take input now.
pub open spec fn takes_input(device: Device) -> bool {
    &&& !is_local(device)
    &&& device.online
    &&& device.input_ready
    &&& device.protocol_version == PROTOCOL_VERSION
    &&& !blank(device.transport_public_key@)
}

/// The test for the device that goes by an id and can take input now.
pub open spec fn reachable_as(id: Seq<char>) -> spec_fn(Device) -> bool {
    |device: Device| device.id@ == id && takes_input(device)
}

/// The device that goes by an id and can take input now.
pub open spec fn reachable_device(layout: LayoutState, id: Seq<char>) -> Option<Device> {
    first(layout.devices@, reachable_as(id))
}

/// The screen of the compositor that a local screen of the layout stands for.
pub open spec fn native_screen_of(
    native_layout: LayoutState,
    platform: Platform,
    screen: Screen,
) -> Screen {
    match local_device_of(native_layout) {
        Some(device) => match screen_named(device.screens@, screen.id@) {
            Some(native) => native_form(platform, native),
            None => native_form(platform, screen),
        },
        None => native_form(platform, screen),
    }
}

/// The local and the remote end of a link, where exactly one end is local.
pub open spec fn link_ends(own_id: Seq<char>, link: LinkView) -> Option<(AnchorView, AnchorView)> {
    if link.a.device_id == own_id {
        if link.b.device_id == own_id {
            None
        } else {
            Some((link.a, link.b))
        }
    } else if link.b.device_id == own_id {
        Some((link.b, link.a))
    } else {
        None
    }
}

/// The target that a link makes reachable, if it does.
pub open spec fn target_of_link(
    layout: LayoutState,
    native_layout: LayoutState,
    origin_id: Seq<char>,
    platform: Platform,
    own: Device,
    link: LinkView,
) -> Option<TargetView> {
    match link_ends(own.id@, link) {
        None => None,
        Some((local, remote)) => {
            match (
                Edge::named(local.side),
                Edge::named(remote.side),
                screen_named(own.screens@, local.screen_id),
                reachable_device(layout, remote.device_id),
            ) {
                (Some(edge), Some(remote_edge), Some(local_screen), Some(device)) => {
                    match screen_named(device.screens@, remote.screen_id) {
                        None => None,
                        Some(remote_screen) => Some(
                            TargetView {
                                device_id: device.id@,
                                origin_device_id: origin_id,
                                cluster_id: layout.cluster_id@,
                                pair_secret: layout.pair_secret@,
                                target_addr: device_address(device),
                                target_platform: device.platform@,
                                transport_public_key: device.transport_public_key@,
                                protocol_version: device.protocol_version,
                                screen_id: wire_screen_id(device.id@, remote_screen.id@),
                                local_screen: native_screen_of(
                                    native_layout,
                                    platform,
                                    local_screen,
                                ),
                                layout_local_screen: local_screen,
                                remote_screen,
                                edge,
                                local_span: EdgeSpan::between(local.start, local.end),
                                remote_edge,
                                remote_span: EdgeSpan::between(remote.start, remote.end),
                            },
                        ),
                    }
                },
                _ => None,
            }
        },
    }
}

/// The targets that the first `n` links make reachable, in order.
pub open spec fn targets_of_links(
    layout: LayoutState,
    native_layout: LayoutState,
    origin_id: Seq<char>,
    platform: Platform,
    own: Device,
    links: Seq<LinkView>,
    n: nat,
) -> Seq<TargetView>
    decreases n,
{
    if n == 0 {
        seq![]
    } else {
        pushed(
            targets_of_links(
                layout,
                native_layout,
                origin_id,
                platform,
                own,
                links,
                (n - 1) as nat,
            ),
            target_of_link(layout, native_layout, origin_id, platform, own, links[n - 1]),
        )
    }
}

/// All targets of a layout.
pub open spec fn targets_of(
    layout: LayoutState,
    native_layout: LayoutState,
    origin_id: Seq<char>,
    platform: Platform,
) -> Seq<TargetView> {
    match own_device_of(layout) {
        Some(own) => targets_of_links(
            layout,
            native_layout,
            origin_id,
            platform,
            own,
            links_in_force(layout),
            links_in_force(layout).len(),
        ),
        None => seq![],
    }
}

fn find_reachable<'a>(layout: &'a LayoutState, id: &str) -> (r: Option<&'a Device>)
    ensures
        match r {
            Some(device) => reachable_device(*layout, id@) == Some(*device),
            None => reachable_device(*layout, id@) is None,
        },
{
    let test = |device: &Device| -> (b: bool)
        ensures
            b == (device.id@ == id@ && takes_input(*device)),
        {
            same(device.id.as_str(), id) && !same(device.role.as_str(), "local") && device.online
                && device.input_ready && device.protocol_version == PROTOCOL_VERSION && !is_blank(
                device.transport_public_key.as_str(),
            )
        };
    find(&layout.devices, test, Ghost(reachable_as(id@)))
}

pub(crate) fn native_screen_for(native_layout: &LayoutState, platform: Platform, screen: &Screen) -> (r:
    Screen)
    ensures
        r == native_screen_of(*native_layout, platform, *screen),
{
    match local_device(native_layout) {
        Some(device) => match find_screen(&device.screens, screen.id.as_str()) {
            Some(native) => platform_native_screen(platform, native),
            None => platform_native_screen(platform, screen),
        },
        None => platform_native_screen(platform, screen),
    }
}

fn target_for_link(
    layout: &LayoutState,
    native_layout: &LayoutState,
    origin_device_id: &str,
    platform: Platform,
    own: &Device,
    link: &EdgeLink,
) -> (r: Option<InputTarget>)
    ensures
        match r {
            Some(target) => target_of_link(
                *layout,
                *native_layout,
                origin_device_id@,
                platform,
                *own,
                link@,
            ) == Some(target@),
            None => target_of_link(
                *layout,
                *native_layout,
                origin_device_id@,
                platform,
                *own,
                link@,
            ) is None,
        },
{
    // Capture arms a *local* edge, so a link is usable only if exactly one end
    // is ours.
    let a_is_own: bool = same(link.a.device_id.as_str(), own.id.as_str());
    let b_is_own: bool = same(link.b.device_id.as_str(), own.id.as_str());
    if a_is_own == b_is_own {
        return None;
    }
    let (local, remote) = if a_is_own {
        (&link.a, &link.b)
    } else {
        (&link.b, &link.a)
    };
    let edge = match Edge::from_side(local.side.as_str()) {
        Some(edge) => edge,
        None => {
            return None;
        },
    };
    let remote_edge = match Edge::from_side(remote.side.as_str()) {
        Some(edge) => edge,
        None => {
            return None;
        },
    };
    let local_screen = match find_screen(&own.screens, local.screen_id.as_str()) {
        Some(screen) => screen,
        None => {
            return None;
        },
    };
    let device = match find_reachable(layout, remote.device_id.as_str()) {
        Some(device) => device,
        None => {
            return None;
        },
    };
    let remote_screen = match find_screen(&device.screens, remote.screen_id.as_str()) {
        Some(screen) => screen,
        None => {
            return None;
        },
    };
    Some(
        InputTarget {
            device_id: device.id.clone(),
            origin_device_id: String::from_str(origin_device_id),
            cluster_id: layout.cluster_id.clone(),
            pair_secret: layout.pair_secret.clone(),
            target_addr: device_address_text(device),
            target_platform: device.platform.clone(),
            transport_public_key: device.transport_public_key.clone(),
            protocol_version: device.protocol_version,
            screen_id: peer_screen_id(device, remote_screen),
            local_screen: native_screen_for(native_layout, platform, local_screen),
            layout_local_screen: local_screen.clone(),
            remote_screen: remote_screen.clone(),
            edge,
            local_span: EdgeSpan::from_anchor(local),
            remote_edge,
            remote_span: EdgeSpan::from_anchor(remote),
        },
    )
}

/// The targets of a layout, as seen from the machine that announces itself as
/// `origin_device_id` and runs on `platform`.
pub fn build_input_targets(
    layout: &LayoutState,
    native_layout: &LayoutState,
    origin_device_id: &str,
    platform: Platform,
) -> (r: Vec<InputTarget>)
    ensures
        target_views(r@) == targets_of(*layout, *native_layout, origin_device_id@, platform),
{
    let mut targets: Vec<InputTarget> = Vec::new();
    assert(target_views(targets@) =~= seq![]);
    let own = match own_device(layout) {
        Some(own) => own,
        None => {
            return targets;
        },
    };
    let links = effective_edge_links(layout);
    let ghost all = links_in_force(*layout);
    let mut i: usize = 0;
    while i < links.len()
        invariant
            i <= links.len(),
            link_views(links@) == all,
            target_views(targets@) == targets_of_links(
                *layout,
                *native_layout,
                origin_device_id@,
                platform,
                *own,
                all,
                i as nat,
            ),
        decreases links.len() - i,
    {
        let ghost held = targets@;
        assert(all[i as int] == links@[i as int]@);
        match target_for_link(layout, native_layout, origin_device_id, platform, own, &links[i]) {
            Some(target) => {
                targets.push(target);
                assert(target_views(targets@) =~= target_views(held).push(target@));
            },
            None => {},
        }
        i = i + 1;
    }
    targets
}

/// Every target leads to a remote device of the layout that is online, ready
/// for input, speaks this version and has a key; it carries the layout's own
/// pairing, and its spans lie on their sides unless they are not numbers.
pub proof fn law_targets_take_input(
    layout: LayoutState,
    native_layout: LayoutState,
    origin_id: Seq<char>,
    platform: Platform,
    i: int,
)
    requires
        0 <= i < targets_of(layout, native_layout, origin_id, platform).len(),
    ensures
        ({
            let target = targets_of(layout, native_layout, origin_id, platform)[i];
            &&& exists|d: int|
                0 <= d < layout.devices@.len() && takes_input(#[trigger] layout.devices@[d])
                    && layout.devices@[d].id@ == target.device_id
            &&& target.cluster_id == layout.cluster_id@
            &&& target.pair_secret == layout.pair_secret@
            &&& target.origin_device_id == origin_id
            &&& target.protocol_version == PROTOCOL_VERSION
            &&& proper_span(target.local_span)
            &&& proper_span(target.remote_span)
        }),
{
    let own = own_device_of(layout)->0;
    let links = links_in_force(layout);
    lemma_targets_take_input(layout, native_layout, origin_id, platform, own, links, links.len(), i);
}

/// A span whose ends each lie on the side or are not numbers.
pub open spec fn proper_span(span: EdgeSpan) -> bool {
    (span.start.in_unit() || span.start.not_a_number()) && (span.end.in_unit()
        || span.end.not_a_number())
}

proof fn lemma_targets_take_input(
    layout: LayoutState,
    native_layout: LayoutState,
    origin_id: Seq<char>,
    platform: Platform,
    own: Device,
    links: Seq<LinkView>,
    n: nat,
    i: int,
)
    requires
        0 <= i < targets_of_links(layout, native_layout, origin_id, platform, own, links, n).len(),
    ensures
        ({
            let target = targets_of_links(
                layout,
                native_layout,
                origin_id,
                platform,
                own,
                links,
                n,
            )[i];
            &&& exists|d: int|
                0 <= d < layout.devices@.len() && takes_input(#[trigger] layout.devices@[d])
                    && layout.devices@[d].id@ == target.device_id
            &&& target.cluster_id == layout.cluster_id@
            &&& target.pair_secret == layout.pair_secret@
            &&& target.origin_device_id == origin_id
            &&& target.protocol_version == PROTOCOL_VERSION
            &&& proper_span(target.local_span)
            &&& proper_span(target.remote_span)
        }),
    decreases n,
{
    let before = targets_of_links(
        layout,
        native_layout,
        origin_id,
        platform,
        own,
        links,
        (n - 1) as nat,
    );
    if i < before.len() {
        lemma_targets_take_input(
            layout,
            native_layout,
            origin_id,
            platform,
            own,
            links,
            (n - 1) as nat,
            i,
        );
    } else {
        let (local, remote) = link_ends(own.id@, links[n - 1])->0;
        lemma_first(layout.devices@, reachable_as(remote.device_id));
    }
}

/// A layout whose every drawn link was cleared routes nothing.
pub proof fn law_no_links_no_targets(
    layout: LayoutState,
    native_layout: LayoutState,
    origin_id: Seq<char>,
    platform: Platform,
)
    requires
        layout.edge_links matches Some(links) && links@.len() == 0,
    ensures
        targets_of(layout, native_layout, origin_id, platform).len() == 0,
{
}

// ---------------------------------------------------------------------------
// Fingerprint
// ---------------------------------------------------------------------------
/// A rectangle in a fingerprint.
pub open spec fn rectangle_text(screen: Screen) -> Seq<char> {
    signed_decimal(screen.x as int) + ","@ + signed_decimal(screen.y as int) + ","@
        + signed_decimal(screen.width as int) + "x"@ + signed_decimal(screen.height as int)
}

/// A side and a stretch of it in a fingerprint.
pub open spec fn stretch_text(edge: Edge, span: EdgeSpan) -> Seq<char> {
    edge.label() + "["@ + fixed4(span.start) + "-"@ + fixed4(span.end) + "]"@
}

/// A target in a fingerprint: the remote screen, both stretches, and both
/// rectangles, since either one decides where a crossing lands.
pub open spec fn target_text(target: TargetView) -> Seq<char> {
    target.device_id + ":"@ + target.screen_id + ":"@ + stretch_text(target.edge, target.local_span)
        + ">"@ + stretch_text(target.remote_edge, target.remote_span) + ":"@ + rectangle_text(
        target.local_screen,
    ) + ">"@ + rectangle_text(target.remote_screen)
}

fn rectangle(screen: &Screen) -> (r: String)
    ensures
        r@ == rectangle_text(*screen),
{
    let mut out: String = String::new();
    push_signed_decimal(&mut out, screen.x);
    assert(out@ =~= signed_decimal(screen.x as int));
    out.append(",");
    push_signed_decimal(&mut out, screen.y);
    out.append(",");
    push_signed_decimal(&mut out, screen.width);
    out.append("x");
    push_signed_decimal(&mut out, screen.height);
    out
}

fn stretch(edge: Edge, span: EdgeSpan) -> (r: String)
    requires
        proper_span(span),
    ensures
        r@ == stretch_text(edge, span),
{
    let mut out: String = String::from_str(edge.as_label());
    out.append("[");
    out.append(span.start.to_fixed4().as_str());
    out.append("-");
    out.append(span.end.to_fixed4().as_str());
    out.append("]");
    out
}

fn target_line(target: &InputTarget) -> (r: String)
    requires
        proper_span(target.local_span),
        proper_span(target.remote_span),
    ensures
        r@ == target_text(target@),
{
    let mut out: String = target.device_id.clone();
    out.append(":");
    out.append(target.screen_id.as_str());
    out.append(":");
    out.append(stretch(target.edge, target.local_span).as_str());
    out.append(">");
    out.append(stretch(target.remote_edge, target.remote_span).as_str());
    out.append(":");
    out.append(rectangle(&target.local_screen).as_str());
    out.append(">");
    out.append(rectangle(&target.remote_screen).as_str());
    out
}

/// The wiring of a layout as one text: the targets, separated by bars.
pub open spec fn fingerprint_of(targets: Seq<TargetView>) -> Seq<char> {
    joined(targets.map_values(|target: TargetView| target_text(target)), "|"@)
}

/// A fingerprint is empty exactly where nothing can be reached.
pub proof fn law_only_no_targets_leave_no_fingerprint(targets: Seq<TargetView>)
    ensures
        fingerprint_of(targets).len() == 0 <==> targets.len() == 0,
{
    let lines = targets.map_values(|target: TargetView| target_text(target));
    if targets.len() > 0 {
        reveal_strlit(":");
        reveal_strlit("|");
        assert(lines.last() == target_text(targets.last()));
        assert(target_text(targets.last()).len() > 0);
        if targets.len() == 1 {
            assert(lines.last() == lines[0]);
        }
    }
}

/// Identifies the wiring that a running capture was armed with. Capture arms
/// its edges once; comparing fingerprints is how the runtime notices that a
/// peer came online or that a link moved, and arms them anew.
pub fn input_targets_fingerprint(
    layout: &LayoutState,
    native_layout: &LayoutState,
    origin_device_id: &str,
    platform: Platform,
) -> (r: String)
    ensures
        r@ == fingerprint_of(targets_of(*layout, *native_layout, origin_device_id@, platform)),
{
    let targets = build_input_targets(layout, native_layout, origin_device_id, platform);
    let ghost all = targets_of(*layout, *native_layout, origin_device_id@, platform);
    let mut lines: Vec<String> = Vec::new();
    let mut i: usize = 0;
    while i < targets.len()
        invariant
            i <= targets.len(),
            target_views(targets@) == all,
            all == targets_of(*layout, *native_layout, origin_device_id@, platform),
            lines.len() == i,
            forall|k: int| 0 <= k < i ==> (#[trigger] lines@[k])@ == target_text(all[k]),
        decreases targets.len() - i,
    {
        proof {
            assert(all[i as int] == targets@[i as int]@);
            law_targets_take_input(
                *layout,
                *native_layout,
                origin_device_id@,
                platform,
                i as int,
            );
        }
        lines.push(target_line(&targets[i]));
        i = i + 1;
    }
    assert(texts(lines@) =~= all.map_values(|target: TargetView| target_text(target)));
    crate::text::join(&lines, "|")
}

/// The index of the first target that satisfies a test on what it says.
pub(crate) fn find_target<F: Fn(&InputTarget) -> bool>(
    targets: &Vec<InputTarget>,
    test: F,
    Ghost(p): Ghost<spec_fn(TargetView) -> bool>,
) -> (r: Option<usize>)
    requires
        forall|x: &InputTarget| #[trigger] test.requires((x,)),
        forall|x: &InputTarget, b: bool| #[trigger] test.ensures((x,), b) ==> b == p(x@),
    ensures
        match r {
            Some(i) => i < targets.len() && first(target_views(targets@), p) == Some(
                targets@[i as int]@,
            ),
            None => first(target_views(targets@), p) is None,
        },
{
    let ghost views = target_views(targets@);
    let mut i: usize = 0;
    assert(views.skip(0) =~= views);
    while i < targets.len()
        invariant
            forall|x: &InputTarget| #[trigger] test.requires((x,)),
            forall|x: &InputTarget, b: bool| #[trigger] test.ensures((x,), b) ==> b == p(x@),
            i <= targets.len(),
            views == target_views(targets@),
            first(views, p) == first(views.skip(i as int), p),
        decreases targets.len() - i,
    {
        proof {
            lemma_first_step(views, p, i as int);
            assert(views[i as int] == targets@[i as int]@);
        }
        if test(&targets[i]) {
            return Some(i);
        }
        i = i + 1;
    }
    None
}

/// How long a list of targets is used before it is built again, in nanoseconds.
pub const INPUT_TARGETS_TTL: u64 = 250_000_000;

/// The targets as they were last built.
#[derive(Debug)]
pub struct TargetsCache {
    pub built_at: Option<u64>,
    pub targets: Vec<InputTarget>,
}

/// The targets after a look at them: built again where they are old, unless the
/// layout is busy.
pub open spec fn refreshed(
    built_at: Option<u64>,
    targets: Seq<TargetView>,
    layout: Option<&LayoutState>,
    native_layout: LayoutState,
    origin_id: Seq<char>,
    platform: Platform,
    now: u64,
) -> (Option<u64>, Seq<TargetView>) {
    if built_at matches Some(at) && age(now, at) < INPUT_TARGETS_TTL {
        (built_at, targets)
    } else {
        match layout {
            Some(layout) => (
                Some(now),
                targets_of(*layout, native_layout, origin_id, platform),
            ),
            None => (built_at, targets),
        }
    }
}

impl TargetsCache {
    pub fn new() -> (r: TargetsCache)
        ensures
            r.built_at is None,
            target_views(r.targets@) == Seq::<TargetView>::empty(),
    {
        TargetsCache { built_at: None, targets: Vec::new() }
    }

    /// Brings the targets up to date.
    pub fn current_input_targets(
        &mut self,
        layout: Option<&LayoutState>,
        native_layout: &LayoutState,
        origin_device_id: &str,
        platform: Platform,
        now: u64,
    )
        ensures
            (final(self).built_at, target_views(final(self).targets@)) == refreshed(
                old(self).built_at,
                target_views(old(self).targets@),
                layout,
                *native_layout,
                origin_device_id@,
                platform,
                now,
            ),
    {
        let fresh: bool = match self.built_at {
            Some(at) => elapsed(now, at) < INPUT_TARGETS_TTL,
            None => false,
        };
        if fresh {
            return;
        }
        match layout {
            Some(layout) => {
                self.targets = build_input_targets(
                    layout,
                    native_layout,
                    origin_device_id,
                    platform,
                );
                self.built_at = Some(now);
            },
            None => {},
        }
    }

    /// Forgets the targets, so that the next look builds them.
    pub fn invalidate_input_targets_cache(&mut self)
        ensures
            final(self).built_at is None,
            target_views(final(self).targets@) == Seq::<TargetView>::empty(),
    {
        self.built_at = None;
        self.targets = Vec::new();
    }
}

/// A session that starts never acts on the targets of an earlier one: the first
/// look after forgetting them yields what the layout makes reachable now, or
/// nothing.
pub proof fn law_forgotten_targets_stay_forgotten(
    layout: Option<&LayoutState>,
    native_layout: LayoutState,
    origin_id: Seq<char>,
    platform: Platform,
    now: u64,
)
    ensures
        refreshed(None, Seq::empty(), layout, native_layout, origin_id, platform, now).1 == (
        match layout {
            Some(layout) => targets_of(*layout, native_layout, origin_id, platform),
            None => Seq::empty(),
        }),
{
}

} // verus!
