//! The heartbeat that peers find each other by: where it is sent, and the
//! description of a peer that rides along with it.

use crate::addresses::Ipv4Addr;
use crate::double::Double;
use crate::interfaces::{announced, local_ipv4_addresses, InterfaceView, PreferredInterface};
use crate::platform::Platform;
use crate::seqs::{first, lemma_first_step};
use crate::text::{
    begins_with, char_lists, chars_of, decimal, digit, is_digit, lemma_decimal,
    lemma_parts_are_equal, lemma_stripped, lemma_stripping_keeps, lemma_trimming_lowered, lower,
    lowered, pieces, push_decimal, sorted_distinct, split, strictly_increasing, strip,
    strip_prefix, stripped, text_of, text_view, texts, the_char, to_lower, trim, trimmed,
    white_space,
};
use crate::transport::PROTOCOL_VERSION;
use vstd::prelude::*;

verus! {

/// Where the heartbeat is expected. A peer that finds the port taken drifts
/// upward, so senders aim at a span of ports.
pub const DISCOVERY_PORT: u16 = 47833;

/// Marker in every discovery datagram.
pub const DISCOVERY_PROTOCOL: &'static str = "mykvm.discovery.v1";

/// How many consecutive ports discovery traffic is aimed at.
pub const DISCOVERY_PORT_SPAN: u16 = 8;

pub const TRANSPORT_PORT_MIN: u16 = 1024;

pub const TRANSPORT_PORT_MAX: u16 = 65535;

// ---------------------------------------------------------------------------
// Ports
// ---------------------------------------------------------------------------
/// A port that an unprivileged peer can use.
pub open spec fn usable_port(port: int) -> int {
    if port < TRANSPORT_PORT_MIN {
        TRANSPORT_PORT_MIN as int
    } else if port > TRANSPORT_PORT_MAX {
        TRANSPORT_PORT_MAX as int
    } else {
        port
    }
}

pub fn normalize_transport_port(port: u16) -> (r: u16)
    ensures
        r == usable_port(port as int),
{
    if port < TRANSPORT_PORT_MIN {
        TRANSPORT_PORT_MIN
    } else {
        port
    }
}

/// The port that follows the discovery port.
pub fn preferred_quic_port(discovery_port: u16) -> (r: u16)
    ensures
        r == usable_port(discovery_port + 1),
{
    if discovery_port == TRANSPORT_PORT_MAX {
        TRANSPORT_PORT_MAX
    } else {
        normalize_transport_port(discovery_port + 1)
    }
}

/// The transport port of a peer: zero stands for the one that follows its
/// discovery port.
pub open spec fn stream_port(discovery_port: u16, quic_port: u16) -> u16 {
    if quic_port == 0 {
        usable_port(discovery_port + 1) as u16
    } else {
        usable_port(quic_port as int) as u16
    }
}

pub fn normalize_quic_port(discovery_port: u16, quic_port: u16) -> (r: u16)
    ensures
        r == stream_port(discovery_port, quic_port),
{
    if quic_port == 0 {
        preferred_quic_port(discovery_port)
    } else {
        normalize_transport_port(quic_port)
    }
}

/// The consecutive ports that discovery traffic is aimed at: a span from the
/// base, as far as there are ports.
pub open spec fn target_ports(base: u16) -> Seq<u16> {
    let start = usable_port(base as int);
    let count = if start + DISCOVERY_PORT_SPAN > TRANSPORT_PORT_MAX + 1 {
        TRANSPORT_PORT_MAX + 1 - start
    } else {
        DISCOVERY_PORT_SPAN as int
    };
    Seq::new(count as nat, |i: int| (start + i) as u16)
}

pub fn discovery_target_ports(base: u16) -> (r: Vec<u16>)
    ensures
        r@ == target_ports(base),
{
    let start: u16 = normalize_transport_port(base);
    let mut ports: Vec<u16> = Vec::new();
    let mut offset: u16 = 0;
    while offset < DISCOVERY_PORT_SPAN && offset <= TRANSPORT_PORT_MAX - start
        invariant
            start == usable_port(base as int),
            offset <= DISCOVERY_PORT_SPAN,
            offset <= TRANSPORT_PORT_MAX + 1 - start,
            ports.len() == offset,
            forall|i: int| 0 <= i < offset ==> #[trigger] ports@[i] == start + i,
        decreases DISCOVERY_PORT_SPAN - offset,
    {
        ports.push(start + offset);
        offset = offset + 1;
    }
    assert(ports@ =~= target_ports(base));
    ports
}

/// Discovery traffic reaches a peer that drifted by less than the span, as long
/// as there are ports to drift to.
pub proof fn law_a_drifted_peer_is_a_target(base: u16, drift: int)
    requires
        TRANSPORT_PORT_MIN <= base,
        0 <= drift < DISCOVERY_PORT_SPAN,
        base + drift <= TRANSPORT_PORT_MAX,
    ensures
        target_ports(base).contains((base + drift) as u16),
{
    assert(target_ports(base)[drift] == (base + drift) as u16);
}

// ---------------------------------------------------------------------------
// Destinations
// ---------------------------------------------------------------------------
/// An address and a port.
pub open spec fn endpoint(address: Ipv4Addr, port: u16) -> Seq<char> {
    address.dotted() + ":"@ + decimal(port as nat)
}

fn endpoint_text(address: Ipv4Addr, port: u16) -> (r: String)
    ensures
        r@ == endpoint(address, port),
{
    let mut out = address.text();
    out.append(":");
    push_decimal(&mut out, port as u64);
    out
}

proof fn lemma_decimal_lacks(n: nat, separator: char)
    requires
        !is_digit(separator),
    ensures
        !decimal(n).contains(separator),
{
    lemma_decimal(n);
}

/// The parts of an endpoint's text, one behind the other.
spec fn joined_parts(a: Seq<char>, b: Seq<char>, c: Seq<char>, d: Seq<char>, p: Seq<char>) -> Seq<
    char,
> {
    a + "."@ + b + "."@ + c + "."@ + d + ":"@ + p
}

proof fn lemma_joined_parts(a: Seq<char>, b: Seq<char>, c: Seq<char>, d: Seq<char>, p: Seq<char>)
    ensures
        joined_parts(a, b, c, d, p) == a + seq!['.'] + (b + seq!['.'] + (c + seq!['.'] + (d
            + seq![':'] + p))),
{
    reveal_strlit(".");
    reveal_strlit(":");
    assert("."@ =~= seq!['.']);
    assert(":"@ =~= seq![':']);
    assert(joined_parts(a, b, c, d, p) =~= a + seq!['.'] + (b + seq!['.'] + (c + seq!['.'] + (d
        + seq![':'] + p))));
}

proof fn lemma_decimal_parts_are_equal(n: nat, rest: Seq<char>, m: nat, other: Seq<char>, mark: char)
    requires
        decimal(n) + seq![mark] + rest == decimal(m) + seq![mark] + other,
        !is_digit(mark),
    ensures
        n == m,
        rest == other,
{
    lemma_decimal(n);
    lemma_decimal(m);
    lemma_decimal_lacks(n, mark);
    lemma_decimal_lacks(m, mark);
    lemma_parts_are_equal(decimal(n), rest, decimal(m), other, mark);
}

/// The text of an endpoint tells its address and port.
pub proof fn law_endpoints_are_distinct(x: Ipv4Addr, p: u16, y: Ipv4Addr, q: u16)
    requires
        endpoint(x, p) == endpoint(y, q),
    ensures
        x == y,
        p == q,
{
    let xa = decimal(x.a as nat);
    let xb = decimal(x.b as nat);
    let xc = decimal(x.c as nat);
    let xd = decimal(x.d as nat);
    let xp = decimal(p as nat);
    let ya = decimal(y.a as nat);
    let yb = decimal(y.b as nat);
    let yc = decimal(y.c as nat);
    let yd = decimal(y.d as nat);
    let yq = decimal(q as nat);
    lemma_joined_parts(xa, xb, xc, xd, xp);
    lemma_joined_parts(ya, yb, yc, yd, yq);
    assert(endpoint(x, p) == joined_parts(xa, xb, xc, xd, xp));
    assert(endpoint(y, q) == joined_parts(ya, yb, yc, yd, yq));
    let x4 = xd + seq![':'] + xp;
    let y4 = yd + seq![':'] + yq;
    let x3 = xc + seq!['.'] + x4;
    let y3 = yc + seq!['.'] + y4;
    let x2 = xb + seq!['.'] + x3;
    let y2 = yb + seq!['.'] + y3;
    lemma_decimal_parts_are_equal(x.a as nat, x2, y.a as nat, y2, '.');
    lemma_decimal_parts_are_equal(x.b as nat, x3, y.b as nat, y3, '.');
    lemma_decimal_parts_are_equal(x.c as nat, x4, y.c as nat, y4, '.');
    lemma_decimal_parts_are_equal(x.d as nat, xp, y.d as nat, yq, ':');
    lemma_decimal(p as nat);
    lemma_decimal(q as nat);
}

/// Whether a text is an endpoint of one of the addresses on one of the ports.
pub open spec fn aims_at(addresses: Seq<Ipv4Addr>, ports: Seq<u16>, target: Seq<char>) -> bool {
    exists|i: int, k: int|
        0 <= i < addresses.len() && 0 <= k < ports.len() && target == #[trigger] endpoint(
            addresses[i],
            ports[k],
        )
}

/// Every address on every port, once each and in character order.
fn endpoints(addresses: &Vec<Ipv4Addr>, ports: &Vec<u16>) -> (r: Vec<String>)
    ensures
        strictly_increasing(texts(r@)),
        forall|t: Seq<char>| #[trigger]
            texts(r@).contains(t) <==> aims_at(addresses@, ports@, t),
{
    let mut out: Vec<String> = Vec::new();
    let mut k: usize = 0;
    while k < ports.len()
        invariant
            k <= ports.len(),
            out.len() == k * addresses.len(),
            forall|j: int, i: int|
                0 <= j < k && 0 <= i < addresses.len() ==> named_at(
                    out@,
                    #[trigger] endpoint(addresses@[i], ports@[j]),
                ),
            forall|n: int|
                0 <= n < out.len() ==> aims_at(addresses@, ports@, (#[trigger] out@[n])@),
        decreases ports.len() - k,
    {
        let mut i: usize = 0;
        while i < addresses.len()
            invariant
                i <= addresses.len(),
                k < ports.len(),
                out.len() == k * addresses.len() + i,
                forall|j: int, m: int|
                    0 <= j < k && 0 <= m < addresses.len() ==> named_at(
                        out@,
                        #[trigger] endpoint(addresses@[m], ports@[j]),
                    ),
                forall|m: int|
                    0 <= m < i ==> named_at(
                        out@,
                        #[trigger] endpoint(addresses@[m], ports@[k as int]),
                    ),
                forall|n: int|
                    0 <= n < out.len() ==> aims_at(addresses@, ports@, (#[trigger] out@[n])@),
            decreases addresses.len() - i,
        {
            let ghost before = out@;
            let text = endpoint_text(addresses[i], ports[k]);
            assert(aims_at(addresses@, ports@, text@));
            out.push(text);
            proof {
                assert(out@[before.len() as int]@ == endpoint(addresses@[i as int], ports@[k as int]));
                assert forall|t: Seq<char>| named_at(before, t) implies named_at(out@, t) by {
                    let n = choose|n: int| 0 <= n < before.len() && (#[trigger] before[n])@ == t;
                    assert(out@[n]@ == t);
                }
            }
            i = i + 1;
        }
        assert((k + 1) * addresses.len() == k * addresses.len() + addresses.len())
            by (nonlinear_arith);
        k = k + 1;
    }
    let ghost all = texts(out@);
    let r = sorted_distinct(out);
    proof {
        assert forall|t: Seq<char>| #[trigger]
            texts(r@).contains(t) <==> aims_at(addresses@, ports@, t) by {
            assert(texts(r@).contains(t) <==> all.contains(t));
            if all.contains(t) {
                let n = choose|n: int| 0 <= n < all.len() && all[n] == t;
                assert(out@[n]@ == t);
            }
            if aims_at(addresses@, ports@, t) {
                let (i, j) = choose|i: int, j: int|
                    0 <= i < addresses.len() && 0 <= j < ports.len() && t == #[trigger] endpoint(
                        addresses@[i],
                        ports@[j],
                    );
                assert(named_at(out@, endpoint(addresses@[i], ports@[j])));
                let n = choose|n: int| 0 <= n < out.len() && (#[trigger] out@[n])@ == t;
                assert(all[n] == t);
            }
        }
    }
    r
}

spec fn named_at(list: Seq<String>, text: Seq<char>) -> bool {
    exists|n: int| 0 <= n < list.len() && (#[trigger] list[n])@ == text
}

/// The address that reaches every machine on the network.
pub open spec fn everyone() -> Ipv4Addr {
    Ipv4Addr { a: 255, b: 255, c: 255, d: 255 }
}

/// The address that reaches every machine whose address shares three octets.
pub open spec fn neighbours_of() -> spec_fn(Ipv4Addr) -> Ipv4Addr {
    |address: Ipv4Addr| host_beside(address, 255)
}

/// The addresses that a broadcast goes to.
pub open spec fn broadcast_addresses(local: Seq<Ipv4Addr>) -> Seq<Ipv4Addr> {
    seq![everyone()] + local.map_values(neighbours_of())
}

/// Where a broadcast goes: to everyone and to the neighbours of each local
/// address, on every port of the span.
pub fn broadcast_addrs_for_ips(base_port: u16, local_ips: &Vec<Ipv4Addr>) -> (r: Vec<String>)
    ensures
        strictly_increasing(texts(r@)),
        forall|t: Seq<char>| #[trigger]
            texts(r@).contains(t) <==> aims_at(
                broadcast_addresses(local_ips@),
                target_ports(base_port),
                t,
            ),
{
    let mut addresses: Vec<Ipv4Addr> = Vec::new();
    addresses.push(Ipv4Addr::new(255, 255, 255, 255));
    let mut i: usize = 0;
    assert(addresses@ =~= broadcast_addresses(local_ips@.take(0)));
    while i < local_ips.len()
        invariant
            i <= local_ips.len(),
            addresses@ == broadcast_addresses(local_ips@.take(i as int)),
        decreases local_ips.len() - i,
    {
        let ip = local_ips[i];
        addresses.push(Ipv4Addr::new(ip.a, ip.b, ip.c, 255));
        assert(addresses@ =~= broadcast_addresses(local_ips@.take(i + 1)));
        i = i + 1;
    }
    assert(local_ips@.take(local_ips.len() as int) =~= local_ips@);
    endpoints(&addresses, &discovery_target_ports(base_port))
}

/// Broadcast destinations for discovery. `default_route` is the address that
/// the routing table would send from.
pub fn broadcast_addrs(
    base_port: u16,
    default_route: Option<Ipv4Addr>,
    preferred: &PreferredInterface,
) -> (r: Vec<String>)
    ensures
        strictly_increasing(texts(r@)),
        exists|interfaces: Seq<InterfaceView>, local: Seq<Ipv4Addr>| #[trigger]
            announced(interfaces, default_route, preferred@, local) && forall|t: Seq<char>|
                #[trigger]
                texts(r@).contains(t) <==> aims_at(
                    broadcast_addresses(local),
                    target_ports(base_port),
                    t,
                ),
{
    let local = local_ipv4_addresses(default_route, preferred);
    broadcast_addrs_for_ips(base_port, &local)
}

/// The host of that number in the subnet of an address.
pub open spec fn host_beside(address: Ipv4Addr, host: u8) -> Ipv4Addr {
    Ipv4Addr { a: address.a, b: address.b, c: address.c, d: host }
}

/// Whether a fallback sweep tries an address: it shares three octets with a
/// local one, is no address of the whole subnet, and is not local itself.
pub open spec fn swept(local: Seq<Ipv4Addr>, address: Ipv4Addr) -> bool {
    &&& 1 <= address.d <= 254
    &&& exists|i: int|
        #![trigger local[i]]
        0 <= i < local.len() && address.a == local[i].a && address.b == local[i].b && address.c
            == local[i].c
    &&& forall|j: int| 0 <= j < local.len() ==> #[trigger] local[j] != address
}

/// Whether a text is an endpoint that the sweep tries.
pub open spec fn sweeps(local: Seq<Ipv4Addr>, ports: Seq<u16>, target: Seq<char>) -> bool {
    exists|address: Ipv4Addr, k: int|
        0 <= k < ports.len() && swept(local, address) && target == #[trigger] endpoint(
            address,
            ports[k],
        )
}

fn is_among(address: Ipv4Addr, local: &Vec<Ipv4Addr>) -> (r: bool)
    ensures
        r == local@.contains(address),
{
    let mut j: usize = 0;
    while j < local.len()
        invariant
            j <= local.len(),
            forall|k: int| 0 <= k < j ==> #[trigger] local@[k] != address,
        decreases local.len() - j,
    {
        if local[j] == address {
            return true;
        }
        j = j + 1;
    }
    false
}

/// Every other host in the subnets of the local addresses, for networks that
/// drop broadcasts and still forward from client to client.
pub fn unicast_sweep_targets_for_ips(port: u16, local_ips: &Vec<Ipv4Addr>) -> (r: Vec<String>)
    ensures
        strictly_increasing(texts(r@)),
        forall|t: Seq<char>| #[trigger]
            texts(r@).contains(t) <==> sweeps(local_ips@, target_ports(port), t),
{
    let mut addresses: Vec<Ipv4Addr> = Vec::new();
    let mut i: usize = 0;
    while i < local_ips.len()
        invariant
            i <= local_ips.len(),
            forall|n: int|
                0 <= n < addresses.len() ==> swept(local_ips@, #[trigger] addresses@[n]),
            forall|m: int, host: u8|
                0 <= m < i && swept(local_ips@, host_beside(local_ips@[m], host)) ==> #[trigger]
                    addresses@.contains(host_beside(local_ips@[m], host)),
        decreases local_ips.len() - i,
    {
        let ip = local_ips[i];
        let mut host: u8 = 1;
        while host < 255
            invariant
                i < local_ips.len(),
                ip == local_ips@[i as int],
                1 <= host <= 255,
                forall|n: int|
                    0 <= n < addresses.len() ==> swept(local_ips@, #[trigger] addresses@[n]),
                forall|m: int, other: u8|
                    0 <= m < i && swept(local_ips@, host_beside(local_ips@[m], other))
                        ==> #[trigger] addresses@.contains(host_beside(local_ips@[m], other)),
                forall|other: u8|
                    other < host && swept(local_ips@, host_beside(ip, other)) ==> #[trigger]
                        addresses@.contains(host_beside(ip, other)),
            decreases 255 - host,
        {
            let address = Ipv4Addr::new(ip.a, ip.b, ip.c, host);
            if !is_among(address, local_ips) {
                let ghost before = addresses@;
                addresses.push(address);
                proof {
                    assert(local_ips@[i as int] == ip);
                    assert(swept(local_ips@, address));
                    assert(addresses@[before.len() as int] == address);
                    assert forall|x: Ipv4Addr| before.contains(x) implies #[trigger]
                        addresses@.contains(x) by {
                        let n = choose|n: int| 0 <= n < before.len() && before[n] == x;
                        assert(addresses@[n] == x);
                    }
                }
            }
            host = host + 1;
        }
        i = i + 1;
    }
    let ports = discovery_target_ports(port);
    let r = endpoints(&addresses, &ports);
    proof {
        assert forall|t: Seq<char>| #[trigger]
            texts(r@).contains(t) <==> sweeps(local_ips@, target_ports(port), t) by {
            if aims_at(addresses@, ports@, t) {
                let (n, k) = choose|n: int, k: int|
                    0 <= n < addresses.len() && 0 <= k < ports.len() && t == #[trigger] endpoint(
                        addresses@[n],
                        ports@[k],
                    );
                assert(swept(local_ips@, addresses@[n]));
            }
            if sweeps(local_ips@, ports@, t) {
                let (address, k) = choose|address: Ipv4Addr, k: int|
                    0 <= k < ports.len() && swept(local_ips@, address) && t == #[trigger] endpoint(
                        address,
                        ports@[k],
                    );
                let m = choose|m: int|
                    #![trigger local_ips@[m]]
                    0 <= m < local_ips.len() && address.a == local_ips@[m].a && address.b
                        == local_ips@[m].b && address.c == local_ips@[m].c;
                assert(address == host_beside(local_ips@[m], address.d));
                assert(addresses@.contains(host_beside(local_ips@[m], address.d)));
                let n = choose|n: int| 0 <= n < addresses.len() && addresses@[n] == address;
                assert(t == endpoint(addresses@[n], ports@[k]));
            }
        }
    }
    r
}

/// Every other host in the local subnets. `default_route` is the address that
/// the routing table would send from.
pub fn unicast_sweep_targets(
    port: u16,
    default_route: Option<Ipv4Addr>,
    preferred: &PreferredInterface,
) -> (r: Vec<String>)
    ensures
        strictly_increasing(texts(r@)),
        exists|interfaces: Seq<InterfaceView>, local: Seq<Ipv4Addr>| #[trigger]
            announced(interfaces, default_route, preferred@, local) && forall|t: Seq<char>|
                #[trigger]
                texts(r@).contains(t) <==> sweeps(local, target_ports(port), t),
{
    let local = local_ipv4_addresses(default_route, preferred);
    unicast_sweep_targets_for_ips(port, &local)
}

/// A broadcast on the usual ports goes to everyone, whatever the local
/// addresses are, and to the subnet of each of them.
pub proof fn law_broadcasts_cover_every_subnet(local: Seq<Ipv4Addr>, base: u16, i: int, k: int)
    requires
        0 <= i < local.len(),
        0 <= k < target_ports(base).len(),
    ensures
        aims_at(
            broadcast_addresses(local),
            target_ports(base),
            endpoint(everyone(), target_ports(base)[k]),
        ),
        aims_at(
            broadcast_addresses(local),
            target_ports(base),
            endpoint(neighbours_of()(local[i]), target_ports(base)[k]),
        ),
{
    let addresses = broadcast_addresses(local);
    assert(addresses[0] == everyone());
    assert(addresses[i + 1] == neighbours_of()(local[i]));
    assert(endpoint(everyone(), target_ports(base)[k]) == endpoint(
        addresses[0],
        target_ports(base)[k],
    ));
    assert(endpoint(neighbours_of()(local[i]), target_ports(base)[k]) == endpoint(
        addresses[i + 1],
        target_ports(base)[k],
    ));
}

/// A sweep never aims at a local address.
pub proof fn law_a_sweep_spares_this_machine(local: Seq<Ipv4Addr>, base: u16, i: int, port: u16)
    requires
        0 <= i < local.len(),
    ensures
        !sweeps(local, target_ports(base), endpoint(local[i], port)),
{
    let target = endpoint(local[i], port);
    if sweeps(local, target_ports(base), target) {
        let (address, k) = choose|address: Ipv4Addr, k: int|
            0 <= k < target_ports(base).len() && swept(local, address) && target
                == #[trigger] endpoint(address, target_ports(base)[k]);
        law_endpoints_are_distinct(local[i], port, address, target_ports(base)[k]);
    }
}

// ---------------------------------------------------------------------------
// Pairing codes
// ---------------------------------------------------------------------------
/// How long a displayed pairing code stays valid.
pub const PAIRING_CODE_TTL_MS: u64 = 60000;

/// Wrong codes tolerated before a challenge is thrown away.
pub const PAIRING_MAX_ATTEMPTS: u8 = 5;

/// The last six decimal digits of a number, leading zeros and all.
pub open spec fn six_digits(n: int) -> Seq<char> {
    seq![
        digit(n / 100000 % 10),
        digit(n / 10000 % 10),
        digit(n / 1000 % 10),
        digit(n / 100 % 10),
        digit(n / 10 % 10),
        digit(n % 10),
    ]
}

/// The number that four bytes spell, the lowest first.
pub open spec fn number_of(bytes: Seq<u8>) -> int {
    bytes[0] + bytes[1] * 0x100 + bytes[2] * 0x1_0000 + bytes[3] * 0x100_0000
}

/// The code that four random bytes give; without them, the one that the lowest
/// four bytes of the clock give.
pub open spec fn code_from(bytes: Option<Seq<u8>>, clock_ms: u64) -> Seq<char> {
    match bytes {
        Some(bytes) => six_digits(number_of(bytes) % 1_000_000),
        None => six_digits(clock_ms as int % 0x1_0000_0000 % 1_000_000),
    }
}

fn push_digit(out: &mut String, n: u32)
    requires
        n < 10,
    ensures
        final(out)@ == old(out)@.push(digit(n as int)),
{
    out.push((48u8 + n as u8) as char);
}

fn six_digit_text(n: u32) -> (r: String)
    ensures
        r@ == six_digits(n as int),
{
    let mut out = String::new();
    push_digit(&mut out, n / 100000 % 10);
    push_digit(&mut out, n / 10000 % 10);
    push_digit(&mut out, n / 1000 % 10);
    push_digit(&mut out, n / 100 % 10);
    push_digit(&mut out, n / 10 % 10);
    push_digit(&mut out, n % 10);
    assert(out@ =~= six_digits(n as int));
    out
}

/// The pairing code that the given bytes make.
pub fn pairing_code_from(bytes: Option<[u8; 4]>, clock_ms: u64) -> (r: String)
    ensures
        r@ == code_from(
            match bytes {
                Some(array) => Some(array@),
                None => None,
            },
            clock_ms,
        ),
{
    match bytes {
        Some(array) => {
            let n: u64 = array[0] as u64 + array[1] as u64 * 0x100 + array[2] as u64 * 0x1_0000
                + array[3] as u64 * 0x100_0000;
            six_digit_text((n % 1_000_000) as u32)
        },
        None => six_digit_text((clock_ms % 0x1_0000_0000 % 1_000_000) as u32),
    }
}

/// Four bytes of the system's random number generator
/// (`ring::rand::SystemRandom`, filled by `SecureRandom::fill`), or nothing
/// where it fails. Nothing is claimed of their values.
#[verifier::external_body]
fn random_bytes() -> (r: Option<[u8; 4]>) {
    let mut bytes = [0u8; 4];
    match ring::rand::SecureRandom::fill(&ring::rand::SystemRandom::new(), &mut bytes) {
        Ok(()) => Some(bytes),
        Err(_) => None,
    }
}

/// A pairing code: six decimal digits. `clock_ms` is the time, which stands in
/// where there are no random numbers.
pub fn random_pairing_code(clock_ms: u64) -> (r: String)
    ensures
        exists|n: int| 0 <= n < 1_000_000 && r@ == #[trigger] six_digits(n),
{
    let bytes = random_bytes();
    pairing_code_from(bytes, clock_ms)
}

/// Every pairing code has six digits, and different numbers give different
/// codes: the typed text is compared as it stands.
pub proof fn law_pairing_codes_have_six_digits(n: int, m: int)
    requires
        0 <= n < 1_000_000,
        0 <= m < 1_000_000,
    ensures
        six_digits(n).len() == 6,
        forall|i: int| 0 <= i < 6 ==> is_digit(#[trigger] six_digits(n)[i]),
        six_digits(n) == six_digits(m) ==> n == m,
{
    if six_digits(n) == six_digits(m) {
        assert(six_digits(n)[0] == six_digits(m)[0]);
        assert(six_digits(n)[1] == six_digits(m)[1]);
        assert(six_digits(n)[2] == six_digits(m)[2]);
        assert(six_digits(n)[3] == six_digits(m)[3]);
        assert(six_digits(n)[4] == six_digits(m)[4]);
        assert(six_digits(n)[5] == six_digits(m)[5]);
        lemma_six_digits_sum(n);
        lemma_six_digits_sum(m);
    }
}

pub proof fn lemma_six_digits_sum(n: int)
    requires
        0 <= n < 1_000_000,
    ensures
        n == n / 100000 % 10 * 100000 + n / 10000 % 10 * 10000 + n / 1000 % 10 * 1000 + n / 100 % 10
            * 100 + n / 10 % 10 * 10 + n % 10,
{
    let tens = n / 10;
    let hundreds = tens / 10;
    let thousands = hundreds / 10;
    let myriads = thousands / 10;
    assert(hundreds == n / 100);
    assert(thousands == n / 1000);
    assert(myriads == n / 10000);
    assert(myriads / 10 == n / 100000);
    assert(n / 100000 < 10);
}

// ---------------------------------------------------------------------------
// Ids
// ---------------------------------------------------------------------------
pub open spec fn ascii_alphanumeric(c: char) -> bool {
    'a' <= c <= 'z' || 'A' <= c <= 'Z' || '0' <= c <= '9'
}

/// The character of an id that stands for a character: a letter in lower case
/// or a digit stands for itself, a dash for anything else.
pub open spec fn id_char() -> spec_fn(char) -> char {
    |c: char|
        if ascii_alphanumeric(c) {
            lower(c)
        } else {
            '-'
        }
}

/// A label in the alphabet of ids, without dashes at either end.
pub open spec fn sanitized(value: Seq<char>) -> Seq<char> {
    stripped(trimmed(value).map_values(id_char()), the_char('-'))
}

pub fn sanitize_id(value: &str) -> (r: String)
    ensures
        r@ == sanitized(value@),
{
    let chars = chars_of(trim(value));
    let mut folded: Vec<char> = Vec::new();
    let mut i: usize = 0;
    while i < chars.len()
        invariant
            i <= chars.len(),
            folded@ == chars@.take(i as int).map_values(id_char()),
        decreases chars.len() - i,
    {
        let c = chars[i];
        let alphanumeric = ('a' <= c && c <= 'z') || ('A' <= c && c <= 'Z') || ('0' <= c && c
            <= '9');
        folded.push(
            if alphanumeric {
                to_lower(c)
            } else {
                '-'
            },
        );
        assert(folded@ =~= chars@.take(i + 1).map_values(id_char()));
        i = i + 1;
    }
    assert(chars@.take(chars.len() as int) =~= chars@);
    text_of(&strip(&folded, '-'))
}

/// The id that a peer of that host name and address announces itself under.
pub open spec fn peer_id(host: Seq<char>, ip: Seq<char>) -> Seq<char> {
    let folded = sanitized(host + "-"@ + ip);
    if folded.len() == 0 {
        "peer-local"@
    } else {
        "peer-"@ + folded
    }
}

pub fn local_peer_id(host: &str, ip: &str) -> (r: String)
    ensures
        r@ == peer_id(host@, ip@),
{
    let mut label = host.to_string();
    label.append("-");
    label.append(ip);
    let folded = sanitize_id(label.as_str());
    if folded.as_str().is_empty() {
        "peer-local".to_string()
    } else {
        let mut id = "peer-".to_string();
        id.append(folded.as_str());
        id
    }
}

/// A character of an id.
pub open spec fn of_an_id(c: char) -> bool {
    'a' <= c <= 'z' || '0' <= c <= '9' || c == '-'
}

/// An id holds lower-case letters, digits and dashes, and neither begins nor
/// ends with a dash.
pub proof fn law_ids_keep_to_their_alphabet(value: Seq<char>)
    ensures
        forall|i: int|
            0 <= i < sanitized(value).len() ==> of_an_id(#[trigger] sanitized(value)[i]),
        sanitized(value).len() > 0 ==> sanitized(value)[0] != '-' && sanitized(value).last() != '-',
{
    let folded = trimmed(value).map_values(id_char());
    lemma_stripped(folded, the_char('-'));
    let (from, to) = choose|from: int, to: int|
        0 <= from <= to <= folded.len() && stripped(folded, the_char('-'))
            == #[trigger] folded.subrange(from, to);
    assert forall|i: int| 0 <= i < sanitized(value).len() implies of_an_id(
        #[trigger] sanitized(value)[i],
    ) by {
        assert(sanitized(value)[i] == folded[from + i]);
        assert(folded[from + i] == id_char()(trimmed(value)[from + i]));
    }
}

/// Making an id of an id changes nothing.
pub proof fn law_an_id_stays_as_it_is(value: Seq<char>)
    ensures
        sanitized(sanitized(value)) == sanitized(value),
{
    let id = sanitized(value);
    law_ids_keep_to_their_alphabet(value);
    let space = |c: char| white_space(c);
    lemma_stripped(id, space);
    if id.len() > 0 {
        assert(of_an_id(id[0]));
        assert(of_an_id(id[id.len() - 1]));
        assert(!space(id[0]) && !space(id.last()));
    } else {
        assert(id =~= seq![]);
        assert(trimmed(id) =~= id);
    }
    assert(trimmed(id) == id);
    assert(id.map_values(id_char()) =~= id) by {
        assert forall|i: int| 0 <= i < id.len() implies id_char()(#[trigger] id[i]) == id[i] by {
            assert(of_an_id(id[i]));
        }
    }
    lemma_stripped(id, the_char('-'));
    if id.len() == 0 {
        assert(stripped(id, the_char('-')) =~= id);
    }
}

/// Labels that differ only in the case of ASCII letters give one id.
pub proof fn law_ids_ignore_case(a: Seq<char>, b: Seq<char>)
    requires
        lowered(a) == lowered(b),
    ensures
        sanitized(a) == sanitized(b),
{
    lemma_id_of_lowered(a);
    lemma_id_of_lowered(b);
}

proof fn lemma_id_of_lowered(value: Seq<char>)
    ensures
        sanitized(lowered(value)) == sanitized(value),
{
    lemma_trimming_lowered(value);
    let kept = trimmed(value);
    let folded = kept.map_values(id_char());
    let low = lowered(kept).map_values(id_char());
    assert forall|i: int| 0 <= i < kept.len() implies #[trigger] low[i] == folded[i] by {
        assert(lowered(kept)[i] == lower(kept[i]));
    }
    assert(low =~= folded);
}

/// A label gives no id exactly where it holds no ASCII letter and no digit.
pub proof fn law_only_bare_labels_give_no_id(value: Seq<char>)
    ensures
        sanitized(value).len() == 0 <==> forall|i: int|
            0 <= i < value.len() ==> !ascii_alphanumeric(#[trigger] value[i]),
{
    let space = |c: char| white_space(c);
    let dash = the_char('-');
    let kept = trimmed(value);
    let folded = kept.map_values(id_char());
    if sanitized(value).len() == 0 {
        assert forall|i: int| 0 <= i < value.len() implies !ascii_alphanumeric(
            #[trigger] value[i],
        ) by {
            if ascii_alphanumeric(value[i]) {
                lemma_stripping_keeps(value, space, value[i]);
                assert(kept.contains(value[i]));
                let k = choose|k: int| 0 <= k < kept.len() && kept[k] == value[i];
                assert(folded[k] == lower(value[i]));
                lemma_stripping_keeps(folded, dash, folded[k]);
                assert(sanitized(value).contains(folded[k]));
            }
        }
    } else {
        law_ids_keep_to_their_alphabet(value);
        let c = sanitized(value)[0];
        assert(sanitized(value).contains(c));
        lemma_stripping_keeps(folded, dash, c);
        let k = choose|k: int| 0 <= k < folded.len() && folded[k] == c;
        assert(folded[k] == id_char()(kept[k]));
        assert(ascii_alphanumeric(kept[k]));
        assert(kept.contains(kept[k]));
        lemma_stripping_keeps(value, space, kept[k]);
        let i = choose|i: int| 0 <= i < value.len() && value[i] == kept[k];
        assert(ascii_alphanumeric(value[i]));
    }
}

/// Every peer's id begins alike and goes on in the alphabet of ids.
pub proof fn law_peer_ids_have_one_shape(host: Seq<char>, ip: Seq<char>)
    ensures
        begins_with(peer_id(host, ip), "peer-"@),
        peer_id(host, ip).len() > "peer-"@.len(),
        forall|i: int| 0 <= i < peer_id(host, ip).len() ==> of_an_id(#[trigger] peer_id(host, ip)[i]),
{
    reveal_strlit("peer-");
    reveal_strlit("peer-local");
    let label = host + "-"@ + ip;
    law_ids_keep_to_their_alphabet(label);
    let id = peer_id(host, ip);
    assert(id.take(5) =~= "peer-"@);
    assert forall|i: int| 0 <= i < id.len() implies of_an_id(#[trigger] id[i]) by {
        if sanitized(label).len() > 0 && i >= 5 {
            assert(id[i] == sanitized(label)[i - 5]);
        }
    }
}

// ---------------------------------------------------------------------------
// Peers
// ---------------------------------------------------------------------------
/// The port of a peer that does not say.
pub fn default_transport_port() -> (r: u16)
    ensures
        r == DISCOVERY_PORT,
{
    DISCOVERY_PORT
}

/// The version of a peer that does not say.
pub fn default_protocol_version() -> (r: u16)
    ensures
        r == PROTOCOL_VERSION,
{
    PROTOCOL_VERSION
}

/// One screen of a peer, in that peer's own layout coordinates.
#[derive(Debug)]
pub struct LanPeerScreen {
    pub id: String,
    pub name: String,
    pub x: i32,
    pub y: i32,
    pub width: i32,
    pub height: i32,
    pub scale: Double,
    pub is_primary: bool,
}

pub struct LanPeerScreenView {
    pub id: Seq<char>,
    pub name: Seq<char>,
    pub x: i32,
    pub y: i32,
    pub width: i32,
    pub height: i32,
    pub scale: Double,
    pub is_primary: bool,
}

impl View for LanPeerScreen {
    type V = LanPeerScreenView;

    open spec fn view(&self) -> LanPeerScreenView {
        LanPeerScreenView {
            id: self.id@,
            name: self.name@,
            x: self.x,
            y: self.y,
            width: self.width,
            height: self.height,
            scale: self.scale,
            is_primary: self.is_primary,
        }
    }
}

/// One peer as it describes itself on the network.
#[derive(Debug)]
pub struct LanPeer {
    pub id: String,
    pub name: String,
    pub platform: String,
    pub machine_role: String,
    pub cluster_id: String,
    pub pairing_required: bool,
    pub host: String,
    pub ip: String,
    pub transport_port: u16,
    pub quic_port: u16,
    pub transport_public_key: String,
    pub protocol_version: u16,
    pub screen_count: usize,
    pub input_ready: bool,
    pub upgrading: bool,
    pub screens: Vec<LanPeerScreen>,
    pub app_version: String,
    pub last_seen_ms: u64,
    /// The keyboard layout that this machine's user types on. Key codes on the
    /// wire are positional, so a receiver without a layout borrows this one.
    pub keyboard_layout: String,
}

pub struct LanPeerView {
    pub id: Seq<char>,
    pub name: Seq<char>,
    pub platform: Seq<char>,
    pub machine_role: Seq<char>,
    pub cluster_id: Seq<char>,
    pub pairing_required: bool,
    pub host: Seq<char>,
    pub ip: Seq<char>,
    pub transport_port: u16,
    pub quic_port: u16,
    pub transport_public_key: Seq<char>,
    pub protocol_version: u16,
    pub screen_count: usize,
    pub input_ready: bool,
    pub upgrading: bool,
    pub screens: Seq<LanPeerScreenView>,
    pub app_version: Seq<char>,
    pub last_seen_ms: u64,
    pub keyboard_layout: Seq<char>,
}

pub open spec fn screen_views(v: Seq<LanPeerScreen>) -> Seq<LanPeerScreenView> {
    v.map_values(|screen: LanPeerScreen| screen@)
}

impl View for LanPeer {
    type V = LanPeerView;

    open spec fn view(&self) -> LanPeerView {
        LanPeerView {
            id: self.id@,
            name: self.name@,
            platform: self.platform@,
            machine_role: self.machine_role@,
            cluster_id: self.cluster_id@,
            pairing_required: self.pairing_required,
            host: self.host@,
            ip: self.ip@,
            transport_port: self.transport_port,
            quic_port: self.quic_port,
            transport_public_key: self.transport_public_key@,
            protocol_version: self.protocol_version,
            screen_count: self.screen_count,
            input_ready: self.input_ready,
            upgrading: self.upgrading,
            screens: screen_views(self.screens@),
            app_version: self.app_version@,
            last_seen_ms: self.last_seen_ms,
            keyboard_layout: self.keyboard_layout@,
        }
    }
}

/// A discovery datagram. The pairing fields are absent unless that exchange is
/// under way.
#[derive(Debug)]
pub struct DiscoveryPacket {
    pub protocol: String,
    pub kind: String,
    pub peer: LanPeer,
    pub pairing_code: Option<String>,
    pub pair_cluster_id: Option<String>,
    pub pair_secret: Option<String>,
    pub pairing_error: Option<String>,
}

pub struct DiscoveryPacketView {
    pub protocol: Seq<char>,
    pub kind: Seq<char>,
    pub peer: LanPeerView,
    pub pairing_code: Option<Seq<char>>,
    pub pair_cluster_id: Option<Seq<char>>,
    pub pair_secret: Option<Seq<char>>,
    pub pairing_error: Option<Seq<char>>,
}

impl View for DiscoveryPacket {
    type V = DiscoveryPacketView;

    open spec fn view(&self) -> DiscoveryPacketView {
        DiscoveryPacketView {
            protocol: self.protocol@,
            kind: self.kind@,
            peer: self.peer@,
            pairing_code: text_view(self.pairing_code),
            pair_cluster_id: text_view(self.pair_cluster_id),
            pair_secret: text_view(self.pair_secret),
            pairing_error: text_view(self.pairing_error),
        }
    }
}

// ---------------------------------------------------------------------------
// The keyboard layout
// ---------------------------------------------------------------------------
/// Whether a line, trimmed, begins with the name of a field.
pub open spec fn line_of_field(name: Seq<char>) -> spec_fn(Seq<char>) -> bool {
    |line: Seq<char>| begins_with(trimmed(line), name)
}

/// What the first line of that field says, trimmed; nothing where there is none.
pub open spec fn field_of(lines: Seq<Seq<char>>, name: Seq<char>) -> Seq<char> {
    match first(lines, line_of_field(name)) {
        Some(line) => trimmed(trimmed(line).skip(name.len() as int)),
        None => seq![],
    }
}

/// The layout that the session reports, with its variant in brackets.
pub open spec fn reported_layout(report: Seq<char>) -> Seq<char> {
    let lines = pieces(report, '\n');
    let layout = field_of(lines, "X11 Layout:"@);
    let variant = field_of(lines, "X11 Variant:"@);
    if layout.len() == 0 {
        seq![]
    } else if variant.len() == 0 {
        layout
    } else {
        layout + "("@ + variant + ")"@
    }
}

fn read_field(lines: &Vec<Vec<char>>, name: &str) -> (r: String)
    ensures
        r@ == field_of(char_lists(lines@), name@),
{
    let ghost all = char_lists(lines@);
    let mut i: usize = 0;
    assert(all.skip(0) =~= all);
    while i < lines.len()
        invariant
            all == char_lists(lines@),
            i <= lines.len(),
            first(all, line_of_field(name@)) == first(all.skip(i as int), line_of_field(name@)),
        decreases lines.len() - i,
    {
        proof {
            lemma_first_step(all, line_of_field(name@), i as int);
        }
        let line = text_of(&lines[i]);
        if let Some(value) = strip_prefix(trim(line.as_str()), name) {
            return trim(value).to_string();
        }
        i = i + 1;
    }
    String::new()
}

/// The keyboard layout that this machine's user types on; nothing where it is
/// not known. `report` is what the session's settings tool printed, where it
/// succeeded. Only Linux machines capture, so only they have a layout to tell.
pub fn detect_keyboard_layout(platform: Platform, report: Option<&str>) -> (r: String)
    ensures
        r@ == (match report {
            Some(text) => if platform == Platform::Linux {
                reported_layout(text@)
            } else {
                seq![]
            },
            None => seq![],
        }),
{
    if platform != Platform::Linux {
        return String::new();
    }
    match report {
        Some(text) => {
            let lines = split(&chars_of(text), '\n');
            let layout = read_field(&lines, "X11 Layout:");
            let variant = read_field(&lines, "X11 Variant:");
            if layout.as_str().is_empty() {
                return String::new();
            }
            let mut out = layout;
            if !variant.as_str().is_empty() {
                out.append("(");
                out.append(variant.as_str());
                out.append(")");
            }
            out
        },
        None => String::new(),
    }
}

} // verus!
