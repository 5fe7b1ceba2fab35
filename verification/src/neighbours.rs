//! Addresses and interfaces, by the numbers that the networks publish.

use crate::addresses::{
    best_key, in_order, key_of, listed, moved_to_front, names_a_tunnel, names_a_virtual_interface,
    other_than, rank_of, with_default, AddressRank, Ipv4Addr,
};
use crate::discovery::broadcast_addresses;
use crate::interfaces::{offered, offers_an_address, InterfaceView};
use crate::pairing::lemma_pieces_grow;
use crate::targets::address;
use crate::text::{decimal, digits_value, is_digit, lemma_decimal, lowered, occurs_in, pieces};
use vstd::prelude::*;

verus! {

/// The number of an address with given octets.
pub open spec fn numbered(a: int, b: int, c: int, d: int) -> int {
    ((a * 256 + b) * 256 + c) * 256 + d
}

/// Addresses count from their first octet down to their last.
pub proof fn law_addresses_count_by_octets(x: Ipv4Addr, y: Ipv4Addr)
    ensures
        x.number() == numbered(x.a as int, x.b as int, x.c as int, x.d as int),
        x.number() < y.number() <==> x.a < y.a || x.a == y.a && (x.b < y.b || x.b == y.b && (x.c
            < y.c || x.c == y.c && x.d < y.d)),
{
}

/// The private addresses are those of 10/8, 172.16/12 and 192.168/16.
pub proof fn law_private_addresses_are_the_reserved_ranges(x: Ipv4Addr)
    ensures
        x.private() <==> numbered(10, 0, 0, 0) <= x.number() <= numbered(10, 255, 255, 255)
            || numbered(172, 16, 0, 0) <= x.number() <= numbered(172, 31, 255, 255) || numbered(
            192,
            168,
            0,
            0,
        ) <= x.number() <= numbered(192, 168, 255, 255),
{
}

/// A machine's address is none of the loopback, multicast and link-local ones,
/// nor the one for nobody or the one for all.
pub proof fn law_special_addresses_are_not_used(x: Ipv4Addr)
    ensures
        x.usable() <==> !(numbered(127, 0, 0, 0) <= x.number() <= numbered(127, 255, 255, 255)
            || numbered(224, 0, 0, 0) <= x.number() <= numbered(239, 255, 255, 255) || numbered(
            169,
            254,
            0,
            0,
        ) <= x.number() <= numbered(169, 254, 255, 255) || x.number() == numbered(0, 0, 0, 0)
            || x.number() == numbered(255, 255, 255, 255)),
{
}

proof fn lemma_next_piece(s: Seq<char>, t: Seq<char>, separator: char)
    requires
        !t.contains(separator),
    ensures
        pieces(s + seq![separator] + t, separator) == pieces(s, separator).push(t),
{
    let one = s + seq![separator];
    assert(one.drop_last() =~= s);
    assert(one.last() == separator);
    assert(pieces(one, separator) == pieces(s, separator).push(seq![]));
    lemma_pieces_grow(one, t, separator);
    assert(Seq::<char>::empty() + t =~= t);
    assert(pieces(one, separator).drop_last() =~= pieces(s, separator));
}

proof fn lemma_no_dot(n: nat)
    ensures
        !decimal(n).contains('.'),
{
    lemma_decimal(n);
    if decimal(n).contains('.') {
        let i = choose|i: int| 0 <= i < decimal(n).len() && decimal(n)[i] == '.';
        assert(is_digit(decimal(n)[i]));
    }
}

/// An address is written as its four octets in order, with a dot between.
pub proof fn law_dotted_addresses_hold_their_octets(x: Ipv4Addr)
    ensures
        pieces(x.dotted(), '.') == seq![
            decimal(x.a as nat),
            decimal(x.b as nat),
            decimal(x.c as nat),
            decimal(x.d as nat),
        ],
{
    reveal_strlit(".");
    assert("."@ =~= seq!['.']);
    let (a, b) = (decimal(x.a as nat), decimal(x.b as nat));
    let (c, d) = (decimal(x.c as nat), decimal(x.d as nat));
    lemma_no_dot(x.a as nat);
    lemma_no_dot(x.b as nat);
    lemma_no_dot(x.c as nat);
    lemma_no_dot(x.d as nat);
    let none = Seq::<char>::empty();
    lemma_pieces_grow(none, a, '.');
    assert(none + a =~= a);
    assert(pieces(none, '.') =~= seq![none]);
    assert(pieces(a, '.') =~= seq![a]);
    lemma_next_piece(a, b, '.');
    lemma_next_piece(a + seq!['.'] + b, c, '.');
    lemma_next_piece(a + seq!['.'] + b + seq!['.'] + c, d, '.');
    assert(pieces(x.dotted(), '.') =~= seq![a, b, c, d]);
}

/// A text split after a separator has the rest for its last piece.
pub proof fn law_a_separator_starts_another_piece(s: Seq<char>, t: Seq<char>, separator: char)
    requires
        !t.contains(separator),
    ensures
        pieces(s + seq![separator] + t, separator) == pieces(s, separator).push(t),
        pieces(t, separator) == seq![t],
{
    lemma_next_piece(s, t, separator);
    let none = Seq::<char>::empty();
    lemma_pieces_grow(none, t, separator);
    assert(none + t =~= t);
    assert(pieces(none, separator) =~= seq![none]);
    assert(pieces(t, separator) =~= seq![t]);
}

// ---------------------------------------------------------------------------
// Ranks
// ---------------------------------------------------------------------------
/// The words that give a tunnel away.
pub open spec fn tunnel_words() -> Seq<Seq<char>> {
    seq![
        "tun"@,
        "tap"@,
        "wg"@,
        "ppp"@,
        "ipsec"@,
        "proton"@,
        "nordlynx"@,
        "mullvad"@,
        "tailscale"@,
        "zt"@,
        "wireguard"@,
        "openvpn"@,
        "vpn"@,
    ]
}

/// The words that give a virtual network away.
pub open spec fn virtual_words() -> Seq<Seq<char>> {
    seq![
        "docker"@,
        "br-"@,
        "veth"@,
        "virbr"@,
        "vmnet"@,
        "vboxnet"@,
        "vethernet"@,
        "lxc"@,
        "podman"@,
        "cni"@,
        "hyper-v"@,
    ]
}

/// Whether a name holds one of some words, in whatever case.
pub open spec fn holds_a_word(words: Seq<Seq<char>>, name: Seq<char>) -> bool {
    exists|i: int| 0 <= i < words.len() && occurs_in(#[trigger] words[i], lowered(name))
}

proof fn lemma_words(name: Seq<char>)
    ensures
        names_a_tunnel(lowered(name)) == holds_a_word(tunnel_words(), name),
        names_a_virtual_interface(lowered(name)) == holds_a_word(virtual_words(), name),
{
    let n = lowered(name);
    let t = tunnel_words();
    let v = virtual_words();
    if names_a_tunnel(n) {
        assert(occurs_in(t[0], n) || occurs_in(t[1], n) || occurs_in(t[2], n) || occurs_in(t[3], n)
            || occurs_in(t[4], n) || occurs_in(t[5], n) || occurs_in(t[6], n) || occurs_in(t[7], n)
            || occurs_in(t[8], n) || occurs_in(t[9], n) || occurs_in(t[10], n) || occurs_in(
            t[11],
            n,
        ) || occurs_in(t[12], n));
    }
    if names_a_virtual_interface(n) {
        assert(occurs_in(v[0], n) || occurs_in(v[1], n) || occurs_in(v[2], n) || occurs_in(v[3], n)
            || occurs_in(v[4], n) || occurs_in(v[5], n) || occurs_in(v[6], n) || occurs_in(v[7], n)
            || occurs_in(v[8], n) || occurs_in(v[9], n) || occurs_in(v[10], n));
    }
}

/// What an address is good for: a point-to-point one, one of the carriers' range
/// or of an interface named like a tunnel reaches through a tunnel; else one of
/// a virtual interface stays within the machine; else a private one is on the
/// local network, and any other is routed.
pub proof fn law_ranks_tell_what_an_address_reaches(
    name: Seq<char>,
    address: Ipv4Addr,
    has_subnet: bool,
)
    ensures
        ({
            let carrier = numbered(100, 64, 0, 0) <= address.number() <= numbered(
                100,
                127,
                255,
                255,
            );
            let tunnel = !has_subnet || carrier || holds_a_word(tunnel_words(), name);
            let inside = holds_a_word(virtual_words(), name);
            &&& rank_of(name, address, has_subnet) is Tunnel <==> tunnel
            &&& rank_of(name, address, has_subnet) is Virtual <==> !tunnel && inside
            &&& rank_of(name, address, has_subnet) is Lan <==> !tunnel && !inside
                && address.private()
        }),
{
    lemma_words(name);
}

/// Whether peers should rather be told of the one than of the other.
pub open spec fn better(x: AddressRank, y: AddressRank) -> bool {
    match x {
        AddressRank::Lan => !(y is Lan),
        AddressRank::Routable => y is Virtual || y is Tunnel,
        AddressRank::Virtual => y is Tunnel,
        AddressRank::Tunnel => false,
    }
}

/// In the order for peers an address stands before every other whose ranks are
/// all worse than one of its own; and among addresses of one rank each the lower
/// stands first.
pub proof fn law_better_addresses_stand_first(
    candidates: Seq<(Ipv4Addr, AddressRank)>,
    list: Seq<Ipv4Addr>,
    i: int,
    j: int,
    rank: AddressRank,
)
    requires
        in_order(candidates, list),
        0 <= i < list.len(),
        0 <= j < list.len(),
        candidates.contains((list[i], rank)),
        forall|k: int|
            0 <= k < candidates.len() && (#[trigger] candidates[k]).0 == list[j] ==> better(
                rank,
                candidates[k].1,
            ) || candidates[k].1 == rank && list[i].number() < list[j].number(),
    ensures
        i < j,
{
    assert(list.contains(list[j]));
    lemma_best_at_most(candidates, list[i], rank);
    lemma_best_above(candidates, list[j], key_of(list[i], rank));
    if j < i {
        assert(best_key(candidates, list[j]) < best_key(candidates, list[i]));
    }
}

proof fn lemma_best_at_most(
    candidates: Seq<(Ipv4Addr, AddressRank)>,
    address: Ipv4Addr,
    rank: AddressRank,
)
    requires
        candidates.contains((address, rank)),
    ensures
        best_key(candidates, address) <= key_of(address, rank),
    decreases candidates.len(),
{
    let k = choose|k: int| 0 <= k < candidates.len() && candidates[k] == (address, rank);
    let front = candidates.drop_last();
    if k < front.len() {
        assert(front[k] == (address, rank));
        lemma_best_at_most(front, address, rank);
    }
}

proof fn lemma_best_above(
    candidates: Seq<(Ipv4Addr, AddressRank)>,
    address: Ipv4Addr,
    key: int,
)
    requires
        key < 0x4_0000_0000,
        forall|k: int|
            0 <= k < candidates.len() && (#[trigger] candidates[k]).0 == address ==> key_of(
                address,
                candidates[k].1,
            ) > key,
    ensures
        best_key(candidates, address) > key,
    decreases candidates.len(),
{
    if candidates.len() > 0 {
        let front = candidates.drop_last();
        assert forall|k: int|
            0 <= k < front.len() && (#[trigger] front[k]).0 == address implies key_of(
            address,
            front[k].1,
        ) > key by {
            assert(candidates[k] == front[k]);
        }
        lemma_best_above(front, address, key);
        assert(candidates[candidates.len() - 1] == candidates.last());
    }
}

/// What is moved to the front is there, once, and all else stays in its order.
pub proof fn law_the_moved_address_leads(list: Seq<Ipv4Addr>, address: Ipv4Addr)
    ensures
        moved_to_front(list, address).len() > 0,
        moved_to_front(list, address)[0] == address,
        moved_to_front(list, address).skip(1) == list.filter(|x: Ipv4Addr| x != address),
{
    let same = |x: Ipv4Addr| x != address;
    assert(other_than(address) =~= same);
    assert(moved_to_front(list, address).skip(1) =~= list.filter(other_than(address)));
}

/// The address of the default route leads where it is one of the local network,
/// closes the list where it is not listed, and is left where it is otherwise.
pub proof fn law_the_default_route_leads_on_the_local_network(
    list: Seq<Ipv4Addr>,
    candidates: Seq<(Ipv4Addr, AddressRank)>,
    address: Ipv4Addr,
)
    ensures
        ({
            let r = with_default(list, candidates, Some(address));
            &&& !address.usable() ==> r == list
            &&& address.usable() && candidates.contains((address, AddressRank::Lan)) ==> r.len()
                > 0 && r[0] == address
            &&& address.usable() && !candidates.contains((address, AddressRank::Lan))
                && !list.contains(address) ==> r.len() == list.len() + 1 && r.last() == address
            &&& address.usable() && !candidates.contains((address, AddressRank::Lan))
                && list.contains(address) ==> r == list
            &&& with_default(list, candidates, None) == list
        }),
{
}

/// An interface offers its address where that is usable and not a loopback's,
/// under its own name; it has a network unless its mask is of all ones.
pub proof fn law_interfaces_offer_their_own_address(interface: InterfaceView)
    ensures
        offers_an_address()(interface) <==> !interface.loopback && interface.subnet is Some && (
        interface.subnet->0).address.usable(),
        interface.subnet matches Some(subnet) ==> {
            let mask = subnet.netmask;
            let c = offered()(interface);
            &&& c.name == interface.name
            &&& c.address == subnet.address
            &&& c.rank == rank_of(
                interface.name,
                subnet.address,
                mask.number() != numbered(255, 255, 255, 255),
            )
        },
{
}

/// A probe goes to everyone on the wire, and to every host beside each of this
/// machine's addresses.
pub proof fn law_probes_go_to_everyone(local: Seq<Ipv4Addr>, i: int)
    requires
        0 <= i < local.len(),
    ensures
        ({
            let to = broadcast_addresses(local);
            &&& to.len() == local.len() + 1
            &&& to[0] == (Ipv4Addr { a: 255, b: 255, c: 255, d: 255 })
            &&& to[i + 1] == (Ipv4Addr { d: 255, ..local[i] })
        }),
{
}

/// An address of a stream is the host and the port behind a colon, and the port
/// reads back.
pub proof fn law_stream_addresses_name_host_and_port(host: Seq<char>, port: u16)
    ensures
        address(host, port).len() > host.len() + 1,
        address(host, port).take(host.len() as int) == host,
        address(host, port)[host.len() as int] == ':',
        digits_value(address(host, port).skip(host.len() as int + 1)) == port,
{
    reveal_strlit(":");
    lemma_decimal(port as nat);
    assert(address(host, port).take(host.len() as int) =~= host);
    assert(address(host, port).skip(host.len() as int + 1) =~= decimal(port as nat));
}

} // verus!
