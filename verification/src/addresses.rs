//! The local IPv4 addresses, and which of them other machines can reach.

use crate::text::{contains, decimal, lower_chars, lowered, occurs_in, push_decimal};
use vstd::prelude::*;

verus! {

/// An IPv4 address.
#[derive(Debug, Clone, Copy, PartialEq, Eq, Structural)]
pub struct Ipv4Addr {
    pub a: u8,
    pub b: u8,
    pub c: u8,
    pub d: u8,
}

impl Ipv4Addr {
    pub fn new(a: u8, b: u8, c: u8, d: u8) -> (r: Ipv4Addr)
        ensures
            r == (Ipv4Addr { a, b, c, d }),
    {
        Ipv4Addr { a, b, c, d }
    }

    /// The address as one number.
    pub open spec fn number(self) -> int {
        self.a * 0x100_0000 + self.b * 0x1_0000 + self.c * 0x100 + self.d
    }

    /// The address in dotted form.
    pub open spec fn dotted(self) -> Seq<char> {
        decimal(self.a as nat) + "."@ + decimal(self.b as nat) + "."@ + decimal(self.c as nat)
            + "."@ + decimal(self.d as nat)
    }

    pub fn text(&self) -> (r: String)
        ensures
            r@ == self.dotted(),
    {
        let mut out = String::new();
        push_decimal(&mut out, self.a as u64);
        out.append(".");
        push_decimal(&mut out, self.b as u64);
        out.append(".");
        push_decimal(&mut out, self.c as u64);
        out.append(".");
        push_decimal(&mut out, self.d as u64);
        assert(out@ =~= self.dotted());
        out
    }

    /// Whether the address belongs to a private network.
    pub open spec fn private(self) -> bool {
        ||| self.a == 10
        ||| self.a == 172 && 16 <= self.b <= 31
        ||| self.a == 192 && self.b == 168
    }

    pub fn is_private(&self) -> (r: bool)
        ensures
            r == self.private(),
    {
        self.a == 10 || (self.a == 172 && 16 <= self.b && self.b <= 31) || (self.a == 192 && self.b
            == 168)
    }

    /// Whether the address can belong to a machine on a network: it is neither
    /// loopback nor unspecified, multicast, broadcast or link-local.
    pub open spec fn usable(self) -> bool {
        &&& self.a != 127
        &&& self.number() != 0
        &&& !(224 <= self.a <= 239)
        &&& self.number() != 0xffff_ffff
        &&& !(self.a == 169 && self.b == 254)
    }

    /// The number as an integer.
    pub fn bits(&self) -> (r: u64)
        ensures
            r == self.number(),
    {
        self.a as u64 * 0x100_0000 + self.b as u64 * 0x1_0000 + self.c as u64 * 0x100
            + self.d as u64
    }
}

pub fn usable_discovery_ipv4(address: Ipv4Addr) -> (r: bool)
    ensures
        r == address.usable(),
{
    let bits: u64 = address.bits();
    address.a != 127 && bits != 0 && !(224 <= address.a && address.a <= 239) && bits != 0xffff_ffff
        && !(address.a == 169 && address.b == 254)
}

// ---------------------------------------------------------------------------
// Ranks
// ---------------------------------------------------------------------------
/// How readily another machine on the same network can reach an address.
#[derive(Debug, Clone, Copy, PartialEq, Eq, Structural)]
pub enum AddressRank {
    /// A private address on a real subnet, on an interface that looks physical.
    Lan,
    /// A real subnet that cannot be placed.
    Routable,
    /// A container bridge or the like: reachable from this machine only.
    Virtual,
    /// A tunnel: reachable only from inside it.
    Tunnel,
}

impl AddressRank {
    /// The place of a rank: the smaller, the better reachable.
    pub open spec fn place(self) -> int {
        match self {
            AddressRank::Lan => 0,
            AddressRank::Routable => 1,
            AddressRank::Virtual => 2,
            AddressRank::Tunnel => 3,
        }
    }

    pub(crate) fn place_of(self) -> (r: u64)
        ensures
            r == self.place(),
            r <= 3,
    {
        match self {
            AddressRank::Lan => 0,
            AddressRank::Routable => 1,
            AddressRank::Virtual => 2,
            AddressRank::Tunnel => 3,
        }
    }

    /// The name that a rank is shown under.
    pub open spec fn kind(self) -> Seq<char> {
        match self {
            AddressRank::Lan => "lan"@,
            AddressRank::Routable => "routable"@,
            AddressRank::Virtual => "virtual"@,
            AddressRank::Tunnel => "tunnel"@,
        }
    }

    pub fn as_kind(self) -> (r: &'static str)
        ensures
            r@ == self.kind(),
    {
        match self {
            AddressRank::Lan => "lan",
            AddressRank::Routable => "routable",
            AddressRank::Virtual => "virtual",
            AddressRank::Tunnel => "tunnel",
        }
    }
}

/// Whether an interface's name, in lower case, gives a tunnel away.
pub open spec fn names_a_tunnel(name: Seq<char>) -> bool {
    ||| occurs_in("tun"@, name)
    ||| occurs_in("tap"@, name)
    ||| occurs_in("wg"@, name)
    ||| occurs_in("ppp"@, name)
    ||| occurs_in("ipsec"@, name)
    ||| occurs_in("proton"@, name)
    ||| occurs_in("nordlynx"@, name)
    ||| occurs_in("mullvad"@, name)
    ||| occurs_in("tailscale"@, name)
    ||| occurs_in("zt"@, name)
    ||| occurs_in("wireguard"@, name)
    ||| occurs_in("openvpn"@, name)
    ||| occurs_in("vpn"@, name)
}

fn is_tunnel_name(name: &Vec<char>) -> (r: bool)
    ensures
        r == names_a_tunnel(name@),
{
    contains(name, "tun") || contains(name, "tap") || contains(name, "wg") || contains(name, "ppp")
        || contains(name, "ipsec") || contains(name, "proton") || contains(name, "nordlynx")
        || contains(name, "mullvad") || contains(name, "tailscale") || contains(name, "zt")
        || contains(name, "wireguard") || contains(name, "openvpn") || contains(name, "vpn")
}

/// Whether an interface's name, in lower case, belongs to one that exists only
/// inside this machine.
pub open spec fn names_a_virtual_interface(name: Seq<char>) -> bool {
    ||| occurs_in("docker"@, name)
    ||| occurs_in("br-"@, name)
    ||| occurs_in("veth"@, name)
    ||| occurs_in("virbr"@, name)
    ||| occurs_in("vmnet"@, name)
    ||| occurs_in("vboxnet"@, name)
    ||| occurs_in("vethernet"@, name)
    ||| occurs_in("lxc"@, name)
    ||| occurs_in("podman"@, name)
    ||| occurs_in("cni"@, name)
    ||| occurs_in("hyper-v"@, name)
}

fn is_virtual_name(name: &Vec<char>) -> (r: bool)
    ensures
        r == names_a_virtual_interface(name@),
{
    contains(name, "docker") || contains(name, "br-") || contains(name, "veth") || contains(
        name,
        "virbr",
    ) || contains(name, "vmnet") || contains(name, "vboxnet") || contains(name, "vethernet")
        || contains(name, "lxc") || contains(name, "podman") || contains(name, "cni") || contains(
        name,
        "hyper-v",
    )
}

/// The rank of an address: without a subnet, in the range of carrier-grade NAT
/// or on an interface of such a name it is a tunnel's.
pub open spec fn rank_of(name: Seq<char>, address: Ipv4Addr, has_subnet: bool) -> AddressRank {
    if !has_subnet || (address.a == 100 && 64 <= address.b <= 127) || names_a_tunnel(
        lowered(name),
    ) {
        AddressRank::Tunnel
    } else if names_a_virtual_interface(lowered(name)) {
        AddressRank::Virtual
    } else if address.private() {
        AddressRank::Lan
    } else {
        AddressRank::Routable
    }
}

pub fn classify_address(name: &str, address: Ipv4Addr, has_subnet: bool) -> (r: AddressRank)
    ensures
        r == rank_of(name@, address, has_subnet),
{
    if !has_subnet {
        return AddressRank::Tunnel;
    }
    if address.a == 100 && 64 <= address.b && address.b <= 127 {
        return AddressRank::Tunnel;
    }
    let lower = lower_chars(name);
    if is_tunnel_name(&lower) {
        return AddressRank::Tunnel;
    }
    if is_virtual_name(&lower) {
        return AddressRank::Virtual;
    }
    if address.is_private() {
        return AddressRank::Lan;
    }
    AddressRank::Routable
}

// ---------------------------------------------------------------------------
// The order of addresses
// ---------------------------------------------------------------------------
/// Where an address of a rank stands: by rank, and by number within one.
pub open spec fn key_of(address: Ipv4Addr, rank: AddressRank) -> int {
    rank.place() * 0x1_0000_0000 + address.number()
}

/// Behind every address.
pub open spec fn last_key() -> int {
    0x4_0000_0000
}

/// The best place that an address has among the candidates.
pub open spec fn best_key(candidates: Seq<(Ipv4Addr, AddressRank)>, address: Ipv4Addr) -> int
    decreases candidates.len(),
{
    if candidates.len() == 0 {
        last_key()
    } else {
        let before = best_key(candidates.drop_last(), address);
        let (other, rank) = candidates.last();
        if other == address && key_of(other, rank) < before {
            key_of(other, rank)
        } else {
            before
        }
    }
}

/// Whether an address is among the candidates.
pub open spec fn listed(candidates: Seq<(Ipv4Addr, AddressRank)>, address: Ipv4Addr) -> bool {
    exists|i: int| 0 <= i < candidates.len() && (#[trigger] candidates[i]).0 == address
}

/// Whether a list holds the candidates' addresses once each, the best reachable
/// first.
pub open spec fn in_order(candidates: Seq<(Ipv4Addr, AddressRank)>, list: Seq<Ipv4Addr>) -> bool {
    &&& forall|i: int, j: int|
        0 <= i < j < list.len() ==> best_key(candidates, #[trigger] list[i]) < best_key(
            candidates,
            #[trigger] list[j],
        )
    &&& forall|address: Ipv4Addr|
        #[trigger] list.contains(address) <==> listed(candidates, address)
}

/// There is only one such list.
pub proof fn law_the_order_is_unique(
    candidates: Seq<(Ipv4Addr, AddressRank)>,
    x: Seq<Ipv4Addr>,
    y: Seq<Ipv4Addr>,
)
    requires
        in_order(candidates, x),
        in_order(candidates, y),
    ensures
        x == y,
{
    assert forall|address: Ipv4Addr| x.contains(address) <==> y.contains(address) by {}
    lemma_increasing_lists_are_equal(candidates, x, y);
}

proof fn lemma_increasing_lists_are_equal(
    candidates: Seq<(Ipv4Addr, AddressRank)>,
    x: Seq<Ipv4Addr>,
    y: Seq<Ipv4Addr>,
)
    requires
        forall|i: int, j: int|
            0 <= i < j < x.len() ==> best_key(candidates, #[trigger] x[i]) < best_key(
                candidates,
                #[trigger] x[j],
            ),
        forall|i: int, j: int|
            0 <= i < j < y.len() ==> best_key(candidates, #[trigger] y[i]) < best_key(
                candidates,
                #[trigger] y[j],
            ),
        forall|address: Ipv4Addr| x.contains(address) <==> y.contains(address),
    ensures
        x == y,
    decreases x.len(),
{
    if x.len() == 0 {
        if y.len() > 0 {
            assert(y.contains(y[0]));
        }
        assert(x =~= y);
    } else {
        let last = x[x.len() - 1];
        assert(x.contains(last));
        let p = choose|p: int| 0 <= p < y.len() && y[p] == last;
        let other = y[y.len() - 1];
        assert(y.contains(other));
        let q = choose|q: int| 0 <= q < x.len() && x[q] == other;
        if p < y.len() - 1 {
            assert(best_key(candidates, y[p]) < best_key(candidates, y[y.len() - 1]));
            if q < x.len() - 1 {
                assert(best_key(candidates, x[q]) < best_key(candidates, x[x.len() - 1]));
            }
        }
        assert(last == other);
        let front = x.drop_last();
        let rest = y.drop_last();
        assert forall|address: Ipv4Addr| front.contains(address) <==> rest.contains(address) by {
            lemma_front_contains(candidates, x, address);
            lemma_front_contains(candidates, y, address);
        }
        lemma_increasing_lists_are_equal(candidates, front, rest);
        assert(x =~= front.push(last));
        assert(y =~= rest.push(other));
    }
}

proof fn lemma_front_contains(
    candidates: Seq<(Ipv4Addr, AddressRank)>,
    x: Seq<Ipv4Addr>,
    address: Ipv4Addr,
)
    requires
        x.len() > 0,
        forall|i: int, j: int|
            0 <= i < j < x.len() ==> best_key(candidates, #[trigger] x[i]) < best_key(
                candidates,
                #[trigger] x[j],
            ),
    ensures
        x.drop_last().contains(address) <==> x.contains(address) && address != x[x.len() - 1],
{
    let front = x.drop_last();
    if front.contains(address) {
        let i = choose|i: int| 0 <= i < front.len() && front[i] == address;
        assert(x[i] == address);
        assert(best_key(candidates, x[i]) < best_key(candidates, x[x.len() - 1]));
    }
    if x.contains(address) && address != x[x.len() - 1] {
        let i = choose|i: int| 0 <= i < x.len() && x[i] == address;
        assert(front[i] == address);
    }
}

/// A candidate's best place is no worse than its own, and belongs to one of its
/// ranks.
proof fn lemma_best_key(candidates: Seq<(Ipv4Addr, AddressRank)>, address: Ipv4Addr)
    ensures
        forall|i: int|
            0 <= i < candidates.len() && (#[trigger] candidates[i]).0 == address ==> best_key(
                candidates,
                address,
            ) <= key_of(address, candidates[i].1),
        listed(candidates, address) ==> exists|i: int|
            0 <= i < candidates.len() && (#[trigger] candidates[i]).0 == address && best_key(
                candidates,
                address,
            ) == key_of(address, candidates[i].1),
        !listed(candidates, address) ==> best_key(candidates, address) == last_key(),
        best_key(candidates, address) <= last_key(),
    decreases candidates.len(),
{
    if candidates.len() > 0 {
        let front = candidates.drop_last();
        let (other, rank) = candidates.last();
        lemma_best_key(front, address);
        assert(candidates[candidates.len() - 1] == candidates.last());
        assert forall|i: int| 0 <= i < front.len() implies front[i] == candidates[i] by {}
        if listed(front, address) {
            let i = choose|i: int|
                0 <= i < front.len() && (#[trigger] front[i]).0 == address && best_key(
                    front,
                    address,
                ) == key_of(address, front[i].1);
            assert(candidates[i].0 == address);
        }
        if listed(candidates, address) && !listed(front, address) {
            let i = choose|i: int| 0 <= i < candidates.len() && (#[trigger] candidates[i]).0 == address;
            if i < front.len() {
                assert(front[i].0 == address);
            }
        }
        if listed(front, address) {
            let i = choose|i: int| 0 <= i < front.len() && (#[trigger] front[i]).0 == address;
            assert(candidates[i].0 == address);
        }
    }
}

/// An address in the making of the order, with its place.
#[derive(Debug, Clone, Copy, PartialEq, Eq, Structural)]
struct Placed {
    key: u64,
    address: Ipv4Addr,
}

spec fn placed_well(candidates: Seq<(Ipv4Addr, AddressRank)>, list: Seq<Placed>) -> bool {
    &&& forall|i: int, j: int|
        0 <= i < j < list.len() ==> (#[trigger] list[i]).key < (#[trigger] list[j]).key
    &&& forall|i: int|
        0 <= i < list.len() ==> (#[trigger] list[i]).key == best_key(candidates, list[i].address)
            && listed(candidates, list[i].address)
    &&& forall|k: int|
        0 <= k < candidates.len() ==> placed(list, (#[trigger] candidates[k]).0)
}

spec fn placed(list: Seq<Placed>, address: Ipv4Addr) -> bool {
    exists|i: int| 0 <= i < list.len() && (#[trigger] list[i]).address == address
}

/// What adding a candidate makes of the order: it takes its place, and its
/// address leaves a later one.
proof fn lemma_placed(
    candidates: Seq<(Ipv4Addr, AddressRank)>,
    before: Seq<Placed>,
    after: Seq<Placed>,
    at: int,
    i: int,
    added: Placed,
)
    requires
        candidates.len() > 0,
        candidates.last().0 == added.address,
        added.key == key_of(added.address, candidates.last().1),
        placed_well(candidates.drop_last(), before),
        0 <= at <= i <= before.len(),
        forall|j: int|
            0 <= j < at ==> (#[trigger] before[j]).key < added.key && before[j].address
                != added.address,
        forall|j: int| at <= j < before.len() ==> (#[trigger] before[j]).key >= added.key,
        forall|j: int| at <= j < i ==> (#[trigger] before[j]).address != added.address,
        i < before.len() ==> before[i].address == added.address && before[i].key != added.key,
        after == (if i < before.len() {
            before.remove(i)
        } else {
            before
        }).insert(at, added),
    ensures
        placed_well(candidates, after),
{
    let front = candidates.drop_last();
    assert forall|j: int| 0 <= j < after.len() implies #[trigger] after[j] == (if j < at {
        before[j]
    } else if j == at {
        added
    } else if j <= i {
        before[j - 1]
    } else {
        before[j]
    }) by {}
    // A place tells the address.
    assert forall|j: int| 0 <= j < before.len() && j != i implies (#[trigger] before[j]).key
        != added.key && before[j].address != added.address by {
        let other = before[j].address;
        lemma_best_key(front, other);
        if other == added.address {
            if i < before.len() {
                assert(before[i].key == best_key(front, added.address));
                assert(before[j].key == best_key(front, added.address));
                assert(before[i].key == before[j].key);
            }
        } else if before[j].key == added.key {
            assert(listed(front, other));
            let k = choose|k: int|
                0 <= k < front.len() && (#[trigger] front[k]).0 == other && best_key(front, other)
                    == key_of(other, front[k].1);
            assert(key_of(other, front[k].1) == key_of(added.address, candidates.last().1));
            lemma_keys_tell_addresses_apart(
                other,
                front[k].1,
                added.address,
                candidates.last().1,
            );
        }
    }
    lemma_best_key(front, added.address);
    assert(best_key(candidates, added.address) == added.key) by {
        if listed(front, added.address) {
            let k = choose|k: int| 0 <= k < front.len() && (#[trigger] front[k]).0 == added.address;
            assert(placed(before, front[k].0));
        }
    }
    assert forall|j: int| 0 <= j < after.len() implies (#[trigger] after[j]).key == best_key(
        candidates,
        after[j].address,
    ) && listed(candidates, after[j].address) by {
        lemma_listed_step(candidates, after[j].address);
    }
    assert forall|k: int| 0 <= k < candidates.len() implies placed(
        after,
        (#[trigger] candidates[k]).0,
    ) by {
        let address = candidates[k].0;
        if address == added.address {
            assert(after[at].address == address);
        } else {
            assert(front[k] == candidates[k]);
            assert(placed(before, front[k].0));
            let j = choose|j: int| 0 <= j < before.len() && (#[trigger] before[j]).address == address;
            if j < at {
                assert(after[j].address == address);
            } else if j < i {
                assert(after[j + 1].address == address);
            } else {
                assert(after[j].address == address);
            }
        }
    }
}

proof fn lemma_keys_tell_addresses_apart(
    x: Ipv4Addr,
    first_rank: AddressRank,
    y: Ipv4Addr,
    second_rank: AddressRank,
)
    requires
        key_of(x, first_rank) == key_of(y, second_rank),
    ensures
        x == y,
{
    assert(0 <= x.number() < 0x1_0000_0000);
    assert(0 <= y.number() < 0x1_0000_0000);
    assert(first_rank.place() == second_rank.place());
}

proof fn lemma_listed_step(candidates: Seq<(Ipv4Addr, AddressRank)>, address: Ipv4Addr)
    requires
        candidates.len() > 0,
    ensures
        listed(candidates, address) <==> listed(candidates.drop_last(), address)
            || candidates.last().0 == address,
{
    let front = candidates.drop_last();
    if listed(front, address) {
        let i = choose|i: int| 0 <= i < front.len() && (#[trigger] front[i]).0 == address;
        assert(candidates[i].0 == address);
    }
    if candidates.last().0 == address {
        assert(candidates[candidates.len() - 1].0 == address);
    }
    if listed(candidates, address) {
        let i = choose|i: int| 0 <= i < candidates.len() && (#[trigger] candidates[i]).0 == address;
        if i < front.len() {
            assert(front[i].0 == address);
        }
    }
}

/// Adds one more candidate to the order.
fn place(
    list: &mut Vec<Placed>,
    address: Ipv4Addr,
    rank: AddressRank,
    Ghost(candidates): Ghost<Seq<(Ipv4Addr, AddressRank)>>,
)
    requires
        candidates.len() > 0,
        candidates.last() == (address, rank),
        placed_well(candidates.drop_last(), old(list)@),
    ensures
        placed_well(candidates, final(list)@),
{
    let ghost front = candidates.drop_last();
    let key: u64 = rank.place_of() * 0x1_0000_0000 + address.bits();
    proof {
        lemma_best_key(front, address);
        assert forall|other: Ipv4Addr| #[trigger]
            listed(candidates, other) <==> listed(front, other) || other == address by {
            lemma_listed_step(candidates, other);
        }
    }
    let mut at: usize = 0;
    while at < list.len() && list[at].key < key
        invariant
            at <= list.len(),
            *list == *old(list),
            candidates.len() > 0,
            front == candidates.drop_last(),
            candidates.last() == (address, rank),
            key == key_of(address, rank),
            placed_well(front, list@),
            forall|other: Ipv4Addr| #[trigger]
                listed(candidates, other) <==> listed(front, other) || other == address,
            forall|j: int|
                0 <= j < at ==> (#[trigger] list@[j]).key < key && list@[j].address != address,
        decreases list.len() - at,
    {
        if list[at].address == address {
            proof {
                assert forall|k: int| 0 <= k < candidates.len() implies placed(
                    list@,
                    (#[trigger] candidates[k]).0,
                ) by {
                    if k < front.len() {
                        assert(front[k] == candidates[k]);
                    } else {
                        assert(list@[at as int].address == address);
                    }
                }
            }
            return;
        }
        at = at + 1;
    }
    let ghost before = list@;
    // Everything from here on stands at the new place or behind it.
    assert forall|j: int| at <= j < list.len() implies (#[trigger] list@[j]).key >= key by {
        if j > at {
            assert(list@[at as int].key < list@[j].key);
        }
    }
    let mut i: usize = at;
    while i < list.len() && list[i].address != address
        invariant
            at <= i <= list.len(),
            *list == *old(list),
            before == list@,
            forall|j: int| at <= j < i ==> (#[trigger] list@[j]).address != address,
        decreases list.len() - i,
    {
        i = i + 1;
    }
    if i < list.len() {
        if list[i].key == key {
            proof {
                assert forall|k: int| 0 <= k < candidates.len() implies placed(
                    list@,
                    (#[trigger] candidates[k]).0,
                ) by {
                    if k < front.len() {
                        assert(front[k] == candidates[k]);
                    } else {
                        assert(list@[i as int].address == address);
                    }
                }
            }
            return;
        }
        let _ = list.remove(i);
    }
    list.insert(at, Placed { key, address });
    proof {
        lemma_placed(
            candidates,
            before,
            list@,
            at as int,
            i as int,
            Placed { key, address },
        );
    }
}

/// Whether an address is one of a list.
fn holds(list: &Vec<Ipv4Addr>, address: Ipv4Addr) -> (r: bool)
    ensures
        r == list@.contains(address),
{
    let mut i: usize = 0;
    while i < list.len()
        invariant
            i <= list.len(),
            forall|j: int| 0 <= j < i ==> #[trigger] list@[j] != address,
        decreases list.len() - i,
    {
        if list[i] == address {
            assert(list@[i as int] == address);
            return true;
        }
        i = i + 1;
    }
    false
}

pub open spec fn other_than(address: Ipv4Addr) -> spec_fn(Ipv4Addr) -> bool {
    |other: Ipv4Addr| other != address
}

/// The list with an address at its front, and nowhere else.
pub open spec fn moved_to_front(list: Seq<Ipv4Addr>, address: Ipv4Addr) -> Seq<Ipv4Addr> {
    seq![address] + list.filter(other_than(address))
}

pub(crate) fn move_to_front(list: &Vec<Ipv4Addr>, address: Ipv4Addr) -> (r: Vec<Ipv4Addr>)
    ensures
        r@ == moved_to_front(list@, address),
{
    let mut out: Vec<Ipv4Addr> = Vec::new();
    out.push(address);
    proof {
        reveal(Seq::filter);
    }
    assert(list@.take(0).filter(other_than(address)) =~= seq![]);
    let mut i: usize = 0;
    while i < list.len()
        invariant
            i <= list.len(),
            out@ == seq![address] + list@.take(i as int).filter(other_than(address)),
        decreases list.len() - i,
    {
        proof {
            reveal(Seq::filter);
            assert(list@.take(i + 1).drop_last() =~= list@.take(i as int));
        }
        if list[i] != address {
            out.push(list[i]);
        }
        assert(out@ =~= seq![address] + list@.take(i + 1).filter(other_than(address)));
        i = i + 1;
    }
    assert(list@.take(list.len() as int) =~= list@);
    out
}

/// What the address of the default route makes of the order: it comes first
/// where it is a LAN address, and else last where it is not listed at all.
pub open spec fn with_default(
    list: Seq<Ipv4Addr>,
    candidates: Seq<(Ipv4Addr, AddressRank)>,
    default_route: Option<Ipv4Addr>,
) -> Seq<Ipv4Addr> {
    match default_route {
        Some(address) => if !address.usable() {
            list
        } else if candidates.contains((address, AddressRank::Lan)) {
            moved_to_front(list, address)
        } else if !list.contains(address) {
            list.push(address)
        } else {
            list
        },
        None => list,
    }
}

/// The addresses in the order in which peers should be told of them.
///
/// A tunnel takes over the default route, so the routing table alone would name
/// an address that no peer on the network can reach.
pub fn prefer_lan_addresses(
    candidates: &Vec<(Ipv4Addr, AddressRank)>,
    default_route: Option<Ipv4Addr>,
) -> (r: Vec<Ipv4Addr>)
    ensures
        exists|list: Seq<Ipv4Addr>| #[trigger]
            in_order(candidates@, list) && r@ == with_default(list, candidates@, default_route),
{
    let mut order: Vec<Placed> = Vec::new();
    let mut k: usize = 0;
    while k < candidates.len()
        invariant
            k <= candidates.len(),
            placed_well(candidates@.take(k as int), order@),
        decreases candidates.len() - k,
    {
        assert(candidates@.take(k + 1).drop_last() =~= candidates@.take(k as int));
        place(
            &mut order,
            candidates[k].0,
            candidates[k].1,
            Ghost(candidates@.take(k + 1)),
        );
        k = k + 1;
    }
    assert(candidates@.take(candidates.len() as int) =~= candidates@);
    let mut list: Vec<Ipv4Addr> = Vec::new();
    let mut i: usize = 0;
    while i < order.len()
        invariant
            i <= order.len(),
            list.len() == i,
            forall|j: int| 0 <= j < i ==> #[trigger] list@[j] == order@[j].address,
        decreases order.len() - i,
    {
        list.push(order[i].address);
        i = i + 1;
    }
    proof {
        assert forall|address: Ipv4Addr| #[trigger] list@.contains(address) <==> listed(
            candidates@,
            address,
        ) by {
            if list@.contains(address) {
                let j = choose|j: int| 0 <= j < list.len() && list@[j] == address;
                assert(order@[j].address == address);
            }
            if listed(candidates@, address) {
                let k = choose|k: int|
                    0 <= k < candidates.len() && (#[trigger] candidates@[k]).0 == address;
                assert(placed(order@, candidates@[k].0));
                let j = choose|j: int|
                    0 <= j < order.len() && (#[trigger] order@[j]).address == address;
                assert(list@[j] == address);
            }
        }
        assert forall|i: int, j: int| 0 <= i < j < list.len() implies best_key(
            candidates@,
            #[trigger] list@[i],
        ) < best_key(candidates@, #[trigger] list@[j]) by {
            assert(order@[i].key < order@[j].key);
        }
        assert(in_order(candidates@, list@));
    }
    match default_route {
        Some(address) => {
            if !usable_discovery_ipv4(address) {
                list
            } else if is_lan(candidates, address) {
                move_to_front(&list, address)
            } else {
                if !holds(&list, address) {
                    let ghost base = list@;
                    list.push(address);
                    assert(list@ == with_default(base, candidates@, default_route));
                }
                list
            }
        },
        None => list,
    }
}

/// Whether an address is listed as one of the LAN.
fn is_lan(candidates: &Vec<(Ipv4Addr, AddressRank)>, address: Ipv4Addr) -> (r: bool)
    ensures
        r == candidates@.contains((address, AddressRank::Lan)),
{
    let mut i: usize = 0;
    while i < candidates.len()
        invariant
            i <= candidates.len(),
            forall|j: int| 0 <= j < i ==> #[trigger] candidates@[j] != (address, AddressRank::Lan),
        decreases candidates.len() - i,
    {
        let (other, rank) = candidates[i];
        if other == address && rank == AddressRank::Lan {
            assert(candidates@[i as int] == (address, AddressRank::Lan));
            return true;
        }
        i = i + 1;
    }
    false
}

/// While this machine has a LAN address, the first address is one: a tunnel or
/// a bridge never comes first, whatever the default route says.
pub proof fn law_a_lan_address_comes_first(
    candidates: Seq<(Ipv4Addr, AddressRank)>,
    list: Seq<Ipv4Addr>,
    default_route: Option<Ipv4Addr>,
    lan: Ipv4Addr,
)
    requires
        in_order(candidates, list),
        candidates.contains((lan, AddressRank::Lan)),
    ensures
        with_default(list, candidates, default_route).len() > 0,
        candidates.contains(
            (with_default(list, candidates, default_route)[0], AddressRank::Lan),
        ),
{
    let k = choose|k: int| 0 <= k < candidates.len() && candidates[k] == (lan, AddressRank::Lan);
    assert(candidates[k].0 == lan);
    assert(list.contains(lan));
    let p = choose|p: int| 0 <= p < list.len() && list[p] == lan;
    let front = list[0];
    assert(best_key(candidates, front) <= best_key(candidates, lan)) by {
        if p > 0 {
            assert(best_key(candidates, list[0]) < best_key(candidates, list[p]));
        }
    }
    lemma_best_key(candidates, lan);
    lemma_best_key(candidates, front);
    assert(list.contains(front));
    let j = choose|j: int|
        0 <= j < candidates.len() && (#[trigger] candidates[j]).0 == front && best_key(
            candidates,
            front,
        ) == key_of(front, candidates[j].1);
    assert(candidates[j].1.place() == 0) by {
        assert(lan.number() < 0x1_0000_0000);
        assert(front.number() >= 0);
    }
    assert(candidates[j] == (front, AddressRank::Lan));
}

/// Every candidate is in the list, once, and besides them at most the address
/// of the default route.
pub proof fn law_every_address_is_announced_once(
    candidates: Seq<(Ipv4Addr, AddressRank)>,
    list: Seq<Ipv4Addr>,
    default_route: Option<Ipv4Addr>,
)
    requires
        in_order(candidates, list),
    ensures
        with_default(list, candidates, default_route).no_duplicates(),
        forall|address: Ipv4Addr| #[trigger]
            with_default(list, candidates, default_route).contains(address) <==> listed(
                candidates,
                address,
            ) || (default_route == Some(address) && address.usable()),
{
    assert(list.no_duplicates()) by {
        assert forall|i: int, j: int| 0 <= i < list.len() && 0 <= j < list.len() && i
            != j implies list[i] != list[j] by {
            if i < j {
                assert(best_key(candidates, list[i]) < best_key(candidates, list[j]));
            } else {
                assert(best_key(candidates, list[j]) < best_key(candidates, list[i]));
            }
        }
    }
    let r = with_default(list, candidates, default_route);
    match default_route {
        Some(default) => {
            if default.usable() && candidates.contains((default, AddressRank::Lan)) {
                lemma_moved_to_front(list, default);
                let k = choose|k: int|
                    0 <= k < candidates.len() && candidates[k] == (default, AddressRank::Lan);
                assert(candidates[k].0 == default);
                assert(listed(candidates, default));
            } else if default.usable() && !list.contains(default) {
                assert forall|address: Ipv4Addr| #[trigger]
                    r.contains(address) <==> list.contains(address) || address == default by {
                    if list.contains(address) {
                        let k = choose|k: int| 0 <= k < list.len() && list[k] == address;
                        assert(r[k] == address);
                    }
                    assert(r[list.len() as int] == default);
                }
                assert(r.no_duplicates()) by {
                    assert forall|i: int, j: int| 0 <= i < r.len() && 0 <= j < r.len() && i
                        != j implies r[i] != r[j] by {
                        if i == list.len() {
                            assert(list.contains(list[j]));
                        } else if j == list.len() {
                            assert(list.contains(list[i]));
                        }
                    }
                }
            }
        },
        None => {},
    }
    assert forall|address: Ipv4Addr| #[trigger]
        r.contains(address) <==> listed(candidates, address) || (default_route == Some(address)
            && address.usable()) by {
        assert(list.contains(address) <==> listed(candidates, address));
    }
}

proof fn lemma_filtered(list: Seq<Ipv4Addr>, address: Ipv4Addr)
    requires
        list.no_duplicates(),
    ensures
        list.filter(other_than(address)).no_duplicates(),
        forall|other: Ipv4Addr| #[trigger]
            list.filter(other_than(address)).contains(other) <==> list.contains(other) && other
                != address,
    decreases list.len(),
{
    reveal(Seq::filter);
    let rest = list.filter(other_than(address));
    if list.len() > 0 {
        let front = list.drop_last();
        let kept = front.filter(other_than(address));
        let last = list.last();
        lemma_filtered(front, address);
        assert(!front.contains(last)) by {
            if front.contains(last) {
                let k = choose|k: int| 0 <= k < front.len() && front[k] == last;
                assert(list[k] == list[list.len() - 1]);
            }
        }
        assert forall|other: Ipv4Addr| list.contains(other) <==> front.contains(other) || other
            == last by {
            if front.contains(other) {
                let k = choose|k: int| 0 <= k < front.len() && front[k] == other;
                assert(list[k] == other);
            }
            if list.contains(other) && other != last {
                let k = choose|k: int| 0 <= k < list.len() && list[k] == other;
                assert(front[k] == other);
            }
            assert(list[list.len() - 1] == last);
        }
        if last != address {
            assert(rest =~= kept.push(last));
            assert forall|other: Ipv4Addr| rest.contains(other) <==> kept.contains(other) || other
                == last by {
                if kept.contains(other) {
                    let k = choose|k: int| 0 <= k < kept.len() && kept[k] == other;
                    assert(rest[k] == other);
                }
                if rest.contains(other) && other != last {
                    let k = choose|k: int| 0 <= k < rest.len() && rest[k] == other;
                    assert(kept[k] == other);
                }
                assert(rest[rest.len() - 1] == last);
            }
            assert forall|i: int, j: int| 0 <= i < rest.len() && 0 <= j < rest.len() && i
                != j implies rest[i] != rest[j] by {
                if i < kept.len() {
                    assert(kept.contains(kept[i]));
                }
                if j < kept.len() {
                    assert(kept.contains(kept[j]));
                }
            }
        }
    }
}

/// Moving an address to the front of a list keeps what the list holds.
proof fn lemma_moved_to_front(list: Seq<Ipv4Addr>, address: Ipv4Addr)
    requires
        list.no_duplicates(),
    ensures
        moved_to_front(list, address).no_duplicates(),
        forall|other: Ipv4Addr| #[trigger]
            moved_to_front(list, address).contains(other) <==> list.contains(other) || other
                == address,
{
    let rest = list.filter(other_than(address));
    let r = moved_to_front(list, address);
    assert(r =~= seq![address] + rest);
    lemma_filtered(list, address);
    assert forall|other: Ipv4Addr| #[trigger]
        r.contains(other) <==> list.contains(other) || other == address by {
        if list.contains(other) && other != address {
            assert(rest.contains(other));
            let k = choose|k: int| 0 <= k < rest.len() && rest[k] == other;
            assert(r[k + 1] == other);
        }
        if other == address {
            assert(r[0] == other);
        }
        if r.contains(other) && other != address {
            let k = choose|k: int| 0 <= k < r.len() && r[k] == other;
            assert(rest[k - 1] == other);
            assert(rest.contains(other));
        }
    }
    assert(r.no_duplicates()) by {
        assert forall|i: int, j: int| 0 <= i < r.len() && 0 <= j < r.len() && i
            != j implies r[i] != r[j] by {
            if i > 0 {
                assert(rest.contains(rest[i - 1]));
            }
            if j > 0 {
                assert(rest.contains(rest[j - 1]));
            }
        }
    }
}

} // verus!
