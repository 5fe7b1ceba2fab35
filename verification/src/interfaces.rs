//! The network interfaces of this machine, and what they make of its addresses.

use crate::addresses::{
    classify_address, in_order, key_of, law_the_order_is_unique, move_to_front, moved_to_front,
    prefer_lan_addresses, rank_of, usable_discovery_ipv4, with_default, AddressRank, Ipv4Addr,
};
use crate::seqs::{first, lemma_first_step};
use crate::text::{
    blank, lemma_precedes_irreflexive, lemma_precedes_total, lemma_precedes_transitive, lowered,
    precedes, same_ignoring_ascii_case, stands_before, text_view, trim, trimmed,
};
use vstd::prelude::*;
use vstd::relations::{sorted_by, total_ordering};
use vstd::seq_lib::{group_to_multiset_ensures, lemma_sorted_unique};

verus! {

/// An IPv4 address of an interface, with the mask of its subnet.
#[derive(Debug, Clone, Copy, PartialEq, Eq, Structural)]
pub struct Subnet {
    pub address: Ipv4Addr,
    pub netmask: Ipv4Addr,
}

impl Subnet {
    /// Whether there is a subnet to broadcast on: a single address is the end
    /// of a tunnel.
    pub open spec fn is_network(self) -> bool {
        self.netmask != Ipv4Addr { a: 255, b: 255, c: 255, d: 255 }
    }
}

/// One address of an interface as the operating system reports it. `subnet` is
/// absent where the address is no IPv4 address.
#[derive(Debug, Clone)]
pub struct Interface {
    pub name: String,
    pub loopback: bool,
    pub subnet: Option<Subnet>,
}

pub struct InterfaceView {
    pub name: Seq<char>,
    pub loopback: bool,
    pub subnet: Option<Subnet>,
}

impl View for Interface {
    type V = InterfaceView;

    open spec fn view(&self) -> InterfaceView {
        InterfaceView { name: self.name@, loopback: self.loopback, subnet: self.subnet }
    }
}

pub open spec fn interface_views(v: Seq<Interface>) -> Seq<InterfaceView> {
    v.map_values(|interface: Interface| interface@)
}

/// The addresses of this machine's interfaces (`if_addrs::get_if_addrs`), or
/// nothing where the operating system does not tell them. What they are depends
/// on the machine, so nothing is claimed of them.
#[verifier::external_body]
fn interfaces_of_this_machine() -> (r: Option<Vec<Interface>>) {
    let interfaces = if_addrs::get_if_addrs().ok()?;
    let converted = interfaces.into_iter().map(|interface| {
        let loopback = interface.is_loopback();
        let subnet = match interface.addr {
            if_addrs::IfAddr::V4(v4) => {
                let ([a, b, c, d], [e, f, g, h]) = (v4.ip.octets(), v4.netmask.octets());
                let netmask = Ipv4Addr { a: e, b: f, c: g, d: h };
                Some(Subnet { address: Ipv4Addr { a, b, c, d }, netmask })
            },
            if_addrs::IfAddr::V6(_) => None,
        };
        Interface { name: interface.name, loopback, subnet }
    });
    Some(converted.collect())
}

// ---------------------------------------------------------------------------
// Candidates
// ---------------------------------------------------------------------------
/// An address that peers might reach this machine on.
#[derive(Debug, Clone)]
pub struct Candidate {
    pub name: String,
    pub address: Ipv4Addr,
    pub rank: AddressRank,
}

pub struct CandidateView {
    pub name: Seq<char>,
    pub address: Ipv4Addr,
    pub rank: AddressRank,
}

impl View for Candidate {
    type V = CandidateView;

    open spec fn view(&self) -> CandidateView {
        CandidateView { name: self.name@, address: self.address, rank: self.rank }
    }
}

pub open spec fn candidate_views(v: Seq<Candidate>) -> Seq<CandidateView> {
    v.map_values(|candidate: Candidate| candidate@)
}

/// Whether an interface offers an address to peers.
pub open spec fn offers_an_address() -> spec_fn(InterfaceView) -> bool {
    |interface: InterfaceView|
        !interface.loopback && (match interface.subnet {
            Some(subnet) => subnet.address.usable(),
            None => false,
        })
}

/// What an interface offers.
pub open spec fn offered() -> spec_fn(InterfaceView) -> CandidateView {
    |interface: InterfaceView|
        {
            let subnet = interface.subnet->0;
            CandidateView {
                name: interface.name,
                address: subnet.address,
                rank: rank_of(interface.name, subnet.address, subnet.is_network()),
            }
        }
}

/// The addresses that the interfaces offer, in the order of the interfaces.
pub open spec fn candidates_of(interfaces: Seq<InterfaceView>) -> Seq<CandidateView> {
    interfaces.filter(offers_an_address()).map_values(offered())
}

pub fn enumerate_candidates(interfaces: &Vec<Interface>) -> (r: Vec<Candidate>)
    ensures
        candidate_views(r@) == candidates_of(interface_views(interfaces@)),
{
    let mut out: Vec<Candidate> = Vec::new();
    let ghost all = interface_views(interfaces@);
    proof {
        reveal(Seq::filter);
        assert(candidate_views(out@) =~= candidates_of(all.take(0)));
    }
    let mut i: usize = 0;
    while i < interfaces.len()
        invariant
            all == interface_views(interfaces@),
            i <= interfaces.len(),
            candidate_views(out@) == candidates_of(all.take(i as int)),
        decreases interfaces.len() - i,
    {
        let interface = &interfaces[i];
        let ghost before = candidate_views(out@);
        proof {
            reveal(Seq::filter);
            assert(all.take(i + 1).drop_last() =~= all.take(i as int));
            assert(all.take(i + 1).last() == interface@);
        }
        let mut added = false;
        if !interface.loopback {
            if let Some(subnet) = interface.subnet {
                if usable_discovery_ipv4(subnet.address) {
                    let has_subnet = subnet.netmask != Ipv4Addr::new(255, 255, 255, 255);
                    let rank = classify_address(
                        interface.name.as_str(),
                        subnet.address,
                        has_subnet,
                    );
                    let candidate = Candidate {
                        name: interface.name.clone(),
                        address: subnet.address,
                        rank,
                    };
                    assert(candidate@ == offered()(interface@));
                    out.push(candidate);
                    assert(candidate_views(out@) =~= before.push(candidate@));
                    added = true;
                }
            }
        }
        proof {
            let kept = all.take(i as int).filter(offers_an_address());
            if added {
                assert(candidates_of(all.take(i + 1)) =~= before.push(offered()(interface@)));
            } else {
                assert(candidates_of(all.take(i + 1)) =~= before);
            }
        }
        i = i + 1;
    }
    assert(all.take(interfaces.len() as int) =~= all);
    out
}

// ---------------------------------------------------------------------------
// The list of interfaces
// ---------------------------------------------------------------------------
/// Best reachable first, by address within a rank and by name within an
/// address.
pub open spec fn best_first() -> spec_fn(CandidateView, CandidateView) -> bool {
    |x: CandidateView, y: CandidateView|
        key_of(x.address, x.rank) < key_of(y.address, y.rank) || (key_of(x.address, x.rank)
            == key_of(y.address, y.rank) && !precedes(y.name, x.name))
}

proof fn lemma_best_first_is_an_order()
    ensures
        total_ordering(best_first()),
{
    let r = best_first();
    assert forall|x: CandidateView| #[trigger] r(x, x) by {
        lemma_precedes_irreflexive(x.name);
    }
    assert forall|x: CandidateView, y: CandidateView| #[trigger]
        r(x, y) && #[trigger] r(y, x) implies x == y by {
        lemma_precedes_total(x.name, y.name);
        lemma_a_key_tells_address_and_rank(x.address, x.rank, y.address, y.rank);
    }
    assert forall|x: CandidateView, y: CandidateView, z: CandidateView| #[trigger]
        r(x, y) && #[trigger] r(y, z) implies r(x, z) by {
        if key_of(x.address, x.rank) == key_of(z.address, z.rank) && precedes(z.name, x.name) {
            lemma_precedes_total(x.name, y.name);
            if precedes(x.name, y.name) {
                lemma_precedes_transitive(z.name, x.name, y.name);
            }
        }
    }
    assert forall|x: CandidateView, y: CandidateView| #[trigger] r(x, y) || #[trigger] r(y, x) by {
        if precedes(x.name, y.name) && precedes(y.name, x.name) {
            lemma_precedes_transitive(x.name, y.name, x.name);
            lemma_precedes_irreflexive(x.name);
        }
    }
}

proof fn lemma_a_key_tells_address_and_rank(
    x: Ipv4Addr,
    first_rank: AddressRank,
    y: Ipv4Addr,
    second_rank: AddressRank,
)
    requires
        key_of(x, first_rank) == key_of(y, second_rank),
    ensures
        x == y,
        first_rank == second_rank,
{
    assert(0 <= x.number() < 0x1_0000_0000);
    assert(0 <= y.number() < 0x1_0000_0000);
    assert(first_rank.place() == second_rank.place());
}

/// Whether one candidate may stand before another.
fn stands_no_later(x: &Candidate, y: &Candidate) -> (r: bool)
    ensures
        r == best_first()(x@, y@),
{
    let first_place: u64 = x.rank.place_of();
    let second_place: u64 = y.rank.place_of();
    let first_key: u64 = first_place * 0x1_0000_0000 + x.address.bits();
    let second_key: u64 = second_place * 0x1_0000_0000 + y.address.bits();
    first_key < second_key || (first_key == second_key && !stands_before(
        y.name.as_str(),
        x.name.as_str(),
    ))
}

/// Puts a candidate into its place in a sorted list.
fn insert_in_place(list: &mut Vec<Candidate>, candidate: Candidate)
    requires
        sorted_by(candidate_views(old(list)@), best_first()),
    ensures
        sorted_by(candidate_views(final(list)@), best_first()),
        candidate_views(final(list)@).to_multiset() == candidate_views(
            old(list)@,
        ).to_multiset().insert(candidate@),
{
    let ghost before = candidate_views(list@);
    proof {
        lemma_best_first_is_an_order();
    }
    let mut at: usize = 0;
    while at < list.len() && stands_no_later(&list[at], &candidate)
        invariant
            *list == *old(list),
            before == candidate_views(list@),
            at <= list.len(),
            forall|j: int| 0 <= j < at ==> #[trigger] best_first()(before[j], candidate@),
        decreases list.len() - at,
    {
        assert(before[at as int] == list@[at as int]@);
        at = at + 1;
    }
    let ghost added = candidate@;
    list.insert(at, candidate);
    proof {
        let after = candidate_views(list@);
        let r = best_first();
        assert(after =~= before.insert(at as int, added));
        broadcast use group_to_multiset_ensures;

        assert(before.insert(at as int, added).to_multiset() =~= before.to_multiset().insert(added));
        if at < before.len() {
            assert(!r(before[at as int], added));
            assert(r(added, before[at as int]));
        }
        assert forall|i: int, j: int| 0 <= i < j < after.len() implies #[trigger] r(
            after[i],
            after[j],
        ) by {
            if j < at {
                assert(r(before[i], before[j]));
            } else if j == at {
                assert(r(before[i], added));
            } else if i < at {
                assert(r(before[i], before[j - 1]));
            } else if i == at {
                if j - 1 > at {
                    assert(r(before[at as int], before[j - 1]));
                }
            } else {
                assert(r(before[i - 1], before[j - 1]));
            }
        }
    }
}

/// The candidates, best first.
fn sort_candidates(candidates: Vec<Candidate>) -> (r: Vec<Candidate>)
    ensures
        candidate_views(r@) == candidate_views(candidates@).sort_by(best_first()),
{
    let mut rest = candidates;
    let mut out: Vec<Candidate> = Vec::new();
    let ghost all = candidate_views(candidates@);
    broadcast use group_to_multiset_ensures;

    assert(all.take(0) =~= seq![]);
    assert(candidate_views(out@) =~= seq![]);
    let ghost mut i: int = 0;
    while rest.len() > 0
        invariant
            0 <= i,
            i + rest.len() == all.len(),
            candidate_views(rest@) == all.skip(i),
            sorted_by(candidate_views(out@), best_first()),
            candidate_views(out@).to_multiset() == all.take(i).to_multiset(),
        decreases rest.len(),
    {
        let ghost before = candidate_views(rest@);
        let candidate = rest.remove(0);
        proof {
            broadcast use group_to_multiset_ensures;

            assert(candidate_views(rest@) =~= before.remove(0));
            assert(before[0] == candidate@);
            assert(all.take(i + 1) =~= all.take(i).push(candidate@));
            assert(candidate_views(rest@) =~= all.skip(i + 1));
        }
        insert_in_place(&mut out, candidate);
        proof {
            i = i + 1;
        }
    }
    proof {
        assert(all.take(i) =~= all);
        lemma_best_first_is_an_order();
        all.lemma_sort_by_ensures(best_first());
        lemma_sorted_unique(candidate_views(out@), all.sort_by(best_first()), best_first());
    }
    out
}

/// One local IPv4 interface, as it is listed to the user.
#[derive(Debug, Clone)]
pub struct NetworkInterface {
    /// What the operating system calls it.
    pub name: String,
    pub address: String,
    /// What the ranking made of it.
    pub kind: String,
}

pub struct NetworkInterfaceView {
    pub name: Seq<char>,
    pub address: Seq<char>,
    pub kind: Seq<char>,
}

impl View for NetworkInterface {
    type V = NetworkInterfaceView;

    open spec fn view(&self) -> NetworkInterfaceView {
        NetworkInterfaceView { name: self.name@, address: self.address@, kind: self.kind@ }
    }
}

pub open spec fn network_interface_views(v: Seq<NetworkInterface>) -> Seq<NetworkInterfaceView> {
    v.map_values(|interface: NetworkInterface| interface@)
}

/// How a candidate is listed.
pub open spec fn shown() -> spec_fn(CandidateView) -> NetworkInterfaceView {
    |candidate: CandidateView|
        NetworkInterfaceView {
            name: candidate.name,
            address: candidate.address.dotted(),
            kind: candidate.rank.kind(),
        }
}

/// The list that the user sees of the interfaces: those that offer an address,
/// best first.
pub open spec fn interface_list(interfaces: Seq<InterfaceView>) -> Seq<NetworkInterfaceView> {
    candidates_of(interfaces).sort_by(best_first()).map_values(shown())
}

pub fn list_interfaces(interfaces: &Vec<Interface>) -> (r: Vec<NetworkInterface>)
    ensures
        network_interface_views(r@) == interface_list(interface_views(interfaces@)),
{
    let sorted = sort_candidates(enumerate_candidates(interfaces));
    let ghost candidates = candidate_views(sorted@);
    let mut out: Vec<NetworkInterface> = Vec::new();
    let mut i: usize = 0;
    while i < sorted.len()
        invariant
            candidates == candidate_views(sorted@),
            i <= sorted.len(),
            network_interface_views(out@) =~= candidates.take(i as int).map_values(shown()),
        decreases sorted.len() - i,
    {
        let ghost before = network_interface_views(out@);
        let entry = NetworkInterface {
            name: sorted[i].name.clone(),
            address: sorted[i].address.text(),
            kind: sorted[i].rank.as_kind().to_string(),
        };
        out.push(entry);
        proof {
            assert(entry@ == shown()(candidates[i as int]));
            assert(network_interface_views(out@) =~= before.push(entry@));
        }
        i = i + 1;
    }
    assert(candidates.take(sorted.len() as int) =~= candidates);
    out
}

/// Every usable local IPv4 interface, best first; none where the operating
/// system does not tell them.
pub fn local_ipv4_interfaces() -> (r: Vec<NetworkInterface>)
    ensures
        exists|interfaces: Seq<InterfaceView>|
            network_interface_views(r@) == #[trigger] interface_list(interfaces),
{
    match interfaces_of_this_machine() {
        Some(interfaces) => list_interfaces(&interfaces),
        None => list_interfaces(&Vec::new()),
    }
}

// ---------------------------------------------------------------------------
// The pinned interface
// ---------------------------------------------------------------------------
/// The interface that the user pinned, if any.
///
/// The name is kept, never the address: an address belongs to one network, and
/// a machine that travels gets a new one at every stop.
#[derive(Debug)]
pub struct PreferredInterface {
    name: Option<String>,
}

/// What is kept of a name: nothing of a blank one.
pub open spec fn pinned_name(name: Option<Seq<char>>) -> Option<Seq<char>> {
    match name {
        Some(text) => if blank(text) {
            None
        } else {
            Some(trimmed(text))
        },
        None => None,
    }
}

impl View for PreferredInterface {
    type V = Option<Seq<char>>;

    closed spec fn view(&self) -> Option<Seq<char>> {
        text_view(self.name)
    }
}

impl PreferredInterface {
    /// No interface is pinned at first.
    pub fn new() -> (r: PreferredInterface)
        ensures
            r@ is None,
    {
        PreferredInterface { name: None }
    }
}

/// Pins the interface whose address peers should reach this machine on, or
/// none for the automatic ranking.
pub fn set_preferred_interface(preferred: &mut PreferredInterface, name: Option<String>)
    ensures
        final(preferred)@ == pinned_name(text_view(name)),
{
    preferred.name = match name {
        Some(text) => {
            let kept = trim(text.as_str());
            if kept.is_empty() {
                None
            } else {
                Some(kept.to_string())
            }
        },
        None => None,
    };
}

pub fn preferred_interface(preferred: &PreferredInterface) -> (r: Option<String>)
    ensures
        text_view(r) == preferred@,
{
    preferred.name.clone()
}

/// Whether a candidate is on the interface of that name.
pub open spec fn on_interface(name: Seq<char>) -> spec_fn(CandidateView) -> bool {
    |candidate: CandidateView| lowered(candidate.name) == lowered(name)
}

/// The addresses and ranks of the candidates.
pub open spec fn ranked() -> spec_fn(CandidateView) -> (Ipv4Addr, AddressRank) {
    |candidate: CandidateView| (candidate.address, candidate.rank)
}

/// The order with the address of the pinned interface at the front, while that
/// interface has one.
pub open spec fn with_pin(
    list: Seq<Ipv4Addr>,
    candidates: Seq<CandidateView>,
    preferred: Option<Seq<char>>,
) -> Seq<Ipv4Addr> {
    match preferred {
        Some(name) => match first(candidates, on_interface(name)) {
            Some(candidate) => moved_to_front(list, candidate.address),
            None => list,
        },
        None => list,
    }
}

/// Whether a list holds the addresses of the interfaces in the order in which
/// peers should be told of them.
pub open spec fn announced(
    interfaces: Seq<InterfaceView>,
    default_route: Option<Ipv4Addr>,
    preferred: Option<Seq<char>>,
    list: Seq<Ipv4Addr>,
) -> bool {
    let candidates = candidates_of(interfaces);
    let ranks = candidates.map_values(ranked());
    exists|order: Seq<Ipv4Addr>| #[trigger]
        in_order(ranks, order) && list == with_pin(
            with_default(order, ranks, default_route),
            candidates,
            preferred,
        )
}

/// The addresses of the interfaces, the one that peers should use first.
pub fn announced_addresses(
    interfaces: &Vec<Interface>,
    default_route: Option<Ipv4Addr>,
    preferred: &PreferredInterface,
) -> (r: Vec<Ipv4Addr>)
    ensures
        announced(interface_views(interfaces@), default_route, preferred@, r@),
{
    let candidates = enumerate_candidates(interfaces);
    let ghost views = candidate_views(candidates@);
    let mut ranks: Vec<(Ipv4Addr, AddressRank)> = Vec::new();
    let mut i: usize = 0;
    while i < candidates.len()
        invariant
            views == candidate_views(candidates@),
            i <= candidates.len(),
            ranks@ == views.take(i as int).map_values(ranked()),
        decreases candidates.len() - i,
    {
        ranks.push((candidates[i].address, candidates[i].rank));
        assert(ranks@ =~= views.take(i + 1).map_values(ranked()));
        i = i + 1;
    }
    assert(views.take(candidates.len() as int) =~= views);
    let ordered = prefer_lan_addresses(&ranks, default_route);
    match &preferred.name {
        Some(name) => {
            match pinned_address(&candidates, name.as_str()) {
                Some(address) => move_to_front(&ordered, address),
                None => ordered,
            }
        },
        None => ordered,
    }
}

/// The first address on the interface of that name.
fn pinned_address(candidates: &Vec<Candidate>, name: &str) -> (r: Option<Ipv4Addr>)
    ensures
        match first(candidate_views(candidates@), on_interface(name@)) {
            Some(candidate) => r == Some(candidate.address),
            None => r is None,
        },
{
    let ghost views = candidate_views(candidates@);
    let mut i: usize = 0;
    assert(views.skip(0) =~= views);
    while i < candidates.len()
        invariant
            views == candidate_views(candidates@),
            i <= candidates.len(),
            first(views, on_interface(name@)) == first(views.skip(i as int), on_interface(name@)),
        decreases candidates.len() - i,
    {
        proof {
            lemma_first_step(views, on_interface(name@), i as int);
        }
        if same_ignoring_ascii_case(candidates[i].name.as_str(), name) {
            return Some(candidates[i].address);
        }
        i = i + 1;
    }
    None
}

/// Every usable local IPv4 address, the one that peers should use first.
/// `default_route` is the address that the routing table would send from.
pub fn local_ipv4_addresses(
    default_route: Option<Ipv4Addr>,
    preferred: &PreferredInterface,
) -> (r: Vec<Ipv4Addr>)
    ensures
        exists|interfaces: Seq<InterfaceView>| #[trigger]
            announced(interfaces, default_route, preferred@, r@),
{
    match interfaces_of_this_machine() {
        Some(interfaces) => announced_addresses(&interfaces, default_route, preferred),
        None => announced_addresses(&Vec::new(), default_route, preferred),
    }
}

/// Every interface that is listed carries one of the four kinds and the text of
/// a usable address.
pub proof fn law_every_listed_interface_has_a_kind(interfaces: Seq<InterfaceView>, i: int)
    requires
        0 <= i < interface_list(interfaces).len(),
    ensures
        exists|rank: AddressRank| interface_list(interfaces)[i].kind == #[trigger] rank.kind(),
        exists|address: Ipv4Addr|
            address.usable() && interface_list(interfaces)[i].address
                == #[trigger] address.dotted(),
{
    let offering = interfaces.filter(offers_an_address());
    let candidates = candidates_of(interfaces);
    let sorted = candidates.sort_by(best_first());
    lemma_best_first_is_an_order();
    candidates.lemma_sort_by_ensures(best_first());
    let candidate = sorted[i];
    assert(sorted.contains(candidate));
    assert(candidates.contains(candidate));
    let k = choose|k: int| 0 <= k < candidates.len() && candidates[k] == candidate;
    interfaces.lemma_filter_pred(offers_an_address(), k);
    assert(candidate == offered()(offering[k]));
    assert(candidate.address.usable());
    assert(interface_list(interfaces)[i] == shown()(candidate));
}

/// A pinned interface that has an address brings it to the front.
pub proof fn law_a_pin_is_honoured(
    interfaces: Seq<InterfaceView>,
    default_route: Option<Ipv4Addr>,
    name: Seq<char>,
    list: Seq<Ipv4Addr>,
)
    requires
        announced(interfaces, default_route, Some(name), list),
        first(candidates_of(interfaces), on_interface(name)) is Some,
    ensures
        list.len() > 0,
        list[0] == (first(candidates_of(interfaces), on_interface(name))->0).address,
{
}

/// A pin is ignored while its interface has no address: the machine stays
/// reachable on the others.
pub proof fn law_a_pin_without_an_address_is_ignored(
    interfaces: Seq<InterfaceView>,
    default_route: Option<Ipv4Addr>,
    name: Seq<char>,
    list: Seq<Ipv4Addr>,
)
    requires
        first(candidates_of(interfaces), on_interface(name)) is None,
    ensures
        announced(interfaces, default_route, Some(name), list) == announced(
            interfaces,
            default_route,
            None,
            list,
        ),
{
}

/// The interfaces and the pins determine the addresses.
pub proof fn law_the_announced_addresses_are_unique(
    interfaces: Seq<InterfaceView>,
    default_route: Option<Ipv4Addr>,
    preferred: Option<Seq<char>>,
    x: Seq<Ipv4Addr>,
    y: Seq<Ipv4Addr>,
)
    requires
        announced(interfaces, default_route, preferred, x),
        announced(interfaces, default_route, preferred, y),
    ensures
        x == y,
{
    let candidates = candidates_of(interfaces);
    let ranks = candidates.map_values(ranked());
    let a = choose|order: Seq<Ipv4Addr>| #[trigger]
        in_order(ranks, order) && x == with_pin(
            with_default(order, ranks, default_route),
            candidates,
            preferred,
        );
    let b = choose|order: Seq<Ipv4Addr>| #[trigger]
        in_order(ranks, order) && y == with_pin(
            with_default(order, ranks, default_route),
            candidates,
            preferred,
        );
    law_the_order_is_unique(ranks, a, b);
}

} // verus!
