//! The addresses on which a connection is punched.

use vstd::prelude::*;

use crate::protocol::relay::{NATAnalysis, PeerAddressInfo};
use crate::rounding::{spread_index, spread_position};
use crate::text::same_text;

verus! {

/// A socket address.
#[derive(Debug, Clone, Copy, PartialEq, Eq, Structural)]
pub enum Endpoint {
    V4 { ip: u32, port: u16 },
    V6 { ip: u128, port: u16, flowinfo: u32, scope_id: u32 },
}

impl Endpoint {
    pub open spec fn port_of(self) -> u16 {
        match self {
            Endpoint::V4 { port, .. } => port,
            Endpoint::V6 { port, .. } => port,
        }
    }

    pub fn port(&self) -> (port: u16)
        ensures
            port == self.port_of(),
    {
        match self {
            Endpoint::V4 { port, .. } => *port,
            Endpoint::V6 { port, .. } => *port,
        }
    }
}

/// Whether an address is an IPv4 address in 10.0.0.0/8, 172.16.0.0/12 or 192.168.0.0/16.
pub open spec fn private_v4(addr: Endpoint) -> bool {
    match addr {
        Endpoint::V4 { ip, .. } => {
            ||| 0x0A00_0000 <= ip <= 0x0AFF_FFFF
            ||| 0xAC10_0000 <= ip <= 0xAC1F_FFFF
            ||| 0xC0A8_0000 <= ip <= 0xC0A8_FFFF
        },
        Endpoint::V6 { .. } => false,
    }
}

/// Whether an address belongs to a private network.
pub fn is_private_v4(addr: &Endpoint) -> (private: bool)
    ensures
        private == private_v4(*addr),
{
    match addr {
        Endpoint::V4 { ip, .. } => {
            let ip: u32 = *ip;
            (0x0A00_0000 <= ip && ip <= 0x0AFF_FFFF) || (0xAC10_0000 <= ip && ip <= 0xAC1F_FFFF)
                || (0xC0A8_0000 <= ip && ip <= 0xC0A8_FFFF)
        },
        Endpoint::V6 { .. } => false,
    }
}

/// What is known of the peer.
#[derive(Debug, Clone)]
pub struct PeerInfo {
    pub peer_addresses: Vec<PeerAddressInfo>,
    /// Both peers are behind the same public address.
    pub same_network: bool,
    pub peer_nat_analysis: Option<NATAnalysis>,
    /// The analysis of the own NAT, which decides how many local ports are worth holding.
    pub own_nat_analysis: Option<NATAnalysis>,
}

/// An address on which a connection is punched.
#[derive(Debug, Clone, Copy, PartialEq, Eq, Structural)]
pub struct Target {
    pub addr: Endpoint,
    /// The address is in the same local network and reachable without NAT.
    pub is_lan: bool,
}

/// Whether one of the targets has this address.
pub open spec fn has_addr(targets: Seq<Target>, addr: Endpoint) -> bool {
    exists|i: int| 0 <= i < targets.len() && #[trigger] targets[i].addr == addr
}

/// Adds a target unless its address is there already.
pub open spec fn with_target(targets: Seq<Target>, t: Target) -> Seq<Target> {
    if has_addr(targets, t.addr) {
        targets
    } else {
        targets.push(t)
    }
}

/// The target for an announced address. An address counts as local if it is announced as such, or
/// if it is private and both peers are behind the same public address.
pub open spec fn target_for(info: PeerAddressInfo, addr: Endpoint, same_network: bool) -> Target {
    Target { addr, is_lan: info.addr_type@ == "local"@ || (same_network && private_v4(addr)) }
}

/// The targets for the announced addresses, each address once, in the order in which they were
/// announced. An address that is none is left out.
pub open spec fn collected(
    infos: Seq<PeerAddressInfo>,
    parsed: Seq<Option<Endpoint>>,
    same_network: bool,
) -> Seq<Target>
    decreases infos.len(),
{
    if infos.len() == 0 {
        Seq::empty()
    } else {
        let before = collected(infos.drop_last(), parsed, same_network);
        match parsed[infos.len() - 1] {
            Some(addr) => with_target(before, target_for(infos.last(), addr, same_network)),
            None => before,
        }
    }
}

pub open spec fn lan() -> spec_fn(Target) -> bool {
    |t: Target| t.is_lan
}

pub open spec fn wan() -> spec_fn(Target) -> bool {
    |t: Target| !t.is_lan
}

/// The targets with the local ones in front, otherwise in their order.
pub open spec fn lan_first(targets: Seq<Target>) -> Seq<Target> {
    targets.filter(lan()) + targets.filter(wan())
}

/// The ports in which the NAT of the peer has been seen to allocate: none if the bounds are not
/// known.
pub open spec fn band(analysis: Option<NATAnalysis>) -> (u16, u16) {
    match analysis {
        Some(a) => (a.min_port, a.max_port),
        None => (0, 0),
    }
}

pub open spec fn in_band(t: Target, band: (u16, u16)) -> bool {
    band.0 > 0 && band.0 <= t.addr.port_of() <= band.1
}

pub open spec fn inside(band: (u16, u16)) -> spec_fn(Target) -> bool {
    |t: Target| in_band(t, band)
}

pub open spec fn outside(band: (u16, u16)) -> spec_fn(Target) -> bool {
    |t: Target| !in_band(t, band)
}

/// The targets after the first `k` of `n` picks spread evenly over a source.
pub open spec fn picked(targets: Seq<Target>, source: Seq<Target>, n: nat, k: nat) -> Seq<Target>
    decreases k,
{
    if k == 0 {
        targets
    } else {
        with_target(
            picked(targets, source, n, (k - 1) as nat),
            source[spread_position((k - 1) as nat, source.len(), n) as int],
        )
    }
}

/// The targets after `n` picks spread evenly over a source.
pub open spec fn thinned(targets: Seq<Target>, source: Seq<Target>, n: nat) -> Seq<Target> {
    if n == 0 || source.len() == 0 {
        targets
    } else {
        picked(targets, source, n, n)
    }
}

/// At most `max` of the targets: the local ones and the first other one, then targets spread
/// evenly over the ports in which the NAT of the peer has been seen to allocate, and then, as far
/// as there is room, over the rest.
pub open spec fn limited(targets: Seq<Target>, max: nat, band: (u16, u16)) -> Seq<Target> {
    if targets.len() <= max {
        targets
    } else {
        let fixed = if targets.filter(lan()).len() + 1 <= max {
            targets.filter(lan()).len() + 1
        } else {
            max
        };
        let kept = targets.take(fixed as int);
        let rest = targets.skip(fixed as int);
        let inner = rest.filter(inside(band));
        let outer = rest.filter(outside(band));
        let source = if inner.len() == 0 {
            rest
        } else {
            inner
        };
        let first = thinned(kept, source, (max - kept.len()) as nat);
        if first.len() < max && outer.len() > 0 {
            thinned(first, outer, (max - first.len()) as nat)
        } else {
            first
        }
    }
}

/// How many targets a limit allows: one at least.
pub open spec fn allowed(max: usize) -> nat {
    if max >= 1 {
        max as nat
    } else {
        1
    }
}

/// The targets on which a connection is punched.
pub open spec fn targets_of(
    info: PeerInfo,
    parsed: Seq<Option<Endpoint>>,
    max_candidates: Option<usize>,
) -> Seq<Target> {
    let all = lan_first(collected(info.peer_addresses@, parsed, info.same_network));
    match max_candidates {
        None => all,
        Some(max) => limited(all, allowed(max), band(info.peer_nat_analysis)),
    }
}

fn contains_addr(targets: &Vec<Target>, addr: Endpoint) -> (found: bool)
    ensures
        found == has_addr(targets@, addr),
{
    let mut i: usize = 0;
    while i < targets.len()
        invariant
            i <= targets@.len(),
            forall|k: int| 0 <= k < i ==> (#[trigger] targets@[k]).addr != addr,
        decreases targets@.len() - i,
    {
        if targets[i].addr == addr {
            return true;
        }
        i = i + 1;
    }
    false
}

fn add_target(targets: &mut Vec<Target>, t: Target)
    ensures
        final(targets)@ == with_target(old(targets)@, t),
{
    if !contains_addr(targets, t.addr) {
        targets.push(t);
    }
}

fn collect(info: &PeerInfo, parsed: &Vec<Option<Endpoint>>) -> (out: Vec<Target>)
    requires
        parsed@.len() == info.peer_addresses@.len(),
    ensures
        out@ == collected(info.peer_addresses@, parsed@, info.same_network),
{
    let mut out: Vec<Target> = Vec::new();
    let mut i: usize = 0;
    assert(info.peer_addresses@.take(0) == Seq::<PeerAddressInfo>::empty());
    while i < info.peer_addresses.len()
        invariant
            i <= info.peer_addresses@.len() == parsed@.len(),
            out@ == collected(info.peer_addresses@.take(i as int), parsed@, info.same_network),
        decreases info.peer_addresses@.len() - i,
    {
        assert(info.peer_addresses@.take(i + 1).drop_last() == info.peer_addresses@.take(i as int));
        if let Some(addr) = parsed[i] {
            let is_lan: bool = same_text(info.peer_addresses[i].addr_type.as_str(), "local") || (
            info.same_network && is_private_v4(&addr));
            add_target(&mut out, Target { addr, is_lan });
        }
        i = i + 1;
    }
    assert(info.peer_addresses@.take(i as int) == info.peer_addresses@);
    out
}

proof fn lemma_filter_step(s: Seq<Target>, f: spec_fn(Target) -> bool, i: int)
    requires
        0 <= i < s.len(),
    ensures
        s.take(i + 1).filter(f) == if f(s[i]) {
            s.take(i).filter(f).push(s[i])
        } else {
            s.take(i).filter(f)
        },
{
    reveal(Seq::filter);
    assert(s.take(i + 1).drop_last() == s.take(i));
}

/// Splits targets into the local ones and the others.
fn split_lan(targets: &Vec<Target>) -> (r: (Vec<Target>, Vec<Target>))
    ensures
        r.0@ == targets@.filter(lan()),
        r.1@ == targets@.filter(wan()),
{
    let mut yes: Vec<Target> = Vec::new();
    let mut no: Vec<Target> = Vec::new();
    let mut i: usize = 0;
    proof {
        reveal(Seq::filter);
    }
    while i < targets.len()
        invariant
            i <= targets@.len(),
            yes@ == targets@.take(i as int).filter(lan()),
            no@ == targets@.take(i as int).filter(wan()),
        decreases targets@.len() - i,
    {
        proof {
            lemma_filter_step(targets@, lan(), i as int);
            lemma_filter_step(targets@, wan(), i as int);
        }
        let t = targets[i];
        if t.is_lan {
            yes.push(t);
        } else {
            no.push(t);
        }
        i = i + 1;
    }
    assert(targets@.take(i as int) == targets@);
    (yes, no)
}

/// Splits targets into those in the band of the peer and the others.
fn split_band(targets: &Vec<Target>, band: (u16, u16)) -> (r: (Vec<Target>, Vec<Target>))
    ensures
        r.0@ == targets@.filter(inside(band)),
        r.1@ == targets@.filter(outside(band)),
{
    let mut yes: Vec<Target> = Vec::new();
    let mut no: Vec<Target> = Vec::new();
    let mut i: usize = 0;
    proof {
        reveal(Seq::filter);
    }
    while i < targets.len()
        invariant
            i <= targets@.len(),
            yes@ == targets@.take(i as int).filter(inside(band)),
            no@ == targets@.take(i as int).filter(outside(band)),
        decreases targets@.len() - i,
    {
        proof {
            lemma_filter_step(targets@, inside(band), i as int);
            lemma_filter_step(targets@, outside(band), i as int);
        }
        let t = targets[i];
        let port: u16 = t.addr.port();
        if band.0 > 0 && band.0 <= port && port <= band.1 {
            yes.push(t);
        } else {
            no.push(t);
        }
        i = i + 1;
    }
    assert(targets@.take(i as int) == targets@);
    (yes, no)
}

/// Adds `n` targets spread evenly over a source.
fn thin(targets: &mut Vec<Target>, source: &Vec<Target>, n: usize)
    requires
        source@.len() < 0x10_0000_0000_0000,
        n < 0x10_0000_0000_0000,
    ensures
        final(targets)@ == thinned(old(targets)@, source@, n as nat),
{
    if n == 0 || source.len() == 0 {
        return;
    }
    let mut i: usize = 0;
    while i < n
        invariant
            i <= n,
            0 < n < 0x10_0000_0000_0000,
            0 < source@.len() < 0x10_0000_0000_0000,
            targets@ == picked(old(targets)@, source@, n as nat, i as nat),
        decreases n - i,
    {
        let position: usize = spread_index(i, source.len(), n);
        add_target(targets, source[position]);
        i = i + 1;
    }
}

proof fn lemma_collected_len(
    infos: Seq<PeerAddressInfo>,
    parsed: Seq<Option<Endpoint>>,
    same_network: bool,
)
    ensures
        collected(infos, parsed, same_network).len() <= infos.len(),
    decreases infos.len(),
{
    if infos.len() > 0 {
        lemma_collected_len(infos.drop_last(), parsed, same_network);
    }
}

/// A list falls into the members that pass a test and those that fail it.
pub proof fn lemma_partition(s: Seq<Target>, f: spec_fn(Target) -> bool, g: spec_fn(Target) -> bool)
    requires
        forall|t: Target| #[trigger] f(t) != g(t),
    ensures
        s.filter(f).len() + s.filter(g).len() == s.len(),
    decreases s.len(),
{
    reveal(Seq::filter);
    if s.len() > 0 {
        lemma_partition(s.drop_last(), f, g);
        assert(f(s.last()) != g(s.last()));
    }
}

/// Collects the targets on which a connection is punched. `parsed` holds the announced addresses
/// as socket addresses, in their order, and nothing for an address that is none.
pub fn build_targets(
    peer_info: &PeerInfo,
    parsed: &Vec<Option<Endpoint>>,
    max_candidates: Option<usize>,
) -> (out: Vec<Target>)
    requires
        parsed@.len() == peer_info.peer_addresses@.len(),
        parsed@.len() < 0x10_0000_0000_0000,
    ensures
        out@ == targets_of(*peer_info, parsed@, max_candidates),
{
    let found = collect(peer_info, parsed);
    let (mut all, mut others) = split_lan(&found);
    let lan_count: usize = all.len();
    proof {
        lemma_collected_len(peer_info.peer_addresses@, parsed@, peer_info.same_network);
        lemma_partition(found@, lan(), wan());
    }
    all.append(&mut others);
    assert(all@ == lan_first(found@));
    let max: usize = match max_candidates {
        None => {
            return all;
        },
        Some(max) => if max >= 1 {
            max
        } else {
            1
        },
    };
    proof {
        lemma_lan_of_lan_first(found@);
    }
    let band: (u16, u16) = match &peer_info.peer_nat_analysis {
        Some(a) => (a.min_port, a.max_port),
        None => (0, 0),
    };
    limit_targets(all, lan_count, max, band)
}

fn limit_targets(all: Vec<Target>, lan_count: usize, max: usize, band: (u16, u16)) -> (out: Vec<
    Target,
>)
    requires
        lan_count == all@.filter(lan()).len(),
        all@.len() < 0x10_0000_0000_0000,
        max > 0,
    ensures
        out@ == limited(all@, max as nat, band),
{
    if all.len() <= max {
        return all;
    }
    let ghost sorted = all@;
    proof {
        lemma_partition(sorted, lan(), wan());
    }
    let fixed: usize = if lan_count < max {
        lan_count + 1
    } else {
        max
    };
    let mut out = all;
    let rest = out.split_off(fixed);
    assert(out@ == sorted.take(fixed as int));
    assert(rest@ == sorted.skip(fixed as int));
    let (inner, outer) = split_band(&rest, band);
    proof {
        lemma_partition(rest@, inside(band), outside(band));
    }
    let room: usize = max - fixed;
    if inner.len() == 0 {
        thin(&mut out, &rest, room);
    } else {
        thin(&mut out, &inner, room);
    }
    if out.len() < max && outer.len() > 0 {
        let left: usize = max - out.len();
        thin(&mut out, &outer, left);
    }
    out
}

/// The local members of a list that has them in front are those of the list.
pub proof fn lemma_lan_of_lan_first(s: Seq<Target>)
    ensures
        lan_first(s).filter(lan()) == s.filter(lan()),
{
    let (a, b) = (s.filter(lan()), s.filter(wan()));
    lemma_all_pass(s, lan());
    lemma_all_pass(s, wan());
    lemma_filter_all(a, lan());
    lemma_filter_none(b, lan());
    Seq::filter_distributes_over_add(a, b, lan());
    assert(a + Seq::<Target>::empty() == a);
}

pub proof fn lemma_all_pass(s: Seq<Target>, f: spec_fn(Target) -> bool)
    ensures
        forall|i: int| 0 <= i < s.filter(f).len() ==> f(#[trigger] s.filter(f)[i]),
    decreases s.len(),
{
    reveal(Seq::filter);
    if s.len() > 0 {
        lemma_all_pass(s.drop_last(), f);
    }
}

proof fn lemma_filter_all(s: Seq<Target>, f: spec_fn(Target) -> bool)
    requires
        forall|i: int| 0 <= i < s.len() ==> f(#[trigger] s[i]),
    ensures
        s.filter(f) == s,
    decreases s.len(),
{
    reveal(Seq::filter);
    if s.len() > 0 {
        lemma_filter_all(s.drop_last(), f);
        assert(s.drop_last().push(s.last()) == s);
    }
}

proof fn lemma_filter_none(s: Seq<Target>, f: spec_fn(Target) -> bool)
    requires
        forall|i: int| 0 <= i < s.len() ==> !f(#[trigger] s[i]),
    ensures
        s.filter(f) == Seq::<Target>::empty(),
    decreases s.len(),
{
    reveal(Seq::filter);
    if s.len() > 0 {
        lemma_filter_none(s.drop_last(), f);
    }
}

} // verus!
