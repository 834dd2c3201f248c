//! The relay: its address, the registration, and the probing of the own NAT.

use vstd::prelude::*;
use vstd::slice::slice_subrange;
use vstd::string::*;

use crate::protocol::relay::{addr_of, RelayMessage};
use crate::text::{
    chars_of, decimal, is_digit, law_decimal_reads_back, law_only_white_space_is_trimmed,
    lemma_decimal, parse_unsigned, text_of, trim, trimmed, trimmed_back, trimmed_front, unsigned_value, white_space,
};

verus! {

/// What a session with the relay has agreed on.
#[derive(Debug, Clone, Copy, PartialEq, Eq, Structural)]
pub struct Session {
    /// The bits of the seconds by which the clock of the relay is ahead.
    pub time_offset: u64,
    pub tcp_connections: u32,
    pub allow_fallback: bool,
    pub min_connections: u32,
    pub probe_port: Option<u16>,
    /// Whether the own NAT allocates per destination or per connection, if known.
    pub mapping_stable: Option<bool>,
}

/// What an address in text form stands for.
pub enum HostPort {
    /// There is no place where host and port part.
    Invalid,
    /// The port is none; this is its text.
    BadPort(Seq<char>),
    Parts(Seq<char>, u16),
}

/// Where a character stands first.
pub open spec fn first_of(s: Seq<char>, c: char) -> Option<int>
    decreases s.len(),
{
    if s.len() == 0 {
        None
    } else if s[0] == c {
        Some(0)
    } else {
        match first_of(s.skip(1), c) {
            Some(i) => Some(i + 1),
            None => None,
        }
    }
}

/// Where a character stands last.
pub open spec fn last_of(s: Seq<char>, c: char) -> Option<int>
    decreases s.len(),
{
    if s.len() == 0 {
        None
    } else if s.last() == c {
        Some(s.len() - 1)
    } else {
        last_of(s.drop_last(), c)
    }
}

/// The text without the colons in front.
pub open spec fn without_colons(s: Seq<char>) -> Seq<char>
    decreases s.len(),
{
    if s.len() > 0 && s[0] == ':' {
        without_colons(s.skip(1))
    } else {
        s
    }
}

pub open spec fn with_port(host: Seq<char>, port: Seq<char>) -> HostPort {
    match unsigned_value(port, 65535) {
        Some(n) => HostPort::Parts(host, n as u16),
        None => HostPort::BadPort(port),
    }
}

/// What an address stands for, white space at its ends aside: a host in square brackets with the
/// port behind them and behind any colons, or a host and a port that the last colon parts.
pub open spec fn host_port(input: Seq<char>) -> HostPort {
    let s = trimmed(input);
    if s.len() > 0 && s[0] == '[' {
        match first_of(s, ']') {
            Some(end) => with_port(s.subrange(1, end), without_colons(s.skip(end + 1))),
            None => HostPort::Invalid,
        }
    } else {
        match last_of(s, ':') {
            Some(i) => with_port(s.take(i), s.skip(i + 1)),
            None => HostPort::Invalid,
        }
    }
}

pub proof fn lemma_first_of(s: Seq<char>, c: char)
    ensures
        match first_of(s, c) {
            Some(i) => 0 <= i < s.len() && s[i] == c && (forall|k: int| 0 <= k < i ==> s[k] != c),
            None => forall|k: int| 0 <= k < s.len() ==> s[k] != c,
        },
    decreases s.len(),
{
    if s.len() > 0 && s[0] != c {
        let rest = s.skip(1);
        lemma_first_of(rest, c);
        assert forall|k: int| 0 < k < s.len() implies s[k] == rest[k - 1] by {}
    }
}

pub proof fn lemma_last_of(s: Seq<char>, c: char)
    ensures
        match last_of(s, c) {
            Some(i) => 0 <= i < s.len() && s[i] == c && (forall|k: int|
                i < k < s.len() ==> s[k] != c),
            None => forall|k: int| 0 <= k < s.len() ==> s[k] != c,
        },
    decreases s.len(),
{
    if s.len() > 0 && s.last() != c {
        let rest = s.drop_last();
        lemma_last_of(rest, c);
        assert forall|k: int| 0 <= k < s.len() - 1 implies s[k] == rest[k] by {}
    }
}

/// Why an address cannot be used.
#[derive(Debug, Clone)]
pub enum HostPortFault {
    InvalidAddress,
    /// The text that stands for no port.
    InvalidPort(String),
}

fn finish_host_port(host: &[char], port: &[char]) -> (r: Result<(String, u16), HostPortFault>)
    ensures
        match with_port(host@, port@) {
            HostPort::Parts(h, n) => r matches Ok(v) && v.0@ == h && v.1 == n,
            HostPort::BadPort(text) => r matches Err(HostPortFault::InvalidPort(t)) && t@ == text,
            HostPort::Invalid => false,
        },
{
    let text = text_of(port);
    match parse_unsigned(text.as_str(), 65535) {
        Some(n) => Ok((text_of(host), n as u16)),
        None => Err(HostPortFault::InvalidPort(text)),
    }
}

/// Parts an address into host and port.
pub fn parse_host_port(input: &str) -> (r: Result<(String, u16), HostPortFault>)
    ensures
        match host_port(input@) {
            HostPort::Parts(host, port) => r matches Ok(v) && v.0@ == host && v.1 == port,
            HostPort::BadPort(text) => r matches Err(HostPortFault::InvalidPort(t)) && t@ == text,
            HostPort::Invalid => r matches Err(HostPortFault::InvalidAddress),
        },
{
    let text = trim(input);
    let chars = chars_of(text.as_str());
    let ghost s = trimmed(input@);
    assert(chars@ == s);
    if chars.len() > 0 && chars[0] == '[' {
        let mut end: usize = 0;
        proof {
            lemma_first_of(s, ']');
        }
        while end < chars.len() && chars[end] != ']'
            invariant
                end <= chars@.len(),
                chars@ == s,
                forall|k: int| 0 <= k < end ==> s[k] != ']',
            decreases chars@.len() - end,
        {
            end = end + 1;
        }
        if end == chars.len() {
            return Err(HostPortFault::InvalidAddress);
        }
        let mut from: usize = end + 1;
        let ghost tail = s.skip(end + 1);
        assert(s.skip(from as int) == tail);
        while from < chars.len() && chars[from] == ':'
            invariant
                end < from <= chars@.len(),
                chars@ == s,
                without_colons(tail) == without_colons(s.skip(from as int)),
            ensures
                end < from <= chars@.len(),
                without_colons(tail) == s.skip(from as int),
            decreases chars@.len() - from,
        {
            assert(s.skip(from as int).skip(1) == s.skip(from + 1));
            from = from + 1;
        }
        let all = chars.as_slice();
        finish_host_port(slice_subrange(all, 1, end), slice_subrange(all, from, chars.len()))
    } else {
        let mut i: usize = chars.len();
        proof {
            lemma_last_of(s, ':');
        }
        while i > 0 && chars[i - 1] != ':'
            invariant
                i <= chars@.len(),
                chars@ == s,
                forall|k: int| i <= k < s.len() ==> s[k] != ':',
            decreases i,
        {
            i = i - 1;
        }
        if i == 0 {
            return Err(HostPortFault::InvalidAddress);
        }
        let all = chars.as_slice();
        assert(s.take(i - 1) == s.subrange(0, i - 1));
        assert(s.skip(i as int) == s.subrange(i as int, s.len() as int));
        finish_host_port(slice_subrange(all, 0, i - 1), slice_subrange(all, i, chars.len()))
    }
}

/// Host and port joined by a colon are parted again, if nothing needs trimming and the host does
/// not open a square bracket.
pub proof fn law_host_port_reads_back(host: Seq<char>, port: u16)
    requires
        host.len() > 0 ==> host[0] != '[' && !white_space(host[0]),
    ensures
        host_port(host + ":"@ + decimal(port as nat)) == HostPort::Parts(host, port),
{
    reveal_strlit(":");
    let digits = decimal(port as nat);
    let s = host + ":"@ + digits;
    law_decimal_reads_back(port as nat);
    assert(forall|i: int| 0 <= i < digits.len() ==> is_digit(#[trigger] digits[i])) by {
        lemma_decimal(port as nat);
    }
    assert(s[0] == if host.len() > 0 {
        host[0]
    } else {
        ':'
    });
    assert(trimmed_front(s) == s);
    assert(s.last() == digits[digits.len() - 1]);
    assert(trimmed_back(s) == s);
    lemma_last_of(s, ':');
    assert(s[host.len() as int] == ':');
    assert forall|k: int| host.len() < k < s.len() implies s[k] != ':' by {
        assert(s[k] == digits[k - host.len() - 1]);
    }
    assert(last_of(s, ':') == Some(host.len() as int));
    assert(s.take(host.len() as int) =~= host);
    assert(s.skip(host.len() as int + 1) =~= digits);
    assert(unsigned_value(digits, 65535) == Some(port as int));
}

/// A host in square brackets is parted from the port behind it, whatever else it holds, colons
/// included. Between them stand any number of colons, or none.
pub proof fn law_brackets_part_host_and_port(host: Seq<char>, colons: Seq<char>, port: u16)
    requires
        !host.contains(']'),
        forall|i: int| 0 <= i < colons.len() ==> #[trigger] colons[i] == ':',
    ensures
        host_port("["@ + host + "]"@ + colons + decimal(port as nat)) == HostPort::Parts(host, port),
{
    reveal_strlit("[");
    reveal_strlit("]");
    let digits = decimal(port as nat);
    let s = "["@ + host + "]"@ + colons + digits;
    let end = host.len() as int + 1;
    law_decimal_reads_back(port as nat);
    lemma_decimal(port as nat);
    assert(is_digit(digits[0]) && is_digit(digits[digits.len() - 1]));
    assert(s[0] == '[');
    assert(trimmed_front(s) == s);
    assert(s.last() == digits[digits.len() - 1]);
    assert(trimmed_back(s) == s);
    lemma_first_of(s, ']');
    assert(s[end] == ']');
    assert forall|k: int| 0 <= k < end implies s[k] != ']' by {
        if k > 0 {
            assert(s[k] == host[k - 1]);
            assert(host.contains(host[k - 1]));
        }
    }
    assert(first_of(s, ']') == Some(end));
    assert(s.subrange(1, end) =~= host);
    assert(s.skip(end + 1) =~= colons + digits);
    lemma_without_colons(colons, digits);
    assert(unsigned_value(digits, 65535) == Some(port as int));
}

proof fn lemma_without_colons(colons: Seq<char>, rest: Seq<char>)
    requires
        forall|i: int| 0 <= i < colons.len() ==> #[trigger] colons[i] == ':',
        rest.len() > 0,
        rest[0] != ':',
    ensures
        without_colons(colons + rest) == rest,
    decreases colons.len(),
{
    let s = colons + rest;
    if colons.len() > 0 {
        assert(s[0] == colons[0]);
        assert(s.skip(1) =~= colons.skip(1) + rest);
        lemma_without_colons(colons.skip(1), rest);
    } else {
        assert(s =~= rest);
    }
}

/// A host in square brackets is parted from the port behind it, whatever else it holds, colons
/// included.
pub proof fn law_bracketed_host_reads_back(host: Seq<char>, port: u16)
    requires
        !host.contains(']'),
    ensures
        host_port("["@ + host + "]:"@ + decimal(port as nat)) == HostPort::Parts(host, port),
{
    reveal_strlit("]");
    reveal_strlit("]:");
    law_brackets_part_host_and_port(host, seq![':'], port);
    assert("["@ + host + "]"@ + seq![':'] + decimal(port as nat) =~= "["@ + host + "]:"@ + decimal(
        port as nat,
    ));
}

/// An address without a colon is none, and neither is one in a square bracket that is not closed.
pub proof fn law_address_needs_a_port(s: Seq<char>)
    ensures
        !s.contains(':') && !s.contains('[') ==> host_port(s) is Invalid,
        s.len() > 0 && s[0] == '[' && !s.contains(']') ==> host_port(s) is Invalid,
{
    let (front, back) = law_only_white_space_is_trimmed(s);
    let t = trimmed(s);
    let at = front.len() as int;
    assert forall|i: int| 0 <= i < t.len() implies s.contains(#[trigger] t[i]) by {
        assert(s[at + i] == t[i]);
    }
    lemma_first_of(t, ']');
    lemma_last_of(t, ':');
    if s.len() > 0 && s[0] == '[' {
        if at > 0 {
            assert(white_space(front[0]));
            assert(front[0] == s[0]);
        }
        assert(at == 0);
        if t.len() == 0 {
            assert(white_space(back[0]));
            assert(back[0] == s[0]);
        }
        assert(t[0] == s[0]);
    }
}

/// What stands behind the last colon has to be a port: where it is no number, or one that is too
/// large for a port, that is told.
pub proof fn law_bad_port_is_told(host: Seq<char>, port: Seq<char>)
    requires
        host.len() > 0,
        host[0] != '[' && !white_space(host[0]),
        port.len() > 0 && !white_space(port.last()),
        !port.contains(':'),
        unsigned_value(port, 65535) is None,
    ensures
        host_port(host + ":"@ + port) == HostPort::BadPort(port),
{
    reveal_strlit(":");
    let s = host + ":"@ + port;
    assert(s[0] == host[0]);
    assert(trimmed_front(s) == s);
    assert(s.last() == port.last());
    assert(trimmed_back(s) == s);
    lemma_last_of(s, ':');
    assert(s[host.len() as int] == ':');
    assert forall|k: int| host.len() < k < s.len() implies s[k] != ':' by {
        assert(s[k] == port[k - host.len() - 1]);
        assert(port.contains(port[k - host.len() - 1]));
    }
    assert(last_of(s, ':') == Some(host.len() as int));
    assert(s.skip(host.len() as int + 1) =~= port);
}

/// The probes of the own NAT from the bound ports.
pub struct ProbeSchedule {
    pub ports: Vec<u16>,
    /// Whether the relay has a second port to probe against.
    pub two_targets: bool,
    pub count: u32,
}

/// One probe.
#[derive(Debug, Clone, Copy, PartialEq, Eq, Structural)]
pub struct Probe {
    /// The bound port from which it is sent.
    pub port: u16,
    /// Whether it goes to the second port of the relay.
    pub second: bool,
    /// Whether the relay tests on it how the NAT filters. It stays open until then.
    pub filter_test: bool,
}

impl ProbeSchedule {
    pub open spec fn targets(self) -> int {
        if self.two_targets {
            2
        } else {
            1
        }
    }

    pub open spec fn wf(self) -> bool {
        &&& self.ports@.len() > 0
        &&& self.count >= self.ports@.len() * self.targets() * 2
    }

    /// The probe with a number: the targets alternate, and then the ports do. The last probe is
    /// the one on which the filtering is tested.
    pub open spec fn at(self, i: int) -> Probe {
        Probe {
            port: self.ports@[(i / self.targets()) % self.ports@.len() as int],
            second: i % self.targets() == 1,
            filter_test: i + 1 == self.count,
        }
    }

    /// As many probes as wanted, but at least two from each port to each target; nothing without a
    /// port.
    pub fn new(ports: Vec<u16>, two_targets: bool, wanted: u32) -> (s: Option<ProbeSchedule>)
        requires
            ports@.len() * 4 <= u32::MAX,
        ensures
            s is Some <==> ports@.len() > 0,
            s matches Some(schedule) ==> {
                &&& schedule.wf()
                &&& schedule.ports@ == ports@
                &&& schedule.two_targets == two_targets
                &&& schedule.count == if wanted >= ports@.len() * schedule.targets() * 2 {
                    wanted as int
                } else {
                    ports@.len() * schedule.targets() * 2
                }
            },
    {
        if ports.len() == 0 {
            return None;
        }
        let needed: u32 = if two_targets {
            (ports.len() * 4) as u32
        } else {
            (ports.len() * 2) as u32
        };
        let count: u32 = if wanted >= needed {
            wanted
        } else {
            needed
        };
        Some(ProbeSchedule { ports, two_targets, count })
    }

    /// The probe with a number.
    pub fn probe(&self, i: u32) -> (p: Probe)
        requires
            self.wf(),
            i < self.count,
        ensures
            p == self.at(i as int),
    {
        let targets: usize = if self.two_targets {
            2
        } else {
            1
        };
        let turn: usize = i as usize / targets;
        let filter_test: bool = i + 1 == self.count;
        Probe {
            port: self.ports[turn % self.ports.len()],
            second: i as usize % targets == 1,
            filter_test,
        }
    }
}

/// From each port at least two probes go to each target, so that it shows whether the NAT gives
/// the same port again.
pub proof fn law_each_pair_is_probed_twice(s: ProbeSchedule, port: int, second: bool) -> (r: (
    int,
    int,
))
    requires
        s.wf(),
        0 <= port < s.ports@.len(),
        second ==> s.two_targets,
    ensures
        0 <= r.0 < r.1 < s.count,
        s.at(r.0).port == s.ports@[port],
        s.at(r.0).second == second,
        s.at(r.1).port == s.ports@[port],
        s.at(r.1).second == second,
{
    let n = s.ports@.len() as int;
    let t = s.targets();
    let offset = if second {
        1int
    } else {
        0
    };
    let a = port * t + offset;
    let b = (n + port) * t + offset;
    assert(a / t == port && a % t == offset && b / t == n + port && b % t == offset)
        by (nonlinear_arith)
        requires
            t == 1 || t == 2,
            0 <= offset < t,
            a == port * t + offset,
            b == (n + port) * t + offset,
    ;
    assert(0 <= a < b < n * t * 2) by (nonlinear_arith)
        requires
            t == 1 || t == 2,
            0 <= offset < t,
            0 <= port < n,
            a == port * t + offset,
            b == (n + port) * t + offset,
    ;
    vstd::arithmetic::div_mod::lemma_small_mod(port as nat, n as nat);
    vstd::arithmetic::div_mod::lemma_mod_add_multiples_vanish(port, n);
    (a, b)
}

/// With two targets the probes go to them in turn, two in a row from the same port; with one target
/// all go to it. The ports are served in turn, and the filtering is tested on the last probe alone.
pub proof fn law_probes_alternate(s: ProbeSchedule, i: int)
    requires
        s.wf(),
        0 <= i < s.count,
    ensures
        !s.two_targets ==> !s.at(i).second,
        s.two_targets ==> (s.at(i).second <==> i % 2 == 1),
        s.at(i).filter_test <==> i == s.count - 1,
        s.ports@.contains(s.at(i).port),
        s.two_targets && i % 2 == 0 ==> s.at(i + 1).port == s.at(i).port,
        !s.two_targets && i < s.ports@.len() ==> s.at(i).port == s.ports@[i],
        s.two_targets && i < 2 * s.ports@.len() ==> s.at(i).port == s.ports@[i / 2],
{
    let n = s.ports@.len() as int;
    let turn = i / s.targets();
    assert(turn >= 0) by (nonlinear_arith)
        requires
            turn == i / s.targets(),
            i >= 0,
            s.targets() == 1 || s.targets() == 2,
    ;
    vstd::arithmetic::div_mod::lemma_mod_bound(turn, n);
    if turn < n {
        vstd::arithmetic::div_mod::lemma_small_mod(turn as nat, n as nat);
    }
    if s.two_targets {
        assert(i % 2 == 0 ==> (i + 1) / 2 == i / 2);
        assert(i < 2 * n ==> i / 2 < n);
    } else {
        assert(i / 1 == i);
    }
}

/// A port under which the relay has seen a probe.
#[derive(Debug, Clone, Copy, PartialEq, Eq, Structural)]
pub struct Seen {
    pub local_port: u16,
    pub target_port: u16,
    pub nat_port: u16,
}

/// Whether two probes came from the same port and went to the same one.
pub open spec fn same_path(a: Seen, b: Seen) -> bool {
    a.local_port == b.local_port && a.target_port == b.target_port
}

/// Whether two of the probes took the same path.
pub open spec fn repeated(seen: Seq<Seen>) -> bool {
    exists|i: int, j: int|
        0 <= i < j < seen.len() && same_path(#[trigger] seen[i], #[trigger] seen[j])
}

/// Whether two of the probes took the same path and were seen under different ports.
pub open spec fn changed(seen: Seq<Seen>) -> bool {
    exists|i: int, j: int|
        0 <= i < j < seen.len() && same_path(#[trigger] seen[i], #[trigger] seen[j])
            && seen[i].nat_port != seen[j].nat_port
}

/// The own NAT is judged by probes on the same path alone, from the same port to the same one: two of
/// them under different ports tell that it changes, and without two of them nothing can be told. The
/// order of the probes does not matter.
pub proof fn law_mapping_is_judged_on_equal_paths(seen: Seq<Seen>, i: int, j: int)
    requires
        0 <= i < seen.len(),
        0 <= j < seen.len(),
        i != j,
    ensures
        seen[i].local_port == seen[j].local_port && seen[i].target_port == seen[j].target_port
            ==> repeated(seen),
        seen[i].local_port == seen[j].local_port && seen[i].target_port == seen[j].target_port
            && seen[i].nat_port != seen[j].nat_port ==> changed(seen),
        changed(seen) ==> repeated(seen),
        (forall|a: int, b: int|
            0 <= a < b < seen.len() ==> (#[trigger] seen[a]).local_port != (
            #[trigger] seen[b]).local_port || seen[a].target_port != seen[b].target_port)
            ==> !repeated(seen),
        (forall|a: int, b: int|
            0 <= a < b < seen.len() && (#[trigger] seen[a]).local_port == (
            #[trigger] seen[b]).local_port && seen[a].target_port == seen[b].target_port
                ==> seen[a].nat_port == seen[b].nat_port) ==> !changed(seen),
{
    let (a, b) = if i < j {
        (i, j)
    } else {
        (j, i)
    };
    if seen[i].local_port == seen[j].local_port && seen[i].target_port == seen[j].target_port {
        assert(same_path(seen[a], seen[b]));
    }
    if changed(seen) {
        let (x, y) = choose|x: int, y: int|
            0 <= x < y < seen.len() && same_path(#[trigger] seen[x], #[trigger] seen[y])
                && seen[x].nat_port != seen[y].nat_port;
        assert(same_path(seen[x], seen[y]));
    }
}

/// Whether the own NAT keeps a port per path: no if two probes on the same path were seen under
/// different ports, yes if there were such probes and none differed, and otherwise unknown.
pub fn bewerte_mapping(gesehen: &Vec<Seen>) -> (stable: Option<bool>)
    ensures
        stable == if changed(gesehen@) {
            Some(false)
        } else if repeated(gesehen@) {
            Some(true)
        } else {
            None
        },
{
    let mut decided: bool = false;
    let mut i: usize = 0;
    while i < gesehen.len()
        invariant
            i <= gesehen@.len(),
            decided == (exists|a: int, b: int|
                0 <= a < b < gesehen@.len() && a < i && same_path(
                    #[trigger] gesehen@[a],
                    #[trigger] gesehen@[b],
                )),
            forall|a: int, b: int|
                0 <= a < b < gesehen@.len() && a < i && same_path(
                    #[trigger] gesehen@[a],
                    #[trigger] gesehen@[b],
                ) ==> gesehen@[a].nat_port == gesehen@[b].nat_port,
        decreases gesehen@.len() - i,
    {
        let mut j: usize = i + 1;
        let ghost before = decided;
        while j < gesehen.len()
            invariant
                i < j <= gesehen@.len(),
                i < gesehen@.len(),
                decided == (before || exists|b: int|
                    i < b < j && same_path(gesehen@[i as int], #[trigger] gesehen@[b])),
                forall|b: int|
                    i < b < j && same_path(gesehen@[i as int], #[trigger] gesehen@[b])
                        ==> gesehen@[i as int].nat_port == gesehen@[b].nat_port,
            decreases gesehen@.len() - j,
        {
            if gesehen[i].local_port == gesehen[j].local_port && gesehen[i].target_port
                == gesehen[j].target_port {
                assert(same_path(gesehen@[i as int], gesehen@[j as int]));
                decided = true;
                if gesehen[i].nat_port != gesehen[j].nat_port {
                    return Some(false);
                }
            }
            j = j + 1;
        }
        i = i + 1;
    }
    if decided {
        Some(true)
    } else {
        None
    }
}

/// The unsigned number under a name in a JSON object, as `serde_json` reads it: nothing if the
/// text is no JSON, has no such member, or has another value there.
pub uninterp spec fn json_member(text: Seq<char>, name: Seq<char>) -> Option<u64>;

/// `serde_json::from_str` to a `Value`, then `Value::get` and `Value::as_u64`: the result depends
/// on the text and the name alone. The grammar of JSON is left unsaid.
#[verifier::external_body]
fn json_unsigned(text: &str, name: &str) -> (n: Option<u64>)
    ensures
        n == json_member(text@, name@),
{
    let value = serde_json::from_str::<serde_json::Value>(text).ok()?;
    value.get(name)?.as_u64()
}

/// A number as a port: nothing if it is none or too large for one.
pub fn port_of_number(number: Option<u64>) -> (port: Option<u16>)
    ensures
        port == match number {
            Some(n) => if n <= 65535 {
                Some(n as u16)
            } else {
                None
            },
            None => None,
        },
{
    match number {
        Some(n) => if n <= 65535 {
            Some(n as u16)
        } else {
            None
        },
        None => None,
    }
}

/// The port under which the relay has seen a probe, from its answer.
pub fn observed_nat_port(answer: &str) -> (port: Option<u16>)
    ensures
        port == match json_member(answer@, "your_nat_port"@) {
            Some(n) => if n <= 65535 {
                Some(n as u16)
            } else {
                None
            },
            None => None,
        },
{
    port_of_number(json_unsigned(answer, "your_nat_port"))
}

/// How many connections a registration asks for: nothing is said of a single one.
pub fn announced_connections(tcp_connections: u32) -> (n: Option<u32>)
    ensures
        n == if tcp_connections > 1 {
            Some(tcp_connections)
        } else {
            None
        },
{
    if tcp_connections > 1 {
        Some(tcp_connections)
    } else {
        None
    }
}

/// How many punch ports a registration announces: at least one.
pub fn announced_ports(punch_ports: u32) -> (n: Option<u32>)
    ensures
        n == Some(
            if punch_ports >= 1 {
                punch_ports
            } else {
                1
            },
        ),
{
    if punch_ports >= 1 {
        Some(punch_ports)
    } else {
        Some(1)
    }
}

/// What the relay has said to a registration.
#[derive(Debug, Clone)]
pub struct Registration {
    /// The public address under which the relay sees this peer.
    pub ip: String,
    pub port: u16,
    /// The bits of the time of the relay.
    pub server_time: Option<u64>,
    pub probe_port: Option<u16>,
    pub probe_port2: Option<u16>,
    pub needs_probing: bool,
    pub filter_test: bool,
}

/// What to do with a message while a registration is under way.
#[derive(Debug, Clone)]
pub enum RegistrationStep {
    Done(Registration),
    /// The relay asks whether the peer is alive.
    Keepalive,
    Failed(String),
    Ignore,
}

/// Deals with a message while a registration is under way. A confirmation without a usable address
/// is passed over.
pub fn registration_step(msg: RelayMessage) -> (r: RegistrationStep)
    ensures
        match msg {
            RelayMessage::Registered {
                your_public_addr,
                server_time,
                probe_port,
                probe_port2,
                needs_probing,
                filter_test,
            } => match addr_of(your_public_addr@) {
                Some(addr) => r matches RegistrationStep::Done(reg) && {
                    &&& reg.ip@ == addr.0
                    &&& reg.port == addr.1
                    &&& reg.server_time == server_time
                    &&& reg.probe_port == probe_port
                    &&& reg.probe_port2 == probe_port2
                    &&& reg.needs_probing == (needs_probing == Some(true))
                    &&& reg.filter_test == (filter_test == Some(true))
                },
                None => r is Ignore,
            },
            RelayMessage::Ping => r is Keepalive,
            RelayMessage::Error { message } => r matches RegistrationStep::Failed(text) && text@
                == "Server error: "@ + message@,
            _ => r is Ignore,
        },
{
    match msg {
        RelayMessage::Registered {
            your_public_addr,
            server_time,
            probe_port,
            probe_port2,
            needs_probing,
            filter_test,
        } => match RelayMessage::parse_addr(your_public_addr.as_slice()) {
            Some((ip, port)) => {
                let needs_probing: bool = match needs_probing {
                    Some(yes) => yes,
                    None => false,
                };
                let filter_test: bool = match filter_test {
                    Some(yes) => yes,
                    None => false,
                };
                RegistrationStep::Done(
                    Registration {
                        ip,
                        port,
                        server_time,
                        probe_port,
                        probe_port2,
                        needs_probing,
                        filter_test,
                    },
                )
            },
            None => RegistrationStep::Ignore,
        },
        RelayMessage::Ping => RegistrationStep::Keepalive,
        RelayMessage::Error { message } => {
            let mut text: String = "Server error: ".to_string();
            text.append(message.as_str());
            RegistrationStep::Failed(text)
        },
        _ => RegistrationStep::Ignore,
    }
}

/// How the own NAT is probed after a registration.
#[derive(Debug, Clone, Copy, PartialEq, Eq, Structural)]
pub enum Probing {
    Nothing,
    /// A single probe from a bound port, on which the relay tests how the NAT filters.
    FilterTest { probe_port: u16, local_port: u16 },
    /// Probes from the bound ports.
    FromBound { probe_port: u16, probe_port2: Option<u16> },
    /// Probes from any free ports.
    Ephemeral { probe_port: u16 },
}

/// How the own NAT is probed after a registration; `first_bound` is the first of the bound ports,
/// and zero if it is not known.
pub fn probing_after(reg: &Registration, first_bound: Option<u16>, from_bound: bool) -> (p: Probing)
    ensures
        p == match reg.probe_port {
            None => Probing::Nothing,
            Some(probe_port) => if reg.needs_probing {
                if from_bound {
                    Probing::FromBound { probe_port, probe_port2: reg.probe_port2 }
                } else {
                    Probing::Ephemeral { probe_port }
                }
            } else {
                match first_bound {
                    Some(local_port) if reg.filter_test && local_port != 0 => Probing::FilterTest {
                        probe_port,
                        local_port,
                    },
                    _ => Probing::Nothing,
                }
            },
        },
{
    let probe_port: u16 = match reg.probe_port {
        Some(port) => port,
        None => {
            return Probing::Nothing;
        },
    };
    if reg.needs_probing {
        return if from_bound {
            Probing::FromBound { probe_port, probe_port2: reg.probe_port2 }
        } else {
            Probing::Ephemeral { probe_port }
        };
    }
    match first_bound {
        Some(local_port) if reg.filter_test && local_port != 0 => Probing::FilterTest {
            probe_port,
            local_port,
        },
        _ => Probing::Nothing,
    }
}

/// The line that tells the relay that probing is over.
pub fn probes_complete_line() -> (line: String)
    ensures
        line@ == "{\"type\":\"probes_complete\"}\n"@,
{
    "{\"type\":\"probes_complete\"}\n".to_string()
}

/// The line that tells the relay that the peer is alive.
pub fn keepalive_line() -> (line: String)
    ensures
        line@ == "{\"type\":\"keepalive\"}\n"@,
{
    "{\"type\":\"keepalive\"}\n".to_string()
}

} // verus!
