//! One side of a session: which ports it binds, what it needs, and when it has enough connections.

use vstd::prelude::*;

verus! {

/// How many ports are tried.
pub const PORT_ATTEMPTS: u32 = 100;

/// The search for ports to bind: from a base upwards, leaving out those that are taken, and
/// starting over from zero behind the last port.
pub struct PortSearch {
    pub base: u16,
    /// How many ports are wanted.
    pub wanted: usize,
    pub attempts: u32,
    /// The ports that could be bound.
    pub found: Vec<u16>,
}

/// The port that is tried after `k` others.
pub open spec fn tried_port(base: u16, k: int) -> u16 {
    ((base + k) % 65536) as u16
}

/// Whether a port is one of the first `n` that are tried.
pub open spec fn among_tried(base: u16, n: int, port: u16) -> bool {
    exists|k: int| 0 <= k < n && port == #[trigger] tried_port(base, k)
}

impl PortSearch {
    pub open spec fn wf(self) -> bool {
        &&& self.attempts <= PORT_ATTEMPTS
        &&& self.found@.len() <= self.attempts
        &&& self.found@.len() <= self.wanted
        &&& forall|i: int|
            0 <= i < self.found@.len() ==> among_tried(
                self.base,
                self.attempts as int,
                #[trigger] self.found@[i],
            )
        &&& self.found@.no_duplicates()
    }

    /// Whether there is another port to try.
    pub open spec fn goes_on(self) -> bool {
        self.found@.len() < self.wanted && self.attempts < PORT_ATTEMPTS
    }

    /// A search for a port per wanted connection, and for one at least.
    pub fn start(base: u16, tcp_connections: u32) -> (s: PortSearch)
        ensures
            s.wf(),
            s.base == base,
            s.wanted == if tcp_connections >= 1 {
                tcp_connections
            } else {
                1
            },
            s.attempts == 0,
            s.found@.len() == 0,
    {
        let wanted: usize = if tcp_connections >= 1 {
            tcp_connections as usize
        } else {
            1
        };
        PortSearch { base, wanted, attempts: 0, found: Vec::new() }
    }

    /// The next port to try, if the search goes on.
    pub fn next_port(&self) -> (port: Option<u16>)
        requires
            self.wf(),
        ensures
            port == if self.goes_on() {
                Some(tried_port(self.base, self.attempts as int))
            } else {
                None
            },
    {
        if self.found.len() < self.wanted && self.attempts < PORT_ATTEMPTS {
            Some(((self.base as u32 + self.attempts) % 65536) as u16)
        } else {
            None
        }
    }

    /// Takes in whether the port could be bound.
    pub fn tried(&mut self, bound: bool)
        requires
            old(self).wf(),
            old(self).goes_on(),
        ensures
            final(self).wf(),
            final(self).base == old(self).base,
            final(self).wanted == old(self).wanted,
            final(self).attempts == old(self).attempts + 1,
            final(self).found@ == if bound {
                old(self).found@.push(tried_port(old(self).base, old(self).attempts as int))
            } else {
                old(self).found@
            },
    {
        let port: u16 = ((self.base as u32 + self.attempts) % 65536) as u16;
        let ghost before = self.found@;
        let ghost attempts = self.attempts as int;
        let ghost base = self.base;
        if bound {
            self.found.push(port);
        }
        self.attempts = self.attempts + 1;
        proof {
            assert(port == tried_port(base, attempts));
            assert forall|i: int| 0 <= i < self.found@.len() implies among_tried(
                base,
                attempts + 1,
                #[trigger] self.found@[i],
            ) by {
                if i < before.len() {
                    assert(self.found@[i] == before[i]);
                    assert(among_tried(base, attempts, before[i]));
                } else {
                    assert(self.found@[i] == tried_port(self.base, attempts));
                }
            }
            assert forall|i: int| 0 <= i < before.len() implies before[i] != port by {
                assert(among_tried(base, attempts, before[i]));
                let k = choose|k: int|
                    0 <= k < attempts && before[i] == #[trigger] tried_port(base, k);
                lemma_tried_ports_differ(base, k, attempts);
            }
            assert forall|i: int, j: int|
                0 <= i < self.found@.len() && 0 <= j < self.found@.len() && i
                    != j implies self.found@[i] != self.found@[j] by {
                if i < before.len() && j < before.len() {
                    assert(before[i] != before[j]);
                }
            }
        }
    }

    /// The port with which the peer registers: the first one that could be bound, or else the base.
    pub fn local_port(&self) -> (port: u16)
        ensures
            port == if self.found@.len() > 0 {
                self.found@[0]
            } else {
                self.base
            },
    {
        if self.found.len() > 0 {
            self.found[0]
        } else {
            self.base
        }
    }
}

proof fn lemma_tried_ports_differ(base: u16, j: int, k: int)
    requires
        0 <= j < k <= 100,
    ensures
        tried_port(base, j) != tried_port(base, k),
{
}

/// The ports are tried one after the other from the base on, and from zero on behind the last one.
pub proof fn law_ports_are_tried_upwards(base: u16, k: int)
    requires
        0 <= k <= 65535,
    ensures
        tried_port(base, 0) == base,
        base + k <= 65535 ==> tried_port(base, k) == base + k,
        base + k > 65535 ==> tried_port(base, k) == base + k - 65536,
{
}

/// The ports that are found are different ones, no more than wanted, each one of the hundred ports
/// from the base on.
pub proof fn law_found_ports_are_distinct(s: PortSearch, i: int, j: int)
    requires
        s.wf(),
        0 <= i < j < s.found@.len(),
    ensures
        s.found@[i] != s.found@[j],
        s.found@.len() <= s.wanted,
        s.found@.len() <= PORT_ATTEMPTS,
        among_tried(s.base, PORT_ATTEMPTS as int, s.found@[i]),
{
    assert(among_tried(s.base, s.attempts as int, s.found@[i]));
}

/// How the path is measured before, or instead of, a transfer.
#[derive(Debug, Clone, Copy, PartialEq, Eq, Structural)]
pub struct BenchOpts {
    pub megabytes: u64,
    pub rtt_probes: u32,
    pub sample_ms: u64,
    /// Transfer a file afterwards.
    pub mit_transfer: bool,
}

/// Whether a file is transferred: unless the path is only measured.
pub open spec fn transfers(bench: Option<BenchOpts>) -> bool {
    match bench {
        Some(b) => b.mit_transfer,
        None => true,
    }
}

/// A file is transferred unless the path is only measured.
pub proof fn law_measuring_alone_transfers_nothing(bench: BenchOpts)
    ensures
        transfers(None),
        transfers(Some(bench)) == bench.mit_transfer,
{
}

/// Whether a side needs a file: the sending one does if a file is transferred.
pub fn needs_file(sending: bool, bench: Option<BenchOpts>) -> (yes: bool)
    ensures
        yes == (sending && transfers(bench)),
{
    let transfer: bool = match bench {
        Some(b) => b.mit_transfer,
        None => true,
    };
    sending && transfer
}

/// How many connections are required: all of them, or, where fewer will do, the least number, but
/// one at least.
pub open spec fn required_connections(
    allow_fallback: bool,
    min_connections: u32,
    tcp_connections: u32,
) -> u32 {
    if !allow_fallback {
        tcp_connections
    } else if min_connections >= 1 {
        min_connections
    } else {
        1
    }
}

/// Without fallback every wanted connection is required, however few would do. With it the least
/// number is, however many are wanted, and never less than one.
pub proof fn law_fallback_decides_the_demand(min_connections: u32, tcp_connections: u32)
    ensures
        required_connections(false, min_connections, tcp_connections) == tcp_connections,
        min_connections > 0 ==> required_connections(true, min_connections, tcp_connections)
            == min_connections,
        required_connections(true, 0, tcp_connections) == 1,
{
}

/// How many connections are required.
pub fn min_required(allow_fallback: bool, min_connections: u32, tcp_connections: u32) -> (n: u32)
    ensures
        n == required_connections(allow_fallback, min_connections, tcp_connections),
{
    if !allow_fallback {
        tcp_connections
    } else if min_connections >= 1 {
        min_connections
    } else {
        1
    }
}

/// Whether so many connections are enough to go on with.
pub fn enough_connections(
    established: usize,
    allow_fallback: bool,
    min_connections: u32,
    tcp_connections: u32,
) -> (yes: bool)
    ensures
        yes == (established >= required_connections(
            allow_fallback,
            min_connections,
            tcp_connections,
        )),
{
    established >= min_required(allow_fallback, min_connections, tcp_connections) as usize
}

/// How many bytes a measurement of so many megabytes takes.
pub fn bench_bytes(megabytes: u64) -> (n: u64)
    requires
        megabytes * 1_048_576 <= u64::MAX,
    ensures
        n == megabytes * 1_048_576,
{
    megabytes * 1_048_576
}

} // verus!
