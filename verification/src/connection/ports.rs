//! Local ports: which are taken, and how many have to be bound.

use vstd::prelude::*;

verus! {

/// Whether a socket other than the one left out is bound to a port. A socket whose port is not
/// known is bound to none.
pub open spec fn taken(ports: Seq<Option<u16>>, port: u16, left_out: Option<usize>) -> bool {
    exists|i: int|
        0 <= i < ports.len() && left_out != Some(i as usize) && #[trigger] ports[i] == Some(port)
}

/// Whether another socket is bound to a port.
pub fn port_in_use(ports: &Vec<Option<u16>>, port: u16, exclude_index: Option<usize>) -> (used: bool)
    ensures
        used == taken(ports@, port, exclude_index),
{
    let mut i: usize = 0;
    while i < ports.len()
        invariant
            i <= ports@.len(),
            forall|k: int|
                0 <= k < i && exclude_index != Some(k as usize) ==> #[trigger] ports@[k] != Some(
                    port,
                ),
        decreases ports@.len() - i,
    {
        let left_out: bool = match exclude_index {
            Some(index) => index == i,
            None => false,
        };
        if !left_out {
            if let Some(p) = ports[i] {
                if p == port {
                    assert(ports@[i as int] == Some(port));
                    return true;
                }
            }
        }
        i = i + 1;
    }
    false
}

/// A port is taken exactly if a socket other than the one left out has it.
pub proof fn law_left_out_socket_frees_its_port(
    ports: Seq<Option<u16>>,
    port: u16,
    i: int,
    left_out: Option<usize>,
)
    requires
        0 <= i < ports.len() <= usize::MAX,
    ensures
        ports[i] == Some(port) && left_out != Some(i as usize) ==> taken(ports, port, left_out),
        (forall|k: int| 0 <= k < ports.len() && k != i ==> #[trigger] ports[k] != Some(port))
            ==> !taken(ports, port, Some(i as usize)),
        !ports.contains(Some(port)) ==> !taken(ports, port, left_out),
{
    if taken(ports, port, left_out) {
        let k = choose|k: int|
            0 <= k < ports.len() && left_out != Some(k as usize) && #[trigger] ports[k] == Some(
                port,
            );
        assert(ports.contains(ports[k]));
    }
}

/// How often a free port is asked for.
pub const BIND_ATTEMPTS: u32 = 10;

/// The search for a free port that no other socket has.
#[derive(Debug, Clone, Copy, PartialEq, Eq, Structural)]
pub struct BindSearch {
    /// How many attempts have been made.
    pub attempts: u32,
}

/// What the search says.
#[derive(Debug, Clone, Copy, PartialEq, Eq, Structural)]
pub enum BindStep {
    /// Ask for a free port.
    Bind,
    /// The port can be used.
    Use(u16),
    GiveUp,
}

impl BindSearch {
    pub open spec fn wf(self) -> bool {
        self.attempts < BIND_ATTEMPTS
    }

    pub fn start() -> (s: BindSearch)
        ensures
            s.attempts == 0,
            s.wf(),
    {
        BindSearch { attempts: 0 }
    }

    /// Takes in the port that an attempt has brought, if any: it is used unless it is zero or
    /// another socket has it.
    pub fn tried(
        &mut self,
        bound: Option<u16>,
        ports: &Vec<Option<u16>>,
        exclude_index: Option<usize>,
    ) -> (step: BindStep)
        requires
            old(self).wf(),
        ensures
            step == match bound {
                Some(port) if port != 0 && !taken(ports@, port, exclude_index) => BindStep::Use(
                    port,
                ),
                _ => if old(self).attempts + 1 < BIND_ATTEMPTS {
                    BindStep::Bind
                } else {
                    BindStep::GiveUp
                },
            },
            step is Bind ==> final(self).wf(),
            final(self).attempts == if step is Use {
                old(self).attempts as int
            } else {
                old(self).attempts + 1
            },
    {
        if let Some(port) = bound {
            if port != 0 && !port_in_use(ports, port, exclude_index) {
                return BindStep::Use(port);
            }
        }
        self.attempts = self.attempts + 1;
        if self.attempts < BIND_ATTEMPTS {
            BindStep::Bind
        } else {
            BindStep::GiveUp
        }
    }
}

/// How many sockets the sending side binds before the first connection.
pub fn extra_sockets(tcp_connections: u32, bound: u32) -> (n: u32)
    ensures
        n == if tcp_connections > bound {
            tcp_connections - bound
        } else {
            0
        },
{
    if tcp_connections > bound {
        tcp_connections - bound
    } else {
        0
    }
}

/// Whether a socket has to be bound before the one with this index can be used.
pub fn socket_missing(bound: usize, index: usize) -> (missing: bool)
    ensures
        missing == (bound <= index),
{
    bound <= index
}

/// Which socket a new one replaces on another try: the one of the connection, if there is one.
pub fn replaced_socket(index: usize, bound: usize) -> (replaced: Option<usize>)
    ensures
        replaced == if index < bound {
            Some(index)
        } else {
            None
        },
{
    if index < bound {
        Some(index)
    } else {
        None
    }
}

/// What has been told of the ports of the peer.
pub struct PortNotifier {
    last: Vec<u16>,
}

impl PortNotifier {
    /// The ports that were told last.
    pub closed spec fn told(self) -> Seq<u16> {
        self.last@
    }

    pub fn new() -> (n: PortNotifier)
        ensures
            n.told() == Seq::<u16>::empty(),
    {
        PortNotifier { last: Vec::new() }
    }

    /// Takes in the ports of the peer; tells whether they are news: there are some, and they are
    /// not those that were told last.
    pub fn observe(&mut self, ports: Vec<u16>) -> (news: bool)
        ensures
            news == (ports@.len() > 0 && ports@ != old(self).told()),
            final(self).told() == if news {
                ports@
            } else {
                old(self).told()
            },
    {
        if ports.len() == 0 || same_list(&ports, &self.last) {
            return false;
        }
        self.last = ports;
        true
    }
}

fn same_list(a: &Vec<u16>, b: &Vec<u16>) -> (same: bool)
    ensures
        same == (a@ == b@),
{
    if a.len() != b.len() {
        return false;
    }
    let mut i: usize = 0;
    while i < a.len()
        invariant
            i <= a@.len() == b@.len(),
            forall|k: int| 0 <= k < i ==> a@[k] == b@[k],
        decreases a@.len() - i,
    {
        if a[i] != b[i] {
            return false;
        }
        i = i + 1;
    }
    assert(a@ =~= b@);
    true
}

} // verus!
