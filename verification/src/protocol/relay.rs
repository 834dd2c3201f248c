//! Messages to and from the relay.
//!
//! Floating-point values of the messages are carried by their bits.

use vstd::prelude::*;
use vstd::string::*;

use crate::text::{decimal, lemma_decimal, push_decimal};

verus! {

/// The registration of a peer.
#[derive(Debug, Clone)]
pub struct RegisterMessage {
    pub msg_type: String,
    pub session_id: String,
    pub role: String,
    pub local_port: u16,
    pub private_ip: Option<String>,
    pub prediction_mode: Option<String>,
    /// The bits of a percentage.
    pub prediction_range_extra_pct: Option<u64>,
    pub tcp_connections: Option<u32>,
    pub allow_fallback: Option<bool>,
    pub min_connections: Option<u32>,
    pub extra_ports: Vec<u16>,
    /// How many local ports are held while punching.
    pub punch_ports: Option<u32>,
}

impl RegisterMessage {
    pub fn new(
        session_id: &str,
        role: &str,
        local_port: u16,
        private_ip: Option<String>,
        prediction_mode: Option<String>,
        prediction_range_extra_pct: Option<u64>,
        tcp_connections: Option<u32>,
        allow_fallback: Option<bool>,
        min_connections: Option<u32>,
        extra_ports: Vec<u16>,
        punch_ports: Option<u32>,
    ) -> (m: RegisterMessage)
        ensures
            m.msg_type@ == "register"@,
            m.session_id@ == session_id@,
            m.role@ == role@,
            m.local_port == local_port,
            m.private_ip == private_ip,
            m.prediction_mode == prediction_mode,
            m.prediction_range_extra_pct == prediction_range_extra_pct,
            m.tcp_connections == tcp_connections,
            m.allow_fallback == allow_fallback,
            m.min_connections == min_connections,
            m.extra_ports == extra_ports,
            m.punch_ports == punch_ports,
    {
        RegisterMessage {
            msg_type: "register".to_string(),
            session_id: session_id.to_string(),
            role: role.to_string(),
            local_port,
            private_ip,
            prediction_mode,
            prediction_range_extra_pct,
            tcp_connections,
            allow_fallback,
            min_connections,
            extra_ports,
            punch_ports,
        }
    }
}

/// Newly bound ports of a peer.
#[derive(Debug, Clone)]
pub struct AddPortsMessage {
    pub msg_type: String,
    pub session_id: String,
    pub ports: Vec<u16>,
}

impl AddPortsMessage {
    pub fn new(session_id: &str, ports: Vec<u16>) -> (m: AddPortsMessage)
        ensures
            m.msg_type@ == "add_ports"@,
            m.session_id@ == session_id@,
            m.ports == ports,
    {
        AddPortsMessage {
            msg_type: "add_ports".to_string(),
            session_id: session_id.to_string(),
            ports,
        }
    }
}

/// A connection has come about.
#[derive(Debug, Clone)]
pub struct ConnEstablishedMessage {
    pub msg_type: String,
    pub connection_num: u32,
}

impl ConnEstablishedMessage {
    pub fn new(connection_num: u32) -> (m: ConnEstablishedMessage)
        ensures
            m.msg_type@ == "conn_established"@,
            m.connection_num == connection_num,
    {
        ConnEstablishedMessage { msg_type: "conn_established".to_string(), connection_num }
    }
}

/// A connection has been given up.
#[derive(Debug, Clone)]
pub struct ConnAbandonedMessage {
    pub msg_type: String,
    pub connection_num: u32,
    pub reason: Option<String>,
}

impl ConnAbandonedMessage {
    pub fn new(connection_num: u32, reason: Option<String>) -> (m: ConnAbandonedMessage)
        ensures
            m.msg_type@ == "conn_abandoned"@,
            m.connection_num == connection_num,
            m.reason == reason,
    {
        ConnAbandonedMessage { msg_type: "conn_abandoned".to_string(), connection_num, reason }
    }
}

/// A probe, from which the relay sees how the NAT of the peer allocates ports.
#[derive(Debug, Clone)]
pub struct ProbeMessage {
    pub msg_type: String,
    pub session_id: String,
    pub local_port: u16,
    pub probe_num: u32,
    /// Whether the relay should test on this probe how the NAT filters.
    pub filter_test: bool,
}

impl ProbeMessage {
    pub fn new(session_id: &str, local_port: u16, probe_num: u32) -> (m: ProbeMessage)
        ensures
            m.msg_type@ == "probe"@,
            m.session_id@ == session_id@,
            m.local_port == local_port,
            m.probe_num == probe_num,
            !m.filter_test,
    {
        ProbeMessage {
            msg_type: "probe".to_string(),
            session_id: session_id.to_string(),
            local_port,
            probe_num,
            filter_test: false,
        }
    }

    /// A probe on which the relay tests how the NAT filters.
    pub fn mit_filtertest(session_id: &str, local_port: u16, probe_num: u32) -> (m: ProbeMessage)
        ensures
            m.msg_type@ == "probe"@,
            m.session_id@ == session_id@,
            m.local_port == local_port,
            m.probe_num == probe_num,
            m.filter_test,
    {
        ProbeMessage {
            msg_type: "probe".to_string(),
            session_id: session_id.to_string(),
            local_port,
            probe_num,
            filter_test: true,
        }
    }
}

/// An address at which a peer may be reached.
#[derive(Debug, Clone)]
pub struct PeerAddressInfo {
    pub ip: String,
    pub port: u16,
    /// What kind of address it is; `local` for one in the peer's own network.
    pub addr_type: String,
}

/// What the relay has found out about a NAT.
#[derive(Debug, Clone, Default)]
pub struct NATAnalysis {
    pub scan_start: u16,
    pub scan_end: u16,
    pub pattern_type: String,
    /// Whether the ports that the NAT allocates have to be searched.
    pub needs_scan: bool,
    /// The smallest port that was observed.
    pub min_port: u16,
    /// The largest port that was observed.
    pub max_port: u16,
}

/// An element of an address as the relay sends it: a list of a host and a port.
#[derive(Debug, Clone)]
pub enum AddrPart {
    Text(String),
    /// A whole number that is not negative and has at most 64 bits.
    Unsigned(u64),
    Other,
}

/// A message from the relay.
#[derive(Debug, Clone)]
pub enum RelayMessage {
    Registered {
        your_public_addr: Vec<AddrPart>,
        /// The bits of the time of the relay.
        server_time: Option<u64>,
        probe_port: Option<u16>,
        probe_port2: Option<u16>,
        needs_probing: Option<bool>,
        filter_test: Option<bool>,
    },
    PeerInfo {
        peer_public_addr: Vec<AddrPart>,
        peer_local_port: u16,
        peer_addresses: Vec<PeerAddressInfo>,
        same_network: bool,
        peer_nat_analysis: Option<NATAnalysis>,
        your_nat_analysis: Option<NATAnalysis>,
        tcp_connections: Option<u32>,
        allow_fallback: Option<bool>,
        min_connections: Option<u32>,
        peer_extra_ports: Vec<u16>,
        connection_num: Option<u32>,
    },
    PeerAddedPorts { ports: Vec<u16> },
    PortsAddedAck { ports: Vec<u16> },
    Go {
        /// The bits of the time at which both sides start.
        start_at: u64,
        message: String,
        connection_num: Option<u32>,
    },
    RetryRequest { connection_num: u32 },
    RetryGranted { connection_num: u32 },
    RetryRejected { connection_num: u32, reason: String },
    Ping,
    KeepaliveAck,
    Error { message: String },
}

/// Host and port of an address that the relay sent: a text and a number that fits a port.
pub open spec fn addr_of(addr: Seq<AddrPart>) -> Option<(Seq<char>, u16)> {
    if addr.len() != 2 {
        None
    } else {
        match (addr[0], addr[1]) {
            (AddrPart::Text(ip), AddrPart::Unsigned(port)) => if port <= 65535 {
                Some((ip@, port as u16))
            } else {
                None
            },
            _ => None,
        }
    }
}

/// An address is a text and a number that fits a port, nothing more and nothing less, and both are
/// taken as they are.
pub proof fn law_address_is_host_and_port(addr: Seq<AddrPart>, ip: String, port: u64)
    ensures
        addr_of(seq![AddrPart::Text(ip), AddrPart::Unsigned(port)]) == if port < 65536 {
            Some((ip@, port as u16))
        } else {
            None
        },
        addr_of(addr) is Some ==> addr.len() == 2 && addr[0] is Text && addr[1] is Unsigned,
{
}

/// A line names its connection, so that lines for different connections differ.
pub proof fn law_lines_name_the_connection(kind: Seq<char>, a: u32, b: u32)
    requires
        numbered_line(kind, a) == numbered_line(kind, b),
    ensures
        a == b,
{
    reveal_strlit("{\"type\":\"");
    reveal_strlit("\",\"connection_num\":");
    reveal_strlit("}\n");
    let head = "{\"type\":\""@ + kind + "\",\"connection_num\":"@;
    let (x, y) = (numbered_line(kind, a), numbered_line(kind, b));
    let (p, q) = (decimal(a as nat), decimal(b as nat));
    assert(x == head + p + "}\n"@ && y == head + q + "}\n"@);
    assert(p.len() == q.len());
    assert forall|i: int| 0 <= i < p.len() implies p[i] == q[i] by {
        assert(x[head.len() + i] == p[i]);
        assert(y[head.len() + i] == q[i]);
    }
    assert(p =~= q);
    lemma_decimal(a as nat);
    lemma_decimal(b as nat);
}

impl RelayMessage {
    pub fn parse_addr(addr: &[AddrPart]) -> (r: Option<(String, u16)>)
        ensures
            match r {
                Some(v) => addr_of(addr@) == Some((v.0@, v.1)),
                None => addr_of(addr@) is None,
            },
    {
        if addr.len() != 2 {
            return None;
        }
        let ip: String = match &addr[0] {
            AddrPart::Text(text) => text.clone(),
            _ => {
                return None;
            },
        };
        match &addr[1] {
            AddrPart::Unsigned(port) => {
                if *port > 65535 {
                    None
                } else {
                    Some((ip, *port as u16))
                }
            },
            _ => None,
        }
    }
}

/// A line of JSON with a type and the number of a connection.
pub open spec fn numbered_line(kind: Seq<char>, connection_num: u32) -> Seq<char> {
    "{\"type\":\""@ + kind + "\",\"connection_num\":"@ + decimal(connection_num as nat)
        + "}\n"@
}

fn numbered(kind: &str, connection_num: u32) -> (line: String)
    ensures
        line@ == numbered_line(kind@, connection_num),
{
    let mut line: String = "{\"type\":\"".to_string();
    line.append(kind);
    line.append("\",\"connection_num\":");
    push_decimal(&mut line, connection_num as u64);
    line.append("}\n");
    line
}

/// The line that tells the relay that a connection may be punched.
pub fn ready_line(connection_num: u32) -> (line: String)
    ensures
        line@ == numbered_line("ready"@, connection_num),
{
    numbered("ready", connection_num)
}

/// The line that asks the relay for another try at a connection.
pub fn retry_request_line(connection_num: u32) -> (line: String)
    ensures
        line@ == numbered_line("retry_request"@, connection_num),
{
    numbered("retry_request", connection_num)
}

} // verus!
