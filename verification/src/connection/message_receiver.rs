//! Sorting the messages of the relay into queues.

use vstd::prelude::*;
use vstd::string::*;

use crate::connection::message_queue::{
    law_push_then_pop, lemma_position, popped, position, pushed, MessageQueues, QueuesView,
};
use crate::connection::types::GoSignal;
use crate::protocol::relay::{addr_of, RelayMessage};
use crate::punch::targets::PeerInfo;
use crate::text::{trim, trimmed};

verus! {

/// What became of a message.
#[derive(Debug, Clone, Copy, PartialEq, Eq, Structural)]
pub enum Routing {
    /// It waits in a queue.
    Queued,
    /// The public address of the peer is none, so the message is dropped.
    BadAddress,
    /// It says nothing that is waited for.
    Ignored,
}

/// What is known of a peer from the relay's announcement.
pub open spec fn announced_peer(msg: RelayMessage) -> Option<(u32, (PeerInfo, u32))> {
    match msg {
        RelayMessage::PeerInfo {
            peer_addresses,
            same_network,
            peer_nat_analysis,
            your_nat_analysis,
            tcp_connections,
            connection_num,
            ..
        } => Some(
            (
                match connection_num {
                    Some(n) => n,
                    None => 0,
                },
                (
                    PeerInfo {
                        peer_addresses,
                        same_network,
                        peer_nat_analysis,
                        own_nat_analysis: your_nat_analysis,
                    },
                    match tcp_connections {
                        Some(n) => n,
                        None => 1,
                    },
                ),
            ),
        ),
        _ => None,
    }
}

/// The queues after a message; `usable` tells whether host and port of the peer's public address
/// form a socket address.
pub open spec fn routed(queues: QueuesView, msg: RelayMessage, usable: bool) -> (
    QueuesView,
    Routing,
) {
    match msg {
        RelayMessage::PeerInfo { peer_public_addr, .. } => if addr_of(peer_public_addr@) is Some
            && usable {
            (
                QueuesView {
                    peer_infos: pushed(queues.peer_infos, announced_peer(msg).unwrap()),
                    ..queues
                },
                Routing::Queued,
            )
        } else {
            (queues, Routing::BadAddress)
        },
        RelayMessage::Go { start_at, connection_num, .. } => (
            QueuesView {
                go_signals: pushed(
                    queues.go_signals,
                    (
                        match connection_num {
                            Some(n) => n,
                            None => 0,
                        },
                        GoSignal { start_at },
                    ),
                ),
                ..queues
            },
            Routing::Queued,
        ),
        RelayMessage::PortsAddedAck { ports } => (
            QueuesView { ports_acks: pushed(queues.ports_acks, ports), ..queues },
            Routing::Queued,
        ),
        RelayMessage::RetryGranted { connection_num } => (
            QueuesView {
                retry_granted: pushed(queues.retry_granted, (connection_num, ())),
                ..queues
            },
            Routing::Queued,
        ),
        RelayMessage::RetryRejected { connection_num, reason } => (
            QueuesView {
                retry_rejected: pushed(queues.retry_rejected, (connection_num, reason)),
                ..queues
            },
            Routing::Queued,
        ),
        RelayMessage::Error { message } => (
            QueuesView { errors: pushed(queues.errors, message), ..queues },
            Routing::Queued,
        ),
        _ => (queues, Routing::Ignored),
    }
}

/// Sorts a message into its queue. New ports of the peer are not used: the targets come from the
/// announcement of the peer alone.
pub fn route_message(queues: &mut MessageQueues, msg: RelayMessage, usable: bool) -> (r: Routing)
    ensures
        (final(queues)@, r) == routed(old(queues)@, msg, usable),
        match msg {
            RelayMessage::PeerInfo {
                peer_addresses,
                same_network,
                peer_nat_analysis,
                your_nat_analysis,
                tcp_connections,
                connection_num,
                ..
            } => r is Queued ==> {
                let (conn, (info, wanted)) = final(queues)@.peer_infos.last();
                &&& info.peer_addresses == peer_addresses
                &&& info.same_network == same_network
                &&& info.peer_nat_analysis == peer_nat_analysis
                &&& info.own_nat_analysis == your_nat_analysis
                &&& Some(conn) == connection_num || (connection_num is None && conn == 0)
                &&& Some(wanted) == tcp_connections || (tcp_connections is None && wanted == 1)
            },
            RelayMessage::Go { start_at, .. } => final(queues)@.go_signals.last().1.start_at
                == start_at,
            _ => true,
        },
{
    match msg {
        RelayMessage::PeerInfo {
            peer_public_addr,
            peer_addresses,
            same_network,
            peer_nat_analysis,
            your_nat_analysis,
            tcp_connections,
            connection_num,
            ..
        } => {
            let conn: u32 = match connection_num {
                Some(n) => n,
                None => 0,
            };
            let wanted: u32 = match tcp_connections {
                Some(n) => n,
                None => 1,
            };
            if RelayMessage::parse_addr(peer_public_addr.as_slice()).is_some() && usable {
                let info = PeerInfo {
                    peer_addresses,
                    same_network,
                    peer_nat_analysis,
                    own_nat_analysis: your_nat_analysis,
                };
                queues.push_peer_info(conn, info, wanted);
                Routing::Queued
            } else {
                Routing::BadAddress
            }
        },
        RelayMessage::Go { start_at, connection_num, .. } => {
            let conn: u32 = match connection_num {
                Some(n) => n,
                None => 0,
            };
            queues.push_go(conn, GoSignal { start_at });
            Routing::Queued
        },
        RelayMessage::PortsAddedAck { ports } => {
            queues.push_ports_ack(ports);
            Routing::Queued
        },
        RelayMessage::RetryGranted { connection_num } => {
            queues.push_retry_granted(connection_num);
            Routing::Queued
        },
        RelayMessage::RetryRejected { connection_num, reason } => {
            queues.push_retry_rejected(connection_num, reason);
            Routing::Queued
        },
        RelayMessage::Error { message } => {
            queues.push_error(message);
            Routing::Queued
        },
        _ => Routing::Ignored,
    }
}

/// What the relay tells of a peer waits for the connection that it names, or for the first one, with
/// every field as the relay has sent it: the peer's addresses, whether both are in the same network,
/// the analysis of the peer's NAT as the peer's and that of the own NAT as the own one, and how many
/// connections the peer wants, one where it does not say. It is found there by whoever waits. It is
/// dropped exactly if the public address of the peer is none.
pub proof fn law_peer_is_handed_on(
    queues: QueuesView,
    msg: RelayMessage,
    usable: bool,
    conn: u32,
)
    requires
        msg is PeerInfo,
        match msg->PeerInfo_connection_num {
            Some(n) => conn == n,
            None => conn == 0,
        },
    ensures
        ({
            let (after, r) = routed(queues, msg, usable);
            let (found, left) = popped(after.peer_infos, conn);
            &&& after == (QueuesView { peer_infos: after.peer_infos, ..queues })
            &&& addr_of(msg->peer_public_addr@) is None || !usable ==> after == queues && r
                == Routing::BadAddress
            &&& addr_of(msg->peer_public_addr@) is Some && usable ==> {
                let (number, (info, wanted)) = after.peer_infos.last();
                &&& r == Routing::Queued
                &&& number == conn
                &&& info.peer_addresses == msg->peer_addresses
                &&& info.same_network == msg->same_network
                &&& info.peer_nat_analysis == msg->peer_nat_analysis
                &&& info.own_nat_analysis == msg->your_nat_analysis
                &&& match msg->PeerInfo_tcp_connections {
                    Some(n) => wanted == n,
                    None => wanted == 1,
                }
                &&& queues.peer_infos.len() < 100 && (forall|i: int|
                    0 <= i < queues.peer_infos.len() ==> (#[trigger] queues.peer_infos[i]).0
                        != conn) ==> found == Some((info, wanted)) && left == queues.peer_infos
            }
        }),
{
    lemma_position(queues.peer_infos, conn);
    if queues.peer_infos.len() < 100 && position(queues.peer_infos, conn) is None {
        let item = routed(queues, msg, usable).0.peer_infos.last().1;
        law_push_then_pop(queues.peer_infos, conn, item);
    }
}

/// The start signal waits for the connection that it names, or for the first one, with the time that
/// the relay has given, and is found there by whoever waits.
pub proof fn law_start_is_handed_on(queues: QueuesView, msg: RelayMessage, usable: bool, conn: u32)
    requires
        msg is Go,
        match msg->Go_connection_num {
            Some(n) => conn == n,
            None => conn == 0,
        },
    ensures
        ({
            let (after, r) = routed(queues, msg, usable);
            let (found, left) = popped(after.go_signals, conn);
            &&& r == Routing::Queued
            &&& after == (QueuesView { go_signals: after.go_signals, ..queues })
            &&& after.go_signals.last() == (conn, GoSignal { start_at: msg->start_at })
            &&& queues.go_signals.len() < 100 && (forall|i: int|
                0 <= i < queues.go_signals.len() ==> (#[trigger] queues.go_signals[i]).0 != conn)
                ==> found == Some(GoSignal { start_at: msg->start_at }) && left
                == queues.go_signals
        }),
{
    lemma_position(queues.go_signals, conn);
    if queues.go_signals.len() < 100 && position(queues.go_signals, conn) is None {
        law_push_then_pop(queues.go_signals, conn, GoSignal { start_at: msg->start_at });
    }
}

/// Each other message that is waited for becomes the last of its own kind, as the relay has sent it,
/// and leaves the other kinds alone. All further messages change nothing.
pub proof fn law_messages_go_to_their_queues(queues: QueuesView, msg: RelayMessage, usable: bool)
    ensures
        ({
            let (after, r) = routed(queues, msg, usable);
            match msg {
                RelayMessage::PeerInfo { .. } | RelayMessage::Go { .. } => true,
                RelayMessage::PortsAddedAck { ports } => {
                    &&& r == Routing::Queued
                    &&& after == (QueuesView { ports_acks: after.ports_acks, ..queues })
                    &&& after.ports_acks.last() == ports
                },
                RelayMessage::RetryGranted { connection_num } => {
                    &&& r == Routing::Queued
                    &&& after == (QueuesView { retry_granted: after.retry_granted, ..queues })
                    &&& after.retry_granted.last().0 == connection_num
                },
                RelayMessage::RetryRejected { connection_num, reason } => {
                    &&& r == Routing::Queued
                    &&& after == (QueuesView { retry_rejected: after.retry_rejected, ..queues })
                    &&& after.retry_rejected.last() == (connection_num, reason)
                },
                RelayMessage::Error { message } => {
                    &&& r == Routing::Queued
                    &&& after == (QueuesView { errors: after.errors, ..queues })
                    &&& after.errors.last() == message
                },
                RelayMessage::Registered { .. }
                | RelayMessage::PeerAddedPorts { .. }
                | RelayMessage::RetryRequest { .. }
                | RelayMessage::Ping
                | RelayMessage::KeepaliveAck => r == Routing::Ignored && after == queues,
            }
        }),
{
}

/// How the connection to the relay has ended.
#[derive(Debug, Clone, Copy, PartialEq, Eq, Structural)]
pub enum Closing {
    /// After everything was done.
    AfterShutdown,
    /// While the last connection was being established, when the relay may hang up.
    Finished,
    /// Unexpectedly.
    Unexpected,
}

pub open spec fn closing(queues: QueuesView) -> Closing {
    if queues.shutdown {
        Closing::AfterShutdown
    } else if queues.last_connection {
        Closing::Finished
    } else {
        Closing::Unexpected
    }
}

/// The end of the connection to the relay is in order once everything is done, or while the last
/// connection is being established, and otherwise it is not.
pub proof fn law_end_in_order(queues: QueuesView)
    ensures
        closing(queues) is Unexpected <==> !queues.shutdown && !queues.last_connection,
        closing(queues) is AfterShutdown <==> queues.shutdown,
{
}

/// Whether a queue of errors has grown by this text.
pub open spec fn error_added(before: QueuesView, after: QueuesView, text: Seq<char>) -> bool {
    exists|error: String| #[trigger]
        error@ == text && after == (QueuesView { errors: pushed(before.errors, error), ..before })
}

/// An error that is added is the last one then, with this text, and nothing else changes.
pub proof fn law_added_error_is_the_last(before: QueuesView, after: QueuesView, text: Seq<char>)
    requires
        error_added(before, after, text),
    ensures
        after.errors.last()@ == text,
        after == (QueuesView { errors: after.errors, ..before }),
        before.errors.len() < 100 ==> after.errors.len() == before.errors.len() + 1,
{
}

fn note_error(queues: &mut MessageQueues, error: String)
    ensures
        error_added(old(queues)@, final(queues)@, error@),
{
    let ghost text = error;
    queues.push_error(error);
    assert(text@ == text@ && queues@ == (QueuesView {
        errors: pushed(old(queues)@.errors, text),
        ..old(queues)@
    }));
}

/// The relay has closed the connection. Unless everything is done, this is an error for whoever
/// waits.
pub fn connection_closed(queues: &mut MessageQueues) -> (r: Closing)
    ensures
        r == closing(old(queues)@),
        if old(queues)@.shutdown {
            final(queues)@ == old(queues)@
        } else {
            error_added(
                old(queues)@,
                final(queues)@,
                "Transport lost: relay connection closed"@,
            )
        },
{
    if queues.is_shutdown() {
        return Closing::AfterShutdown;
    }
    let last: bool = queues.ist_letzte_verbindung();
    note_error(queues, "Transport lost: relay connection closed".to_string());
    if last {
        Closing::Finished
    } else {
        Closing::Unexpected
    }
}

/// Nothing could be read from the relay. Unless everything is done, this is an error for whoever
/// waits.
pub fn read_failed(queues: &mut MessageQueues, error: &str) -> (r: Closing)
    ensures
        r == closing(old(queues)@),
        if old(queues)@.shutdown {
            final(queues)@ == old(queues)@
        } else {
            error_added(old(queues)@, final(queues)@, "Transport lost: "@ + error@)
        },
{
    if queues.is_shutdown() {
        return Closing::AfterShutdown;
    }
    let last: bool = queues.ist_letzte_verbindung();
    let mut text: String = "Transport lost: ".to_string();
    text.append(error);
    note_error(queues, text);
    if last {
        Closing::Finished
    } else {
        Closing::Unexpected
    }
}

/// Whether a line holds nothing but white space.
pub fn is_blank(line: &str) -> (blank: bool)
    ensures
        blank == (trimmed(line@).len() == 0),
{
    let text = trim(line);
    text.as_str().unicode_len() == 0
}

} // verus!
