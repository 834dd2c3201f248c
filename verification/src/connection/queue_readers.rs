//! Waiting for a message: what one look at the queues yields.

use vstd::prelude::*;
use vstd::string::*;

use crate::connection::message_queue::{popped, MessageQueues, QueuesView};
use crate::connection::types::GoSignal;
use crate::punch::targets::PeerInfo;
use crate::text::{decimal, push_decimal};

verus! {

/// What a look at the queues yields.
pub enum Polled<T> {
    Ready(T),
    /// The wait is over without a message, for this reason.
    Failed(String),
    /// Nothing yet.
    Wait,
}

/// The text of a timeout for a connection.
pub open spec fn timeout_text(what: Seq<char>, conn_num: u32) -> Seq<char> {
    "Timeout waiting for "@ + what + " (conn "@ + decimal(conn_num as nat) + ")"@
}

/// The text of an error that the relay has sent, or of the loss of the relay.
pub open spec fn server_error_text(error: Seq<char>) -> Seq<char> {
    "Server error: "@ + error
}

/// Why a wait is over without a message: because its time is over, or else because there is an
/// error.
pub open spec fn wait_ends(queues: QueuesView, expired: bool, timeout: Seq<char>) -> Option<
    Seq<char>,
> {
    if expired {
        Some(timeout)
    } else if queues.errors.len() > 0 {
        Some(server_error_text(queues.errors[0]@))
    } else {
        None
    }
}

/// A wait goes on exactly as long as its time is not over and there is no error. A wait whose time is
/// over says so, even where there is an error; otherwise it ends with the oldest error, in whole,
/// behind the words for an error of the server.
pub proof fn law_wait_ends_with_its_reason(queues: QueuesView, expired: bool, timeout: Seq<char>)
    ensures
        ({
            let end = wait_ends(queues, expired, timeout);
            &&& end is None <==> !expired && queues.errors.len() == 0
            &&& expired ==> end == Some(timeout)
            &&& !expired && queues.errors.len() > 0 ==> end == Some(
                "Server error: "@ + queues.errors[0]@,
            )
        }),
{
}

/// A confirmation counts for the ports that were asked about, in whatever order: a port more or less
/// makes it another one.
pub proof fn law_confirmation_names_the_ports(a: Seq<u16>, b: Seq<u16>, port: u16)
    ensures
        a.to_set() == b.to_set() <==> same_ports(a, b),
        a.contains(port) && !b.contains(port) ==> !same_ports(a, b) && !same_ports(b, a),
{
    if same_ports(a, b) {
        assert(a.to_set() =~= b.to_set());
    }
    if a.to_set() == b.to_set() {
        assert forall|p: u16| a.contains(p) <==> b.contains(p) by {
            assert(a.to_set().contains(p) <==> b.to_set().contains(p));
        }
    }
}

fn timeout_for(what: &str, conn_num: u32) -> (s: String)
    ensures
        s@ == timeout_text(what@, conn_num),
{
    let mut s: String = "Timeout waiting for ".to_string();
    s.append(what);
    s.append(" (conn ");
    push_decimal(&mut s, conn_num as u64);
    s.append(")");
    s
}

fn server_error(queues: &MessageQueues) -> (s: Option<String>)
    ensures
        match s {
            Some(text) => queues@.errors.len() > 0 && text@ == server_error_text(
                queues@.errors[0]@,
            ),
            None => queues@.errors.len() == 0,
        },
{
    match queues.has_error() {
        Some(error) => {
            let mut s: String = "Server error: ".to_string();
            s.append(error.as_str());
            Some(s)
        },
        None => None,
    }
}

/// Looks for what is known of the peer; `expired` tells whether the time for the wait is over.
pub fn poll_peer_info(queues: &mut MessageQueues, conn_num: u32, expired: bool) -> (r: Polled<
    (PeerInfo, u32),
>)
    ensures
        match wait_ends(old(queues)@, expired, timeout_text("peer_info"@, conn_num)) {
            Some(text) => {
                &&& r matches Polled::Failed(s) && s@ == text
                &&& final(queues)@ == old(queues)@
            },
            None => {
                &&& final(queues)@ == (QueuesView {
                    peer_infos: popped(old(queues)@.peer_infos, conn_num).1,
                    ..old(queues)@
                })
                &&& match popped(old(queues)@.peer_infos, conn_num).0 {
                    Some(info) => r == Polled::Ready(info),
                    None => r == Polled::<(PeerInfo, u32)>::Wait,
                }
            },
        },
{
    if expired {
        return Polled::Failed(timeout_for("peer_info", conn_num));
    }
    if let Some(text) = server_error(queues) {
        return Polled::Failed(text);
    }
    match queues.pop_peer_info(conn_num) {
        Some(info) => Polled::Ready(info),
        None => Polled::Wait,
    }
}

/// Looks for the start signal; `expired` tells whether the time for the wait is over.
pub fn poll_go(queues: &mut MessageQueues, conn_num: u32, expired: bool) -> (r: Polled<GoSignal>)
    ensures
        match wait_ends(old(queues)@, expired, timeout_text("GO"@, conn_num)) {
            Some(text) => {
                &&& r matches Polled::Failed(s) && s@ == text
                &&& final(queues)@ == old(queues)@
            },
            None => {
                &&& final(queues)@ == (QueuesView {
                    go_signals: popped(old(queues)@.go_signals, conn_num).1,
                    ..old(queues)@
                })
                &&& match popped(old(queues)@.go_signals, conn_num).0 {
                    Some(signal) => r == Polled::Ready(signal),
                    None => r == Polled::<GoSignal>::Wait,
                }
            },
        },
{
    if expired {
        return Polled::Failed(timeout_for("GO", conn_num));
    }
    if let Some(text) = server_error(queues) {
        return Polled::Failed(text);
    }
    match queues.pop_go(conn_num) {
        Some(signal) => Polled::Ready(signal),
        None => Polled::Wait,
    }
}

/// Whether each of the numbers is in a list.
fn all_in(a: &Vec<u16>, b: &Vec<u16>) -> (yes: bool)
    ensures
        yes == (forall|i: int| 0 <= i < a@.len() ==> b@.contains(#[trigger] a@[i])),
{
    let mut i: usize = 0;
    while i < a.len()
        invariant
            i <= a@.len(),
            forall|k: int| 0 <= k < i ==> b@.contains(#[trigger] a@[k]),
        decreases a@.len() - i,
    {
        let mut found: bool = false;
        let mut k: usize = 0;
        while k < b.len()
            invariant
                k <= b@.len(),
                i < a@.len(),
                found == (exists|m: int| 0 <= m < k && #[trigger] b@[m] == a@[i as int]),
            decreases b@.len() - k,
        {
            if b[k] == a[i] {
                found = true;
            }
            k = k + 1;
        }
        if !found {
            assert(!b@.contains(a@[i as int]));
            return false;
        }
        i = i + 1;
    }
    true
}

/// Whether two lists hold the same ports, in whatever order and however often.
pub open spec fn same_ports(a: Seq<u16>, b: Seq<u16>) -> bool {
    forall|port: u16| a.contains(port) <==> b.contains(port)
}

/// Whether two lists hold the same ports.
pub fn ports_agree(a: &Vec<u16>, b: &Vec<u16>) -> (yes: bool)
    ensures
        yes == same_ports(a@, b@),
{
    let forth: bool = all_in(a, b);
    let back: bool = all_in(b, a);
    proof {
        if forth && back {
            assert forall|port: u16| a@.contains(port) <==> b@.contains(port) by {
                if a@.contains(port) {
                    let i = choose|i: int| 0 <= i < a@.len() && a@[i] == port;
                    assert(b@.contains(a@[i]));
                }
                if b@.contains(port) {
                    let i = choose|i: int| 0 <= i < b@.len() && b@[i] == port;
                    assert(a@.contains(b@[i]));
                }
            }
        } else if same_ports(a@, b@) {
            assert forall|i: int| 0 <= i < a@.len() implies b@.contains(#[trigger] a@[i]) by {
                assert(a@.contains(a@[i]));
            }
            assert forall|i: int| 0 <= i < b@.len() implies a@.contains(#[trigger] b@[i]) by {
                assert(b@.contains(b@[i]));
            }
        }
    }
    forth && back
}

/// Looks for the confirmation of new ports; `expired` tells whether the time for the wait is over.
/// A confirmation of other ports is dropped.
pub fn poll_ports_ack(queues: &mut MessageQueues, expected: &Vec<u16>, expired: bool) -> (r: Polled<
    (),
>)
    ensures
        match wait_ends(old(queues)@, expired, "Timeout waiting for ports_added_ack"@) {
            Some(text) => {
                &&& r matches Polled::Failed(s) && s@ == text
                &&& final(queues)@ == old(queues)@
            },
            None => if old(queues)@.ports_acks.len() == 0 {
                &&& r == Polled::<()>::Wait
                &&& final(queues)@ == old(queues)@
            } else {
                &&& r == if same_ports(expected@, old(queues)@.ports_acks[0]@) {
                    Polled::Ready(())
                } else {
                    Polled::Wait
                }
                &&& final(queues)@ == (QueuesView {
                    ports_acks: old(queues)@.ports_acks.skip(1),
                    ..old(queues)@
                })
            },
        },
{
    if expired {
        return Polled::Failed("Timeout waiting for ports_added_ack".to_string());
    }
    if let Some(text) = server_error(queues) {
        return Polled::Failed(text);
    }
    match queues.pop_ports_ack() {
        Some(acked) => if ports_agree(expected, &acked) {
            Polled::Ready(())
        } else {
            Polled::Wait
        },
        None => Polled::Wait,
    }
}

/// Looks for leave for another try; `expired` tells whether the time for the wait is over.
pub fn poll_retry_granted(queues: &mut MessageQueues, conn_num: u32, expired: bool) -> (r: Polled<
    (),
>)
    ensures
        match wait_ends(old(queues)@, expired, timeout_text("retry_granted"@, conn_num)) {
            Some(text) => {
                &&& r matches Polled::Failed(s) && s@ == text
                &&& final(queues)@ == old(queues)@
            },
            None => {
                &&& final(queues)@ == (QueuesView {
                    retry_granted: popped(old(queues)@.retry_granted, conn_num).1,
                    ..old(queues)@
                })
                &&& match popped(old(queues)@.retry_granted, conn_num).0 {
                    Some(_) => r == Polled::Ready(()),
                    None => r == Polled::<()>::Wait,
                }
            },
        },
{
    if expired {
        return Polled::Failed(timeout_for("retry_granted", conn_num));
    }
    if let Some(text) = server_error(queues) {
        return Polled::Failed(text);
    }
    match queues.pop_retry_granted(conn_num) {
        Some(_) => Polled::Ready(()),
        None => Polled::Wait,
    }
}

} // verus!
