//! The states through which a connection is established.

use vstd::prelude::*;

use crate::connection::types::GoSignal;
use crate::punch::targets::PeerInfo;

verus! {

/// The state of a connection that is being established.
#[derive(Debug, Clone)]
pub enum ConnectionState {
    Initial,
    WaitingForPeerInfo { conn_num: u32 },
    WaitingForGO { conn_num: u32, peer_info: PeerInfo },
    Punching {
        conn_num: u32,
        peer_info: PeerInfo,
        /// The bits of the time at which both sides start.
        start_at: u64,
    },
    Established { conn_num: u32 },
    Failed { conn_num: u32, reason: String },
    WaitingForRetry { conn_num: u32 },
}

/// What happens to a connection.
#[derive(Debug, Clone, Copy, PartialEq, Eq, Structural)]
pub enum TransitionKind {
    PeerInfo,
    Go,
    Success,
    Failure,
    RetryRequest,
    RetryGranted,
}

/// What happened has no place in the state; the state is handed back.
#[derive(Debug, Clone)]
pub struct InvalidTransition {
    pub kind: TransitionKind,
    pub state: ConnectionState,
}

pub type StateTransition = Result<ConnectionState, InvalidTransition>;

impl ConnectionState {
    /// The number of the connection.
    pub open spec fn number(self) -> Option<u32> {
        match self {
            ConnectionState::Initial => None,
            ConnectionState::WaitingForPeerInfo { conn_num } => Some(conn_num),
            ConnectionState::WaitingForGO { conn_num, .. } => Some(conn_num),
            ConnectionState::Punching { conn_num, .. } => Some(conn_num),
            ConnectionState::Established { conn_num } => Some(conn_num),
            ConnectionState::Failed { conn_num, .. } => Some(conn_num),
            ConnectionState::WaitingForRetry { conn_num } => Some(conn_num),
        }
    }

    pub fn is_terminal(&self) -> (yes: bool)
        ensures
            yes == self is Established,
    {
        matches!(self, ConnectionState::Established { .. })
    }

    pub fn conn_num(&self) -> (num: Option<u32>)
        ensures
            num == self.number(),
    {
        match self {
            ConnectionState::Initial => None,
            ConnectionState::WaitingForPeerInfo { conn_num } => Some(*conn_num),
            ConnectionState::WaitingForGO { conn_num, .. } => Some(*conn_num),
            ConnectionState::Punching { conn_num, .. } => Some(*conn_num),
            ConnectionState::Established { conn_num } => Some(*conn_num),
            ConnectionState::Failed { conn_num, .. } => Some(*conn_num),
            ConnectionState::WaitingForRetry { conn_num } => Some(*conn_num),
        }
    }
}

pub open spec fn invalid(kind: TransitionKind, state: ConnectionState) -> StateTransition {
    Err(InvalidTransition { kind, state })
}

pub open spec fn after_peer_info(state: ConnectionState, peer_info: PeerInfo) -> StateTransition {
    match state {
        ConnectionState::WaitingForPeerInfo { conn_num } => Ok(
            ConnectionState::WaitingForGO { conn_num, peer_info },
        ),
        ConnectionState::WaitingForRetry { conn_num } => Ok(
            ConnectionState::WaitingForGO { conn_num, peer_info },
        ),
        _ => invalid(TransitionKind::PeerInfo, state),
    }
}

/// The peer is known.
pub fn handle_peer_info_transition(state: ConnectionState, peer_info: PeerInfo) -> (r:
    StateTransition)
    ensures
        r == after_peer_info(state, peer_info),
{
    match state {
        ConnectionState::WaitingForPeerInfo { conn_num } => Ok(
            ConnectionState::WaitingForGO { conn_num, peer_info },
        ),
        ConnectionState::WaitingForRetry { conn_num } => Ok(
            ConnectionState::WaitingForGO { conn_num, peer_info },
        ),
        _ => Err(InvalidTransition { kind: TransitionKind::PeerInfo, state }),
    }
}

pub open spec fn after_go(state: ConnectionState, go_signal: GoSignal) -> StateTransition {
    match state {
        ConnectionState::WaitingForGO { conn_num, peer_info } => Ok(
            ConnectionState::Punching { conn_num, peer_info, start_at: go_signal.start_at },
        ),
        _ => invalid(TransitionKind::Go, state),
    }
}

/// The relay has given the start.
pub fn handle_go_transition(state: ConnectionState, go_signal: GoSignal) -> (r: StateTransition)
    ensures
        r == after_go(state, go_signal),
{
    match state {
        ConnectionState::WaitingForGO { conn_num, peer_info } => Ok(
            ConnectionState::Punching { conn_num, peer_info, start_at: go_signal.start_at },
        ),
        _ => Err(InvalidTransition { kind: TransitionKind::Go, state }),
    }
}

pub open spec fn after_success(state: ConnectionState) -> StateTransition {
    match state {
        ConnectionState::Punching { conn_num, .. } => Ok(ConnectionState::Established { conn_num }),
        _ => invalid(TransitionKind::Success, state),
    }
}

/// A connection has been punched.
pub fn handle_connection_success(state: ConnectionState) -> (r: StateTransition)
    ensures
        r == after_success(state),
{
    match state {
        ConnectionState::Punching { conn_num, .. } => Ok(ConnectionState::Established { conn_num }),
        _ => Err(InvalidTransition { kind: TransitionKind::Success, state }),
    }
}

pub open spec fn after_failure(state: ConnectionState, reason: String) -> StateTransition {
    match state {
        ConnectionState::Punching { conn_num, .. } => Ok(
            ConnectionState::Failed { conn_num, reason },
        ),
        ConnectionState::WaitingForPeerInfo { conn_num } => Ok(
            ConnectionState::Failed { conn_num, reason },
        ),
        ConnectionState::WaitingForGO { conn_num, .. } => Ok(
            ConnectionState::Failed { conn_num, reason },
        ),
        _ => invalid(TransitionKind::Failure, state),
    }
}

/// The attempt has failed.
pub fn handle_connection_failure(state: ConnectionState, reason: String) -> (r: StateTransition)
    ensures
        r == after_failure(state, reason),
{
    match state {
        ConnectionState::Punching { conn_num, .. } => Ok(
            ConnectionState::Failed { conn_num, reason },
        ),
        ConnectionState::WaitingForPeerInfo { conn_num } => Ok(
            ConnectionState::Failed { conn_num, reason },
        ),
        ConnectionState::WaitingForGO { conn_num, .. } => Ok(
            ConnectionState::Failed { conn_num, reason },
        ),
        _ => Err(InvalidTransition { kind: TransitionKind::Failure, state }),
    }
}

pub open spec fn after_retry_request(state: ConnectionState) -> StateTransition {
    match state {
        ConnectionState::Failed { conn_num, .. } => Ok(
            ConnectionState::WaitingForRetry { conn_num },
        ),
        _ => invalid(TransitionKind::RetryRequest, state),
    }
}

/// The relay has been asked for another try.
pub fn handle_retry_request(state: ConnectionState) -> (r: StateTransition)
    ensures
        r == after_retry_request(state),
{
    match state {
        ConnectionState::Failed { conn_num, .. } => Ok(
            ConnectionState::WaitingForRetry { conn_num },
        ),
        _ => Err(InvalidTransition { kind: TransitionKind::RetryRequest, state }),
    }
}

pub open spec fn after_retry_granted(state: ConnectionState) -> StateTransition {
    match state {
        ConnectionState::WaitingForRetry { conn_num } => Ok(
            ConnectionState::WaitingForPeerInfo { conn_num },
        ),
        _ => invalid(TransitionKind::RetryGranted, state),
    }
}

/// The relay has granted another try.
pub fn handle_retry_granted(state: ConnectionState) -> (r: StateTransition)
    ensures
        r == after_retry_granted(state),
{
    match state {
        ConnectionState::WaitingForRetry { conn_num } => Ok(
            ConnectionState::WaitingForPeerInfo { conn_num },
        ),
        _ => Err(InvalidTransition { kind: TransitionKind::RetryGranted, state }),
    }
}

/// The way of a connection on which nothing fails: from waiting for the peer over the start to
/// punching and to the established connection. What is known of the peer and the time of the start
/// are kept until it is punched.
pub proof fn law_way_to_a_connection(conn_num: u32, peer_info: PeerInfo, go_signal: GoSignal)
    ensures
        ({
            let waiting = ConnectionState::WaitingForPeerInfo { conn_num };
            let known = after_peer_info(waiting, peer_info);
            let started = after_go(known->Ok_0, go_signal);
            let done = after_success(started->Ok_0);
            &&& known is Ok && started is Ok && done is Ok
            &&& known->Ok_0 == (ConnectionState::WaitingForGO { conn_num, peer_info })
            &&& started->Ok_0 == (ConnectionState::Punching {
                conn_num,
                peer_info,
                start_at: go_signal.start_at,
            })
            &&& done->Ok_0 == (ConnectionState::Established { conn_num })
        }),
{
}

/// The way of a connection that fails: from wherever it waits or is punched, it can fail and be asked
/// for again, and with the grant it waits for its peer once more.
pub proof fn law_way_after_a_failure(state: ConnectionState, reason: String)
    requires
        state is WaitingForPeerInfo || state is WaitingForGO || state is Punching,
    ensures
        ({
            let failed = after_failure(state, reason);
            let asked = after_retry_request(failed->Ok_0);
            let granted = after_retry_granted(asked->Ok_0);
            &&& failed is Ok && asked is Ok && granted is Ok
            &&& failed->Ok_0 matches ConnectionState::Failed { reason: r, .. } && r == reason
            &&& asked->Ok_0 is WaitingForRetry
            &&& granted->Ok_0 is WaitingForPeerInfo
            &&& granted->Ok_0.number() == state.number()
        }),
{
}

/// What has no place in a state is refused and leaves the state as it is.
pub proof fn law_misplaced_events_change_nothing(
    state: ConnectionState,
    peer_info: PeerInfo,
    go_signal: GoSignal,
    reason: String,
)
    ensures
        !(state is WaitingForPeerInfo) && !(state is WaitingForRetry) ==> (after_peer_info(
            state,
            peer_info,
        ) matches Err(e) && e.state == state && e.kind is PeerInfo),
        !(state is WaitingForGO) ==> (after_go(state, go_signal) matches Err(e) && e.state == state
            && e.kind is Go),
        !(state is Punching) ==> (after_success(state) matches Err(e) && e.state == state
            && e.kind is Success),
        !(state is Punching) && !(state is WaitingForPeerInfo) && !(state is WaitingForGO) ==> (
        after_failure(state, reason) matches Err(e) && e.state == state && e.kind is Failure),
        !(state is Failed) ==> (after_retry_request(state) matches Err(e) && e.state == state
            && e.kind is RetryRequest),
        !(state is WaitingForRetry) ==> (after_retry_granted(state) matches Err(e) && e.state
            == state && e.kind is RetryGranted),
{
}

/// One step of a connection, whatever happens.
pub open spec fn steps_to(state: ConnectionState, next: ConnectionState) -> bool {
    ||| exists|info: PeerInfo| #[trigger] after_peer_info(state, info) == Ok::<_, InvalidTransition>(next)
    ||| exists|go: GoSignal| #[trigger] after_go(state, go) == Ok::<_, InvalidTransition>(next)
    ||| after_success(state) == Ok::<_, InvalidTransition>(next)
    ||| exists|reason: String| #[trigger] after_failure(state, reason) == Ok::<_, InvalidTransition>(next)
    ||| after_retry_request(state) == Ok::<_, InvalidTransition>(next)
    ||| after_retry_granted(state) == Ok::<_, InvalidTransition>(next)
}

/// Whatever happens, a state stays with its connection; nothing leads out of an established
/// connection, and only punching leads to one.
pub proof fn law_transitions_keep_the_connection(state: ConnectionState, next: ConnectionState)
    requires
        steps_to(state, next),
    ensures
        next.number() == state.number(),
        state.number() is Some,
        !(state is Established),
        next is Established ==> state is Punching,
{
}

} // verus!
