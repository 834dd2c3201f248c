//! Establishing several connections, one after the other, so that both sides stay in step.
//!
//! An `Establisher` is a machine: it is told what came of the last action, and says what to do
//! next. Each connection ends with one message to the relay: established or abandoned. A loss of
//! the relay ends the coordination, but not the connections that have been established.

use vstd::prelude::*;
use vstd::string::*;

use crate::connection::queue_readers::{server_error_text, timeout_text};
use crate::connection::state_machine::{
    handle_connection_failure, handle_connection_success, handle_go_transition,
    handle_peer_info_transition, handle_retry_granted, handle_retry_request, ConnectionState,
};
use crate::connection::types::GoSignal;
use crate::punch::targets::PeerInfo;
use crate::text::{
    contains, decimal, is_digit, lemma_decimal, occurs_in, stands_at, starts_with,
};

verus! {

/// How far the work has come.
pub enum Stage {
    /// The receiving side waits for the peer, which tells how many connections there will be.
    FirstPeerInfo,
    /// The sending side binds a socket per connection.
    ExtraSockets,
    /// A socket for the connection is being made ready.
    Sockets,
    PeerInfo,
    Go { peer_info: PeerInfo },
    Punch { peer_info: PeerInfo, start_at: u64 },
    /// The relay is being told that the connection is established.
    Establish,
    /// The relay is being asked for another try.
    Retry,
    /// The relay is to grant another try.
    Grant,
    /// A new socket for another try is being bound.
    Rebind,
    /// The relay is being told that the connection is given up.
    Abandon,
    Over,
}

/// The state of the work.
pub struct Model {
    pub stage: Stage,
    /// How many connections there will be.
    pub total: u32,
    /// The connection that is being established.
    pub conn: u32,
    /// How often it has failed in a row.
    pub failures: int,
    /// How many failures in a row end it.
    pub max_failures: int,
    /// What the receiving side knows of the peer from the start, for the first connection.
    pub saved: Option<PeerInfo>,
    /// Whether the relay is lost.
    pub lost: bool,
    /// How many connections have been established.
    pub established: int,
}

/// What came of the last action.
pub enum Event {
    PeerInfo { peer_info: PeerInfo, tcp_connections: u32 },
    Go { start_at: u64 },
    Granted,
    /// What was waited for has not come.
    NotCome { error: Seq<char> },
    Bound,
    NotBound { error: Seq<char> },
    Punched,
    NotPunched { error: Seq<char> },
    Sent,
}

/// What to do next.
pub enum Action {
    AwaitPeerInfo { conn: u32 },
    BindExtra { total: u32 },
    /// `last` tells that from now on the relay may hang up.
    EnsureSocket { conn: u32, last: bool },
    /// Tell the relay that the connection may be punched, and wait for the start.
    AwaitGo { conn: u32 },
    Punch { conn: u32, start_at: u64 },
    ReportEstablished { conn: u32 },
    ReportAbandoned { conn: u32, reason: Seq<char> },
    RequestRetry { conn: u32 },
    AwaitRetry { conn: u32 },
    Rebind { conn: u32 },
    /// Every connection has been dealt with.
    Finish,
    /// The work cannot go on.
    Abort { error: Seq<char> },
}

/// Whether an error tells that the relay is lost.
pub open spec fn tells_loss(error: Seq<char>) -> bool {
    occurs_in(error, "Transport lost"@)
}

/// Whether an error was sent by the relay.
pub open spec fn from_server(error: Seq<char>) -> bool {
    stands_at(error, "Server error:"@, 0)
}

impl Model {
    /// Turns to a connection, or ends after the last one.
    pub open spec fn connection(self, conn: u32) -> (Model, Action) {
        if conn < self.total {
            (
                Model { stage: Stage::Sockets, conn, ..self },
                Action::EnsureSocket { conn, last: conn + 1 == self.total },
            )
        } else {
            (Model { stage: Stage::Over, conn, ..self }, Action::Finish)
        }
    }

    pub open spec fn abort(self, error: Seq<char>) -> (Model, Action) {
        (Model { stage: Stage::Over, ..self }, Action::Abort { error })
    }

    pub open spec fn abandon(self, reason: Seq<char>) -> (Model, Action) {
        (
            Model { stage: Stage::Abandon, failures: 0, ..self },
            Action::ReportAbandoned { conn: self.conn, reason },
        )
    }

    /// After a failure, another try is asked for, unless there have been too many in a row.
    pub open spec fn failed(self, reason: Seq<char>) -> (Model, Action) {
        if self.failures + 1 >= self.max_failures {
            self.abandon(reason)
        } else {
            (
                Model { stage: Stage::Retry, failures: self.failures + 1, ..self },
                Action::RequestRetry { conn: self.conn },
            )
        }
    }

    /// What was waited for has not come. The loss of the relay ends the connection, an error that
    /// the relay has sent ends the work, and anything else is a failure.
    pub open spec fn not_come(self, what: Seq<char>, error: Seq<char>) -> (Model, Action) {
        let reason = what + ": "@ + error;
        if tells_loss(error) {
            (Model { lost: true, ..self }).abandon(
                if self.failures + 1 >= self.max_failures {
                    reason
                } else {
                    error
                },
            )
        } else if from_server(error) {
            self.abort(error)
        } else {
            self.failed(reason)
        }
    }

    /// The state after an event, and what to do.
    pub open spec fn next(self, event: Event) -> (Model, Action) {
        match (self.stage, event) {
            (Stage::FirstPeerInfo, Event::PeerInfo { peer_info, tcp_connections }) => (Model {
                total: tcp_connections,
                saved: Some(peer_info),
                ..self
            }).connection(0),
            (Stage::FirstPeerInfo, Event::NotCome { error }) => self.abort(error),
            (Stage::ExtraSockets, Event::Bound) => self.connection(0),
            (Stage::Sockets, Event::Bound) => match self.saved {
                Some(peer_info) if self.conn == 0 => (
                    Model { stage: Stage::Go { peer_info }, saved: None, ..self },
                    Action::AwaitGo { conn: self.conn },
                ),
                _ => (
                    Model { stage: Stage::PeerInfo, ..self },
                    Action::AwaitPeerInfo { conn: self.conn },
                ),
            },
            (Stage::Sockets, Event::NotBound { error }) => self.abandon(error),
            (Stage::PeerInfo, Event::PeerInfo { peer_info, .. }) => (
                Model { stage: Stage::Go { peer_info }, ..self },
                Action::AwaitGo { conn: self.conn },
            ),
            (Stage::PeerInfo, Event::NotCome { error }) => self.not_come("peer_info"@, error),
            (Stage::Go { peer_info }, Event::Go { start_at }) => (
                Model { stage: Stage::Punch { peer_info, start_at }, ..self },
                Action::Punch { conn: self.conn, start_at },
            ),
            (Stage::Go { .. }, Event::NotCome { error }) => self.not_come("go"@, error),
            (Stage::Punch { .. }, Event::Punched) => (
                Model {
                    stage: Stage::Establish,
                    failures: 0,
                    established: self.established + 1,
                    ..self
                },
                Action::ReportEstablished { conn: self.conn },
            ),
            (Stage::Punch { .. }, Event::NotPunched { error }) => self.failed(
                "max_failures: "@ + error,
            ),
            (Stage::Establish, Event::Sent) => self.connection((self.conn + 1) as u32),
            (Stage::Retry, Event::Sent) => (
                Model { stage: Stage::Grant, ..self },
                Action::AwaitRetry { conn: self.conn },
            ),
            (Stage::Grant, Event::Granted) => (
                Model { stage: Stage::Rebind, ..self },
                Action::Rebind { conn: self.conn },
            ),
            (Stage::Grant, Event::NotCome { error }) => self.not_come("retry_granted"@, error),
            (Stage::Rebind, Event::Bound) => (
                Model { stage: Stage::PeerInfo, ..self },
                Action::AwaitPeerInfo { conn: self.conn },
            ),
            (Stage::Rebind, Event::NotBound { error }) => self.abandon(
                "Failed to bind socket for retry: "@ + error,
            ),
            (Stage::Abandon, Event::Sent) => if self.lost {
                (Model { stage: Stage::Over, ..self }, Action::Finish)
            } else {
                self.connection((self.conn + 1) as u32)
            },
            _ => self.abort("Unexpected event"@),
        }
    }
}

/// What came of the last action.
#[derive(Debug, Clone)]
pub enum EstablishEvent {
    PeerInfo { peer_info: PeerInfo, tcp_connections: u32 },
    Go(GoSignal),
    Granted,
    NotCome(String),
    Bound,
    NotBound(String),
    Punched,
    NotPunched(String),
    Sent,
}

impl View for EstablishEvent {
    type V = Event;

    open spec fn view(&self) -> Event {
        match *self {
            EstablishEvent::PeerInfo { peer_info, tcp_connections } => Event::PeerInfo {
                peer_info,
                tcp_connections,
            },
            EstablishEvent::Go(signal) => Event::Go { start_at: signal.start_at },
            EstablishEvent::Granted => Event::Granted,
            EstablishEvent::NotCome(error) => Event::NotCome { error: error@ },
            EstablishEvent::Bound => Event::Bound,
            EstablishEvent::NotBound(error) => Event::NotBound { error: error@ },
            EstablishEvent::Punched => Event::Punched,
            EstablishEvent::NotPunched(error) => Event::NotPunched { error: error@ },
            EstablishEvent::Sent => Event::Sent,
        }
    }
}

/// What to do next.
#[derive(Debug, Clone)]
pub enum EstablishAction {
    AwaitPeerInfo { conn: u32 },
    BindExtra { total: u32 },
    EnsureSocket { conn: u32, last: bool },
    AwaitGo { conn: u32 },
    Punch { conn: u32, start_at: u64 },
    ReportEstablished { conn: u32 },
    ReportAbandoned { conn: u32, reason: String },
    RequestRetry { conn: u32 },
    AwaitRetry { conn: u32 },
    Rebind { conn: u32 },
    Finish,
    Abort(String),
}

impl View for EstablishAction {
    type V = Action;

    open spec fn view(&self) -> Action {
        match *self {
            EstablishAction::AwaitPeerInfo { conn } => Action::AwaitPeerInfo { conn },
            EstablishAction::BindExtra { total } => Action::BindExtra { total },
            EstablishAction::EnsureSocket { conn, last } => Action::EnsureSocket { conn, last },
            EstablishAction::AwaitGo { conn } => Action::AwaitGo { conn },
            EstablishAction::Punch { conn, start_at } => Action::Punch { conn, start_at },
            EstablishAction::ReportEstablished { conn } => Action::ReportEstablished { conn },
            EstablishAction::ReportAbandoned { conn, reason } => Action::ReportAbandoned {
                conn,
                reason: reason@,
            },
            EstablishAction::RequestRetry { conn } => Action::RequestRetry { conn },
            EstablishAction::AwaitRetry { conn } => Action::AwaitRetry { conn },
            EstablishAction::Rebind { conn } => Action::Rebind { conn },
            EstablishAction::Finish => Action::Finish,
            EstablishAction::Abort(error) => Action::Abort { error: error@ },
        }
    }
}

/// Where the work stands: before or between connections, or in the state of a connection.
enum Progress {
    FirstPeerInfo,
    ExtraSockets,
    Sockets,
    Running(ConnectionState),
    Rebinding(ConnectionState),
    Abandoning,
    Over,
}

/// The work of establishing connections.
pub struct Establisher {
    progress: Progress,
    total: u32,
    conn: u32,
    failures: u32,
    max_failures: u32,
    saved: Option<PeerInfo>,
    lost: bool,
    established: u32,
}

impl View for Establisher {
    type V = Model;

    closed spec fn view(&self) -> Model {
        Model {
            stage: match self.progress {
                Progress::FirstPeerInfo => Stage::FirstPeerInfo,
                Progress::ExtraSockets => Stage::ExtraSockets,
                Progress::Sockets => Stage::Sockets,
                Progress::Running(state) => match state {
                    ConnectionState::WaitingForPeerInfo { .. } => Stage::PeerInfo,
                    ConnectionState::WaitingForGO { peer_info, .. } => Stage::Go { peer_info },
                    ConnectionState::Punching { peer_info, start_at, .. } => Stage::Punch {
                        peer_info,
                        start_at,
                    },
                    ConnectionState::Established { .. } => Stage::Establish,
                    ConnectionState::Failed { .. } => Stage::Retry,
                    ConnectionState::WaitingForRetry { .. } => Stage::Grant,
                    ConnectionState::Initial => Stage::Over,
                },
                Progress::Rebinding(_) => Stage::Rebind,
                Progress::Abandoning => Stage::Abandon,
                Progress::Over => Stage::Over,
            },
            total: self.total,
            conn: self.conn,
            failures: self.failures as int,
            max_failures: self.max_failures as int,
            saved: self.saved,
            lost: self.lost,
            established: self.established as int,
        }
    }
}

impl Establisher {
    pub closed spec fn wf(self) -> bool {
        &&& self.max_failures >= 1
        &&& self.failures < self.max_failures
        &&& match self.progress {
            Progress::FirstPeerInfo | Progress::ExtraSockets => self.conn == 0 && self.established
                == 0,
            Progress::Sockets | Progress::Abandoning => self.conn < self.total && self.established
                <= self.conn,
            Progress::Running(state) => {
                &&& self.conn < self.total
                &&& state.number() == Some(self.conn)
                &&& if state is Established {
                    self.established <= self.conn + 1
                } else {
                    self.established <= self.conn
                }
            },
            Progress::Rebinding(state) => {
                &&& self.conn < self.total
                &&& self.established <= self.conn
                &&& state is WaitingForRetry
                &&& state.number() == Some(self.conn)
            },
            Progress::Over => true,
        }
    }

    /// Starts the work. The sending side knows how many connections it wants; the receiving side
    /// is told by the peer.
    pub fn start(receiver: bool, tcp_connections: u32, max_attempts: u32) -> (r: (
        Establisher,
        EstablishAction,
    ))
        ensures
            r.0.wf(),
            r.0@ == (Model {
                stage: if receiver {
                    Stage::FirstPeerInfo
                } else {
                    Stage::ExtraSockets
                },
                total: tcp_connections,
                conn: 0,
                failures: 0,
                max_failures: if max_attempts >= 1 {
                    max_attempts as int
                } else {
                    1
                },
                saved: None,
                lost: false,
                established: 0,
            }),
            r.1@ == if receiver {
                Action::AwaitPeerInfo { conn: 0 }
            } else {
                Action::BindExtra { total: tcp_connections }
            },
    {
        let max_failures: u32 = if max_attempts >= 1 {
            max_attempts
        } else {
            1
        };
        let progress = if receiver {
            Progress::FirstPeerInfo
        } else {
            Progress::ExtraSockets
        };
        let work = Establisher {
            progress,
            total: tcp_connections,
            conn: 0,
            failures: 0,
            max_failures,
            saved: None,
            lost: false,
            established: 0,
        };
        if receiver {
            (work, EstablishAction::AwaitPeerInfo { conn: 0 })
        } else {
            (work, EstablishAction::BindExtra { total: tcp_connections })
        }
    }

    /// What is known of the peer for the connection that is being punched.
    pub fn peer_info(&self) -> (info: Option<&PeerInfo>)
        requires
            self.wf(),
        ensures
            match self@.stage {
                Stage::Go { peer_info } => info == Some(&peer_info),
                Stage::Punch { peer_info, .. } => info == Some(&peer_info),
                _ => info is None,
            },
    {
        match &self.progress {
            Progress::Running(state) => match state {
                ConnectionState::WaitingForGO { peer_info, .. } => Some(peer_info),
                ConnectionState::Punching { peer_info, .. } => Some(peer_info),
                _ => None,
            },
            _ => None,
        }
    }

    fn connection(self, conn: u32) -> (r: (Establisher, EstablishAction))
        requires
            self.max_failures >= 1,
            self.failures < self.max_failures,
            self.established <= conn,
        ensures
            (r.0@, r.1@) == self@.connection(conn),
            r.0.wf(),
    {
        if conn < self.total {
            let last: bool = conn + 1 == self.total;
            (
                Establisher { progress: Progress::Sockets, conn, ..self },
                EstablishAction::EnsureSocket { conn, last },
            )
        } else {
            (Establisher { progress: Progress::Over, conn, ..self }, EstablishAction::Finish)
        }
    }

    fn abort(self, error: String) -> (r: (Establisher, EstablishAction))
        requires
            self.max_failures >= 1,
            self.failures < self.max_failures,
        ensures
            (r.0@, r.1@) == self@.abort(error@),
            r.0.wf(),
    {
        (Establisher { progress: Progress::Over, ..self }, EstablishAction::Abort(error))
    }

    fn abandon(self, reason: String) -> (r: (Establisher, EstablishAction))
        requires
            self.max_failures >= 1,
            self.conn < self.total,
            self.established <= self.conn,
        ensures
            (r.0@, r.1@) == self@.abandon(reason@),
            r.0.wf(),
    {
        let conn: u32 = self.conn;
        (
            Establisher { progress: Progress::Abandoning, failures: 0, ..self },
            EstablishAction::ReportAbandoned { conn, reason },
        )
    }

    /// Counts a failure that has led to the given state.
    fn failed(self, reason: String, state: ConnectionState) -> (r: (Establisher, EstablishAction))
        requires
            self.failures < self.max_failures,
            self.conn < self.total,
            self.established <= self.conn,
            state is Failed,
            state.number() == Some(self.conn),
        ensures
            (r.0@, r.1@) == self@.failed(reason@),
            r.0.wf(),
    {
        if self.failures + 1 >= self.max_failures {
            self.abandon(reason)
        } else {
            let conn: u32 = self.conn;
            let failures: u32 = self.failures + 1;
            (
                Establisher { progress: Progress::Running(state), failures, ..self },
                EstablishAction::RequestRetry { conn },
            )
        }
    }

    fn not_come(self, what: &str, error: String, state: ConnectionState) -> (r: (
        Establisher,
        EstablishAction,
    ))
        requires
            self.failures < self.max_failures,
            self.conn < self.total,
            self.established <= self.conn,
            state is Failed,
            state.number() == Some(self.conn),
        ensures
            (r.0@, r.1@) == self@.not_come(what@, error@),
            r.0.wf(),
    {
        let mut reason: String = what.to_string();
        reason.append(": ");
        reason.append(error.as_str());
        if contains(error.as_str(), "Transport lost") {
            let text: String = if self.failures + 1 >= self.max_failures {
                reason
            } else {
                error
            };
            let work = Establisher { lost: true, ..self };
            work.abandon(text)
        } else if starts_with(error.as_str(), "Server error:") {
            self.abort(error)
        } else {
            self.failed(reason, state)
        }
    }

    /// Takes in what came of the last action and tells what to do next.
    pub fn step(self, event: EstablishEvent) -> (r: (Establisher, EstablishAction))
        requires
            self.wf(),
        ensures
            (r.0@, r.1@) == self@.next(event@),
            r.0.wf(),
    {
        match (self.progress, event) {
            (
                Progress::FirstPeerInfo,
                EstablishEvent::PeerInfo { peer_info, tcp_connections },
            ) => {
                let work = Establisher {
                    progress: Progress::Over,
                    total: tcp_connections,
                    saved: Some(peer_info),
                    ..self
                };
                work.connection(0)
            },
            (Progress::FirstPeerInfo, EstablishEvent::NotCome(error)) => {
                let work = Establisher { progress: Progress::Over, ..self };
                work.abort(error)
            },
            (Progress::ExtraSockets, EstablishEvent::Bound) => {
                let work = Establisher { progress: Progress::Over, ..self };
                work.connection(0)
            },
            (Progress::Sockets, EstablishEvent::Bound) => {
                let conn: u32 = self.conn;
                let state = ConnectionState::WaitingForPeerInfo { conn_num: conn };
                match self.saved {
                    Some(peer_info) if conn == 0 => {
                        let next = match handle_peer_info_transition(state, peer_info) {
                            Ok(next) => next,
                            Err(invalid) => invalid.state,
                        };
                        (
                            Establisher { progress: Progress::Running(next), saved: None, ..self },
                            EstablishAction::AwaitGo { conn },
                        )
                    },
                    saved => (
                        Establisher { progress: Progress::Running(state), saved, ..self },
                        EstablishAction::AwaitPeerInfo { conn },
                    ),
                }
            },
            (Progress::Sockets, EstablishEvent::NotBound(error)) => {
                let work = Establisher { progress: Progress::Over, ..self };
                work.abandon(error)
            },
            (Progress::Running(state), event) => {
                let work = Establisher { progress: Progress::Over, ..self };
                work.step_in(state, event)
            },
            (Progress::Rebinding(state), EstablishEvent::Bound) => {
                let conn: u32 = self.conn;
                let next = match handle_retry_granted(state) {
                    Ok(next) => next,
                    Err(invalid) => invalid.state,
                };
                (
                    Establisher { progress: Progress::Running(next), ..self },
                    EstablishAction::AwaitPeerInfo { conn },
                )
            },
            (Progress::Rebinding(_), EstablishEvent::NotBound(error)) => {
                let mut reason: String = "Failed to bind socket for retry: ".to_string();
                reason.append(error.as_str());
                let work = Establisher { progress: Progress::Over, ..self };
                work.abandon(reason)
            },
            (Progress::Abandoning, EstablishEvent::Sent) => {
                if self.lost {
                    (Establisher { progress: Progress::Over, ..self }, EstablishAction::Finish)
                } else {
                    let next: u32 = self.conn + 1;
                    let work = Establisher { progress: Progress::Over, ..self };
                    work.connection(next)
                }
            },
            _ => {
                let work = Establisher { progress: Progress::Over, ..self };
                work.abort("Unexpected event".to_string())
            },
        }
    }

    /// A step within a connection, whose state is handed in.
    fn step_in(self, state: ConnectionState, event: EstablishEvent) -> (r: (
        Establisher,
        EstablishAction,
    ))
        requires
            (Establisher { progress: Progress::Running(state), ..self }).wf(),
        ensures
            (r.0@, r.1@) == (Establisher { progress: Progress::Running(state), ..self })@.next(
                event@,
            ),
            r.0.wf(),
    {
        let conn: u32 = self.conn;
        match (state, event) {
            (
                ConnectionState::WaitingForPeerInfo { conn_num },
                EstablishEvent::PeerInfo { peer_info, .. },
            ) => {
                let state = ConnectionState::WaitingForPeerInfo { conn_num };
                let next = match handle_peer_info_transition(state, peer_info) {
                    Ok(next) => next,
                    Err(invalid) => invalid.state,
                };
                (
                    Establisher { progress: Progress::Running(next), ..self },
                    EstablishAction::AwaitGo { conn },
                )
            },
            (
                ConnectionState::WaitingForPeerInfo { conn_num },
                EstablishEvent::NotCome(error),
            ) => {
                let state = ConnectionState::WaitingForPeerInfo { conn_num };
                let next = match handle_connection_failure(state, error.clone()) {
                    Ok(next) => next,
                    Err(invalid) => invalid.state,
                };
                self.not_come("peer_info", error, next)
            },
            (
                ConnectionState::WaitingForGO { conn_num, peer_info },
                EstablishEvent::Go(signal),
            ) => {
                let state = ConnectionState::WaitingForGO { conn_num, peer_info };
                let next = match handle_go_transition(state, signal) {
                    Ok(next) => next,
                    Err(invalid) => invalid.state,
                };
                (
                    Establisher { progress: Progress::Running(next), ..self },
                    EstablishAction::Punch { conn, start_at: signal.start_at },
                )
            },
            (
                ConnectionState::WaitingForGO { conn_num, peer_info },
                EstablishEvent::NotCome(error),
            ) => {
                let state = ConnectionState::WaitingForGO { conn_num, peer_info };
                let next = match handle_connection_failure(state, error.clone()) {
                    Ok(next) => next,
                    Err(invalid) => invalid.state,
                };
                self.not_come("go", error, next)
            },
            (
                ConnectionState::Punching { conn_num, peer_info, start_at },
                EstablishEvent::Punched,
            ) => {
                let state = ConnectionState::Punching { conn_num, peer_info, start_at };
                let next = match handle_connection_success(state) {
                    Ok(next) => next,
                    Err(invalid) => invalid.state,
                };
                let established: u32 = self.established + 1;
                (
                    Establisher {
                        progress: Progress::Running(next),
                        failures: 0,
                        established,
                        ..self
                    },
                    EstablishAction::ReportEstablished { conn },
                )
            },
            (
                ConnectionState::Punching { conn_num, peer_info, start_at },
                EstablishEvent::NotPunched(error),
            ) => {
                let state = ConnectionState::Punching { conn_num, peer_info, start_at };
                let mut reason: String = "max_failures: ".to_string();
                reason.append(error.as_str());
                let next = match handle_connection_failure(state, error) {
                    Ok(next) => next,
                    Err(invalid) => invalid.state,
                };
                self.failed(reason, next)
            },
            (ConnectionState::Established { .. }, EstablishEvent::Sent) => self.connection(
                conn + 1,
            ),
            (ConnectionState::Failed { conn_num, reason }, EstablishEvent::Sent) => {
                let state = ConnectionState::Failed { conn_num, reason };
                let next = match handle_retry_request(state) {
                    Ok(next) => next,
                    Err(invalid) => invalid.state,
                };
                (
                    Establisher { progress: Progress::Running(next), ..self },
                    EstablishAction::AwaitRetry { conn },
                )
            },
            (ConnectionState::WaitingForRetry { conn_num }, EstablishEvent::Granted) => {
                let state = ConnectionState::WaitingForRetry { conn_num };
                (
                    Establisher { progress: Progress::Rebinding(state), ..self },
                    EstablishAction::Rebind { conn },
                )
            },
            (ConnectionState::WaitingForRetry { conn_num }, EstablishEvent::NotCome(error)) => {
                let mut reason: String = "Retry coordination failed: ".to_string();
                reason.append(error.as_str());
                let next = ConnectionState::Failed { conn_num, reason };
                self.not_come("retry_granted", error, next)
            },
            _ => self.abort("Unexpected event".to_string()),
        }
    }
}

impl Model {
    /// How the parts of a state fit together, once the work has begun.
    pub open spec fn consistent(self) -> bool {
        &&& 0 <= self.failures < self.max_failures
        &&& self.lost ==> self.stage is Abandon || self.stage is Over
        &&& match self.stage {
            Stage::FirstPeerInfo | Stage::ExtraSockets => self.conn == 0 && self.established == 0,
            Stage::Over => true,
            _ => self.conn < self.total,
        }
    }

    /// The state after a row of events.
    pub open spec fn after(self, events: Seq<Event>) -> Model
        decreases events.len(),
    {
        if events.len() == 0 {
            self
        } else {
            self.after(events.drop_last()).next(events.last()).0
        }
    }

    /// What was done during a row of events.
    pub open spec fn actions(self, events: Seq<Event>) -> Seq<Action>
        decreases events.len(),
    {
        if events.len() == 0 {
            Seq::empty()
        } else {
            self.actions(events.drop_last()).push(
                self.after(events.drop_last()).next(events.last()).1,
            )
        }
    }
}

/// The connections about which the relay was told the outcome, in the order in which it was told.
pub open spec fn reported(actions: Seq<Action>) -> Seq<u32>
    decreases actions.len(),
{
    if actions.len() == 0 {
        Seq::empty()
    } else {
        match actions.last() {
            Action::ReportEstablished { conn } => reported(actions.drop_last()).push(conn),
            Action::ReportAbandoned { conn, .. } => reported(actions.drop_last()).push(conn),
            _ => reported(actions.drop_last()),
        }
    }
}

/// How many connections were reported as established.
pub open spec fn reported_established(actions: Seq<Action>) -> int
    decreases actions.len(),
{
    if actions.len() == 0 {
        0
    } else {
        reported_established(actions.drop_last()) + if actions.last() is ReportEstablished {
            1int
        } else {
            0
        }
    }
}

/// How many reports there have been in a stage.
spec fn reports_by(m: Model) -> int {
    match m.stage {
        Stage::FirstPeerInfo | Stage::ExtraSockets => 0,
        Stage::Establish | Stage::Abandon => m.conn + 1,
        _ => m.conn as int,
    }
}

proof fn lemma_run(start: Model, events: Seq<Event>)
    requires
        start.consistent(),
        start.stage is FirstPeerInfo || start.stage is ExtraSockets,
    ensures
        ({
            let m = start.after(events);
            let reports = reported(start.actions(events));
            &&& m.consistent()
            &&& m.max_failures == start.max_failures
            &&& forall|i: int| 0 <= i < reports.len() ==> reports[i] == i
            &&& !(m.stage is Over) ==> reports.len() == reports_by(m)
            &&& m.established == reported_established(start.actions(events))
        }),
    decreases events.len(),
{
    if events.len() > 0 {
        let front = events.drop_last();
        lemma_run(start, front);
        let m = start.after(front);
        let (n, action) = m.next(events.last());
        let before = start.actions(front);
        let after = start.actions(events);
        assert(after.drop_last() =~= before);
        assert(after.last() == action);
        let reports = reported(after);
        assert forall|i: int| 0 <= i < reports.len() implies reports[i] == i by {
            if i < reported(before).len() {
                assert(reported(before)[i] == i);
            }
        }
    }
}

/// The relay is told the outcome of each connection once, and of one connection after the other,
/// from the first one on.
pub proof fn law_one_report_per_connection(start: Model, events: Seq<Event>, i: int)
    requires
        start.consistent(),
        start.stage is FirstPeerInfo || start.stage is ExtraSockets,
        0 <= i < reported(start.actions(events)).len(),
    ensures
        reported(start.actions(events))[i] == i,
{
    lemma_run(start, events);
}

/// The number of established connections is the number of those that were reported as such.
pub proof fn law_established_are_reported(start: Model, events: Seq<Event>)
    requires
        start.consistent(),
        start.stage is FirstPeerInfo || start.stage is ExtraSockets,
    ensures
        start.after(events).established == reported_established(start.actions(events)),
{
    lemma_run(start, events);
}

/// No connection fails more often in a row than allowed: at the last failure it is given up.
pub proof fn law_failures_are_bounded(start: Model, events: Seq<Event>)
    requires
        start.consistent(),
        start.stage is FirstPeerInfo || start.stage is ExtraSockets,
    ensures
        0 <= start.after(events).failures < start.max_failures,
{
    lemma_run(start, events);
}

/// Whether an error is neither a loss of the relay nor an error that the relay has sent.
pub open spec fn ordinary(error: Seq<char>) -> bool {
    !tells_loss(error) && !from_server(error)
}

/// A connection is given up for its failures only when it has failed as often in a row as allowed:
/// before that, another try at it is asked for, whatever has failed. At the last one it is given up,
/// and the next connection starts without failures.
pub proof fn law_failures_are_retried(m: Model, event: Event)
    requires
        match event {
            Event::NotPunched { .. } => m.stage is Punch,
            Event::NotCome { error } => ordinary(error) && (m.stage is PeerInfo || m.stage is Go
                || m.stage is Grant),
            _ => false,
        },
    ensures
        ({
            let (n, action) = m.next(event);
            &&& n.conn == m.conn && n.total == m.total && n.max_failures == m.max_failures
            &&& n.established == m.established && n.lost == m.lost && n.saved == m.saved
            &&& m.failures + 1 < m.max_failures ==> {
                &&& action == (Action::RequestRetry { conn: m.conn })
                &&& n.stage is Retry
                &&& n.failures == m.failures + 1
            }
            &&& m.failures + 1 >= m.max_failures ==> {
                &&& action matches Action::ReportAbandoned { conn, .. } && conn == m.conn
                &&& n.stage is Abandon
                &&& n.failures == 0
            }
        }),
{
}

/// Nothing is forgotten on the way: whatever happens, the failures stay counted until the outcome of
/// the connection is reported, and grow by one with each request for another try. A connection is
/// counted as established exactly when it is reported as such, which is when it was punched. The
/// number of connections is that of the start or of the peer, and the relay is lost only if an error
/// tells so.
pub proof fn law_counts_follow_the_reports(m: Model, event: Event)
    requires
        m.consistent(),
    ensures
        ({
            let (n, action) = m.next(event);
            &&& n.max_failures == m.max_failures
            &&& action is RequestRetry ==> n.failures == m.failures + 1
            &&& action is ReportEstablished || action is ReportAbandoned ==> n.failures == 0
            &&& !(action is RequestRetry || action is ReportEstablished
                || action is ReportAbandoned) ==> n.failures == m.failures
            &&& action is ReportEstablished <==> m.stage is Punch && event is Punched
            &&& action is ReportEstablished ==> n.established == m.established + 1
            &&& !(action is ReportEstablished) ==> n.established == m.established
            &&& !(m.stage is FirstPeerInfo) ==> n.total == m.total
            &&& n.lost != m.lost ==> (event matches Event::NotCome { error } && tells_loss(error))
        }),
{
}

/// The work stays with a connection until its outcome is reported, and turns to the next one then.
/// What is punched is the peer that was known when the start was given, at the time that came with it.
pub proof fn law_work_stays_with_the_connection(m: Model, event: Event)
    requires
        m.consistent(),
        !(m.stage is FirstPeerInfo),
    ensures
        ({
            let (n, action) = m.next(event);
            &&& m.stage is Establish && event is Sent ==> n.conn == m.conn + 1
            &&& m.stage is Abandon && event is Sent && !m.lost ==> n.conn == m.conn + 1
            &&& !((m.stage is Establish || m.stage is Abandon) && event is Sent) ==> n.conn
                == m.conn
            &&& action is Punch <==> m.stage is Go && event is Go
            &&& match (m.stage, event) {
                (Stage::Go { peer_info }, Event::Go { start_at }) => n.stage == (Stage::Punch {
                    peer_info,
                    start_at,
                }) && action == (Action::Punch { conn: m.conn, start_at }),
                (Stage::PeerInfo, Event::PeerInfo { peer_info, .. }) => n.stage == (Stage::Go {
                    peer_info,
                }) && action == (Action::AwaitGo { conn: m.conn }),
                _ => true,
            }
        }),
{
}

/// What a granted try leads through: the request, the grant, a new socket, and then the peer as at
/// the first try.
pub open spec fn granted_try() -> Seq<Event> {
    seq![Event::Sent, Event::Granted, Event::Bound]
}

/// A try that is granted starts the same connection over: its socket is bound anew and the peer is
/// waited for, while the failures stay counted.
pub proof fn law_granted_try_starts_over(m: Model)
    requires
        m.stage is Retry,
    ensures
        m.actions(granted_try()) == seq![
            Action::AwaitRetry { conn: m.conn },
            Action::Rebind { conn: m.conn },
            Action::AwaitPeerInfo { conn: m.conn },
        ],
        m.after(granted_try()) == (Model { stage: Stage::PeerInfo, ..m }),
{
    let events = granted_try();
    assert(events.drop_last() =~= seq![Event::Sent, Event::Granted]);
    assert(events.drop_last().drop_last() =~= seq![Event::Sent]);
    assert(events.drop_last().drop_last().drop_last() =~= Seq::<Event>::empty());
    reveal_with_fuel(Model::after, 4);
    reveal_with_fuel(Model::actions, 4);
    assert(m.actions(events) =~= seq![
        Action::AwaitRetry { conn: m.conn },
        Action::Rebind { conn: m.conn },
        Action::AwaitPeerInfo { conn: m.conn },
    ]);
}

/// What comes of a connection that is punched at once.
pub open spec fn smooth(info: PeerInfo, wanted: u32, start_at: u64) -> Seq<Event> {
    seq![
        Event::Bound,
        Event::PeerInfo { peer_info: info, tcp_connections: wanted },
        Event::Go { start_at },
        Event::Punched,
    ]
}

/// A connection on which nothing fails is punched at the time that the relay has given, on what is
/// known of its own peer, and is reported as established. After it comes the next one, or the end
/// after the last one.
pub proof fn law_connection_is_punched(m: Model, info: PeerInfo, wanted: u32, start_at: u64)
    requires
        m.stage is Sockets,
        m.conn > 0 || m.saved is None,
        m.conn < m.total,
    ensures
        ({
            let events = smooth(info, wanted, start_at);
            let ready = m.after(events.take(3));
            let done = m.after(events);
            let (next, action) = done.next(Event::Sent);
            &&& m.actions(events) == seq![
                Action::AwaitPeerInfo { conn: m.conn },
                Action::AwaitGo { conn: m.conn },
                Action::Punch { conn: m.conn, start_at },
                Action::ReportEstablished { conn: m.conn },
            ]
            &&& ready.stage == (Stage::Punch { peer_info: info, start_at })
            &&& done.established == m.established + 1
            &&& done.failures == 0
            &&& m.conn + 1 < m.total ==> action == (Action::EnsureSocket {
                conn: (m.conn + 1) as u32,
                last: m.conn + 2 == m.total,
            }) && next.stage is Sockets && next.conn == m.conn + 1 && next.failures == 0
                && next.established == m.established + 1 && next.total == m.total
            &&& m.conn + 1 == m.total ==> action is Finish
        }),
{
    let events = smooth(info, wanted, start_at);
    let three = events.take(3);
    assert(events.drop_last() =~= three);
    assert(three.drop_last() =~= events.take(2));
    assert(events.take(2).drop_last() =~= events.take(1));
    assert(events.take(1).drop_last() =~= Seq::<Event>::empty());
    reveal_with_fuel(Model::after, 5);
    reveal_with_fuel(Model::actions, 5);
    assert(m.actions(events) =~= seq![
        Action::AwaitPeerInfo { conn: m.conn },
        Action::AwaitGo { conn: m.conn },
        Action::Punch { conn: m.conn, start_at },
        Action::ReportEstablished { conn: m.conn },
    ]);
}

/// The receiving side takes the number of connections from the peer, and punches the first one on
/// what the peer has told then, without waiting for it again. The sending side starts with the first
/// connection once its sockets are bound.
pub proof fn law_first_connection(m: Model, info: PeerInfo, wanted: u32, start_at: u64)
    requires
        m.conn == 0,
    ensures
        m.stage is FirstPeerInfo && wanted > 0 ==> {
            let (first, ensure) = m.next(
                Event::PeerInfo { peer_info: info, tcp_connections: wanted },
            );
            let (bound, wait) = first.next(Event::Bound);
            let (ready, punch) = bound.next(Event::Go { start_at });
            &&& first.total == wanted
            &&& ensure == (Action::EnsureSocket { conn: 0, last: wanted == 1 })
            &&& wait == (Action::AwaitGo { conn: 0 })
            &&& punch == (Action::Punch { conn: 0, start_at })
            &&& ready.stage == (Stage::Punch { peer_info: info, start_at })
            &&& ready.saved is None
        },
        m.stage is FirstPeerInfo && wanted == 0 ==> m.next(
            Event::PeerInfo { peer_info: info, tcp_connections: wanted },
        ).1 is Finish,
        m.stage is ExtraSockets && m.total > 0 ==> m.next(Event::Bound).1 == (
        Action::EnsureSocket { conn: 0, last: m.total == 1 }) && m.next(Event::Bound).0 == (Model {
            stage: Stage::Sockets,
            ..m
        }),
        m.stage is ExtraSockets && m.total == 0 ==> m.next(Event::Bound).1 is Finish,
{
}

/// A connection for which no socket can be bound is given up, and the work goes on with the next
/// one.
pub proof fn law_unbound_connection_is_passed_over(m: Model, error: Seq<char>)
    requires
        m.consistent(),
        m.stage is Sockets || m.stage is Rebind,
        !m.lost,
    ensures
        ({
            let (given_up, action) = m.next(Event::NotBound { error });
            let (next, further) = given_up.next(Event::Sent);
            &&& action matches Action::ReportAbandoned { conn, .. } && conn == m.conn
            &&& given_up.established == m.established
            &&& m.conn + 1 < m.total ==> further == (Action::EnsureSocket {
                conn: (m.conn + 1) as u32,
                last: m.conn + 2 == m.total,
            })
            &&& m.conn + 1 == m.total ==> further is Finish
        }),
{
}

/// The relay is told why a connection is given up: the reason ends with the error that was met last.
pub proof fn law_reason_tells_the_error(m: Model, error: Seq<char>)
    ensures
        m.stage is Sockets ==> (m.next(Event::NotBound { error }).1 matches Action::ReportAbandoned {
            reason,
            ..
        } && reason == error),
        m.stage is Rebind ==> (m.next(Event::NotBound { error }).1 matches Action::ReportAbandoned {
            reason,
            ..
        } && error.is_suffix_of(reason)),
        m.stage is Punch && m.failures + 1 >= m.max_failures ==> (m.next(
            Event::NotPunched { error },
        ).1 matches Action::ReportAbandoned { reason, .. } && error.is_suffix_of(reason)),
        (m.stage is PeerInfo || m.stage is Go || m.stage is Grant) && !from_server(error)
            && m.failures + 1 >= m.max_failures ==> (m.next(
            Event::NotCome { error },
        ).1 matches Action::ReportAbandoned { reason, .. } && error.is_suffix_of(reason)),
        (m.stage is PeerInfo || m.stage is Go || m.stage is Grant) && tells_loss(error) ==> (m.next(
            Event::NotCome { error },
        ).1 matches Action::ReportAbandoned { reason, .. } && error.is_suffix_of(reason)),
{
    let heads = seq![
        "Failed to bind socket for retry: "@,
        "max_failures: "@,
        "peer_info"@ + ": "@,
        "go"@ + ": "@,
        "retry_granted"@ + ": "@,
        Seq::<char>::empty(),
    ];
    assert forall|i: int| 0 <= i < heads.len() implies error.is_suffix_of(
        #[trigger] heads[i] + error,
    ) by {
        let all = heads[i] + error;
        assert(error =~= all.subrange(all.len() - error.len(), all.len() as int));
    }
    assert(error.is_suffix_of(heads[0] + error));
    assert(error.is_suffix_of(heads[1] + error));
    assert(error.is_suffix_of(heads[2] + error));
    assert(error.is_suffix_of(heads[3] + error));
    assert(error.is_suffix_of(heads[4] + error));
    assert(error.is_suffix_of(heads[5] + error));
    assert(heads[5] + error =~= error);
}

/// An event that does not belong to a stage ends the work with an error, and so does the peer that
/// has not come at the start.
pub proof fn law_foreign_event_ends_the_work(m: Model, event: Event)
    requires
        m.stage is Over || (event is Punched && !(m.stage is Punch)) || (event is Go && !(
        m.stage is Go)) || (event is Granted && !(m.stage is Grant)) || (event is NotCome
            && m.stage is FirstPeerInfo),
    ensures
        m.next(event).1 is Abort,
        m.next(event).0.stage is Over,
        m.next(event).0.established == m.established,
{
}

/// The work ends only when the outcome of every connection has been reported, or when the relay is
/// lost.
pub proof fn law_finish_means_all_reported(start: Model, events: Seq<Event>, event: Event)
    requires
        start.consistent(),
        start.stage is FirstPeerInfo || start.stage is ExtraSockets,
        start.after(events).next(event).1 is Finish,
    ensures
        start.after(events).next(event).0.lost || reported(start.actions(events)).len()
            == start.after(events).next(event).0.total,
{
    lemma_run(start, events);
}

/// While a message of the relay is waited for, the loss of the relay gives up the connection at
/// hand and then ends the work, with the connections that have been established.
pub proof fn law_loss_keeps_established(m: Model, error: Seq<char>)
    requires
        m.consistent(),
        m.stage is PeerInfo || m.stage is Go || m.stage is Grant,
        tells_loss(error),
    ensures
        ({
            let (lost, action) = m.next(Event::NotCome { error });
            let (over, last) = lost.next(Event::Sent);
            &&& action is ReportAbandoned
            &&& last is Finish
            &&& over.established == m.established
        }),
{
}

/// Nothing is done after the loss of the relay but to report the connection at hand and to end.
pub proof fn law_nothing_after_loss(start: Model, events: Seq<Event>, event: Event)
    requires
        start.consistent(),
        start.stage is FirstPeerInfo || start.stage is ExtraSockets,
        start.after(events).lost,
    ensures
        start.after(events).next(event).1 is Finish || start.after(events).next(event).1 is Abort,
{
    lemma_run(start, events);
}

/// What a wait reports when the relay has hung up, or could not be read, is understood as the loss
/// of the relay.
pub proof fn law_lost_relay_is_understood(detail: Seq<char>)
    ensures
        tells_loss(server_error_text("Transport lost: relay connection closed"@)),
        tells_loss(server_error_text("Transport lost: "@ + detail)),
{
    reveal_strlit("Server error: ");
    reveal_strlit("Transport lost: relay connection closed");
    reveal_strlit("Transport lost: ");
    reveal_strlit("Transport lost");
    let part = "Transport lost"@;
    let a = server_error_text("Transport lost: relay connection closed"@);
    let b = server_error_text("Transport lost: "@ + detail);
    assert(a.subrange(14, 28) =~= part);
    assert(b.subrange(14, 28) =~= part);
    assert(stands_at(a, part, 14));
    assert(stands_at(b, part, 14));
}

/// An error tells of the loss of the relay exactly if the words for it stand somewhere in it, and it
/// was sent by the relay exactly if it begins with the words for that.
pub proof fn law_errors_are_told_apart(error: Seq<char>)
    ensures
        tells_loss(error) <==> exists|front: Seq<char>, back: Seq<char>|
            error == #[trigger] (front + "Transport lost"@ + back),
        from_server(error) <==> "Server error:"@.is_prefix_of(error),
{
    reveal_strlit("Transport lost");
    reveal_strlit("Server error:");
    let part = "Transport lost"@;
    if tells_loss(error) {
        let at = choose|at: int| stands_at(error, part, at);
        let (front, back) = (error.take(at), error.skip(at + 14));
        assert(error.subrange(at, at + 14) == part);
        assert(error =~= front + part + back);
    }
    if exists|front: Seq<char>, back: Seq<char>| error == #[trigger] (front + part + back) {
        let (front, back) = choose|front: Seq<char>, back: Seq<char>|
            error == #[trigger] (front + part + back);
        assert(error.subrange(front.len() as int, front.len() as int + 14) =~= part);
        assert(stands_at(error, part, front.len() as int));
    }
}

/// A wait whose time is over is a failure of the connection, and neither the loss of the relay nor
/// an error that ends the work.
pub proof fn law_timeout_is_ordinary(what: Seq<char>, conn: u32)
    requires
        what == "peer_info"@ || what == "GO"@ || what == "retry_granted"@,
    ensures
        ordinary(timeout_text(what, conn)),
{
    reveal_strlit("Timeout waiting for ");
    reveal_strlit(" (conn ");
    reveal_strlit(")");
    reveal_strlit("peer_info");
    reveal_strlit("GO");
    reveal_strlit("retry_granted");
    reveal_strlit("Transport lost");
    reveal_strlit("Server error:");
    let digits = decimal(conn as nat);
    let s = timeout_text(what, conn);
    let part = "Transport lost"@;
    lemma_decimal(conn as nat);
    let a = 20 + what.len() as int;
    assert forall|i: int| 1 <= i < s.len() implies s[i] != 'T' by {
        if i < 20 {
            assert(s[i] == "Timeout waiting for "@[i]);
        } else if i < a {
            assert(s[i] == what[i - 20]);
        } else if i < a + 7 {
            assert(s[i] == " (conn "@[i - a]);
        } else if i < a + 7 + digits.len() {
            assert(s[i] == digits[i - a - 7]);
            assert(is_digit(digits[i - a - 7]));
        } else {
            assert(s[i] == ")"@[0]);
        }
    }
    assert(s[0] == 'T' && s[1] == 'i');
    if tells_loss(s) {
        let at = choose|at: int| stands_at(s, part, at);
        assert(s.subrange(at, at + 14)[0] == 'T' && s.subrange(at, at + 14)[1] == 'r');
        assert(s[at] == 'T' && s[at + 1] == 'r');
    }
    if from_server(s) {
        assert(s.subrange(0, 13)[0] == 'S');
    }
}

/// An error that the relay has sent ends the work while a message of the relay is waited for,
/// unless it tells of a loss.
pub proof fn law_server_error_ends_the_work(m: Model, error: Seq<char>)
    requires
        m.stage is PeerInfo || m.stage is Go || m.stage is Grant,
        !tells_loss(server_error_text(error)),
    ensures
        m.next(Event::NotCome { error: server_error_text(error) }).1 == (Action::Abort {
            error: server_error_text(error),
        }),
{
    reveal_strlit("Server error: ");
    reveal_strlit("Server error:");
    let text = server_error_text(error);
    assert(text.subrange(0, 13) =~= "Server error:"@);
}

} // verus!
