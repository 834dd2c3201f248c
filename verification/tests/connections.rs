use tcp_multi_transfer::connection::establish::{EstablishAction, EstablishEvent, Establisher};
use tcp_multi_transfer::connection::message_queue::{MessageQueues, MAX_QUEUE_SIZE};
use tcp_multi_transfer::connection::message_receiver::{
    connection_closed, is_blank, read_failed, route_message, Closing, Routing,
};
use tcp_multi_transfer::connection::ports::{
    extra_sockets, port_in_use, replaced_socket, socket_missing, BindSearch, BindStep, PortNotifier,
};
use tcp_multi_transfer::connection::queue_readers::{
    poll_go, poll_peer_info, poll_ports_ack, poll_retry_granted, ports_agree, Polled,
};
use tcp_multi_transfer::connection::state_machine::{
    handle_connection_failure, handle_connection_success, handle_go_transition,
    handle_peer_info_transition, handle_retry_granted, handle_retry_request, ConnectionState,
    TransitionKind,
};
use tcp_multi_transfer::connection::types::GoSignal;
use tcp_multi_transfer::protocol::relay::{AddrPart, PeerAddressInfo, RelayMessage};
use tcp_multi_transfer::punch::PeerInfo;

fn peer(port: u16) -> PeerInfo {
    PeerInfo {
        peer_addresses: vec![PeerAddressInfo {
            ip: "203.0.113.9".to_string(),
            port,
            addr_type: "public".to_string(),
        }],
        same_network: false,
        peer_nat_analysis: None,
        own_nat_analysis: None,
    }
}

fn announcement(addr: Vec<AddrPart>, connection_num: Option<u32>, wanted: Option<u32>) -> RelayMessage {
    RelayMessage::PeerInfo {
        peer_public_addr: addr,
        peer_local_port: 0,
        peer_addresses: peer(7000).peer_addresses,
        same_network: true,
        peer_nat_analysis: None,
        your_nat_analysis: None,
        tcp_connections: wanted,
        allow_fallback: None,
        min_connections: None,
        peer_extra_ports: Vec::new(),
        connection_num,
    }
}

fn address() -> Vec<AddrPart> {
    vec![AddrPart::Text("203.0.113.9".to_string()), AddrPart::Unsigned(7000)]
}

#[test]
fn messages_wait_per_connection() {
    let mut q = MessageQueues::new();
    q.push_go(1, GoSignal { start_at: 10 });
    q.push_go(0, GoSignal { start_at: 20 });
    q.push_go(1, GoSignal { start_at: 30 });
    assert_eq!(q.pop_go(2), None);
    assert_eq!(q.pop_go(1), Some(GoSignal { start_at: 10 }));
    assert_eq!(q.pop_go(1), Some(GoSignal { start_at: 30 }));
    assert_eq!(q.pop_go(1), None);
    assert_eq!(q.pop_go(0), Some(GoSignal { start_at: 20 }));
}

#[test]
fn queues_keep_the_newest_messages() {
    assert_eq!(MAX_QUEUE_SIZE, 100);
    let mut q = MessageQueues::new();
    for i in 0..105u64 {
        q.push_go(7, GoSignal { start_at: i });
        q.push_error(format!("e{}", i));
        q.push_peer_added_ports(vec![i as u16]);
    }
    assert_eq!(q.pop_go(7), Some(GoSignal { start_at: 5 }));
    assert_eq!(q.has_error(), Some("e5".to_string()));
    assert_eq!(q.get_peer_added_ports(), (5..105u16).collect::<Vec<u16>>());
    let mut left = 0;
    while q.pop_go(7).is_some() {
        left += 1;
    }
    assert_eq!(left, 99);
}

#[test]
fn queues_of_each_kind() {
    let mut q = MessageQueues::new();
    assert!(q.has_error().is_none());
    assert!(q.get_peer_added_ports().is_empty());
    q.push_peer_info(3, peer(1), 4);
    assert!(q.pop_peer_info(2).is_none());
    let (info, wanted) = q.pop_peer_info(3).unwrap();
    assert_eq!((info.peer_addresses[0].port, wanted), (1, 4));
    q.push_ports_ack(vec![1, 2]);
    q.push_ports_ack(vec![3]);
    assert_eq!(q.pop_ports_ack(), Some(vec![1, 2]));
    assert_eq!(q.pop_ports_ack(), Some(vec![3]));
    assert_eq!(q.pop_ports_ack(), None);
    q.push_retry_granted(5);
    assert_eq!(q.pop_retry_granted(4), None);
    assert_eq!(q.pop_retry_granted(5), Some(5));
    q.push_retry_rejected(6, "busy".to_string());
    assert_eq!(q.pop_retry_rejected(5), None);
    assert_eq!(q.pop_retry_rejected(6), Some("busy".to_string()));
    q.push_peer_added_ports(vec![9, 8]);
    q.push_peer_added_ports(vec![7]);
    assert_eq!(q.get_peer_added_ports(), vec![9, 8, 7]);
    assert!(!q.is_shutdown() && !q.ist_letzte_verbindung());
    q.set_shutdown();
    assert!(q.is_shutdown() && !q.ist_letzte_verbindung());
    q.set_letzte_verbindung();
    assert!(q.ist_letzte_verbindung());
}

#[test]
fn messages_are_routed() {
    let mut q = MessageQueues::new();
    assert_eq!(route_message(&mut q, announcement(address(), Some(2), Some(5)), true), Routing::Queued);
    let (info, wanted) = q.pop_peer_info(2).unwrap();
    assert_eq!((info.peer_addresses[0].port, info.same_network, wanted), (7000, true, 5));
    assert_eq!(route_message(&mut q, announcement(address(), None, None), true), Routing::Queued);
    assert_eq!(q.pop_peer_info(0).unwrap().1, 1);
    assert_eq!(
        route_message(&mut q, announcement(address(), None, None), false),
        Routing::BadAddress
    );
    let short = vec![AddrPart::Text("h".to_string())];
    assert_eq!(route_message(&mut q, announcement(short, None, None), true), Routing::BadAddress);
    assert!(q.pop_peer_info(0).is_none());
    let go = RelayMessage::Go { start_at: 9, message: String::new(), connection_num: None };
    assert_eq!(route_message(&mut q, go, false), Routing::Queued);
    assert_eq!(q.pop_go(0), Some(GoSignal { start_at: 9 }));
    route_message(&mut q, RelayMessage::PortsAddedAck { ports: vec![1] }, true);
    assert_eq!(q.pop_ports_ack(), Some(vec![1]));
    route_message(&mut q, RelayMessage::RetryGranted { connection_num: 3 }, true);
    assert_eq!(q.pop_retry_granted(3), Some(3));
    let no = RelayMessage::RetryRejected { connection_num: 3, reason: "no".to_string() };
    route_message(&mut q, no, true);
    assert_eq!(q.pop_retry_rejected(3), Some("no".to_string()));
    route_message(&mut q, RelayMessage::Error { message: "bad".to_string() }, true);
    assert_eq!(q.has_error(), Some("bad".to_string()));
    assert_eq!(
        route_message(&mut q, RelayMessage::PeerAddedPorts { ports: vec![4] }, true),
        Routing::Ignored
    );
    assert!(q.get_peer_added_ports().is_empty());
    assert_eq!(route_message(&mut q, RelayMessage::KeepaliveAck, true), Routing::Ignored);
}

#[test]
fn the_relay_hangs_up() {
    let mut q = MessageQueues::new();
    assert_eq!(connection_closed(&mut q), Closing::Unexpected);
    assert_eq!(q.has_error(), Some("Transport lost: relay connection closed".to_string()));
    let mut q = MessageQueues::new();
    q.set_letzte_verbindung();
    assert_eq!(read_failed(&mut q, "reset"), Closing::Finished);
    assert_eq!(q.has_error(), Some("Transport lost: reset".to_string()));
    let mut q = MessageQueues::new();
    q.set_shutdown();
    assert_eq!(connection_closed(&mut q), Closing::AfterShutdown);
    assert_eq!(read_failed(&mut q, "reset"), Closing::AfterShutdown);
    assert!(q.has_error().is_none());
    assert!(is_blank(" \t\r\n"));
    assert!(!is_blank(" x "));
}

#[test]
fn waiting_for_messages() {
    let mut q = MessageQueues::new();
    assert!(matches!(poll_go(&mut q, 1, false), Polled::Wait));
    match poll_go(&mut q, 12, true) {
        Polled::Failed(text) => assert_eq!(text, "Timeout waiting for GO (conn 12)"),
        _ => panic!("no timeout"),
    }
    match poll_peer_info(&mut q, 0, true) {
        Polled::Failed(text) => assert_eq!(text, "Timeout waiting for peer_info (conn 0)"),
        _ => panic!("no timeout"),
    }
    match poll_retry_granted(&mut q, 3, true) {
        Polled::Failed(text) => assert_eq!(text, "Timeout waiting for retry_granted (conn 3)"),
        _ => panic!("no timeout"),
    }
    match poll_ports_ack(&mut q, &vec![1], true) {
        Polled::Failed(text) => assert_eq!(text, "Timeout waiting for ports_added_ack"),
        _ => panic!("no timeout"),
    }
    q.push_go(1, GoSignal { start_at: 5 });
    q.push_peer_info(1, peer(2), 3);
    q.push_retry_granted(1);
    assert!(matches!(poll_go(&mut q, 1, false), Polled::Ready(GoSignal { start_at: 5 })));
    assert!(matches!(poll_peer_info(&mut q, 1, false), Polled::Ready((_, 3))));
    assert!(matches!(poll_retry_granted(&mut q, 1, false), Polled::Ready(())));
    assert!(matches!(poll_retry_granted(&mut q, 1, false), Polled::Wait));
    q.push_ports_ack(vec![2, 1]);
    q.push_ports_ack(vec![1, 2]);
    assert!(matches!(poll_ports_ack(&mut q, &vec![1, 3], false), Polled::Wait));
    assert!(matches!(poll_ports_ack(&mut q, &vec![2, 1], false), Polled::Ready(())));
    assert!(matches!(poll_ports_ack(&mut q, &vec![2, 1], false), Polled::Wait));
    q.push_go(1, GoSignal { start_at: 5 });
    q.push_error("full".to_string());
    match poll_go(&mut q, 1, false) {
        Polled::Failed(text) => assert_eq!(text, "Server error: full"),
        _ => panic!("the error was passed over"),
    }
    assert_eq!(q.pop_go(1), Some(GoSignal { start_at: 5 }));
}

#[test]
fn ports_agree_in_any_order() {
    assert!(ports_agree(&vec![1, 2, 2], &vec![2, 1]));
    assert!(!ports_agree(&vec![1, 2], &vec![1]));
    assert!(!ports_agree(&vec![1], &vec![1, 2]));
    assert!(ports_agree(&Vec::new(), &Vec::new()));
}

#[test]
fn states_of_a_connection() {
    let start = ConnectionState::WaitingForPeerInfo { conn_num: 4 };
    assert!(!start.is_terminal());
    let go = handle_peer_info_transition(start, peer(1)).unwrap();
    let punching = handle_go_transition(go, GoSignal { start_at: 8 }).unwrap();
    assert!(matches!(punching, ConnectionState::Punching { conn_num: 4, start_at: 8, .. }));
    let done = handle_connection_success(punching.clone()).unwrap();
    assert!(done.is_terminal());
    assert_eq!(done.conn_num(), Some(4));
    let failed = handle_connection_failure(punching, "no".to_string()).unwrap();
    match &failed {
        ConnectionState::Failed { conn_num: 4, reason } => assert_eq!(reason, "no"),
        _ => panic!("not failed"),
    }
    let waiting = handle_retry_request(failed).unwrap();
    assert!(matches!(waiting, ConnectionState::WaitingForRetry { conn_num: 4 }));
    let direct = handle_peer_info_transition(waiting.clone(), peer(1)).unwrap();
    assert!(matches!(direct, ConnectionState::WaitingForGO { conn_num: 4, .. }));
    let again = handle_retry_granted(waiting).unwrap();
    assert!(matches!(again, ConnectionState::WaitingForPeerInfo { conn_num: 4 }));
}

#[test]
fn transitions_without_a_place() {
    let done = ConnectionState::Established { conn_num: 1 };
    let kinds = [
        handle_peer_info_transition(done.clone(), peer(1)).unwrap_err().kind,
        handle_go_transition(done.clone(), GoSignal { start_at: 0 }).unwrap_err().kind,
        handle_connection_success(done.clone()).unwrap_err().kind,
        handle_connection_failure(done.clone(), String::new()).unwrap_err().kind,
        handle_retry_request(done.clone()).unwrap_err().kind,
        handle_retry_granted(done).unwrap_err().kind,
    ];
    assert_eq!(
        kinds,
        [
            TransitionKind::PeerInfo,
            TransitionKind::Go,
            TransitionKind::Success,
            TransitionKind::Failure,
            TransitionKind::RetryRequest,
            TransitionKind::RetryGranted,
        ]
    );
    let handed_back = handle_retry_granted(ConnectionState::Initial).unwrap_err();
    assert!(matches!(handed_back.state, ConnectionState::Initial));
    assert_eq!(handed_back.state.conn_num(), None);
}

fn step(work: Establisher, event: EstablishEvent) -> (Establisher, EstablishAction) {
    work.step(event)
}

fn info_event(tcp_connections: u32) -> EstablishEvent {
    EstablishEvent::PeerInfo { peer_info: peer(1), tcp_connections }
}

fn go_event() -> EstablishEvent {
    EstablishEvent::Go(GoSignal { start_at: 77 })
}

#[test]
fn sender_establishes_two_connections() {
    let (work, first) = Establisher::start(false, 2, 3);
    assert!(matches!(first, EstablishAction::BindExtra { total: 2 }));
    let (mut work, mut action) = step(work, EstablishEvent::Bound);
    for conn in 0..2u32 {
        match action {
            EstablishAction::EnsureSocket { conn: c, last } => assert_eq!((c, last), (conn, conn == 1)),
            _ => panic!("no socket"),
        }
        let (next, a) = step(work, EstablishEvent::Bound);
        assert!(matches!(a, EstablishAction::AwaitPeerInfo { .. }));
        let (next, a) = step(next, info_event(9));
        assert!(matches!(a, EstablishAction::AwaitGo { .. }));
        assert_eq!(next.peer_info().unwrap().peer_addresses[0].port, 1);
        let (next, a) = step(next, go_event());
        assert!(matches!(a, EstablishAction::Punch { start_at: 77, .. }));
        let (next, a) = step(next, EstablishEvent::Punched);
        assert!(matches!(a, EstablishAction::ReportEstablished { .. }));
        let (next, a) = step(next, EstablishEvent::Sent);
        work = next;
        action = a;
    }
    assert!(matches!(action, EstablishAction::Finish));
    assert!(work.peer_info().is_none());
}

#[test]
fn receiver_learns_how_many_connections() {
    let (work, first) = Establisher::start(true, 1, 3);
    assert!(matches!(first, EstablishAction::AwaitPeerInfo { conn: 0 }));
    let (work, a) = step(work, info_event(2));
    assert!(matches!(a, EstablishAction::EnsureSocket { conn: 0, last: false }));
    let (work, a) = step(work, EstablishEvent::Bound);
    assert!(matches!(a, EstablishAction::AwaitGo { conn: 0 }));
    let (work, _) = step(work, go_event());
    let (work, _) = step(work, EstablishEvent::Punched);
    let (work, a) = step(work, EstablishEvent::Sent);
    assert!(matches!(a, EstablishAction::EnsureSocket { conn: 1, last: true }));
    let (_, a) = step(work, EstablishEvent::Bound);
    assert!(matches!(a, EstablishAction::AwaitPeerInfo { conn: 1 }));
    let (work, _) = Establisher::start(true, 1, 3);
    let (_, a) = step(work, EstablishEvent::NotCome("late".to_string()));
    match a {
        EstablishAction::Abort(text) => assert_eq!(text, "late"),
        _ => panic!("went on without a peer"),
    }
}

fn until_punch(max_attempts: u32, connections: u32) -> Establisher {
    let (work, _) = Establisher::start(false, connections, max_attempts);
    let (work, _) = step(work, EstablishEvent::Bound);
    let (work, _) = step(work, EstablishEvent::Bound);
    let (work, _) = step(work, info_event(1));
    let (work, _) = step(work, go_event());
    work
}

#[test]
fn failures_in_a_row_are_bounded() {
    let mut work = until_punch(2, 1);
    let (next, a) = step(work, EstablishEvent::NotPunched("x".to_string()));
    assert!(matches!(a, EstablishAction::RequestRetry { conn: 0 }));
    let (next, a) = step(next, EstablishEvent::Sent);
    assert!(matches!(a, EstablishAction::AwaitRetry { conn: 0 }));
    let (next, a) = step(next, EstablishEvent::Granted);
    assert!(matches!(a, EstablishAction::Rebind { conn: 0 }));
    let (next, a) = step(next, EstablishEvent::Bound);
    assert!(matches!(a, EstablishAction::AwaitPeerInfo { conn: 0 }));
    let (next, _) = step(next, info_event(1));
    work = step(next, go_event()).0;
    let (next, a) = step(work, EstablishEvent::NotPunched("y".to_string()));
    match a {
        EstablishAction::ReportAbandoned { conn: 0, reason } => assert_eq!(reason, "max_failures: y"),
        _ => panic!("not given up"),
    }
    let (_, a) = step(next, EstablishEvent::Sent);
    assert!(matches!(a, EstablishAction::Finish));
}

#[test]
fn no_attempts_count_as_one() {
    let (_, a) = step(until_punch(0, 1), EstablishEvent::NotPunched("y".to_string()));
    assert!(matches!(a, EstablishAction::ReportAbandoned { conn: 0, .. }));
}

#[test]
fn loss_of_the_relay_ends_the_coordination() {
    let (work, _) = step(until_punch(5, 3), EstablishEvent::Punched);
    let (work, _) = step(work, EstablishEvent::Sent);
    let (work, _) = step(work, EstablishEvent::Bound);
    let loss = "Server error: Transport lost: relay connection closed".to_string();
    let (work, a) = step(work, EstablishEvent::NotCome(loss.clone()));
    match a {
        EstablishAction::ReportAbandoned { conn: 1, reason } => assert_eq!(reason, loss),
        _ => panic!("the loss was not understood"),
    }
    let (_, a) = step(work, EstablishEvent::Sent);
    assert!(matches!(a, EstablishAction::Finish));
}

#[test]
fn errors_of_the_relay_end_the_work() {
    let (work, _) = Establisher::start(false, 1, 5);
    let (work, _) = step(work, EstablishEvent::Bound);
    let (work, _) = step(work, EstablishEvent::Bound);
    let (work, a) = step(work, EstablishEvent::NotCome("Server error: session full".to_string()));
    match a {
        EstablishAction::Abort(text) => assert_eq!(text, "Server error: session full"),
        _ => panic!("went on"),
    }
    let (_, a) = step(work, EstablishEvent::Bound);
    match a {
        EstablishAction::Abort(text) => assert_eq!(text, "Unexpected event"),
        _ => panic!("went on"),
    }
}

#[test]
fn reasons_for_giving_up() {
    let reason = |a: EstablishAction| match a {
        EstablishAction::ReportAbandoned { reason, .. } => reason,
        _ => panic!("not given up"),
    };
    let (work, _) = Establisher::start(false, 1, 1);
    let (work, _) = step(work, EstablishEvent::Bound);
    let (_, a) = step(work, EstablishEvent::NotBound("no port".to_string()));
    assert_eq!(reason(a), "no port");
    let (work, _) = Establisher::start(false, 1, 1);
    let (work, _) = step(work, EstablishEvent::Bound);
    let (work, _) = step(work, EstablishEvent::Bound);
    let (_, a) = step(work, EstablishEvent::NotCome("late".to_string()));
    assert_eq!(reason(a), "peer_info: late");
    let (work, _) = Establisher::start(false, 1, 1);
    let (work, _) = step(work, EstablishEvent::Bound);
    let (work, _) = step(work, EstablishEvent::Bound);
    let (work, _) = step(work, info_event(1));
    let (_, a) = step(work, EstablishEvent::NotCome("late".to_string()));
    assert_eq!(reason(a), "go: late");
    let (work, _) = step(until_punch(2, 1), EstablishEvent::NotPunched("x".to_string()));
    let (work, _) = step(work, EstablishEvent::Sent);
    let (_, a) = step(work, EstablishEvent::NotCome("late".to_string()));
    assert_eq!(reason(a), "retry_granted: late");
    let (work, _) = step(until_punch(2, 1), EstablishEvent::NotPunched("x".to_string()));
    let (work, _) = step(work, EstablishEvent::Sent);
    let (work, _) = step(work, EstablishEvent::Granted);
    let (_, a) = step(work, EstablishEvent::NotBound("taken".to_string()));
    assert_eq!(reason(a), "Failed to bind socket for retry: taken");
}

#[test]
fn ports_of_other_sockets_are_taken() {
    let ports = vec![Some(5), None, Some(6)];
    assert!(port_in_use(&ports, 5, None));
    assert!(!port_in_use(&ports, 5, Some(0)));
    assert!(port_in_use(&ports, 6, Some(0)));
    assert!(!port_in_use(&ports, 7, None));
}

#[test]
fn free_ports_are_searched() {
    let ports = vec![Some(5)];
    let mut s = BindSearch::start();
    assert_eq!(s.tried(Some(5), &ports, None), BindStep::Bind);
    assert_eq!(s.tried(Some(0), &ports, None), BindStep::Bind);
    assert_eq!(s.tried(Some(9), &ports, None), BindStep::Use(9));
    assert_eq!(s.tried(Some(5), &ports, Some(0)), BindStep::Use(5));
    for _ in 0..7 {
        assert_eq!(s.tried(None, &ports, None), BindStep::Bind);
    }
    assert_eq!(s.tried(None, &ports, None), BindStep::GiveUp);
    assert_eq!((extra_sockets(4, 1), extra_sockets(1, 4)), (3, 0));
    assert!(socket_missing(2, 2) && !socket_missing(3, 2));
    assert_eq!((replaced_socket(1, 2), replaced_socket(2, 2)), (Some(1), None));
}

#[test]
fn new_ports_of_the_peer_are_told_once() {
    let mut n = PortNotifier::new();
    assert!(!n.observe(Vec::new()));
    assert!(n.observe(vec![1, 2]));
    assert!(!n.observe(vec![1, 2]));
    assert!(!n.observe(Vec::new()));
    assert!(n.observe(vec![2, 1]));
}
