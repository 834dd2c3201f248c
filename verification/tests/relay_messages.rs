use tcp_multi_transfer::protocol::relay::{
    ready_line, retry_request_line, AddPortsMessage, AddrPart, ConnAbandonedMessage,
    ConnEstablishedMessage, ProbeMessage, RegisterMessage, RelayMessage,
};

#[test]
fn lines_to_the_relay() {
    assert_eq!(ready_line(0), "{\"type\":\"ready\",\"connection_num\":0}\n");
    assert_eq!(ready_line(4_294_967_295), "{\"type\":\"ready\",\"connection_num\":4294967295}\n");
    assert_eq!(retry_request_line(12), "{\"type\":\"retry_request\",\"connection_num\":12}\n");
    for line in [ready_line(7), retry_request_line(7)] {
        let value = serde_json::from_str::<serde_json::Value>(&line).unwrap();
        assert_eq!(value.get("connection_num").and_then(|n| n.as_u64()), Some(7));
    }
}

#[test]
fn messages_carry_their_type() {
    let register = RegisterMessage::new(
        "s",
        "sender",
        4000,
        Some("10.0.0.2".to_string()),
        Some("delta".to_string()),
        Some(1.5f64.to_bits()),
        Some(2),
        Some(true),
        Some(1),
        vec![4000, 4001],
        Some(16),
    );
    assert_eq!((register.msg_type.as_str(), register.session_id.as_str()), ("register", "s"));
    assert_eq!((register.role.as_str(), register.local_port), ("sender", 4000));
    assert_eq!(register.private_ip.as_deref(), Some("10.0.0.2"));
    assert_eq!(register.prediction_mode.as_deref(), Some("delta"));
    assert_eq!(register.prediction_range_extra_pct.map(f64::from_bits), Some(1.5));
    assert_eq!((register.tcp_connections, register.min_connections), (Some(2), Some(1)));
    assert_eq!((register.allow_fallback, register.punch_ports), (Some(true), Some(16)));
    assert_eq!(register.extra_ports, vec![4000, 4001]);
    let add = AddPortsMessage::new("s", vec![5]);
    assert_eq!((add.msg_type.as_str(), add.session_id.as_str(), add.ports), ("add_ports", "s", vec![5]));
    let established = ConnEstablishedMessage::new(3);
    assert_eq!((established.msg_type.as_str(), established.connection_num), ("conn_established", 3));
    let abandoned = ConnAbandonedMessage::new(4, Some("why".to_string()));
    assert_eq!((abandoned.msg_type.as_str(), abandoned.connection_num), ("conn_abandoned", 4));
    assert_eq!(abandoned.reason.as_deref(), Some("why"));
    let probe = ProbeMessage::new("s", 6, 7);
    assert_eq!((probe.msg_type.as_str(), probe.session_id.as_str()), ("probe", "s"));
    assert_eq!((probe.local_port, probe.probe_num, probe.filter_test), (6, 7, false));
    assert!(ProbeMessage::mit_filtertest("s", 6, 7).filter_test);
}

#[test]
fn addresses_of_the_relay() {
    let text = |s: &str| AddrPart::Text(s.to_string());
    let read = |parts: &[AddrPart]| RelayMessage::parse_addr(parts);
    assert_eq!(
        read(&[text("203.0.113.9"), AddrPart::Unsigned(65535)]),
        Some(("203.0.113.9".to_string(), 65535))
    );
    assert_eq!(read(&[text("h"), AddrPart::Unsigned(65536)]), None);
    assert_eq!(read(&[text("h"), text("80")]), None);
    assert_eq!(read(&[AddrPart::Unsigned(1), AddrPart::Unsigned(80)]), None);
    assert_eq!(read(&[text("h"), AddrPart::Other]), None);
    assert_eq!(read(&[text("h")]), None);
    assert_eq!(read(&[text("h"), AddrPart::Unsigned(80), AddrPart::Other]), None);
    assert_eq!(read(&[]), None);
}
