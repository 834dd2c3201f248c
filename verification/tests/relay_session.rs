use tcp_multi_transfer::cli::{
    chunk_size_of, parse_chunk_size, split_chunk_size, split_upper, Args, ChunkFault, ChunkSpec, Mode,
    PredictionMode, DEFAULT_NAT_PROBE_COUNT, MAX_CHUNK_ARG, MIN_CHUNK_ARG,
};
use tcp_multi_transfer::netinfo::{tcp_info, TcpInfo};
use tcp_multi_transfer::peer::{
    bench_bytes, enough_connections, min_required, needs_file, BenchOpts, PortSearch,
};
use tcp_multi_transfer::protocol::relay::{AddrPart, RelayMessage};
use tcp_multi_transfer::relay::{
    announced_connections, announced_ports, bewerte_mapping, keepalive_line, observed_nat_port,
    parse_host_port, port_of_number, probes_complete_line, probing_after, registration_step,
    HostPortFault, Probe, ProbeSchedule, Probing, Registration, RegistrationStep, Seen,
};
use tcp_multi_transfer::text::{
    chars_of, contains, ends_with, is_white_space, parse_unsigned, push_decimal, same_text, starts_with,
    strip_end, text_of, trim,
};

#[test]
fn addresses_are_parted() {
    let parts = |s: &str| parse_host_port(s).unwrap();
    assert_eq!(parts("[::1%eth0]:8080"), ("::1%eth0".to_string(), 8080));
    assert_eq!(parts("[[ ]:0"), ("[ ".to_string(), 0));
    assert_eq!(parts("[]:65535"), (String::new(), 65535));
    assert_eq!(parts("relay.example.org:9000"), ("relay.example.org".to_string(), 9000));
    assert_eq!(parts("  10.0.0.1:80\n"), ("10.0.0.1".to_string(), 80));
    assert_eq!(parts("[2001:db8::1]:443"), ("2001:db8::1".to_string(), 443));
    assert_eq!(parts("[::1]443"), ("::1".to_string(), 443));
    assert_eq!(parts("[::1]::443"), ("::1".to_string(), 443));
    assert_eq!(parts("::1:443"), ("::1".to_string(), 443));
    assert_eq!(parts(":0"), (String::new(), 0));
    assert_eq!(parts("h:+5"), ("h".to_string(), 5));
}

#[test]
fn addresses_that_cannot_be_used() {
    for s in ["", "relay", "[::1", "[9000"] {
        assert!(matches!(parse_host_port(s), Err(HostPortFault::InvalidAddress)), "{}", s);
    }
    let bad = |s: &str| match parse_host_port(s) {
        Err(HostPortFault::InvalidPort(text)) => text,
        _ => panic!("the port was accepted"),
    };
    assert_eq!(bad("h:65536"), "65536");
    assert_eq!(bad("h:"), "");
    assert_eq!(bad("h: 80"), " 80");
    assert_eq!(bad("[::1]:x"), "x");
}

#[test]
fn probes_alternate_between_targets_and_ports() {
    assert!(ProbeSchedule::new(Vec::new(), true, 10).is_none());
    let s = ProbeSchedule::new(vec![40, 50], true, 3).unwrap();
    assert_eq!(s.count, 8);
    let all: Vec<(u16, bool, bool)> = (0..8)
        .map(|i| {
            let Probe { port, second, filter_test } = s.probe(i);
            (port, second, filter_test)
        })
        .collect();
    assert_eq!(
        all,
        vec![
            (40, false, false),
            (40, true, false),
            (50, false, false),
            (50, true, false),
            (40, false, false),
            (40, true, false),
            (50, false, false),
            (50, true, true),
        ]
    );
    let s = ProbeSchedule::new(vec![40, 50, 60], false, 10).unwrap();
    assert_eq!(s.count, 10);
    assert_eq!(s.probe(4), Probe { port: 50, second: false, filter_test: false });
    assert_eq!(s.probe(9), Probe { port: 40, second: false, filter_test: true });
}

fn seen(local_port: u16, target_port: u16, nat_port: u16) -> Seen {
    Seen { local_port, target_port, nat_port }
}

#[test]
fn mapping_of_the_nat() {
    assert_eq!(bewerte_mapping(&Vec::new()), None);
    assert_eq!(bewerte_mapping(&vec![seen(1, 9, 100), seen(1, 8, 200), seen(2, 9, 300)]), None);
    assert_eq!(bewerte_mapping(&vec![seen(1, 9, 100), seen(1, 8, 200), seen(1, 9, 100)]), Some(true));
    assert_eq!(
        bewerte_mapping(&vec![seen(1, 9, 100), seen(1, 9, 100), seen(2, 9, 5), seen(2, 9, 6)]),
        Some(false)
    );
}

#[test]
fn answers_to_probes() {
    assert_eq!(observed_nat_port("{\"type\":\"probe_ack\",\"your_nat_port\":41234}\n"), Some(41234));
    assert_eq!(observed_nat_port("{\"your_nat_port\":65535}"), Some(65535));
    assert_eq!(observed_nat_port("{\"your_nat_port\":65536}"), None);
    assert_eq!(observed_nat_port("{\"your_nat_port\":\"5\"}"), None);
    assert_eq!(observed_nat_port("{\"your_nat_port\":-5}"), None);
    assert_eq!(observed_nat_port("{\"port\":5}"), None);
    assert_eq!(observed_nat_port("[5]"), None);
    assert_eq!(observed_nat_port(""), None);
    assert_eq!(port_of_number(Some(9)), Some(9));
    assert_eq!(port_of_number(Some(131_072 + 9)), None);
    assert_eq!(port_of_number(Some(u64::MAX)), None);
    assert_eq!(port_of_number(None), None);
}

#[test]
fn registration_announces_what_differs() {
    assert_eq!((announced_connections(0), announced_connections(1)), (None, None));
    assert_eq!(announced_connections(2), Some(2));
    assert_eq!((announced_ports(0), announced_ports(16)), (Some(1), Some(16)));
    assert_eq!(probes_complete_line(), "{\"type\":\"probes_complete\"}\n");
    assert_eq!(keepalive_line(), "{\"type\":\"keepalive\"}\n");
}

fn registered(addr: Vec<AddrPart>) -> RelayMessage {
    RelayMessage::Registered {
        your_public_addr: addr,
        server_time: Some(12),
        probe_port: Some(99),
        probe_port2: None,
        needs_probing: Some(true),
        filter_test: None,
    }
}

#[test]
fn messages_during_a_registration() {
    let addr = vec![AddrPart::Text("198.51.100.7".to_string()), AddrPart::Unsigned(4242)];
    match registration_step(registered(addr)) {
        RegistrationStep::Done(r) => {
            assert_eq!((r.ip.as_str(), r.port, r.server_time), ("198.51.100.7", 4242, Some(12)));
            assert_eq!((r.probe_port, r.probe_port2), (Some(99), None));
            assert!(r.needs_probing && !r.filter_test);
        }
        _ => panic!("not registered"),
    }
    let bad = vec![AddrPart::Unsigned(1), AddrPart::Other];
    assert!(matches!(registration_step(registered(bad)), RegistrationStep::Ignore));
    assert!(matches!(registration_step(RelayMessage::Ping), RegistrationStep::Keepalive));
    assert!(matches!(registration_step(RelayMessage::KeepaliveAck), RegistrationStep::Ignore));
    match registration_step(RelayMessage::Error { message: "full".to_string() }) {
        RegistrationStep::Failed(text) => assert_eq!(text, "Server error: full"),
        _ => panic!("the error was passed over"),
    }
}

fn registration(probe_port: Option<u16>, needs_probing: bool, filter_test: bool) -> Registration {
    Registration {
        ip: String::new(),
        port: 0,
        server_time: None,
        probe_port,
        probe_port2: Some(7),
        needs_probing,
        filter_test,
    }
}

#[test]
fn probing_after_a_registration() {
    let all = registration(Some(9), true, true);
    assert_eq!(
        probing_after(&all, Some(1), true),
        Probing::FromBound { probe_port: 9, probe_port2: Some(7) }
    );
    assert_eq!(probing_after(&all, Some(1), false), Probing::Ephemeral { probe_port: 9 });
    let test = registration(Some(9), false, true);
    assert_eq!(
        probing_after(&test, Some(1), false),
        Probing::FilterTest { probe_port: 9, local_port: 1 }
    );
    assert_eq!(probing_after(&test, Some(0), true), Probing::Nothing);
    assert_eq!(probing_after(&test, None, true), Probing::Nothing);
    assert_eq!(probing_after(&registration(Some(9), false, false), Some(1), true), Probing::Nothing);
    assert_eq!(probing_after(&registration(None, true, true), Some(1), true), Probing::Nothing);
}

#[test]
fn white_space_is_that_of_unicode() {
    for c in '\0'..=char::MAX {
        assert_eq!(is_white_space(c), c.is_whitespace(), "{:?}", c);
    }
}

#[test]
fn text_functions_agree_with_std() {
    for s in ["", " ", "a", " a b ", "\u{3000}ä\u{2003}", "x\t\n", "\u{200b}z"] {
        assert_eq!(trim(s), s.trim());
        assert_eq!(text_of(&chars_of(s)), s);
        for t in ["", "a", " ", "b ", "ä", "xyz"] {
            assert_eq!(contains(s, t), s.contains(t));
            assert_eq!(starts_with(s, t), s.starts_with(t));
            assert_eq!(ends_with(s, t), s.ends_with(t));
            assert_eq!(same_text(s, t), s == t);
        }
    }
    assert_eq!(strip_end("5MBMB", "MB"), "5");
    assert_eq!(strip_end("5M", "MB"), "5M");
}

#[test]
fn numbers_read_back() {
    for n in [0u64, 7, 10, 65_535, 1_000_000, u64::MAX] {
        let mut s = "n".to_string();
        push_decimal(&mut s, n);
        assert_eq!(s, format!("n{}", n));
        assert_eq!(parse_unsigned(&s[1..], u64::MAX), Some(n));
    }
    for s in ["", "+", "-1", " 1", "1 ", "1x", "+-1", "++1", "18446744073709551616", "00", "+7", "007"] {
        assert_eq!(parse_unsigned(s, u64::MAX), s.parse::<u64>().ok(), "{}", s);
        assert_eq!(parse_unsigned(s, 65535), s.parse::<u16>().ok().map(u64::from), "{}", s);
    }
    assert_eq!(parse_unsigned("65536", 65535), None);
}

#[test]
fn ports_are_searched_upwards() {
    let mut s = PortSearch::start(65534, 3);
    let mut tried = Vec::new();
    while let Some(port) = s.next_port() {
        tried.push(port);
        s.tried(port != 65535);
    }
    assert_eq!(tried, vec![65534, 65535, 0, 1]);
    assert_eq!(s.found, vec![65534, 0, 1]);
    assert_eq!(s.local_port(), 65534);
    let mut none = PortSearch::start(5000, 0);
    let mut n = 0;
    while none.next_port().is_some() {
        none.tried(false);
        n += 1;
    }
    assert_eq!((n, none.local_port(), none.wanted), (100, 5000, 1));
}

#[test]
fn what_a_side_needs() {
    let bench = |mit_transfer| {
        Some(BenchOpts { megabytes: 1, rtt_probes: 2, sample_ms: 3, mit_transfer })
    };
    assert!(needs_file(true, None));
    assert!(!needs_file(false, None));
    assert!(!needs_file(true, bench(false)));
    assert!(needs_file(true, bench(true)));
    assert_eq!(min_required(false, 1, 4), 4);
    assert_eq!(min_required(true, 2, 4), 2);
    assert_eq!(min_required(true, 0, 4), 1);
    assert_eq!(bench_bytes(3), 3_145_728);
}

#[test]
fn when_there_are_enough_connections() {
    assert!(enough_connections(4, false, 1, 4));
    assert!(!enough_connections(3, false, 1, 4));
    assert!(enough_connections(2, true, 2, 4));
    assert!(!enough_connections(1, true, 2, 4));
    assert!(enough_connections(1, true, 0, 4));
    assert!(!enough_connections(0, true, 0, 4));
    assert!(enough_connections(0, false, 3, 0));
}

fn args() -> Args {
    Args {
        server: "h:1".to_string(),
        session_id: "s".to_string(),
        mode: Mode::Send,
        file: None,
        timeout: 30,
        probe_count: DEFAULT_NAT_PROBE_COUNT,
        probe_debug: false,
        prediction_mode: PredictionMode::Delta,
        prediction_range_extra_pct: 0,
        tcp_connections: 1,
        max_attempts: 3,
        allow_fallback: false,
        min_connections: 1,
        debug: false,
        chunk: "8MB".to_string(),
        punch_ports: 0,
        socket_budget: 0,
        max_candidates: 0,
        grace_ms: 200,
        grace_adaptiv: true,
        retry_pause_ms: 70,
        rotate_after_ms: 0,
        auto_parallel: true,
        prefer_lan: true,
        probe_from_bound: true,
        legacy: false,
        metrics_file: None,
        metrics_label: None,
        bench: None,
        bench_rtt: 20,
        bench_sample_ms: 100,
        bench_then_transfer: false,
    }
}

#[test]
fn switches_become_punch_options() {
    let o = args().punch_options();
    assert_eq!((o.parallel_ports, o.socket_budget), (1, 1));
    assert_eq!((o.max_candidates, o.rotate_after_ms), (None, None));
    assert_eq!((o.grace_ms, o.retry_pause_ms), (200, 70));
    let set = Args {
        punch_ports: 8,
        socket_budget: 64,
        max_candidates: 40,
        rotate_after_ms: 500,
        prefer_lan: false,
        grace_adaptiv: false,
        ..args()
    };
    let o = set.punch_options();
    assert_eq!((o.parallel_ports, o.socket_budget), (8, 64));
    assert_eq!((o.max_candidates, o.rotate_after_ms), (Some(40), Some(500)));
    assert!(!o.prefer_lan && !o.grace_adaptiv);
    let legacy = Args { legacy: true, ..set };
    let o = legacy.punch_options();
    assert_eq!((o.parallel_ports, o.grace_ms, o.max_candidates), (1, 300, None));
    assert!(args().probe_from_bound_ports());
    assert!(!legacy.probe_from_bound_ports());
    assert_eq!(PredictionMode::Delta.as_str(), "delta");
    assert_eq!(PredictionMode::External.as_str(), "external");
    assert_eq!(DEFAULT_NAT_PROBE_COUNT, 10);
}

#[test]
fn roles_and_files() {
    assert!(args().role_and_file().is_none());
    let sender = Args { file: Some("x".to_string()), ..args() }.role_and_file().unwrap();
    assert_eq!((sender.role, sender.file.as_str(), sender.must_exist), ("sender", "x", true));
    let bench = Args { bench: Some(4), ..args() };
    let b = bench.bench_opts().unwrap();
    assert_eq!((b.megabytes, b.rtt_probes, b.sample_ms, b.mit_transfer), (4, 20, 100, false));
    let only = bench.role_and_file().unwrap();
    assert_eq!((only.role, only.file.as_str(), only.must_exist), ("sender", "", false));
    let then = Args { bench_then_transfer: true, ..bench };
    assert!(then.role_and_file().is_none());
    let receiver = Args { mode: Mode::Receive, ..args() }.role_and_file().unwrap();
    assert_eq!((receiver.role, receiver.must_exist), ("receiver", false));
    assert!(args().bench_opts().is_none());
}

#[test]
fn block_sizes_are_parted() {
    let show = |parts: ChunkSpec| match parts {
        ChunkSpec::Mega(s) => format!("M {}", s),
        ChunkSpec::Kilo(s) => format!("K {}", s),
        ChunkSpec::Bytes(s) => format!("B {}", s),
    };
    assert_eq!(show(split_chunk_size(" 1.5mb ")), "M 1.5");
    assert_eq!(show(split_chunk_size("512 Kb")), "K 512");
    assert_eq!(show(split_chunk_size("65536b")), "B 65536");
    assert_eq!(show(split_chunk_size("65536")), "B 65536");
    assert_eq!(show(split_upper("2MB")), "M 2");
    assert_eq!(show(split_upper("2mb")), "B 2mb");
}

#[test]
fn block_sizes_are_bounded() {
    assert_eq!(parse_chunk_size("65536", None), Ok(65536));
    assert_eq!(parse_chunk_size("65535", None), Err(ChunkFault::TooSmall));
    assert_eq!(parse_chunk_size("268435456b", None), Ok(MAX_CHUNK_ARG));
    assert_eq!(parse_chunk_size("268435457", None), Err(ChunkFault::TooLarge));
    assert_eq!(parse_chunk_size("x", None), Err(ChunkFault::Invalid));
    assert_eq!(parse_chunk_size("xmb", None), Err(ChunkFault::Invalid));
    assert_eq!(parse_chunk_size("1.5mb", Some(1_572_864)), Ok(1_572_864));
    assert_eq!(parse_chunk_size("1kb", Some(1024)), Err(ChunkFault::TooSmall));
    assert_eq!(chunk_size_of(&split_upper("9MB"), Some(9_437_184)), Ok(9_437_184));
    assert_eq!(MIN_CHUNK_ARG, 65536);
}

#[test]
fn whole_block_sizes_are_read_in_every_unit() {
    for text in ["8MB", "8mb", "8Mb", " 8 mB\t", "\u{3000}8\u{20}MB\u{3000}", "+8mb", "008MB"] {
        assert_eq!(parse_chunk_size(text, None), Ok(8_388_608), "{}", text);
    }
    for text in ["8388608", "8388608B", "8388608 b", " 8388608\n"] {
        assert_eq!(parse_chunk_size(text, None), Ok(8_388_608), "{}", text);
    }
    assert_eq!(parse_chunk_size("64kb", None), Ok(65536));
    assert_eq!(parse_chunk_size("63KB", None), Err(ChunkFault::TooSmall));
    assert_eq!(parse_chunk_size("262144 KB", None), Ok(MAX_CHUNK_ARG));
    assert_eq!(parse_chunk_size("262145KB", None), Err(ChunkFault::TooLarge));
    assert_eq!(parse_chunk_size("1MB", None), Ok(1_048_576));
    assert_eq!(parse_chunk_size("0MB", None), Err(ChunkFault::TooSmall));
    assert_eq!(parse_chunk_size("256MB", None), Ok(MAX_CHUNK_ARG));
    assert_eq!(parse_chunk_size("257MB", None), Err(ChunkFault::TooLarge));
    assert_eq!(parse_chunk_size("18446744073709551615MB", None), Err(ChunkFault::TooLarge));
    assert_eq!(parse_chunk_size("8MBMB", None), Ok(8_388_608));
    assert_eq!(parse_chunk_size("MB", None), Err(ChunkFault::Invalid));
    assert_eq!(parse_chunk_size("-1MB", Some(0)), Err(ChunkFault::TooSmall));
}

#[test]
fn whole_block_sizes_are_those_of_floating_point() {
    for n in [0u64, 1, 63, 64, 255, 256, 257, 262_144, 262_145, 9_007_199_254_740_993, u64::MAX] {
        let scaled = |unit: f64| (format!("{}", n).parse::<f64>().unwrap() * unit) as usize;
        for (text, size) in [
            (format!("{}KB", n), scaled(1024.0)),
            (format!("{}MB", n), scaled(1024.0 * 1024.0)),
        ] {
            let expected = if size > MAX_CHUNK_ARG {
                Err(ChunkFault::TooLarge)
            } else if size < MIN_CHUNK_ARG {
                Err(ChunkFault::TooSmall)
            } else {
                Ok(size)
            };
            assert_eq!(parse_chunk_size(&text, None), expected);
            assert_eq!(parse_chunk_size(&text, Some(size)), expected);
        }
    }
}

fn kernel_record() -> TcpInfo {
    TcpInfo {
        snd_mss: 1,
        rtt: 2,
        rttvar: 3,
        snd_cwnd: 4,
        snd_ssthresh: 5,
        ca_state: 6,
        retransmits: 7,
        lost: 8,
        reordering: 9,
        total_retrans: 10,
        bytes_acked: 11,
        bytes_received: 12,
        segs_out: 13,
        segs_in: 14,
        min_rtt: 15,
        notsent_bytes: 16,
        delivery_rate: 17,
        busy_time: 18,
        rwnd_limited: 19,
        sndbuf_limited: 20,
        delivered: 21,
        bytes_sent: 22,
        bytes_retrans: 23,
    }
}

#[test]
fn older_kernels_tell_less() {
    let lens: Vec<usize> =
        [0, 103, 104, 143, 144, 159, 160, 191, 192, 215, 216, 248]
            .iter()
            .map(|len| tcp_info(&kernel_record(), *len).len())
            .collect();
    assert_eq!(lens, vec![9, 9, 10, 10, 14, 14, 16, 16, 20, 20, 23, 23]);
    let all = tcp_info(&kernel_record(), 248);
    assert_eq!((all[1].name, all[1].value), ("rtt_us", 2));
    assert_eq!((all[9].name, all[9].value), ("total_retrans", 10));
    assert_eq!((all[16].name, all[16].value), ("delivery_rate_bps", 136));
    assert_eq!((all[22].name, all[22].value), ("bytes_retrans", 23));
}
