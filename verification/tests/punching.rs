use tcp_multi_transfer::metrics::{MetricsSink, PunchFault, PunchReport};
use tcp_multi_transfer::protocol::relay::{NATAnalysis, PeerAddressInfo};
use tcp_multi_transfer::punch::handshake::{connection_key, encode_greeting, open_greeting};
use tcp_multi_transfer::punch::strategy::{
    bind_port, channel_capacity, describe, effective_options, group_members, is_better, plan,
    warte_fenster, Attempt, CandidateInfo, Connector, NextAttempt, PunchPlan, Selection,
};
use tcp_multi_transfer::punch::targets::{build_targets, is_private_v4};
use tcp_multi_transfer::punch::{Endpoint, PeerInfo, PunchOptions, Target};
use tcp_multi_transfer::rounding::spread_index;

fn v4(a: u8, b: u8, c: u8, d: u8, port: u16) -> Endpoint {
    Endpoint::V4 { ip: u32::from_be_bytes([a, b, c, d]), port }
}

fn address(port: u16, addr_type: &str) -> PeerAddressInfo {
    PeerAddressInfo { ip: "203.0.113.9".to_string(), port, addr_type: addr_type.to_string() }
}

fn peer(ports: &[u16], band: Option<(u16, u16)>) -> (PeerInfo, Vec<Option<Endpoint>>) {
    let info = PeerInfo {
        peer_addresses: ports.iter().map(|p| address(*p, "public")).collect(),
        same_network: false,
        peer_nat_analysis: band.map(|(min_port, max_port)| NATAnalysis {
            min_port,
            max_port,
            ..Default::default()
        }),
        own_nat_analysis: None,
    };
    let parsed = ports.iter().map(|p| Some(v4(203, 0, 113, 9, *p))).collect();
    (info, parsed)
}

fn ports(targets: &[Target]) -> Vec<u16> {
    targets.iter().map(|t| t.addr.port()).collect()
}

#[test]
fn private_addresses() {
    for (a, b, private) in [
        (9, 255, false),
        (10, 0, true),
        (10, 255, true),
        (11, 0, false),
        (172, 15, false),
        (172, 16, true),
        (172, 31, true),
        (172, 32, false),
        (192, 167, false),
        (192, 168, true),
        (192, 169, false),
        (127, 0, false),
    ] {
        assert_eq!(is_private_v4(&v4(a, b, 1, 1, 1)), private, "{}.{}", a, b);
    }
    assert!(!is_private_v4(&Endpoint::V6 { ip: 1, port: 1, flowinfo: 0, scope_id: 0 }));
}

#[test]
fn targets_are_distinct_and_parsed_ones_only() {
    let (mut info, mut parsed) = peer(&[1000, 1001, 1000, 1002], None);
    parsed[3] = None;
    assert_eq!(ports(&build_targets(&info, &parsed, None)), vec![1000, 1001]);
    info.peer_addresses.clear();
    assert!(build_targets(&info, &Vec::new(), Some(3)).is_empty());
}

#[test]
fn local_targets_come_first() {
    let info = PeerInfo {
        peer_addresses: vec![
            address(1, "public"),
            address(2, "local"),
            address(3, "public"),
            address(4, "public"),
        ],
        same_network: true,
        peer_nat_analysis: None,
        own_nat_analysis: None,
    };
    let parsed = vec![
        Some(v4(8, 8, 8, 8, 1)),
        Some(v4(8, 8, 4, 4, 2)),
        Some(v4(192, 168, 0, 7, 3)),
        Some(v4(9, 9, 9, 9, 4)),
    ];
    let targets = build_targets(&info, &parsed, None);
    assert_eq!(ports(&targets), vec![2, 3, 1, 4]);
    assert_eq!(targets.iter().map(|t| t.is_lan).collect::<Vec<_>>(), vec![true, true, false, false]);
    assert_eq!(ports(&build_targets(&info, &parsed, Some(3))), vec![2, 3, 1]);
    assert_eq!(ports(&build_targets(&info, &parsed, Some(1))), vec![2]);
    assert_eq!(ports(&build_targets(&info, &parsed, Some(0))), vec![2]);
    let apart = PeerInfo { same_network: false, ..info };
    assert_eq!(ports(&build_targets(&apart, &parsed, None)), vec![2, 1, 3, 4]);
}

#[test]
fn a_limit_thins_evenly() {
    let list: Vec<u16> = (5000..5101).collect();
    let (info, parsed) = peer(&list, None);
    let targets = build_targets(&info, &parsed, Some(11));
    assert_eq!(
        ports(&targets),
        vec![5000, 5001, 5011, 5021, 5031, 5041, 5051, 5061, 5071, 5081, 5091]
    );
}

#[test]
fn a_limit_prefers_the_band() {
    let list: Vec<u16> = (5000..5100).collect();
    let (info, parsed) = peer(&list, Some((5040, 5059)));
    let targets = build_targets(&info, &parsed, Some(6));
    assert_eq!(ports(&targets), vec![5000, 5040, 5044, 5048, 5052, 5056]);
    let targets = build_targets(&info, &parsed, Some(31));
    assert_eq!(targets.len(), 31);
    let inside = ports(&targets).iter().filter(|p| (5040..=5059).contains(*p)).count();
    assert_eq!(inside, 20);
    assert_eq!(ports(&targets)[1..21], list[40..60]);
    assert!(ports(&targets)[21..].iter().all(|p| !(5040..=5059).contains(p)));
    let targets = build_targets(&info, &parsed, Some(21));
    assert_eq!(ports(&targets)[1..], list[40..60]);
    let (backwards, parsed) = peer(&list, Some((5059, 5040)));
    assert_eq!(ports(&build_targets(&backwards, &parsed, Some(3))), vec![5000, 5001, 5051]);
}

#[test]
fn a_limit_is_used_up() {
    for total in [2u16, 3, 10, 50, 200] {
        let list: Vec<u16> = (0..total).map(|i| 6000 + i).collect();
        for max in 1..total as usize {
            let (info, parsed) = peer(&list, Some((6005, 6010)));
            let targets = build_targets(&info, &parsed, Some(max));
            assert_eq!(targets.len(), max, "{} of {}", max, total);
            let mut seen = ports(&targets);
            seen.sort_unstable();
            seen.dedup();
            assert_eq!(seen.len(), max);
        }
        let (info, parsed) = peer(&list, None);
        assert_eq!(build_targets(&info, &parsed, Some(0)).len(), 1);
        let mut twice = list.clone();
        twice.extend_from_slice(&list);
        let (info, parsed) = peer(&twice, None);
        assert_eq!(ports(&build_targets(&info, &parsed, Some(total as usize))), list);
    }
}

#[test]
fn positions_are_those_of_floating_point() {
    for len in 1..120usize {
        for n in 1..120usize {
            let step = len as f64 / n as f64;
            for i in 0..n {
                let expected = (((i as f64) * step).round() as usize).min(len - 1);
                assert_eq!(spread_index(i, len, n), expected, "{} {} {}", i, len, n);
            }
        }
    }
    let mut x: u64 = 12345;
    for _ in 0..20000 {
        x = x.wrapping_mul(6364136223846793005).wrapping_add(1442695040888963407);
        let len = ((x >> 14) % (1 << 49)) as usize + 1;
        x = x.wrapping_mul(6364136223846793005).wrapping_add(1442695040888963407);
        let n = ((x >> 14) % (1 << 49)) as usize + 1;
        x = x.wrapping_mul(6364136223846793005).wrapping_add(1442695040888963407);
        let i = ((x >> 14) % n as u64) as usize;
        let step = len as f64 / n as f64;
        let expected = (((i as f64) * step).round() as usize).min(len - 1);
        assert_eq!(spread_index(i, len, n), expected, "{} {} {}", i, len, n);
    }
}

#[test]
fn long_lists_may_pass_over_a_place() {
    let (len, n) = (322_122_543usize, 322_122_546usize);
    assert_eq!(spread_index(268_435_458, len, n), 268_435_455);
    assert_eq!(spread_index(268_435_459, len, n), 268_435_457);
    let (len, n) = (268_435_456usize, 268_435_459usize);
    assert_eq!(spread_index(0, len, n), 0);
    assert_eq!(spread_index(n - 1, len, n), len - 1);
    for i in (0..n - 1).step_by(999_983).chain(134_217_700..134_217_760) {
        let (here, next) = (spread_index(i, len, n), spread_index(i + 1, len, n));
        assert!(here <= next && next <= here + 1);
    }
}

#[test]
fn options_of_punching() {
    let o = PunchOptions::default();
    assert_eq!((o.parallel_ports, o.socket_budget, o.grace_ms, o.retry_pause_ms), (16, 512, 300, 100));
    assert!(o.prefer_lan && o.grace_adaptiv);
    let l = PunchOptions::legacy();
    assert_eq!((l.parallel_ports, l.prefer_lan, l.grace_adaptiv), (1, false, false));
    assert_eq!(l.max_candidates, None);
}

#[test]
fn wait_for_a_better_candidate() {
    let o = PunchOptions::default();
    assert_eq!(warte_fenster(&o, 107), 107);
    assert_eq!(warte_fenster(&o, 10), 50);
    assert_eq!(warte_fenster(&o, 5000), 300);
    let short = PunchOptions { grace_ms: 20, ..o };
    assert_eq!(warte_fenster(&short, 10), 20);
    assert_eq!(warte_fenster(&short, 100), 20);
    let fixed = PunchOptions { grace_adaptiv: false, ..o };
    assert_eq!(warte_fenster(&fixed, 10), 300);
}

fn candidate(key: (u64, u64), is_lan: bool) -> CandidateInfo {
    CandidateInfo { local_port: 4000, remote_port: 5000, is_lan, slot: Some(1), key }
}

#[test]
fn local_candidates_win_and_then_the_smaller_key() {
    let a = candidate((1, 9), false);
    let b = candidate((1, 8), false);
    let lan = candidate((7, 7), true);
    assert!(is_better(&b, &a, true));
    assert!(!is_better(&a, &b, true));
    assert!(!is_better(&a, &a, true));
    assert!(is_better(&lan, &b, true));
    assert!(!is_better(&b, &lan, true));
    assert!(!is_better(&lan, &b, false));
    assert_eq!(describe(&lan), "local=4000 remote=5000 LAN");
    assert_eq!(describe(&a), "local=4000 remote=5000 WAN");
}

#[test]
fn both_sides_keep_the_same_connection() {
    let list = [
        candidate((5, 6), false),
        candidate((3, 9), false),
        candidate((3, 4), false),
        candidate((8, 8), false),
    ];
    let keep = |order: &[usize]| {
        let mut s = Selection::first(list[order[0]], true);
        for i in &order[1..] {
            s.offer(list[*i]);
        }
        (s.winner.key, s.seen)
    };
    assert_eq!(keep(&[0, 1, 2, 3]), ((3, 4), 4));
    assert_eq!(keep(&[3, 2, 1, 0]), ((3, 4), 4));
    assert_eq!(keep(&[2, 0, 3, 1]), ((3, 4), 4));
}

#[test]
fn selection_counts_and_switches() {
    let mut s = Selection::first(candidate((5, 6), false), true);
    assert!(s.waits());
    assert!(!s.offer(candidate((6, 6), false)));
    assert!(!s.switched);
    assert!(s.offer(candidate((9, 9), true)));
    assert!(s.switched);
    assert!(!s.waits());
    assert_eq!(s.seen, 3);
    assert!(Selection::first(candidate((1, 1), true), false).waits());
}

#[test]
fn sockets_stay_within_the_budget() {
    let o = PunchOptions::default();
    assert_eq!(
        plan(&o, 10),
        PunchPlan { ports_per_target: 16, groups: 10, rotate_after_ms: None }
    );
    assert_eq!(
        plan(&o, 100),
        PunchPlan { ports_per_target: 5, groups: 100, rotate_after_ms: None }
    );
    assert_eq!(
        plan(&o, 600),
        PunchPlan { ports_per_target: 1, groups: 512, rotate_after_ms: Some(800) }
    );
    let small = PunchOptions { socket_budget: 0, parallel_ports: 0, rotate_after_ms: Some(5), ..o };
    assert_eq!(
        plan(&small, 3),
        PunchPlan { ports_per_target: 1, groups: 1, rotate_after_ms: Some(5) }
    );
    for targets in 1..700usize {
        for budget in [0usize, 1, 7, 512, 1000] {
            let p = plan(&PunchOptions { socket_budget: budget, ..o }, targets);
            assert!(p.groups * p.ports_per_target <= budget.max(1));
            assert!(p.groups >= 1);
            assert_eq!(p.groups < targets, p.rotate_after_ms.is_some());
        }
    }
    assert_eq!(channel_capacity(10, 16), 162);
    assert_eq!(channel_capacity(1, 1), 4);
}

#[test]
fn groups_part_the_targets() {
    let list: Vec<u16> = (1..=10).collect();
    let (info, parsed) = peer(&list, None);
    let targets = build_targets(&info, &parsed, None);
    assert_eq!(ports(&group_members(&targets, 0, 3)), vec![1, 4, 7, 10]);
    assert_eq!(ports(&group_members(&targets, 2, 3)), vec![3, 6, 9]);
    assert!(group_members(&targets, 12, 20).is_empty());
    for groups in 1..=12usize {
        let mut all: Vec<u16> =
            (0..groups).flat_map(|g| ports(&group_members(&targets, g, groups))).collect();
        all.sort_unstable();
        assert_eq!(all, list);
    }
}

#[test]
fn connectors_serve_their_targets_in_turn() {
    assert!(Connector::start(0, None).is_none());
    let mut c = Connector::start(3, Some(800)).unwrap();
    assert!(!c.turn(799));
    assert_eq!(c.index, 0);
    let mut order = Vec::new();
    for _ in 0..5 {
        assert!(c.turn(800));
        order.push(c.index);
    }
    assert_eq!(order, vec![1, 2, 0, 1, 2]);
    assert_eq!(c.wait_limit_ms(), Some(800));
    assert_eq!(c.after(Attempt::TimedOut), NextAttempt::Again);
    let mut alone = Connector::start(1, Some(800)).unwrap();
    assert!(!alone.turn(9000));
    assert_eq!(alone.wait_limit_ms(), None);
    assert_eq!(alone.after(Attempt::TimedOut), NextAttempt::Stop);
    let fixed = Connector::start(3, None).unwrap();
    assert_eq!(fixed.after(Attempt::TimedOut), NextAttempt::Stop);
    assert_eq!(fixed.after(Attempt::Greeted), NextAttempt::Report);
    for a in [Attempt::NotStarted, Attempt::Refused, Attempt::NotGreeted] {
        assert_eq!(fixed.after(a), NextAttempt::Pause);
    }
    assert_eq!(bind_port(0, 4711), 4711);
    assert_eq!(bind_port(3, 4711), 0);
}

#[test]
fn one_port_suffices_behind_a_predictable_nat() {
    let o = PunchOptions::default();
    assert_eq!(effective_options(&o, true, Some(true)).parallel_ports, 16);
    assert_eq!(effective_options(&o, true, Some(false)).parallel_ports, 1);
    assert_eq!(effective_options(&o, true, None).parallel_ports, 1);
    assert_eq!(effective_options(&o, false, None).parallel_ports, 16);
}

#[test]
fn both_sides_find_the_same_key() {
    let (a, b) = (77u64, 0x0102_0304_0506_0708u64);
    assert_eq!(encode_greeting(b), b"HPCH\x02\x01\x02\x03\x04\x05\x06\x07\x08".to_vec());
    assert_eq!(connection_key(a, &encode_greeting(b)), Some((a, b)));
    assert_eq!(connection_key(b, &encode_greeting(a)), Some((a, b)));
    let mut old = encode_greeting(a);
    old[4] = 1;
    assert_eq!(connection_key(b, &old), None);
    let mut foreign = encode_greeting(a);
    foreign[0] = b'h';
    assert_eq!(connection_key(b, &foreign), None);
}

#[test]
fn greetings_are_drawn_at_random() {
    let draws: Vec<(u64, Vec<u8>)> = (0..8).map(|_| open_greeting()).collect();
    for (own, bytes) in &draws {
        assert_eq!(bytes, &encode_greeting(*own));
    }
    assert!(draws.iter().any(|d| d.0 != draws[0].0));
}

#[test]
fn reports_of_punch_attempts() {
    let (info, parsed) = peer(&[1, 2, 3], None);
    let targets = build_targets(&info, &parsed, None);
    let o = PunchOptions::default();
    let mut r = PunchReport::new(4, Some(true));
    assert_eq!((r.conn_num, r.outcome, r.mapping_stable), (4, "failed", Some(true)));
    assert_eq!(r.begin(&Vec::new(), &o, Some(1)), Err(PunchFault::NoTargets));
    assert_eq!(r.error.as_deref(), Some("no target addresses"));
    assert_eq!(r.begin(&targets, &o, None), Err(PunchFault::NoLocalPort));
    assert_eq!(r.error.as_deref(), Some("bound socket without IP address"));
    let mut r = PunchReport::new(0, None);
    let p = r.begin(&targets, &o, Some(9)).unwrap();
    assert_eq!((r.candidates_total, r.candidates_lan, r.ports_per_target), (3, 0, 16));
    r.punching(&p);
    assert!(!r.rotating);
    r.listener_failed("in use");
    assert_eq!(r.error.as_deref(), Some("listener: in use"));
    r.no_candidate();
    assert_eq!((r.error.as_deref(), r.outcome), (Some("no candidate"), "failed"));
    r.timed_out("30s");
    assert_eq!((r.error.as_deref(), r.outcome), (Some("timed out after 30s"), "timeout"));
    let mut s = Selection::first(candidate((5, 6), false), true);
    s.offer(candidate((1, 2), true));
    r.chosen(&s);
    assert_eq!((r.outcome, r.candidates_seen, r.grace_switch), ("established", 2, true));
    assert_eq!((r.winner_local_port, r.winner_remote_port, r.winner_is_lan), (4000, 5000, true));
    assert_eq!(r.winner_slot, Some(1));
}

#[test]
fn metrics_without_a_path_are_off() {
    let off = MetricsSink::new(None, Some("run".to_string()));
    assert!(!off.enabled());
    assert_eq!(off.label().as_deref(), Some("run"));
    let on = MetricsSink::new(Some("m.jsonl".to_string()), None);
    assert!(on.enabled());
    assert_eq!(on.path().as_deref(), Some("m.jsonl"));
}
