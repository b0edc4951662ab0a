use ring::ports::decimal_text;
use ring::ports::format_ports;
use ring::ports::parse_ports;
use ring::probe::icmp_attempt_outcome;
use ring::probe::tcp_attempt_outcome;
use ring::probe::Probe;
use ring::probe::ProbeAction;
use ring::probe::Resolution;
use ring::result::aggregate;
use ring::result::classify;
use ring::result::AttemptOutcome;
use ring::result::HostResult;
use ring::result::ProbeError;
use ring::result::Status;
use ring::result::TestKind;
use ring::scan::expand_targets;
use ring::scan::validate;
use ring::scan::ConfigError;
use ring::scan::CycleAction;
use ring::scan::ProbeTarget;
use ring::scan::Scheduler;

fn tcp_target(host: &str, port: u16) -> ProbeTarget {
    ProbeTarget { host: host.to_string(), port: Some(port), kind: TestKind::Tcp }
}

fn icmp_target(host: &str) -> ProbeTarget {
    ProbeTarget { host: host.to_string(), port: None, kind: TestKind::Icmp }
}

fn run_probe(probe: &mut Probe, outcomes: Vec<AttemptOutcome>) -> usize {
    let mut sent = 0;
    for o in outcomes {
        match probe.next_action() {
            ProbeAction::Attempt { .. } => {
                probe.on_attempt(o);
                sent += 1;
            }
            ProbeAction::Done => break,
        }
    }
    sent
}

#[test]
fn ports_list_and_range() {
    assert_eq!(parse_ports("80,443,1000-1002"), vec![80, 443, 1000, 1001, 1002]);
}

#[test]
fn ports_malformed_token_dropped() {
    assert_eq!(parse_ports("abc,80"), vec![80]);
}

#[test]
fn ports_edge_cases() {
    assert_eq!(parse_ports(""), Vec::<u16>::new());
    assert_eq!(parse_ports("5-3"), Vec::<u16>::new());
    assert_eq!(parse_ports("7-7"), vec![7]);
    assert_eq!(parse_ports("1-2-3"), Vec::<u16>::new());
    assert_eq!(parse_ports("1-2-3,4"), vec![4]);
    assert_eq!(parse_ports("+80"), vec![80]);
    assert_eq!(parse_ports("0080"), vec![80]);
    assert_eq!(parse_ports("65535,65536"), vec![65535]);
    assert_eq!(parse_ports("65534-65535"), vec![65534, 65535]);
    assert_eq!(parse_ports("1-x,,22, 23,-5,6-"), vec![22]);
    assert_eq!(parse_ports("+"), Vec::<u16>::new());
}

#[test]
fn ports_reparse_is_idempotent() {
    for spec in ["80,443,1000-1002", "abc,80", "", "9-7,+5,0,65535", "3-5,1"] {
        let once = parse_ports(spec);
        let text = format_ports(&once);
        assert_eq!(parse_ports(&text), once);
    }
    assert_eq!(format_ports(&vec![80, 443, 1000]), "80,443,1000");
    assert_eq!(format_ports(&vec![]), "");
}

#[test]
fn ports_siblings_independent() {
    assert_eq!(parse_ports("1-3,zz,9"), vec![1, 2, 3, 9]);
    assert_eq!(parse_ports("zz,1-3"), vec![1, 2, 3]);
}

#[test]
fn decimal_text_values() {
    assert_eq!(decimal_text(0), "0");
    assert_eq!(decimal_text(9), "9");
    assert_eq!(decimal_text(10), "10");
    assert_eq!(decimal_text(1700000000), "1700000000");
    assert_eq!(decimal_text(u64::MAX), "18446744073709551615");
}

#[test]
fn classify_statuses() {
    assert_eq!(classify(3, 3), Status::Up);
    assert_eq!(classify(0, 3), Status::Down);
    assert_eq!(classify(1, 3), Status::Partial);
    assert_eq!(Status::Up.as_text(), "up");
    assert_eq!(Status::Down.as_text(), "down");
    assert_eq!(Status::Partial.as_text(), "partial");
    assert_eq!(TestKind::Tcp.as_text(), "tcp");
    assert_eq!(TestKind::Icmp.as_text(), "icmp");
}

#[test]
fn aggregate_all_up() {
    let r = aggregate(
        "h".to_string(),
        Some(80),
        TestKind::Tcp,
        &vec![AttemptOutcome::Success(10), AttemptOutcome::Success(20), AttemptOutcome::Success(30)],
    );
    assert_eq!(r.attempts, 3);
    assert_eq!(r.successful, 3);
    assert_eq!(r.status, Status::Up);
    assert_eq!(r.error, None);
    assert_eq!(r.response_times, vec![10, 20, 30]);
    assert_eq!(r.average_parts(), Some((60, 3)));
    assert_eq!(r.success_ratio(), (3, 3));
}

#[test]
fn aggregate_partial_clears_error() {
    let r = aggregate(
        "h".to_string(),
        Some(80),
        TestKind::Tcp,
        &vec![
            AttemptOutcome::Failure(ProbeError::Timeout),
            AttemptOutcome::Success(7),
            AttemptOutcome::Failure(ProbeError::ConnectionError("refused".to_string())),
        ],
    );
    assert_eq!(r.successful, 1);
    assert_eq!(r.status, Status::Partial);
    assert_eq!(r.error, None);
    assert_eq!(r.response_times, vec![7]);
    assert_eq!(r.average_parts(), Some((7, 1)));
}

#[test]
fn aggregate_down_keeps_latest_error() {
    let r = aggregate(
        "h".to_string(),
        None,
        TestKind::Icmp,
        &vec![
            AttemptOutcome::Failure(ProbeError::PingError("a".to_string())),
            AttemptOutcome::Failure(ProbeError::PingError("b".to_string())),
        ],
    );
    assert_eq!(r.successful, 0);
    assert_eq!(r.status, Status::Down);
    assert_eq!(r.error, Some(ProbeError::PingError("b".to_string())));
    assert_eq!(r.average_parts(), None);
}

#[test]
fn average_overflow_is_absent() {
    let r = aggregate(
        "h".to_string(),
        Some(1),
        TestKind::Tcp,
        &vec![AttemptOutcome::Success(u128::MAX), AttemptOutcome::Success(1)],
    );
    assert_eq!(r.status, Status::Up);
    assert_eq!(r.average_parts(), None);
}

#[test]
fn error_texts() {
    assert_eq!(ProbeError::DnsResolutionFailed.as_text(), "dns_resolution_failed");
    assert_eq!(ProbeError::DnsError("x".to_string()).as_text(), "dns_error: x");
    assert_eq!(ProbeError::ConnectionError("refused".to_string()).as_text(), "connection_error: refused");
    assert_eq!(ProbeError::Timeout.as_text(), "timeout");
    assert_eq!(ProbeError::PingError("lost".to_string()).as_text(), "ping_error: lost");
    assert_eq!(
        ProbeError::IcmpClientError("denied".to_string()).as_text(),
        "icmp_client_error: denied (try running as root/admin)"
    );
}

#[test]
fn failed_record() {
    let r = HostResult::failed("h".to_string(), Some(22), TestKind::Tcp, 4, ProbeError::DnsResolutionFailed);
    assert_eq!(r.attempts, 4);
    assert_eq!(r.successful, 0);
    assert_eq!(r.status, Status::Down);
    assert_eq!(r.error, Some(ProbeError::DnsResolutionFailed));
    assert!(r.response_times.is_empty());
}

#[test]
fn expansion_host_major_order() {
    let hosts = vec!["a".to_string(), "b".to_string()];
    let ports = vec![80, 443, 22];
    let t = expand_targets(&hosts, &ports, true);
    assert_eq!(t.len(), 8);
    let tcp: Vec<(String, Option<u16>)> = t[..6].iter().map(|x| (x.host.clone(), x.port)).collect();
    assert_eq!(
        tcp,
        vec![
            ("a".to_string(), Some(80)),
            ("a".to_string(), Some(443)),
            ("a".to_string(), Some(22)),
            ("b".to_string(), Some(80)),
            ("b".to_string(), Some(443)),
            ("b".to_string(), Some(22)),
        ]
    );
    assert!(t[..6].iter().all(|x| x.kind == TestKind::Tcp));
    assert_eq!(t[6].host, "a");
    assert_eq!(t[7].host, "b");
    assert!(t[6..].iter().all(|x| x.kind == TestKind::Icmp && x.port.is_none()));
    assert_eq!(expand_targets(&hosts, &vec![], false).len(), 0);
    assert_eq!(expand_targets(&hosts, &vec![], true).len(), 2);
}

#[test]
fn config_validation() {
    assert_eq!(validate(0, 1, true, 3), Err(ConfigError::NoHosts));
    assert_eq!(validate(1, 0, false, 3), Err(ConfigError::NoPortsAndNoPing));
    assert_eq!(validate(1, 0, true, 0), Err(ConfigError::ZeroAttempts));
    assert_eq!(validate(1, 0, true, 3), Ok(()));
    assert_eq!(validate(2, 5, false, 1), Ok(()));
    assert_eq!(ConfigError::NoHosts.message(), "You must provide at least one host!");
    assert_eq!(
        ConfigError::NoPortsAndNoPing.message(),
        "You must provide at least one port or enable --ping!"
    );
}

#[test]
fn scheduler_once_and_repeat() {
    let mut once = Scheduler::new(true);
    assert!(once.is_running());
    let (scan, action) = once.complete_cycle(1700000000, vec![]);
    assert_eq!(action, CycleAction::Stop);
    assert_eq!(scan.scan_timestamp, "1700000000");
    assert!(!once.is_running());

    let mut repeat = Scheduler::new(false);
    let (_, action) = repeat.complete_cycle(5, vec![]);
    assert_eq!(action, CycleAction::Sleep(5000));
    assert!(repeat.is_running());
}

#[test]
fn tcp_nothing_listening() {
    let mut p = Probe::new(tcp_target("127.0.0.1", 9), 1);
    p.on_resolution(Resolution::Found);
    let o = tcp_attempt_outcome(Some(Err("Connection refused (os error 111)".to_string())), 0);
    assert_eq!(run_probe(&mut p, vec![o]), 1);
    assert_eq!(p.next_action(), ProbeAction::Done);
    let r = p.finish();
    assert_eq!(r.test_type.as_text(), "tcp");
    assert_eq!(r.attempts, 1);
    assert_eq!(r.successful, 0);
    assert_eq!(r.status.as_text(), "down");
    let e = r.error.unwrap().as_text();
    assert!(e.starts_with("connection_error:") || e == "timeout");
}

#[test]
fn tcp_timeout_outcome() {
    let mut p = Probe::new(tcp_target("127.0.0.1", 9), 1);
    p.on_resolution(Resolution::Found);
    run_probe(&mut p, vec![tcp_attempt_outcome(None, 50)]);
    let r = p.finish();
    assert_eq!(r.error, Some(ProbeError::Timeout));
}

#[test]
fn single_shot_three_successes() {
    let targets = expand_targets(&vec!["127.0.0.1".to_string()], &vec![8080], false);
    assert_eq!(targets.len(), 1);
    let mut sched = Scheduler::new(true);
    let mut results = Vec::new();
    for t in targets {
        let mut p = Probe::new(t, 3);
        p.on_resolution(Resolution::Found);
        let sent = run_probe(
            &mut p,
            vec![
                tcp_attempt_outcome(Some(Ok(())), 1),
                tcp_attempt_outcome(Some(Ok(())), 2),
                tcp_attempt_outcome(Some(Ok(())), 3),
                tcp_attempt_outcome(Some(Ok(())), 4),
            ],
        );
        assert_eq!(sent, 3);
        results.push(p.finish());
    }
    let (scan, action) = sched.complete_cycle(0, results);
    assert_eq!(scan.results.len(), 1);
    let r = &scan.results[0];
    assert_eq!(r.attempts, 3);
    assert_eq!(r.successful, 3);
    assert_eq!(r.status, Status::Up);
    assert_eq!(r.average_parts(), Some((6, 3)));
    assert_eq!(action, CycleAction::Stop);
    assert!(!sched.is_running());
}

#[test]
fn icmp_without_privilege() {
    let mut p = Probe::new(icmp_target("example.org"), 4);
    p.on_resolution(Resolution::Found);
    p.on_session(Err("Operation not permitted (os error 1)".to_string()));
    assert_eq!(p.next_action(), ProbeAction::Done);
    let r = p.finish();
    assert_eq!(r.attempts, 4);
    assert_eq!(r.successful, 0);
    assert_eq!(r.status, Status::Down);
    assert_eq!(r.port, None);
    assert_eq!(r.test_type, TestKind::Icmp);
    assert!(r.error.unwrap().as_text().starts_with("icmp_client_error:"));
}

#[test]
fn icmp_sequence_and_identifier() {
    let mut p = Probe::new(icmp_target("10.0.0.1"), 2);
    p.on_session(Ok(()));
    let id = p.identifier;
    assert_eq!(p.next_action(), ProbeAction::Attempt { identifier: id, sequence: 1 });
    p.on_attempt(icmp_attempt_outcome(Err("timeout".to_string())));
    assert_eq!(p.next_action(), ProbeAction::Attempt { identifier: id, sequence: 2 });
    p.on_attempt(icmp_attempt_outcome(Ok(12)));
    assert_eq!(p.next_action(), ProbeAction::Done);
    let r = p.finish();
    assert_eq!(r.status, Status::Partial);
    assert_eq!(r.error, None);
    assert_eq!(r.response_times, vec![12]);
}

#[test]
fn dns_failures_stop_probe() {
    let mut p = Probe::new(tcp_target("no.such.host", 80), 3);
    p.on_resolution(Resolution::NoAddress);
    assert_eq!(p.next_action(), ProbeAction::Done);
    let r = p.finish();
    assert_eq!(r.error, Some(ProbeError::DnsResolutionFailed));
    assert_eq!(r.attempts, 3);

    let mut q = Probe::new(icmp_target("bad"), 2);
    q.on_resolution(Resolution::Failed("lookup failed".to_string()));
    let r = q.finish();
    assert_eq!(r.error.unwrap().as_text(), "dns_error: lookup failed");
}
