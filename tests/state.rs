use netpulse::config::{Category, CheckType, MonitorConfig, Server};
use netpulse::models::{status_from, CheckResult, Status};
use netpulse::notify::{format_latency, notification_for, reconcile_cycle, COLOR_DOWN, COLOR_UP};
use netpulse::order::sort_results;
use netpulse::probe::{apply_discovery, ping_timeout, tcp_connected};
use netpulse::schedule::{expand_instances, make_result, seed_state, ProbeInstance};
use netpulse::state::{detect_transition, MonitorState, Transition};

fn result(server: &str, addr: &str, label: &str, ok: bool) -> CheckResult {
    CheckResult {
        category: "core".to_string(),
        server_name: server.to_string(),
        target_address: addr.to_string(),
        timestamp_ms: 1,
        check_type: label.to_string(),
        status: ok,
        latency_us: None,
        packet_loss: None,
        message: String::new(),
    }
}

fn ping_instance() -> ProbeInstance {
    ProbeInstance {
        category: "core".to_string(),
        server_name: "edge".to_string(),
        address: "10.9.0.1".to_string(),
        check: CheckType::Ping { count: 1, timeout_ms: 100 },
        max_retries: 1,
    }
}

#[test]
fn status_derivation() {
    assert_eq!(status_from(true), Status::Up);
    assert_eq!(status_from(false), Status::Down);
}

#[test]
fn transitions_from_baseline() {
    assert_eq!(detect_transition(None, Status::Down), Some(Transition { old: Status::Up, new: Status::Down }));
    assert_eq!(detect_transition(None, Status::Up), None);
    assert_eq!(detect_transition(Some(Status::Up), Status::Up), None);
    assert_eq!(detect_transition(Some(Status::Down), Status::Up), Some(Transition { old: Status::Down, new: Status::Up }));
}

#[test]
fn first_failure_reports_down() {
    let mut s = MonitorState::new();
    let t = s.record(result("a", "1.1.1.1", "Ping", false));
    assert_eq!(t, Some(Transition { old: Status::Up, new: Status::Down }));
}

#[test]
fn first_success_is_quiet() {
    let mut s = MonitorState::new();
    assert_eq!(s.record(result("a", "1.1.1.1", "Ping", true)), None);
}

#[test]
fn only_edges_report() {
    let mut s = MonitorState::new();
    let seq = [true, true, false, false, true, false];
    let fired: Vec<bool> = seq.iter().map(|&ok| s.record(result("a", "h", "TCP:22", ok)).is_some()).collect();
    assert_eq!(fired, vec![false, false, true, false, true, true]);
    assert_eq!(s.len(), 1);
}

#[test]
fn keys_are_separate() {
    let mut s = MonitorState::new();
    assert!(s.record(result("a", "h", "Ping", false)).is_some());
    assert!(s.record(result("a", "h", "TCP:80", false)).is_some());
    assert!(s.record(result("b", "h", "Ping", false)).is_some());
    assert_eq!(s.len(), 3);
}

#[test]
fn placeholder_is_no_baseline() {
    let mut s = MonitorState::new();
    let inst = ping_instance();
    seed_state(&mut s, &vec![inst.clone()], 0);
    assert_eq!(s.len(), 1);
    let key = "edge-10.9.0.1-Ping".to_string();
    let seeded = s.get(&key).unwrap();
    assert!(!seeded.status);
    assert_eq!(seeded.message, "Synchronizing status...");
    assert_eq!(s.record(result("edge", "10.9.0.1", "Ping", true)), None);
    let mut s2 = MonitorState::new();
    seed_state(&mut s2, &vec![inst], 0);
    assert_eq!(
        s2.record(result("edge", "10.9.0.1", "Ping", false)),
        Some(Transition { old: Status::Up, new: Status::Down })
    );
}

#[test]
fn seeding_keeps_measured_results() {
    let mut s = MonitorState::new();
    s.record(result("edge", "10.9.0.1", "Ping", true));
    seed_state(&mut s, &vec![ping_instance()], 0);
    assert!(s.get(&"edge-10.9.0.1-Ping".to_string()).unwrap().status);
}

#[test]
fn stored_result_reads_back() {
    let mut s = MonitorState::new();
    let mut r = result("db", "10.0.0.7", "TCP:5432", true);
    r.latency_us = Some(4_200);
    r.message = "TCP Handshake Success".to_string();
    s.record(r.clone());
    s.record(result("db", "10.0.0.8", "TCP:5432", false));
    let got = s.get(&r.tracked_key()).unwrap();
    assert_eq!(got.server_name, "db");
    assert_eq!(got.target_address, "10.0.0.7");
    assert_eq!(got.check_type, "TCP:5432");
    assert_eq!(got.latency_us, Some(4_200));
    assert_eq!(got.message, "TCP Handshake Success");
    assert!(got.status);
    let snap = s.snapshot();
    assert_eq!(snap.len(), 2);
    assert!(snap.iter().any(|x| x.target_address == "10.0.0.7" && x.latency_us == Some(4_200)));
    assert!(s.get(&"db-10.0.0.9-TCP:5432".to_string()).is_none());
}

#[test]
fn tracked_key_text() {
    assert_eq!(result("core-sw1", "10.0.0.1", "TCP:443", true).tracked_key(), "core-sw1-10.0.0.1-TCP:443");
}

#[test]
fn sorting_orders_by_category_server_label() {
    let mut a = result("b", "x", "Ping", true);
    a.category = "z".to_string();
    let b = result("b", "x", "TCP:22", true);
    let c = result("a", "x", "UDP:53", true);
    let d = result("b", "y", "Ping", true);
    let sorted = sort_results(vec![a, b, c, d]);
    let order: Vec<(String, String, String, String)> = sorted
        .iter()
        .map(|r| (r.category.clone(), r.server_name.clone(), r.check_type.clone(), r.target_address.clone()))
        .collect();
    assert_eq!(
        order,
        vec![
            ("core".into(), "a".into(), "UDP:53".into(), "x".into()),
            ("core".into(), "b".into(), "Ping".into(), "y".into()),
            ("core".into(), "b".into(), "TCP:22".into(), "x".into()),
            ("z".into(), "b".into(), "Ping".into(), "x".into()),
        ]
    );
}

#[test]
fn notification_fields_and_colors() {
    let hook = Some("http://hook".to_string());
    let mut r = result("core-sw1", "10.0.0.1", "TCP:443", false);
    r.message = "Port Timeout".to_string();
    let n = notification_for(&hook, &r, Transition { old: Status::Up, new: Status::Down }).unwrap();
    assert_eq!(n.url, "http://hook");
    assert_eq!(n.color, COLOR_DOWN);
    assert_eq!(n.fields.len(), 6);
    assert_eq!(n.fields[2].value, "Up \u{2192} Down");
    assert_eq!(n.fields[4].value, "N/A");
    assert_eq!(n.fields[5].name, "Reason");
    assert_eq!(n.fields[5].value, "Port Timeout");
    assert!(!n.fields[5].inline);
    let up = notification_for(&hook, &r, Transition { old: Status::Down, new: Status::Up }).unwrap();
    assert_eq!(up.color, COLOR_UP);
    assert!(notification_for(&None, &r, Transition { old: Status::Up, new: Status::Down }).is_none());
    assert_eq!(format_latency(Some(2_500)), "2.50ms");
}

#[test]
fn scenario_two_hosts_up_no_notification() {
    let config = MonitorConfig {
        categories: vec![Category {
            name: "core".to_string(),
            servers: vec![Server {
                name: "core-sw1".to_string(),
                address: "10.0.0.0/30".to_string(),
                checks: vec![CheckType::TcpPort { port: 443, timeout_ms: 3500 }],
                max_retries: 1,
            }],
        }],
        check_interval: 60,
        webhook_url: Some("http://hook".to_string()),
        api_port: 3000,
        max_concurrency: 1500,
    };
    let instances = expand_instances(&config);
    assert_eq!(instances.len(), 2);
    assert_eq!(instances[0].address, "10.0.0.1");
    assert_eq!(instances[1].address, "10.0.0.2");
    let mut state = MonitorState::new();
    seed_state(&mut state, &instances, 0);
    let results: Vec<CheckResult> = instances.iter().map(|i| make_result(i, 10, tcp_connected(800))).collect();
    let notes = reconcile_cycle(&mut state, results, &config.webhook_url);
    assert!(notes.is_empty());
    let snap = state.snapshot();
    assert_eq!(snap.len(), 2);
    assert!(snap.iter().all(|r| r.status && r.check_type == "TCP:443"));
}

#[test]
fn scenario_up_host_times_out() {
    let mut state = MonitorState::new();
    let inst = ping_instance();
    let hook = Some("http://hook".to_string());
    let first = reconcile_cycle(&mut state, vec![make_result(&inst, 1, netpulse::probe::ping_reply(500))], &hook);
    assert!(first.is_empty());
    let failed = apply_discovery(ping_timeout(), None);
    let notes = reconcile_cycle(&mut state, vec![make_result(&inst, 2, failed)], &hook);
    assert_eq!(notes.len(), 1);
    assert_eq!(notes[0].color, COLOR_DOWN);
    assert_eq!(notes[0].transition, Transition { old: Status::Up, new: Status::Down });
    let stored = state.get(&"edge-10.9.0.1-Ping".to_string()).unwrap();
    assert!(!stored.status);
    assert_eq!(stored.message, "Request Timeout (Packet Loss 100%)");
}

#[test]
fn scenario_no_webhook_no_dispatch() {
    let mut state = MonitorState::new();
    let mut sent = 0;
    for ok in [false, true, false, true, false] {
        sent += reconcile_cycle(&mut state, vec![result("a", "h", "Ping", ok)], &None).len();
    }
    assert_eq!(sent, 0);
    let with_hook = reconcile_cycle(&mut state, vec![result("a", "h", "Ping", true)], &Some("u".to_string()));
    assert_eq!(with_hook.len(), 1);
}

#[test]
fn placeholder_for_instance() {
    let p = netpulse::schedule::placeholder(&ping_instance(), 42);
    assert_eq!(p.check_type, "Ping");
    assert_eq!(p.timestamp_ms, 42);
    assert!(!p.status);
}

#[test]
fn seeding_twice_changes_nothing() {
    let mut s = MonitorState::new();
    let instances = vec![ping_instance()];
    seed_state(&mut s, &instances, 5);
    let first = s.snapshot();
    seed_state(&mut s, &instances, 9);
    let second = s.snapshot();
    assert_eq!(s.len(), 1);
    assert_eq!(first[0].timestamp_ms, 5);
    assert_eq!(second[0].timestamp_ms, 5);
}
