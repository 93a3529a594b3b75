use netpulse::config::{default_api_port, default_max_concurrency, default_max_retries, default_ping_count, default_timeout, CheckType};
use netpulse::probe::{
    apply_discovery, discovery_ports, first_address, format_ms_hundredths, format_ms_tenths, needs_discovery, pause_after_failed_echo,
    ping_reply, ping_timeout, resolution_failure, tcp_connected, tcp_refused, tcp_timeout, udp_send_failed, udp_sent,
    udp_socket_error, DiscoveryHit, RetryController,
};
use netpulse::schedule::{delay_until_next_cycle, Admission};
use netpulse::text::decimal;

fn attempts_for(max_retries: u32, outcomes: &[bool]) -> u64 {
    let mut c = RetryController::new(max_retries);
    let mut k = 0;
    while c.should_attempt() {
        let ok = outcomes.get(k).copied().unwrap_or(false);
        c.record_attempt(ok);
        k += 1;
    }
    c.attempts
}

#[test]
fn defaults() {
    assert_eq!(default_api_port(), 3000);
    assert_eq!(default_max_concurrency(), 1500);
    assert_eq!(default_max_retries(), 1);
    assert_eq!(default_ping_count(), 1);
    assert_eq!(default_timeout(), 3500);
}

#[test]
fn check_labels() {
    assert_eq!(CheckType::Ping { count: 1, timeout_ms: 10 }.label(), "Ping");
    assert_eq!(CheckType::TcpPort { port: 443, timeout_ms: 10 }.label(), "TCP:443");
    assert_eq!(CheckType::UdpPort { port: 53, timeout_ms: 10 }.label(), "UDP:53");
    assert_eq!(CheckType::TcpPort { port: 0, timeout_ms: 10 }.label(), "TCP:0");
}

#[test]
fn decimal_text() {
    assert_eq!(decimal(0), "0");
    assert_eq!(decimal(65535), "65535");
    assert_eq!(decimal(u64::MAX), "18446744073709551615");
}

#[test]
fn retries_stop_at_cap() {
    assert_eq!(attempts_for(2, &[false, false, false, false]), 3);
    assert_eq!(attempts_for(0, &[false]), 1);
}

#[test]
fn retries_stop_at_first_success() {
    assert_eq!(attempts_for(5, &[true]), 1);
    assert_eq!(attempts_for(5, &[false, true, false]), 2);
}

#[test]
fn backoff_only_between_attempts() {
    let mut c = RetryController::new(1);
    assert!(!c.pause_before_attempt());
    c.record_attempt(false);
    assert!(c.pause_before_attempt());
}

#[test]
fn echo_pause_except_after_last() {
    assert!(pause_after_failed_echo(0, 3));
    assert!(pause_after_failed_echo(1, 3));
    assert!(!pause_after_failed_echo(2, 3));
    assert!(!pause_after_failed_echo(0, 1));
    assert!(!pause_after_failed_echo(0, 0));
}

#[test]
fn ping_outcomes() {
    let ok = ping_reply(1500);
    assert!(ok.success);
    assert_eq!(ok.latency_us, Some(1500));
    assert_eq!(ok.packet_loss, Some(0));
    assert_eq!(ok.message, "ICMP Response OK");
    let t = ping_timeout();
    assert!(!t.success);
    assert_eq!(t.packet_loss, Some(100));
    assert_eq!(t.message, "Request Timeout (Packet Loss 100%)");
    let r = resolution_failure("no record");
    assert!(!r.success);
    assert_eq!(r.message, "Domain Resolution Error: no record");
}

#[test]
fn tcp_and_udp_outcomes() {
    assert_eq!(tcp_connected(7).message, "TCP Handshake Success");
    assert_eq!(tcp_refused("reset").message, "Connection Refused: reset");
    assert_eq!(tcp_timeout().message, "Port Timeout");
    assert!(udp_sent(3).success);
    assert_eq!(udp_send_failed().message, "UDP Broadcast Failure");
    assert_eq!(udp_socket_error("busy").message, "Local Socket Error: busy");
}

#[test]
fn discovery_table_has_ten_ports() {
    let ports = discovery_ports();
    assert_eq!(ports.len(), 10);
    assert_eq!(ports[0], (22, "SSH".to_string()));
    assert_eq!(ports[9], (25565, "Minecraft".to_string()));
}

#[test]
fn discovery_rescues_failed_ping() {
    let ping = ping_timeout();
    assert!(needs_discovery(&ping));
    let hit = DiscoveryHit { service: "SSH".to_string(), latency_us: Some(12_345) };
    let r = apply_discovery(ping, Some(hit));
    assert!(r.success);
    assert_eq!(r.latency_us, None);
    assert_eq!(r.packet_loss, Some(0));
    assert_eq!(r.message, "ICMP Filtered (Verified via SSH [12.3ms])");
}

#[test]
fn discovery_without_latency() {
    let hit = DiscoveryHit { service: "RDP".to_string(), latency_us: None };
    let r = apply_discovery(ping_timeout(), Some(hit));
    assert_eq!(r.message, "ICMP Filtered (Verified via RDP [N/Ams])");
}

#[test]
fn discovery_leaves_success_alone() {
    let ping = ping_reply(900);
    assert!(!needs_discovery(&ping));
    let hit = DiscoveryHit { service: "SSH".to_string(), latency_us: Some(1) };
    let r = apply_discovery(ping, Some(hit));
    assert_eq!(r.latency_us, Some(900));
    assert_eq!(r.message, "ICMP Response OK");
}

#[test]
fn discovery_miss_keeps_failure() {
    let r = apply_discovery(ping_timeout(), None);
    assert!(!r.success);
    assert_eq!(r.message, "Request Timeout (Packet Loss 100%)");
}

#[test]
fn millisecond_text() {
    assert_eq!(format_ms_tenths(12_345), "12.3");
    assert_eq!(format_ms_tenths(12_350), "12.4");
    assert_eq!(format_ms_tenths(40), "0.0");
    assert_eq!(format_ms_hundredths(1_234), "1.23");
    assert_eq!(format_ms_hundredths(1_005), "1.01");
    assert_eq!(format_ms_hundredths(120_000), "120.00");
}

#[test]
fn admission_respects_cap() {
    let mut a = Admission::new(2);
    assert!(a.try_acquire());
    assert!(a.try_acquire());
    assert!(!a.try_acquire());
    assert_eq!(a.in_flight, 2);
    a.release();
    assert!(a.try_acquire());
    assert_eq!(a.in_flight, 2);
}

#[test]
fn zero_capacity_admits_nothing() {
    let mut a = Admission::new(0);
    assert!(!a.try_acquire());
}

#[test]
fn cycle_delay() {
    assert_eq!(delay_until_next_cycle(60, 1_500), 58_500);
    assert_eq!(delay_until_next_cycle(1, 2_000), 0);
    assert_eq!(delay_until_next_cycle(5, 5_000), 0);
    assert_eq!(delay_until_next_cycle(u64::MAX, 0), u64::MAX);
}

#[test]
fn dns_answers() {
    assert_eq!(first_address(Ok(vec![7u8, 9u8])), Ok(7u8));
    assert_eq!(first_address::<u8>(Ok(vec![])), Err("No IP Address Found".to_string()));
    assert_eq!(first_address::<u8>(Err("timeout".to_string())), Err("Cloudflare DNS Resolution Failed: timeout".to_string()));
}
