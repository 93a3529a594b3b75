use netpulse::topology::{expand_address, v4_host_addresses, v6_host_addresses};

#[test]
fn cidr_slash_30_yields_two_hosts() {
    assert_eq!(expand_address("10.0.0.0/30"), vec!["10.0.0.1".to_string(), "10.0.0.2".to_string()]);
}

#[test]
fn host_name_expands_to_itself() {
    assert_eq!(expand_address("example.com"), vec!["example.com".to_string()]);
}

#[test]
fn bare_ip_expands_to_itself() {
    assert_eq!(expand_address("10.0.0.5"), vec!["10.0.0.5".to_string()]);
}

#[test]
fn slash_31_keeps_both_addresses() {
    assert_eq!(expand_address("10.0.0.4/31"), vec!["10.0.0.4".to_string(), "10.0.0.5".to_string()]);
}

#[test]
fn slash_32_is_the_address() {
    assert_eq!(expand_address("172.16.3.9/32"), vec!["172.16.3.9".to_string()]);
}

#[test]
fn host_bits_are_masked() {
    let hosts = expand_address("192.168.1.77/29");
    let expected: Vec<String> = (73..=78).map(|i| format!("192.168.1.{}", i)).collect();
    assert_eq!(hosts, expected);
}

#[test]
fn slash_24_excludes_network_and_broadcast() {
    let hosts = expand_address("10.1.2.0/24");
    assert_eq!(hosts.len(), 254);
    assert_eq!(hosts[0], "10.1.2.1");
    assert_eq!(hosts[253], "10.1.2.254");
    assert!(!hosts.contains(&"10.1.2.0".to_string()));
    assert!(!hosts.contains(&"10.1.2.255".to_string()));
}

#[test]
fn slash_22_crosses_octets() {
    let hosts = expand_address("10.0.4.0/22");
    assert_eq!(hosts.len(), 1022);
    assert_eq!(hosts[255], "10.0.5.0");
    assert_eq!(hosts[1021], "10.0.7.254");
}

#[test]
fn ipv6_block_lists_every_address() {
    assert_eq!(
        expand_address("fd00::/126"),
        vec!["fd00::".to_string(), "fd00::1".to_string(), "fd00::2".to_string(), "fd00::3".to_string()]
    );
}

#[test]
fn bad_prefix_is_a_plain_address() {
    assert_eq!(expand_address("10.0.0.0/33"), vec!["10.0.0.0/33".to_string()]);
}

#[test]
fn v4_hosts_of_block() {
    assert_eq!(v4_host_addresses(0x0A00_0000, 30), vec!["10.0.0.1".to_string(), "10.0.0.2".to_string()]);
    assert_eq!(v4_host_addresses(0xC0A8_0101, 32), vec!["192.168.1.1".to_string()]);
    assert_eq!(v4_host_addresses(0xFFFF_FFFE, 31), vec!["255.255.255.254".to_string(), "255.255.255.255".to_string()]);
}

#[test]
fn v6_hosts_of_block() {
    let base: u128 = 0xfd00_u128 << 112;
    assert_eq!(v6_host_addresses(base | 5, 127), vec!["fd00::4".to_string(), "fd00::5".to_string()]);
    assert_eq!(v6_host_addresses(1, 128), vec!["::1".to_string()]);
}
