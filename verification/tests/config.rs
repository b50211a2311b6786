use nftracker::common::addr::IpAddress;
use nftracker::common::subnet::Subnet;
use nftracker::config::{
    default_conntrack_file, default_device_file, default_lease_file, default_retain_data, Config,
    ConfigError,
};

fn texts(subnets: &[&str]) -> Vec<Vec<u8>> {
    subnets.iter().map(|subnet| subnet.as_bytes().to_vec()).collect()
}

#[test]
fn test_decode_config_simple() {
    let config = Config::assemble(
        &texts(&["192.168.3.", "1234::"]),
        "eth0".to_string(),
        None,
        None,
        None,
        None,
    )
    .unwrap();

    assert_eq!(
        config.local_subnets,
        vec![Subnet::V4(vec![192, 168, 3]), Subnet::V6(vec![0x1234])]
    );
    assert_eq!(config.wan_interface, "eth0".to_string());
    assert_eq!(config.conntrack_file, "/proc/net/nf_conntrack".to_string());
    assert_eq!(config.device_file, "/proc/net/dev".to_string());
    assert_eq!(config.leases_file, "/var/lib/misc/dnsmasq.leases".to_string());
    assert_eq!(config.retain_data, 300 * 1000);
}

#[test]
fn test_decode_config_full() {
    let config = Config::assemble(
        &texts(&["192.168.3.", "1234::"]),
        "eth0".to_string(),
        Some("/da/conntrack".to_string()),
        Some("/da/device".to_string()),
        Some("/da/leases".to_string()),
        Some(600 * 1000),
    )
    .unwrap();

    assert_eq!(
        config.local_subnets,
        vec![Subnet::V4(vec![192, 168, 3]), Subnet::V6(vec![0x1234])]
    );
    assert_eq!(config.wan_interface, "eth0".to_string());
    assert_eq!(config.conntrack_file, "/da/conntrack".to_string());
    assert_eq!(config.device_file, "/da/device".to_string());
    assert_eq!(config.leases_file, "/da/leases".to_string());
    assert_eq!(config.retain_data, 600 * 1000);
}

#[test]
fn defaults_are_the_usual_places() {
    assert_eq!(default_device_file(), "/proc/net/dev");
    assert_eq!(default_conntrack_file(), "/proc/net/nf_conntrack");
    assert_eq!(default_lease_file(), "/var/lib/misc/dnsmasq.leases");
    assert_eq!(default_retain_data(), 300_000);
}

#[test]
fn first_malformed_subnet_is_the_error() {
    let result = Config::assemble(
        &texts(&["10.", "::", "nonsense", "192.168."]),
        "eth0".to_string(),
        None,
        None,
        None,
        None,
    );
    assert_eq!(result.err(), Some(ConfigError::Subnet(1)));

    let result =
        Config::assemble(&texts(&["10.", "300.1."]), "eth0".to_string(), None, None, None, None);
    assert_eq!(result.err(), Some(ConfigError::Subnet(1)));
}

#[test]
fn subnets_are_read_from_their_text() {
    assert_eq!(Subnet::from_text(b"192.168.3."), Some(Subnet::V4(vec![192, 168, 3])));
    assert_eq!(Subnet::from_text(b"10."), Some(Subnet::V4(vec![10])));
    assert_eq!(Subnet::from_text(b"192.168.3.56"), Some(Subnet::V4(vec![192, 168, 3])));
    assert_eq!(Subnet::from_text(b"1234:abcd:"), Some(Subnet::V6(vec![0x1234, 0xabcd])));
    assert_eq!(Subnet::from_text(b"1234::"), Some(Subnet::V6(vec![0x1234])));
    assert_eq!(Subnet::from_text(b"12:"), Some(Subnet::V6(vec![0x12])));
    assert_eq!(
        Subnet::from_text(b"1:2:3:4:5:6:7:8"),
        Some(Subnet::V6(vec![1, 2, 3, 4, 5, 6, 7]))
    );
    assert_eq!(Subnet::from_text(b"::"), None);
    assert_eq!(Subnet::from_text(b""), None);
    assert_eq!(Subnet::from_text(b"192"), None);
    assert_eq!(Subnet::from_text(b"256."), None);
    assert_eq!(Subnet::from_text(b"12345:"), None);
    assert_eq!(Subnet::from_text(b".1."), None);
}

#[test]
fn subnets_are_written_as_they_are_read() {
    for text in ["192.168.3.", "10.", "0.0.255.", "1234:abcd:", "0:ffff:1:"] {
        let subnet = Subnet::from_text(text.as_bytes()).unwrap();
        assert_eq!(subnet.to_text(), text.as_bytes());
    }
}

#[test]
fn subnet_holds_addresses_by_their_leading_parts() {
    let v4 = Subnet::V4(vec![192, 168, 3]);
    assert!(v4.contains(&IpAddress::from_octets(192, 168, 3, 56)));
    assert!(v4.contains(&IpAddress::from_octets(192, 168, 3, 0)));
    assert!(!v4.contains(&IpAddress::from_octets(192, 168, 4, 56)));
    assert!(!v4.contains(&IpAddress::from_octets(8, 8, 8, 8)));
    assert!(!v4.contains(&IpAddress::from_segments(&[192, 168, 3, 0, 0, 0, 0, 0])));

    let v6 = Subnet::V6(vec![0x1234, 0xabcd]);
    assert!(v6.contains(&IpAddress::from_segments(&[0x1234, 0xabcd, 0, 0, 0, 0, 0, 1])));
    assert!(!v6.contains(&IpAddress::from_segments(&[0x1234, 0xabce, 0, 0, 0, 0, 0, 1])));
    assert!(!v6.contains(&IpAddress::from_octets(18, 52, 171, 205)));

    assert!(Subnet::V4(vec![]).contains(&IpAddress::from_octets(1, 2, 3, 4)));
    assert!(Subnet::V4(vec![1, 2, 3, 4]).contains(&IpAddress::from_octets(1, 2, 3, 4)));
    assert!(!Subnet::V4(vec![1, 2, 3, 4, 5]).contains(&IpAddress::from_octets(1, 2, 3, 4)));
}
