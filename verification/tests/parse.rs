use nftracker::common::addr::IpAddress;
use nftracker::common::parse::{ip_addr, ipv4_addr, ipv6_addr};
use nftracker::conntrack::parse::parse_line;

#[test]
fn test_ipv4_addr() {
    let input = "1.12.123.234";
    let (addr, end) = ipv4_addr(input.as_bytes(), 0).unwrap();

    assert_eq!(&input[end..], "");
    assert_eq!(addr, IpAddress::from_octets(1u8, 12u8, 123u8, 234u8));
}

#[test]
fn test_ipv6_addr() {
    let input = "1234:5678::4321";
    let (addr, end) = ipv6_addr(input.as_bytes(), 0).unwrap();

    assert_eq!(&input[end..], "");
    assert_eq!(
        addr,
        IpAddress::from_segments(&[0x1234u16, 0x5678u16, 0u16, 0u16, 0u16, 0u16, 0u16, 0x4321u16])
    );

    let input = "1234:2345:3456:4567:4321:5432:6543:7654";
    let (addr, end) = ipv6_addr(input.as_bytes(), 0).unwrap();

    assert_eq!(&input[end..], "");
    assert_eq!(
        addr,
        IpAddress::from_segments(&[
            0x1234u16, 0x2345u16, 0x3456u16, 0x4567u16, 0x4321u16, 0x5432u16, 0x6543u16, 0x7654u16,
        ])
    );
}

#[test]
fn test_ip_addr() {
    let input = "123.34.4.56";
    let (addr, end) = ip_addr(input.as_bytes(), 0).unwrap();

    assert_eq!(&input[end..], "");
    assert!(addr.is_ipv4());

    let input = "1234:5678::4321";
    let (addr, end) = ip_addr(input.as_bytes(), 0).unwrap();

    assert_eq!(&input[end..], "");
    assert!(addr.is_ipv6());
}

#[test]
fn test_parse_line() {
    let input = "ipv4     2 udp      17 27 src=192.168.3.56 dst=192.168.3.1 sport=51556 dport=53 packets=2 bytes=142 src=192.168.3.1 dst=192.168.3.56 sport=53 dport=51556 packets=2 bytes=416 [ASSURED] mark=0 zone=0 use=2";
    let (mut entries, end) = parse_line(input.as_bytes()).unwrap();

    assert_eq!(&input[end..], "");
    assert_eq!(entries.len(), 2);

    let second = entries.pop().unwrap();
    let first = entries.pop().unwrap();

    assert_eq!(first.src, Some(IpAddress::from_octets(192, 168, 3, 56)));
    assert_eq!(first.dst, Some(IpAddress::from_octets(192, 168, 3, 1)));
    assert_eq!(first.bytes, 142);
    assert_eq!(second.src, Some(IpAddress::from_octets(192, 168, 3, 1)));
    assert_eq!(second.dst, Some(IpAddress::from_octets(192, 168, 3, 56)));
    assert_eq!(second.bytes, 416);
}

#[test]
fn parse_test_parse_line() {
    let input = "enp3s0:  505360    1457    0    0    0     0          0       141   317888    1577    0    0    0     0       0          0";
    let (stats, end) = nftracker::device::parse::parse_line(input.as_bytes()).unwrap();

    assert_eq!(&input[end..], "");
    assert_eq!(stats.interface, "enp3s0".as_bytes());
    assert_eq!(stats.receive_bytes, 505360);
    assert_eq!(stats.receive_packets, 1457);
    assert_eq!(stats.transmit_bytes, 317888);
    assert_eq!(stats.transmit_packets, 1577);
}

#[test]
fn test_parse_line_ipv4() {
    let input = "1562979553 24:5e:be:12:34:56 192.168.3.86 brick 01:24:5e:be:12:34:56";
    let (lease, end) = nftracker::leases::parse::parse_line(input.as_bytes()).unwrap();

    assert_eq!(&input[end..], "");
    assert_eq!(lease.name, "brick".as_bytes());
    assert_eq!(lease.addr, IpAddress::from_octets(192, 168, 3, 86));
    assert_eq!(lease.client_id, "01:24:5e:be:12:34:56".as_bytes());
}

#[test]
fn test_parse_line_ipv6() {
    let input = "1561852704 224934210 1234::28a thunder 00:04:2e:3b:43:05:a5:df:ad:a0:32:bb:a8:a8:d3:12:34:56";
    let (lease, end) = nftracker::leases::parse::parse_line(input.as_bytes()).unwrap();

    assert_eq!(&input[end..], "");
    assert_eq!(lease.name, "thunder".as_bytes());
    assert_eq!(lease.addr, IpAddress::from_segments(&[0x1234, 0, 0, 0, 0, 0, 0, 0x28a]));
    assert_eq!(
        lease.client_id,
        "00:04:2e:3b:43:05:a5:df:ad:a0:32:bb:a8:a8:d3:12:34:56".as_bytes()
    );
}
