use nftracker::common::addr::IpAddress;
use nftracker::common::counter::TrafficCounter;
use nftracker::common::subnet::Subnet;
use nftracker::conntrack::collector::{classify, Direction, TableCollector};
use nftracker::conntrack::model::Table;
use nftracker::time::Timestamp;

fn newest(series: &nftracker::minirrd::RRD<TrafficCounter>) -> TrafficCounter {
    *series.get(series.len() - 1).unwrap().1
}

#[test]
fn scan_classifies_by_subnet() {
    let subnets = vec![Subnet::V4(vec![192, 168, 3])];
    let text = "ipv4     2 udp      17 27 src=192.168.3.56 dst=8.8.8.8 sport=51556 dport=53 packets=2 bytes=142 src=8.8.8.8 dst=192.168.3.56 sport=53 dport=51556 packets=2 bytes=416 [ASSURED] mark=0 zone=0 use=2\n";
    let local = IpAddress::from_octets(192, 168, 3, 56);
    let remote = IpAddress::from_octets(8, 8, 8, 8);
    let mut table = Table::new(300_000);

    TableCollector::process_at(&mut table, &subnets, Timestamp::from_millis(1_000_500), text.as_bytes());

    assert!(table.contains(&local));
    assert!(!table.contains(&remote));
    let trafic = table.get(&local, &remote).unwrap();
    assert_eq!(newest(trafic.out_count()), TrafficCounter { bytes: 142, packets: 2 });
    assert_eq!(newest(trafic.in_count()), TrafficCounter { bytes: 416, packets: 2 });
    assert!(table.get(&remote, &local).is_none());
}

#[test]
fn scan_prunes_unseen_locals() {
    let subnets = vec![Subnet::V4(vec![10])];
    let a = IpAddress::from_octets(10, 0, 0, 1);
    let b = IpAddress::from_octets(10, 0, 0, 2);
    let first = "ipv4 2 tcp 6 100 src=10.0.0.1 dst=1.1.1.1 sport=1 dport=2 packets=1 bytes=10\nipv4 2 tcp 6 100 src=10.0.0.2 dst=1.1.1.1 sport=1 dport=2 packets=1 bytes=20\n";
    let second = "ipv4 2 tcp 6 100 src=10.0.0.2 dst=1.1.1.1 sport=1 dport=2 packets=2 bytes=40\n";
    let mut table = Table::new(300_000);

    TableCollector::process_at(&mut table, &subnets, Timestamp::from_millis(5_000), first.as_bytes());
    assert!(table.contains(&a));
    assert!(table.contains(&b));

    TableCollector::process_at(&mut table, &subnets, Timestamp::from_millis(5_500), second.as_bytes());
    assert!(!table.contains(&a));
    assert!(table.contains(&b));
    assert_eq!(table.locals(), vec![b]);
    assert_eq!(table.remotes(&b), vec![IpAddress::from_octets(1, 1, 1, 1)]);
    assert!(table.remotes(&a).is_empty());
}

#[test]
fn table_lists_each_host_once() {
    let mut table = Table::new(10_000);
    let now = Timestamp::from_millis(0);
    let v4 = IpAddress::from_octets(10, 0, 0, 1);
    let v6 = IpAddress::from_segments(&[0xfe80, 0, 0, 0, 0, 0, 0, 1]);
    let peer = IpAddress::from_octets(1, 1, 1, 1);
    table.push_in(now, v4, peer, 10, 1);
    table.push_out(now, v4, peer, 20, 2);
    table.push_out(now, v4, v6, 30, 3);
    table.push_in(now, v6, peer, 40, 4);

    let mut locals = table.locals();
    locals.sort_by_key(|addr| addr.is_ipv6());
    assert_eq!(locals, vec![v4, v6]);
    let mut remotes = table.remotes(&v4);
    remotes.sort_by_key(|addr| addr.is_ipv6());
    assert_eq!(remotes, vec![peer, v6]);

    let trafic = table.get(&v4, &peer).unwrap();
    assert_eq!(newest(trafic.in_count()), TrafficCounter { bytes: 10, packets: 1 });
    assert_eq!(newest(trafic.out_count()), TrafficCounter { bytes: 20, packets: 2 });
    assert_eq!(trafic.in_count().first_timestamp().millis(), 0);

    table.prune(&vec![v6, v6]);
    assert_eq!(table.locals(), vec![v6]);
    table.prune(&vec![]);
    assert!(table.locals().is_empty());
}

#[test]
fn source_is_tried_before_destination() {
    let subnets = vec![Subnet::V4(vec![10, 1]), Subnet::V4(vec![10, 2])];
    let in_second = IpAddress::from_octets(10, 2, 0, 1);
    let in_first = IpAddress::from_octets(10, 1, 0, 1);
    let outside = IpAddress::from_octets(9, 9, 9, 9);

    assert_eq!(classify(&subnets, &in_second, &in_first), Some(Direction::Outbound));
    assert_eq!(classify(&subnets, &outside, &in_first), Some(Direction::Inbound));
    assert_eq!(classify(&subnets, &outside, &outside), None);
}

#[test]
fn scan_at_current_time_records() {
    let subnets = vec![Subnet::V6(vec![0x1234])];
    let text = "ipv6 10 tcp 6 300 src=1234::1 dst=2345::2 sport=1 dport=2 packets=3 bytes=300\n";
    let mut table = Table::new(300_000);

    TableCollector::process(&mut table, &subnets, text.as_bytes());

    let local = IpAddress::from_segments(&[0x1234, 0, 0, 0, 0, 0, 0, 1]);
    let remote = IpAddress::from_segments(&[0x2345, 0, 0, 0, 0, 0, 0, 2]);
    let trafic = table.get(&local, &remote).unwrap();
    assert_eq!(newest(trafic.out_count()), TrafficCounter { bytes: 300, packets: 3 });
}
