use nftracker::common::addr::IpAddress;
use nftracker::common::counter::TrafficCounter;
use nftracker::common::parse::{ip_addr, ipv4_addr, ipv4_subnet, ipv6_addr, ipv6_subnet};
use nftracker::common::subnet::Subnet;
use nftracker::common::text::{next_line, read_number_at, scan, spell, ByteClass, Radix};
use nftracker::conntrack::collector::ConntrackCollector;
use nftracker::common::timeseries::Timeseries;
use nftracker::device::collector::{process_timeseries, DeviceCollector, SeriesCollector};
use nftracker::leases::collector::{process_leases, snapshot, LeasesCollector};
use nftracker::minivec::MiniVec;
use nftracker::time::Timestamp;
use nftracker::common::counter::Trafic;
use nftracker::config::Config;

fn config(subnets: &[&str], retain: u64) -> Config {
    let texts: Vec<Vec<u8>> = subnets.iter().map(|s| s.as_bytes().to_vec()).collect();
    Config::assemble(&texts, "eth0".to_string(), None, None, None, Some(retain)).unwrap()
}

#[test]
fn addresses_that_are_none() {
    assert!(ipv4_addr(b"1.2.3", 0).is_none());
    assert!(ipv4_addr(b"1.2.3.256", 0).is_none());
    assert!(ipv4_addr(b"1.2..4", 0).is_none());
    assert!(ipv4_addr(b"", 0).is_none());
    assert!(ipv4_addr(b"1.2.3.4", 8).is_none());
    assert!(ipv6_addr(b"1234", 0).is_none());
    assert!(ipv6_addr(b"1:2:3:4:5:6:7:8:9", 0).is_none());
    assert!(ipv6_addr(b"1::2:3:4:5:6:7:8:9", 0).is_none());
    assert!(ipv6_addr(b"1234::", 0).is_none());
    assert!(ipv6_addr(b"1:2:", 0).is_none());
    assert!(ipv6_addr(b"12345::1", 0).is_none());
    assert!(ipv6_addr(b"::1", 0).is_none());
    assert!(ip_addr(b"x", 0).is_none());
}

#[test]
fn addresses_stop_where_they_end() {
    assert_eq!(ipv4_addr(b"10.0.0.1 rest", 0), Some((IpAddress::from_octets(10, 0, 0, 1), 8)));
    assert_eq!(ipv4_addr(b"   10.0.0.1", 3), Some((IpAddress::from_octets(10, 0, 0, 1), 11)));
    assert_eq!(ipv4_addr(b"010.0.0.001", 0), Some((IpAddress::from_octets(10, 0, 0, 1), 11)));
    assert_eq!(
        ipv6_addr(b"1:2 x", 0),
        Some((IpAddress::from_segments(&[1, 2, 0, 0, 0, 0, 0, 0]), 3))
    );
    assert_eq!(
        ipv6_addr(b"A:b::C:d", 0),
        Some((IpAddress::from_segments(&[0xa, 0xb, 0, 0, 0, 0, 0xc, 0xd]), 8))
    );
    assert_eq!(
        ipv6_addr(b"1::2::3", 0),
        None
    );
    assert_eq!(
        ip_addr(b"12:34::", 0),
        None
    );
}

#[test]
fn subnets_of_each_family() {
    assert_eq!(ipv4_subnet(b"10.20.", 0), Some((Subnet::V4(vec![10, 20]), 6)));
    assert_eq!(ipv4_subnet(b"10.20.30.40.", 0), Some((Subnet::V4(vec![10, 20, 30]), 9)));
    assert!(ipv4_subnet(b"a.", 0).is_none());
    assert_eq!(ipv6_subnet(b"fe80:1:", 0), Some((Subnet::V6(vec![0xfe80, 1]), 7)));
    assert!(ipv6_subnet(b":1:", 0).is_none());
}

#[test]
fn numbers_and_runs() {
    assert_eq!(scan(b"abc123 x", 0, ByteClass::Alphanumeric), 6);
    assert_eq!(scan(b"abc123 x", 3, ByteClass::Digit), 6);
    assert_eq!(scan(b"abc", 7, ByteClass::Digit), 7);
    assert_eq!(scan(b" \t x", 0, ByteClass::Space), 3);
    assert_eq!(read_number_at(b"18446744073709551615", 0, Radix::Decimal, u64::MAX), Some((u64::MAX, 20)));
    assert_eq!(read_number_at(b"18446744073709551616", 0, Radix::Decimal, u64::MAX), None);
    assert_eq!(read_number_at(b"99999999999999999999999", 0, Radix::Decimal, u64::MAX), None);
    assert_eq!(read_number_at(b"000255.", 0, Radix::Decimal, 255), Some((255, 6)));
    assert_eq!(read_number_at(b"256", 0, Radix::Decimal, 255), None);
    assert_eq!(read_number_at(b"fFfF", 0, Radix::Hex, 0xffff), Some((0xffff, 4)));
    assert_eq!(read_number_at(b"10000", 0, Radix::Hex, 0xffff), None);
    assert_eq!(read_number_at(b"x1", 0, Radix::Decimal, 255), None);

    let mut text = Vec::new();
    spell(&mut text, 0, Radix::Decimal);
    text.push(b' ');
    spell(&mut text, 1_234_567_890, Radix::Decimal);
    text.push(b' ');
    spell(&mut text, 0xbeef, Radix::Hex);
    text.push(b' ');
    spell(&mut text, u64::MAX, Radix::Hex);
    assert_eq!(text, b"0 1234567890 beef ffffffffffffffff");

    assert_eq!(next_line(b"one\ntwo\r\n\nlast", 0), (3, 4));
    assert_eq!(next_line(b"one\ntwo\r\n\nlast", 4), (7, 9));
    assert_eq!(next_line(b"one\ntwo\r\n\nlast", 9), (9, 10));
    assert_eq!(next_line(b"one\ntwo\r\n\nlast", 10), (14, 14));
    assert_eq!(next_line(b"one", 5), (5, 5));
}

#[test]
fn conntrack_lines_that_are_none() {
    assert!(nftracker::conntrack::parse::parse_line(b"").is_none());
    assert!(nftracker::conntrack::parse::parse_line(b"ipv4 2 udp 17 27").is_none());
    assert!(nftracker::conntrack::parse::parse_line(b"ipv4 2 udp 17").is_none());
    assert!(nftracker::conntrack::parse::parse_line(b"ipv4 x udp 17 27 src=1.2.3.4").is_none());
    assert!(nftracker::conntrack::parse::parse_line(b"ipv4 2 udp 17 18446744073709551616 src=1.2.3.4").is_none());
    assert!(nftracker::conntrack::parse::parse_line(b" ipv4 2 udp 17 27 src=1.2.3.4").is_none());
}

#[test]
fn conntrack_line_takes_what_it_knows() {
    let (entries, end) = nftracker::conntrack::parse::parse_line(b"ipv6 10 tcp 6 300 ").unwrap();
    assert_eq!(end, 18);
    assert_eq!(entries.len(), 1);
    let only = entries.get(0).unwrap();
    assert_eq!(only.transport, b"ipv6");
    assert_eq!(only.protocol, b"tcp");
    assert_eq!(only.timeout, 300);
    assert_eq!(only.src, None);
    assert_eq!(only.dst, None);

    let line = b"ipv4 2 tcp 6 5 SYN_SENT src=10.0.0.1 dst=999.0.0.1 sport=70000 dport=80 bytes=12x packets=3 bytes=77 x=y=z src=fe80::1 bytes=18446744073709551616";
    let (entries, end) = nftracker::conntrack::parse::parse_line(line).unwrap();
    assert_eq!(end, line.len());
    assert_eq!(entries.len(), 2);
    let first = entries.get(0).unwrap();
    assert_eq!(first.src, Some(IpAddress::from_octets(10, 0, 0, 1)));
    assert_eq!(first.dst, None);
    assert_eq!(first.sport, (70000u32 % 65536) as u16);
    assert_eq!(first.dport, 80);
    assert_eq!(first.bytes, 77);
    assert_eq!(first.packets, 3);
    let second = entries.get(1).unwrap();
    assert_eq!(second.src, Some(IpAddress::from_segments(&[0xfe80, 0, 0, 0, 0, 0, 0, 1])));
    assert_eq!(second.bytes, 0);
    assert_eq!(second.timeout, 5);
}

#[test]
fn conntrack_text_is_folded_line_by_line() {
    let text = "ipv4 2 udp 17 27 src=1.1.1.1 dst=2.2.2.2 bytes=100 src=2.2.2.2 dst=1.1.1.1 bytes=20\nthis is no record\r\nipv4 2 tcp 6 1 src=3.3.3.3 dst=4.4.4.4 bytes=3\r\n\nipv4 2 tcp 6 1 bytes=4000";
    let count = nftracker::conntrack::parse::parse(text.as_bytes(), 0u64, |count, entry| {
        count + entry.bytes
    });
    assert_eq!(count, 4123);
    let entries = nftracker::conntrack::parse::parse(text.as_bytes(), 0u32, |count, _| count + 1);
    assert_eq!(entries, 4);
    assert_eq!(nftracker::conntrack::parse::parse(b"", 7u8, |count, _| count + 1), 7);

    let ended = |text: &[u8]| {
        nftracker::conntrack::parse::parse(text, 0u64, |count, entry| count + entry.bytes)
    };
    assert_eq!(ended(b"ipv4 2 tcp 6 1 bytes=5\r\n"), 5);
    assert_eq!(ended(b"ipv4 2 tcp 6 1 bytes=5\n"), 5);
    assert_eq!(ended(b"ipv4 2 tcp 6 1 bytes=5\r"), 0);
    assert_eq!(ended(b"ipv4 2 tcp 6 1 bytes=5\r\r\n"), 0);
}

#[test]
fn small_vector_visits_in_order() {
    let mut items: MiniVec<u32> = MiniVec::default();
    assert!(items.is_empty());
    assert_eq!(items.visit(String::new(), |text, item| text + &item.to_string()), "");
    for (i, item) in [3u32, 1, 4, 1, 5].into_iter().enumerate() {
        items.push(item);
        assert_eq!(items.get(i), Some(item));
        assert_eq!(items.get(i + 1), None);
    }
    assert!(!items.is_empty());
    assert_eq!(items.visit(String::new(), |text, item| text + &item.to_string()), "31415");
    assert_eq!(items.pop(), Some(5));
    assert_eq!(items.pop(), Some(1));
    assert_eq!(items.pop(), Some(4));
    assert_eq!(items.visit(0, |sum, item| sum * 10 + item), 31);
    assert_eq!(items.len(), 2);
}

#[test]
fn device_counters_of_the_outside_interface_are_taken() {
    let text = "Inter-|   Receive                                                |  Transmit\n face |bytes    packets errs drop fifo frame compressed multicast|bytes    packets errs drop fifo colls carrier compressed\n    lo: 100 1 0 0 0 0 0 0 100 1 0 0 0 0 0 0\n  eth0: 5000 50 0 0 0 0 0 6 700 7 0 0 0 0 0 0\n  eth1: 1 2 3\nwlan0: 9 9 0 0 0 0 0 0 9 9 0 0 0 0 0 0\n";
    let names = nftracker::device::parse::parse(text.as_bytes(), Vec::new(), |mut names, stats| {
        names.push((stats.interface.to_vec(), stats.receive_bytes, stats.transmit_packets));
        names
    });
    assert_eq!(
        names,
        vec![(b"lo".to_vec(), 100, 1), (b"eth0".to_vec(), 5000, 7), (b"wlan0".to_vec(), 9, 9)]
    );

    let mut traffic = Trafic::starting_at(Timestamp::from_millis(0), 60_000);
    SeriesCollector::process_at(&mut traffic, b"eth0", Timestamp::from_millis(2_000), text.as_bytes());
    assert_eq!(traffic.in_count().len(), 3);
    assert_eq!(
        *traffic.in_count().get(2).unwrap().1,
        TrafficCounter { bytes: 5000, packets: 50 }
    );
    assert_eq!(*traffic.out_count().get(2).unwrap().1, TrafficCounter { bytes: 700, packets: 7 });
    assert_eq!(*traffic.in_count().get(1).unwrap().1, TrafficCounter { bytes: 2500, packets: 25 });

    let mut other = Trafic::starting_at(Timestamp::from_millis(0), 60_000);
    SeriesCollector::process_at(&mut other, b"eth9", Timestamp::from_millis(2_000), text.as_bytes());
    assert_eq!(other.in_count().len(), 1);
}

#[test]
fn device_counters_are_listed_and_pruned() {
    let text = "a\nb\neth0: 5000 50 0 0 0 0 0 6 700 7 0 0 0 0 0 0\n  lo: 1 1 0 0 0 0 0 0 1 1 0 0 0 0 0 0\n";
    let mut series = Timeseries::default();
    series.push_in(Timestamp::from_millis(1_000), 1, 1);
    series.push_out(Timestamp::from_millis(9_000), 2, 2);

    process_timeseries(&mut series, b"eth0", 5_000, Timestamp::from_millis(10_000), text.as_bytes());

    let listed = |entries: &Vec<nftracker::common::timeseries::TimeseriesEntry>| {
        entries.iter().map(|e| (e.timestamp.millis(), e.bytes, e.packets)).collect::<Vec<_>>()
    };
    assert_eq!(listed(&series.in_entries), vec![(10_000, 5000, 50)]);
    assert_eq!(listed(&series.out_entries), vec![(9_000, 2, 2), (10_000, 700, 7)]);

    process_timeseries(&mut series, b"eth1", 0, Timestamp::from_millis(10_000), text.as_bytes());
    assert_eq!(listed(&series.in_entries), vec![(10_000, 5000, 50)]);
    assert_eq!(listed(&series.out_entries), vec![(10_000, 700, 7)]);
}

#[test]
fn device_headings_are_left_out() {
    let text = "eth0: 1 1 0 0 0 0 0 0 1 1 0 0 0 0 0 0\neth0: 2 2 0 0 0 0 0 0 2 2 0 0 0 0 0 0\neth0: 3 3 0 0 0 0 0 0 3 3 0 0 0 0 0 0";
    let seen = nftracker::device::parse::parse(text.as_bytes(), Vec::new(), |mut seen, stats| {
        seen.push(stats.receive_bytes);
        seen
    });
    assert_eq!(seen, vec![3]);
    assert!(nftracker::device::parse::parse_line(b"eth0:1 1 0 0 0 0 0 0 1 1 0 0 0 0 0 0").is_none());
    assert!(nftracker::device::parse::parse_line(b"eth0: 1 1 0 0 0 0 0 0 1 1 0 0 0 0 0").is_none());
    assert!(nftracker::device::parse::parse_line(b"br-lan: 1 1 0 0 0 0 0 0 1 1 0 0 0 0 0 0").is_none());
}

#[test]
fn device_collector_keeps_its_history_without_a_file() {
    let mut collector = DeviceCollector::new(config(&["10."], 60_000));
    assert_eq!(collector.traffic().in_count().len(), 1);
    assert_eq!(collector.handle(None), 500);
    assert_eq!(collector.traffic().in_count().len(), 1);
    let text = "a\nb\neth0: 5000 50 0 0 0 0 0 6 700 7 0 0 0 0 0 0\n";
    assert_eq!(collector.handle(Some(text.as_bytes())), 500);
    let newest = collector.traffic().in_count().len() - 1;
    assert_eq!(
        *collector.traffic().in_count().get(newest).unwrap().1,
        TrafficCounter { bytes: 5000, packets: 50 }
    );
    assert_eq!(collector.config().wan_interface, "eth0");
}

#[test]
fn conntrack_collector_scans_on_each_tick() {
    let mut collector = ConntrackCollector::new(config(&["192.168.3."], 60_000));
    let local = IpAddress::from_octets(192, 168, 3, 56);
    let text = "ipv4 2 udp 17 27 src=192.168.3.56 dst=8.8.8.8 packets=2 bytes=142\n";
    assert_eq!(collector.handle(Some(text.as_bytes())), 500);
    assert!(collector.table().contains(&local));
    assert_eq!(collector.handle(None), 500);
    assert!(collector.table().contains(&local));
    assert_eq!(collector.handle(Some(b"")), 500);
    assert!(!collector.table().contains(&local));
}

#[test]
fn leases_are_read_and_the_last_of_an_address_counts() {
    let text = "1562979553 24:5e:be:12:34:56 192.168.3.86 brick 01:24:5e:be:12:34:56\nduid 00:01:00:01:24:99:3a:37:00:01:2e:12:34:56\n1561852704 224934210 1234::28a thunder 00:04:2e:3b\n1562979554 24:5e:be:12:34:57 192.168.3.86 * 01:24\n";
    let leases = process_leases(text.as_bytes());
    assert_eq!(leases.len(), 3);
    assert_eq!(leases[0].name, b"brick");
    assert_eq!(leases[1].name, b"thunder");
    assert_eq!(leases[2].name, b"*");
    assert_eq!(leases[2].client_id, b"01:24");

    let by_addr = snapshot(&leases);
    let v4 = IpAddress::from_octets(192, 168, 3, 86);
    let v6 = IpAddress::from_segments(&[0x1234, 0, 0, 0, 0, 0, 0, 0x28a]);
    assert_eq!(by_addr.get(&v4).unwrap().name, b"*");
    assert_eq!(by_addr.get(&v6).unwrap().name, b"thunder");
    assert!(by_addr.get(&IpAddress::from_octets(192, 168, 3, 87)).is_none());
    assert!(by_addr.contains_key(&v6));

    let folded = nftracker::leases::parse::parse(text.as_bytes(), 0usize, |count, lease| {
        count + lease.name.len()
    });
    assert_eq!(folded, 5 + 7 + 1);

    let mut collector = LeasesCollector::new(config(&["10."], 60_000));
    assert!(collector.snapshot().get(&v4).is_none());
    assert_eq!(collector.handle(Some(text.as_bytes())), 500);
    assert_eq!(collector.snapshot().get(&v4).unwrap().client_id, b"01:24");
    assert_eq!(collector.handle(None), 500);
    assert!(collector.snapshot().contains_key(&v6));
    assert_eq!(collector.handle(Some(b"nothing")), 500);
    assert!(!collector.snapshot().contains_key(&v6));
}

#[test]
fn lease_lines_that_are_none() {
    assert!(nftracker::leases::parse::parse_line(b"").is_none());
    assert!(nftracker::leases::parse::parse_line(b"x 24:5e 192.168.3.86 brick 01").is_none());
    assert!(nftracker::leases::parse::parse_line(b"1 24:5e 192.168.3.286 brick 01").is_none());
    assert!(nftracker::leases::parse::parse_line(b"1 24:5e 192.168.3.86 brick").is_none());
    assert!(nftracker::leases::parse::parse_line(b"1 zz 192.168.3.86 brick 01").is_none());
    assert!(nftracker::leases::parse::parse_line(b"1 24:5e 192.168.3.86 .brick 01").is_none());
    assert!(nftracker::leases::parse::parse_line(b"1 24:5e: 10.0.0.1 my-host_1 ab").is_none());
    let (lease, end) =
        nftracker::leases::parse::parse_line(b"1 24:5e 10.0.0.1 my-host_1 ab:zz").unwrap();
    assert_eq!(lease.name, b"my-host_1");
    assert_eq!(lease.client_id, b"ab");
    assert_eq!(end, 29);
}
