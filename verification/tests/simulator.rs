use nftracker::common::addr::IpAddress;
use nftracker::common::subnet::Subnet;
use nftracker::conntrack::collector::TableCollector;
use nftracker::conntrack::model::Table;
use nftracker::leases::collector::process_leases;
use nftracker::simulator::conntrack::{ConntrackSimulator, ConntrackTarget};
use nftracker::simulator::device::DeviceSimulator;
use nftracker::simulator::helpers::{random_hostname, random_ip, random_ipv4, random_ipv6};
use nftracker::simulator::leases::LeasesSimulator;
use nftracker::simulator::traffic::{Rate, Traffic};
use nftracker::time::Timestamp;

fn target(source: IpAddress, peer: IpAddress, name: &str) -> ConntrackTarget {
    ConntrackTarget {
        target_ip_addr: peer,
        source_ip_addr: source,
        source_hostname: name.as_bytes().to_vec(),
        in_traffic: Traffic { bytes: 0, packets: 0 },
        in_rate: Rate::from_draw(0, 1000),
        out_traffic: Traffic { bytes: 0, packets: 0 },
        out_rate: Rate::from_draw(0, 1000),
    }
}

#[test]
fn rate_from_a_draw() {
    assert_eq!(
        Rate::from_draw(0, 1_000_000),
        Rate { bytes_per_sec: 10_000, packets_per_sec: 10 }
    );
    assert_eq!(
        Rate::from_draw(1_999_999, 1_000_000),
        Rate { bytes_per_sec: 1_009_999, packets_per_sec: 1009 }
    );
    assert_eq!(Rate::from_draw(u64::MAX, 1), Rate { bytes_per_sec: 0, packets_per_sec: 0 });
}

#[test]
fn random_rates_lie_within_their_scale() {
    let mut seen = std::collections::HashSet::new();
    for _ in 0..200 {
        let rate = Rate::random(10_000_000);
        assert!(100_000 <= rate.bytes_per_sec && rate.bytes_per_sec < 10_100_000);
        assert_eq!(rate.packets_per_sec, rate.bytes_per_sec / 1000);
        seen.insert(rate.bytes_per_sec);
    }
    assert!(seen.len() > 1);
}

#[test]
fn traffic_adds_up() {
    let mut traffic = Traffic::default();
    traffic += Traffic { bytes: 10, packets: 1 };
    traffic += Traffic { bytes: 32, packets: 2 };
    assert_eq!(traffic, Traffic { bytes: 42, packets: 3 });
}

#[test]
fn random_names_and_addresses_have_their_shape() {
    let mut names = std::collections::HashSet::new();
    for _ in 0..50 {
        let name = random_hostname();
        assert_eq!(name.len(), 8);
        assert!(name[0].is_ascii_lowercase());
        assert!(name.iter().all(|c| c.is_ascii_lowercase() || c.is_ascii_digit()));
        names.insert(name);

        let v4 = IpAddress::V4(random_ipv4(&[192, 168, 1]));
        assert!(Subnet::V4(vec![192, 168, 1]).contains(&v4));
        let v6 = IpAddress::V6(random_ipv6(&[0x1234]));
        assert!(Subnet::V6(vec![0x1234]).contains(&v6));
        let either = random_ip(&[123], &[0x2345]);
        assert!(
            Subnet::V4(vec![123]).contains(&either) || Subnet::V6(vec![0x2345]).contains(&either)
        );
    }
    assert!(names.len() > 1);
    assert_eq!(random_ipv4(&[1, 2, 3, 4, 5]), 0x01020304);
}

#[test]
fn simulation_keeps_its_totals_when_connections_go() {
    let mut simulator = ConntrackSimulator::new("simulated.nf_conntrack");
    assert_eq!(simulator.file(), "simulated.nf_conntrack");
    for i in 0..5u8 {
        simulator.open(target(
            IpAddress::from_octets(192, 168, 1, i),
            IpAddress::from_octets(123, 0, 0, i),
            "host",
        ));
        simulator.advance(
            i as usize,
            Traffic { bytes: 100 * (i as u64 + 1), packets: i as u64 + 1 },
            Traffic { bytes: 10, packets: 1 },
        );
    }
    assert_eq!(simulator.total_in_traffic(), Traffic { bytes: 1500, packets: 15 });
    assert_eq!(simulator.total_out_traffic(), Traffic { bytes: 50, packets: 5 });

    simulator.close(7);
    assert_eq!(simulator.targets().len(), 4);
    assert_eq!(simulator.targets()[2].source_ip_addr, IpAddress::from_octets(192, 168, 1, 3));
    simulator.close(0);
    assert_eq!(simulator.targets().len(), 3);
    assert_eq!(simulator.total_in_traffic(), Traffic { bytes: 1500, packets: 15 });
    assert_eq!(simulator.total_out_traffic(), Traffic { bytes: 50, packets: 5 });
}

#[test]
fn ticks_keep_at_least_three_connections_up() {
    let mut simulator = ConntrackSimulator::new("file");
    for expected in 1..=3 {
        simulator.tick();
        assert_eq!(simulator.targets().len(), expected);
    }
    for _ in 0..500 {
        let before = simulator.targets().len();
        simulator.tick();
        let after = simulator.targets().len();
        assert!(after >= 3 && after + 1 >= before && after <= before + 1);
    }
    assert!(!ConntrackSimulator::grows(2, 3));
    assert!(ConntrackSimulator::grows(101, 3));
    assert!(ConntrackSimulator::grows(50, 2));
    assert!(!ConntrackSimulator::shrinks(1, 3));
    assert!(ConntrackSimulator::shrinks(1, 4));
    assert!(!ConntrackSimulator::shrinks(2, 4));
    let fresh = ConntrackTarget::random();
    assert_eq!(fresh.in_traffic, Traffic { bytes: 0, packets: 0 });
    assert_eq!(fresh.target_ip_addr.is_ipv4(), fresh.source_ip_addr.is_ipv4());
}

#[test]
fn simulated_texts_are_read_back() {
    let mut simulator = ConntrackSimulator::new("conntrack");
    let local4 = IpAddress::from_octets(192, 168, 1, 7);
    let peer4 = IpAddress::from_octets(123, 4, 5, 6);
    let local6 = IpAddress::from_segments(&[0x1234, 0, 0xab, 0, 0, 0, 0, 0x9]);
    let peer6 = IpAddress::from_segments(&[0x2345, 0, 0, 0, 0, 0, 0xfff, 0]);
    simulator.open(target(local4, peer4, "oldname1"));
    simulator.open(target(local6, peer6, "sixsixsi"));
    simulator.open(target(IpAddress::from_octets(192, 168, 1, 8), peer4, "oldname1"));
    simulator.advance(0, Traffic { bytes: 5000, packets: 5 }, Traffic { bytes: 300, packets: 3 });
    simulator.advance(1, Traffic { bytes: 70, packets: 7 }, Traffic { bytes: 0, packets: 0 });

    let text = simulator.dump();
    assert!(std::str::from_utf8(&text).unwrap().starts_with(
        "ipv4     2 tcp      6 431741 ESTABLISHED src=192.168.1.7 dst=123.4.5.6 sport=50054 dport=443 packets=5 bytes=5000 src=123.4.5.6 dst=192.168.1.7 sport=443 dport=50054 packets=3 bytes=300 [ASSURED] mark=0 zone=0 use=2\nipv6     2 tcp      6 431741 ESTABLISHED src=1234:0:ab:0:0:0:0:9 dst=2345:0:0:0:0:0:fff:0 "
    ));
    let subnets = vec![Subnet::V4(vec![192, 168, 1]), Subnet::V6(vec![0x1234])];
    let mut table = Table::new(60_000);
    TableCollector::process_at(&mut table, &subnets, Timestamp::from_millis(1_000), &text);
    let read = table.get(&local4, &peer4).unwrap();
    assert_eq!(read.out_count().get(0).unwrap().1.bytes, 5000);
    assert_eq!(read.in_count().get(0).unwrap().1.bytes, 300);
    let read = table.get(&local6, &peer6).unwrap();
    assert_eq!(read.out_count().get(0).unwrap().1.packets, 7);

    let device = DeviceSimulator::new("device");
    assert_eq!(device.file(), "device");
    let text = device.dump(&simulator);
    let stats = nftracker::device::parse::parse(&text, Vec::new(), |mut all, stats| {
        all.push((
            stats.interface.to_vec(),
            stats.receive_bytes,
            stats.receive_packets,
            stats.transmit_bytes,
            stats.transmit_packets,
        ));
        all
    });
    assert_eq!(stats, vec![(b"eth0".to_vec(), 5070, 12, 300, 3)]);

    let leases = LeasesSimulator::new("leases");
    assert_eq!(leases.file(), "leases");
    let text = leases.dump(&simulator);
    assert_eq!(
        std::str::from_utf8(&text).unwrap(),
        "1562986769 74:c2:46:12:34:56 192.168.1.8 oldname1 01:74:c2:46:12:34:56\nduid 00:01:00:01:24:99:3a:37:00:01:2e:12:34:56\n1561852704 224934210 1234:0:ab:0:0:0:0:9 sixsixsi 00:04:2e:3b:43:05:a5:df:ad:a0:32:bb:a8:a8:d3:12:34:56\n"
    );
    let read = process_leases(&text);
    assert_eq!(read.len(), 2);
    assert_eq!(read[0].addr, IpAddress::from_octets(192, 168, 1, 8));
    assert_eq!(read[0].name, b"oldname1");
    assert_eq!(read[1].addr, local6);
}
