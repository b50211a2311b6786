use nftracker::common::counter::{TrafficCounter, Trafic};
use nftracker::common::rate::TrafficRate;
use nftracker::common::timeseries::Timeseries;
use nftracker::time::Timestamp;

fn sample(millis: i64, bytes: u64, packets: u64) -> (Timestamp, TrafficCounter) {
    (Timestamp::from_millis(millis), TrafficCounter { bytes, packets })
}

fn rate(prev: &(Timestamp, TrafficCounter), current: &(Timestamp, TrafficCounter)) -> TrafficRate {
    TrafficRate::from_counter((prev.0, &prev.1), (current.0, &current.1))
}

#[test]
fn rate_is_the_growth_per_second() {
    let r = rate(&sample(0, 1000, 10), &sample(4_000, 9000, 50));
    assert_eq!(r, TrafficRate { bytes_per_sec: 2000, packets_per_sec: 10 });

    let r = rate(&sample(0, 1000, 10), &sample(4_999, 9000, 50));
    assert_eq!(r, TrafficRate { bytes_per_sec: 2000, packets_per_sec: 10 });

    let r = rate(&sample(0, 500, 5), &sample(1_000, 500, 5));
    assert_eq!(r, TrafficRate { bytes_per_sec: 0, packets_per_sec: 0 });
}

#[test]
fn rate_is_zero_within_a_second() {
    let zero = TrafficRate { bytes_per_sec: 0, packets_per_sec: 0 };
    assert_eq!(rate(&sample(0, 0, 0), &sample(999, 5000, 50)), zero);
    assert_eq!(rate(&sample(5_000, 0, 0), &sample(5_000, 5000, 50)), zero);
    assert_eq!(rate(&sample(5_000, 0, 0), &sample(1_000, 5000, 50)), zero);
    assert_eq!(rate(&sample(i64::MAX, 0, 0), &sample(i64::MIN, 5000, 50)), zero);
}

#[test]
fn rate_of_a_fallen_counter_is_its_count_per_second() {
    let r = rate(&sample(0, 10_000, 10), &sample(2_000, 600, 40));
    assert_eq!(r, TrafficRate { bytes_per_sec: 300, packets_per_sec: 15 });

    let r = rate(&sample(i64::MIN, u64::MAX, 0), &sample(i64::MAX, 0, u64::MAX));
    assert_eq!(r.bytes_per_sec, 0);
    assert_eq!(r.packets_per_sec, u64::MAX / (u64::MAX / 1000));
}

#[test]
fn snapshot_has_one_rate_fewer_than_buckets() {
    let mut trafic = Trafic::starting_at(Timestamp::from_millis(10_000), 60_000);
    assert_eq!(trafic.snapshot_in_rates(), (Timestamp::from_millis(10_000), vec![]));

    trafic.put_in(Timestamp::from_millis(10_000), 1000, 10);
    trafic.put_in(Timestamp::from_millis(13_500), 4000, 40);
    trafic.put_out(Timestamp::from_millis(11_000), 700, 7);

    let (start, rates) = trafic.snapshot_in_rates();
    assert_eq!(start.millis(), 10_000);
    assert_eq!(trafic.in_count().len(), 4);
    assert_eq!(rates, vec![TrafficRate { bytes_per_sec: 1000, packets_per_sec: 10 }; 3]);

    let (start, rates) = trafic.snapshot_out_rates();
    assert_eq!(start.millis(), 10_000);
    assert_eq!(trafic.out_count().len(), 2);
    assert_eq!(rates, vec![TrafficRate { bytes_per_sec: 700, packets_per_sec: 7 }]);
}

#[test]
fn traffic_started_now_starts_in_this_second() {
    let before = chrono::Utc::now().timestamp_millis();
    let trafic = Trafic::new(300_000);
    let after = chrono::Utc::now().timestamp_millis();

    let first = trafic.in_count().first_timestamp().millis();
    assert_eq!(first % 1000, 0);
    assert!(before - 1000 < first && first <= after);
    assert_eq!(trafic.out_count().first_timestamp().millis(), first);
    assert_eq!(trafic.in_count().len(), 1);
}

#[test]
fn timeseries_prunes_by_age() {
    let mut series = Timeseries::default();
    for (i, millis) in [100, 300, 200, 500, 50].into_iter().enumerate() {
        series.push_in(Timestamp::from_millis(millis), i as u64, 1);
        series.push_out(Timestamp::from_millis(millis + 1), i as u64, 2);
    }
    assert_eq!(series.in_entries.len(), 5);

    series.prune(Timestamp::from_millis(200));

    let kept_in: Vec<(i64, u64)> =
        series.in_entries.iter().map(|e| (e.timestamp.millis(), e.bytes)).collect();
    assert_eq!(kept_in, vec![(300, 1), (200, 2), (500, 3)]);
    let kept_out: Vec<(i64, u64)> =
        series.out_entries.iter().map(|e| (e.timestamp.millis(), e.bytes)).collect();
    assert_eq!(kept_out, vec![(301, 1), (201, 2), (501, 3)]);

    series.prune(Timestamp::from_millis(1000));
    assert!(series.in_entries.is_empty());
    assert!(series.out_entries.is_empty());
}
