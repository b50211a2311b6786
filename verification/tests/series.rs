use nftracker::common::counter::TrafficCounter;
use nftracker::minirrd::{RRDEntry, RRD};
use nftracker::time::{align, Timestamp};

fn counter(value: u64) -> TrafficCounter {
    TrafficCounter { bytes: value, packets: value }
}

fn values(rrd: &RRD<TrafficCounter>) -> Vec<u64> {
    rrd.iter().into_iter().map(|(_, entry)| entry.bytes).collect()
}

#[test]
fn far_future_write_truncates() {
    let t0 = 1_000_000_000_000;
    let mut rrd = RRD::<TrafficCounter>::new(Timestamp::from_millis(t0), 1000, 10_000);
    assert!(rrd.put(Timestamp::from_millis(t0), counter(0)));
    assert!(rrd.put(Timestamp::from_millis(t0 + 1_000_000), counter(1000)));

    assert_eq!(rrd.len(), 10);
    assert_eq!(rrd.last_timestamp().millis(), t0 + 1_000_000);
    assert_eq!(rrd.first_timestamp().millis(), t0 + 991_000);
    assert_eq!(values(&rrd), vec![991, 992, 993, 994, 995, 996, 997, 998, 999, 1000]);
}

#[test]
fn write_before_the_window_is_refused() {
    let mut rrd = RRD::<TrafficCounter>::new(Timestamp::from_millis(5_000), 1000, 3_000);
    assert!(rrd.put(Timestamp::from_millis(5_500), counter(7)));

    assert!(!rrd.put(Timestamp::from_millis(4_999), counter(99)));

    assert_eq!(rrd.len(), 1);
    assert_eq!(rrd.first_timestamp().millis(), 5_000);
    assert_eq!(values(&rrd), vec![7]);
}

#[test]
fn write_inside_the_window_merges_into_its_bucket() {
    let mut rrd = RRD::<TrafficCounter>::new(Timestamp::from_millis(0), 1000, 5_000);
    rrd.put(Timestamp::from_millis(0), counter(10));
    rrd.put(Timestamp::from_millis(3_000), counter(40));
    assert_eq!(values(&rrd), vec![10, 20, 30, 40]);

    assert!(rrd.put(Timestamp::from_millis(1_999), counter(25)));
    assert_eq!(values(&rrd), vec![10, 25, 30, 40]);

    assert!(rrd.put(Timestamp::from_millis(2_500), counter(5)));
    assert_eq!(values(&rrd), vec![10, 25, 30, 40]);
    assert_eq!(rrd.last_timestamp().millis(), 3_000);
}

#[test]
fn gap_is_filled_and_oldest_buckets_leave() {
    let mut rrd = RRD::<TrafficCounter>::new(Timestamp::from_millis(0), 1000, 4_000);
    rrd.put(Timestamp::from_millis(0), counter(100));
    rrd.put(Timestamp::from_millis(2_000), counter(300));
    assert_eq!(values(&rrd), vec![100, 200, 300]);

    rrd.put(Timestamp::from_millis(5_999), counter(600));

    assert_eq!(rrd.len(), 4);
    assert_eq!(rrd.first_timestamp().millis(), 2_000);
    assert_eq!(rrd.last_timestamp().millis(), 5_000);
    assert_eq!(values(&rrd), vec![300, 400, 500, 600]);
    assert_eq!(rrd.get(0).unwrap().0.millis(), 2_000);
    assert_eq!(rrd.get(3).unwrap().1.bytes, 600);
    assert!(rrd.get(4).is_none());
}

#[test]
fn ring_wraps_to_full_length() {
    let start = 10_000;
    let mut rrd = RRD::<TrafficCounter>::new(Timestamp::from_millis(start), 1000, 60_000);

    for i in 0..200i64 {
        rrd.put(Timestamp::from_millis(start + 500 * i), counter(i as u64));
        assert!(1 <= rrd.len() && rrd.len() <= 60);
    }

    assert_eq!(rrd.len(), 60);
    assert_eq!(rrd.last_timestamp().millis() - rrd.first_timestamp().millis(), 60_000 - 1000);
}

#[test]
fn buckets_are_aligned_and_one_resolution_apart() {
    let mut rrd = RRD::<TrafficCounter>::new(Timestamp::from_millis(1_234_567), 250, 2_000);
    rrd.put(Timestamp::from_millis(1_234_567), counter(1));
    rrd.put(Timestamp::from_millis(1_235_999), counter(9));

    let buckets = rrd.iter();
    assert_eq!(buckets.len(), rrd.len());
    assert_eq!(buckets[0].0.millis(), 1_234_500);
    for (timestamp, _) in buckets.iter() {
        assert_eq!(timestamp.millis() % 250, 0);
    }
    for pair in buckets.windows(2) {
        assert_eq!(pair[1].0.millis() - pair[0].0.millis(), 250);
    }
}

#[test]
fn writing_twice_is_writing_once() {
    let mut once = RRD::<TrafficCounter>::new(Timestamp::from_millis(0), 1000, 5_000);
    let mut twice = RRD::<TrafficCounter>::new(Timestamp::from_millis(0), 1000, 5_000);
    for rrd in [&mut once, &mut twice] {
        rrd.put(Timestamp::from_millis(100), counter(50));
    }

    once.put(Timestamp::from_millis(7_300), counter(400));
    twice.put(Timestamp::from_millis(7_300), counter(400));
    twice.put(Timestamp::from_millis(7_300), counter(400));

    assert_eq!(values(&once), values(&twice));
    assert_eq!(once.first_timestamp(), twice.first_timestamp());
    assert_eq!(once.last_timestamp(), twice.last_timestamp());
}

#[test]
fn times_before_the_epoch_align_downwards() {
    assert_eq!(align(-1, 1000), -1000);
    assert_eq!(align(-1000, 1000), -1000);
    assert_eq!(align(-1001, 1000), -2000);
    assert_eq!(align(0, 1000), 0);
    assert_eq!(align(999, 1000), 0);
    assert_eq!(align(1000, 1000), 1000);

    let mut rrd = RRD::<TrafficCounter>::new(Timestamp::from_millis(-2_500), 1000, 3_000);
    assert_eq!(rrd.first_timestamp().millis(), -3_000);
    rrd.put(Timestamp::from_millis(-2_001), counter(5));
    assert_eq!(rrd.len(), 1);
    rrd.put(Timestamp::from_millis(-1), counter(7));
    assert_eq!(rrd.len(), 3);
    assert_eq!(rrd.last_timestamp().millis(), -1_000);
    assert_eq!(values(&rrd), vec![5, 6, 7]);
}

#[test]
fn interpolation_follows_the_line() {
    let previous = TrafficCounter { bytes: 100, packets: 10 };
    let current = TrafficCounter { bytes: 1100, packets: 13 };

    assert_eq!(current.interpolate(&previous, 0, 4), previous);
    assert_eq!(current.interpolate(&previous, 1, 4), TrafficCounter { bytes: 350, packets: 10 });
    assert_eq!(current.interpolate(&previous, 3, 4), TrafficCounter { bytes: 850, packets: 12 });
    assert_eq!(current.interpolate(&previous, 4, 4), current);

    let huge = TrafficCounter { bytes: u64::MAX, packets: u64::MAX };
    let zero = TrafficCounter { bytes: 0, packets: 0 };
    assert_eq!(huge.interpolate(&zero, u64::MAX, u64::MAX), huge);
    assert_eq!(huge.interpolate(&zero, 1, 2).bytes, u64::MAX / 2);
}

#[test]
fn interpolation_rises_for_rising_counters() {
    let previous = TrafficCounter { bytes: 7, packets: 3 };
    let current = TrafficCounter { bytes: 1000, packets: 3 };
    let mut last = previous;
    for index in 1..=13 {
        let between = current.interpolate(&previous, index, 13);
        assert!(last.bytes <= between.bytes && between.bytes <= current.bytes);
        assert!(last.packets <= between.packets && between.packets <= current.packets);
        last = between;
    }
    assert_eq!(last, current);
}

#[test]
fn interpolation_of_a_fallen_counter_starts_at_zero() {
    let previous = TrafficCounter { bytes: 1000, packets: 5 };
    let current = TrafficCounter { bytes: 400, packets: 8 };

    assert_eq!(current.interpolate(&previous, 1, 4), TrafficCounter { bytes: 100, packets: 5 });
    assert_eq!(current.interpolate(&previous, 2, 4), TrafficCounter { bytes: 200, packets: 6 });
    assert_eq!(current.interpolate(&previous, 4, 4), current);
}

#[test]
fn combine_keeps_the_larger_of_each_field() {
    let a = TrafficCounter { bytes: 10, packets: 7 };
    let b = TrafficCounter { bytes: 3, packets: 9 };
    assert_eq!(a.combine(&b), TrafficCounter { bytes: 10, packets: 9 });
    assert_eq!(a.combine(&a), a);
    assert_eq!(TrafficCounter::default(), TrafficCounter { bytes: 0, packets: 0 });
}
