use chrono::{NaiveDate, NaiveDateTime, NaiveTime, Utc};
use nftracker::common::counter::TrafficCounter;
use nftracker::minirrd::RRD;
use nftracker::time::Timestamp;

#[allow(non_snake_case)]
fn Counter(value: u64) -> TrafficCounter {
    TrafficCounter { bytes: value, packets: value }
}

fn at(datetime: NaiveDateTime) -> Timestamp {
    Timestamp::from_millis(datetime.and_utc().timestamp_millis())
}

fn year_2000() -> NaiveDateTime {
    NaiveDateTime::new(
        NaiveDate::from_ymd_opt(2000, 1, 1).unwrap(),
        NaiveTime::from_hms_opt(0, 0, 0).unwrap(),
    )
}

#[test]
fn test_create_empty() {
    let now = at(Utc::now().naive_utc());
    let rrd = RRD::<TrafficCounter>::new(now, 1000, 600_000);

    assert_eq!(rrd.len(), 1);
    assert_eq!(rrd.first_timestamp(), rrd.last_timestamp());
    assert!((rrd.first_timestamp().millis() - now.millis()).abs() < 1000);
}

#[test]
fn test_fill_single_points() {
    let start = year_2000();
    let mut rrd = RRD::<TrafficCounter>::new(at(start), 1000, 600_000);

    for i in 0..500 {
        let timestamp = start + chrono::Duration::milliseconds(500) * (2 * i + 1);
        rrd.put(at(timestamp), Counter(100 * i as u64));
    }

    assert_eq!(rrd.first_timestamp(), at(start));
    assert_eq!(rrd.last_timestamp(), at(start + chrono::Duration::seconds(499)));
    assert_eq!(rrd.len(), 500);
    assert_eq!(rrd.iter().len(), 500);

    for (i, (timestamp, counter)) in rrd.iter().into_iter().enumerate() {
        let expected_timestamp = at(start + chrono::Duration::seconds(1) * i as i32);
        let expected_counter = Counter(100 * i as u64);

        assert_eq!(timestamp, expected_timestamp);
        assert_eq!(counter, &expected_counter);

        if let Some((actual_timestamp, actual_counter)) = rrd.get(i) {
            assert_eq!(actual_timestamp, expected_timestamp);
            assert_eq!(actual_counter, &expected_counter);
        } else {
            panic!("No point at {}", i)
        }
    }

    for i in 500..1000 {
        let timestamp = start + chrono::Duration::milliseconds(500) * (2 * i + 1);
        rrd.put(at(timestamp), Counter(100 * i as u64));
    }

    assert_eq!(rrd.len(), 600);
    assert_eq!(rrd.iter().len(), 600);
    assert_eq!(rrd.first_timestamp(), at(start + chrono::Duration::seconds(400)));
    assert_eq!(rrd.last_timestamp(), at(start + chrono::Duration::seconds(999)));

    for (i, (timestamp, counter)) in rrd.iter().into_iter().enumerate() {
        let expected_timestamp = at(start + chrono::Duration::seconds(1) * (i + 400) as i32);
        let expected_counter = Counter(100 * (i + 400) as u64);

        assert_eq!(timestamp, expected_timestamp);
        assert_eq!(counter, &expected_counter);

        if let Some((actual_timestamp, actual_counter)) = rrd.get(i) {
            assert_eq!(actual_timestamp, expected_timestamp);
            assert_eq!(actual_counter, &expected_counter);
        } else {
            panic!("No point at {}", i)
        }
    }
}

#[test]
fn test_fill_double_points() {
    let start = year_2000();
    let mut rrd = RRD::<TrafficCounter>::new(at(start), 1000, 600_000);

    for i in 0..1000 {
        let timestamp = start + chrono::Duration::milliseconds(250) * (2 * i + 1);
        rrd.put(at(timestamp), Counter(100 * i as u64));
    }

    assert_eq!(rrd.first_timestamp(), at(start));
    assert_eq!(rrd.last_timestamp(), at(start + chrono::Duration::seconds(499)));
    assert_eq!(rrd.len(), 500);
    assert_eq!(rrd.iter().len(), 500);

    for (i, (timestamp, counter)) in rrd.iter().into_iter().enumerate() {
        let expected_timestamp = at(start + chrono::Duration::seconds(1) * i as i32);
        let expected_counter = Counter(100 * (2 * i + 1) as u64);

        assert_eq!(timestamp, expected_timestamp);
        assert_eq!(counter, &expected_counter);

        if let Some((actual_timestamp, actual_counter)) = rrd.get(i) {
            assert_eq!(actual_timestamp, expected_timestamp);
            assert_eq!(actual_counter, &expected_counter);
        } else {
            panic!("No point at {}", i)
        }
    }
}
