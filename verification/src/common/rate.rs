//! Rates per second, derived from two cumulative counters and the time
//! between them.

use crate::common::counter::TrafficCounter;
use crate::time::Timestamp;
use vstd::prelude::*;

verus! {

#[derive(Debug, Clone, Copy, PartialEq, Eq, Structural)]
pub struct TrafficRate {
    pub bytes_per_sec: u64,
    pub packets_per_sec: u64,
}

/// Whole seconds from `prev` to `current`, both in milliseconds.
pub open spec fn elapsed_secs(prev: int, current: int) -> int {
    (current - prev) / 1000
}

/// The rate of one counter over `secs` seconds. A counter that fell below
/// its earlier value counts a new flow, whose whole count arrived in that
/// time.
pub open spec fn rate_of(prev: u64, current: u64, secs: int) -> int {
    if current >= prev {
        (current - prev) / secs
    } else {
        (current as int) / secs
    }
}

impl TrafficRate {
    /// The rate between the sample `prev` and the later sample `current`:
    /// zero when less than a second lies between them.
    pub open spec fn spec_from_counter(
        prev: (Timestamp, TrafficCounter),
        current: (Timestamp, TrafficCounter),
    ) -> TrafficRate {
        let secs = elapsed_secs(prev.0.millis as int, current.0.millis as int);
        if secs < 1 {
            TrafficRate { bytes_per_sec: 0, packets_per_sec: 0 }
        } else {
            TrafficRate {
                bytes_per_sec: rate_of(prev.1.bytes, current.1.bytes, secs) as u64,
                packets_per_sec: rate_of(prev.1.packets, current.1.packets, secs) as u64,
            }
        }
    }

    pub fn from_counter(
        prev: (Timestamp, &TrafficCounter),
        current: (Timestamp, &TrafficCounter),
    ) -> (rate: TrafficRate)
        ensures
            rate == Self::spec_from_counter((prev.0, *prev.1), (current.0, *current.1)),
            rate.bytes_per_sec <= current.1.bytes,
            rate.packets_per_sec <= current.1.packets,
    {
        let apart: i128 = (current.0.millis as i128) - (prev.0.millis as i128);
        if apart < 1000 {
            return TrafficRate { bytes_per_sec: 0, packets_per_sec: 0 };
        }
        let secs: u64 = ((apart as u128) / 1000) as u64;
        let bytes_per_sec = rate_over(prev.1.bytes, current.1.bytes, secs);
        let packets_per_sec = rate_over(prev.1.packets, current.1.packets, secs);
        TrafficRate { bytes_per_sec, packets_per_sec }
    }
}

/// The rate of one counter over `secs` seconds.
fn rate_over(prev: u64, current: u64, secs: u64) -> (rate: u64)
    requires
        secs >= 1,
    ensures
        rate == rate_of(prev, current, secs as int),
        rate <= current,
{
    proof {
        vstd::arithmetic::div_mod::lemma_div_nonincreasing(current as int, secs as int);
    }
    if current >= prev {
        proof {
            vstd::arithmetic::div_mod::lemma_div_nonincreasing(
                (current - prev) as int,
                secs as int,
            );
        }
        (current - prev) / secs
    } else {
        current / secs
    }
}

} // verus!
