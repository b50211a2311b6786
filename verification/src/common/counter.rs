//! Cumulative byte and packet counters, and the pair of series that records
//! them for one endpoint: what came in and what went out.

use crate::common::rate::TrafficRate;
use crate::minirrd::{RRDEntry, Series, RRD};
use crate::time::{floor_to, lemma_floor_to, Timestamp};
use vstd::arithmetic::div_mod::{lemma_div_is_ordered, lemma_div_multiples_vanish};
use vstd::prelude::*;

verus! {

/// A cumulative count of bytes and packets.
#[derive(Debug, Clone, Copy, PartialEq, Eq, Structural)]
pub struct TrafficCounter {
    pub bytes: u64,
    pub packets: u64,
}

/// The counter under its shorter spelling.
pub type TraficCounter = TrafficCounter;

/// The larger of two counts.
pub open spec fn larger(a: u64, b: u64) -> u64 {
    if a >= b {
        a
    } else {
        b
    }
}

/// The count `index` steps out of `steps` on the straight line from
/// `previous` to `current`. A count that fell below `previous` belongs to a
/// new flow, and the line starts at zero.
pub open spec fn between(current: u64, previous: u64, index: nat, steps: nat) -> int {
    if current >= previous {
        previous + ((current - previous) * index) / (steps as int)
    } else {
        (current * index) / (steps as int)
    }
}

/// A share `index / steps` of `whole` is at most `whole`, and grows with
/// `index`.
pub proof fn lemma_share(whole: int, index: int, later: int, steps: int)
    requires
        0 <= whole,
        0 <= index <= later <= steps,
        0 < steps,
    ensures
        0 <= whole * index / steps <= whole * later / steps <= whole,
        whole * steps / steps == whole,
        whole * 0 / steps == 0,
{
    assert(0 <= whole * index <= whole * later <= whole * steps) by (nonlinear_arith)
        requires
            0 <= whole,
            0 <= index <= later <= steps,
    ;
    lemma_div_is_ordered(0, whole * index, steps);
    lemma_div_is_ordered(whole * index, whole * later, steps);
    lemma_div_is_ordered(whole * later, whole * steps, steps);
    lemma_div_multiples_vanish(whole, steps);
    assert(whole * steps == steps * whole) by (nonlinear_arith);
    assert(whole * 0 == 0) by (nonlinear_arith);
}

/// Between a counter and a later one that is no smaller, the interpolated
/// counts rise step by step from the earlier to the later, and stay between
/// the two.
pub proof fn lemma_between_monotone(current: u64, previous: u64, index: nat, later: nat, steps: nat)
    requires
        previous <= current,
        index <= later <= steps,
        0 < steps,
    ensures
        previous <= between(current, previous, index, steps) <= between(
            current,
            previous,
            later,
            steps,
        ) <= current,
        between(current, previous, 0, steps) == previous,
        between(current, previous, steps, steps) == current,
{
    lemma_share((current - previous) as int, index as int, later as int, steps as int);
    lemma_share((current - previous) as int, 0, steps as int, steps as int);
}

/// An interpolated count never exceeds the count it leads to, and reaches it
/// at the last step.
pub proof fn lemma_between_bounds(current: u64, previous: u64, index: nat, steps: nat)
    requires
        index <= steps,
        0 < steps,
    ensures
        0 <= between(current, previous, index, steps) <= current,
        between(current, previous, steps, steps) == current,
{
    if current >= previous {
        lemma_share((current - previous) as int, index as int, steps as int, steps as int);
    } else {
        lemma_share(current as int, index as int, steps as int, steps as int);
    }
}

/// One count on the way from `previous` to `current`.
fn step_between(current: u64, previous: u64, index: u64, steps: u64) -> (count: u64)
    requires
        0 < steps,
        index <= steps,
    ensures
        count == between(current, previous, index as nat, steps as nat),
{
    proof {
        lemma_between_bounds(current, previous, index as nat, steps as nat);
    }
    if current >= previous {
        proof {
            lemma_share((current - previous) as int, index as int, steps as int, steps as int);
            assert((current - previous) * index <= (current - previous) * steps)
                by (nonlinear_arith)
                requires
                    0 <= current - previous,
                    0 <= index <= steps,
            ;
            assert((current - previous) * steps <= u64::MAX * u64::MAX) by (nonlinear_arith)
                requires
                    0 <= current - previous <= u64::MAX,
                    0 <= steps <= u64::MAX,
            ;
        }
        let gain: u128 = ((current - previous) as u128) * (index as u128) / (steps as u128);
        previous + (gain as u64)
    } else {
        proof {
            assert(current * index <= u64::MAX * u64::MAX) by (nonlinear_arith)
                requires
                    0 <= current <= u64::MAX,
                    0 <= index <= u64::MAX,
            ;
        }
        ((current as u128) * (index as u128) / (steps as u128)) as u64
    }
}

impl Default for TrafficCounter {
    fn default() -> (zero: Self)
        ensures
            zero == (TrafficCounter { bytes: 0, packets: 0 }),
    {
        TrafficCounter { bytes: 0, packets: 0 }
    }
}

impl RRDEntry for TrafficCounter {
    open spec fn spec_default() -> Self {
        TrafficCounter { bytes: 0, packets: 0 }
    }

    /// Of two cumulative samples in one bucket the larger is the newer.
    open spec fn spec_combine(self, other: Self) -> Self {
        TrafficCounter {
            bytes: larger(self.bytes, other.bytes),
            packets: larger(self.packets, other.packets),
        }
    }

    open spec fn spec_interpolate(self, previous: Self, index: nat, steps: nat) -> Self {
        TrafficCounter {
            bytes: between(self.bytes, previous.bytes, index, steps) as u64,
            packets: between(self.packets, previous.packets, index, steps) as u64,
        }
    }

    proof fn default_value(made: Self) {
    }

    proof fn clone_value(source: Self, copy: Self) {
    }

    fn combine(self, other: &Self) -> Self {
        TrafficCounter {
            packets: if self.packets >= other.packets {
                self.packets
            } else {
                other.packets
            },
            bytes: if self.bytes >= other.bytes {
                self.bytes
            } else {
                other.bytes
            },
        }
    }

    fn interpolate(&self, previous: &Self, index: u64, steps: u64) -> Self {
        TrafficCounter {
            bytes: step_between(self.bytes, previous.bytes, index, steps),
            packets: step_between(self.packets, previous.packets, index, steps),
        }
    }
}

/// Interpolating between two counters of which the later is no smaller in
/// either field gives counters that rise from the earlier to the later.
pub proof fn lemma_interpolate_monotone(
    current: TrafficCounter,
    previous: TrafficCounter,
    index: nat,
    later: nat,
    steps: nat,
)
    requires
        previous.bytes <= current.bytes,
        previous.packets <= current.packets,
        index <= later <= steps,
        0 < steps,
    ensures
        previous.bytes <= current.spec_interpolate(previous, index, steps).bytes
            <= current.spec_interpolate(previous, later, steps).bytes <= current.bytes,
        previous.packets <= current.spec_interpolate(previous, index, steps).packets
            <= current.spec_interpolate(previous, later, steps).packets <= current.packets,
        current.spec_interpolate(previous, steps, steps) == current,
{
    lemma_between_monotone(current.bytes, previous.bytes, index, later, steps);
    lemma_between_monotone(current.packets, previous.packets, index, later, steps);
}

/// Writing the same counter at the same time twice is writing it once.
pub proof fn lemma_put_counter_twice(series: Series<TrafficCounter>, t: int, entry: TrafficCounter)
    requires
        series.wf(),
    ensures
        series.put(t, entry).put(t, entry) == series.put(t, entry),
{
    if t >= series.first {
        let steps = series.offset(t);
        if steps > 0 {
            let newest = series.entries.last();
            series.lemma_put_window(t, entry);
            series.lemma_offset(t);
            lemma_between_bounds(entry.bytes, newest.bytes, steps as nat, steps as nat);
            lemma_between_bounds(entry.packets, newest.packets, steps as nat, steps as nat);
            let once = series.put(t, entry);
            assert(once.last() == floor_to(t, series.resolution)) by {
                assert(series.position(t) * series.resolution > (series.entries.len() - 1)
                    * series.resolution) by (nonlinear_arith)
                    requires
                        series.position(t) > series.entries.len() - 1,
                        series.resolution > 0,
                ;
            }
            lemma_floor_to(t, series.resolution);
            crate::time::lemma_div_mod_unique(
                t - once.last(),
                series.resolution,
                0,
                t % series.resolution,
            );
        } else {
            let at = series.entries.len() - 1 + steps;
            let once = series.put(t, entry);
            series.lemma_offset(t);
        }
    }
    series.lemma_put_twice(t, entry);
}

/// The traffic of one endpoint: a series of the counters that came in and
/// one of those that went out, both in buckets of one second.
#[derive(Debug)]
pub struct Trafic {
    in_count: RRD<TrafficCounter>,
    out_count: RRD<TrafficCounter>,
}

/// Width of a bucket of traffic, in milliseconds.
pub const BUCKET_MILLIS: u64 = 1000;

/// The content of the traffic of one endpoint.
pub struct Flow {
    /// The series of inbound counters.
    pub incoming: Series<TrafficCounter>,
    /// The series of outbound counters.
    pub outgoing: Series<TrafficCounter>,
}

impl Flow {
    /// The empty history of both directions that starts at `start` and
    /// keeps `retain` milliseconds.
    pub open spec fn starting_at(start: Timestamp, retain: u64) -> Flow {
        Flow {
            incoming: Trafic::spec_starting_at(start, retain),
            outgoing: Trafic::spec_starting_at(start, retain),
        }
    }

    /// The flow after the inbound counter `counter` was recorded at `t`.
    pub open spec fn put_in(self, t: Timestamp, counter: TrafficCounter) -> Flow {
        Flow { incoming: self.incoming.put(t.millis as int, counter), ..self }
    }

    /// The flow after the outbound counter `counter` was recorded at `t`.
    pub open spec fn put_out(self, t: Timestamp, counter: TrafficCounter) -> Flow {
        Flow { outgoing: self.outgoing.put(t.millis as int, counter), ..self }
    }
}

impl View for Trafic {
    type V = Flow;

    closed spec fn view(&self) -> Flow {
        Flow { incoming: self.in_count@, outgoing: self.out_count@ }
    }
}

impl Trafic {
    pub closed spec fn wf(&self) -> bool {
        &&& self.in_count.wf()
        &&& self.out_count.wf()
        &&& self.in_count@.resolution == BUCKET_MILLIS
        &&& self.out_count@.resolution == BUCKET_MILLIS
    }

    /// The series of inbound counters.
    pub closed spec fn incoming(&self) -> Series<TrafficCounter> {
        self.in_count@
    }

    /// The series of outbound counters.
    pub closed spec fn outgoing(&self) -> Series<TrafficCounter> {
        self.out_count@
    }

    /// Well-formed traffic holds two well-formed series.
    pub proof fn lemma_wf(&self)
        requires
            self.wf(),
        ensures
            self.incoming().wf(),
            self.outgoing().wf(),
            self.incoming().resolution == BUCKET_MILLIS,
            self.outgoing().resolution == BUCKET_MILLIS,
            self@ == (Flow { incoming: self.incoming(), outgoing: self.outgoing() }),
    {
        self.in_count.lemma_wf();
        self.out_count.lemma_wf();
    }

    /// The empty history that starts at `start` and keeps `retain`
    /// milliseconds.
    pub open spec fn spec_starting_at(start: Timestamp, retain: u64) -> Series<TrafficCounter> {
        Series {
            resolution: BUCKET_MILLIS as int,
            capacity: (retain / BUCKET_MILLIS) as int,
            first: floor_to(start.millis as int, BUCKET_MILLIS as int),
            entries: seq![TrafficCounter { bytes: 0, packets: 0 }],
        }
    }

    /// Traffic whose history starts at `start` and keeps `retain`
    /// milliseconds.
    pub fn starting_at(start: Timestamp, retain: u64) -> (trafic: Trafic)
        requires
            retain >= BUCKET_MILLIS,
            retain / BUCKET_MILLIS <= usize::MAX,
            start.millis >= i64::MIN + BUCKET_MILLIS,
        ensures
            trafic.wf(),
            trafic@ == Flow::starting_at(start, retain),
    {
        proof {
            lemma_floor_to(start.millis as int, BUCKET_MILLIS as int);
        }
        Trafic {
            in_count: RRD::new(start, BUCKET_MILLIS, retain),
            out_count: RRD::new(start, BUCKET_MILLIS, retain),
        }
    }

    /// Traffic whose history starts now and keeps `retain` milliseconds.
    pub fn new(retain: u64) -> (trafic: Trafic)
        requires
            retain >= BUCKET_MILLIS,
            retain / BUCKET_MILLIS <= usize::MAX,
        ensures
            trafic.wf(),
            exists|start: Timestamp|
                start.millis >= 0 && trafic@ == #[trigger] Flow::starting_at(start, retain),
    {
        let now = Timestamp::now();
        Trafic::starting_at(now, retain)
    }

    /// Records the inbound counter `bytes`, `packets` at `timestamp`.
    pub fn put_in(&mut self, timestamp: Timestamp, bytes: u64, packets: u64)
        requires
            old(self).wf(),
        ensures
            final(self).wf(),
            final(self)@ == old(self)@.put_in(timestamp, TrafficCounter { bytes, packets }),
    {
        proof {
            self.in_count.lemma_wf();
            self.in_count@.lemma_put_window(timestamp.millis as int, TrafficCounter { bytes, packets });
        }
        self.in_count.put(timestamp, TrafficCounter { bytes, packets });
    }

    /// Records the outbound counter `bytes`, `packets` at `timestamp`.
    pub fn put_out(&mut self, timestamp: Timestamp, bytes: u64, packets: u64)
        requires
            old(self).wf(),
        ensures
            final(self).wf(),
            final(self)@ == old(self)@.put_out(timestamp, TrafficCounter { bytes, packets }),
    {
        proof {
            self.out_count.lemma_wf();
            self.out_count@.lemma_put_window(timestamp.millis as int, TrafficCounter { bytes, packets });
        }
        self.out_count.put(timestamp, TrafficCounter { bytes, packets });
    }

    /// The series of inbound counters.
    pub fn in_count(&self) -> (series: &RRD<TrafficCounter>)
        requires
            self.wf(),
        ensures
            series.wf(),
            series@ == self@.incoming,
    {
        &self.in_count
    }

    /// The series of outbound counters.
    pub fn out_count(&self) -> (series: &RRD<TrafficCounter>)
        requires
            self.wf(),
        ensures
            series.wf(),
            series@ == self@.outgoing,
    {
        &self.out_count
    }

    /// Start of the inbound history, and the rate from each of its buckets
    /// to the next.
    pub fn snapshot_in_rates(&self) -> (snapshot: (Timestamp, Vec<TrafficRate>))
        requires
            self.wf(),
        ensures
            is_rates_of(self.incoming(), snapshot),
    {
        rates_of(&self.in_count)
    }

    /// Start of the outbound history, and the rate from each of its buckets
    /// to the next.
    pub fn snapshot_out_rates(&self) -> (snapshot: (Timestamp, Vec<TrafficRate>))
        requires
            self.wf(),
        ensures
            is_rates_of(self.outgoing(), snapshot),
    {
        rates_of(&self.out_count)
    }
}

/// The sample that `series` holds at position `i`.
pub open spec fn sample_at(series: Series<TrafficCounter>, i: int) -> (Timestamp, TrafficCounter) {
    (Timestamp { millis: series.timestamp(i) as i64 }, series.entries[i])
}

/// `snapshot` is the start of `series` and, for each bucket but the newest,
/// the rate from it to the next: one rate fewer than there are buckets.
pub open spec fn is_rates_of(
    series: Series<TrafficCounter>,
    snapshot: (Timestamp, Vec<TrafficRate>),
) -> bool {
    &&& snapshot.0.millis == series.first
    &&& snapshot.1@.len() == series.entries.len() - 1
    &&& forall|i: int|
        0 <= i < snapshot.1@.len() ==> #[trigger] snapshot.1@[i] == TrafficRate::spec_from_counter(
            sample_at(series, i),
            sample_at(series, i + 1),
        )
}

/// Start of a series of counters, and the rate from each bucket to the next.
fn rates_of(series: &RRD<TrafficCounter>) -> (snapshot: (Timestamp, Vec<TrafficRate>))
    requires
        series.wf(),
    ensures
        is_rates_of(series@, snapshot),
{
    let buckets = series.iter();
    let mut rates: Vec<TrafficRate> = Vec::new();
    let mut i: usize = 1;
    while i < buckets.len()
        invariant
            1 <= i,
            buckets@.len() == series@.entries.len(),
            buckets@.len() >= 1 ==> i <= buckets@.len(),
            rates@.len() == i - 1,
            forall|k: int|
                0 <= k < buckets@.len() ==> (#[trigger] buckets@[k]).0.millis == series@.timestamp(
                    k,
                ) && *buckets@[k].1 == series@.entries[k],
            forall|k: int|
                0 <= k < rates@.len() ==> #[trigger] rates@[k] == TrafficRate::spec_from_counter(
                    sample_at(series@, k),
                    sample_at(series@, k + 1),
                ),
        decreases buckets@.len() - i,
    {
        let prev = &buckets[i - 1];
        let current = &buckets[i];
        let rate = TrafficRate::from_counter((prev.0, prev.1), (current.0, current.1));
        rates.push(rate);
        i += 1;
    }
    proof {
        series.lemma_wf();
    }
    (series.first_timestamp(), rates)
}

} // verus!
