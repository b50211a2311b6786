//! One scan of the per-interface counters: the counters of the interface
//! that faces the outside go into its history.

use crate::common::counter::{Flow, TrafficCounter, Trafic, BUCKET_MILLIS};
use crate::common::text::{next_line, same_bytes};
use crate::common::timeseries::{kept, Timeseries, TimeseriesEntry};
use crate::config::Config;
use crate::device::parse::{parse_line, spec_stats, InterfaceStats, Stats, HEADINGS};
use crate::time::{Timestamp, TICK_MILLIS};
use vstd::prelude::*;
use vstd::slice::slice_subrange;
use vstd::utf8::encode_utf8;

verus! {

/// The flow after the counters `stats` were taken in at time `now`: those
/// of the interface `interface` are recorded, what was received as
/// inbound and what was sent as outbound; those of another change
/// nothing.
pub open spec fn collected(flow: Flow, now: Timestamp, interface: Seq<u8>, stats: Stats) -> Flow {
    if stats.interface == interface {
        flow.put_in(
            now,
            TrafficCounter { bytes: stats.receive_bytes, packets: stats.receive_packets },
        ).put_out(
            now,
            TrafficCounter { bytes: stats.transmit_bytes, packets: stats.transmit_packets },
        )
    } else {
        flow
    }
}

/// The flow after all counters of `all` were taken in, in order.
pub open spec fn scanned(flow: Flow, now: Timestamp, interface: Seq<u8>, all: Seq<Stats>) -> Flow
    decreases all.len(),
{
    if all.len() == 0 {
        flow
    } else {
        collected(scanned(flow, now, interface, all.drop_last()), now, interface, all.last())
    }
}

/// What one scan keeps beside the history: its time, and the name of the
/// interface.
#[derive(Debug)]
pub struct SeriesCollector<'a> {
    now: Timestamp,
    interface: &'a [u8],
}

impl<'a> SeriesCollector<'a> {
    /// Scans `input` at the current time: see
    /// [`SeriesCollector::process_at`].
    pub fn process(traffic: &mut Trafic, interface: &'a [u8], input: &[u8])
        requires
            old(traffic).wf(),
        ensures
            final(traffic).wf(),
            exists|now: Timestamp|
                now.millis >= 0 && final(traffic)@ == #[trigger] scanned(
                    old(traffic)@,
                    now,
                    interface@,
                    spec_stats(input@, 0, HEADINGS as nat),
                ),
    {
        let now = Timestamp::now();
        SeriesCollector::process_at(traffic, interface, now, input);
    }

    /// Scans the per-interface counters `input` at time `now`, and takes
    /// those of the interface `interface` into `traffic`.
    pub fn process_at(traffic: &mut Trafic, interface: &'a [u8], now: Timestamp, input: &[u8])
        requires
            old(traffic).wf(),
        ensures
            final(traffic).wf(),
            final(traffic)@ == scanned(
                old(traffic)@,
                now,
                interface@,
                spec_stats(input@, 0, HEADINGS as nat),
            ),
    {
        let ghost all = spec_stats(input@, 0, HEADINGS as nat);
        let ghost before = traffic@;
        let ghost mut taken: int = 0;
        let collector = SeriesCollector { now, interface };
        let mut pos: usize = 0;
        let mut skip: usize = HEADINGS;
        while pos < input.len()
            invariant
                pos <= input@.len(),
                0 <= taken <= all.len(),
                traffic.wf(),
                collector.now == now,
                collector.interface@ == interface@,
                all.skip(taken) == spec_stats(input@, pos as int, skip as nat),
                traffic@ == scanned(before, now, interface@, all.take(taken)),
            decreases input@.len() - pos,
        {
            let (end, next) = next_line(input, pos);
            let text = slice_subrange(input, pos, end);
            let left = if skip == 0 {
                0
            } else {
                skip - 1
            };
            let ghost rest = spec_stats(input@, next as int, left as nat);
            let found = if skip == 0 {
                parse_line(text)
            } else {
                None
            };
            match found {
                Some((stats, _)) => {
                    proof {
                        assert(all.skip(taken).len() == all.len() - taken);
                        assert(all[taken] == all.skip(taken)[0]);
                        assert(all.take(taken + 1).drop_last() =~= all.take(taken));
                        assert((seq![stats@] + rest).skip(1) =~= rest);
                    }
                    collector.collect(traffic, &stats);
                    proof {
                        taken = taken + 1;
                    }
                },
                None => {},
            }
            skip = left;
            pos = next;
        }
        proof {
            assert(all.take(taken) =~= all);
        }
    }

    /// Takes the counters of one interface in.
    fn collect(&self, traffic: &mut Trafic, stats: &InterfaceStats)
        requires
            old(traffic).wf(),
        ensures
            final(traffic).wf(),
            final(traffic)@ == collected(old(traffic)@, self.now, self.interface@, stats@),
    {
        if same_bytes(stats.interface, self.interface) {
            traffic.put_in(self.now, stats.receive_bytes, stats.receive_packets);
            traffic.put_out(self.now, stats.transmit_bytes, stats.transmit_packets);
        }
    }
}

/// Keeps the history of the interface that faces the outside up to date
/// from the file of counters that the settings name.
#[derive(Debug)]
pub struct DeviceCollector {
    config: Config,
    traffic: Trafic,
}

impl DeviceCollector {
    pub closed spec fn wf(&self) -> bool {
        self.traffic.wf()
    }

    /// The settings of the collector.
    pub closed spec fn spec_config(&self) -> Config {
        self.config
    }

    /// The history that the collector holds.
    pub closed spec fn flow(&self) -> Flow {
        self.traffic@
    }

    /// A collector whose history starts now.
    pub fn new(config: Config) -> (collector: DeviceCollector)
        requires
            config.retain_data >= BUCKET_MILLIS,
            config.retain_data / BUCKET_MILLIS <= usize::MAX,
        ensures
            collector.wf(),
            collector.spec_config() == config,
            exists|start: Timestamp|
                start.millis >= 0 && collector.flow() == #[trigger] Flow::starting_at(
                    start,
                    config.retain_data,
                ),
    {
        DeviceCollector { traffic: Trafic::new(config.retain_data), config }
    }

    pub fn config(&self) -> (config: &Config)
        ensures
            *config == self.spec_config(),
    {
        &self.config
    }

    pub fn traffic(&self) -> (traffic: &Trafic)
        requires
            self.wf(),
        ensures
            traffic.wf(),
            traffic@ == self.flow(),
    {
        &self.traffic
    }

    /// Scans the content `input` of the file of counters at the current
    /// time.
    pub fn process_device_file(&mut self, input: &[u8])
        requires
            old(self).wf(),
        ensures
            final(self).wf(),
            final(self).spec_config() == old(self).spec_config(),
            exists|now: Timestamp|
                now.millis >= 0 && final(self).flow() == #[trigger] scanned(
                    old(self).flow(),
                    now,
                    encode_utf8(old(self).spec_config().wan_interface@),
                    spec_stats(input@, 0, HEADINGS as nat),
                ),
    {
        let interface = self.config.wan_interface.as_str().as_bytes();
        SeriesCollector::process(&mut self.traffic, interface, input);
        proof {
            let now = choose|now: Timestamp|
                now.millis >= 0 && self.traffic@ == #[trigger] scanned(
                    old(self).traffic@,
                    now,
                    interface@,
                    spec_stats(input@, 0, HEADINGS as nat),
                );
            assert(self.flow() == scanned(
                old(self).flow(),
                now,
                encode_utf8(old(self).spec_config().wan_interface@),
                spec_stats(input@, 0, HEADINGS as nat),
            ));
        }
    }

    /// Handles a tick of the timer, for which the file was read: `input`
    /// is its content, or nothing where it could not be read. A file that
    /// was read is scanned; without one the history stays as it is.
    /// Returns after how many milliseconds the next tick is due.
    pub fn handle(&mut self, input: Option<&[u8]>) -> (delay: u64)
        requires
            old(self).wf(),
        ensures
            final(self).wf(),
            final(self).spec_config() == old(self).spec_config(),
            delay == TICK_MILLIS,
            input.is_none() ==> final(self).flow() == old(self).flow(),
            input matches Some(text) ==> exists|now: Timestamp|
                now.millis >= 0 && final(self).flow() == #[trigger] scanned(
                    old(self).flow(),
                    now,
                    encode_utf8(old(self).spec_config().wan_interface@),
                    spec_stats(text@, 0, HEADINGS as nat),
                ),
    {
        match input {
            Some(text) => self.process_device_file(text),
            None => {},
        }
        TICK_MILLIS
    }
}

/// The entries that a scan at time `now` appends to the plain lists of the
/// interface `interface`: for each of its counters one entry of what was
/// received, or of what was sent.
pub open spec fn listed(now: Timestamp, interface: Seq<u8>, all: Seq<Stats>, received: bool) -> Seq<
    TimeseriesEntry,
>
    decreases all.len(),
{
    if all.len() == 0 {
        Seq::empty()
    } else if all.last().interface == interface {
        listed(now, interface, all.drop_last(), received).push(
            if received {
                TimeseriesEntry {
                    timestamp: now,
                    bytes: all.last().receive_bytes,
                    packets: all.last().receive_packets,
                }
            } else {
                TimeseriesEntry {
                    timestamp: now,
                    bytes: all.last().transmit_bytes,
                    packets: all.last().transmit_packets,
                }
            },
        )
    } else {
        listed(now, interface, all.drop_last(), received)
    }
}

/// Scans the per-interface counters `input` at time `now` into plain
/// lists: the counters of the interface `interface` are appended, and
/// then all entries leave that are more than `retain_data` milliseconds
/// old.
pub fn process_timeseries(
    timeseries: &mut Timeseries,
    interface: &[u8],
    retain_data: u64,
    now: Timestamp,
    input: &[u8],
)
    requires
        now.millis - retain_data >= i64::MIN,
    ensures
        final(timeseries).in_entries@ == kept(
            old(timeseries).in_entries@ + listed(
                now,
                interface@,
                spec_stats(input@, 0, HEADINGS as nat),
                true,
            ),
            Timestamp { millis: (now.millis - retain_data) as i64 },
        ),
        final(timeseries).out_entries@ == kept(
            old(timeseries).out_entries@ + listed(
                now,
                interface@,
                spec_stats(input@, 0, HEADINGS as nat),
                false,
            ),
            Timestamp { millis: (now.millis - retain_data) as i64 },
        ),
{
    let ghost all = spec_stats(input@, 0, HEADINGS as nat);
    let ghost mut taken: int = 0;
    let mut pos: usize = 0;
    let mut skip: usize = HEADINGS;
    while pos < input.len()
        invariant
            pos <= input@.len(),
            0 <= taken <= all.len(),
            all.skip(taken) == spec_stats(input@, pos as int, skip as nat),
            timeseries.in_entries@ == old(timeseries).in_entries@ + listed(
                now,
                interface@,
                all.take(taken),
                true,
            ),
            timeseries.out_entries@ == old(timeseries).out_entries@ + listed(
                now,
                interface@,
                all.take(taken),
                false,
            ),
        decreases input@.len() - pos,
    {
        let (end, next) = next_line(input, pos);
        let text = slice_subrange(input, pos, end);
        let left = if skip == 0 {
            0
        } else {
            skip - 1
        };
        let ghost rest = spec_stats(input@, next as int, left as nat);
        let found = if skip == 0 {
            parse_line(text)
        } else {
            None
        };
        match found {
            Some((stats, _)) => {
                proof {
                    assert(all.skip(taken).len() == all.len() - taken);
                    assert(all[taken] == all.skip(taken)[0]);
                    assert(all.take(taken + 1).drop_last() =~= all.take(taken));
                    assert((seq![stats@] + rest).skip(1) =~= rest);
                }
                if same_bytes(stats.interface, interface) {
                    timeseries.push_in(now, stats.receive_bytes, stats.receive_packets);
                    timeseries.push_out(now, stats.transmit_bytes, stats.transmit_packets);
                }
                proof {
                    taken = taken + 1;
                }
            },
            None => {},
        }
        skip = left;
        pos = next;
    }
    proof {
        assert(all.take(taken) =~= all);
    }
    let older_than = Timestamp { millis: ((now.millis as i128) - (retain_data as i128)) as i64 };
    timeseries.prune(older_than);
}

} // verus!
