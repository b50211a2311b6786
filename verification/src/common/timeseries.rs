//! Plain lists of timestamped counters for one endpoint, pruned by age.

use crate::time::Timestamp;
use vstd::prelude::*;

verus! {

#[derive(Debug)]
pub struct TimeseriesEntry {
    pub timestamp: Timestamp,
    pub bytes: u64,
    pub packets: u64,
}

#[derive(Debug)]
pub struct Timeseries {
    pub in_entries: Vec<TimeseriesEntry>,
    pub out_entries: Vec<TimeseriesEntry>,
}

/// The entries of `entries` that are not older than `older_than`, in their
/// order.
pub open spec fn kept(entries: Seq<TimeseriesEntry>, older_than: Timestamp) -> Seq<
    TimeseriesEntry,
> {
    entries.filter(|entry: TimeseriesEntry| entry.timestamp.millis >= older_than.millis)
}

/// Removes from `entries` what is older than `older_than`.
fn prune_entries(entries: &mut Vec<TimeseriesEntry>, older_than: Timestamp)
    ensures
        final(entries)@ == kept(old(entries)@, older_than),
{
    let ghost all = entries@;
    let ghost young = |entry: TimeseriesEntry| entry.timestamp.millis >= older_than.millis;
    let ghost mut seen: int = 0;
    let mut i: usize = 0;
    proof {
        reveal(Seq::filter);
    }
    while i != entries.len()
        invariant
            0 <= seen <= all.len(),
            i <= entries@.len(),
            young == |entry: TimeseriesEntry| entry.timestamp.millis >= older_than.millis,
            entries@.take(i as int) == all.take(seen).filter(young),
            entries@.skip(i as int) == all.skip(seen),
            entries@.len() - i == all.len() - seen,
        decreases entries@.len() - i,
    {
        proof {
            reveal(Seq::filter);
            assert(all[seen] == all.skip(seen)[0]);
            assert(all.take(seen + 1).drop_last() =~= all.take(seen));
        }
        if entries[i].timestamp.millis < older_than.millis {
            entries.remove(i);
            proof {
                assert(all.skip(seen).skip(1) =~= all.skip(seen + 1));
                seen = seen + 1;
            }
        } else {
            proof {
                assert(all.skip(seen).skip(1) =~= all.skip(seen + 1));
                seen = seen + 1;
            }
            i += 1;
        }
    }
    proof {
        assert(all.take(seen) =~= all);
    }
}

impl Timeseries {
    /// Appends an inbound counter.
    pub fn push_in(&mut self, timestamp: Timestamp, bytes: u64, packets: u64)
        ensures
            final(self).in_entries@ == old(self).in_entries@.push(
                TimeseriesEntry { timestamp, bytes, packets },
            ),
            final(self).out_entries@ == old(self).out_entries@,
    {
        self.in_entries.push(TimeseriesEntry { timestamp, bytes, packets })
    }

    /// Appends an outbound counter.
    pub fn push_out(&mut self, timestamp: Timestamp, bytes: u64, packets: u64)
        ensures
            final(self).out_entries@ == old(self).out_entries@.push(
                TimeseriesEntry { timestamp, bytes, packets },
            ),
            final(self).in_entries@ == old(self).in_entries@,
    {
        self.out_entries.push(TimeseriesEntry { timestamp, bytes, packets })
    }

    /// Removes the counters that are older than `older_than`; the others
    /// keep their order.
    pub fn prune(&mut self, older_than: Timestamp)
        ensures
            final(self).in_entries@ == kept(old(self).in_entries@, older_than),
            final(self).out_entries@ == kept(old(self).out_entries@, older_than),
    {
        prune_entries(&mut self.in_entries, older_than);
        prune_entries(&mut self.out_entries, older_than);
    }
}

impl Default for Timeseries {
    fn default() -> (empty: Self)
        ensures
            empty.in_entries@ == Seq::<TimeseriesEntry>::empty(),
            empty.out_entries@ == Seq::<TimeseriesEntry>::empty(),
    {
        Timeseries { in_entries: Vec::new(), out_entries: Vec::new() }
    }
}

} // verus!
