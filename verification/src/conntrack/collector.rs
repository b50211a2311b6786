//! One scan of the connection-tracking text: every record is classified
//! against the local subnets and recorded in the table, and local hosts
//! that the scan did not come across are removed.

use crate::common::addr::IpAddress;
use crate::common::counter::{Flow, TrafficCounter, BUCKET_MILLIS};
use crate::common::subnet::{Prefix, Subnet};
use crate::common::text::next_line;
use crate::config::Config;
use crate::conntrack::model::{pushed, Flows, Local, Remote, Table};
use crate::conntrack::parse::{parse_line, spec_records, ConntrackEntry, Record};
use crate::time::{Timestamp, TICK_MILLIS};
use vstd::prelude::*;
use vstd::slice::slice_subrange;

verus! {

/// The side of a flow that a local host is on.
#[derive(Debug, Clone, Copy, PartialEq, Eq, Structural)]
pub enum Direction {
    /// The source is local: the flow leaves it.
    Outbound,
    /// The destination is local, the source is not: the flow reaches it.
    Inbound,
}

/// Whether one of the subnets holds `addr`.
pub open spec fn is_local(subnets: Seq<Prefix>, addr: IpAddress) -> bool {
    exists|i: int| 0 <= i < subnets.len() && (#[trigger] subnets[i]).contains(addr)
}

/// The direction of the flow from `src` to `dst`: outbound where the source
/// is local, inbound where only the destination is, none where neither is.
pub open spec fn spec_classify(subnets: Seq<Prefix>, src: IpAddress, dst: IpAddress) -> Option<
    Direction,
> {
    if is_local(subnets, src) {
        Some(Direction::Outbound)
    } else if is_local(subnets, dst) {
        Some(Direction::Inbound)
    } else {
        None
    }
}

/// The subnets' contents.
pub open spec fn prefixes(subnets: Seq<Subnet>) -> Seq<Prefix> {
    subnets.map_values(|subnet: Subnet| subnet@)
}

/// The local host that a record tells of, if it tells of one: both ends
/// are known, and one of them is local.
pub open spec fn observed(subnets: Seq<Prefix>, record: Record) -> Option<Local> {
    match (record.src, record.dst) {
        (Some(src), Some(dst)) => match spec_classify(subnets, src, dst) {
            Some(Direction::Outbound) => Some(src),
            Some(Direction::Inbound) => Some(dst),
            None => None,
        },
        _ => None,
    }
}

/// The flows after one record was taken in at time `now`: an outbound flow
/// counts for its source with the destination as the peer, an inbound flow
/// for its destination with the source as the peer.
pub open spec fn collected(
    flows: Flows,
    retain: u64,
    now: Timestamp,
    subnets: Seq<Prefix>,
    record: Record,
) -> Flows {
    let counter = TrafficCounter { bytes: record.bytes, packets: record.packets };
    match (record.src, record.dst) {
        (Some(src), Some(dst)) => match spec_classify(subnets, src, dst) {
            Some(Direction::Outbound) => pushed(flows, retain, now, src, dst, counter, false),
            Some(Direction::Inbound) => pushed(flows, retain, now, dst, src, counter, true),
            None => flows,
        },
        _ => flows,
    }
}

/// The flows after the records of `records` were taken in, in order.
pub open spec fn scanned(
    flows: Flows,
    retain: u64,
    now: Timestamp,
    subnets: Seq<Prefix>,
    records: Seq<Record>,
) -> Flows
    decreases records.len(),
{
    if records.len() == 0 {
        flows
    } else {
        collected(
            scanned(flows, retain, now, subnets, records.drop_last()),
            retain,
            now,
            subnets,
            records.last(),
        )
    }
}

/// The local hosts that the records of `records` tell of.
pub open spec fn seen(subnets: Seq<Prefix>, records: Seq<Record>) -> Set<Local> {
    Set::new(
        |local: Local|
            exists|i: int|
                0 <= i < records.len() && observed(subnets, #[trigger] records[i]) == Some(local),
    )
}

/// The flows after a scan of the text `text` at time `now`: all its
/// records taken in, and then every local host removed that none of them
/// tells of.
pub open spec fn spec_process(
    flows: Flows,
    retain: u64,
    now: Timestamp,
    subnets: Seq<Prefix>,
    text: Seq<u8>,
) -> Flows {
    let records = spec_records(text, 0);
    scanned(flows, retain, now, subnets, records).restrict(seen(subnets, records))
}

/// Whether one of `local_subnets` holds `addr`.
fn local(local_subnets: &[Subnet], addr: &IpAddress) -> (found: bool)
    ensures
        found == is_local(prefixes(local_subnets@), *addr),
{
    let mut i: usize = 0;
    while i < local_subnets.len()
        invariant
            i <= local_subnets@.len(),
            forall|k: int| 0 <= k < i ==> !(#[trigger] prefixes(local_subnets@)[k]).contains(*addr),
        decreases local_subnets@.len() - i,
    {
        if local_subnets[i].contains(addr) {
            assert(prefixes(local_subnets@)[i as int].contains(*addr));
            return true;
        }
        i += 1;
    }
    false
}

/// Classifies the flow from `src` to `dst`: the destination is only looked
/// at where no subnet holds the source.
pub fn classify(local_subnets: &[Subnet], src: &IpAddress, dst: &IpAddress) -> (direction: Option<
    Direction,
>)
    ensures
        direction == spec_classify(prefixes(local_subnets@), *src, *dst),
        direction == Some(Direction::Outbound) <==> is_local(prefixes(local_subnets@), *src),
        direction == Some(Direction::Inbound) ==> !is_local(prefixes(local_subnets@), *src),
{
    if local(local_subnets, src) {
        Some(Direction::Outbound)
    } else if local(local_subnets, dst) {
        Some(Direction::Inbound)
    } else {
        None
    }
}

/// What one scan keeps beside the table: its time, and the local hosts it
/// came across.
#[derive(Debug)]
pub struct TableCollector {
    now: Timestamp,
    locals: Vec<Local>,
}

impl TableCollector {
    /// Scans `input` at the current time: see [`TableCollector::process_at`].
    pub fn process(table: &mut Table, local_subnets: &[Subnet], input: &[u8])
        requires
            old(table).wf(),
        ensures
            final(table).wf(),
            final(table).retain() == old(table).retain(),
            exists|now: Timestamp|
                now.millis >= 0 && final(table)@ == #[trigger] spec_process(
                    old(table)@,
                    old(table).retain(),
                    now,
                    prefixes(local_subnets@),
                    input@,
                ),
            final(table)@.dom().subset_of(seen(prefixes(local_subnets@), spec_records(input@, 0))),
    {
        let now = Timestamp::now();
        TableCollector::process_at(table, local_subnets, now, input);
    }

    /// Scans the connection-tracking text `input` at time `now`: see
    /// [`spec_process`]. After it the table holds no local host that the
    /// scan did not come across.
    pub fn process_at(table: &mut Table, local_subnets: &[Subnet], now: Timestamp, input: &[u8])
        requires
            old(table).wf(),
            now.millis >= i64::MIN + BUCKET_MILLIS,
        ensures
            final(table).wf(),
            final(table).retain() == old(table).retain(),
            final(table)@ == spec_process(
                old(table)@,
                old(table).retain(),
                now,
                prefixes(local_subnets@),
                input@,
            ),
            final(table)@.dom().subset_of(seen(prefixes(local_subnets@), spec_records(input@, 0))),
    {
        let ghost subnets = prefixes(local_subnets@);
        let ghost all = spec_records(input@, 0);
        let ghost before = table@;
        let ghost retain = table.retain();
        let ghost mut taken: int = 0;
        let mut collector = TableCollector { now, locals: Vec::new() };
        let mut pos: usize = 0;
        while pos < input.len()
            invariant
                pos <= input@.len(),
                0 <= taken <= all.len(),
                table.wf(),
                table.retain() == retain,
                collector.now == now,
                now.millis >= i64::MIN + BUCKET_MILLIS,
                subnets == prefixes(local_subnets@),
                all.skip(taken) == spec_records(input@, pos as int),
                table@ == scanned(before, retain, now, subnets, all.take(taken)),
                collector.locals@.to_set() == seen(subnets, all.take(taken)),
            decreases input@.len() - pos,
        {
            let (end, next) = next_line(input, pos);
            let text = slice_subrange(input, pos, end);
            let ghost rest = spec_records(input@, next as int);
            match parse_line(text) {
                Some((entries, _)) => {
                    let ghost records = entries@.map_values(|e: ConntrackEntry| e@);
                    let mut i: usize = 0;
                    while i < entries.len()
                        invariant
                            i <= entries@.len(),
                            0 <= taken <= all.len(),
                            table.wf(),
                            table.retain() == retain,
                            collector.now == now,
                            now.millis >= i64::MIN + BUCKET_MILLIS,
                            subnets == prefixes(local_subnets@),
                            records == entries@.map_values(|e: ConntrackEntry| e@),
                            all.skip(taken) == records.skip(i as int) + rest,
                            table@ == scanned(before, retain, now, subnets, all.take(taken)),
                            collector.locals@.to_set() == seen(subnets, all.take(taken)),
                        decreases entries@.len() - i,
                    {
                        let entry = entries.get(i).unwrap();
                        proof {
                            assert(all.skip(taken).len() == all.len() - taken);
                            assert(all[taken] == all.skip(taken)[0]);
                            assert(all.take(taken + 1).drop_last() =~= all.take(taken));
                            assert((records.skip(i as int) + rest).skip(1) =~= records.skip(i + 1)
                                + rest);
                            lemma_seen_grows(subnets, all.take(taken + 1));
                        }
                        let ghost noted = collector.locals@;
                        collector.collect(table, local_subnets, &entry);
                        proof {
                            taken = taken + 1;
                            match observed(subnets, entry@) {
                                Some(local) => {
                                    noted.lemma_push_to_set_commute(local);
                                },
                                None => {},
                            }
                        }
                        i += 1;
                    }
                },
                None => {},
            }
            pos = next;
        }
        proof {
            assert(all.take(taken) =~= all);
        }
        collector.cleanup(table);
    }

    /// Takes one entry in: classifies it, records its counter in the table
    /// and notes its local host.
    fn collect(&mut self, table: &mut Table, local_subnets: &[Subnet], entry: &ConntrackEntry)
        requires
            old(table).wf(),
            old(self).now.millis >= i64::MIN + BUCKET_MILLIS,
        ensures
            final(table).wf(),
            final(table).retain() == old(table).retain(),
            final(self).now == old(self).now,
            final(table)@ == collected(
                old(table)@,
                old(table).retain(),
                old(self).now,
                prefixes(local_subnets@),
                entry@,
            ),
            final(self).locals@ == match observed(prefixes(local_subnets@), entry@) {
                Some(local) => old(self).locals@.push(local),
                None => old(self).locals@,
            },
    {
        let (src, dst) = match (entry.src, entry.dst) {
            (Some(src), Some(dst)) => (src, dst),
            _ => {
                return ;
            },
        };
        match classify(local_subnets, &src, &dst) {
            Some(Direction::Outbound) => {
                table.push_out(self.now, src, dst, entry.bytes, entry.packets);
                self.locals.push(src);
            },
            Some(Direction::Inbound) => {
                table.push_in(self.now, dst, src, entry.bytes, entry.packets);
                self.locals.push(dst);
            },
            None => {},
        }
    }

    /// Removes from the table the local hosts that the scan did not come
    /// across.
    fn cleanup(self, table: &mut Table)
        requires
            old(table).wf(),
        ensures
            final(table).wf(),
            final(table).retain() == old(table).retain(),
            final(table)@ == old(table)@.restrict(self.locals@.to_set()),
    {
        table.prune(&self.locals);
    }
}

/// One more record adds the local host it tells of, if any, to those seen.
pub proof fn lemma_seen_grows(subnets: Seq<Prefix>, records: Seq<Record>)
    requires
        records.len() > 0,
    ensures
        seen(subnets, records) == match observed(subnets, records.last()) {
            Some(local) => seen(subnets, records.drop_last()).insert(local),
            None => seen(subnets, records.drop_last()),
        },
{
    let shorter = records.drop_last();
    let grown = match observed(subnets, records.last()) {
        Some(local) => seen(subnets, shorter).insert(local),
        None => seen(subnets, shorter),
    };
    assert forall|local: Local| seen(subnets, records).contains(local) <==> grown.contains(
        local,
    ) by {
        if seen(subnets, records).contains(local) {
            let i = choose|i: int|
                0 <= i < records.len() && observed(subnets, #[trigger] records[i]) == Some(local);
            if i < records.len() - 1 {
                assert(shorter[i] == records[i]);
            }
        }
        if seen(subnets, shorter).contains(local) {
            let i = choose|i: int|
                0 <= i < shorter.len() && observed(subnets, #[trigger] shorter[i]) == Some(local);
        }
    }
}

/// Keeps the table of connections up to date from the connection-tracking
/// file that the settings name.
#[derive(Debug)]
pub struct ConntrackCollector {
    config: Config,
    table: Table,
}

impl ConntrackCollector {
    pub closed spec fn wf(&self) -> bool {
        self.table.wf() && self.table.retain() == self.config.retain_data
    }

    /// The settings of the collector.
    pub closed spec fn spec_config(&self) -> Config {
        self.config
    }

    /// The flows that the collector holds.
    pub closed spec fn flows(&self) -> Flows {
        self.table@
    }

    /// A collector with an empty table.
    pub fn new(config: Config) -> (collector: ConntrackCollector)
        requires
            config.retain_data >= BUCKET_MILLIS,
            config.retain_data / BUCKET_MILLIS <= usize::MAX,
        ensures
            collector.wf(),
            collector.spec_config() == config,
            collector.flows() == Map::<Local, Map<Remote, Flow>>::empty(),
    {
        ConntrackCollector { table: Table::new(config.retain_data), config }
    }

    pub fn config(&self) -> (config: &Config)
        ensures
            *config == self.spec_config(),
    {
        &self.config
    }

    pub fn table(&self) -> (table: &Table)
        requires
            self.wf(),
        ensures
            table.wf(),
            table@ == self.flows(),
    {
        &self.table
    }

    /// Scans the content `input` of the connection-tracking file at the
    /// current time.
    pub fn process_conntrack(&mut self, input: &[u8])
        requires
            old(self).wf(),
        ensures
            final(self).wf(),
            final(self).spec_config() == old(self).spec_config(),
            exists|now: Timestamp|
                now.millis >= 0 && final(self).flows() == #[trigger] spec_process(
                    old(self).flows(),
                    old(self).spec_config().retain_data,
                    now,
                    prefixes(old(self).spec_config().local_subnets@),
                    input@,
                ),
    {
        TableCollector::process(&mut self.table, self.config.local_subnets.as_slice(), input);
        proof {
            let subnets = prefixes(self.config.local_subnets@);
            let now = choose|now: Timestamp|
                now.millis >= 0 && self.table@ == #[trigger] spec_process(
                    old(self).table@,
                    old(self).table.retain(),
                    now,
                    subnets,
                    input@,
                );
            assert(self.flows() == spec_process(
                old(self).flows(),
                old(self).spec_config().retain_data,
                now,
                prefixes(old(self).spec_config().local_subnets@),
                input@,
            ));
        }
    }

    /// Handles a tick of the timer, for which the file was read: `input`
    /// is its content, or nothing where it could not be read. A file that
    /// was read is scanned; without one the table stays as it is. Returns
    /// after how many milliseconds the next tick is due, which is the same
    /// either way.
    pub fn handle(&mut self, input: Option<&[u8]>) -> (delay: u64)
        requires
            old(self).wf(),
        ensures
            final(self).wf(),
            final(self).spec_config() == old(self).spec_config(),
            delay == TICK_MILLIS,
            input.is_none() ==> final(self).flows() == old(self).flows(),
            input matches Some(text) ==> exists|now: Timestamp|
                now.millis >= 0 && final(self).flows() == #[trigger] spec_process(
                    old(self).flows(),
                    old(self).spec_config().retain_data,
                    now,
                    prefixes(old(self).spec_config().local_subnets@),
                    text@,
                ),
    {
        match input {
            Some(text) => self.process_conntrack(text),
            None => {},
        }
        TICK_MILLIS
    }
}

/// Taking a record in touches the flows of the one local host that the
/// record tells of, and of no other; a record that tells of none changes
/// nothing. The source is that host wherever it is local: the destination
/// is only that host where the source is not local.
pub proof fn lemma_collected_one_side(
    flows: Flows,
    retain: u64,
    now: Timestamp,
    subnets: Seq<Prefix>,
    record: Record,
)
    ensures
        observed(subnets, record).is_none() ==> collected(flows, retain, now, subnets, record)
            == flows,
        observed(subnets, record) matches Some(local) ==> collected(
            flows,
            retain,
            now,
            subnets,
            record,
        ).dom() == flows.dom().insert(local) && forall|other: Local|
            other != local && flows.contains_key(other) ==> #[trigger] collected(
                flows,
                retain,
                now,
                subnets,
                record,
            )[other] == flows[other],
        record.src matches Some(src) ==> (is_local(subnets, src) && record.dst.is_some()
            <==> observed(subnets, record) == Some(src) && spec_classify(
            subnets,
            src,
            record.dst.unwrap(),
        ) == Some(Direction::Outbound)),
        (record.src matches Some(src) && record.dst matches Some(dst) && spec_classify(
            subnets,
            src,
            dst,
        ) == Some(Direction::Inbound)) ==> !is_local(subnets, record.src.unwrap()),
{
}

} // verus!
