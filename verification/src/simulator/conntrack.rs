//! Simulated connections: each between a local host and a remote peer,
//! with inbound and outbound counters that grow. Connections come and go;
//! the counters of those that went are kept in an offset, so that the
//! totals never fall.

use crate::common::addr::IpAddress;
use crate::common::subnet::Prefix;
use crate::common::text::{append, append_str, spell, spelled, Radix};
use crate::simulator::helpers::{next_u32, random_hostname, random_ip, random_ipv4, random_ipv6};
use crate::simulator::traffic::{Rate, Traffic};
use core::ops::AddAssign;
use vstd::prelude::*;
use vstd::string::StringSliceAdditionalSpecFns;

verus! {

#[derive(Debug)]
pub struct ConntrackTarget {
    pub target_ip_addr: IpAddress,
    pub source_ip_addr: IpAddress,
    pub source_hostname: Vec<u8>,
    pub in_traffic: Traffic,
    pub in_rate: Rate,
    pub out_traffic: Traffic,
    pub out_rate: Rate,
}

/// Scale of the inbound rates, in bytes per second.
pub const IN_SCALE: u64 = 10_000_000;

/// Scale of the outbound rates, in bytes per second.
pub const OUT_SCALE: u64 = 1_000_000;

impl ConntrackTarget {
    /// A new connection without traffic, between a random local host and
    /// a random peer of the same address family.
    pub fn random() -> (target: ConntrackTarget)
        ensures
            target.in_traffic == (Traffic { bytes: 0, packets: 0 }),
            target.out_traffic == (Traffic { bytes: 0, packets: 0 }),
            target.target_ip_addr is V4 <==> target.source_ip_addr is V4,
            Prefix::V4(seq![192u8, 168u8, 1u8]).contains(target.source_ip_addr) || Prefix::V6(
                seq![0x1234u16],
            ).contains(target.source_ip_addr),
            Prefix::V4(seq![123u8]).contains(target.target_ip_addr) || Prefix::V6(
                seq![0x2345u16],
            ).contains(target.target_ip_addr),
            exists|draw: u64| target.in_rate == #[trigger] Rate::spec_from_draw(draw, IN_SCALE),
            exists|draw: u64| target.out_rate == #[trigger] Rate::spec_from_draw(draw, OUT_SCALE),
    {
        let v4_peers: [u8; 1] = [123];
        let v6_peers: [u16; 1] = [0x2345];
        let v4_locals: [u8; 3] = [192, 168, 1];
        let v6_locals: [u16; 1] = [0x1234];
        let target_ip_addr = random_ip(v4_peers.as_slice(), v6_peers.as_slice());
        let source_ip_addr = match target_ip_addr {
            IpAddress::V4(_) => IpAddress::V4(random_ipv4(v4_locals.as_slice())),
            IpAddress::V6(_) => IpAddress::V6(random_ipv6(v6_locals.as_slice())),
        };
        ConntrackTarget {
            target_ip_addr,
            source_ip_addr,
            source_hostname: random_hostname(),
            in_traffic: Traffic { bytes: 0, packets: 0 },
            in_rate: Rate::random(IN_SCALE),
            out_traffic: Traffic { bytes: 0, packets: 0 },
            out_rate: Rate::random(OUT_SCALE),
        }
    }
}

/// The bytes of all of `items` together.
pub open spec fn sum_bytes(items: Seq<Traffic>) -> int
    decreases items.len(),
{
    if items.len() == 0 {
        0
    } else {
        sum_bytes(items.drop_last()) + items.last().bytes
    }
}

/// The packets of all of `items` together.
pub open spec fn sum_packets(items: Seq<Traffic>) -> int
    decreases items.len(),
{
    if items.len() == 0 {
        0
    } else {
        sum_packets(items.drop_last()) + items.last().packets
    }
}

/// The inbound counters of `targets`.
pub open spec fn inbound(targets: Seq<ConntrackTarget>) -> Seq<Traffic> {
    targets.map_values(|target: ConntrackTarget| target.in_traffic)
}

/// The outbound counters of `targets`.
pub open spec fn outbound(targets: Seq<ConntrackTarget>) -> Seq<Traffic> {
    targets.map_values(|target: ConntrackTarget| target.out_traffic)
}

/// Sums are never negative, and the sum of a beginning is at most the sum
/// of the whole.
pub proof fn lemma_sum_grows(items: Seq<Traffic>, shorter: int)
    requires
        0 <= shorter <= items.len(),
    ensures
        0 <= sum_bytes(items.take(shorter)) <= sum_bytes(items),
        0 <= sum_packets(items.take(shorter)) <= sum_packets(items),
    decreases items.len(),
{
    if items.len() > 0 {
        if shorter == items.len() {
            assert(items.take(shorter) =~= items);
            lemma_sum_grows(items.drop_last(), shorter - 1);
        } else {
            lemma_sum_grows(items.drop_last(), shorter);
            assert(items.drop_last().take(shorter) =~= items.take(shorter));
        }
    }
}

/// Without one of its items a sum is less by that item.
pub proof fn lemma_sum_remove(items: Seq<Traffic>, at: int)
    requires
        0 <= at < items.len(),
    ensures
        sum_bytes(items.remove(at)) == sum_bytes(items) - items[at].bytes,
        sum_packets(items.remove(at)) == sum_packets(items) - items[at].packets,
    decreases items.len(),
{
    if at < items.len() - 1 {
        lemma_sum_remove(items.drop_last(), at);
        assert(items.remove(at).drop_last() =~= items.drop_last().remove(at));
    }
}

/// With one item changed a sum changes by the difference.
pub proof fn lemma_sum_update(items: Seq<Traffic>, at: int, item: Traffic)
    requires
        0 <= at < items.len(),
    ensures
        sum_bytes(items.update(at, item)) == sum_bytes(items) - items[at].bytes + item.bytes,
        sum_packets(items.update(at, item)) == sum_packets(items) - items[at].packets
            + item.packets,
    decreases items.len(),
{
    if at == items.len() - 1 {
        assert(items.update(at, item).drop_last() =~= items.drop_last());
    } else {
        lemma_sum_update(items.drop_last(), at, item);
        assert(items.update(at, item).drop_last() =~= items.drop_last().update(at, item));
    }
}

#[derive(Debug)]
pub struct ConntrackSimulator<'a> {
    file: &'a str,
    targets: Vec<ConntrackTarget>,
    in_offset: Traffic,
    out_offset: Traffic,
}

/// Of a hundred ticks, so many add a connection, and so many remove one.
pub const CHURN_PERCENT: u32 = 2;

/// The number of connections that the simulation keeps up.
pub const STEADY_TARGETS: usize = 3;

impl<'a> ConntrackSimulator<'a> {
    /// The connections of the simulation.
    pub closed spec fn spec_targets(&self) -> Seq<ConntrackTarget> {
        self.targets@
    }

    /// All that came in so far, in bytes and packets: what the connections
    /// count, and what those counted that are gone.
    pub closed spec fn spec_total_in(&self) -> (int, int) {
        (
            sum_bytes(inbound(self.targets@)) + self.in_offset.bytes,
            sum_packets(inbound(self.targets@)) + self.in_offset.packets,
        )
    }

    /// All that went out so far, in bytes and packets.
    pub closed spec fn spec_total_out(&self) -> (int, int) {
        (
            sum_bytes(outbound(self.targets@)) + self.out_offset.bytes,
            sum_packets(outbound(self.targets@)) + self.out_offset.packets,
        )
    }

    /// The totals fit the counters.
    pub open spec fn wf(&self) -> bool {
        &&& self.spec_total_in().0 <= u64::MAX
        &&& self.spec_total_in().1 <= u64::MAX
        &&& self.spec_total_out().0 <= u64::MAX
        &&& self.spec_total_out().1 <= u64::MAX
    }

    /// The file that the simulation writes to.
    pub closed spec fn spec_file(&self) -> &'a str {
        self.file
    }

    /// A simulation without connections that writes to `file`.
    pub fn new(file: &'a str) -> (simulator: ConntrackSimulator<'a>)
        ensures
            simulator.wf(),
            simulator.spec_file() == file,
            simulator.spec_targets() == Seq::<ConntrackTarget>::empty(),
            simulator.spec_total_in() == (0int, 0int),
            simulator.spec_total_out() == (0int, 0int),
    {
        let simulator = ConntrackSimulator {
            file,
            targets: Vec::new(),
            in_offset: Traffic { bytes: 0, packets: 0 },
            out_offset: Traffic { bytes: 0, packets: 0 },
        };
        simulator
    }

    pub fn file(&self) -> (file: &'a str)
        ensures
            file == self.spec_file(),
    {
        self.file
    }

    pub fn targets(&self) -> (targets: &Vec<ConntrackTarget>)
        ensures
            targets@ == self.spec_targets(),
    {
        &self.targets
    }

    /// Whether a tick with the draw `draw` adds a connection while there
    /// are `held` of them: two ticks of a hundred do, and every tick while
    /// there are fewer than three.
    pub open spec fn spec_grows(draw: u32, held: nat) -> bool {
        draw % 100 < CHURN_PERCENT || held < STEADY_TARGETS
    }

    /// Whether a tick with the draw `draw` removes a connection while there
    /// are `held` of them: two ticks of a hundred do, where there are more
    /// than three.
    pub open spec fn spec_shrinks(draw: u32, held: nat) -> bool {
        draw % 100 < CHURN_PERCENT && held > STEADY_TARGETS
    }

    pub fn grows(draw: u32, held: usize) -> (grows: bool)
        ensures
            grows == Self::spec_grows(draw, held as nat),
    {
        draw % 100 < CHURN_PERCENT || held < STEADY_TARGETS
    }

    pub fn shrinks(draw: u32, held: usize) -> (shrinks: bool)
        ensures
            shrinks == Self::spec_shrinks(draw, held as nat),
    {
        draw % 100 < CHURN_PERCENT && held > STEADY_TARGETS
    }

    /// Adds the connection `target`, which has no traffic yet.
    pub fn open(&mut self, target: ConntrackTarget)
        requires
            old(self).wf(),
            target.in_traffic == (Traffic { bytes: 0, packets: 0 }),
            target.out_traffic == (Traffic { bytes: 0, packets: 0 }),
        ensures
            final(self).wf(),
            final(self).spec_file() == old(self).spec_file(),
            final(self).spec_targets() == old(self).spec_targets().push(target),
            final(self).spec_total_in() == old(self).spec_total_in(),
            final(self).spec_total_out() == old(self).spec_total_out(),
    {
        self.targets.push(target);
        proof {
            assert(inbound(self.targets@).drop_last() =~= inbound(old(self).targets@));
            assert(outbound(self.targets@).drop_last() =~= outbound(old(self).targets@));
        }
    }

    /// Removes the connection that the draw `draw` picks; what it counted
    /// goes to the offsets, so that the totals stay.
    pub fn close(&mut self, draw: u32)
        requires
            old(self).wf(),
            old(self).spec_targets().len() > 0,
        ensures
            final(self).wf(),
            final(self).spec_file() == old(self).spec_file(),
            final(self).spec_targets() == old(self).spec_targets().remove(
                (draw as usize % old(self).spec_targets().len() as usize) as int,
            ),
            final(self).spec_total_in() == old(self).spec_total_in(),
            final(self).spec_total_out() == old(self).spec_total_out(),
    {
        let at = draw as usize % self.targets.len();
        proof {
            lemma_sum_remove(inbound(self.targets@), at as int);
            lemma_sum_remove(outbound(self.targets@), at as int);
            lemma_sum_grows(inbound(self.targets@).remove(at as int), 0);
            lemma_sum_grows(outbound(self.targets@).remove(at as int), 0);
            assert(inbound(self.targets@).remove(at as int) =~= inbound(
                self.targets@.remove(at as int),
            ));
            assert(outbound(self.targets@).remove(at as int) =~= outbound(
                self.targets@.remove(at as int),
            ));
        }
        let removed = self.targets.remove(at);
        self.in_offset.add_assign(removed.in_traffic);
        self.out_offset.add_assign(removed.out_traffic);
    }

    /// One tick of coming and going: at random a connection is added, and
    /// at random one is removed. The totals stay as they are.
    pub fn tick(&mut self)
        requires
            old(self).wf(),
        ensures
            final(self).wf(),
            final(self).spec_file() == old(self).spec_file(),
            final(self).spec_total_in() == old(self).spec_total_in(),
            final(self).spec_total_out() == old(self).spec_total_out(),
            old(self).spec_targets().len() - 1 <= final(self).spec_targets().len() <= old(
                self,
            ).spec_targets().len() + 1,
            old(self).spec_targets().len() < STEADY_TARGETS ==> final(self).spec_targets().len()
                == old(self).spec_targets().len() + 1,
    {
        if Self::grows(next_u32(), self.targets.len()) {
            self.open(ConntrackTarget::random());
        }
        if Self::shrinks(next_u32(), self.targets.len()) {
            self.close(next_u32());
        }
    }

    /// Lets the counters of the connection at `at` grow by `incoming` and
    /// `outgoing`.
    pub fn advance(&mut self, at: usize, incoming: Traffic, outgoing: Traffic)
        requires
            old(self).wf(),
            at < old(self).spec_targets().len(),
            old(self).spec_total_in().0 + incoming.bytes <= u64::MAX,
            old(self).spec_total_in().1 + incoming.packets <= u64::MAX,
            old(self).spec_total_out().0 + outgoing.bytes <= u64::MAX,
            old(self).spec_total_out().1 + outgoing.packets <= u64::MAX,
        ensures
            final(self).wf(),
            final(self).spec_file() == old(self).spec_file(),
            final(self).spec_targets().len() == old(self).spec_targets().len(),
            final(self).spec_total_in() == (
                old(self).spec_total_in().0 + incoming.bytes,
                old(self).spec_total_in().1 + incoming.packets,
            ),
            final(self).spec_total_out() == (
                old(self).spec_total_out().0 + outgoing.bytes,
                old(self).spec_total_out().1 + outgoing.packets,
            ),
    {
        let ghost before = self.targets@;
        proof {
            lemma_sum_remove(inbound(before), at as int);
            lemma_sum_remove(outbound(before), at as int);
            lemma_sum_grows(inbound(before).remove(at as int), 0);
            lemma_sum_grows(outbound(before).remove(at as int), 0);
        }
        let mut target = self.targets.remove(at);
        target.in_traffic.add_assign(incoming);
        target.out_traffic.add_assign(outgoing);
        proof {
            lemma_sum_update(inbound(before), at as int, target.in_traffic);
            lemma_sum_update(outbound(before), at as int, target.out_traffic);
            assert(inbound(before.remove(at as int).insert(at as int, target)) =~= inbound(
                before,
            ).update(at as int, target.in_traffic));
            assert(outbound(before.remove(at as int).insert(at as int, target)) =~= outbound(
                before,
            ).update(at as int, target.out_traffic));
        }
        self.targets.insert(at, target);
    }

    /// The counters of one direction of all connections together.
    fn sum(&self, incoming: bool) -> (total: Traffic)
        requires
            self.wf(),
        ensures
            incoming ==> total.bytes == sum_bytes(inbound(self.targets@)) && total.packets
                == sum_packets(inbound(self.targets@)),
            !incoming ==> total.bytes == sum_bytes(outbound(self.targets@)) && total.packets
                == sum_packets(outbound(self.targets@)),
    {
        let ghost items = if incoming {
            inbound(self.targets@)
        } else {
            outbound(self.targets@)
        };
        let mut traffic = Traffic { bytes: 0, packets: 0 };
        let mut i: usize = 0;
        proof {
            lemma_sum_grows(inbound(self.targets@), 0);
            lemma_sum_grows(outbound(self.targets@), 0);
        }
        while i < self.targets.len()
            invariant
                i <= self.targets@.len(),
                items == if incoming {
                    inbound(self.targets@)
                } else {
                    outbound(self.targets@)
                },
                traffic.bytes == sum_bytes(items.take(i as int)),
                traffic.packets == sum_packets(items.take(i as int)),
                sum_bytes(items) <= u64::MAX,
                sum_packets(items) <= u64::MAX,
            decreases self.targets@.len() - i,
        {
            proof {
                lemma_sum_grows(items, i + 1);
                assert(items.take(i + 1).drop_last() =~= items.take(i as int));
            }
            let more = if incoming {
                self.targets[i].in_traffic
            } else {
                self.targets[i].out_traffic
            };
            traffic.add_assign(more);
            i += 1;
        }
        proof {
            assert(items.take(i as int) =~= items);
        }
        traffic
    }

    /// All that came in so far.
    pub fn total_in_traffic(&self) -> (total: Traffic)
        requires
            self.wf(),
        ensures
            (total.bytes as int, total.packets as int) == self.spec_total_in(),
    {
        let mut traffic = self.sum(true);
        traffic.add_assign(self.in_offset);
        traffic
    }

    /// All that went out so far.
    pub fn total_out_traffic(&self) -> (total: Traffic)
        requires
            self.wf(),
        ensures
            (total.bytes as int, total.packets as int) == self.spec_total_out(),
    {
        let mut traffic = self.sum(false);
        traffic.add_assign(self.out_offset);
        traffic
    }
}

/// The line of text of one connection: both its directions, with the
/// inbound counters in the first and the outbound counters in the second.
pub open spec fn spec_render_target(target: ConntrackTarget) -> Seq<u8> {
    Seq::<u8>::empty() + (if target.source_ip_addr is V4 {
        "ipv4".spec_bytes()
    } else {
        "ipv6".spec_bytes()
    }) + "     2 tcp      6 431741 ESTABLISHED src=".spec_bytes() + target.source_ip_addr.text()
        + " dst=".spec_bytes() + target.target_ip_addr.text()
        + " sport=50054 dport=443 packets=".spec_bytes() + spelled(
        target.in_traffic.packets as nat,
        10,
    ) + " bytes=".spec_bytes() + spelled(target.in_traffic.bytes as nat, 10) + " src=".spec_bytes()
        + target.target_ip_addr.text() + " dst=".spec_bytes() + target.source_ip_addr.text()
        + " sport=443 dport=50054 packets=".spec_bytes() + spelled(
        target.out_traffic.packets as nat,
        10,
    ) + " bytes=".spec_bytes() + spelled(target.out_traffic.bytes as nat, 10)
        + " [ASSURED] mark=0 zone=0 use=2\n".spec_bytes()
}

/// The text of all connections, a line for each.
pub open spec fn spec_render(targets: Seq<ConntrackTarget>) -> Seq<u8>
    decreases targets.len(),
{
    if targets.len() == 0 {
        Seq::empty()
    } else {
        spec_render(targets.drop_last()) + spec_render_target(targets.last())
    }
}

/// Appends the line of one connection to `out`.
fn render_target(out: &mut Vec<u8>, target: &ConntrackTarget)
    ensures
        final(out)@ == old(out)@ + spec_render_target(*target),
{
    let mut line: Vec<u8> = Vec::new();
    match target.source_ip_addr {
        IpAddress::V4(_) => append_str(&mut line, "ipv4"),
        IpAddress::V6(_) => append_str(&mut line, "ipv6"),
    }
    append_str(&mut line, "     2 tcp      6 431741 ESTABLISHED src=");
    target.source_ip_addr.write_to(&mut line);
    append_str(&mut line, " dst=");
    target.target_ip_addr.write_to(&mut line);
    append_str(&mut line, " sport=50054 dport=443 packets=");
    spell(&mut line, target.in_traffic.packets, Radix::Decimal);
    append_str(&mut line, " bytes=");
    spell(&mut line, target.in_traffic.bytes, Radix::Decimal);
    append_str(&mut line, " src=");
    target.target_ip_addr.write_to(&mut line);
    append_str(&mut line, " dst=");
    target.source_ip_addr.write_to(&mut line);
    append_str(&mut line, " sport=443 dport=50054 packets=");
    spell(&mut line, target.out_traffic.packets, Radix::Decimal);
    append_str(&mut line, " bytes=");
    spell(&mut line, target.out_traffic.bytes, Radix::Decimal);
    append_str(&mut line, " [ASSURED] mark=0 zone=0 use=2\n");
    append(out, line.as_slice());
}

impl<'a> ConntrackSimulator<'a> {
    /// The text to write to the file: the connections in
    /// connection-tracking form.
    pub fn dump(&self) -> (text: Vec<u8>)
        ensures
            text@ == spec_render(self.spec_targets()),
    {
        let mut text: Vec<u8> = Vec::new();
        let mut i: usize = 0;
        while i < self.targets.len()
            invariant
                i <= self.targets@.len(),
                text@ == spec_render(self.targets@.take(i as int)),
            decreases self.targets@.len() - i,
        {
            proof {
                assert(self.targets@.take(i + 1).drop_last() =~= self.targets@.take(i as int));
            }
            render_target(&mut text, &self.targets[i]);
            i += 1;
        }
        proof {
            assert(self.targets@.take(i as int) =~= self.targets@);
        }
        text
    }
}

} // verus!
