//! The simulated counters of the interface that faces the outside: the
//! totals of the simulated connections, in the text form of the kernel.

use crate::common::text::{append_str, spell, spelled, Radix};
use crate::simulator::conntrack::ConntrackSimulator;
use crate::simulator::traffic::Traffic;
use vstd::prelude::*;
use vstd::string::StringSliceAdditionalSpecFns;

verus! {

#[derive(Debug)]
pub struct DeviceSimulator<'a> {
    file: &'a str,
}

/// The text of the counters of the interface `eth0` that has received
/// `incoming` and sent `outgoing`: two lines of headings, and the line
/// of the interface.
pub open spec fn spec_render(incoming: Traffic, outgoing: Traffic) -> Seq<u8> {
    "Inter-|   Receive                                                |  Transmit\n".spec_bytes()
        + " face |bytes    packets errs drop fifo frame compressed multicast|bytes    packets errs drop fifo colls carrier compressed\n".spec_bytes()
        + "  eth0:  ".spec_bytes() + spelled(incoming.bytes as nat, 10) + "    ".spec_bytes()
        + spelled(incoming.packets as nat, 10)
        + "    0    0    0     0          0         6   ".spec_bytes() + spelled(
        outgoing.bytes as nat,
        10,
    ) + "    ".spec_bytes() + spelled(outgoing.packets as nat, 10)
        + "    0    0    0     0       0          0\n".spec_bytes()
}

/// Writes the text of the counters: see [`spec_render`].
pub fn render(incoming: Traffic, outgoing: Traffic) -> (text: Vec<u8>)
    ensures
        text@ == spec_render(incoming, outgoing),
{
    let mut text: Vec<u8> = Vec::new();
    append_str(
        &mut text,
        "Inter-|   Receive                                                |  Transmit\n",
    );
    append_str(
        &mut text,
        " face |bytes    packets errs drop fifo frame compressed multicast|bytes    packets errs drop fifo colls carrier compressed\n",
    );
    append_str(&mut text, "  eth0:  ");
    spell(&mut text, incoming.bytes, Radix::Decimal);
    append_str(&mut text, "    ");
    spell(&mut text, incoming.packets, Radix::Decimal);
    append_str(&mut text, "    0    0    0     0          0         6   ");
    spell(&mut text, outgoing.bytes, Radix::Decimal);
    append_str(&mut text, "    ");
    spell(&mut text, outgoing.packets, Radix::Decimal);
    append_str(&mut text, "    0    0    0     0       0          0\n");
    text
}

impl<'a> DeviceSimulator<'a> {
    /// The file that the simulation writes to.
    pub closed spec fn spec_file(&self) -> &'a str {
        self.file
    }

    pub fn new(file: &'a str) -> (simulator: DeviceSimulator<'a>)
        ensures
            simulator.spec_file() == file,
    {
        DeviceSimulator { file }
    }

    pub fn file(&self) -> (file: &'a str)
        ensures
            file == self.spec_file(),
    {
        self.file
    }

    /// The text to write to the file: the counters of the interface, which
    /// are the totals of the simulated connections.
    pub fn dump(&self, conntrack_simulator: &ConntrackSimulator) -> (text: Vec<u8>)
        requires
            conntrack_simulator.wf(),
        ensures
            text@ == spec_render(
                Traffic {
                    bytes: conntrack_simulator.spec_total_in().0 as u64,
                    packets: conntrack_simulator.spec_total_in().1 as u64,
                },
                Traffic {
                    bytes: conntrack_simulator.spec_total_out().0 as u64,
                    packets: conntrack_simulator.spec_total_out().1 as u64,
                },
            ),
    {
        let in_traffic = conntrack_simulator.total_in_traffic();
        let out_traffic = conntrack_simulator.total_out_traffic();
        render(in_traffic, out_traffic)
    }
}

} // verus!
